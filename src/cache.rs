use vstd::prelude::*;

verus! {

/// A point in time, as seconds and nanoseconds since the Unix epoch.
#[derive(Debug, Clone, Copy, PartialEq, Eq, Structural)]
pub struct Timestamp {
    pub secs: u64,
    pub nanos: u32,
}

/// Whether `a` comes strictly before `b`.
pub open spec fn earlier(a: Timestamp, b: Timestamp) -> bool {
    a.secs < b.secs || (a.secs == b.secs && a.nanos < b.nanos)
}

impl Timestamp {
    /// Whether `self` comes strictly before `other`.
    pub fn is_before(&self, other: &Timestamp) -> (r: bool)
        ensures
            r == earlier(*self, *other),
    {
        self.secs < other.secs || (self.secs == other.secs && self.nanos < other.nanos)
    }
}

/// The zstd frame that compresses `b` at the level the cache uses.
pub uninterp spec fn zstd_frame(b: Seq<u8>) -> Seq<u8>;

/// What a zstd frame decompresses to, if it is a valid frame.
pub uninterp spec fn zstd_content(c: Seq<u8>) -> Option<Seq<u8>>;

/// The bincode encoding, in its standard configuration, of a record of a payload
/// and a time.
pub uninterp spec fn record_bytes(payload: Seq<u8>, secs: u64, nanos: u32) -> Seq<u8>;

/// The record that bincode, in its standard configuration, reads from the start of `b`.
pub uninterp spec fn record_fields(b: Seq<u8>) -> Option<(Seq<u8>, u64, u32)>;

/// Level 6: the compression level of stored payloads.
const COMPRESSION_LEVEL: i32 = 6;

/// The most bytes that reading a stored record may claim.
const RECORD_LIMIT: usize = 268435456;

/// The largest compressed payload the cache stores or reads back. Reading a record
/// claims its payload's length and 20 bytes more against `RECORD_LIMIT`, so a
/// payload up to this size is always read, and a corrupt length prefix that claims
/// far more is refused rather than allocated.
pub const MAX_STORED_PAYLOAD: usize = 268435392;

/// Relies on zstd::stream::encode_all: compresses a byte buffer into one frame;
/// reading from a slice cannot fail, the same bytes give the same frame, and
/// compression is lossless.
#[verifier::external_body]
fn compress(b: &[u8]) -> (r: Option<Vec<u8>>)
    ensures
        r is Some,
        r matches Some(c) ==> c@ == zstd_frame(b@) && zstd_content(c@) == Some(b@),
{
    zstd::stream::encode_all(b, COMPRESSION_LEVEL).ok()
}

/// Relies on zstd::stream::decode_all: decompresses a frame.
#[verifier::external_body]
fn decompress(c: &[u8]) -> (r: Option<Vec<u8>>)
    ensures
        r matches Some(b) ==> zstd_content(c@) == Some(b@),
        r is None <==> zstd_content(c@) is None,
{
    zstd::stream::decode_all(c).ok()
}

/// Relies on bincode::encode_to_vec with the standard configuration: writes the
/// payload, then the seconds and nanoseconds of the time, which cannot fail for
/// these types; decoding reads the same record back.
#[verifier::external_body]
fn encode_record(payload: &Vec<u8>, secs: u64, nanos: u32) -> (r: Option<Vec<u8>>)
    ensures
        r is Some,
        r matches Some(v) ==> v@ == record_bytes(payload@, secs, nanos) && record_fields(v@) == Some(
            (payload@, secs, nanos),
        ),
{
    bincode::encode_to_vec((payload, secs, nanos), bincode::config::standard()).ok()
}

/// Relies on bincode::decode_from_slice with the standard configuration, limited
/// to `RECORD_LIMIT` bytes: reads back a record from the start of the bytes; one
/// whose payload is at most `MAX_STORED_PAYLOAD` bytes stays within the limit.
#[verifier::external_body]
fn decode_record(b: &[u8]) -> (r: Option<(Vec<u8>, u64, u32)>)
    ensures
        r matches Some((p, secs, nanos)) ==> record_fields(b@) == Some((p@, secs, nanos)),
        (record_fields(b@) matches Some((p, _, _)) && p.len() <= MAX_STORED_PAYLOAD) ==> r is Some,
{
    match bincode::decode_from_slice::<(Vec<u8>, u64, u32), _>(
        b,
        bincode::config::standard().with_limit::<RECORD_LIMIT>(),
    ) {
        Ok((record, _)) => Some(record),
        Err(_) => None,
    }
}

/// The record a stored value holds, if it reads and its payload is within
/// `MAX_STORED_PAYLOAD`.
pub open spec fn stored_record(stored: Seq<u8>) -> Option<(Seq<u8>, u64, u32)> {
    match record_fields(stored) {
        Some((p, secs, nanos)) => if p.len() <= MAX_STORED_PAYLOAD {
            Some((p, secs, nanos))
        } else {
            None
        },
        None => None,
    }
}

/// The stored form of a descriptor put into the cache at time `t`.
pub open spec fn entry_bytes(raw: Seq<u8>, t: Timestamp) -> Seq<u8> {
    record_bytes(zstd_frame(raw), t.secs, t.nanos)
}

/// Whether the cache can hold `raw`: its compressed form is within `MAX_STORED_PAYLOAD`.
pub open spec fn storable(raw: Seq<u8>) -> bool {
    zstd_frame(raw).len() <= MAX_STORED_PAYLOAD
}

/// The descriptor that a stored value gives back, if it can be read.
pub open spec fn entry_content(stored: Seq<u8>) -> Option<Seq<u8>> {
    match stored_record(stored) {
        Some((p, _, _)) => zstd_content(p),
        None => None,
    }
}

/// The time a stored value was last written, if it can be read.
pub open spec fn entry_time(stored: Seq<u8>) -> Option<Timestamp> {
    match stored_record(stored) {
        Some((_, secs, nanos)) => Some(Timestamp { secs, nanos }),
        None => None,
    }
}

/// Reads the record of a stored value; `None` where it does not read or its
/// payload is over `MAX_STORED_PAYLOAD`.
fn read_record(stored: &[u8]) -> (r: Option<(Vec<u8>, u64, u32)>)
    ensures
        match r {
            Some((p, secs, nanos)) => stored_record(stored@) == Some((p@, secs, nanos)),
            None => stored_record(stored@) is None,
        },
{
    match decode_record(stored) {
        Some((p, secs, nanos)) => if p.len() <= MAX_STORED_PAYLOAD {
            Some((p, secs, nanos))
        } else {
            None
        },
        None => None,
    }
}

/// The value stored for a descriptor put at time `now`: its compressed bytes and
/// the time. There is one exactly when the compressed bytes are within
/// `MAX_STORED_PAYLOAD`; reading it back gives the descriptor and the time unchanged.
pub fn encode_entry(raw: &[u8], now: Timestamp) -> (r: Option<Vec<u8>>)
    ensures
        r is Some <==> storable(raw@),
        r matches Some(v) ==> v@ == entry_bytes(raw@, now),
        r matches Some(v) ==> entry_content(v@) == Some(raw@),
        r matches Some(v) ==> entry_time(v@) == Some(now),
{
    match compress(raw) {
        Some(compressed) => if compressed.len() <= MAX_STORED_PAYLOAD {
            encode_record(&compressed, now.secs, now.nanos)
        } else {
            None
        },
        None => None,
    }
}

/// The descriptor held by a stored value; `None` exactly where the value cannot be
/// read back, which callers treat as a miss.
pub fn decode_entry(stored: &[u8]) -> (r: Option<Vec<u8>>)
    ensures
        match r {
            Some(b) => entry_content(stored@) == Some(b@),
            None => entry_content(stored@) is None,
        },
{
    match read_record(stored) {
        Some((payload, _, _)) => decompress(payload.as_slice()),
        None => None,
    }
}

/// The time a stored value was last written; `None` where it cannot be read.
pub fn decode_entry_time(stored: &[u8]) -> (r: Option<Timestamp>)
    ensures
        r == entry_time(stored@),
{
    match read_record(stored) {
        Some((_, secs, nanos)) => Some(Timestamp { secs, nanos }),
        None => None,
    }
}

/// Whether a store holding `len` entries is over `capacity` and must be swept.
pub fn needs_sweep(len: usize, capacity: usize) -> (r: bool)
    ensures
        r == (len > capacity),
{
    len > capacity
}

/// Among readable times, `times[i]` is the first of the oldest.
pub open spec fn is_oldest(times: Seq<Option<Timestamp>>, i: int) -> bool {
    &&& 0 <= i < times.len()
    &&& times[i] is Some
    &&& forall|j: int|
        0 <= j < times.len() && times[j] is Some ==> !earlier(
            times[j]->Some_0,
            times[i]->Some_0,
        )
    &&& forall|j: int|
        0 <= j < i && times[j] is Some ==> earlier(times[i]->Some_0, times[j]->Some_0)
}

/// The sweep's victim: the entry written longest ago, the first of them on a tie;
/// entries whose time cannot be read are passed over. `None` where no time can be
/// read.
pub fn oldest_entry(times: &Vec<Option<Timestamp>>) -> (r: Option<usize>)
    ensures
        match r {
            Some(i) => is_oldest(times@, i as int),
            None => forall|j: int| 0 <= j < times@.len() ==> times@[j] is None,
        },
{
    let mut best: Option<usize> = None;
    let mut i: usize = 0;
    while i < times.len()
        invariant
            i <= times@.len(),
            match best {
                Some(b) => b < i && is_oldest(times@.subrange(0, i as int), b as int),
                None => forall|j: int| 0 <= j < i ==> times@[j] is None,
            },
        decreases times@.len() - i,
    {
        let ghost prefix = times@.subrange(0, i as int);
        let ghost next = times@.subrange(0, i + 1);
        assert(forall|j: int| 0 <= j < i ==> next[j] == prefix[j]);
        if let Some(t) = times[i] {
            match best {
                None => {
                    best = Some(i);
                },
                Some(b) => {
                    let bt = times[b].unwrap();
                    assert(times@[b as int] == prefix[b as int]);
                    if t.is_before(&bt) {
                        best = Some(i);
                    }
                },
            }
        }
        i = i + 1;
    }
    proof {
        assert(times@.subrange(0, times@.len() as int) =~= times@);
    }
    best
}

/// A store modelled as the time each key was last written.
pub type StoreModel = Map<Seq<u8>, Timestamp>;

/// `k` is one of the keys written longest ago.
pub open spec fn is_oldest_key(m: StoreModel, k: Seq<u8>) -> bool {
    m.dom().contains(k) && forall|j: Seq<u8>| #[trigger] m.dom().contains(j) ==> !earlier(m[j], m[k])
}

/// A put followed by its sweep: the value is written, then, if the store is over
/// `capacity`, one of its oldest entries is removed.
pub open spec fn put_and_sweep(m: StoreModel, capacity: nat, k: Seq<u8>, t: Timestamp) -> StoreModel {
    let w = m.insert(k, t);
    if w.len() > capacity {
        w.remove(choose|v: Seq<u8>| is_oldest_key(w, v))
    } else {
        w
    }
}

/// Puts, each followed by its sweep.
pub open spec fn puts_swept(m: StoreModel, capacity: nat, puts: Seq<(Seq<u8>, Timestamp)>) -> StoreModel
    decreases puts.len(),
{
    if puts.len() == 0 {
        m
    } else {
        let last = puts.last();
        put_and_sweep(puts_swept(m, capacity, puts.drop_last()), capacity, last.0, last.1)
    }
}

/// Puts whose sweeps have not run yet.
pub open spec fn puts_unswept(m: StoreModel, puts: Seq<(Seq<u8>, Timestamp)>) -> StoreModel
    decreases puts.len(),
{
    if puts.len() == 0 {
        m
    } else {
        let last = puts.last();
        puts_unswept(m, puts.drop_last()).insert(last.0, last.1)
    }
}

proof fn lemma_oldest_in(m: StoreModel, s: Set<Seq<u8>>)
    requires
        s.finite(),
        s.len() > 0,
    ensures
        exists|k: Seq<u8>| s.contains(k) && forall|j: Seq<u8>| #[trigger] s.contains(j) ==> !earlier(m[j], m[k]),
    decreases s.len(),
{
    let x = s.choose();
    let r = s.remove(x);
    if r.len() == 0 {
        assert forall|j: Seq<u8>| #[trigger] s.contains(j) implies !earlier(m[j], m[x]) by {
            if j != x {
                assert(r.contains(j));
            }
        }
    } else {
        lemma_oldest_in(m, r);
        let y = choose|k: Seq<u8>| r.contains(k) && forall|j: Seq<u8>| #[trigger] r.contains(j) ==> !earlier(m[j], m[k]);
        if earlier(m[x], m[y]) {
            assert forall|j: Seq<u8>| #[trigger] s.contains(j) implies !earlier(m[j], m[x]) by {
                if j != x {
                    assert(r.contains(j));
                }
            }
        } else {
            assert forall|j: Seq<u8>| #[trigger] s.contains(j) implies !earlier(m[j], m[y]) by {
                if j != x {
                    assert(r.contains(j));
                }
            }
        }
    }
}

/// A sweep of a store that is over capacity removes exactly one of its oldest entries.
pub proof fn lemma_sweep_removes_oldest(m: StoreModel, capacity: nat, k: Seq<u8>, t: Timestamp)
    requires
        m.dom().finite(),
        m.insert(k, t).len() > capacity,
    ensures
        exists|v: Seq<u8>| is_oldest_key(m.insert(k, t), v) && put_and_sweep(m, capacity, k, t) == m.insert(k, t).remove(v),
        put_and_sweep(m, capacity, k, t).len() == m.insert(k, t).len() - 1,
{
    let w = m.insert(k, t);
    assert(w.dom() == m.dom().insert(k));
    lemma_oldest_in(w, w.dom());
    let o = choose|o: Seq<u8>| w.dom().contains(o) && forall|j: Seq<u8>| #[trigger] w.dom().contains(j) ==> !earlier(w[j], w[o]);
    assert(is_oldest_key(w, o));
    let v = choose|v: Seq<u8>| is_oldest_key(w, v);
    assert(is_oldest_key(w, v));
}

/// Puts that have not been swept yet add at most one entry each.
pub proof fn lemma_unswept_growth(m: StoreModel, puts: Seq<(Seq<u8>, Timestamp)>)
    requires
        m.dom().finite(),
    ensures
        puts_unswept(m, puts).dom().finite(),
        puts_unswept(m, puts).len() <= m.len() + puts.len(),
    decreases puts.len(),
{
    if puts.len() > 0 {
        lemma_unswept_growth(m, puts.drop_last());
    }
}

/// Eviction bound: a store at most at `capacity` stays at most at `capacity`
/// through any puts that are each followed by their sweep, and exceeds it by no
/// more than the number of puts whose sweeps have not run.
pub proof fn lemma_eviction_bound(m: StoreModel, capacity: nat, puts: Seq<(Seq<u8>, Timestamp)>)
    requires
        m.dom().finite(),
        m.len() <= capacity,
    ensures
        puts_swept(m, capacity, puts).dom().finite(),
        puts_swept(m, capacity, puts).len() <= capacity,
        puts_unswept(puts_swept(m, capacity, puts), puts).len() <= capacity + puts.len(),
    decreases puts.len(),
{
    if puts.len() > 0 {
        let before = puts_swept(m, capacity, puts.drop_last());
        lemma_eviction_bound(m, capacity, puts.drop_last());
        let last = puts.last();
        if before.insert(last.0, last.1).len() > capacity {
            lemma_sweep_removes_oldest(before, capacity, last.0, last.1);
        }
    }
    lemma_unswept_growth(puts_swept(m, capacity, puts), puts);
}

/// The entry that `oldest_entry` picks from a scan of a store, where every time
/// read, is one of the store's oldest keys.
pub proof fn lemma_scan_picks_oldest_key(
    m: StoreModel,
    keys: Seq<Seq<u8>>,
    times: Seq<Option<Timestamp>>,
    i: int,
)
    requires
        keys.len() == times.len(),
        m.dom() == keys.to_set(),
        forall|k: int| 0 <= k < keys.len() ==> times[k] == Some(#[trigger] m[keys[k]]),
        is_oldest(times, i),
    ensures
        is_oldest_key(m, keys[i]),
{
    assert(keys.to_set().contains(keys[i]));
    assert forall|j: Seq<u8>| #[trigger] m.dom().contains(j) implies !earlier(m[j], m[keys[i]]) by {
        assert(keys.to_set().contains(j));
        let k = choose|k: int| 0 <= k < keys.len() && keys[k] == j;
        assert(times[k] == Some(m[keys[k]]));
        assert(times[i] == Some(m[keys[i]]));
    }
}

} // verus!
