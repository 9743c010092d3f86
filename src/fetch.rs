use vstd::prelude::*;

use crate::cache::{decode_entry, encode_entry, entry_bytes, entry_content, entry_time, storable, Timestamp};

verus! {

/// Why a descriptor could not be served.
#[derive(Debug, Clone, Copy, PartialEq, Eq, Structural)]
pub enum TorrentError {
    TimedOut,
    ParseFailed,
    UnexpectedResponse,
    NoSlotsAvailable,
    CacheFailed,
}

/// The message of each kind of error; no two kinds share one.
pub open spec fn error_message(e: TorrentError) -> Seq<char> {
    match e {
        TorrentError::TimedOut => "timed out getting torrent file"@,
        TorrentError::ParseFailed => "could not parse torrent"@,
        TorrentError::UnexpectedResponse => "unexpected response from the resolver"@,
        TorrentError::NoSlotsAvailable => "no slots available"@,
        TorrentError::CacheFailed => "failed to get item from cache"@,
    }
}

/// The kind of an error can be told from its message.
pub proof fn lemma_messages_distinct(a: TorrentError, b: TorrentError)
    ensures
        error_message(a) == error_message(b) ==> a == b,
{
    reveal_strlit("timed out getting torrent file");
    reveal_strlit("could not parse torrent");
    reveal_strlit("unexpected response from the resolver");
    reveal_strlit("no slots available");
    reveal_strlit("failed to get item from cache");
    if error_message(a) == error_message(b) {
        assert(error_message(a)[0] == error_message(b)[0]);
    }
}

impl TorrentError {
    /// A message for people, one per kind.
    pub fn message(&self) -> (r: &'static str)
        ensures
            r@ == error_message(*self),
    {
        match self {
            TorrentError::TimedOut => "timed out getting torrent file",
            TorrentError::ParseFailed => "could not parse torrent",
            TorrentError::UnexpectedResponse => "unexpected response from the resolver",
            TorrentError::NoSlotsAvailable => "no slots available",
            TorrentError::CacheFailed => "failed to get item from cache",
        }
    }
}

/// A fixed number of permits for calls into the resolver; taking one never waits.
pub struct PermitPool {
    capacity: usize,
    in_use: usize,
}

impl PermitPool {
    /// No more permits are out than the pool holds.
    pub open spec fn wf(&self) -> bool {
        self.in_use_spec() <= self.capacity_spec()
    }

    pub closed spec fn capacity_spec(&self) -> nat {
        self.capacity as nat
    }

    pub closed spec fn in_use_spec(&self) -> nat {
        self.in_use as nat
    }

    /// A pool of `capacity` permits, none of them taken.
    pub fn new(capacity: usize) -> (r: Self)
        ensures
            r.wf(),
            r.capacity_spec() == capacity,
            r.in_use_spec() == 0,
    {
        PermitPool { capacity, in_use: 0 }
    }

    /// How many permits are free.
    pub fn available(&self) -> (r: usize)
        requires
            self.wf(),
        ensures
            r == self.capacity_spec() - self.in_use_spec(),
    {
        self.capacity - self.in_use
    }

    /// Takes a permit if one is free; fails at once with `NoSlotsAvailable` if none is.
    pub fn try_acquire(&mut self) -> (r: Result<(), TorrentError>)
        requires
            old(self).wf(),
        ensures
            final(self).wf(),
            final(self).capacity_spec() == old(self).capacity_spec(),
            (final(self).in_use_spec(), r is Ok) == acquire_step(
                old(self).capacity_spec(),
                old(self).in_use_spec(),
            ),
            r matches Err(e) ==> e == TorrentError::NoSlotsAvailable,
    {
        if self.in_use < self.capacity {
            self.in_use = self.in_use + 1;
            Ok(())
        } else {
            Err(TorrentError::NoSlotsAvailable)
        }
    }

    /// Gives a permit back.
    pub fn release(&mut self)
        requires
            old(self).wf(),
            old(self).in_use_spec() > 0,
        ensures
            final(self).wf(),
            final(self).capacity_spec() == old(self).capacity_spec(),
            final(self).in_use_spec() == old(self).in_use_spec() - 1,
    {
        self.in_use = self.in_use - 1;
    }
}

/// One attempt to take a permit from a pool of `capacity` with `in_use` taken:
/// the permits taken after it, and whether it got one.
pub open spec fn acquire_step(capacity: nat, in_use: nat) -> (nat, bool) {
    if in_use < capacity {
        (in_use + 1, true)
    } else {
        (in_use, false)
    }
}

/// How many of `n` attempts in a row, none released in between, get a permit,
/// and how many fail.
pub open spec fn acquisitions(capacity: nat, in_use: nat, n: nat) -> (nat, nat)
    decreases n,
{
    if n == 0 {
        (0, 0)
    } else {
        let (next, ok) = acquire_step(capacity, in_use);
        let (wins, losses) = acquisitions(capacity, next, (n - 1) as nat);
        if ok {
            (wins + 1, losses)
        } else {
            (wins, losses + 1)
        }
    }
}

/// Of `n` attempts against a pool with `capacity - in_use` free permits, as many
/// succeed as there are free permits (or attempts), and the others fail.
pub proof fn lemma_acquisitions(capacity: nat, in_use: nat, n: nat)
    requires
        in_use <= capacity,
    ensures
        acquisitions(capacity, in_use, n) == (
            if n <= capacity - in_use { n } else { (capacity - in_use) as nat },
            if n <= capacity - in_use { 0nat } else { (n - (capacity - in_use)) as nat },
        ),
    decreases n,
{
    if n > 0 {
        let (next, ok) = acquire_step(capacity, in_use);
        lemma_acquisitions(capacity, next, (n - 1) as nat);
    }
}

/// `k + 1` simultaneous fetches against an idle pool of `k` permits: `k` get a
/// permit and exactly one fails with `NoSlotsAvailable`.
pub proof fn lemma_one_fetch_too_many(k: nat)
    ensures
        acquisitions(k, 0, k + 1) == (k, 1nat),
{
    lemma_acquisitions(k, 0, k + 1);
}

/// How a call into the resolver ended.
pub enum Resolution {
    /// The descriptor's bytes, and nothing else to do.
    Descriptor(Vec<u8>),
    /// Any other kind of answer, such as a download that was started.
    OtherResponse,
    /// The resolver reported an error.
    Failed,
    /// The deadline passed first.
    DeadlineExceeded,
}

/// What a fetch returns for the resolver's outcome: the bytes when it gave the
/// descriptor, `TimedOut` when the deadline passed, `UnexpectedResponse` otherwise.
pub fn fetch_result(outcome: Resolution) -> (r: Result<Vec<u8>, TorrentError>)
    ensures
        match outcome {
            Resolution::Descriptor(b) => r matches Ok(v) && v@ == b@,
            Resolution::DeadlineExceeded => r == Err::<Vec<u8>, TorrentError>(TorrentError::TimedOut),
            _ => r == Err::<Vec<u8>, TorrentError>(TorrentError::UnexpectedResponse),
        },
{
    match outcome {
        Resolution::Descriptor(b) => Ok(b),
        Resolution::DeadlineExceeded => Err(TorrentError::TimedOut),
        _ => Err(TorrentError::UnexpectedResponse),
    }
}

/// What to do for a request once the cache has been read.
pub enum Lookup {
    /// Serve these bytes from the cache.
    Hit(Vec<u8>),
    /// A permit was taken: call the resolver, then `finish_fetch`.
    Fetch,
    /// Answer with this error.
    Refused(TorrentError),
}

/// The first step of serving a descriptor: the cached value if there is one that
/// reads back (a corrupt one counts as a miss), else a permit for a fetch, taken
/// without waiting.
pub fn begin_fetch(stored: Option<Vec<u8>>, pool: &mut PermitPool) -> (r: Lookup)
    requires
        old(pool).wf(),
    ensures
        final(pool).wf(),
        final(pool).capacity_spec() == old(pool).capacity_spec(),
        match stored {
            Some(v) if entry_content(v@) is Some => r matches Lookup::Hit(b) && entry_content(v@)
                == Some(b@) && final(pool).in_use_spec() == old(pool).in_use_spec(),
            _ => {
                &&& (final(pool).in_use_spec(), r is Fetch) == acquire_step(
                    old(pool).capacity_spec(),
                    old(pool).in_use_spec(),
                )
                &&& (r is Fetch || r == Lookup::Refused(TorrentError::NoSlotsAvailable))
            },
        },
{
    if let Some(v) = stored {
        if let Some(b) = decode_entry(v.as_slice()) {
            return Lookup::Hit(b);
        }
    }
    match pool.try_acquire() {
        Ok(()) => Lookup::Fetch,
        Err(e) => Lookup::Refused(e),
    }
}

/// The last step of a fetch: the permit goes back, the resolver's outcome decides
/// the answer, and a descriptor also gets the value to store for it at `now`,
/// which reads back as that descriptor (`None` only where its compressed form is
/// too large to store; the answer stands either way).
pub fn finish_fetch(outcome: Resolution, pool: &mut PermitPool, now: Timestamp) -> (r: Result<
    (Vec<u8>, Option<Vec<u8>>),
    TorrentError,
>)
    requires
        old(pool).wf(),
        old(pool).in_use_spec() > 0,
    ensures
        final(pool).wf(),
        final(pool).capacity_spec() == old(pool).capacity_spec(),
        final(pool).in_use_spec() == old(pool).in_use_spec() - 1,
        match outcome {
            Resolution::Descriptor(b) => r matches Ok((v, s)) && v@ == b@ && (s is Some <==> storable(
                b@,
            )) && (s matches Some(x) ==> x@ == entry_bytes(b@, now) && entry_content(x@) == Some(b@)
                && entry_time(x@) == Some(now)),
            Resolution::DeadlineExceeded => r matches Err(e) && e == TorrentError::TimedOut,
            _ => r matches Err(e) && e == TorrentError::UnexpectedResponse,
        },
{
    pool.release();
    match fetch_result(outcome) {
        Ok(bytes) => {
            let stored = encode_entry(bytes.as_slice(), now);
            Ok((bytes, stored))
        },
        Err(e) => Err(e),
    }
}

} // verus!
