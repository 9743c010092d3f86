use vstd::prelude::*;

verus! {

/// How deeply lists and dictionaries may nest inside a value that is skipped.
pub const MAX_SKIP_DEPTH: usize = 64;

pub open spec fn is_digit(b: u8) -> bool {
    48 <= b && b <= 57
}

/// The first index at or after `k` that does not hold a decimal digit.
pub open spec fn digits_end(s: Seq<u8>, k: int) -> int
    decreases s.len() - k,
{
    if k < 0 || k >= s.len() || !is_digit(s[k]) {
        k
    } else {
        digits_end(s, k + 1)
    }
}

/// The number written in decimal by `s[lo..hi]`.
pub open spec fn digits_value(s: Seq<u8>, lo: int, hi: int) -> nat
    decreases hi - lo,
{
    if hi <= lo {
        0
    } else {
        digits_value(s, lo, hi - 1) * 10 + (s[hi - 1] - 48) as nat
    }
}

/// A digit run `s[lo..hi]` that is not empty and has no leading zero.
pub open spec fn canonical_digits(s: Seq<u8>, lo: int, hi: int) -> bool {
    lo < hi && (s[lo] != 48 || hi == lo + 1)
}

/// An integer token `i<digits>e` at `i`: its sign, its magnitude and the index
/// after it. `-0`, leading zeros and magnitudes beyond 64 bits are refused.
pub open spec fn int_token(s: Seq<u8>, i: int) -> Option<(bool, nat, int)> {
    if 0 <= i < s.len() && s[i] == 105 {
        let neg = i + 1 < s.len() && s[i + 1] == 45;
        let lo = if neg { i + 2 } else { i + 1 };
        let hi = digits_end(s, lo);
        if canonical_digits(s, lo, hi) && hi < s.len() && s[hi] == 101 && !(neg && s[lo] == 48)
            && digits_value(s, lo, hi) <= u64::MAX {
            Some((neg, digits_value(s, lo, hi), hi + 1))
        } else {
            None
        }
    } else {
        None
    }
}

/// A non-negative integer token that fits in `max`: its value and the index after it.
pub open spec fn uint_token(s: Seq<u8>, i: int, max: nat) -> Option<(nat, int)> {
    match int_token(s, i) {
        Some((neg, v, e)) => if !neg && v <= max {
            Some((v, e))
        } else {
            None
        },
        None => None,
    }
}

/// A byte string token `<len>:<bytes>` at `i`: where its content starts and ends.
pub open spec fn str_token(s: Seq<u8>, i: int) -> Option<(int, int)> {
    let hi = digits_end(s, i);
    let n = digits_value(s, i, hi);
    if 0 <= i && canonical_digits(s, i, hi) && hi < s.len() && s[hi] == 58 && hi + 1 + n
        <= s.len() {
        Some((hi + 1, hi + 1 + n))
    } else {
        None
    }
}

/// Where the well-formed value at `i` ends, with containers nested at most `d` deep.
pub open spec fn skip_end(s: Seq<u8>, i: int, d: nat) -> Option<int>
    decreases d, 0int, 0int,
{
    if !(0 <= i < s.len()) {
        None
    } else if s[i] == 105 {
        match int_token(s, i) {
            Some((_, _, e)) => Some(e),
            None => None,
        }
    } else if s[i] == 108 {
        if d == 0 {
            None
        } else {
            list_skip(s, i + 1, (d - 1) as nat)
        }
    } else if s[i] == 100 {
        if d == 0 {
            None
        } else {
            dict_skip(s, i + 1, (d - 1) as nat)
        }
    } else {
        match str_token(s, i) {
            Some((_, e)) => Some(e),
            None => None,
        }
    }
}

/// Where the list whose items start at `j` ends.
pub open spec fn list_skip(s: Seq<u8>, j: int, d: nat) -> Option<int>
    decreases d, 1int, s.len() - j,
{
    if !(0 <= j < s.len()) {
        None
    } else if s[j] == 101 {
        Some(j + 1)
    } else {
        match skip_end(s, j, d) {
            Some(e) => if j < e && e <= s.len() {
                list_skip(s, e, d)
            } else {
                None
            },
            None => None,
        }
    }
}

/// Where the dictionary whose entries start at `j` ends; keys are byte strings.
pub open spec fn dict_skip(s: Seq<u8>, j: int, d: nat) -> Option<int>
    decreases d, 1int, s.len() - j,
{
    if !(0 <= j < s.len()) {
        None
    } else if s[j] == 101 {
        Some(j + 1)
    } else {
        match str_token(s, j) {
            Some((_, k)) => match skip_end(s, k, d) {
                Some(e) => if j < e && e <= s.len() {
                    dict_skip(s, e, d)
                } else {
                    None
                },
                None => None,
            },
            None => None,
        }
    }
}

/// A string token's content lies inside the input, after its length prefix.
pub proof fn lemma_str_token_bounds(s: Seq<u8>, i: int)
    ensures
        str_token(s, i) matches Some((a, e)) ==> i < a <= e <= s.len(),
{
    if str_token(s, i) is Some {
        lemma_digits_end_bounds(s, i);
    }
}

proof fn lemma_digits_value_grows(s: Seq<u8>, lo: int, k: int, hi: int)
    requires
        lo <= k <= hi,
        forall|t: int| lo <= t < hi ==> is_digit(#[trigger] s[t]),
    ensures
        digits_value(s, lo, k) <= digits_value(s, lo, hi),
    decreases hi - k,
{
    if k < hi {
        lemma_digits_value_grows(s, lo, k + 1, hi);
    }
}

proof fn lemma_digits_end_bounds(s: Seq<u8>, k: int)
    requires
        0 <= k <= s.len(),
    ensures
        k <= digits_end(s, k) <= s.len(),
    decreases s.len() - k,
{
    if k < s.len() && is_digit(s[k]) {
        lemma_digits_end_bounds(s, k + 1);
    }
}

proof fn lemma_digits_end(s: Seq<u8>, k: int, t: int)
    requires
        0 <= k <= t < digits_end(s, k),
    ensures
        is_digit(s[t]),
    decreases s.len() - k,
{
    if k < t {
        lemma_digits_end(s, k + 1, t);
    }
}

/// Reads the run of decimal digits that starts at `lo`; `None` where its value
/// does not fit in 64 bits.
fn read_digits(s: &[u8], lo: usize) -> (r: Option<(u64, usize)>)
    requires
        lo <= s@.len(),
    ensures
        r matches Some((v, e)) ==> e == digits_end(s@, lo as int) && v == digits_value(
            s@,
            lo as int,
            e as int,
        ),
        r is None <==> digits_value(s@, lo as int, digits_end(s@, lo as int)) > u64::MAX,
        r matches Some((v, e)) ==> lo <= e <= s@.len(),
{
    let mut v: u64 = 0;
    let mut k: usize = lo;
    while k < s.len() && 48 <= s[k] && s[k] <= 57
        invariant
            lo <= k <= s@.len(),
            digits_end(s@, lo as int) == digits_end(s@, k as int),
            v == digits_value(s@, lo as int, k as int),
            forall|t: int| lo <= t < k ==> is_digit(#[trigger] s@[t]),
        decreases s@.len() - k,
    {
        let d = (s[k] - 48) as u64;
        assert(digits_value(s@, lo as int, k + 1) == v * 10 + d);
        if v > (u64::MAX - d) / 10 {
            proof {
                let hi = digits_end(s@, lo as int);
                assert(digits_end(s@, k as int) == digits_end(s@, k + 1));
                lemma_digits_end_bounds(s@, k + 1);
                assert forall|t: int| lo <= t < hi implies is_digit(#[trigger] s@[t]) by {
                    if t >= k {
                        lemma_digits_end(s@, k as int, t);
                    }
                }
                if k + 1 < hi {
                    lemma_digits_end(s@, k as int, k + 1);
                }
                lemma_digits_end(s@, k as int, k as int);
                lemma_digits_value_grows(s@, lo as int, k + 1, hi);
            }
            return None;
        }
        v = v * 10 + d;
        k = k + 1;
    }
    proof {
        lemma_digits_end_bounds(s@, k as int);
    }
    Some((v, k))
}

/// Reads the integer token at `i`.
pub fn read_int(s: &[u8], i: usize) -> (r: Option<(bool, u64, usize)>)
    requires
        i <= s@.len(),
    ensures
        match r {
            Some((neg, v, e)) => int_token(s@, i as int) == Some((neg, v as nat, e as int)),
            None => int_token(s@, i as int) is None,
        },
{
    if i >= s.len() || s[i] != 105 {
        return None;
    }
    let neg = i + 1 < s.len() && s[i + 1] == 45;
    let lo = if neg { i + 2 } else { i + 1 };
    match read_digits(s, lo) {
        None => None,
        Some((v, hi)) => {
            proof {
                if lo < hi {
                    lemma_digits_end(s@, lo as int, lo as int);
                }
            }
            if lo < hi && (s[lo] != 48 || hi == lo + 1) && hi < s.len() && s[hi] == 101 && !(neg
                && s[lo] == 48) {
                Some((neg, v, hi + 1))
            } else {
                None
            }
        },
    }
}

/// Reads a non-negative integer token no larger than `max`.
pub fn read_uint(s: &[u8], i: usize, max: u64) -> (r: Option<(u64, usize)>)
    requires
        i <= s@.len(),
    ensures
        match r {
            Some((v, e)) => uint_token(s@, i as int, max as nat) == Some((v as nat, e as int)),
            None => uint_token(s@, i as int, max as nat) is None,
        },
{
    match read_int(s, i) {
        Some((neg, v, e)) => if !neg && v <= max {
            Some((v, e))
        } else {
            None
        },
        None => None,
    }
}

/// Reads the byte string token at `i`: where its content starts and ends.
pub fn read_str(s: &[u8], i: usize) -> (r: Option<(usize, usize)>)
    requires
        i <= s@.len(),
    ensures
        match r {
            Some((a, b)) => str_token(s@, i as int) == Some((a as int, b as int)) && b <= s@.len(),
            None => str_token(s@, i as int) is None,
        },
{
    let len = s.len();
    match read_digits(s, i) {
        None => {
            proof {
                lemma_digits_end_bounds(s@, i as int);
                assert(s@.len() == len);
            }
            None
        },
        Some((n, hi)) => {
            proof {
                if i < hi {
                    lemma_digits_end(s@, i as int, i as int);
                }
            }
            if i < hi && (s[i] != 48 || hi == i + 1) && hi < s.len() && s[hi] == 58 && n <= (s.len()
                - hi - 1) as u64 {
                Some((hi + 1, hi + 1 + n as usize))
            } else {
                None
            }
        },
    }
}

/// Steps over the well-formed value at `i`, lists and dictionaries nested at most
/// `d` deep; returns the index after it.
pub fn skip_value(s: &[u8], i: usize, d: usize) -> (r: Option<usize>)
    requires
        i <= s@.len(),
    ensures
        match r {
            Some(e) => skip_end(s@, i as int, d as nat) == Some(e as int),
            None => skip_end(s@, i as int, d as nat) is None,
        },
    decreases d,
{
    if i >= s.len() {
        return None;
    }
    if s[i] == 105 {
        match read_int(s, i) {
            Some((_, _, e)) => Some(e),
            None => None,
        }
    } else if s[i] == 108 || s[i] == 100 {
        if d == 0 {
            return None;
        }
        let is_dict = s[i] == 100;
        let ghost d1 = (d - 1) as nat;
        let mut j: usize = i + 1;
        while j < s.len()
            invariant
                i < j <= s@.len(),
                d > 0,
                d1 == d - 1,
                is_dict == (s@[i as int] == 100),
                skip_end(s@, i as int, d as nat) == if is_dict {
                    dict_skip(s@, j as int, d1)
                } else {
                    list_skip(s@, j as int, d1)
                },
            decreases s@.len() - j,
        {
            if s[j] == 101 {
                return Some(j + 1);
            }
            let k = if is_dict {
                match read_str(s, j) {
                    Some((_, k)) => k,
                    None => {
                        return None;
                    },
                }
            } else {
                j
            };
            match skip_value(s, k, d - 1) {
                Some(e) => {
                    if !(j < e && e <= s.len()) {
                        return None;
                    }
                    j = e;
                },
                None => {
                    return None;
                },
            }
        }
        None
    } else {
        match read_str(s, i) {
            Some((_, e)) => Some(e),
            None => None,
        }
    }
}

} // verus!
