use vstd::prelude::*;
use vstd::string::StringExecFns;

use crate::infohash::{hex_encoded, InfoHash};
use crate::torrent::texts;

verus! {

/// The URL text that results from appending the query pair `key=value` to the URL
/// `url`, if `url` parses.
pub uninterp spec fn url_with_pair(url: Seq<char>, key: Seq<char>, value: Seq<char>) -> Option<
    Seq<char>,
>;

/// Relies on url::Url::query_pairs_mut and form_urlencoded's append_pair, on the
/// URL that url::Url::parse reads from the text and serialized back: the text
/// depends on the arguments alone.
#[verifier::external_body]
fn append_query_pair(url: &str, key: &str, value: &str) -> (r: Option<String>)
    ensures
        r matches Some(t) ==> url_with_pair(url@, key@, value@) == Some(t@),
        r is None <==> url_with_pair(url@, key@, value@) is None,
{
    let mut parsed = url::Url::parse(url).ok()?;
    parsed.query_pairs_mut().append_pair(key, value);
    Some(parsed.to_string())
}

pub open spec fn magnet_prefix() -> Seq<char> {
    "magnet:?xt=urn:btih:"@
}

/// `url` with a `tr` query pair appended for each tracker, in order.
pub open spec fn with_trackers(url: Seq<char>, trackers: Seq<Seq<char>>) -> Option<Seq<char>>
    decreases trackers.len(),
{
    if trackers.len() == 0 {
        Some(url)
    } else {
        match with_trackers(url, trackers.drop_last()) {
            Some(u) => url_with_pair(u, "tr"@, trackers.last()),
            None => None,
        }
    }
}

/// The magnet link that the resolver is given: the identifier's hex form, then a
/// `tr` pair for each tracker. `None` where the URL could not be built.
pub fn magnet_uri(info_hash: &InfoHash, trackers: &Vec<String>) -> (r: Option<String>)
    ensures
        r matches Some(t) ==> with_trackers(magnet_prefix() + hex_encoded(info_hash@), texts(trackers@))
            == Some(t@),
        r is None <==> with_trackers(magnet_prefix() + hex_encoded(info_hash@), texts(trackers@)) is None,
{
    let mut uri = String::from_str("magnet:?xt=urn:btih:");
    let hex = info_hash.to_string();
    uri.append(hex.as_str());
    let ghost start = uri@;
    let mut i: usize = 0;
    while i < trackers.len()
        invariant
            i <= trackers@.len(),
            start == magnet_prefix() + hex_encoded(info_hash@),
            with_trackers(start, texts(trackers@.subrange(0, i as int))) == Some(uri@),
        decreases trackers@.len() - i,
    {
        let next = append_query_pair(uri.as_str(), "tr", trackers[i].as_str());
        proof {
            let before = texts(trackers@.subrange(0, i as int));
            let after = texts(trackers@.subrange(0, i + 1));
            assert(after.drop_last() =~= before);
            assert(after.last() == trackers@[i as int]@);
        }
        match next {
            Some(t) => {
                uri = t;
            },
            None => {
                proof {
                    let after = texts(trackers@.subrange(0, i + 1));
                    assert(after.drop_last() =~= texts(trackers@.subrange(0, i as int)));
                    assert(with_trackers(start, after) is None);
                    assert(texts(trackers@).subrange(0, i + 1) =~= after);
                    lemma_with_trackers_stays_none(start, texts(trackers@), i + 1);
                }
                return None;
            },
        }
        i = i + 1;
    }
    proof {
        assert(trackers@.subrange(0, trackers@.len() as int) =~= trackers@);
    }
    Some(uri)
}

proof fn lemma_with_trackers_stays_none(url: Seq<char>, trackers: Seq<Seq<char>>, n: int)
    requires
        0 <= n <= trackers.len(),
        with_trackers(url, trackers.subrange(0, n)) is None,
    ensures
        with_trackers(url, trackers) is None,
    decreases trackers.len() - n,
{
    if n < trackers.len() {
        assert(trackers.subrange(0, n + 1).drop_last() =~= trackers.subrange(0, n));
        lemma_with_trackers_stays_none(url, trackers, n + 1);
    } else {
        assert(trackers.subrange(0, n) =~= trackers);
    }
}

} // verus!
