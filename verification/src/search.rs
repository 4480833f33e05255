//! The search coordinator's logic: scan a word's candidates in generation
//! order, compare each candidate's digest against the target, and stop
//! cooperatively once a shared cancellation flag reports that another worker
//! already found a match.
//!
//! The domain assumes at most one true preimage exists in the dictionary's
//! expanded variant space. Should several exist, the sequential coordinator
//! reports the dictionary-order first match, while a parallel driver retains
//! whichever worker's match is appended to the shared result set first —
//! deliberately scheduling-dependent, not silently resolved.

use crate::combinations::{candidate_count, candidates_of, CandidateGenerator};
use crate::hash::{is_hex_lower, sha1_hex_of};
use std::sync::atomic::AtomicBool;
use vstd::prelude::*;

verus! {

/// The first candidate of `w`, at rank `k` or later in generation order,
/// whose digest equals `target`; `None` when no such candidate exists.
pub open spec fn first_match_from(w: Seq<char>, target: Seq<char>, k: int) -> Option<Seq<char>>
    decreases candidate_count(w) - k,
{
    if k < 0 || k >= candidate_count(w) {
        None
    } else if sha1_hex_of(candidates_of(w)[k]) == target {
        Some(candidates_of(w)[k])
    } else {
        first_match_from(w, target, k + 1)
    }
}

/// The first candidate of `w`, in generation order, whose digest equals
/// `target`.
pub open spec fn first_match(w: Seq<char>, target: Seq<char>) -> Option<Seq<char>> {
    first_match_from(w, target, 0)
}

/// The match produced by scanning the words of `dict` in order from index
/// `i` on: for the first word that has a matching candidate, that word's
/// first matching candidate.
pub open spec fn dict_first_match_from(dict: Seq<Seq<char>>, target: Seq<char>, i: int) -> Option<
    Seq<char>,
>
    decreases dict.len() - i,
{
    if i < 0 || i >= dict.len() {
        None
    } else {
        match first_match(dict[i], target) {
            Some(c) => Some(c),
            None => dict_first_match_from(dict, target, i + 1),
        }
    }
}

/// The match produced by scanning the whole dictionary in order.
pub open spec fn dict_first_match(dict: Seq<Seq<char>>, target: Seq<char>) -> Option<Seq<char>> {
    dict_first_match_from(dict, target, 0)
}

/// A well-formed target digest: exactly 40 lowercase hexadecimal
/// characters, the shape every 160-bit digest this library produces has.
pub open spec fn valid_target(s: Seq<char>) -> bool {
    &&& s.len() == 40
    &&& forall|i: int| 0 <= i < s.len() ==> is_hex_lower(#[trigger] s[i])
}

/// Decide whether `target` is a well-formed target digest; a malformed one
/// is a configuration fault to be surfaced before any search starts.
pub fn validate_target(target: &str) -> (r: bool)
    ensures
        r == valid_target(target@),
{
    let n = target.unicode_len();
    if n != 40 {
        return false;
    }
    let mut i: usize = 0;
    while i < n
        invariant
            i <= n,
            n == target@.len(),
            forall|t: int| 0 <= t < i ==> is_hex_lower(#[trigger] target@[t]),
        decreases n - i,
    {
        let c = target.get_char(i);
        if !(('0' <= c && c <= '9') || ('a' <= c && c <= 'f')) {
            return false;
        }
        i += 1;
    }
    true
}

/// Scan every candidate of `password` in generation order and return the
/// first one whose digest equals `target`, or `None` when no candidate
/// matches.
pub fn search_word(password: &str, target: &str) -> (r: Option<String>)
    ensures
        match r {
            Some(s) => first_match(password@, target@) == Some(s@),
            None => first_match(password@, target@) is None,
        },
{
    let ghost w = password@;
    let t = target.to_owned();
    let mut g = CandidateGenerator::new(password);
    loop
        invariant
            g.wf(),
            g.word() == w,
            w == password@,
            t@ == target@,
            g.produced() <= candidate_count(w),
            first_match_from(w, target@, 0) == first_match_from(w, target@, g.produced() as int),
        ensures
            first_match(w, target@) is None,
        decreases candidate_count(w) - g.produced(),
    {
        let ghost k = g.produced();
        match g.next() {
            None => {
                break;
            },
            Some(c) => {
                let h = crate::hash::hash(c.as_str());
                if h == t {
                    proof {
                        assert(first_match_from(w, target@, k as int) == Some(c@));
                    }
                    return Some(c);
                }
            },
        }
    }
    None
}

/// Search one word's candidate space for the target digest, abandoning the
/// scan — returning `None` — as soon as the shared cancellation flag reads
/// true. The flag is a hint only: whatever the flag reads, a `Some` result
/// is always the word's first matching candidate, so the answer does not
/// depend on when other workers' stores become visible.
pub fn find_hash(password: &String, is_found: &AtomicBool, hash: &str) -> (r: Option<String>)
    ensures
        r matches Some(s) ==> first_match(password@, hash@) == Some(s@),
{
    let ghost w = password@;
    let t = hash.to_owned();
    let mut g = CandidateGenerator::new(password.as_str());
    loop
        invariant
            g.wf(),
            g.word() == w,
            w == password@,
            t@ == hash@,
            g.produced() <= candidate_count(w),
            first_match_from(w, hash@, 0) == first_match_from(w, hash@, g.produced() as int),
        decreases candidate_count(w) - g.produced(),
    {
        if is_found.load(std::sync::atomic::Ordering::Relaxed) {
            return None;
        }
        let ghost k = g.produced();
        match g.next() {
            None => {
                break;
            },
            Some(c) => {
                let h = crate::hash::hash(c.as_str());
                if h == t {
                    proof {
                        assert(first_match_from(w, hash@, k as int) == Some(c@));
                    }
                    return Some(c);
                }
            },
        }
    }
    None
}

/// For every candidate of `password`, in generation order, the pair of its
/// digest and the candidate itself — the building block of a precomputed
/// lookup table.
pub fn generate_hash_pw(password: &str) -> (r: Vec<(String, String)>)
    ensures
        r@.len() == candidate_count(password@),
        forall|k: int|
            0 <= k < r@.len() ==> {
                &&& (#[trigger] r@[k]).1@ == candidates_of(password@)[k]
                &&& r@[k].0@ == sha1_hex_of(candidates_of(password@)[k])
            },
{
    let ghost w = password@;
    let mut out: Vec<(String, String)> = Vec::new();
    let mut g = CandidateGenerator::new(password);
    loop
        invariant
            g.wf(),
            g.word() == w,
            w == password@,
            g.produced() <= candidate_count(w),
            out@.len() == g.produced(),
            forall|k: int|
                0 <= k < out@.len() ==> {
                    &&& (#[trigger] out@[k]).1@ == candidates_of(w)[k]
                    &&& out@[k].0@ == sha1_hex_of(candidates_of(w)[k])
                },
        ensures
            out@.len() == candidate_count(w),
            forall|k: int|
                0 <= k < out@.len() ==> {
                    &&& (#[trigger] out@[k]).1@ == candidates_of(w)[k]
                    &&& out@[k].0@ == sha1_hex_of(candidates_of(w)[k])
                },
        decreases candidate_count(w) - g.produced(),
    {
        match g.next() {
            None => {
                break;
            },
            Some(c) => {
                let h = crate::hash::hash(c.as_str());
                out.push((h, c));
            },
        }
    }
    out
}

/// Process one chunk of the dictionary: for each word in order, search its
/// candidate space, stopping early once the shared cancellation flag reads
/// true. A `Some` result is always the first matching candidate of one of
/// the chunk's words.
pub fn search_chunk(chunk: &[String], is_found: &AtomicBool, target: &str) -> (r: Option<String>)
    ensures
        r matches Some(s) ==> exists|i: int|
            0 <= i < chunk@.len() && first_match((#[trigger] chunk@[i])@, target@) == Some(s@),
{
    let n = chunk.len();
    let mut i: usize = 0;
    while i < n
        invariant
            i <= n,
            n == chunk@.len(),
        decreases n - i,
    {
        if let Some(result) = find_hash(&chunk[i], is_found, target) {
            return Some(result);
        }
        i += 1;
    }
    None
}

/// The sequential search coordinator: partition the dictionary into
/// contiguous chunks of at most `chunk_size` words and scan them in order.
/// The result is exactly the dictionary-order first match, so it does not
/// depend on `chunk_size` — chunk boundaries are scheduling granularity
/// only, with no semantic effect.
pub fn search(dictionary: &Vec<String>, target: &str, chunk_size: usize) -> (r: Option<String>)
    requires
        chunk_size >= 1,
    ensures
        match r {
            Some(s) => dict_first_match(dictionary.deep_view(), target@) == Some(s@),
            None => dict_first_match(dictionary.deep_view(), target@) is None,
        },
{
    let ghost d = dictionary.deep_view();
    let n = dictionary.len();
    let mut start: usize = 0;
    while start < n
        invariant
            chunk_size >= 1,
            start <= n,
            n == d.len(),
            d == dictionary.deep_view(),
            dict_first_match_from(d, target@, 0) == dict_first_match_from(
                d,
                target@,
                start as int,
            ),
        decreases n - start,
    {
        let end = if n - start < chunk_size {
            n
        } else {
            start + chunk_size
        };
        let mut i = start;
        while i < end
            invariant
                start <= i <= end <= n,
                n == d.len(),
                d == dictionary.deep_view(),
                dict_first_match_from(d, target@, 0) == dict_first_match_from(
                    d,
                    target@,
                    i as int,
                ),
            decreases end - i,
        {
            proof {
                assert(d[i as int] == dictionary@[i as int]@);
            }
            if let Some(s) = search_word(dictionary[i].as_str(), target) {
                return Some(s);
            }
            i += 1;
        }
        start = end;
    }
    None
}

} // verus!
