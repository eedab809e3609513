//! Reading what the Redis-backed store returns.
pub mod db_seeder;

use vstd::prelude::*;
use crate::text::{chars_of, parse_i32, parse_i32_text, parse_i64, parse_i64_text, parse_u32, parse_u32_text};

verus! {

/// A number type that the scores of a sorted-set reply can be read into, the
/// way `str::parse` reads it.
pub trait Score: Sized {
    /// The value that `str::parse` gives for the text, if any.
    spec fn score_of(s: Seq<char>) -> Option<Self>;

    /// Reads a score from its characters.
    fn parse_score(s: &Vec<char>) -> (r: Option<Self>)
        ensures
            r == Self::score_of(s@),
    ;
}

impl Score for i64 {
    open spec fn score_of(s: Seq<char>) -> Option<i64> {
        parse_i64_text(s)
    }

    fn parse_score(s: &Vec<char>) -> (r: Option<i64>) {
        parse_i64(s)
    }
}

impl Score for i32 {
    open spec fn score_of(s: Seq<char>) -> Option<i32> {
        parse_i32_text(s)
    }

    fn parse_score(s: &Vec<char>) -> (r: Option<i32>) {
        parse_i32(s)
    }
}

impl Score for u32 {
    open spec fn score_of(s: Seq<char>) -> Option<u32> {
        parse_u32_text(s)
    }

    fn parse_score(s: &Vec<char>) -> (r: Option<u32>) {
        parse_u32(s)
    }
}

/// Every score of a complete `[member, score]` pair in the reply reads as a `T`.
pub open spec fn scores_parse<T: Score>(v: Seq<String>) -> bool {
    forall|i: int| 0 <= i < v.len() / 2 ==> (#[trigger] T::score_of(v[2 * i + 1]@)) is Some
}

/// The replies on which reading cannot finish: a dangling member at the end,
/// reached because every complete pair before it was read.
pub open spec fn zrange_panics<T: Score>(v: Seq<String>) -> bool {
    v.len() % 2 == 1 && scores_parse::<T>(v)
}

/// Whether reading this reply cannot finish (see `zrange_panics`).
pub fn zrange_reply_panics<T: Score>(v: &Vec<String>) -> (r: bool)
    ensures
        r == zrange_panics::<T>(v@),
{
    let len = v.len();
    if len % 2 == 0 {
        return false;
    }
    let n = len / 2;
    let mut i: usize = 0;
    while i < n
        invariant
            len == v@.len(),
            n == v@.len() / 2,
            v@.len() % 2 == 1,
            i <= n,
            forall|k: int| 0 <= k < i ==> (#[trigger] T::score_of(v@[2 * k + 1]@)) is Some,
        decreases n - i,
    {
        if T::parse_score(&chars_of(v[2 * i + 1].as_str())).is_none() {
            return false;
        }
        i += 1;
    }
    true
}

/// Turns a sorted-set reply `[member, score, member, score, ...]` into
/// `(score, member)` pairs, in order; fails with "Failed to parse score" at the
/// first score that does not read as a `T`.
pub fn zrange_vec_to_tuple_vec<T: Score>(v: Vec<String>) -> (r: Result<Vec<(T, String)>, String>)
    requires
        !zrange_panics::<T>(v@),
    ensures
        r is Ok <==> scores_parse::<T>(v@),
        r matches Ok(pairs) ==> pairs@.len() == v@.len() / 2 && forall|i: int|
            0 <= i < pairs@.len() ==> (#[trigger] pairs@[i]).0 == T::score_of(v@[2 * i + 1]@)->0
                && pairs@[i].1 == v@[2 * i],
        r matches Err(e) ==> e@ == "Failed to parse score"@,
{
    let mut pairs: Vec<(T, String)> = Vec::new();
    let len = v.len();
    let n = len / 2;
    let mut i: usize = 0;
    while i < n
        invariant
            len == v@.len(),
            n == v@.len() / 2,
            !zrange_panics::<T>(v@),
            i <= n,
            pairs@.len() == i,
            forall|k: int| 0 <= k < i ==> (#[trigger] T::score_of(v@[2 * k + 1]@)) is Some,
            forall|k: int|
                0 <= k < i ==> (#[trigger] pairs@[k]).0 == T::score_of(v@[2 * k + 1]@)->0
                    && pairs@[k].1 == v@[2 * k],
        decreases n - i,
    {
        let score = T::parse_score(&chars_of(v[2 * i + 1].as_str()));
        match score {
            Some(s) => {
                pairs.push((s, v[2 * i].clone()));
            },
            None => {
                return Err("Failed to parse score".to_string());
            },
        }
        i += 1;
    }
    Ok(pairs)
}

} // verus!
