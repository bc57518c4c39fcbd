//! Reading the capture groups of a match.

use vstd::prelude::*;
use crate::log_entry::ParseError;
use crate::number::{parse_signed, parse_unsigned, read_i32, read_u32};
use crate::text::{to_chars, tokens};

verus! {

/// The capture groups of a match: each the text it matched, or `None`.
pub type Groups = Seq<Option<Seq<char>>>;

/// The text of group `i`, where the match has such a group and it took part.
pub open spec fn group(g: Groups, i: int) -> Option<Seq<char>> {
    if 0 <= i < g.len() {
        g[i]
    } else {
        None
    }
}

/// Whether the groups `from..from + count` all took part in the match.
pub open spec fn all_present(g: Groups, from: int, count: int) -> bool {
    forall|i: int| from <= i < from + count ==> (#[trigger] group(g, i)) is Some
}

/// The text of group `i`.
pub fn group_text(g: &Vec<Option<String>>, i: usize) -> (r: Option<Vec<char>>)
    ensures
        r.deep_view() == group(g.deep_view(), i as int),
{
    if i < g.len() {
        match &g[i] {
            Some(s) => Some(to_chars(s.as_str())),
            None => None,
        }
    } else {
        None
    }
}

/// The six numbers of a timestamp held in the groups `from..from + 6` as
/// year, month, day, hour, minute and second.
pub open spec fn stamp_fields(g: Groups, from: int) -> Result<
    (i32, u32, u32, u32, u32, u32),
    ParseError,
> {
    if !all_present(g, from, 6) {
        Err(ParseError::NoMatch)
    } else if parse_signed(group(g, from)->0) is None || parse_unsigned(group(g, from + 1)->0)
        is None || parse_unsigned(group(g, from + 2)->0) is None || parse_unsigned(
        group(g, from + 3)->0,
    ) is None || parse_unsigned(group(g, from + 4)->0) is None || parse_unsigned(
        group(g, from + 5)->0,
    ) is None {
        Err(ParseError::Number)
    } else {
        Ok(
            (
                parse_signed(group(g, from)->0)->0,
                parse_unsigned(group(g, from + 1)->0)->0,
                parse_unsigned(group(g, from + 2)->0)->0,
                parse_unsigned(group(g, from + 3)->0)->0,
                parse_unsigned(group(g, from + 4)->0)->0,
                parse_unsigned(group(g, from + 5)->0)->0,
            ),
        )
    }
}

/// The texts of the groups `from..from + count`, or `None` where one of
/// them took no part in the match.
pub fn group_texts(g: &Vec<Option<String>>, from: usize, count: usize) -> (r: Option<
    Vec<Vec<char>>,
>)
    requires
        from + count <= usize::MAX,
    ensures
        r is Some == all_present(g.deep_view(), from as int, count as int),
        r matches Some(v) ==> v@.len() == count && forall|k: int|
            0 <= k < count ==> group(g.deep_view(), from + k) == Some(#[trigger] v@[k]@),
{
    let mut v: Vec<Vec<char>> = Vec::new();
    let mut k: usize = 0;
    while k < count
        invariant
            k <= count,
            from + count <= usize::MAX,
            v@.len() == k,
            forall|j: int| 0 <= j < k ==> group(g.deep_view(), from + j) == Some(#[trigger] v@[j]@),
        decreases count - k,
    {
        match group_text(g, from + k) {
            Some(t) => {
                v.push(t);
            },
            None => {
                assert(group(g.deep_view(), from + k) is None);
                return None;
            },
        }
        k += 1;
    }
    proof {
        assert forall|i: int| from <= i < from + count implies (#[trigger] group(
            g.deep_view(),
            i,
        )) is Some by {
            assert(group(g.deep_view(), from + (i - from)) == Some(v@[i - from]@));
        }
    }
    Some(v)
}

/// Reads the six numbers of a timestamp.
pub fn read_stamp_fields(g: &Vec<Option<String>>, from: usize) -> (r: Result<
    (i32, u32, u32, u32, u32, u32),
    ParseError,
>)
    requires
        from + 6 <= usize::MAX,
    ensures
        r == stamp_fields(g.deep_view(), from as int),
{
    let v = match group_texts(g, from, 6) {
        Some(v) => v,
        None => {
            return Err(ParseError::NoMatch);
        },
    };
    proof {
        assert(group(g.deep_view(), from + 0) == Some(v@[0]@));
        assert(group(g.deep_view(), from + 1) == Some(v@[1]@));
        assert(group(g.deep_view(), from + 2) == Some(v@[2]@));
        assert(group(g.deep_view(), from + 3) == Some(v@[3]@));
        assert(group(g.deep_view(), from + 4) == Some(v@[4]@));
        assert(group(g.deep_view(), from + 5) == Some(v@[5]@));
    }
    let year = read_i32(v[0].as_slice());
    let month = read_u32(v[1].as_slice());
    let day = read_u32(v[2].as_slice());
    let hour = read_u32(v[3].as_slice());
    let minute = read_u32(v[4].as_slice());
    let second = read_u32(v[5].as_slice());
    match (year, month, day, hour, minute, second) {
        (Some(y), Some(mo), Some(d), Some(h), Some(mi), Some(s)) => Ok((y, mo, d, h, mi, s)),
        _ => Err(ParseError::Number),
    }
}

/// The first token of `s`, or `fallback` where `s` holds none.
pub open spec fn first_token_or(s: Seq<char>, fallback: Seq<char>) -> Seq<char> {
    if tokens(s).len() > 0 {
        tokens(s)[0]
    } else {
        fallback
    }
}

/// The first token of `s`, or `fallback` where `s` holds none.
pub fn first_token(s: &[char], fallback: &[char]) -> (r: Vec<char>)
    ensures
        r@ == first_token_or(s@, fallback@),
{
    let p = crate::text::split_whitespace(s);
    assert(crate::text::views(p@).len() == p@.len());
    if p.len() > 0 {
        assert(crate::text::views(p@)[0] == p@[0]@);
        assert(p@[0]@.subrange(0, p@[0]@.len() as int) == p@[0]@);
        crate::text::slice_chars(p[0].as_slice(), 0, p[0].len())
    } else {
        assert(fallback@.subrange(0, fallback@.len() as int) == fallback@);
        crate::text::slice_chars(fallback, 0, fallback.len())
    }
}

} // verus!
