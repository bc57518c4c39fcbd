//! Character-level text utilities shared by the parsers and the reports.
//!
//! Text is modelled as `Seq<char>`. Executable code works on `Vec<char>` and
//! converts from and to `String` at the edges.

use vstd::prelude::*;

verus! {

/// The characters of `s`, in order.
pub fn to_chars(s: &str) -> (v: Vec<char>)
    ensures
        v@ == s@,
{
    let mut v: Vec<char> = Vec::new();
    for c in it: s.chars()
        invariant
            v@ == it.seq().take(it.index() as int),
    {
        v.push(c);
    }
    v
}

/// The standard library's `String::push`. The contract claims what its
/// documentation says: the text is as before, with `c` added at its end.
#[verifier::external_body]
fn push_char(s: &mut String, c: char)
    ensures
        final(s)@ == old(s)@.push(c),
{
    s.push(c);
}

/// The text made of the characters of `v`, in order.
pub fn from_chars(v: &[char]) -> (s: String)
    ensures
        s@ == v@,
{
    let mut s = String::new();
    let mut i: usize = 0;
    while i < v.len()
        invariant
            i <= v@.len(),
            s@ == v@.take(i as int),
        decreases v@.len() - i,
    {
        push_char(&mut s, v[i]);
        assert(v@.take(i + 1) == v@.take(i as int).push(v@[i as int]));
        i += 1;
    }
    assert(v@.take(v@.len() as int) == v@);
    s
}

/// A copy of `v[from..to]`.
pub fn slice_chars(v: &[char], from: usize, to: usize) -> (r: Vec<char>)
    requires
        from <= to <= v@.len(),
    ensures
        r@ == v@.subrange(from as int, to as int),
{
    let mut r: Vec<char> = Vec::new();
    let mut i: usize = from;
    while i < to
        invariant
            from <= i <= to <= v@.len(),
            r@ == v@.subrange(from as int, i as int),
        decreases to - i,
    {
        r.push(v[i]);
        i += 1;
    }
    r
}

/// Appends the characters of `tail` to `out`.
pub fn extend_chars(out: &mut Vec<char>, tail: &[char])
    ensures
        final(out)@ == old(out)@ + tail@,
{
    let mut i: usize = 0;
    while i < tail.len()
        invariant
            i <= tail@.len(),
            out@ == old(out)@ + tail@.take(i as int),
        decreases tail@.len() - i,
    {
        out.push(tail[i]);
        i += 1;
    }
    assert(tail@.take(tail@.len() as int) == tail@);
}

/// Whether two texts hold the same characters.
pub fn same_chars(a: &[char], b: &[char]) -> (r: bool)
    ensures
        r == (a@ == b@),
{
    if a.len() != b.len() {
        return false;
    }
    let mut i: usize = 0;
    while i < a.len()
        invariant
            i <= a@.len(),
            a@.len() == b@.len(),
            a@.take(i as int) == b@.take(i as int),
        decreases a@.len() - i,
    {
        if a[i] != b[i] {
            return false;
        }
        assert(a@.take(i + 1) == a@.take(i as int).push(a@[i as int]));
        assert(b@.take(i + 1) == b@.take(i as int).push(b@[i as int]));
        i += 1;
    }
    assert(a@.take(a@.len() as int) == a@);
    assert(b@.take(b@.len() as int) == b@);
    true
}

/// Unicode `White_Space`: the characters that separate tokens.
pub open spec fn is_space(c: char) -> bool {
    let n = c as u32;
    ||| 0x09 <= n <= 0x0D
    ||| n == 0x20
    ||| n == 0x85
    ||| n == 0xA0
    ||| n == 0x1680
    ||| 0x2000 <= n <= 0x200A
    ||| n == 0x2028
    ||| n == 0x2029
    ||| n == 0x202F
    ||| n == 0x205F
    ||| n == 0x3000
}

/// Whether `c` is white space.
pub fn char_is_space(c: char) -> (b: bool)
    ensures
        b == is_space(c),
{
    let n: u32 = c as u32;
    (0x09 <= n && n <= 0x0D) || n == 0x20 || n == 0x85 || n == 0xA0 || n == 0x1680 || (0x2000 <= n
        && n <= 0x200A) || n == 0x2028 || n == 0x2029 || n == 0x202F || n == 0x205F || n == 0x3000
}

/// The first position at or after `i` that holds no white space, or the
/// length of `s` when only white space follows.
pub open spec fn skip_spaces(s: Seq<char>, i: int) -> int
    decreases s.len() - i,
{
    if 0 <= i < s.len() && is_space(s[i]) {
        skip_spaces(s, i + 1)
    } else {
        i
    }
}

/// The first position at or after `i` that holds white space, or the length
/// of `s` when none follows.
pub open spec fn token_end(s: Seq<char>, i: int) -> int
    decreases s.len() - i,
{
    if 0 <= i < s.len() && !is_space(s[i]) {
        token_end(s, i + 1)
    } else {
        i
    }
}

/// The white-space-delimited tokens of `s` that begin at or after `i`.
pub open spec fn tokens_from(s: Seq<char>, i: int) -> Seq<Seq<char>>
    decreases s.len() - i,
{
    let a = skip_spaces(s, i);
    if 0 <= i && a < s.len() {
        let b = token_end(s, a);
        proof {
            lemma_skip_spaces(s, i);
            lemma_token_end(s, a);
        }
        seq![s.subrange(a, b)] + tokens_from(s, b)
    } else {
        Seq::empty()
    }
}

/// The maximal runs of characters of `s` that hold no white space, in order.
pub open spec fn tokens(s: Seq<char>) -> Seq<Seq<char>> {
    tokens_from(s, 0)
}

/// Where skipping white space ends: within the text, past white space
/// only, and not at white space.
pub proof fn lemma_skip_spaces(s: Seq<char>, i: int)
    requires
        0 <= i <= s.len(),
    ensures
        i <= skip_spaces(s, i) <= s.len(),
        skip_spaces(s, i) < s.len() ==> !is_space(s[skip_spaces(s, i)]),
        forall|j: int| i <= j < skip_spaces(s, i) ==> is_space(#[trigger] s[j]),
    decreases s.len() - i,
{
    if i < s.len() && is_space(s[i]) {
        lemma_skip_spaces(s, i + 1);
    }
}

/// Where a token ends: within the text, past no white space, and at white
/// space or at the end of the text.
pub proof fn lemma_token_end(s: Seq<char>, i: int)
    requires
        0 <= i <= s.len(),
    ensures
        i <= token_end(s, i) <= s.len(),
        token_end(s, i) < s.len() ==> is_space(s[token_end(s, i)]),
        forall|j: int| i <= j < token_end(s, i) ==> !is_space(#[trigger] s[j]),
        i < s.len() && !is_space(s[i]) ==> token_end(s, i) > i,
    decreases s.len() - i,
{
    if i < s.len() && !is_space(s[i]) {
        lemma_token_end(s, i + 1);
    }
}

/// The views of a vector of texts.
pub open spec fn views(v: Seq<Vec<char>>) -> Seq<Seq<char>> {
    Seq::new(v.len(), |i: int| v[i]@)
}

/// Splits `s` into its white-space-delimited tokens.
pub fn split_whitespace(s: &[char]) -> (parts: Vec<Vec<char>>)
    ensures
        views(parts@) == tokens(s@),
{
    let mut parts: Vec<Vec<char>> = Vec::new();
    let mut i: usize = 0;
    let n: usize = s.len();
    loop
        invariant
            i <= n == s@.len(),
            tokens(s@) == views(parts@) + tokens_from(s@, i as int),
        decreases n - i,
    {
        let ghost start = i as int;
        while i < n && char_is_space(s[i])
            invariant
                start <= i <= n == s@.len(),
                skip_spaces(s@, start) == skip_spaces(s@, i as int),
            decreases n - i,
        {
            i += 1;
        }
        if i >= n {
            proof {
                assert(tokens_from(s@, start) == Seq::<Seq<char>>::empty());
                assert(views(parts@) + Seq::<Seq<char>>::empty() == views(parts@));
            }
            return parts;
        }
        let a: usize = i;
        while i < n && !char_is_space(s[i])
            invariant
                a <= i <= n == s@.len(),
                token_end(s@, a as int) == token_end(s@, i as int),
            decreases n - i,
        {
            i += 1;
        }
        proof {
            lemma_token_end(s@, a as int);
        }
        let tok = slice_chars(s, a, i);
        proof {
            let ghost before = views(parts@);
            assert(tokens_from(s@, start) == seq![s@.subrange(a as int, i as int)] + tokens_from(
                s@,
                i as int,
            ));
            assert(views(parts@.push(tok)) == before + seq![tok@]);
            assert(before + (seq![tok@] + tokens_from(s@, i as int)) == (before + seq![tok@])
                + tokens_from(s@, i as int));
        }
        parts.push(tok);
    }
}

/// The position of the first `sep` in `s`, or the length of `s` when it holds none.
pub open spec fn first_index_of(s: Seq<char>, sep: char) -> int
    decreases s.len(),
{
    if s.len() == 0 || s[0] == sep {
        0
    } else {
        1 + first_index_of(s.skip(1), sep)
    }
}

/// Where the first separator stands: within the text or at its end, and
/// behind no other separator.
pub proof fn lemma_first_index_of(s: Seq<char>, sep: char)
    ensures
        0 <= first_index_of(s, sep) <= s.len(),
        first_index_of(s, sep) < s.len() ==> s[first_index_of(s, sep)] == sep,
        forall|j: int| 0 <= j < first_index_of(s, sep) ==> #[trigger] s[j] != sep,
    decreases s.len(),
{
    if s.len() == 0 || s[0] == sep {
    } else {
        let t = s.skip(1);
        lemma_first_index_of(t, sep);
        assert forall|j: int| 0 <= j < first_index_of(s, sep) implies #[trigger] s[j] != sep by {
            if j > 0 {
                assert(s[j] == t[j - 1]);
            }
        }
    }
}

/// The fields of `s` between occurrences of `sep`: one more field than
/// there are separators, empty fields included.
pub open spec fn split_on(s: Seq<char>, sep: char) -> Seq<Seq<char>>
    decreases s.len(),
{
    let k = first_index_of(s, sep);
    if 0 <= k < s.len() {
        seq![s.take(k)] + split_on(s.skip(k + 1), sep)
    } else {
        seq![s]
    }
}

/// Splits `s` at every occurrence of `sep`.
pub fn split_chars(s: &[char], sep: char) -> (parts: Vec<Vec<char>>)
    ensures
        views(parts@) == split_on(s@, sep),
{
    let mut parts: Vec<Vec<char>> = Vec::new();
    let n: usize = s.len();
    let mut start: usize = 0;
    let mut i: usize = 0;
    proof {
        assert(s@.skip(0) == s@);
        assert(views(parts@) + split_on(s@, sep) == split_on(s@, sep));
    }
    while i < n
        invariant
            start <= i <= n == s@.len(),
            split_on(s@, sep) == views(parts@) + split_on(s@.skip(start as int), sep),
            first_index_of(s@.skip(start as int), sep) == (i - start) + first_index_of(
                s@.skip(i as int),
                sep,
            ),
        decreases n - i,
    {
        let ghost rest = s@.skip(start as int);
        let ghost cur = s@.skip(i as int);
        if s[i] == sep {
            let field = slice_chars(s, start, i);
            proof {
                let ghost before = views(parts@);
                assert(cur[0] == sep);
                assert(first_index_of(rest, sep) == i - start);
                assert(rest.take(i - start) == field@);
                assert(rest.skip(i - start + 1) == s@.skip(i + 1));
                assert(views(parts@.push(field)) == before + seq![field@]);
                assert(before + (seq![field@] + split_on(s@.skip(i + 1), sep)) == (before
                    + seq![field@]) + split_on(s@.skip(i + 1), sep));
            }
            parts.push(field);
            start = i + 1;
            i += 1;
            proof {
                assert(s@.skip(start as int).len() == n - start);
            }
        } else {
            proof {
                assert(cur[0] != sep);
                assert(cur.skip(1) == s@.skip(i + 1));
            }
            i += 1;
        }
    }
    let field = slice_chars(s, start, n);
    proof {
        let ghost before = views(parts@);
        let ghost rest = s@.skip(start as int);
        assert(s@.skip(n as int).len() == 0);
        assert(first_index_of(rest, sep) == rest.len());
        assert(rest == field@);
        assert(views(parts@.push(field)) == before + seq![field@]);
    }
    parts.push(field);
    parts
}

/// The part of `s` before its first `sep`; all of `s` when it holds none.
pub open spec fn before_first(s: Seq<char>, sep: char) -> Seq<char> {
    s.take(first_index_of(s, sep))
}

/// The part of `s` before its first `sep`.
pub fn take_before(s: &[char], sep: char) -> (r: Vec<char>)
    ensures
        r@ == before_first(s@, sep),
{
    let n: usize = s.len();
    let mut i: usize = 0;
    proof {
        assert(s@.skip(0) == s@);
    }
    while i < n && s[i] != sep
        invariant
            i <= n == s@.len(),
            first_index_of(s@, sep) == i + first_index_of(s@.skip(i as int), sep),
        decreases n - i,
    {
        proof {
            assert(s@.skip(i as int)[0] != sep);
            assert(s@.skip(i as int).skip(1) == s@.skip(i + 1));
        }
        i += 1;
    }
    proof {
        if i < n {
            assert(s@.skip(i as int)[0] == sep);
        } else {
            assert(s@.skip(i as int).len() == 0);
        }
        assert(s@.take(i as int) == s@.subrange(0, i as int));
    }
    slice_chars(s, 0, i)
}

/// The texts of `parts` with `sep` between each two neighbours.
pub open spec fn join(parts: Seq<Seq<char>>, sep: Seq<char>) -> Seq<char>
    decreases parts.len(),
{
    if parts.len() == 0 {
        Seq::empty()
    } else if parts.len() == 1 {
        parts[0]
    } else {
        join(parts.drop_last(), sep) + sep + parts.last()
    }
}

/// Joins `parts[from..]` with `sep` between neighbours.
pub fn join_from(parts: &Vec<Vec<char>>, from: usize, sep: &[char]) -> (r: Vec<char>)
    requires
        from <= parts@.len(),
    ensures
        r@ == join(views(parts@).skip(from as int), sep@),
{
    let mut r: Vec<char> = Vec::new();
    let n: usize = parts.len();
    let mut i: usize = from;
    let ghost all = views(parts@);
    while i < n
        invariant
            from <= i <= n == parts@.len(),
            all == views(parts@),
            r@ == join(all.subrange(from as int, i as int), sep@),
        decreases n - i,
    {
        proof {
            let next = all.subrange(from as int, i + 1);
            assert(next.drop_last() == all.subrange(from as int, i as int));
            assert(next.last() == parts@[i as int]@);
            if i > from {
                assert(next.len() >= 2);
            } else {
                assert(next.len() == 1);
                assert(r@ == Seq::<char>::empty());
                assert(Seq::<char>::empty() + parts@[i as int]@ == parts@[i as int]@);
            }
        }
        if i > from {
            extend_chars(&mut r, sep);
        }
        extend_chars(&mut r, parts[i].as_slice());
        i += 1;
    }
    proof {
        assert(all.subrange(from as int, n as int) == all.skip(from as int));
    }
    r
}

/// Whether `s` begins with `prefix`.
pub open spec fn has_prefix(s: Seq<char>, prefix: Seq<char>) -> bool {
    prefix.len() <= s.len() && s.take(prefix.len() as int) == prefix
}

/// Whether `s` begins with `prefix`.
pub fn starts_with(s: &[char], prefix: &[char]) -> (b: bool)
    ensures
        b == has_prefix(s@, prefix@),
{
    if prefix.len() > s.len() {
        return false;
    }
    let head = slice_chars(s, 0, prefix.len());
    same_chars(head.as_slice(), prefix)
}

/// `s` without the run of `c` at its end.
pub open spec fn without_trailing(s: Seq<char>, c: char) -> Seq<char>
    decreases s.len(),
{
    if s.len() > 0 && s.last() == c {
        without_trailing(s.drop_last(), c)
    } else {
        s
    }
}

/// `s` without the run of `c` at its end.
pub fn trim_trailing(s: &[char], c: char) -> (r: Vec<char>)
    ensures
        r@ == without_trailing(s@, c),
{
    let mut n: usize = s.len();
    proof {
        assert(s@.take(n as int) == s@);
    }
    while n > 0 && s[n - 1] == c
        invariant
            n <= s@.len(),
            without_trailing(s@, c) == without_trailing(s@.take(n as int), c),
        decreases n,
    {
        proof {
            assert(s@.take(n as int).drop_last() == s@.take(n - 1));
        }
        n -= 1;
    }
    slice_chars(s, 0, n)
}

/// `s` without the white space at its end.
pub open spec fn trim_end(s: Seq<char>) -> Seq<char>
    decreases s.len(),
{
    if s.len() > 0 && is_space(s.last()) {
        trim_end(s.drop_last())
    } else {
        s
    }
}

/// `s` without the white space at its beginning and at its end.
pub open spec fn trimmed(s: Seq<char>) -> Seq<char> {
    if 0 <= skip_spaces(s, 0) <= s.len() {
        trim_end(s.skip(skip_spaces(s, 0)))
    } else {
        s
    }
}

/// `s` without the white space at its beginning and at its end.
pub fn trim(s: &[char]) -> (r: Vec<char>)
    ensures
        r@ == trimmed(s@),
{
    let n: usize = s.len();
    let mut a: usize = 0;
    while a < n && char_is_space(s[a])
        invariant
            a <= n == s@.len(),
            skip_spaces(s@, 0) == skip_spaces(s@, a as int),
        decreases n - a,
    {
        a += 1;
    }
    let ghost body = s@.skip(a as int);
    let mut b: usize = n;
    proof {
        assert(body.take(n - a) == body);
    }
    while b > a && char_is_space(s[b - 1])
        invariant
            a <= b <= n == s@.len(),
            body == s@.skip(a as int),
            trim_end(body) == trim_end(body.take(b - a)),
        decreases b,
    {
        proof {
            assert(body.take(b - a).last() == s@[b - 1]);
            assert(body.take(b - a).drop_last() == body.take(b - 1 - a));
        }
        b -= 1;
    }
    proof {
        if b > a {
            assert(body.take(b - a).last() == s@[b - 1]);
        }
        assert(body.take(b - a) == s@.subrange(a as int, b as int));
    }
    slice_chars(s, a, b)
}

} // verus!
