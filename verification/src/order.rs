//! The order of texts, and tables kept sorted by their text keys.

use vstd::prelude::*;

verus! {

/// Whether `a` stands before `b` in lexicographic order: at the first
/// place where they differ `a` has the smaller character, or `a` ends
/// there and `b` does not.
pub open spec fn lex_lt(a: Seq<char>, b: Seq<char>) -> bool
    decreases a.len(),
{
    if b.len() == 0 {
        false
    } else if a.len() == 0 {
        true
    } else if a[0] != b[0] {
        a[0] < b[0]
    } else {
        lex_lt(a.skip(1), b.skip(1))
    }
}

/// No text stands before itself.
pub proof fn lemma_lex_irreflexive(a: Seq<char>)
    ensures
        !lex_lt(a, a),
    decreases a.len(),
{
    if a.len() > 0 {
        lemma_lex_irreflexive(a.skip(1));
    }
}

/// What stands before a text stands before all that the text stands
/// before.
pub proof fn lemma_lex_transitive(a: Seq<char>, b: Seq<char>, c: Seq<char>)
    requires
        lex_lt(a, b),
        lex_lt(b, c),
    ensures
        lex_lt(a, c),
    decreases a.len(),
{
    if a.len() > 0 && b.len() > 0 && c.len() > 0 {
        if a[0] == b[0] && b[0] == c[0] {
            lemma_lex_transitive(a.skip(1), b.skip(1), c.skip(1));
        }
    }
}

/// Of two different texts one stands before the other.
pub proof fn lemma_lex_total(a: Seq<char>, b: Seq<char>)
    ensures
        a == b || lex_lt(a, b) || lex_lt(b, a),
    decreases a.len(),
{
    if a.len() > 0 && b.len() > 0 && a[0] == b[0] {
        lemma_lex_total(a.skip(1), b.skip(1));
        if a.skip(1) == b.skip(1) {
            assert(a =~= seq![a[0]] + a.skip(1));
            assert(b =~= seq![b[0]] + b.skip(1));
        }
    } else if a.len() == 0 && b.len() == 0 {
        assert(a =~= b);
    }
}

/// How one text stands to another.
#[derive(Debug, Clone, Copy, PartialEq, Eq, Structural)]
pub enum Rank {
    Before,
    Same,
    After,
}

/// How `a` stands to `b` in lexicographic order.
pub fn rank_texts(a: &[char], b: &[char]) -> (r: Rank)
    ensures
        r == Rank::Before <==> lex_lt(a@, b@),
        r == Rank::Same <==> a@ == b@,
        r == Rank::After <==> lex_lt(b@, a@),
{
    let mut i: usize = 0;
    proof {
        assert(a@.skip(0) == a@);
        assert(b@.skip(0) == b@);
    }
    while i < a.len() && i < b.len()
        invariant
            i <= a@.len(),
            i <= b@.len(),
            a@.take(i as int) == b@.take(i as int),
            lex_lt(a@, b@) == lex_lt(a@.skip(i as int), b@.skip(i as int)),
            lex_lt(b@, a@) == lex_lt(b@.skip(i as int), a@.skip(i as int)),
        decreases a@.len() - i,
    {
        let x: char = a[i];
        let y: char = b[i];
        proof {
            assert(a@.skip(i as int)[0] == x);
            assert(b@.skip(i as int)[0] == y);
            assert(a@.skip(i as int).skip(1) == a@.skip(i + 1));
            assert(b@.skip(i as int).skip(1) == b@.skip(i + 1));
        }
        if x != y {
            proof {
                assert(a@[i as int] != b@[i as int]);
            }
            if x < y {
                return Rank::Before;
            } else {
                return Rank::After;
            }
        }
        proof {
            assert(a@.take(i + 1) == a@.take(i as int).push(x));
            assert(b@.take(i + 1) == b@.take(i as int).push(y));
        }
        i += 1;
    }
    proof {
        lemma_lex_irreflexive(a@);
        if a@.len() == b@.len() {
            assert(a@.take(i as int) == a@);
            assert(b@.take(i as int) == b@);
        }
    }
    if a.len() < b.len() {
        Rank::Before
    } else if a.len() > b.len() {
        Rank::After
    } else {
        Rank::Same
    }
}

/// A text key with what is kept under it.
pub struct Slot<V> {
    pub key: Vec<char>,
    pub value: V,
}

/// Whether the keys of `slots` ascend strictly: no key stands twice.
pub open spec fn ascending<V>(slots: Seq<Slot<V>>) -> bool {
    forall|i: int, j: int| 0 <= i < j < slots.len() ==> lex_lt(slots[i].key@, slots[j].key@)
}

/// Whether a slot of `slots` has the key `key`.
pub open spec fn has_key<V>(slots: Seq<Slot<V>>, key: Seq<char>) -> bool {
    exists|i: int| 0 <= i < slots.len() && slots[i].key@ == key
}

/// The place of `key` in `slots`; shown to be its only one where the keys
/// ascend.
pub open spec fn place_of<V>(slots: Seq<Slot<V>>, key: Seq<char>) -> int {
    choose|i: int| 0 <= i < slots.len() && slots[i].key@ == key
}

/// Finds `key` in a table whose keys ascend: whether it is there, and the
/// place where it stands or where it would have to be put.
pub fn search<V>(slots: &Vec<Slot<V>>, key: &[char]) -> (r: (bool, usize))
    requires
        ascending(slots@),
    ensures
        r.1 <= slots@.len(),
        r.0 == has_key(slots@, key@),
        r.0 ==> r.1 < slots@.len() && slots@[r.1 as int].key@ == key@,
        forall|i: int| 0 <= i < r.1 ==> lex_lt(#[trigger] slots@[i].key@, key@),
        forall|i: int|
            r.1 <= i < slots@.len() && !(r.0 && i == r.1) ==> lex_lt(
                key@,
                #[trigger] slots@[i].key@,
            ),
{
    let mut low: usize = 0;
    let mut high: usize = slots.len();
    while low < high
        invariant
            low <= high <= slots@.len(),
            ascending(slots@),
            forall|i: int| 0 <= i < low ==> lex_lt(#[trigger] slots@[i].key@, key@),
            forall|i: int| high <= i < slots@.len() ==> lex_lt(key@, #[trigger] slots@[i].key@),
        decreases high - low,
    {
        let mid: usize = low + (high - low) / 2;
        match rank_texts(slots[mid].key.as_slice(), key) {
            Rank::Same => {
                proof {
                    assert forall|i: int| 0 <= i < mid implies lex_lt(
                        #[trigger] slots@[i].key@,
                        key@,
                    ) by {
                        assert(lex_lt(slots@[i].key@, slots@[mid as int].key@));
                    }
                    assert forall|i: int| mid < i < slots@.len() implies lex_lt(
                        key@,
                        #[trigger] slots@[i].key@,
                    ) by {
                        assert(lex_lt(slots@[mid as int].key@, slots@[i].key@));
                    }
                }
                return (true, mid);
            },
            Rank::Before => {
                proof {
                    assert forall|i: int| 0 <= i < mid + 1 implies lex_lt(
                        #[trigger] slots@[i].key@,
                        key@,
                    ) by {
                        if i < mid {
                            assert(lex_lt(slots@[i].key@, slots@[mid as int].key@));
                            lemma_lex_transitive(slots@[i].key@, slots@[mid as int].key@, key@);
                        }
                    }
                }
                low = mid + 1;
            },
            Rank::After => {
                proof {
                    assert forall|i: int| mid <= i < slots@.len() implies lex_lt(
                        key@,
                        #[trigger] slots@[i].key@,
                    ) by {
                        if i > mid {
                            assert(lex_lt(slots@[mid as int].key@, slots@[i].key@));
                            lemma_lex_transitive(key@, slots@[mid as int].key@, slots@[i].key@);
                        }
                    }
                }
                high = mid;
            },
        }
    }
    proof {
        if has_key(slots@, key@) {
            let i = place_of(slots@, key@);
            lemma_lex_irreflexive(key@);
            assert(lex_lt(slots@[i].key@, key@) || lex_lt(key@, slots@[i].key@));
        }
    }
    (false, low)
}

/// Putting a new key at the place that `search` names keeps the keys
/// ascending.
pub proof fn lemma_insert_keeps_order<V>(slots: Seq<Slot<V>>, at: int, slot: Slot<V>)
    requires
        ascending(slots),
        0 <= at <= slots.len(),
        forall|i: int| 0 <= i < at ==> lex_lt(#[trigger] slots[i].key@, slot.key@),
        forall|i: int| at <= i < slots.len() ==> lex_lt(slot.key@, #[trigger] slots[i].key@),
    ensures
        ascending(slots.insert(at, slot)),
{
    let next = slots.insert(at, slot);
    assert forall|i: int, j: int| 0 <= i < j < next.len() implies lex_lt(
        next[i].key@,
        next[j].key@,
    ) by {
        if i < at && j > at {
            assert(next[i] == slots[i]);
            assert(next[j] == slots[j - 1]);
            if i < j - 1 {
            } else {
                lemma_lex_transitive(slots[i].key@, slot.key@, slots[j - 1].key@);
            }
        } else if i < at && j == at {
            assert(next[i] == slots[i]);
        } else if i < at && j < at {
            assert(next[i] == slots[i] && next[j] == slots[j]);
        } else if i == at {
            assert(next[j] == slots[j - 1]);
        } else {
            assert(next[i] == slots[i - 1] && next[j] == slots[j - 1]);
        }
    }
}

/// Where the keys ascend, a key has one place only.
pub proof fn lemma_one_place<V>(slots: Seq<Slot<V>>, i: int, j: int)
    requires
        ascending(slots),
        0 <= i < slots.len(),
        0 <= j < slots.len(),
        slots[i].key@ == slots[j].key@,
    ensures
        i == j,
{
    lemma_lex_irreflexive(slots[i].key@);
    if i < j {
        assert(lex_lt(slots[i].key@, slots[j].key@));
    } else if j < i {
        assert(lex_lt(slots[j].key@, slots[i].key@));
    }
}

/// Whether the pair `a` stands no later than `b`: by the first number,
/// then by the second.
pub open spec fn pair_le(a: (usize, usize), b: (usize, usize)) -> bool {
    a.0 < b.0 || (a.0 == b.0 && a.1 <= b.1)
}

/// The standard library's `sort` on a vector of pairs of numbers. The
/// contract claims what its documentation says: the vector holds the same
/// pairs, each as often as before, in ascending order.
#[verifier::external_body]
pub(crate) fn sort_pairs(v: &mut Vec<(usize, usize)>)
    ensures
        final(v)@.to_multiset() == old(v)@.to_multiset(),
        forall|i: int, j: int|
            0 <= i < j < final(v)@.len() ==> pair_le(#[trigger] final(v)@[i], #[trigger] final(v)@[j]),
{
    v.sort();
}

} // verus!
