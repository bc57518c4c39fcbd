//! The histogram engine: records counted in buckets of equal width along
//! the time line.

use vstd::prelude::*;
use crate::calendar::{
    civil_fields, entry_seconds, fields_of, instant_of, Fields, Timestamp,
};
use crate::crunch_log::{entry_views, CrunchLog};
use crate::log_entry::{EntryView, LogError};
use crate::detect::line_views;
use crate::number::{decimal, push_padded, push_signed_padded, signed_zero_padded, zero_padded};
use crate::text::{extend_chars, from_chars, to_chars};
use crate::order::{ascending, has_key, lemma_insert_keeps_order, lemma_one_place, search, Slot};

verus! {

/// The width of a bucket.
#[derive(Debug, Clone, Copy, PartialEq, Eq, Structural)]
pub enum GraphType {
    Seconds,
    Minutes,
    Hours,
    Days,
    Months,
    Years,
}

/// The buckets of a histogram: the count under each key.
pub type Buckets = Seq<Slot<usize>>;

/// The number of buckets where the caller gives no range: 60 seconds, 60
/// minutes, 24 hours, 31 days, 12 months, 10 years.
pub open spec fn default_span(kind: GraphType) -> int {
    match kind {
        GraphType::Seconds => 60,
        GraphType::Minutes => 60,
        GraphType::Hours => 24,
        GraphType::Days => 31,
        GraphType::Months => 12,
        GraphType::Years => 10,
    }
}

/// The seconds that a range is measured in: a month is taken as 30 days, a
/// year as 365.
pub open spec fn unit_seconds(kind: GraphType) -> int {
    match kind {
        GraphType::Seconds => 1,
        GraphType::Minutes => 60,
        GraphType::Hours => 3_600,
        GraphType::Days => 86_400,
        GraphType::Months => 2_592_000,
        GraphType::Years => 31_536_000,
    }
}

/// The number of buckets: with both bounds given, as many whole units as
/// lie between the start and the upper bound, and at least one; else the
/// default.
pub open spec fn span(kind: GraphType, start: int, from: Option<Timestamp>, to: Option<Timestamp>)
    -> int {
    if from is Some && to is Some {
        let diff = to->0.seconds - start;
        if diff >= unit_seconds(kind) {
            diff / unit_seconds(kind)
        } else {
            1
        }
    } else {
        default_span(kind)
    }
}

/// How many seconds after the start bucket `i` is taken. Months advance by
/// a twelfth of 365 days, in whole days, from the day after the start;
/// years by 365 days.
pub open spec fn bucket_offset(kind: GraphType, i: int) -> int {
    match kind {
        GraphType::Seconds => i,
        GraphType::Minutes => i * 60,
        GraphType::Hours => i * 3_600,
        GraphType::Days => i * 86_400,
        GraphType::Months => ((i * 365) / 12 + 1) * 86_400,
        GraphType::Years => i * 365 * 86_400,
    }
}

/// How many seconds after the start the middle of the range lies.
pub open spec fn middle_offset(kind: GraphType, duration: int) -> int {
    match kind {
        GraphType::Seconds => duration / 2,
        GraphType::Minutes => (duration / 2) * 60,
        GraphType::Hours => (duration / 2) * 3_600,
        GraphType::Days => (duration / 2) * 86_400,
        GraphType::Months => ((duration * 365) / 24) * 86_400,
        GraphType::Years => ((duration * 365) / 2) * 86_400,
    }
}

/// How many seconds after the start the end of the range lies.
pub open spec fn end_offset(kind: GraphType, duration: int) -> int {
    match kind {
        GraphType::Seconds => duration - 1,
        GraphType::Minutes => (duration - 1) * 60,
        GraphType::Hours => (duration - 1) * 3_600,
        GraphType::Days => (duration - 1) * 86_400,
        GraphType::Months => ((duration * 365) / 12) * 86_400,
        GraphType::Years => duration * 365 * 86_400,
    }
}

/// The calendar fields of the instant `offset` seconds after `start`,
/// where the calendar reaches it.
pub open spec fn moment(start: int, offset: int) -> Option<Fields> {
    let t = start + offset;
    if i64::MIN <= t <= i64::MAX {
        civil_fields(t as i64)
    } else {
        None
    }
}

/// The key of a bucket: the fields down to the width of the bucket, the
/// year as it is and the others in two digits, without separators.
pub open spec fn key_text(kind: GraphType, f: Fields) -> Seq<char> {
    let year = signed_zero_padded(f.0 as int, 0);
    let month = zero_padded(f.1 as nat, 2);
    let day = zero_padded(f.2 as nat, 2);
    let hour = zero_padded(f.3 as nat, 2);
    let minute = zero_padded(f.4 as nat, 2);
    let second = zero_padded(f.5 as nat, 2);
    match kind {
        GraphType::Seconds => year + month + day + hour + minute + second,
        GraphType::Minutes => year + month + day + hour + minute,
        GraphType::Hours => year + month + day + hour,
        GraphType::Days => year + month + day,
        GraphType::Months => year + month,
        GraphType::Years => year,
    }
}

/// The key of the bucket that a record falls into.
pub open spec fn entry_key(kind: GraphType, e: EntryView) -> Seq<char> {
    key_text(kind, (e.year, e.month, e.day, e.hour, e.minute, e.second))
}

/// The key of bucket `i` of a range that starts at `start`.
pub open spec fn bucket_key(kind: GraphType, start: int, i: int) -> Option<Seq<char>> {
    match moment(start, bucket_offset(kind, i)) {
        Some(f) => Some(key_text(kind, f)),
        None => None,
    }
}

/// Whether the calendar reaches every bucket of the range, its middle and
/// its end, and the number of buckets is one that an `i64` holds.
pub open spec fn reachable(kind: GraphType, start: int, duration: int) -> bool {
    &&& duration <= i64::MAX
    &&& forall|i: int| 0 <= i < duration ==> (#[trigger] bucket_key(kind, start, i)) is Some
    &&& moment(start, 0) is Some
    &&& moment(start, middle_offset(kind, duration)) is Some
    &&& moment(start, end_offset(kind, duration)) is Some
}

/// How many of `entries` fall into the bucket `key`.
pub open spec fn hits(entries: Seq<EntryView>, kind: GraphType, key: Seq<char>) -> nat
    decreases entries.len(),
{
    if entries.len() == 0 {
        0
    } else {
        hits(entries.drop_last(), kind, key) + if entry_key(kind, entries.last()) == key {
            1nat
        } else {
            0nat
        }
    }
}

/// The keys of the buckets, in order.
pub open spec fn key_list(buckets: Buckets) -> Seq<Seq<char>> {
    Seq::new(buckets.len(), |i: int| buckets[i].key@)
}

/// How many of `entries` fall into a bucket whose key is among `keys`.
pub open spec fn covered(entries: Seq<EntryView>, kind: GraphType, keys: Seq<Seq<char>>) -> nat
    decreases entries.len(),
{
    if entries.len() == 0 {
        0
    } else {
        covered(entries.drop_last(), kind, keys) + if keys.contains(
            entry_key(kind, entries.last()),
        ) {
            1nat
        } else {
            0nat
        }
    }
}

/// The counts of all buckets together.
pub open spec fn sum_counts(buckets: Buckets) -> nat
    decreases buckets.len(),
{
    if buckets.len() == 0 {
        0
    } else {
        sum_counts(buckets.drop_last()) + buckets.last().value as nat
    }
}

/// The largest count; 0 without buckets.
pub open spec fn max_count(buckets: Buckets) -> nat
    decreases buckets.len(),
{
    if buckets.len() == 0 {
        0
    } else {
        let rest = max_count(buckets.drop_last());
        if buckets.last().value > rest {
            buckets.last().value as nat
        } else {
            rest
        }
    }
}

/// The smallest count; 0 without buckets.
pub open spec fn min_count(buckets: Buckets) -> nat
    decreases buckets.len(),
{
    if buckets.len() == 0 {
        0
    } else if buckets.len() == 1 {
        buckets.last().value as nat
    } else {
        let rest = min_count(buckets.drop_last());
        if buckets.last().value < rest {
            buckets.last().value as nat
        } else {
            rest
        }
    }
}

/// Writes the key of a bucket.
pub fn make_key(kind: GraphType, f: Fields) -> (key: Vec<char>)
    ensures
        key@ == key_text(kind, f),
{
    let mut key: Vec<char> = Vec::new();
    push_signed_padded(&mut key, f.0 as i64, 0);
    match kind {
        GraphType::Years => {},
        GraphType::Months => {
            push_padded(&mut key, f.1 as u64, 2);
        },
        GraphType::Days => {
            push_padded(&mut key, f.1 as u64, 2);
            push_padded(&mut key, f.2 as u64, 2);
        },
        GraphType::Hours => {
            push_padded(&mut key, f.1 as u64, 2);
            push_padded(&mut key, f.2 as u64, 2);
            push_padded(&mut key, f.3 as u64, 2);
        },
        GraphType::Minutes => {
            push_padded(&mut key, f.1 as u64, 2);
            push_padded(&mut key, f.2 as u64, 2);
            push_padded(&mut key, f.3 as u64, 2);
            push_padded(&mut key, f.4 as u64, 2);
        },
        GraphType::Seconds => {
            push_padded(&mut key, f.1 as u64, 2);
            push_padded(&mut key, f.2 as u64, 2);
            push_padded(&mut key, f.3 as u64, 2);
            push_padded(&mut key, f.4 as u64, 2);
            push_padded(&mut key, f.5 as u64, 2);
        },
    }
    assert(key@ =~= key_text(kind, f));
    key
}

/// The calendar fields of the instant `offset` seconds after `start`.
fn moment_at(start: i64, offset: i128) -> (f: Option<Fields>)
    requires
        -0x1_0000_0000_0000_0000_0000_0000 <= offset <= 0x1_0000_0000_0000_0000_0000_0000,
    ensures
        f == moment(start as int, offset as int),
{
    let t: i128 = start as i128 + offset;
    if t < i64::MIN as i128 || t > i64::MAX as i128 {
        None
    } else {
        fields_of(t as i64)
    }
}

fn unit_of(kind: GraphType) -> (u: i128)
    ensures
        u == unit_seconds(kind),
{
    match kind {
        GraphType::Seconds => 1,
        GraphType::Minutes => 60,
        GraphType::Hours => 3_600,
        GraphType::Days => 86_400,
        GraphType::Months => 2_592_000,
        GraphType::Years => 31_536_000,
    }
}

fn offset_of(kind: GraphType, i: i64) -> (o: i128)
    requires
        0 <= i,
    ensures
        o == bucket_offset(kind, i as int),
        0 <= o <= 0x1_0000_0000_0000_0000_0000_0000,
{
    let n: i128 = i as i128;
    match kind {
        GraphType::Seconds => n,
        GraphType::Minutes => n * 60,
        GraphType::Hours => n * 3_600,
        GraphType::Days => n * 86_400,
        GraphType::Months => ((n * 365) / 12 + 1) * 86_400,
        GraphType::Years => n * 365 * 86_400,
    }
}

fn middle_of(kind: GraphType, duration: i64) -> (o: i128)
    requires
        0 <= duration,
    ensures
        o == middle_offset(kind, duration as int),
        0 <= o <= 0x1_0000_0000_0000_0000_0000_0000,
{
    let n: i128 = duration as i128;
    match kind {
        GraphType::Seconds => n / 2,
        GraphType::Minutes => (n / 2) * 60,
        GraphType::Hours => (n / 2) * 3_600,
        GraphType::Days => (n / 2) * 86_400,
        GraphType::Months => ((n * 365) / 24) * 86_400,
        GraphType::Years => ((n * 365) / 2) * 86_400,
    }
}

fn end_of(kind: GraphType, duration: i64) -> (o: i128)
    requires
        1 <= duration,
    ensures
        o == end_offset(kind, duration as int),
        0 <= o <= 0x1_0000_0000_0000_0000_0000_0000,
{
    let n: i128 = duration as i128;
    match kind {
        GraphType::Seconds => n - 1,
        GraphType::Minutes => (n - 1) * 60,
        GraphType::Hours => (n - 1) * 3_600,
        GraphType::Days => (n - 1) * 86_400,
        GraphType::Months => ((n * 365) / 12) * 86_400,
        GraphType::Years => n * 365 * 86_400,
    }
}

/// The number of buckets of a range.
fn span_of(kind: GraphType, start: i64, from: Option<Timestamp>, to: Option<Timestamp>) -> (d:
    i128)
    ensures
        d == span(kind, start as int, from, to),
        1 <= d,
{
    match (from, to) {
        (Some(_), Some(upper)) => {
            let diff: i128 = upper.seconds as i128 - start as i128;
            let unit = unit_of(kind);
            if diff >= unit {
                diff / unit
            } else {
                1
            }
        },
        _ => match kind {
            GraphType::Seconds => 60,
            GraphType::Minutes => 60,
            GraphType::Hours => 24,
            GraphType::Days => 31,
            GraphType::Months => 12,
            GraphType::Years => 10,
        },
    }
}

/// No bucket holds more records than there are.
pub proof fn lemma_hits_bound(entries: Seq<EntryView>, kind: GraphType, key: Seq<char>)
    ensures
        hits(entries, kind, key) <= entries.len(),
    decreases entries.len(),
{
    if entries.len() > 0 {
        lemma_hits_bound(entries.drop_last(), kind, key);
    }
}

proof fn lemma_sum_bump(rows: Buckets, next: Buckets, i: int)
    requires
        0 <= i < rows.len() == next.len(),
        next[i].value == rows[i].value + 1,
        forall|j: int| 0 <= j < rows.len() && j != i ==> next[j] == rows[j],
    ensures
        sum_counts(next) == sum_counts(rows) + 1,
    decreases rows.len(),
{
    if i == rows.len() - 1 {
        assert(next.drop_last() =~= rows.drop_last());
    } else {
        lemma_sum_bump(rows.drop_last(), next.drop_last(), i);
    }
}

proof fn lemma_sum_zero(rows: Buckets)
    requires
        forall|j: int| 0 <= j < rows.len() ==> (#[trigger] rows[j]).value == 0,
    ensures
        sum_counts(rows) == 0,
    decreases rows.len(),
{
    if rows.len() > 0 {
        lemma_sum_zero(rows.drop_last());
    }
}

/// Whether a key is present depends on the list of keys alone.
pub proof fn lemma_same_keys(a: Buckets, b: Buckets)
    requires
        key_list(a) == key_list(b),
    ensures
        forall|k: Seq<char>| has_key(a, k) == has_key(b, k),
{
    assert(a.len() == key_list(a).len());
    assert(b.len() == key_list(b).len());
    assert forall|k: Seq<char>| has_key(a, k) == has_key(b, k) by {
        if has_key(a, k) {
            let i = choose|i: int| 0 <= i < a.len() && a[i].key@ == k;
            assert(key_list(a)[i] == k);
            assert(key_list(b)[i] == b[i].key@);
        }
        if has_key(b, k) {
            let i = choose|i: int| 0 <= i < b.len() && b[i].key@ == k;
            assert(key_list(b)[i] == k);
            assert(key_list(a)[i] == a[i].key@);
        }
    }
}

/// Whether the buckets of a width all have one length: seconds, minutes,
/// hours and days have, months and years are taken approximately.
pub open spec fn is_fixed_unit(kind: GraphType) -> bool {
    kind != GraphType::Months && kind != GraphType::Years
}

/// The next wider width; years are the widest.
pub open spec fn coarser(kind: GraphType) -> GraphType {
    match kind {
        GraphType::Seconds => GraphType::Minutes,
        GraphType::Minutes => GraphType::Hours,
        GraphType::Hours => GraphType::Days,
        GraphType::Days => GraphType::Months,
        GraphType::Months => GraphType::Years,
        GraphType::Years => GraphType::Years,
    }
}

/// How many fields a key has behind its year.
pub open spec fn depth(kind: GraphType) -> nat {
    match kind {
        GraphType::Seconds => 5,
        GraphType::Minutes => 4,
        GraphType::Hours => 3,
        GraphType::Days => 2,
        GraphType::Months => 1,
        GraphType::Years => 0,
    }
}

/// The last field of a key.
pub open spec fn last_field(kind: GraphType, f: Fields) -> nat {
    match kind {
        GraphType::Seconds => f.5 as nat,
        GraphType::Minutes => f.4 as nat,
        GraphType::Hours => f.3 as nat,
        GraphType::Days => f.2 as nat,
        GraphType::Months => f.1 as nat,
        GraphType::Years => 0,
    }
}

/// The fields down to the width of a bucket, with 0 for the others.
pub open spec fn truncated(kind: GraphType, f: Fields) -> Fields {
    match kind {
        GraphType::Seconds => f,
        GraphType::Minutes => (f.0, f.1, f.2, f.3, f.4, 0),
        GraphType::Hours => (f.0, f.1, f.2, f.3, 0, 0),
        GraphType::Days => (f.0, f.1, f.2, 0, 0, 0),
        GraphType::Months => (f.0, f.1, 0, 0, 0, 0),
        GraphType::Years => (f.0, 0, 0, 0, 0, 0),
    }
}

proof fn lemma_cut(a: Seq<char>, t: Seq<char>, b: Seq<char>, u: Seq<char>)
    requires
        a + t == b + u,
        t.len() == u.len(),
    ensures
        a == b,
        t == u,
{
    assert((a + t).len() == (b + u).len());
    assert(a =~= (a + t).take(a.len() as int));
    assert(b =~= (b + u).take(b.len() as int));
    assert(t =~= (a + t).skip(a.len() as int));
    assert(u =~= (b + u).skip(b.len() as int));
}

/// Dates with times that have one key agree down to the width of the key.
pub proof fn lemma_same_key(kind: GraphType, f: Fields, g: Fields)
    requires
        instant_of(f) is Some,
        instant_of(g) is Some,
        key_text(kind, f) == key_text(kind, g),
    ensures
        truncated(kind, f) == truncated(kind, g),
    decreases depth(kind),
{
    if kind == GraphType::Years {
        crate::number::lemma_signed_alike(f.0 as int, g.0 as int, 0);
    } else {
        let wide = coarser(kind);
        let x = last_field(kind, f);
        let y = last_field(kind, g);
        assert(key_text(kind, f) == key_text(wide, f) + zero_padded(x, 2));
        assert(key_text(kind, g) == key_text(wide, g) + zero_padded(y, 2));
        crate::number::lemma_two_places(x);
        crate::number::lemma_two_places(y);
        lemma_cut(key_text(wide, f), zero_padded(x, 2), key_text(wide, g), zero_padded(y, 2));
        crate::number::lemma_padded_alike(x, y, 2);
        lemma_same_key(wide, f, g);
    }
}

/// Two buckets of a range of seconds, minutes, hours or days have
/// different keys.
pub proof fn lemma_fixed_unit_keys_differ(kind: GraphType, start: int, i: int, j: int)
    requires
        is_fixed_unit(kind),
        0 <= i < j,
        bucket_key(kind, start, i) is Some,
        bucket_key(kind, start, j) is Some,
    ensures
        bucket_key(kind, start, i) != bucket_key(kind, start, j),
{
    let a = start + bucket_offset(kind, i);
    let b = start + bucket_offset(kind, j);
    let f = moment(start, bucket_offset(kind, i))->0;
    let g = moment(start, bucket_offset(kind, j))->0;
    crate::calendar::lemma_fields_lead_back(a as i64);
    crate::calendar::lemma_fields_lead_back(b as i64);
    assert(instant_of(f) == Some(a));
    assert(instant_of(g) == Some(b));
    if key_text(kind, f) == key_text(kind, g) {
        lemma_same_key(kind, f, g);
        assert(b - a >= unit_seconds(kind));
    }
}

/// The buckets of a range, all empty: one for every key of the range;
/// none where the calendar does not reach every bucket.
fn empty_buckets(kind: GraphType, start: i64, count: i64) -> (r: Option<Vec<Slot<usize>>>)
    requires
        0 <= count,
    ensures
        r is Some <==> forall|j: int|
            0 <= j < count ==> (#[trigger] bucket_key(kind, start as int, j)) is Some,
        r matches Some(data) ==> {
            &&& ascending(data@)
            &&& is_fixed_unit(kind) ==> data@.len() == count
            &&& forall|j: int| 0 <= j < data@.len() ==> (#[trigger] data@[j]).value == 0
            &&& forall|k: Seq<char>| #[trigger]
                has_key(data@, k) <==> exists|j: int|
                    0 <= j < count && #[trigger] bucket_key(kind, start as int, j) == Some(k)
        },
{
    let mut data: Vec<Slot<usize>> = Vec::new();
    let mut i: i64 = 0;
    while i < count
        invariant
            0 <= i <= count,
            ascending(data@),
            is_fixed_unit(kind) ==> data@.len() == i,
            forall|j: int| 0 <= j < data@.len() ==> (#[trigger] data@[j]).value == 0,
            forall|j: int|
                0 <= j < i ==> (#[trigger] bucket_key(kind, start as int, j))
                    is Some,
            forall|k: Seq<char>| #[trigger]
                has_key(data@, k) <==> exists|j: int|
                    0 <= j < i && #[trigger] bucket_key(kind, start as int, j)
                        == Some(k),
        decreases count - i,
    {
        let f = match moment_at(start, offset_of(kind, i)) {
            Some(f) => f,
            None => {
                assert(bucket_key(kind, start as int, i as int) is None);
                return None;
            },
        };
        let key = make_key(kind, f);
        assert(bucket_key(kind, start as int, i as int) == Some(key@));
        let found = search(&data, key.as_slice());
        let ghost before = data@;
        proof {
            if found.0 && is_fixed_unit(kind) {
                let j = choose|j: int|
                    0 <= j < i && #[trigger] bucket_key(kind, start as int, j)
                        == Some(key@);
                lemma_fixed_unit_keys_differ(kind, start as int, j, i as int);
            }
        }
        if !found.0 {
            let slot = Slot { key, value: 0usize };
            proof {
                lemma_insert_keeps_order(before, found.1 as int, slot);
            }
            data.insert(found.1, slot);
            proof {
                let after = data@;
                assert forall|j: int| 0 <= j < after.len() implies (#[trigger] after[j]).value
                    == 0 by {
                    if j < found.1 {
                        assert(after[j] == before[j]);
                    } else if j > found.1 {
                        assert(after[j] == before[j - 1]);
                    }
                }
                assert forall|k: Seq<char>| #[trigger]
                    has_key(after, k) <==> exists|j: int|
                        0 <= j < i + 1 && #[trigger] bucket_key(
                            kind,
                            start as int,
                            j,
                        ) == Some(k) by {
                    if has_key(after, k) {
                        let q = choose|q: int| 0 <= q < after.len() && after[q].key@ == k;
                        if q == found.1 {
                            assert(bucket_key(kind, start as int, i as int)
                                == Some(k));
                        } else {
                            let p = if q < found.1 {
                                q
                            } else {
                                q - 1
                            };
                            assert(before[p].key@ == k);
                            assert(has_key(before, k));
                            let j = choose|j: int|
                                0 <= j < i && #[trigger] bucket_key(
                                    kind,
                                    start as int,
                                    j,
                                ) == Some(k);
                            assert(0 <= j < i + 1);
                        }
                    }
                    if exists|j: int|
                        0 <= j < i + 1 && #[trigger] bucket_key(
                            kind,
                            start as int,
                            j,
                        ) == Some(k) {
                        let j = choose|j: int|
                            0 <= j < i + 1 && #[trigger] bucket_key(
                                kind,
                                start as int,
                                j,
                            ) == Some(k);
                        if j == i {
                            assert(after[found.1 as int].key@ == k);
                        } else {
                            assert(has_key(before, k));
                            let p = choose|p: int| 0 <= p < before.len() && before[p].key@ == k;
                            let q = if p < found.1 {
                                p
                            } else {
                                p + 1
                            };
                            assert(after[q].key@ == k);
                        }
                    }
                }
            }
        } else {
            proof {
                assert forall|k: Seq<char>| #[trigger]
                    has_key(before, k) <==> exists|j: int|
                        0 <= j < i + 1 && #[trigger] bucket_key(
                            kind,
                            start as int,
                            j,
                        ) == Some(k) by {
                    if has_key(before, k) {
                        let j = choose|j: int|
                            0 <= j < i && #[trigger] bucket_key(
                                kind,
                                start as int,
                                j,
                            ) == Some(k);
                        assert(0 <= j < i + 1);
                    }
                    if exists|j: int|
                        0 <= j < i + 1 && #[trigger] bucket_key(
                            kind,
                            start as int,
                            j,
                        ) == Some(k) {
                        let j = choose|j: int|
                            0 <= j < i + 1 && #[trigger] bucket_key(
                                kind,
                                start as int,
                                j,
                            ) == Some(k);
                        if j == i {
                            assert(before[found.1 as int].key@ == k);
                        }
                    }
                }
            }
        }
        i += 1;
    }
    Some(data)
}

/// Counts every record of `log` in the bucket of its key, where there is
/// one.
fn count_records(data: &mut Vec<Slot<usize>>, log: &CrunchLog, kind: GraphType)
    requires
        ascending(old(data)@),
        forall|j: int| 0 <= j < old(data)@.len() ==> (#[trigger] old(data)@[j]).value == 0,
    ensures
        ascending(final(data)@),
        key_list(final(data)@) == key_list(old(data)@),
        forall|r: int|
            0 <= r < final(data)@.len() ==> (#[trigger] final(data)@[r]).value == hits(
                entry_views(log.entries@),
                kind,
                final(data)@[r].key@,
            ),
        sum_counts(final(data)@) == covered(
            entry_views(log.entries@),
            kind,
            key_list(final(data)@),
        ),
{
    let ghost all = entry_views(log.entries@);
    let ghost keys = key_list(data@);
    proof {
        lemma_sum_zero(data@);
        assert(all.take(0) =~= Seq::<EntryView>::empty());
    }
    let mut n: usize = 0;
    while n < log.entries.len()
        invariant
            n <= log.entries@.len(),
            all == entry_views(log.entries@),
            ascending(data@),
            key_list(data@) == keys,
            forall|r: int|
                0 <= r < data@.len() ==> (#[trigger] data@[r]).value == hits(
                    all.take(n as int),
                    kind,
                    data@[r].key@,
                ),
            sum_counts(data@) == covered(all.take(n as int), kind, keys),
        decreases log.entries@.len() - n,
    {
        let e = &log.entries[n];
        let key = make_key(kind, (e.year, e.month, e.day, e.hour, e.minute, e.second));
        let found = search(&data, key.as_slice());
        let ghost before = data@;
        let ghost seen = all.take(n as int);
        let ghost next = all.take(n + 1);
        proof {
            assert(next.drop_last() == seen);
            assert(next.last() == e@);
            assert(key@ == entry_key(kind, e@));
            if found.0 {
                assert(keys[found.1 as int] == key@);
                lemma_hits_bound(seen, kind, key@);
            } else {
                if keys.contains(key@) {
                    let p = choose|p: int| 0 <= p < keys.len() && keys[p] == key@;
                    assert(before[p].key@ == key@);
                }
            }
        }
        if found.0 {
            let value: usize = data[found.1].value;
            data[found.1].value = value + 1;
            proof {
                let after = data@;
                lemma_sum_bump(before, after, found.1 as int);
                assert(key_list(after) =~= keys);
                assert forall|x: int, y: int| 0 <= x < y < after.len() implies crate::order::lex_lt(
                    after[x].key@,
                    after[y].key@,
                ) by {
                    assert(after[x].key@ == before[x].key@);
                    assert(after[y].key@ == before[y].key@);
                }
                assert forall|r: int| 0 <= r < after.len() implies (#[trigger] after[r]).value
                    == hits(next, kind, after[r].key@) by {
                    assert(after[r].key@ == before[r].key@);
                    if r != found.1 {
                        assert(after[r] == before[r]);
                        if before[r].key@ == key@ {
                            lemma_one_place(before, r, found.1 as int);
                        }
                    }
                }
            }
        } else {
            proof {
                assert forall|r: int| 0 <= r < before.len() implies (#[trigger] before[r]).value
                    == hits(next, kind, before[r].key@) by {
                    assert(has_key(before, before[r].key@));
                }
            }
        }
        n += 1;
    }
    proof {
        assert(all.take(log.entries@.len() as int) == all);
    }
}

/// The largest and the smallest count.
fn extremes(data: &Vec<Slot<usize>>) -> (r: (usize, usize))
    ensures
        r.0 == max_count(data@),
        r.1 == min_count(data@),
{
    let mut max_value: usize = 0;
    let mut min_value: usize = 0;
    let mut r: usize = 0;
    while r < data.len()
        invariant
            r <= data@.len(),
            max_value == max_count(data@.take(r as int)),
            min_value == min_count(data@.take(r as int)),
        decreases data@.len() - r,
    {
        let value: usize = data[r].value;
        proof {
            assert(data@.take(r + 1).drop_last() == data@.take(r as int));
            assert(data@.take(r + 1).last() == data@[r as int]);
        }
        if value > max_value {
            max_value = value;
        }
        if r == 0 || value < min_value {
            min_value = value;
        }
        r += 1;
    }
    proof {
        assert(data@.take(data@.len() as int) == data@);
    }
    (max_value, min_value)
}

/// The instant at which the range of a histogram starts: the lower bound
/// where one is given, else the instant of the first record.
pub open spec fn range_start(entries: Seq<EntryView>, from: Option<Timestamp>) -> int {
    match from {
        Some(f) => f.seconds as int,
        None => entry_seconds(entries[0]),
    }
}

/// A histogram: the buckets of a range of time with their counts.
pub struct GraphHash {
    data: Vec<Slot<usize>>,
    kind: Option<GraphType>,
    start: Timestamp,
    start_date: Fields,
    middle_date: Fields,
    end_date: Fields,
    max_value: usize,
    min_value: usize,
    duration: i64,
    tick: char,
    wide: bool,
}

impl GraphHash {
    /// The buckets, by ascending key.
    pub closed spec fn buckets(&self) -> Buckets {
        self.data@
    }

    /// The width of the buckets; `None` for the histogram of no records.
    pub closed spec fn kind(&self) -> Option<GraphType> {
        self.kind
    }

    /// The instant at which the range starts.
    pub closed spec fn start(&self) -> int {
        self.start.seconds as int
    }

    /// The number of buckets asked for; two of them may share a key.
    pub closed spec fn duration(&self) -> int {
        self.duration as int
    }

    /// The calendar fields of the start of the range.
    pub closed spec fn start_fields(&self) -> Fields {
        self.start_date
    }

    /// The calendar fields of the middle of the range.
    pub closed spec fn middle_fields(&self) -> Fields {
        self.middle_date
    }

    /// The calendar fields of the end of the range.
    pub closed spec fn end_fields(&self) -> Fields {
        self.end_date
    }

    /// The largest count.
    pub closed spec fn max(&self) -> nat {
        self.max_value as nat
    }

    /// The smallest count.
    pub closed spec fn min(&self) -> nat {
        self.min_value as nat
    }

    /// The character that a filled column is drawn with.
    pub closed spec fn tick(&self) -> char {
        self.tick
    }

    /// Whether every column is drawn two characters wide.
    pub closed spec fn wide(&self) -> bool {
        self.wide
    }

    /// Whether the histogram is in order: the keys of its buckets ascend,
    /// and its extremes are those of its counts.
    pub open spec fn valid(&self) -> bool {
        &&& ascending(self.buckets())
        &&& 0 <= self.duration()
        &&& self.max() == max_count(self.buckets())
        &&& self.min() == min_count(self.buckets())
    }

    /// Whether the histogram is the one of `entries` at the width `kind`
    /// over the range that the bounds give.
    pub open spec fn built_from(
        &self,
        entries: Seq<EntryView>,
        kind: GraphType,
        from: Option<Timestamp>,
        to: Option<Timestamp>,
    ) -> bool {
        &&& self.valid()
        &&& self.tick() == '#'
        &&& !self.wide()
        &&& if entries.len() == 0 {
            self.buckets().len() == 0 && self.kind() is None
        } else {
            let start = range_start(entries, from);
            let count = span(kind, start, from, to);
            &&& reachable(kind, start, count)
            &&& self.kind() == Some(kind)
            &&& self.start() == start
            &&& self.duration() == count
            &&& Some(self.start_fields()) == moment(start, 0)
            &&& Some(self.middle_fields()) == moment(start, middle_offset(kind, count))
            &&& Some(self.end_fields()) == moment(start, end_offset(kind, count))
            &&& forall|k: Seq<char>| #[trigger]
                has_key(self.buckets(), k) <==> exists|i: int|
                    0 <= i < count && #[trigger] bucket_key(kind, start, i) == Some(k)
            &&& forall|r: int|
                0 <= r < self.buckets().len() ==> (#[trigger] self.buckets()[r]).value == hits(
                    entries,
                    kind,
                    self.buckets()[r].key@,
                )
            &&& sum_counts(self.buckets()) == covered(entries, kind, key_list(self.buckets()))
            &&& is_fixed_unit(kind) ==> self.buckets().len() == count
        }
    }

    /// The histogram of `log` over the default range, which starts at the
    /// first record.
    pub fn new(log: &CrunchLog, graph_type: GraphType) -> (r: Result<GraphHash, LogError>)
        ensures
            r matches Ok(g) ==> g.built_from(entry_views(log.entries@), graph_type, None, None),
            r matches Err(e) ==> e == LogError::OutOfRange && log.entries@.len() > 0 && !reachable(
                graph_type,
                range_start(entry_views(log.entries@), None),
                span(graph_type, range_start(entry_views(log.entries@), None), None, None),
            ),
    {
        GraphHash::new_with_range(log, graph_type, None, None)
    }

    /// The histogram of `log`: the range starts at `from`, or at the first
    /// record where no lower bound is given; with both bounds given it has
    /// as many buckets as whole units lie between them, else the default
    /// number. Every bucket of the range is there, with the number of
    /// records that fall into it; records that fall into none are passed
    /// over. A range that the calendar does not reach is refused.
    pub fn new_with_range(
        log: &CrunchLog,
        graph_type: GraphType,
        from: Option<Timestamp>,
        to: Option<Timestamp>,
    ) -> (r: Result<GraphHash, LogError>)
        ensures
            r matches Ok(g) ==> g.built_from(entry_views(log.entries@), graph_type, from, to),
            r matches Err(e) ==> e == LogError::OutOfRange && log.entries@.len() > 0 && !reachable(
                graph_type,
                range_start(entry_views(log.entries@), from),
                span(graph_type, range_start(entry_views(log.entries@), from), from, to),
            ),
    {
        let ghost all = entry_views(log.entries@);
        if log.entries.len() == 0 {
            return Ok(
                GraphHash {
                    data: Vec::new(),
                    kind: None,
                    start: Timestamp { seconds: 0 },
                    start_date: (1970, 1, 1, 0, 0, 0),
                    middle_date: (1970, 1, 1, 0, 0, 0),
                    end_date: (1970, 1, 1, 0, 0, 0),
                    max_value: 0,
                    min_value: 0,
                    duration: 0,
                    tick: '#',
                    wide: false,
                },
            );
        }
        let start: Timestamp = match from {
            Some(f) => f,
            None => Timestamp::of_entry(&log.entries[0]),
        };
        assert(start.seconds == range_start(all, from));
        let wide_count = span_of(graph_type, start.seconds, from, to);
        if wide_count > i64::MAX as i128 {
            return Err(LogError::OutOfRange);
        }
        let count: i64 = wide_count as i64;
        let start_date = match moment_at(start.seconds, 0) {
            Some(f) => f,
            None => {
                return Err(LogError::OutOfRange);
            },
        };
        let middle_date = match moment_at(start.seconds, middle_of(graph_type, count)) {
            Some(f) => f,
            None => {
                return Err(LogError::OutOfRange);
            },
        };
        let end_date = match moment_at(start.seconds, end_of(graph_type, count)) {
            Some(f) => f,
            None => {
                return Err(LogError::OutOfRange);
            },
        };
        let mut data = match empty_buckets(graph_type, start.seconds, count) {
            Some(data) => data,
            None => {
                return Err(LogError::OutOfRange);
            },
        };
        let ghost empty = data@;
        count_records(&mut data, log, graph_type);
        proof {
            lemma_same_keys(data@, empty);
            assert(data@.len() == key_list(data@).len());
            assert(empty.len() == key_list(empty).len());
        }
        let (max_value, min_value) = extremes(&data);
        Ok(
            GraphHash {
                data,
                kind: Some(graph_type),
                start,
                start_date,
                middle_date,
                end_date,
                max_value,
                min_value,
                duration: count,
                tick: '#',
                wide: false,
            },
        )
    }

    /// The number of buckets.
    pub fn len(&self) -> (n: usize)
        ensures
            n == self.buckets().len(),
    {
        self.data.len()
    }

    /// The count of the bucket `key`; `None` where the range has no such
    /// bucket.
    pub fn count_for(&self, key: &str) -> (c: Option<usize>)
        requires
            self.valid(),
        ensures
            c is Some == has_key(self.buckets(), key@),
            c matches Some(n) ==> exists|r: int|
                0 <= r < self.buckets().len() && self.buckets()[r].key@ == key@
                    && self.buckets()[r].value == n,
    {
        let chars = to_chars(key);
        let found = search(&self.data, chars.as_slice());
        if found.0 {
            Some(self.data[found.1].value)
        } else {
            None
        }
    }

    /// The largest count.
    pub fn max_value(&self) -> (n: usize)
        ensures
            n == self.max(),
    {
        self.max_value
    }

    /// The smallest count.
    pub fn min_value(&self) -> (n: usize)
        ensures
            n == self.min(),
    {
        self.min_value
    }

    /// The number of buckets asked for.
    pub fn span(&self) -> (n: i64)
        ensures
            n == self.duration(),
    {
        self.duration
    }

    /// Sets the character that a filled column is drawn with.
    pub fn set_tick(&mut self, tick: char)
        ensures
            final(self).tick() == tick,
            final(self).wide() == old(self).wide(),
            final(self).same_counts(*old(self)),
    {
        self.tick = tick;
    }

    /// Sets whether every column is drawn two characters wide.
    pub fn set_wide(&mut self, wide: bool)
        ensures
            final(self).wide() == wide,
            final(self).tick() == old(self).tick(),
            final(self).same_counts(*old(self)),
    {
        self.wide = wide;
    }

    /// Whether two histograms differ in nothing but how they are drawn.
    pub open spec fn same_counts(&self, other: GraphHash) -> bool {
        &&& self.buckets() == other.buckets()
        &&& self.kind() == other.kind()
        &&& self.start() == other.start()
        &&& self.duration() == other.duration()
        &&& self.start_fields() == other.start_fields()
        &&& self.middle_fields() == other.middle_fields()
        &&& self.end_fields() == other.end_fields()
        &&& self.max() == other.max()
        &&& self.min() == other.min()
    }
}

/// Every count lies between the extremes.
pub proof fn lemma_extremes(buckets: Buckets, r: int)
    requires
        0 <= r < buckets.len(),
    ensures
        min_count(buckets) <= buckets[r].value <= max_count(buckets),
    decreases buckets.len(),
{
    if r < buckets.len() - 1 {
        lemma_extremes(buckets.drop_last(), r);
    }
}

/// The number of levels that the counts are scaled to.
pub const LEVELS: usize = 6;

/// `a / b`, rounded up.
pub open spec fn ceil_div(a: int, b: int) -> int {
    (a + b - 1) / b
}

/// The height of a column on the scale of six levels: an empty bucket has
/// none; else `6 * (count - min) / (max - min)` rounded up where the
/// extremes differ, and `6 * count / max` rounded up where they do not.
pub open spec fn height(count: int, min: int, max: int) -> int {
    if count <= 0 {
        0
    } else if max > min {
        ceil_div(LEVELS * (count - min), max - min)
    } else if max > 0 {
        ceil_div(LEVELS * count, max)
    } else {
        0
    }
}

/// One column of one row of the chart: the tick or a blank, and a blank
/// more in a wide chart.
pub open spec fn cell(filled: bool, tick: char, wide: bool) -> Seq<char> {
    let mark = if filled {
        tick
    } else {
        ' '
    };
    if wide {
        seq![mark, ' ']
    } else {
        seq![mark]
    }
}

/// The first `upto` columns of the row at `level`: a column is filled
/// where its height reaches the level. Level 0 is the base line, which is
/// filled throughout.
pub open spec fn chart_row(
    buckets: Buckets,
    level: int,
    min: int,
    max: int,
    tick: char,
    wide: bool,
    upto: int,
) -> Seq<char>
    decreases upto,
{
    if upto <= 0 {
        Seq::empty()
    } else {
        chart_row(buckets, level, min, max, tick, wide, upto - 1) + cell(
            height(buckets[upto - 1].value as int, min, max) >= level,
            tick,
            wide,
        )
    }
}

/// The field of a timestamp that an axis label shows: the one that the
/// width of the buckets names.
pub open spec fn label_field(kind: Option<GraphType>, f: Fields) -> int {
    match kind {
        Some(GraphType::Seconds) => f.5 as int,
        Some(GraphType::Minutes) => f.4 as int,
        Some(GraphType::Hours) => f.3 as int,
        Some(GraphType::Days) => f.2 as int,
        Some(GraphType::Months) => f.1 as int,
        Some(GraphType::Years) => f.0 as int,
        None => 0,
    }
}

/// An axis label: the value modulo 2000, keeping its sign, in at least
/// two characters.
pub open spec fn short_label(v: int) -> Seq<char> {
    signed_zero_padded(
        if v >= 0 {
            v % 2000
        } else {
            -((-v) % 2000)
        },
        2,
    )
}

/// What the axis line holds for position `i` of a chart `width` characters
/// wide: the label of the start at position 1, of the middle at half the
/// width, of the end three before the width; a blank elsewhere.
pub open spec fn axis_piece(
    width: int,
    i: int,
    begin: Seq<char>,
    middle: Seq<char>,
    end: Seq<char>,
) -> Seq<char> {
    if i == 1 {
        begin
    } else if i == width / 2 {
        middle
    } else if i == width - 3 {
        end
    } else {
        seq![' ']
    }
}

/// The axis line up to position `upto`; positions begin at 1.
pub open spec fn axis_line(
    width: int,
    begin: Seq<char>,
    middle: Seq<char>,
    end: Seq<char>,
    upto: int,
) -> Seq<char>
    decreases upto,
{
    if upto <= 1 {
        Seq::empty()
    } else {
        axis_line(width, begin, middle, end, upto - 1) + axis_piece(
            width,
            upto - 1,
            begin,
            middle,
            end,
        )
    }
}

/// A year as a timestamp shows it: in four digits from 0 to 9999; beyond
/// that with its sign, `+` or `-`, and in four digits at least.
pub open spec fn year_text(year: int) -> Seq<char> {
    if 0 <= year <= 9999 {
        zero_padded(year as nat, 4)
    } else if year < 0 {
        seq!['-'] + zero_padded((-year) as nat, 4)
    } else {
        seq!['+'] + zero_padded(year as nat, 4)
    }
}

/// Writes a year as a timestamp shows it.
fn push_year(out: &mut Vec<char>, year: i32)
    ensures
        final(out)@ == old(out)@ + year_text(year as int),
{
    let ghost start = out@;
    if 0 <= year && year <= 9999 {
        push_padded(out, year as u64, 4);
    } else if year < 0 {
        out.push('-');
        push_padded(out, (0 - year as i64) as u64, 4);
        assert(out@ =~= start + (seq!['-'] + zero_padded((-year) as nat, 4)));
    } else {
        out.push('+');
        push_padded(out, year as u64, 4);
        assert(out@ =~= start + (seq!['+'] + zero_padded(year as nat, 4)));
    }
}

/// A timestamp as `YYYY-MM-DD HH:MM:SS`.
pub open spec fn stamp_text(f: Fields) -> Seq<char> {
    year_text(f.0 as int) + seq!['-'] + zero_padded(f.1 as nat, 2) + seq!['-']
        + zero_padded(f.2 as nat, 2) + seq![' '] + zero_padded(f.3 as nat, 2) + seq![':']
        + zero_padded(f.4 as nat, 2) + seq![':'] + zero_padded(f.5 as nat, 2)
}

/// The scale of the chart, a sixth of the range of the counts, with two
/// decimals.
pub open spec fn scale_text(range: nat) -> Seq<char> {
    let hundredths = (range * 100 + 3) / 6;
    decimal(hundredths / 100) + seq!['.'] + zero_padded(hundredths % 100, 2)
}

/// The name of the unit of a width.
pub open spec fn unit_name(kind: Option<GraphType>) -> Seq<char> {
    match kind {
        Some(GraphType::Seconds) => "second"@,
        Some(GraphType::Minutes) => "minute"@,
        Some(GraphType::Hours) => "hour"@,
        Some(GraphType::Days) => "day"@,
        Some(GraphType::Months) => "month"@,
        Some(GraphType::Years) => "year"@,
        None => ""@,
    }
}

fn unit_text(kind: Option<GraphType>) -> (n: &'static str)
    ensures
        n@ == unit_name(kind),
{
    match kind {
        Some(GraphType::Seconds) => "second",
        Some(GraphType::Minutes) => "minute",
        Some(GraphType::Hours) => "hour",
        Some(GraphType::Days) => "day",
        Some(GraphType::Months) => "month",
        Some(GraphType::Years) => "year",
        None => "",
    }
}

fn label_of(kind: Option<GraphType>, f: Fields) -> (label: Vec<char>)
    ensures
        label@ == short_label(label_field(kind, f)),
{
    let v: i64 = match kind {
        Some(GraphType::Seconds) => f.5 as i64,
        Some(GraphType::Minutes) => f.4 as i64,
        Some(GraphType::Hours) => f.3 as i64,
        Some(GraphType::Days) => f.2 as i64,
        Some(GraphType::Months) => f.1 as i64,
        Some(GraphType::Years) => f.0 as i64,
        None => 0,
    };
    let short: i64 = if v >= 0 {
        v % 2000
    } else {
        0 - ((0 - v) % 2000)
    };
    let mut label: Vec<char> = Vec::new();
    push_signed_padded(&mut label, short, 2);
    label
}

fn push_stamp(out: &mut Vec<char>, f: Fields)
    ensures
        final(out)@ == old(out)@ + stamp_text(f),
{
    let ghost start = out@;
    let ghost year = year_text(f.0 as int);
    let ghost month = zero_padded(f.1 as nat, 2);
    let ghost day = zero_padded(f.2 as nat, 2);
    let ghost hour = zero_padded(f.3 as nat, 2);
    let ghost minute = zero_padded(f.4 as nat, 2);
    let ghost second = zero_padded(f.5 as nat, 2);
    push_year(out, f.0);
    out.push('-');
    push_padded(out, f.1 as u64, 2);
    assert(out@ =~= start + (year + seq!['-'] + month));
    out.push('-');
    push_padded(out, f.2 as u64, 2);
    assert(out@ =~= start + (year + seq!['-'] + month + seq!['-'] + day));
    out.push(' ');
    push_padded(out, f.3 as u64, 2);
    assert(out@ =~= start + (year + seq!['-'] + month + seq!['-'] + day + seq![' '] + hour));
    out.push(':');
    push_padded(out, f.4 as u64, 2);
    assert(out@ =~= start + (year + seq!['-'] + month + seq!['-'] + day + seq![' '] + hour
        + seq![':'] + minute));
    out.push(':');
    push_padded(out, f.5 as u64, 2);
    assert(out@ =~= start + (year + seq!['-'] + month + seq!['-'] + day + seq![' '] + hour
        + seq![':'] + minute + seq![':'] + second));
}

fn push_cell(out: &mut Vec<char>, filled: bool, tick: char, wide: bool)
    ensures
        final(out)@ == old(out)@ + cell(filled, tick, wide),
{
    let ghost start = out@;
    if filled {
        out.push(tick);
    } else {
        out.push(' ');
    }
    if wide {
        out.push(' ');
    }
    assert(out@ =~= start + cell(filled, tick, wide));
}

fn height_of(count: usize, min: usize, max: usize) -> (h: u128)
    requires
        min <= count <= max,
    ensures
        h == height(count as int, min as int, max as int),
{
    if count == 0 {
        0
    } else if max > min {
        let a: u128 = (LEVELS as u128) * ((count - min) as u128);
        let b: u128 = (max - min) as u128;
        (a + b - 1) / b
    } else {
        let a: u128 = (LEVELS as u128) * (count as u128);
        let b: u128 = max as u128;
        (a + b - 1) / b
    }
}

impl GraphHash {
    /// The lines of the chart: a blank line, five rows from the top level
    /// down, the base line, the axis line, a blank line, three lines of
    /// summary and a blank line. A histogram without buckets has one line
    /// that says so.
    pub open spec fn rendered(&self) -> Seq<Seq<char>> {
        let b = self.buckets();
        let n = b.len() as int;
        let (min, max) = (self.min() as int, self.max() as int);
        let (tick, wide) = (self.tick(), self.wide());
        let width = if wide {
            2 * n
        } else {
            n
        };
        if n == 0 {
            seq!["No data to graph"@]
        } else {
            seq![
                Seq::empty(),
                chart_row(b, 5, min, max, tick, wide, n),
                chart_row(b, 4, min, max, tick, wide, n),
                chart_row(b, 3, min, max, tick, wide, n),
                chart_row(b, 2, min, max, tick, wide, n),
                chart_row(b, 1, min, max, tick, wide, n),
                chart_row(b, 0, min, max, tick, wide, n),
                axis_line(
                    width,
                    short_label(label_field(self.kind(), self.start_fields())),
                    short_label(label_field(self.kind(), self.middle_fields())),
                    short_label(label_field(self.kind(), self.end_fields())),
                    width,
                ),
                Seq::empty(),
                "Start Time:\t"@ + stamp_text(self.start_fields()) + "\t\tMinimum Value: "@
                    + decimal(self.min()),
                "End Time:\t"@ + stamp_text(self.end_fields()) + "\t\tMaximum Value: "@ + decimal(
                    self.max(),
                ),
                "Duration:\t"@ + signed_zero_padded(self.duration(), 0) + seq![' '] + unit_name(
                    self.kind(),
                ) + "s\t\t\tScale: "@ + scale_text((self.max() - self.min()) as nat),
                Seq::empty(),
            ]
        }
    }

    fn row_at(&self, level: u128) -> (line: String)
        requires
            self.valid(),
        ensures
            line@ == chart_row(
                self.buckets(),
                level as int,
                self.min() as int,
                self.max() as int,
                self.tick(),
                self.wide(),
                self.buckets().len() as int,
            ),
    {
        let mut out: Vec<char> = Vec::new();
        let mut r: usize = 0;
        while r < self.data.len()
            invariant
                r <= self.data@.len(),
                self.valid(),
                out@ == chart_row(
                    self.buckets(),
                    level as int,
                    self.min() as int,
                    self.max() as int,
                    self.tick(),
                    self.wide(),
                    r as int,
                ),
            decreases self.data@.len() - r,
        {
            proof {
                lemma_extremes(self.data@, r as int);
            }
            let h = height_of(self.data[r].value, self.min_value, self.max_value);
            push_cell(&mut out, h >= level, self.tick, self.wide);
            r += 1;
        }
        from_chars(out.as_slice())
    }

    fn axis(&self) -> (line: String)
        requires
            self.data@.len() > 0,
        ensures
            line@ == axis_line(
                if self.wide() {
                    2 * (self.buckets().len() as int)
                } else {
                    self.buckets().len() as int
                },
                short_label(label_field(self.kind(), self.start_fields())),
                short_label(label_field(self.kind(), self.middle_fields())),
                short_label(label_field(self.kind(), self.end_fields())),
                if self.wide() {
                    2 * (self.buckets().len() as int)
                } else {
                    self.buckets().len() as int
                },
            ),
    {
        let n: u128 = self.data.len() as u128;
        let width: u128 = if self.wide {
            2 * n
        } else {
            n
        };
        let begin = label_of(self.kind, self.start_date);
        let middle = label_of(self.kind, self.middle_date);
        let end = label_of(self.kind, self.end_date);
        let mut out: Vec<char> = Vec::new();
        let mut i: u128 = 1;
        while i < width
            invariant
                1 <= i,
                i <= width || width < 1,
                width <= 0x2_0000_0000_0000_0000,
                out@ == axis_line(width as int, begin@, middle@, end@, i as int),
            decreases width - i,
        {
            if i == 1 {
                extend_chars(&mut out, begin.as_slice());
            } else if i == width / 2 {
                extend_chars(&mut out, middle.as_slice());
            } else if i + 3 == width {
                extend_chars(&mut out, end.as_slice());
            } else {
                out.push(' ');
                assert(out@ =~= axis_line(width as int, begin@, middle@, end@, i as int)
                    + seq![' ']);
            }
            i += 1;
        }
        from_chars(out.as_slice())
    }

    /// The chart and its summary, line by line.
    pub fn display(&self) -> (lines: Vec<String>)
        requires
            self.valid(),
        ensures
            line_views(lines@) == self.rendered(),
    {
        let mut lines: Vec<String> = Vec::new();
        if self.data.len() == 0 {
            lines.push("No data to graph".to_owned());
            assert(line_views(lines@) =~= self.rendered());
            return lines;
        }
        proof {
            lemma_extremes(self.data@, 0);
        }
        lines.push(String::new());
        lines.push(self.row_at(5));
        lines.push(self.row_at(4));
        lines.push(self.row_at(3));
        lines.push(self.row_at(2));
        lines.push(self.row_at(1));
        lines.push(self.row_at(0));
        lines.push(self.axis());
        lines.push(String::new());
        let mut first = to_chars("Start Time:\t");
        push_stamp(&mut first, self.start_date);
        extend_chars(&mut first, to_chars("\t\tMinimum Value: ").as_slice());
        push_padded(&mut first, self.min_value as u64, 0);
        lines.push(from_chars(first.as_slice()));
        let mut second = to_chars("End Time:\t");
        push_stamp(&mut second, self.end_date);
        extend_chars(&mut second, to_chars("\t\tMaximum Value: ").as_slice());
        push_padded(&mut second, self.max_value as u64, 0);
        lines.push(from_chars(second.as_slice()));
        let mut third = to_chars("Duration:\t");
        push_signed_padded(&mut third, self.duration, 0);
        third.push(' ');
        extend_chars(&mut third, to_chars(unit_text(self.kind)).as_slice());
        extend_chars(&mut third, to_chars("s\t\t\tScale: ").as_slice());
        let range: u128 = (self.max_value - self.min_value) as u128;
        let hundredths: u128 = (range * 100 + 3) / 6;
        push_padded(&mut third, (hundredths / 100) as u64, 0);
        third.push('.');
        push_padded(&mut third, (hundredths % 100) as u64, 2);
        let third_line = from_chars(third.as_slice());
        proof {
            assert(zero_padded((hundredths / 100) as nat, 0) == decimal((hundredths / 100) as nat));
            assert(third_line@ =~= "Duration:\t"@ + signed_zero_padded(self.duration(), 0)
                + seq![' '] + unit_name(self.kind()) + "s\t\t\tScale: "@ + scale_text(
                (self.max() - self.min()) as nat,
            ));
        }
        lines.push(third_line);
        lines.push(String::new());
        proof {
            assert(zero_padded(self.min_value as nat, 0) == decimal(self.min_value as nat));
            assert(zero_padded(self.max_value as nat, 0) == decimal(self.max_value as nat));
            assert(line_views(lines@) =~= self.rendered());
        }
        lines
    }
}

/// A key is among the keys of the buckets where a bucket has it.
pub proof fn lemma_key_list(buckets: Buckets, key: Seq<char>)
    ensures
        key_list(buckets).contains(key) == has_key(buckets, key),
{
    if has_key(buckets, key) {
        let r = choose|r: int| 0 <= r < buckets.len() && buckets[r].key@ == key;
        assert(key_list(buckets)[r] == key);
    }
    if key_list(buckets).contains(key) {
        let r = choose|r: int| 0 <= r < key_list(buckets).len() && key_list(buckets)[r] == key;
        assert(buckets[r].key@ == key);
    }
}

/// A key that no record has is hit by none.
pub proof fn lemma_no_hits(entries: Seq<EntryView>, kind: GraphType, key: Seq<char>)
    requires
        forall|j: int| 0 <= j < entries.len() ==> entry_key(kind, #[trigger] entries[j]) != key,
    ensures
        hits(entries, kind, key) == 0,
    decreases entries.len(),
{
    if entries.len() > 0 {
        assert forall|j: int| 0 <= j < entries.drop_last().len() implies entry_key(
            kind,
            #[trigger] entries.drop_last()[j],
        ) != key by {
            assert(entries.drop_last()[j] == entries[j]);
        }
        lemma_no_hits(entries.drop_last(), kind, key);
        assert(entry_key(kind, entries[entries.len() - 1]) != key);
    }
}

/// A record that falls into none of the buckets changes no count, and not
/// the number of records that the buckets cover.
pub proof fn lemma_record_outside(
    entries: Seq<EntryView>,
    e: EntryView,
    kind: GraphType,
    keys: Seq<Seq<char>>,
)
    requires
        !keys.contains(entry_key(kind, e)),
    ensures
        covered(entries.push(e), kind, keys) == covered(entries, kind, keys),
        forall|k: Seq<char>|
            keys.contains(k) ==> #[trigger] hits(entries.push(e), kind, k) == hits(
                entries,
                kind,
                k,
            ),
{
    assert(entries.push(e).drop_last() == entries);
}

/// The counts of a histogram add up to the number of records whose key,
/// their timestamp down to the width of the buckets, is the key of a
/// bucket; and the count of each bucket is the number of records with its
/// key.
pub proof fn lemma_counts_add_up(
    g: GraphHash,
    entries: Seq<EntryView>,
    kind: GraphType,
    from: Option<Timestamp>,
    to: Option<Timestamp>,
)
    requires
        entries.len() > 0,
        g.built_from(entries, kind, from, to),
    ensures
        sum_counts(g.buckets()) == covered(entries, kind, key_list(g.buckets())),
        forall|r: int|
            0 <= r < g.buckets().len() ==> (#[trigger] g.buckets()[r]).value == hits(
                entries,
                kind,
                g.buckets()[r].key@,
            ),
{
}

/// Every bucket of the range is in the histogram, be its count 0, and no
/// other bucket is. Where the buckets are seconds, minutes, hours or days,
/// the histogram has as many buckets as the range.
pub proof fn lemma_buckets_of_range(
    g: GraphHash,
    entries: Seq<EntryView>,
    kind: GraphType,
    from: Option<Timestamp>,
    to: Option<Timestamp>,
)
    requires
        entries.len() > 0,
        g.built_from(entries, kind, from, to),
    ensures
        forall|i: int|
            0 <= i < span(kind, range_start(entries, from), from, to) ==> (#[trigger] bucket_key(
                kind,
                range_start(entries, from),
                i,
            )) is Some && has_key(g.buckets(), bucket_key(kind, range_start(entries, from), i)->0),
        forall|k: Seq<char>| #[trigger]
            has_key(g.buckets(), k) ==> exists|i: int|
                0 <= i < span(kind, range_start(entries, from), from, to) && #[trigger] bucket_key(
                    kind,
                    range_start(entries, from),
                    i,
                ) == Some(k),
        is_fixed_unit(kind) ==> g.buckets().len() == span(
            kind,
            range_start(entries, from),
            from,
            to,
        ),
{
    let start = range_start(entries, from);
    let count = span(kind, start, from, to);
    assert forall|i: int| 0 <= i < count implies (#[trigger] bucket_key(kind, start, i)) is Some
        && has_key(g.buckets(), bucket_key(kind, start, i)->0) by {
        let k = bucket_key(kind, start, i)->0;
        assert(bucket_key(kind, start, i) == Some(k));
    }
}

} // verus!
