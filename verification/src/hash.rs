//! The aggregator: records grouped and counted under scrubbed keys.

use vstd::prelude::*;
use crate::crunch_log::{entry_views, CrunchLog};
use crate::filter::{scrubbed, Filter};
use crate::log_entry::{abnormal, marker, EntryView, LogEntry};
use crate::detect::line_views;
use crate::number::decimal;
use crate::order::{
    ascending, has_key, lemma_insert_keeps_order, lemma_one_place, lex_lt, pair_le, place_of,
    search, sort_pairs, Slot,
};
use crate::text::{extend_chars, from_chars, split_whitespace, to_chars, tokens, views};

verus! {

/// What the records are grouped by.
#[derive(Debug, Clone, Copy, PartialEq, Eq, Structural)]
pub enum HashMode {
    /// Source and message together.
    Hash,
    /// The source.
    Daemon,
    /// The host.
    Host,
    /// Every word of every message.
    WordCount,
}

/// What a report shows for a group.
#[derive(Debug, Clone, Copy, PartialEq, Eq, Structural)]
pub enum SampleMode {
    /// Always the key.
    RawKey,
    /// The message of the group's first record where the group is no larger
    /// than the threshold, else the key.
    Threshold,
    /// The message of one record of the group, picked at random.
    All,
}

/// The threshold of a new table.
pub const DEFAULT_THRESHOLD: usize = 3;

/// The rows of a table: the records of each group under its key.
pub type Rows = Seq<Slot<Vec<LogEntry>>>;

/// The records kept under `key`, in the order in which they came; none
/// where the table has no such key.
pub open spec fn records_in(rows: Rows, key: Seq<char>) -> Seq<EntryView> {
    if has_key(rows, key) {
        entry_views(rows[place_of(rows, key)].value@)
    } else {
        Seq::empty()
    }
}

/// The number of records in all groups together.
pub open spec fn total_in(rows: Rows) -> nat
    decreases rows.len(),
{
    if rows.len() == 0 {
        0
    } else {
        total_in(rows.drop_last()) + rows.last().value@.len()
    }
}

/// The text that a record is grouped by, before scrubbing; in word mode,
/// the message whose words are counted.
pub open spec fn raw_key(mode: HashMode, e: EntryView) -> Seq<char> {
    match mode {
        HashMode::Hash => e.daemon + seq![' '] + e.log_entry,
        HashMode::Daemon => e.daemon,
        HashMode::Host => e.host,
        HashMode::WordCount => e.log_entry,
    }
}

/// The records of `entries` whose scrubbed key is `key`, in their order.
pub open spec fn matching(
    entries: Seq<EntryView>,
    rules: Seq<Seq<char>>,
    mode: HashMode,
    key: Seq<char>,
) -> Seq<EntryView>
    decreases entries.len(),
{
    if entries.len() == 0 {
        Seq::empty()
    } else {
        let rest = matching(entries.drop_last(), rules, mode, key);
        if scrubbed(rules, raw_key(mode, entries.last())) == key {
            rest.push(entries.last())
        } else {
            rest
        }
    }
}

/// The words of all messages, in order.
pub open spec fn all_words(entries: Seq<EntryView>) -> Seq<Seq<char>>
    decreases entries.len(),
{
    if entries.len() == 0 {
        Seq::empty()
    } else {
        all_words(entries.drop_last()) + tokens(entries.last().log_entry)
    }
}

/// How many of `words` the rules scrub to `key`.
pub open spec fn word_hits(words: Seq<Seq<char>>, rules: Seq<Seq<char>>, key: Seq<char>) -> nat
    decreases words.len(),
{
    if words.len() == 0 {
        0
    } else {
        word_hits(words.drop_last(), rules, key) + if scrubbed(rules, words.last()) == key {
            1nat
        } else {
            0nat
        }
    }
}

/// The record that stands for one occurrence of a word: the word as its
/// message, the marker as host and source.
pub open spec fn word_record(word: Seq<char>) -> EntryView {
    abnormal(word)
}

/// What a table built from `entries` keeps under `key`: nothing under the
/// marker; else the records whose scrubbed key it is, or, in word mode,
/// one record for each occurrence of a word that is scrubbed to it.
pub open spec fn grouped(
    entries: Seq<EntryView>,
    rules: Seq<Seq<char>>,
    mode: HashMode,
    key: Seq<char>,
) -> Seq<EntryView> {
    if key == marker() {
        Seq::empty()
    } else if mode == HashMode::WordCount {
        Seq::new(word_hits(all_words(entries), rules, key), |i: int| word_record(key))
    } else {
        matching(entries, rules, mode, key)
    }
}

proof fn lemma_total_push(rows: Rows, next: Rows, i: int)
    requires
        0 <= i < rows.len() == next.len(),
        next[i].value@.len() == rows[i].value@.len() + 1,
        forall|j: int| 0 <= j < rows.len() && j != i ==> next[j] == rows[j],
    ensures
        total_in(next) == total_in(rows) + 1,
    decreases rows.len(),
{
    if i == rows.len() - 1 {
        assert(next.drop_last() =~= rows.drop_last());
    } else {
        lemma_total_push(rows.drop_last(), next.drop_last(), i);
    }
}

proof fn lemma_total_insert(rows: Rows, at: int, slot: Slot<Vec<LogEntry>>)
    requires
        0 <= at <= rows.len(),
    ensures
        total_in(rows.insert(at, slot)) == total_in(rows) + slot.value@.len(),
    decreases rows.len(),
{
    let next = rows.insert(at, slot);
    if at == rows.len() {
        assert(next.drop_last() =~= rows);
    } else {
        assert(next.drop_last() =~= rows.drop_last().insert(at, slot));
        lemma_total_insert(rows.drop_last(), at, slot);
    }
}

proof fn lemma_total_remove(rows: Rows, at: int)
    requires
        0 <= at < rows.len(),
    ensures
        total_in(rows.remove(at)) == total_in(rows) - rows[at].value@.len(),
    decreases rows.len(),
{
    let next = rows.remove(at);
    if at == rows.len() - 1 {
        assert(next =~= rows.drop_last());
    } else {
        assert(next.drop_last() =~= rows.drop_last().remove(at));
        assert(next.last() == rows.last());
        lemma_total_remove(rows.drop_last(), at);
    }
}

/// Where the keys ascend, the records under the key of row `i` are those
/// of row `i`.
pub proof fn lemma_records_at(rows: Rows, i: int)
    requires
        ascending(rows),
        0 <= i < rows.len(),
    ensures
        has_key(rows, rows[i].key@),
        records_in(rows, rows[i].key@) == entry_views(rows[i].value@),
{
    assert(has_key(rows, rows[i].key@));
    lemma_one_place(rows, i, place_of(rows, rows[i].key@));
}

/// A frequency table over scrubbed keys, with the records of each group.
pub struct SuperHash {
    data: Vec<Slot<Vec<LogEntry>>>,
    filter: Filter,
    sample_mode: SampleMode,
    sample_threshold: usize,
}

impl SuperHash {
    /// Whether the table is in order: its keys ascend, so that none
    /// stands twice. Every table that this library hands out is.
    pub open spec fn valid(&self) -> bool {
        &&& ascending(self.rows())
        &&& forall|i: int| 0 <= i < self.rows().len() ==> (#[trigger] self.rows()[i]).value@.len() > 0
    }

    /// The rows of the table, by ascending key.
    pub closed spec fn rows(&self) -> Rows {
        self.data@
    }

    /// The rules that keys are scrubbed by.
    pub closed spec fn rules(&self) -> Seq<Seq<char>> {
        self.filter.patterns()
    }

    /// What a report shows for a group.
    pub closed spec fn mode(&self) -> SampleMode {
        self.sample_mode
    }

    /// The size up to which a group counts as small.
    pub closed spec fn threshold(&self) -> usize {
        self.sample_threshold
    }

    /// The records kept under `key`.
    pub open spec fn records_under(&self, key: Seq<char>) -> Seq<EntryView> {
        records_in(self.rows(), key)
    }

    /// The number of records in all groups together.
    pub open spec fn total(&self) -> nat {
        total_in(self.rows())
    }

    /// The empty table, which shows samples for groups of at most three.
    pub fn new(filter: Filter) -> (h: SuperHash)
        ensures
            h.rows().len() == 0,
            h.valid(),
            h.rules() == filter.patterns(),
            h.mode() == SampleMode::Threshold,
            h.threshold() == DEFAULT_THRESHOLD,
    {
        SuperHash {
            data: Vec::new(),
            filter,
            sample_mode: SampleMode::Threshold,
            sample_threshold: DEFAULT_THRESHOLD,
        }
    }

    /// Sets the size up to which a group counts as small.
    pub fn set_sample_threshold(&mut self, threshold: usize)
        ensures
            final(self).threshold() == threshold,
            final(self).rows() == old(self).rows(),
            final(self).rules() == old(self).rules(),
            final(self).mode() == old(self).mode(),
    {
        self.sample_threshold = threshold;
    }

    /// Sets what a report shows for a group.
    pub fn set_sample_mode(&mut self, mode: SampleMode)
        ensures
            final(self).mode() == mode,
            final(self).rows() == old(self).rows(),
            final(self).rules() == old(self).rules(),
            final(self).threshold() == old(self).threshold(),
    {
        self.sample_mode = mode;
    }

    /// The number of keys.
    pub fn len(&self) -> (n: usize)
        ensures
            n == self.rows().len(),
    {
        self.data.len()
    }

    /// Whether the table has no key.
    pub fn is_empty(&self) -> (b: bool)
        ensures
            b == (self.rows().len() == 0),
    {
        self.data.len() == 0
    }

    /// The number of records under `key`.
    pub fn count_of(&self, key: &str) -> (n: usize)
        requires
            self.valid(),
        ensures
            n == self.records_under(key@).len(),
    {
        let chars = to_chars(key);
        let found = search(&self.data, chars.as_slice());
        if found.0 {
            proof {
                lemma_records_at(self.data@, found.1 as int);
            }
            self.data[found.1].value.len()
        } else {
            0
        }
    }

    /// Counts `entry` under `key`: it joins the group of that key, behind
    /// the records that are there, or founds the group.
    pub fn increment(&mut self, key: String, entry: LogEntry)
        requires
            old(self).valid(),
        ensures
            forall|k: Seq<char>|
                #[trigger] final(self).records_under(k) == if k == key@ {
                    old(self).records_under(k).push(entry@)
                } else {
                    old(self).records_under(k)
                },
            final(self).total() == old(self).total() + 1,
            final(self).valid(),
            final(self).rules() == old(self).rules(),
            final(self).mode() == old(self).mode(),
            final(self).threshold() == old(self).threshold(),
    {
        let chars = to_chars(key.as_str());
        let found = search(&self.data, chars.as_slice());
        let ghost before = self.data@;
        let at = found.1;
        if found.0 {
            self.data[at].value.push(entry);
            proof {
                let after = self.data@;
                assert(after[at as int].key@ == before[at as int].key@);
                assert forall|i: int, j: int| 0 <= i < j < after.len() implies crate::order::lex_lt(
                    after[i].key@,
                    after[j].key@,
                ) by {
                    assert(after[i].key@ == before[i].key@);
                    assert(after[j].key@ == before[j].key@);
                }
                lemma_total_push(before, after, at as int);
                assert forall|k: Seq<char>| #[trigger]
                    records_in(after, k) == if k == key@ {
                        records_in(before, k).push(entry@)
                    } else {
                        records_in(before, k)
                    } by {
                    if has_key(before, k) {
                        let p = place_of(before, k);
                        assert(after[p].key@ == k);
                        assert(has_key(after, k));
                        assert(before[place_of(after, k)].key@ == k);
                        lemma_one_place(before, p, place_of(after, k));
                        if k == key@ {
                            lemma_one_place(before, p, at as int);
                            assert(entry_views(after[p].value@) =~= entry_views(
                                before[p].value@,
                            ).push(entry@));
                        } else {
                            assert(p != at);
                        }
                    } else {
                        if has_key(after, k) {
                            let q = place_of(after, k);
                            assert(before[q].key@ == k);
                        }
                    }
                }
            }
        } else {
            let mut value: Vec<LogEntry> = Vec::new();
            value.push(entry);
            let slot = Slot { key: chars, value };
            proof {
                lemma_insert_keeps_order(before, at as int, slot);
                lemma_total_insert(before, at as int, slot);
            }
            self.data.insert(at, slot);
            proof {
                let after = self.data@;
                assert(after == before.insert(at as int, slot));
                assert forall|k: Seq<char>| #[trigger]
                    records_in(after, k) == if k == key@ {
                        records_in(before, k).push(entry@)
                    } else {
                        records_in(before, k)
                    } by {
                    if k == key@ {
                        assert(after[at as int].key@ == k);
                        lemma_records_at(after, at as int);
                        assert(entry_views(slot.value@) =~= Seq::<EntryView>::empty().push(entry@));
                    } else if has_key(before, k) {
                        let p = place_of(before, k);
                        let q = if p < at {
                            p
                        } else {
                            p + 1
                        };
                        assert(after[q] == before[p]);
                        lemma_records_at(after, q);
                    } else {
                        if has_key(after, k) {
                            let q = place_of(after, k);
                            if q < at {
                                assert(before[q].key@ == k);
                            } else {
                                assert(before[q - 1].key@ == k);
                            }
                        }
                    }
                }
            }
        }
    }

    /// Drops the group of `key`, where there is one.
    fn remove_key(&mut self, key: &[char])
        requires
            old(self).valid(),
        ensures
            forall|k: Seq<char>|
                #[trigger] final(self).records_under(k) == if k == key@ {
                    Seq::<EntryView>::empty()
                } else {
                    old(self).records_under(k)
                },
            final(self).total() == old(self).total() - old(self).records_under(key@).len(),
            final(self).valid(),
            final(self).rules() == old(self).rules(),
            final(self).mode() == old(self).mode(),
            final(self).threshold() == old(self).threshold(),
    {
        let found = search(&self.data, key);
        let ghost before = self.data@;
        let at = found.1;
        if found.0 {
            proof {
                lemma_total_remove(before, at as int);
                lemma_records_at(before, at as int);
            }
            let gone = self.data.remove(at);
            proof {
                let after = self.data@;
                assert(after == before.remove(at as int));
                assert forall|i: int, j: int| 0 <= i < j < after.len() implies crate::order::lex_lt(
                    after[i].key@,
                    after[j].key@,
                ) by {
                    let a = if i < at { i } else { i + 1 };
                    let b = if j < at { j } else { j + 1 };
                    assert(after[i] == before[a] && after[j] == before[b]);
                }
                assert forall|k: Seq<char>| #[trigger]
                    records_in(after, k) == if k == key@ {
                        Seq::<EntryView>::empty()
                    } else {
                        records_in(before, k)
                    } by {
                    if has_key(after, k) {
                        let q = place_of(after, k);
                        let p = if q < at { q } else { q + 1 };
                        assert(before[p] == after[q]);
                        lemma_one_place(before, p, place_of(before, k));
                        if k == key@ {
                            lemma_one_place(before, p, at as int);
                        }
                    } else if has_key(before, k) {
                        let p = place_of(before, k);
                        if p != at {
                            let q = if p < at { p } else { p - 1 };
                            assert(after[q] == before[p]);
                        } else {
                        }
                    }
                }
            }
        }
    }
}

/// How many of `entries` have a scrubbed key that is not the marker.
pub open spec fn signal_count(entries: Seq<EntryView>, rules: Seq<Seq<char>>, mode: HashMode) -> nat
    decreases entries.len(),
{
    if entries.len() == 0 {
        0
    } else {
        signal_count(entries.drop_last(), rules, mode) + if scrubbed(
            rules,
            raw_key(mode, entries.last()),
        ) != marker() {
            1nat
        } else {
            0nat
        }
    }
}

/// How many of `words` the rules scrub to something other than the marker.
pub open spec fn signal_words(words: Seq<Seq<char>>, rules: Seq<Seq<char>>) -> nat
    decreases words.len(),
{
    if words.len() == 0 {
        0
    } else {
        signal_words(words.drop_last(), rules) + if scrubbed(rules, words.last()) != marker() {
            1nat
        } else {
            0nat
        }
    }
}

/// The number of records that a table built from `entries` holds.
pub open spec fn grouped_total(entries: Seq<EntryView>, rules: Seq<Seq<char>>, mode: HashMode)
    -> nat {
    if mode == HashMode::WordCount {
        signal_words(all_words(entries), rules)
    } else {
        signal_count(entries, rules, mode)
    }
}

/// A memo of scrubbed texts: under each text stands what the rules make
/// of it.
pub open spec fn memo_holds(memo: Seq<Slot<Vec<char>>>, rules: Seq<Seq<char>>) -> bool {
    &&& ascending(memo)
    &&& forall|i: int| 0 <= i < memo.len() ==> (#[trigger] memo[i]).value@ == scrubbed(
        rules,
        memo[i].key@,
    )
}

/// Scrubs `raw`, looking it up in the memo first and noting it there.
fn scrub_cached(memo: &mut Vec<Slot<Vec<char>>>, filter: &Filter, raw: Vec<char>) -> (out: String)
    requires
        memo_holds(old(memo)@, filter.patterns()),
    ensures
        memo_holds(final(memo)@, filter.patterns()),
        out@ == scrubbed(filter.patterns(), raw@),
{
    if filter.len() == 0 {
        return from_chars(raw.as_slice());
    }
    let found = search(memo, raw.as_slice());
    if found.0 {
        from_chars(memo[found.1].value.as_slice())
    } else {
        let text = from_chars(raw.as_slice());
        let out = filter.scrub(text.as_str());
        let slot = Slot { key: raw, value: to_chars(out.as_str()) };
        proof {
            lemma_insert_keeps_order(memo@, found.1 as int, slot);
        }
        let ghost before = memo@;
        memo.insert(found.1, slot);
        proof {
            assert forall|i: int| 0 <= i < memo@.len() implies (#[trigger] memo@[i]).value@
                == scrubbed(filter.patterns(), memo@[i].key@) by {
                if i < found.1 {
                    assert(memo@[i] == before[i]);
                } else if i > found.1 {
                    assert(memo@[i] == before[i - 1]);
                }
            }
        }
        out
    }
}

/// The text that a record is grouped by, before scrubbing.
fn raw_key_of(mode: HashMode, entry: &LogEntry) -> (raw: Vec<char>)
    ensures
        raw@ == raw_key(mode, entry@),
{
    match mode {
        HashMode::Hash => {
            let mut raw = to_chars(entry.daemon.as_str());
            raw.push(' ');
            let message = to_chars(entry.log_entry.as_str());
            extend_chars(&mut raw, message.as_slice());
            assert(raw@ =~= entry@.daemon + seq![' '] + entry@.log_entry);
            raw
        },
        HashMode::Daemon => to_chars(entry.daemon.as_str()),
        HashMode::Host => to_chars(entry.host.as_str()),
        HashMode::WordCount => to_chars(entry.log_entry.as_str()),
    }
}

impl SuperHash {
    /// Counts every record of `log` under its scrubbed key.
    fn fill_keys(&mut self, log: &CrunchLog, mode: HashMode)
        requires
            old(self).valid(),
            old(self).rows().len() == 0,
        ensures
            final(self).valid(),
            forall|k: Seq<char>| #[trigger]
                final(self).records_under(k) == matching(
                    entry_views(log.entries@),
                    old(self).rules(),
                    mode,
                    k,
                ),
            final(self).total() == log.entries@.len(),
            final(self).rules() == old(self).rules(),
            final(self).mode() == old(self).mode(),
            final(self).threshold() == old(self).threshold(),
    {
        let ghost all = entry_views(log.entries@);
        let ghost rules = self.rules();
        let mut memo: Vec<Slot<Vec<char>>> = Vec::new();
        let mut i: usize = 0;
        while i < log.entries.len()
            invariant
                i <= log.entries@.len(),
                all == entry_views(log.entries@),
                self.valid(),
                self.rules() == rules,
                self.mode() == old(self).mode(),
                self.threshold() == old(self).threshold(),
                memo_holds(memo@, rules),
                self.total() == i,
                forall|k: Seq<char>| #[trigger]
                    self.records_under(k) == matching(all.take(i as int), rules, mode, k),
            decreases log.entries@.len() - i,
        {
            let entry = &log.entries[i];
            let raw = raw_key_of(mode, entry);
            let key = scrub_cached(&mut memo, &self.filter, raw);
            proof {
                assert(all.take(i + 1).drop_last() == all.take(i as int));
                assert(all.take(i + 1).last() == entry@);
            }
            self.increment(key, entry.duplicate());
            i += 1;
        }
        proof {
            assert(all.take(log.entries@.len() as int) == all);
        }
    }

    fn fill_hash(&mut self, log: &CrunchLog)
        requires
            old(self).valid(),
            old(self).rows().len() == 0,
        ensures
            final(self).valid(),
            forall|k: Seq<char>| #[trigger]
                final(self).records_under(k) == matching(
                    entry_views(log.entries@),
                    old(self).rules(),
                    HashMode::Hash,
                    k,
                ),
            final(self).total() == log.entries@.len(),
            final(self).rules() == old(self).rules(),
            final(self).mode() == old(self).mode(),
            final(self).threshold() == old(self).threshold(),
    {
        self.fill_keys(log, HashMode::Hash)
    }

    fn fill_daemon(&mut self, log: &CrunchLog)
        requires
            old(self).valid(),
            old(self).rows().len() == 0,
        ensures
            final(self).valid(),
            forall|k: Seq<char>| #[trigger]
                final(self).records_under(k) == matching(
                    entry_views(log.entries@),
                    old(self).rules(),
                    HashMode::Daemon,
                    k,
                ),
            final(self).total() == log.entries@.len(),
            final(self).rules() == old(self).rules(),
            final(self).mode() == old(self).mode(),
            final(self).threshold() == old(self).threshold(),
    {
        self.fill_keys(log, HashMode::Daemon)
    }

    fn fill_host(&mut self, log: &CrunchLog)
        requires
            old(self).valid(),
            old(self).rows().len() == 0,
        ensures
            final(self).valid(),
            forall|k: Seq<char>| #[trigger]
                final(self).records_under(k) == matching(
                    entry_views(log.entries@),
                    old(self).rules(),
                    HashMode::Host,
                    k,
                ),
            final(self).total() == log.entries@.len(),
            final(self).rules() == old(self).rules(),
            final(self).mode() == old(self).mode(),
            final(self).threshold() == old(self).threshold(),
    {
        self.fill_keys(log, HashMode::Host)
    }

    /// Counts every word of every message of `log` under its scrubbed
    /// form, but for the words that are scrubbed to the marker.
    fn fill_wordcount(&mut self, log: &CrunchLog)
        requires
            old(self).valid(),
            old(self).rows().len() == 0,
        ensures
            final(self).valid(),
            forall|k: Seq<char>| #[trigger]
                final(self).records_under(k) == grouped(
                    entry_views(log.entries@),
                    old(self).rules(),
                    HashMode::WordCount,
                    k,
                ),
            final(self).total() == signal_words(
                all_words(entry_views(log.entries@)),
                old(self).rules(),
            ),
            final(self).rules() == old(self).rules(),
            final(self).mode() == old(self).mode(),
            final(self).threshold() == old(self).threshold(),
    {
        let ghost all = entry_views(log.entries@);
        let ghost rules = self.rules();
        let hash = crate::log_entry::marker_string();
        let mut memo: Vec<Slot<Vec<char>>> = Vec::new();
        let mut i: usize = 0;
        while i < log.entries.len()
            invariant
                i <= log.entries@.len(),
                all == entry_views(log.entries@),
                hash@ == marker(),
                self.valid(),
                self.rules() == rules,
                self.mode() == old(self).mode(),
                self.threshold() == old(self).threshold(),
                memo_holds(memo@, rules),
                self.total() == signal_words(all_words(all.take(i as int)), rules),
                forall|k: Seq<char>| #[trigger]
                    self.records_under(k) == grouped(
                        all.take(i as int),
                        rules,
                        HashMode::WordCount,
                        k,
                    ),
            decreases log.entries@.len() - i,
        {
            let message = to_chars(log.entries[i].log_entry.as_str());
            let words = split_whitespace(message.as_slice());
            let ghost done = all_words(all.take(i as int));
            let ghost here = views(words@);
            proof {
                assert(all.take(i + 1).drop_last() == all.take(i as int));
                assert(all.take(i + 1).last() == log.entries@[i as int]@);
                assert(here.take(0) =~= Seq::<Seq<char>>::empty());
                assert(done + here.take(0) =~= done);
            }
            let mut j: usize = 0;
            while j < words.len()
                invariant
                    j <= words@.len(),
                    here == views(words@),
                    hash@ == marker(),
                    self.valid(),
                    self.rules() == rules,
                    self.mode() == old(self).mode(),
                    self.threshold() == old(self).threshold(),
                    memo_holds(memo@, rules),
                    self.total() == signal_words(done + here.take(j as int), rules),
                    forall|k: Seq<char>| #[trigger]
                        self.records_under(k) == if k == marker() {
                            Seq::<EntryView>::empty()
                        } else {
                            Seq::new(
                                word_hits(done + here.take(j as int), rules, k),
                                |n: int| word_record(k),
                            )
                        },
                decreases words@.len() - j,
            {
                let raw = crate::text::slice_chars(words[j].as_slice(), 0, words[j].len());
                let ghost seen = done + here.take(j as int);
                let ghost next = done + here.take(j + 1);
                proof {
                    assert(words@[j as int]@.subrange(0, words@[j as int]@.len() as int)
                        == words@[j as int]@);
                    assert(next.drop_last() =~= seen);
                    assert(next.last() == words@[j as int]@);
                }
                let word = scrub_cached(&mut memo, &self.filter, raw);
                if word != hash {
                    let entry = LogEntry::abnormal_of(word.as_str());
                    let ghost before = *self;
                    self.increment(word, entry);
                    proof {
                        assert forall|k: Seq<char>| #[trigger]
                            self.records_under(k) == if k == marker() {
                                Seq::<EntryView>::empty()
                            } else {
                                Seq::new(word_hits(next, rules, k), |n: int| word_record(k))
                            } by {
                            assert(before.records_under(k) == if k == marker() {
                                Seq::<EntryView>::empty()
                            } else {
                                Seq::new(word_hits(seen, rules, k), |n: int| word_record(k))
                            });
                            if k == word@ {
                                assert(Seq::new(
                                    word_hits(seen, rules, k),
                                    |n: int| word_record(k),
                                ).push(word_record(k)) =~= Seq::new(
                                    word_hits(next, rules, k),
                                    |n: int| word_record(k),
                                ));
                            }
                        }
                    }
                }
                j += 1;
            }
            proof {
                assert(here.take(words@.len() as int) == here);
            }
            i += 1;
        }
        proof {
            assert(all.take(log.entries@.len() as int) == all);
        }
    }

    /// The table of `log` under `mode`: every record counted under its
    /// scrubbed key, every word under its scrubbed form in word mode, and
    /// the group of the marker dropped.
    pub fn from_log(log: &CrunchLog, mode: HashMode, filter: Filter) -> (h: SuperHash)
        ensures
            h.valid(),
            forall|k: Seq<char>| #[trigger]
                h.records_under(k) == grouped(entry_views(log.entries@), filter.patterns(), mode, k),
            h.total() == grouped_total(entry_views(log.entries@), filter.patterns(), mode),
            h.rules() == filter.patterns(),
            h.mode() == SampleMode::Threshold,
            h.threshold() == DEFAULT_THRESHOLD,
    {
        let mut h = SuperHash::new(filter);
        match mode {
            HashMode::Hash => h.fill_hash(log),
            HashMode::Daemon => h.fill_daemon(log),
            HashMode::Host => h.fill_host(log),
            HashMode::WordCount => h.fill_wordcount(log),
        }
        let ghost filled = h;
        let hash = to_chars("#");
        proof {
            reveal_strlit("#");
            assert(hash@ =~= marker());
            lemma_signal_and_marker(entry_views(log.entries@), filter.patterns(), mode);
        }
        h.remove_key(hash.as_slice());
        h
    }
}

/// Every record counts either as signal or under the marker.
pub proof fn lemma_signal_and_marker(
    entries: Seq<EntryView>,
    rules: Seq<Seq<char>>,
    mode: HashMode,
)
    ensures
        signal_count(entries, rules, mode) + matching(entries, rules, mode, marker()).len()
            == entries.len(),
    decreases entries.len(),
{
    if entries.len() > 0 {
        lemma_signal_and_marker(entries.drop_last(), rules, mode);
    }
}

/// Whether row `i` stands before row `j` in a report: it has more
/// records, or as many and the key that stands first.
pub open spec fn outranks(rows: Rows, i: int, j: int) -> bool {
    rows[i].value@.len() > rows[j].value@.len() || (rows[i].value@.len() == rows[j].value@.len()
        && lex_lt(rows[i].key@, rows[j].key@))
}

/// Whether `order` lists the rows by rank: every row once, each before
/// all that it outranks.
pub open spec fn is_ranking(rows: Rows, order: Seq<usize>) -> bool {
    &&& order.len() == rows.len()
    &&& forall|a: int| 0 <= a < order.len() ==> (#[trigger] order[a]) < rows.len()
    &&& forall|a: int, b: int|
        0 <= a < b < order.len() ==> outranks(rows, #[trigger] order[a] as int, #[trigger] order[b] as int)
}

/// Of two rows one outranks the other, and never both.
pub proof fn lemma_outranks_total(rows: Rows, i: int, j: int)
    requires
        ascending(rows),
        0 <= i < rows.len(),
        0 <= j < rows.len(),
        i != j,
    ensures
        outranks(rows, i, j) != outranks(rows, j, i),
{
    crate::order::lemma_lex_total(rows[i].key@, rows[j].key@);
    crate::order::lemma_lex_irreflexive(rows[i].key@);
    if lex_lt(rows[i].key@, rows[j].key@) && lex_lt(rows[j].key@, rows[i].key@) {
        crate::order::lemma_lex_transitive(rows[i].key@, rows[j].key@, rows[i].key@);
    }
    if i < j {
        assert(lex_lt(rows[i].key@, rows[j].key@));
    } else {
        assert(lex_lt(rows[j].key@, rows[i].key@));
    }
}

/// A ranking lists every row.
pub proof fn lemma_ranking_lists_all(rows: Rows, order: Seq<usize>, i: int)
    requires
        ascending(rows),
        is_ranking(rows, order),
        0 <= i < rows.len(),
    ensures
        exists|a: int| 0 <= a < order.len() && #[trigger] order[a] == i,
{
    let places = Seq::new(order.len(), |a: int| order[a] as int);
    assert forall|a: int, b: int| 0 <= a < places.len() && 0 <= b < places.len() && a
        != b implies places[a] != places[b] by {
        crate::order::lemma_lex_irreflexive(rows[order[a] as int].key@);
        if a < b {
            assert(outranks(rows, order[a] as int, order[b] as int));
        } else {
            assert(outranks(rows, order[b] as int, order[a] as int));
        }
    }
    places.unique_seq_to_set();
    let all = vstd::set_lib::set_int_range(0, rows.len() as int);
    vstd::set_lib::lemma_int_range(0, rows.len() as int);
    assert forall|x: int| places.to_set().contains(x) implies all.contains(x) by {
        let a = choose|a: int| 0 <= a < places.len() && places[a] == x;
        assert(order[a] < rows.len());
    }
    vstd::set_lib::lemma_len_subset(places.to_set(), all);
    vstd::set_lib::lemma_subset_equality(places.to_set(), all);
    assert(all.contains(i));
    assert(places.to_set().contains(i));
    let a = choose|a: int| 0 <= a < places.len() && places[a] == i;
    assert(order[a] == i);
}

/// A table has one ranking only.
pub proof fn lemma_ranking_unique(rows: Rows, x: Seq<usize>, y: Seq<usize>)
    requires
        ascending(rows),
        is_ranking(rows, x),
        is_ranking(rows, y),
    ensures
        x == y,
{
    assert forall|a: int| 0 <= a < x.len() implies x[a] == y[a] by {
        lemma_same_place(rows, x, y, a);
    }
    assert(x =~= y);
}

/// Two rankings of a table agree at every place.
proof fn lemma_same_place(rows: Rows, x: Seq<usize>, y: Seq<usize>, a: int)
    requires
        ascending(rows),
        is_ranking(rows, x),
        is_ranking(rows, y),
        0 <= a < x.len(),
    ensures
        x[a] == y[a],
    decreases a,
{
    let u = x[a] as int;
    let v = y[a] as int;
    if u != v {
        lemma_outranks_total(rows, u, v);
        lemma_ranking_lists_all(rows, y, u);
        lemma_ranking_lists_all(rows, x, v);
        let c = choose|c: int| 0 <= c < y.len() && #[trigger] y[c] == u;
        let d = choose|d: int| 0 <= d < x.len() && #[trigger] x[d] == v;
        if c < a {
            lemma_same_place(rows, x, y, c);
            assert(outranks(rows, x[c] as int, x[a] as int));
            crate::order::lemma_lex_irreflexive(rows[u].key@);
        } else if d < a {
            lemma_same_place(rows, x, y, d);
            assert(outranks(rows, y[d] as int, y[a] as int));
            crate::order::lemma_lex_irreflexive(rows[v].key@);
        } else {
            assert(c > a && d > a);
            assert(outranks(rows, y[a] as int, y[c] as int));
            assert(outranks(rows, x[a] as int, x[d] as int));
        }
    }
}

/// The draw for place `a` of a report; 0 where there are fewer draws.
pub open spec fn pick_at(picks: Seq<usize>, a: int) -> usize {
    if 0 <= a < picks.len() {
        picks[a]
    } else {
        0
    }
}

/// What a report shows for a row: its key, or the message of one of its
/// records.
pub open spec fn shown(row: Slot<Vec<LogEntry>>, mode: SampleMode, threshold: usize, pick: usize)
    -> Seq<char> {
    let count = row.value@.len() as int;
    match mode {
        SampleMode::RawKey => row.key@,
        SampleMode::Threshold => if 0 < count <= threshold {
            row.value@[0]@.log_entry
        } else {
            row.key@
        },
        SampleMode::All => if 0 < count {
            row.value@[pick as int % count]@.log_entry
        } else {
            row.key@
        },
    }
}

/// The line of a report for a row: its count, a colon, a tab, and what is
/// shown for it.
pub open spec fn report_line(
    row: Slot<Vec<LogEntry>>,
    mode: SampleMode,
    threshold: usize,
    pick: usize,
) -> Seq<char> {
    decimal(row.value@.len()) + seq![':', '\t'] + shown(row, mode, threshold, pick)
}

/// The lines of a report: one for each row in the order given, but for a
/// row under the marker.
pub open spec fn report_lines(
    rows: Rows,
    order: Seq<usize>,
    mode: SampleMode,
    threshold: usize,
    picks: Seq<usize>,
) -> Seq<Seq<char>>
    decreases order.len(),
{
    if order.len() == 0 {
        Seq::empty()
    } else {
        let rest = report_lines(rows, order.drop_last(), mode, threshold, picks);
        let row = rows[order.last() as int];
        if row.key@ == marker() {
            rest
        } else {
            rest.push(report_line(row, mode, threshold, pick_at(picks, order.len() - 1)))
        }
    }
}

impl SuperHash {
    /// The places of the rows, ranked: by descending count, and by
    /// ascending key among equal counts.
    pub fn ranking(&self) -> (order: Vec<usize>)
        requires
            self.valid(),
        ensures
            is_ranking(self.rows(), order@),
    {
        let n: usize = self.data.len();
        let mut pairs: Vec<(usize, usize)> = Vec::new();
        let mut i: usize = 0;
        while i < n
            invariant
                i <= n == self.data@.len(),
                pairs@.len() == i,
                forall|k: int|
                    0 <= k < i ==> (#[trigger] pairs@[k]).0 == usize::MAX
                        - self.data@[k].value@.len() && pairs@[k].1 == k,
            decreases n - i,
        {
            pairs.push((usize::MAX - self.data[i].value.len(), i));
            i += 1;
        }
        let ghost unsorted = pairs@;
        proof {
            assert(unsorted.no_duplicates());
            unsorted.lemma_multiset_has_no_duplicates();
        }
        sort_pairs(&mut pairs);
        let ghost sorted = pairs@;
        proof {
            vstd::seq_lib::to_multiset_len(sorted);
            vstd::seq_lib::to_multiset_len(unsorted);
            sorted.lemma_multiset_has_no_duplicates_conv();
            assert(sorted.len() == unsorted.len());
            assert forall|a: int| 0 <= a < sorted.len() implies (#[trigger] sorted[a]).1 < n
                && sorted[a].0 == usize::MAX - self.data@[sorted[a].1 as int].value@.len() by {
                assert(sorted.contains(sorted[a]));
                vstd::seq_lib::to_multiset_contains(sorted, sorted[a]);
                vstd::seq_lib::to_multiset_contains(unsorted, sorted[a]);
                assert(unsorted.contains(sorted[a]));
                let k = choose|k: int| 0 <= k < unsorted.len() && unsorted[k] == sorted[a];
                assert(unsorted[k] == sorted[a]);
            }
        }
        let mut order: Vec<usize> = Vec::new();
        let mut a: usize = 0;
        while a < n
            invariant
                a <= n == pairs@.len(),
                order@.len() == a,
                forall|k: int| 0 <= k < a ==> (#[trigger] order@[k]) == pairs@[k].1,
            decreases n - a,
        {
            order.push(pairs[a].1);
            a += 1;
        }
        proof {
            let rows = self.rows();
            assert forall|x: int, y: int| 0 <= x < y < order@.len() implies outranks(
                rows,
                #[trigger] order@[x] as int,
                #[trigger] order@[y] as int,
            ) by {
                assert(pair_le(sorted[x], sorted[y]));
                assert(sorted[x] != sorted[y]);
                if sorted[x].0 == sorted[y].0 {
                    assert(sorted[x].1 < sorted[y].1);
                }
            }
        }
        order
    }

    /// The report of the table, with `picks` for the random choices: the
    /// draw at place `a` picks the record shown for the row ranked `a`.
    pub fn display_with(&self, picks: &Vec<usize>) -> (lines: Vec<String>)
        requires
            self.valid(),
        ensures
            exists|order: Seq<usize>|
                is_ranking(self.rows(), order) && line_views(lines@) == #[trigger] report_lines(
                    self.rows(),
                    order,
                    self.mode(),
                    self.threshold(),
                    picks@,
                ),
    {
        let order = self.ranking();
        let hash = to_chars("#");
        proof {
            reveal_strlit("#");
            assert(hash@ =~= marker());
        }
        let mut lines: Vec<String> = Vec::new();
        let mut a: usize = 0;
        while a < order.len()
            invariant
                a <= order@.len(),
                hash@ == marker(),
                self.valid(),
                is_ranking(self.rows(), order@),
                line_views(lines@) == report_lines(
                    self.rows(),
                    order@.take(a as int),
                    self.mode(),
                    self.threshold(),
                    picks@,
                ),
            decreases order@.len() - a,
        {
            let row = &self.data[order[a]];
            proof {
                assert(order@.take(a + 1).drop_last() == order@.take(a as int));
                assert(order@.take(a + 1).last() == order@[a as int]);
            }
            if !crate::text::same_chars(row.key.as_slice(), hash.as_slice()) {
                let pick: usize = if a < picks.len() {
                    picks[a]
                } else {
                    0
                };
                let count: usize = row.value.len();
                let mut line: Vec<char> = Vec::new();
                crate::number::push_padded(&mut line, count as u64, 0);
                line.push(':');
                line.push('\t');
                match self.sample_mode {
                    SampleMode::RawKey => {
                        extend_chars(&mut line, row.key.as_slice());
                    },
                    SampleMode::Threshold => {
                        if count <= self.sample_threshold {
                            let text = to_chars(row.value[0].log_entry.as_str());
                            extend_chars(&mut line, text.as_slice());
                        } else {
                            extend_chars(&mut line, row.key.as_slice());
                        }
                    },
                    SampleMode::All => {
                        let text = to_chars(row.value[pick % count].log_entry.as_str());
                        extend_chars(&mut line, text.as_slice());
                    },
                }
                let text = from_chars(line.as_slice());
                proof {
                    assert(crate::number::zero_padded(count as nat, 0) == decimal(count as nat));
                    assert(text@ =~= report_line(
                        *row,
                        self.mode(),
                        self.threshold(),
                        pick_at(picks@, a as int),
                    ));
                    assert(line_views(lines@.push(text)) =~= line_views(lines@).push(text@));
                }
                lines.push(text);
            }
            a += 1;
        }
        proof {
            assert(order@.take(order@.len() as int) == order@);
        }
        lines
    }

    /// The report of the table: a line for each key, by descending count
    /// and ascending key. Where a record is to be picked at random, `rng`
    /// makes the draws.
    pub fn display(&self, rng: &mut rand::rngs::StdRng) -> (lines: Vec<String>)
        requires
            self.valid(),
        ensures
            exists|order: Seq<usize>, picks: Seq<usize>|
                is_ranking(self.rows(), order) && line_views(lines@) == #[trigger] report_lines(
                    self.rows(),
                    order,
                    self.mode(),
                    self.threshold(),
                    picks,
                ),
    {
        let picks = match self.sample_mode {
            SampleMode::All => crate::sampling::draws(rng, self.data.len()),
            _ => Vec::new(),
        };
        self.display_with(&picks)
    }
}

/// How many of `entries` are no abnormal records and have a host that the
/// rules do not scrub to the marker.
pub open spec fn live_hosts(entries: Seq<EntryView>, rules: Seq<Seq<char>>) -> nat
    decreases entries.len(),
{
    if entries.len() == 0 {
        0
    } else {
        live_hosts(entries.drop_last(), rules) + if !crate::log_entry::is_abnormal(entries.last())
            && scrubbed(rules, entries.last().host) != marker() {
            1nat
        } else {
            0nat
        }
    }
}

/// Grouped by host, a table holds as many records as there are records
/// that are not abnormal and whose scrubbed host is not the marker,
/// whenever the rules leave the marker itself as it is.
pub proof fn lemma_host_total(entries: Seq<EntryView>, rules: Seq<Seq<char>>)
    requires
        scrubbed(rules, marker()) == marker(),
    ensures
        grouped_total(entries, rules, HashMode::Host) == live_hosts(entries, rules),
    decreases entries.len(),
{
    if entries.len() > 0 {
        lemma_host_total(entries.drop_last(), rules);
    }
}

} // verus!
