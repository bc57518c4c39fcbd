//! What holds between printing a record and parsing the printed line.

use vstd::prelude::*;
use crate::crunch_log::{record_of, records_of};
use crate::detect::Format;
use crate::log_entry::{EntryView, LogParser, ParseError};
use crate::number::{
    all_digits, is_digit, lemma_padded_reads_back, lemma_zero_padded, parse_signed,
    parse_unsigned, signed_zero_padded, zero_padded,
};
use crate::report::{print_line, print_lines, shown_daemon, shown_message, shown_stamp};
use crate::syslog::{clock_part, iso_date, time_of_day, RSyslogParser};
use crate::text::{
    before_first, first_index_of, is_space, join, lemma_first_index_of, lemma_skip_spaces,
    lemma_token_end, skip_spaces, split_on, token_end, tokens, tokens_from,
};

verus! {

/// Whether `s` holds no white space.
pub open spec fn no_space(s: Seq<char>) -> bool {
    forall|i: int| 0 <= i < s.len() ==> !is_space(#[trigger] s[i])
}

/// Whether `s` does not hold the character `c`.
pub open spec fn lacks(s: Seq<char>, c: char) -> bool {
    forall|i: int| 0 <= i < s.len() ==> #[trigger] s[i] != c
}

/// Whether `s` is one token: not empty, and without white space.
pub open spec fn is_token(s: Seq<char>) -> bool {
    s.len() > 0 && no_space(s)
}

/// Whether `s` is its own tokens joined by single blanks: it neither
/// begins nor ends with white space, and its words are one blank apart.
pub open spec fn single_spaced(s: Seq<char>) -> bool {
    join(tokens(s), seq![' ']) == s
}

/// A text without the separator is one field.
pub proof fn lemma_split_none(a: Seq<char>, c: char)
    requires
        lacks(a, c),
    ensures
        first_index_of(a, c) == a.len(),
        split_on(a, c) == seq![a],
        before_first(a, c) == a,
{
    lemma_first_index_of(a, c);
    assert(a.take(a.len() as int) =~= a);
}

/// The first field of a text ends at its first separator.
pub proof fn lemma_split_head(a: Seq<char>, c: char, b: Seq<char>)
    requires
        lacks(a, c),
    ensures
        split_on(a + seq![c] + b, c) == seq![a] + split_on(b, c),
{
    let s = a + seq![c] + b;
    lemma_first_index_of(s, c);
    let k = first_index_of(s, c);
    assert(s[a.len() as int] == c);
    if k < a.len() {
        assert(s[k] == a[k]);
    }
    assert(k == a.len());
    assert(s.take(k) =~= a);
    assert(s.skip(k + 1) =~= b);
}

proof fn lemma_skip_shift(p: Seq<char>, r: Seq<char>, j: int)
    requires
        0 <= j <= r.len(),
    ensures
        skip_spaces(p + r, p.len() + j) == p.len() + skip_spaces(r, j),
    decreases r.len() - j,
{
    if j < r.len() {
        assert((p + r)[p.len() + j] == r[j]);
        if is_space(r[j]) {
            lemma_skip_shift(p, r, j + 1);
        }
    }
}

proof fn lemma_end_shift(p: Seq<char>, r: Seq<char>, j: int)
    requires
        0 <= j <= r.len(),
    ensures
        token_end(p + r, p.len() + j) == p.len() + token_end(r, j),
    decreases r.len() - j,
{
    if j < r.len() {
        assert((p + r)[p.len() + j] == r[j]);
        if !is_space(r[j]) {
            lemma_end_shift(p, r, j + 1);
        }
    }
}

/// The tokens of a text from some place on are those of what follows
/// that place, whatever stands before it.
proof fn lemma_tokens_shift(p: Seq<char>, r: Seq<char>, j: int)
    requires
        0 <= j <= r.len(),
    ensures
        tokens_from(p + r, p.len() + j) == tokens_from(r, j),
    decreases r.len() - j,
{
    let s = p + r;
    lemma_skip_shift(p, r, j);
    lemma_skip_spaces(r, j);
    let a = skip_spaces(r, j);
    if a < r.len() {
        lemma_end_shift(p, r, a);
        lemma_token_end(r, a);
        let b = token_end(r, a);
        assert(s.subrange(p.len() + a, p.len() + b) =~= r.subrange(a, b));
        lemma_tokens_shift(p, r, b);
    }
}

/// A token and a blank in front of a text put the token in front of the
/// tokens of the text.
pub proof fn lemma_token_head(t: Seq<char>, r: Seq<char>)
    requires
        is_token(t),
    ensures
        tokens(t + seq![' '] + r) == seq![t] + tokens(r),
{
    let p = t + seq![' '];
    let s = p + r;
    let n = t.len() as int;
    assert(s[0] == t[0]);
    assert(s[n] == ' ');
    lemma_token_end(s, 0);
    let e = token_end(s, 0);
    if e < n {
        assert(s[e] == t[e]);
    }
    if e > n {
        assert(!is_space(s[n]));
    }
    assert(e == n);
    assert(s.subrange(0, n) =~= t);
    assert(skip_spaces(s, n) == skip_spaces(s, n + 1));
    lemma_skip_spaces(s, n + 1);
    assert(tokens_from(s, n) == tokens_from(s, n + 1));
    lemma_tokens_shift(p, r, 0);
}

/// Three runs of digits with a separator between them.
pub open spec fn triple(a: Seq<char>, sep: char, b: Seq<char>, c: Seq<char>) -> Seq<char> {
    a + seq![sep] + b + seq![sep] + c
}

/// Every character of a triple is a digit or the separator.
proof fn lemma_triple_char(a: Seq<char>, sep: char, b: Seq<char>, c: Seq<char>, i: int)
    requires
        all_digits(a),
        all_digits(b),
        all_digits(c),
        0 <= i < triple(a, sep, b, c).len(),
    ensures
        is_digit(triple(a, sep, b, c)[i]) || triple(a, sep, b, c)[i] == sep,
{
    let s = triple(a, sep, b, c);
    if i < a.len() {
        assert(s[i] == a[i]);
    } else if i == a.len() {
    } else if i < a.len() + 1 + b.len() {
        assert(s[i] == b[i - a.len() - 1]);
    } else if i == a.len() + 1 + b.len() {
    } else {
        assert(s[i] == c[i - a.len() - b.len() - 2]);
    }
}

/// A triple holds no character that is neither a digit nor its separator.
proof fn lemma_triple_lacks(a: Seq<char>, sep: char, b: Seq<char>, c: Seq<char>, x: char)
    requires
        all_digits(a),
        all_digits(b),
        all_digits(c),
        !is_digit(x),
        x != sep,
    ensures
        lacks(triple(a, sep, b, c), x),
{
    let s = triple(a, sep, b, c);
    assert forall|i: int| 0 <= i < s.len() implies #[trigger] s[i] != x by {
        lemma_triple_char(a, sep, b, c, i);
    }
}

proof fn lemma_triple_no_space(a: Seq<char>, sep: char, b: Seq<char>, c: Seq<char>)
    requires
        all_digits(a),
        all_digits(b),
        all_digits(c),
        !is_space(sep),
    ensures
        no_space(triple(a, sep, b, c)),
{
    let s = triple(a, sep, b, c);
    assert forall|i: int| 0 <= i < s.len() implies !is_space(#[trigger] s[i]) by {
        lemma_triple_char(a, sep, b, c, i);
    }
}

/// A triple splits at its separator into its three runs.
proof fn lemma_triple_splits(a: Seq<char>, sep: char, b: Seq<char>, c: Seq<char>)
    requires
        all_digits(a),
        all_digits(b),
        all_digits(c),
        !is_digit(sep),
    ensures
        split_on(triple(a, sep, b, c), sep) == seq![a, b, c],
{
    assert(lacks(a, sep) && lacks(b, sep) && lacks(c, sep)) by {
        assert forall|i: int| 0 <= i < a.len() implies #[trigger] a[i] != sep by {
            assert(is_digit(a[i]));
        }
        assert forall|i: int| 0 <= i < b.len() implies #[trigger] b[i] != sep by {
            assert(is_digit(b[i]));
        }
        assert forall|i: int| 0 <= i < c.len() implies #[trigger] c[i] != sep by {
            assert(is_digit(c[i]));
        }
    }
    assert(triple(a, sep, b, c) =~= a + seq![sep] + (b + seq![sep] + c));
    lemma_split_head(a, sep, b + seq![sep] + c);
    lemma_split_head(b, sep, c);
    lemma_split_none(c, sep);
    assert(split_on(triple(a, sep, b, c), sep) =~= seq![a, b, c]);
}

/// A date and a time of day joined by `T` are one token that splits at the
/// `T`, and the time of day carries neither zone nor fraction.
proof fn lemma_stamp_shape(
    year: Seq<char>,
    month: Seq<char>,
    day: Seq<char>,
    hour: Seq<char>,
    minute: Seq<char>,
    second: Seq<char>,
)
    requires
        all_digits(year),
        all_digits(month),
        all_digits(day),
        all_digits(hour),
        all_digits(minute),
        all_digits(second),
        year.len() > 0,
    ensures
        is_token(triple(year, '-', month, day) + seq!['T'] + triple(hour, ':', minute, second)),
        split_on(
            triple(year, '-', month, day) + seq!['T'] + triple(hour, ':', minute, second),
            'T',
        ) == seq![triple(year, '-', month, day), triple(hour, ':', minute, second)],
        clock_part(triple(hour, ':', minute, second)) == triple(hour, ':', minute, second),
{
    let date = triple(year, '-', month, day);
    let clock = triple(hour, ':', minute, second);
    let stamp = date + seq!['T'] + clock;
    lemma_triple_no_space(year, '-', month, day);
    lemma_triple_no_space(hour, ':', minute, second);
    assert forall|i: int| 0 <= i < stamp.len() implies !is_space(#[trigger] stamp[i]) by {
        if i < date.len() {
            assert(stamp[i] == date[i]);
        } else if i > date.len() {
            assert(stamp[i] == clock[i - date.len() - 1]);
        }
    }
    lemma_triple_lacks(year, '-', month, day, 'T');
    lemma_triple_lacks(hour, ':', minute, second, 'T');
    lemma_triple_lacks(hour, ':', minute, second, '-');
    lemma_triple_lacks(hour, ':', minute, second, '+');
    lemma_triple_lacks(hour, ':', minute, second, '.');
    lemma_split_head(date, 'T', clock);
    lemma_split_none(clock, 'T');
    assert(split_on(stamp, 'T') =~= seq![date, clock]);
    lemma_split_none(clock, '-');
    lemma_split_none(clock, '+');
    lemma_split_none(clock, '.');
}

/// The timestamp that print mode writes for a year that is not negative
/// is one token, and is read back as the same six numbers.
pub proof fn lemma_stamp_reads_back(e: EntryView)
    requires
        e.year >= 0,
    ensures
        is_token(shown_stamp(e)),
        split_on(shown_stamp(e), 'T').len() == 2,
        iso_date(split_on(shown_stamp(e), 'T')[0]) == Ok::<(i32, u32, u32), ParseError>(
            (e.year, e.month, e.day),
        ),
        time_of_day(clock_part(split_on(shown_stamp(e), 'T')[1])) == Ok::<
            (u32, u32, u32),
            ParseError,
        >((e.hour, e.minute, e.second)),
{
    let year = zero_padded(e.year as nat, 4);
    let month = zero_padded(e.month as nat, 2);
    let day = zero_padded(e.day as nat, 2);
    let hour = zero_padded(e.hour as nat, 2);
    let minute = zero_padded(e.minute as nat, 2);
    let second = zero_padded(e.second as nat, 2);
    assert(signed_zero_padded(e.year as int, 4) == year);
    lemma_zero_padded(e.year as nat, 4);
    lemma_zero_padded(e.month as nat, 2);
    lemma_zero_padded(e.day as nat, 2);
    lemma_zero_padded(e.hour as nat, 2);
    lemma_zero_padded(e.minute as nat, 2);
    lemma_zero_padded(e.second as nat, 2);
    lemma_padded_reads_back(e.year as nat, 4);
    lemma_padded_reads_back(e.month as nat, 2);
    lemma_padded_reads_back(e.day as nat, 2);
    lemma_padded_reads_back(e.hour as nat, 2);
    lemma_padded_reads_back(e.minute as nat, 2);
    lemma_padded_reads_back(e.second as nat, 2);
    let date = triple(year, '-', month, day);
    let clock = triple(hour, ':', minute, second);
    assert(shown_stamp(e) =~= date + seq!['T'] + clock);
    lemma_stamp_shape(year, month, day, hour, minute, second);
    lemma_triple_splits(year, '-', month, day);
    lemma_triple_splits(hour, ':', minute, second);
    lemma_date_of(year, month, day, e.year, e.month, e.day);
    lemma_time_of(hour, minute, second, e.hour, e.minute, e.second);
}

proof fn lemma_date_of(a: Seq<char>, b: Seq<char>, c: Seq<char>, year: i32, month: u32, day: u32)
    requires
        split_on(triple(a, '-', b, c), '-') == seq![a, b, c],
        parse_signed(a) == Some(year),
        parse_unsigned(b) == Some(month),
        parse_unsigned(c) == Some(day),
    ensures
        iso_date(triple(a, '-', b, c)) == Ok::<(i32, u32, u32), ParseError>((year, month, day)),
{
}

proof fn lemma_time_of(a: Seq<char>, b: Seq<char>, c: Seq<char>, hour: u32, minute: u32, second: u32)
    requires
        split_on(triple(a, ':', b, c), ':') == seq![a, b, c],
        parse_unsigned(a) == Some(hour),
        parse_unsigned(b) == Some(minute),
        parse_unsigned(c) == Some(second),
    ensures
        time_of_day(triple(a, ':', b, c)) == Ok::<(u32, u32, u32), ParseError>(
            (hour, minute, second),
        ),
{
}

/// Whether print mode shows a record so that it can be parsed back: its
/// year is not negative, its host and its shown source are one token
/// each, and its shown message is single-spaced.
pub open spec fn printable(e: EntryView) -> bool {
    &&& e.year >= 0
    &&& is_token(e.host)
    &&& is_token(shown_daemon(e.daemon))
    &&& single_spaced(shown_message(e.log_entry))
}

/// Whether print mode shows a record as it is: it is printable, its source
/// ends in a colon, and its message begins with nothing that print mode
/// drops.
pub open spec fn printed_exactly(e: EntryView) -> bool {
    &&& printable(e)
    &&& shown_daemon(e.daemon) == e.daemon
    &&& shown_message(e.log_entry) == e.log_entry
}

/// Printing a printable record and parsing the line under the format of
/// print mode gives the record back, with its source and message as they
/// were shown.
pub proof fn lemma_print_then_parse(e: EntryView, year: i32)
    requires
        printable(e),
    ensures
        RSyslogParser.parsed(print_line(e), year) == Ok::<EntryView, ParseError>(
            EntryView {
                daemon: shown_daemon(e.daemon),
                log_entry: shown_message(e.log_entry),
                ..e
            },
        ),
{
    let stamp = shown_stamp(e);
    let daemon = shown_daemon(e.daemon);
    let message = shown_message(e.log_entry);
    let line = print_line(e);
    lemma_stamp_reads_back(e);
    let rest2 = daemon + seq![' '] + message;
    let rest1 = e.host + seq![' '] + rest2;
    assert(line =~= stamp + seq![' '] + rest1);
    lemma_token_head(stamp, rest1);
    lemma_token_head(e.host, rest2);
    lemma_token_head(daemon, message);
    let p = tokens(line);
    assert(p =~= seq![stamp, e.host, daemon] + tokens(message));
    assert(p.skip(3) =~= tokens(message));
    assert(p[0] == stamp && p[1] == e.host && p[2] == daemon);
}

/// The round trip of a record: printed and parsed back under the format
/// of print mode, a record that is printed exactly is itself again.
pub proof fn lemma_round_trip(e: EntryView, year: i32)
    requires
        printed_exactly(e),
    ensures
        RSyslogParser.parsed(print_line(e), year) == Ok::<EntryView, ParseError>(e),
        record_of(Format::RSyslog, print_line(e), year) == e,
{
    lemma_print_then_parse(e, year);
}

/// The round trip of a batch: the lines that print mode writes for records
/// that are printed exactly are parsed back into the same records.
pub proof fn lemma_round_trip_batch(entries: Seq<EntryView>, year: i32)
    requires
        forall|i: int| 0 <= i < entries.len() ==> printed_exactly(#[trigger] entries[i]),
    ensures
        records_of(Format::RSyslog, print_lines(entries), year) == entries,
{
    assert forall|i: int| 0 <= i < entries.len() implies record_of(
        Format::RSyslog,
        print_lines(entries)[i],
        year,
    ) == entries[i] by {
        lemma_round_trip(entries[i], year);
    }
    assert(records_of(Format::RSyslog, print_lines(entries), year) =~= entries);
}

} // verus!
