//! The scrubber: an ordered list of regular expressions whose matches are
//! replaced by the marker.

use vstd::prelude::*;
use crate::log_entry::marker;
use crate::pattern::{regex_compiles, regex_replace_all};
use crate::text::{from_chars, split_chars, split_on, to_chars, trim, trimmed, views};

verus! {

/// An ordered list of rules, each a regular expression.
pub struct Filter {
    stopwords: Vec<String>,
}

/// `text` with every match of the rule `pattern` replaced by the marker; a
/// rule that is no valid expression changes nothing.
pub open spec fn scrubbed_by(pattern: Seq<char>, text: Seq<char>) -> Seq<char> {
    match regex_replace_all(pattern, text, marker()) {
        Some(out) => out,
        None => text,
    }
}

/// `text` after the rules have been applied to it one after the other,
/// each to what the one before it left.
pub open spec fn scrubbed(patterns: Seq<Seq<char>>, text: Seq<char>) -> Seq<char>
    decreases patterns.len(),
{
    if patterns.len() == 0 {
        text
    } else {
        scrubbed_by(patterns.last(), scrubbed(patterns.drop_last(), text))
    }
}

/// Whether a line of a rule file, already trimmed, is taken as a rule.
pub open spec fn is_rule(line: Seq<char>) -> bool {
    line.len() > 0 && regex_compiles(line)
}

/// The rules that the lines `lines` give: each line trimmed, and kept where
/// it is not blank and is a valid expression.
pub open spec fn rules_in(lines: Seq<Seq<char>>) -> Seq<Seq<char>>
    decreases lines.len(),
{
    if lines.len() == 0 {
        Seq::empty()
    } else if is_rule(trimmed(lines.last())) {
        rules_in(lines.drop_last()).push(trimmed(lines.last()))
    } else {
        rules_in(lines.drop_last())
    }
}

/// The lines of `lines` that are not blank and yet no valid expression,
/// trimmed.
pub open spec fn refused_in(lines: Seq<Seq<char>>) -> Seq<Seq<char>>
    decreases lines.len(),
{
    if lines.len() == 0 {
        Seq::empty()
    } else if trimmed(lines.last()).len() > 0 && !regex_compiles(trimmed(lines.last())) {
        refused_in(lines.drop_last()).push(trimmed(lines.last()))
    } else {
        refused_in(lines.drop_last())
    }
}

impl Filter {
    /// The rules, in the order in which they are applied.
    pub closed spec fn patterns(&self) -> Seq<Seq<char>> {
        Seq::new(self.stopwords@.len(), |i: int| self.stopwords@[i]@)
    }

    /// The filter without rules: it changes no text.
    pub fn new() -> (f: Filter)
        ensures
            f.patterns() == Seq::<Seq<char>>::empty(),
    {
        let f = Filter { stopwords: Vec::new() };
        assert(f.patterns() =~= Seq::<Seq<char>>::empty());
        f
    }

    /// The filter whose rules are the lines of `content`: one rule to a
    /// line, blank lines passed over. A line that is no valid expression
    /// is left out of the filter and handed back, for the caller to warn of.
    pub fn load_from_string(content: &str) -> (r: (Filter, Vec<String>))
        ensures
            r.0.patterns() == rules_in(split_on(content@, '\n')),
            Seq::new(r.1@.len(), |i: int| r.1@[i]@) == refused_in(split_on(content@, '\n')),
    {
        let chars = to_chars(content);
        let lines = split_chars(chars.as_slice(), '\n');
        let ghost all = views(lines@);
        let mut stopwords: Vec<String> = Vec::new();
        let mut refused: Vec<String> = Vec::new();
        let mut i: usize = 0;
        while i < lines.len()
            invariant
                i <= lines@.len(),
                all == views(lines@),
                Seq::new(stopwords@.len(), |k: int| stopwords@[k]@) == rules_in(
                    all.take(i as int),
                ),
                Seq::new(refused@.len(), |k: int| refused@[k]@) == refused_in(all.take(i as int)),
            decreases lines@.len() - i,
        {
            let rule = from_chars(trim(lines[i].as_slice()).as_slice());
            proof {
                assert(all.take(i + 1).drop_last() == all.take(i as int));
                assert(all.take(i + 1).last() == lines@[i as int]@);
            }
            if rule.as_str().unicode_len() > 0 {
                if crate::pattern::compiles(rule.as_str()) {
                    proof {
                        assert(Seq::new(stopwords@.push(rule).len(), |k: int| stopwords@.push(rule)[k]@)
                            =~= Seq::new(stopwords@.len(), |k: int| stopwords@[k]@).push(rule@));
                    }
                    stopwords.push(rule);
                } else {
                    proof {
                        assert(Seq::new(refused@.push(rule).len(), |k: int| refused@.push(rule)[k]@)
                            =~= Seq::new(refused@.len(), |k: int| refused@[k]@).push(rule@));
                    }
                    refused.push(rule);
                }
            }
            i += 1;
        }
        proof {
            assert(all.take(lines@.len() as int) == all);
        }
        (Filter { stopwords }, refused)
    }

    /// Applies the rules to `input`, one after the other.
    pub fn scrub(&self, input: &str) -> (out: String)
        ensures
            out@ == scrubbed(self.patterns(), input@),
    {
        let mut out = input.to_owned();
        let hash = crate::log_entry::marker_string();
        let mut i: usize = 0;
        while i < self.stopwords.len()
            invariant
                i <= self.stopwords@.len(),
                hash@ == marker(),
                out@ == scrubbed(self.patterns().take(i as int), input@),
            decreases self.stopwords@.len() - i,
        {
            proof {
                assert(self.patterns().take(i + 1).drop_last() == self.patterns().take(i as int));
                assert(self.patterns().take(i + 1).last() == self.stopwords@[i as int]@);
            }
            match crate::pattern::replace_all(self.stopwords[i].as_str(), out.as_str(), hash.as_str()) {
                Some(next) => {
                    out = next;
                },
                None => {},
            }
            i += 1;
        }
        proof {
            assert(self.patterns().take(self.stopwords@.len() as int) == self.patterns());
        }
        out
    }

    /// Whether the rules reduce `input` to the marker alone.
    pub fn bleach(&self, input: &str) -> (b: bool)
        ensures
            b == (scrubbed(self.patterns(), input@) == marker()),
    {
        let out = self.scrub(input);
        let hash = crate::log_entry::marker_string();
        out == hash
    }

    /// The number of rules.
    pub fn len(&self) -> (n: usize)
        ensures
            n == self.patterns().len(),
    {
        self.stopwords.len()
    }
}

impl Default for Filter {
    fn default() -> (f: Filter)
        ensures
            f.patterns() == Seq::<Seq<char>>::empty(),
    {
        Filter::new()
    }
}

} // verus!
