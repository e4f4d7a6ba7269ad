use vstd::prelude::*;
use crate::rle::RleEntry;
use crate::rule::{count_set, RuleModel};

verus! {

/// The index of the first `c` in `s`, or the length of `s` if it holds none.
pub open spec fn first_index(s: Seq<char>, c: char) -> nat
    decreases s.len(),
{
    if s.len() == 0 || s[0] == c {
        0
    } else {
        1 + first_index(s.drop_first(), c)
    }
}

/// A line without the carriage return that may end it.
pub open spec fn strip_cr(line: Seq<char>) -> Seq<char> {
    if line.len() > 0 && line.last() == '\r' {
        line.drop_last()
    } else {
        line
    }
}

/// The lines of a text. A line ends at a line feed, or at a carriage return
/// and a line feed; neither belongs to the line. What follows the last line
/// feed is a line too, as it stands, unless it is empty.
pub open spec fn lines_of(text: Seq<char>) -> Seq<Seq<char>>
    decreases text.len(),
{
    let end = first_index(text, '\n') as int;
    if text.len() == 0 {
        Seq::empty()
    } else if end >= text.len() {
        seq![text]
    } else {
        seq![strip_cr(text.subrange(0, end))] + lines_of(
            text.subrange(end + 1, text.len() as int),
        )
    }
}

pub open spec fn is_digit(c: char) -> bool {
    '0' <= c <= '9'
}

/// The number that a digit stands for.
pub open spec fn digit_value(c: char) -> nat {
    (c as int - '0' as int) as nat
}

/// The number that a sequence of digits stands for in base ten.
pub open spec fn decimal(digits: Seq<char>) -> nat
    decreases digits.len(),
{
    if digits.len() == 0 {
        0
    } else {
        10 * decimal(digits.drop_last()) + digit_value(digits.last())
    }
}

/// The run length that the digits before a tag give: their number in base
/// ten, and 1 where there is no digit or the number is too large for a
/// `usize`.
pub open spec fn run_length(digits: Seq<char>) -> nat {
    if digits.len() == 0 || decimal(digits) > usize::MAX {
        1
    } else {
        decimal(digits)
    }
}

/// How the scan of a pattern line stands: it goes on, it has met the `!`
/// that ends the pattern, or it has met a character that is no part of a
/// pattern.
pub enum LineEnd {
    Open,
    Closed,
    Invalid(char),
}

/// The state of the scan of a pattern line: the runs decoded so far, the
/// digits read since the last tag, and how the scan stands.
pub struct LineScan {
    pub entries: Seq<RleEntry>,
    pub digits: Seq<char>,
    pub end: LineEnd,
}

/// The run that a tag and the digits before it give, if `tag` is a tag.
pub open spec fn tagged_run(tag: char, digits: Seq<char>) -> Option<RleEntry> {
    if tag == 'o' {
        Some(RleEntry::Live(run_length(digits) as usize))
    } else if tag == 'b' {
        Some(RleEntry::Dead(run_length(digits) as usize))
    } else if tag == '$' {
        Some(RleEntry::NewRow(run_length(digits) as usize))
    } else {
        None
    }
}

/// The scan of a pattern line, character by character, after the runs
/// `entries` of the lines before it. Digits gather until a tag turns them
/// into a run; `!` and any character that is neither digit nor tag stop the
/// scan, and what follows them on the line is not read.
pub open spec fn scan_line(entries: Seq<RleEntry>, line: Seq<char>) -> LineScan
    decreases line.len(),
{
    if line.len() == 0 {
        LineScan { entries, digits: Seq::empty(), end: LineEnd::Open }
    } else {
        let before = scan_line(entries, line.drop_last());
        let c = line.last();
        if !(before.end is Open) {
            before
        } else if c == '!' {
            LineScan { end: LineEnd::Closed, ..before }
        } else if is_digit(c) {
            LineScan { digits: before.digits.push(c), ..before }
        } else {
            match tagged_run(c, before.digits) {
                Some(run) => LineScan {
                    entries: before.entries.push(run),
                    digits: Seq::empty(),
                    end: LineEnd::Open,
                },
                None => LineScan { end: LineEnd::Invalid(c), ..before },
            }
        }
    }
}

/// The characters that part the fields of a header line.
pub open spec fn is_separator(c: char) -> bool {
    c == '=' || c == ','
}

/// The number of separators in a line.
pub open spec fn separators(line: Seq<char>) -> nat
    decreases line.len(),
{
    if line.len() == 0 {
        0
    } else if is_separator(line.last()) {
        separators(line.drop_last()) + 1
    } else {
        separators(line.drop_last())
    }
}

/// What follows the last separator of a line; the whole line if it holds
/// none.
pub open spec fn last_field(line: Seq<char>) -> Seq<char>
    decreases line.len(),
{
    if line.len() == 0 || is_separator(line.last()) {
        Seq::empty()
    } else {
        last_field(line.drop_last()).push(line.last())
    }
}

/// The characters with the Unicode property `White_Space`.
pub open spec fn is_space(c: char) -> bool {
    ||| '\u{9}' <= c <= '\u{d}'
    ||| c == ' '
    ||| c == '\u{85}'
    ||| c == '\u{a0}'
    ||| c == '\u{1680}'
    ||| '\u{2000}' <= c <= '\u{200a}'
    ||| c == '\u{2028}'
    ||| c == '\u{2029}'
    ||| c == '\u{202f}'
    ||| c == '\u{205f}'
    ||| c == '\u{3000}'
}

pub open spec fn trim_start(s: Seq<char>) -> Seq<char>
    decreases s.len(),
{
    if s.len() > 0 && is_space(s[0]) {
        trim_start(s.drop_first())
    } else {
        s
    }
}

pub open spec fn trim_end(s: Seq<char>) -> Seq<char>
    decreases s.len(),
{
    if s.len() > 0 && is_space(s.last()) {
        trim_end(s.drop_last())
    } else {
        s
    }
}

/// `s` without the white space at its start and at its end.
pub open spec fn trim(s: Seq<char>) -> Seq<char> {
    trim_end(trim_start(s))
}

/// A digit that is a neighbour count, from 0 to 8.
pub open spec fn is_count(c: char) -> bool {
    '0' <= c <= '8'
}

pub open spec fn all_counts(s: Seq<char>) -> bool {
    forall|i: int| 0 <= i < s.len() ==> is_count(#[trigger] s[i])
}

/// The numbers that the digits of `s` stand for, one by one.
pub open spec fn counts(s: Seq<char>) -> Seq<u8> {
    Seq::new(s.len(), |i: int| digit_value(s[i]) as u8)
}

/// The birth and survival counts of a rule token, which has the form
/// `B<digits>/S<digits>` with digits from 0 to 8; `None` for any other
/// token.
pub open spec fn rule_token(token: Seq<char>) -> Option<(Seq<u8>, Seq<u8>)> {
    let slash = first_index(token, '/') as int;
    let births = token.subrange(1, slash);
    let survivals = token.subrange(slash + 2, token.len() as int);
    if 1 <= slash && slash + 1 < token.len() && token[0] == 'B' && token[slash + 1] == 'S'
        && all_counts(births) && all_counts(survivals) {
        Some((counts(births), counts(survivals)))
    } else {
        None
    }
}

/// The birth and survival counts that a header line gives. The line must
/// hold five separators, that is six fields, and its last field, without
/// the white space around it, must be a rule token.
pub open spec fn header_rule(line: Seq<char>) -> Option<(Seq<u8>, Seq<u8>)> {
    if separators(line) == 5 {
        rule_token(trim(last_field(line)))
    } else {
        None
    }
}

/// What a decoder has gathered from the lines it was given.
pub struct DecoderModel {
    pub pattern: Seq<RleEntry>,
    pub birth: Seq<u8>,
    pub survival: Seq<u8>,
    pub finished: bool,
}

/// Why a text is no pattern: a header line that is malformed, which is
/// held, or a character in a pattern line that is neither digit nor tag.
pub enum Failure {
    Header(Seq<char>),
    Character(char),
}

impl DecoderModel {
    /// The decoder before its first line.
    pub open spec fn start() -> DecoderModel {
        DecoderModel {
            pattern: Seq::empty(),
            birth: Seq::empty(),
            survival: Seq::empty(),
            finished: false,
        }
    }

    /// The counts gathered are neighbour counts.
    pub open spec fn wf(self) -> bool {
        &&& forall|i: int| 0 <= i < self.birth.len() ==> #[trigger] self.birth[i] <= 8
        &&& forall|i: int| 0 <= i < self.survival.len() ==> #[trigger] self.survival[i] <= 8
    }

    /// The rule that the headers gave; Conway's rule where they gave no
    /// count at all.
    pub open spec fn rule(self) -> RuleModel {
        if self.birth.len() == 0 && self.survival.len() == 0 {
            RuleModel::life()
        } else {
            RuleModel { birth: count_set(self.birth), survival: count_set(self.survival) }
        }
    }

    /// The decoder after one more line. Once the pattern has ended, and on
    /// an empty line or one that starts with `#`, nothing changes. A line
    /// that starts with `x` is a header and adds its counts to the rule.
    /// Any other line is a pattern line and adds its runs to the pattern.
    pub open spec fn feed(self, line: Seq<char>) -> Result<DecoderModel, Failure> {
        if self.finished || line.len() == 0 || line[0] == '#' {
            Ok(self)
        } else if line[0] == 'x' {
            match header_rule(line) {
                Some((birth, survival)) => Ok(
                    DecoderModel {
                        birth: self.birth + birth,
                        survival: self.survival + survival,
                        ..self
                    },
                ),
                None => Err(Failure::Header(line)),
            }
        } else {
            let scan = scan_line(self.pattern, line);
            match scan.end {
                LineEnd::Open => Ok(DecoderModel { pattern: scan.entries, ..self }),
                LineEnd::Closed => Ok(
                    DecoderModel { pattern: scan.entries, finished: true, ..self },
                ),
                LineEnd::Invalid(c) => Err(Failure::Character(c)),
            }
        }
    }

    /// The decoder after the lines `lines`, fed in order; the first failure
    /// if a line fails.
    pub open spec fn feed_all(self, lines: Seq<Seq<char>>) -> Result<DecoderModel, Failure>
        decreases lines.len(),
    {
        if lines.len() == 0 {
            Ok(self)
        } else {
            match self.feed(lines[0]) {
                Ok(next) => next.feed_all(lines.drop_first()),
                Err(failure) => Err(failure),
            }
        }
    }
}

/// What a text decodes to.
pub open spec fn decode(text: Seq<char>) -> Result<DecoderModel, Failure> {
    DecoderModel::start().feed_all(lines_of(text))
}

/// Where the first `c` of `s` is, given that it is at `i` and nowhere
/// before, or that `i` is the length of `s` and `s` holds none.
pub proof fn lemma_first_index(s: Seq<char>, c: char, i: int)
    requires
        0 <= i <= s.len(),
        forall|j: int| 0 <= j < i ==> s[j] != c,
        i == s.len() || s[i] == c,
    ensures
        first_index(s, c) == i,
    decreases i,
{
    if i > 0 {
        let rest = s.drop_first();
        assert forall|j: int| 0 <= j < i - 1 implies rest[j] != c by {
            assert(rest[j] == s[j + 1]);
        }
        lemma_first_index(rest, c, i - 1);
    }
}

/// `trim_start` drops the white space before `from`, where `from` is the
/// first place that holds none.
pub proof fn lemma_trim_start(s: Seq<char>, from: int)
    requires
        0 <= from <= s.len(),
        forall|j: int| 0 <= j < from ==> is_space(s[j]),
        from == s.len() || !is_space(s[from]),
    ensures
        trim_start(s) == s.subrange(from, s.len() as int),
    decreases from,
{
    if from > 0 {
        let rest = s.drop_first();
        assert forall|j: int| 0 <= j < from - 1 implies is_space(rest[j]) by {
            assert(rest[j] == s[j + 1]);
        }
        lemma_trim_start(rest, from - 1);
        assert(rest.subrange(from - 1, rest.len() as int) =~= s.subrange(from, s.len() as int));
    } else {
        assert(s.subrange(0, s.len() as int) =~= s);
    }
}

/// `trim_end` drops the white space from `to` on, where `to` follows the
/// last place that holds none.
pub proof fn lemma_trim_end(s: Seq<char>, to: int)
    requires
        0 <= to <= s.len(),
        forall|j: int| to <= j < s.len() ==> is_space(s[j]),
        to == 0 || !is_space(s[to - 1]),
    ensures
        trim_end(s) == s.subrange(0, to),
    decreases s.len() - to,
{
    if to < s.len() {
        let rest = s.drop_last();
        lemma_trim_end(rest, to);
        assert(rest.subrange(0, to) =~= s.subrange(0, to));
    } else {
        assert(s.subrange(0, s.len() as int) =~= s);
    }
}

/// Once the scan of a line has stopped, the rest of the line changes
/// nothing.
pub proof fn lemma_scan_settled(entries: Seq<RleEntry>, line: Seq<char>, k: int)
    requires
        0 <= k <= line.len(),
        !(scan_line(entries, line.take(k)).end is Open),
    ensures
        scan_line(entries, line) == scan_line(entries, line.take(k)),
    decreases line.len(),
{
    if k == line.len() {
        assert(line.take(k) =~= line);
    } else {
        assert(line.drop_last().take(k) =~= line.take(k));
        lemma_scan_settled(entries, line.drop_last(), k);
    }
}

/// A decoder whose pattern has ended takes no more lines.
pub proof fn lemma_finished_absorbs(model: DecoderModel, lines: Seq<Seq<char>>)
    requires
        model.finished,
    ensures
        model.feed_all(lines) == Ok::<DecoderModel, Failure>(model),
    decreases lines.len(),
{
    if lines.len() > 0 {
        lemma_finished_absorbs(model, lines.drop_first());
    }
}

} // verus!
