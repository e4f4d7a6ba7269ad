use vstd::prelude::*;
use vstd::slice::slice_subrange;
use vstd::string::StrSliceExecFns;
use crate::format::{
    all_counts, counts, decimal, decode, header_rule, is_space, last_field, lemma_finished_absorbs,
    lemma_first_index, lemma_scan_settled, lemma_trim_end, lemma_trim_start, lines_of, rule_token,
    scan_line, separators, DecoderModel, Failure, LineEnd, LineScan,
};
use crate::rle::{Rle, RleEntry};
use crate::rule::{count_set, Rule, RuleModel};

verus! {

/// Why a text is no pattern.
#[derive(Debug, PartialEq, Eq)]
pub enum RleError {
    /// A line that starts with `x` and is no header; it holds the line.
    MalformedHeader(String),
    /// A character in a pattern line that is neither digit nor tag.
    InvalidCharacter(char),
}

impl View for RleError {
    type V = Failure;

    open spec fn view(&self) -> Failure {
        match self {
            RleError::MalformedHeader(line) => Failure::Header(line@),
            RleError::InvalidCharacter(c) => Failure::Character(*c),
        }
    }
}

/// A failure before the line that it may hold is attached.
enum Flaw {
    Header,
    Character(char),
}

impl Flaw {
    spec fn on_line(self, line: Seq<char>) -> Failure {
        match self {
            Flaw::Header => Failure::Header(line),
            Flaw::Character(c) => Failure::Character(c),
        }
    }
}

/// The characters of a text, one by one.
fn to_chars(text: &str) -> (chars: Vec<char>)
    ensures
        chars@ == text@,
{
    let mut chars: Vec<char> = Vec::new();
    for c in it: text.chars()
        invariant
            chars@ == it.seq().take(it.index()),
            it.seq() == text@,
    {
        chars.push(c);
    }
    assert(chars@ =~= text@);
    chars
}

fn is_space_char(c: char) -> (space: bool)
    ensures
        space == is_space(c),
{
    ('\u{9}' <= c && c <= '\u{d}') || c == ' ' || c == '\u{85}' || c == '\u{a0}' || c
        == '\u{1680}' || ('\u{2000}' <= c && c <= '\u{200a}') || c == '\u{2028}' || c
        == '\u{2029}' || c == '\u{202f}' || c == '\u{205f}' || c == '\u{3000}'
}

/// Scans one pattern line and adds its runs to `pattern`.
fn scan_pattern(pattern: &mut Vec<RleEntry>, line: &[char]) -> (end: LineEnd)
    ensures
        final(pattern)@ == scan_line(old(pattern)@, line@).entries,
        end == scan_line(old(pattern)@, line@).end,
{
    let ghost start = pattern@;
    let ghost mut digits = Seq::<char>::empty();
    let mut value: usize = 0;
    let mut pending = false;
    let mut overflow = false;
    for i in 0..line.len()
        invariant
            start == old(pattern)@,
            scan_line(start, line@.take(i as int)) == (LineScan {
                entries: pattern@,
                digits,
                end: LineEnd::Open,
            }),
            pending == (digits.len() > 0),
            !overflow ==> value == decimal(digits),
            overflow ==> decimal(digits) > usize::MAX,
    {
        let c = line[i];
        proof {
            assert(line@.take(i + 1).drop_last() =~= line@.take(i as int));
        }
        if c == '!' {
            proof {
                lemma_scan_settled(start, line@, i + 1);
            }
            return LineEnd::Closed;
        } else if '0' <= c && c <= '9' {
            let d = (c as u8 - '0' as u8) as usize;
            if !overflow {
                match value.checked_mul(10) {
                    Some(tens) => match tens.checked_add(d) {
                        Some(sum) => {
                            value = sum;
                        },
                        None => {
                            overflow = true;
                        },
                    },
                    None => {
                        overflow = true;
                    },
                }
            }
            pending = true;
            proof {
                assert(digits.push(c).drop_last() =~= digits);
                digits = digits.push(c);
            }
        } else {
            let nb = if pending && !overflow { value } else { 1 };
            if c == 'o' {
                pattern.push(RleEntry::Live(nb));
            } else if c == 'b' {
                pattern.push(RleEntry::Dead(nb));
            } else if c == '$' {
                pattern.push(RleEntry::NewRow(nb));
            } else {
                proof {
                    lemma_scan_settled(start, line@, i + 1);
                }
                return LineEnd::Invalid(c);
            }
            value = 0;
            pending = false;
            overflow = false;
            proof {
                digits = Seq::empty();
            }
        }
    }
    proof {
        assert(line@.take(line.len() as int) =~= line@);
    }
    LineEnd::Open
}

/// The neighbour counts that the digits of `token` from `from` to `to`
/// stand for, if that is what they all are.
fn parse_counts(token: &[char], from: usize, to: usize) -> (found: Option<Vec<u8>>)
    requires
        from <= to <= token.len(),
    ensures
        found is Some <==> all_counts(token@.subrange(from as int, to as int)),
        found is Some ==> found->Some_0@ == counts(token@.subrange(from as int, to as int)),
{
    let ghost digits = token@.subrange(from as int, to as int);
    let mut found: Vec<u8> = Vec::new();
    for i in from..to
        invariant
            from <= to <= token.len(),
            digits == token@.subrange(from as int, to as int),
            found@ == counts(digits.take(i - from)),
            all_counts(digits.take(i - from)),
    {
        let c = token[i];
        assert(digits[i - from] == c);
        if '0' <= c && c <= '8' {
            found.push(c as u8 - '0' as u8);
            proof {
                let longer = digits.take(i + 1 - from);
                assert(longer.drop_last() =~= digits.take(i - from));
                assert(found@ =~= counts(longer));
            }
        } else {
            return None;
        }
    }
    proof {
        assert(digits.take(to - from) =~= digits);
    }
    Some(found)
}

/// The birth and survival counts of a rule token.
fn parse_rule_token(token: &[char]) -> (rule: Option<(Vec<u8>, Vec<u8>)>)
    ensures
        match rule_token(token@) {
            Some((birth, survival)) => rule is Some && rule->Some_0.0@ == birth
                && rule->Some_0.1@ == survival,
            None => rule is None,
        },
{
    let mut slash: usize = 0;
    while slash < token.len() && token[slash] != '/'
        invariant
            slash <= token.len(),
            forall|j: int| 0 <= j < slash ==> token@[j] != '/',
        decreases token.len() - slash,
    {
        slash += 1;
    }
    proof {
        lemma_first_index(token@, '/', slash as int);
    }
    if slash < 1 || token.len() - slash < 2 {
        return None;
    }
    if token[0] != 'B' || token[slash + 1] != 'S' {
        return None;
    }
    match parse_counts(token, 1, slash) {
        Some(birth) => match parse_counts(token, slash + 2, token.len()) {
            Some(survival) => Some((birth, survival)),
            None => None,
        },
        None => None,
    }
}

/// The birth and survival counts that a header line gives.
fn parse_header(line: &[char]) -> (rule: Option<(Vec<u8>, Vec<u8>)>)
    ensures
        match header_rule(line@) {
            Some((birth, survival)) => rule is Some && rule->Some_0.0@ == birth
                && rule->Some_0.1@ == survival,
            None => rule is None,
        },
{
    let mut seen: usize = 0;
    let mut field: usize = 0;
    for i in 0..line.len()
        invariant
            seen <= i,
            field <= i,
            seen == separators(line@.take(i as int)),
            last_field(line@.take(i as int)) == line@.subrange(field as int, i as int),
    {
        proof {
            assert(line@.take(i + 1).drop_last() =~= line@.take(i as int));
        }
        if line[i] == '=' || line[i] == ',' {
            seen += 1;
            field = i + 1;
            assert(line@.subrange(field as int, i + 1) =~= Seq::empty());
        } else {
            assert(line@.subrange(field as int, i + 1) =~= line@.subrange(
                field as int,
                i as int,
            ).push(line@[i as int]));
        }
    }
    proof {
        assert(line@.take(line.len() as int) =~= line@);
    }
    if seen != 5 {
        return None;
    }
    let ghost last = line@.subrange(field as int, line.len() as int);
    let mut from = field;
    while from < line.len() && is_space_char(line[from])
        invariant
            field <= from <= line.len(),
            forall|j: int| field <= j < from ==> is_space(line@[j]),
        decreases line.len() - from,
    {
        from += 1;
    }
    let mut to = line.len();
    while to > from && is_space_char(line[to - 1])
        invariant
            from <= to <= line.len(),
            forall|j: int| to <= j < line.len() ==> is_space(line@[j]),
        decreases to,
    {
        to -= 1;
    }
    let token = slice_subrange(line, from, to);
    proof {
        lemma_trim_start(last, from - field);
        let inner = last.subrange(from - field, last.len() as int);
        assert(inner =~= line@.subrange(from as int, line.len() as int));
        lemma_trim_end(inner, to - from);
        assert(inner.subrange(0, to - from) =~= token@);
    }
    parse_rule_token(token)
}

/// A decoder that takes a pattern text line by line.
pub struct RleDecoder {
    pattern: Vec<RleEntry>,
    birth: Vec<u8>,
    survival: Vec<u8>,
    finished: bool,
}

impl View for RleDecoder {
    type V = DecoderModel;

    closed spec fn view(&self) -> DecoderModel {
        DecoderModel {
            pattern: self.pattern@,
            birth: self.birth@,
            survival: self.survival@,
            finished: self.finished,
        }
    }
}

impl RleDecoder {
    #[verifier::type_invariant]
    spec fn counts_in_range(self) -> bool {
        self@.wf()
    }

    /// A decoder that has taken no line yet.
    pub fn new() -> (decoder: Self)
        ensures
            decoder@ == DecoderModel::start(),
    {
        RleDecoder {
            pattern: Vec::new(),
            birth: Vec::new(),
            survival: Vec::new(),
            finished: false,
        }
    }

    /// Whether the `!` that ends the pattern has been met: no later line
    /// changes what was decoded.
    pub fn is_finished(&self) -> (finished: bool)
        ensures
            finished == self@.finished,
    {
        self.finished
    }

    fn feed_chars(self, line: &[char]) -> (fed: Result<Self, Flaw>)
        ensures
            match self@.feed(line@) {
                Ok(model) => fed is Ok && fed->Ok_0@ == model,
                Err(failure) => fed is Err && fed->Err_0.on_line(line@) == failure,
            },
    {
        proof {
            use_type_invariant(&self);
        }
        if self.finished || line.len() == 0 || line[0] == '#' {
            return Ok(self);
        }
        let RleDecoder { mut pattern, mut birth, mut survival, finished } = self;
        if line[0] == 'x' {
            match parse_header(line) {
                Some((mut more_birth, mut more_survival)) => {
                    birth.append(&mut more_birth);
                    survival.append(&mut more_survival);
                    Ok(RleDecoder { pattern, birth, survival, finished })
                },
                None => Err(Flaw::Header),
            }
        } else {
            match scan_pattern(&mut pattern, line) {
                LineEnd::Open => Ok(RleDecoder { pattern, birth, survival, finished }),
                LineEnd::Closed => Ok(RleDecoder { pattern, birth, survival, finished: true }),
                LineEnd::Invalid(c) => Err(Flaw::Character(c)),
            }
        }
    }

    /// Takes one more line, without the line feed that ended it.
    pub fn feed(self, line: &str) -> (fed: Result<Self, RleError>)
        ensures
            match self@.feed(line@) {
                Ok(model) => fed is Ok && fed->Ok_0@ == model,
                Err(failure) => fed is Err && fed->Err_0@ == failure,
            },
    {
        let chars = to_chars(line);
        match self.feed_chars(chars.as_slice()) {
            Ok(decoder) => Ok(decoder),
            Err(Flaw::Header) => Err(RleError::MalformedHeader(line.to_owned())),
            Err(Flaw::Character(c)) => Err(RleError::InvalidCharacter(c)),
        }
    }

    /// The pattern and the rule that the lines gave.
    pub fn finish(self) -> (decoded: (Rle, Rule))
        ensures
            decoded.0.pattern@ == self@.pattern,
            decoded.1@ == self@.rule(),
    {
        proof {
            use_type_invariant(&self);
        }
        let rule = if self.birth.is_empty() && self.survival.is_empty() {
            let birth: Vec<u8> = vec![3];
            let survival: Vec<u8> = vec![2, 3];
            proof {
                assert(birth@[0] == 3);
                assert(survival@[0] == 2 && survival@[1] == 3);
                assert(count_set(birth@) =~= RuleModel::life().birth);
                assert(count_set(survival@) =~= RuleModel::life().survival);
            }
            Rule::new(birth, survival)
        } else {
            assert(self@.birth == self.birth@ && self@.survival == self.survival@);
            Rule::new(self.birth, self.survival)
        };
        (Rle { pattern: self.pattern }, rule)
    }
}

impl Rle {
    /// Decodes a pattern text: the pattern and the rule it is meant for.
    pub fn read(text: &str) -> (decoded: Result<(Rle, Rule), RleError>)
        ensures
            match decode(text@) {
                Ok(model) => decoded is Ok && decoded->Ok_0.0.pattern@ == model.pattern
                    && decoded->Ok_0.1@ == model.rule(),
                Err(failure) => decoded is Err && decoded->Err_0@ == failure,
            },
    {
        let chars = to_chars(text);
        let mut decoder = RleDecoder::new();
        let mut start: usize = 0;
        assert(text@.subrange(0, text@.len() as int) =~= text@);
        while start < chars.len() && !decoder.is_finished()
            invariant
                start <= chars.len(),
                chars@ == text@,
                decode(text@) == decoder@.feed_all(
                    lines_of(text@.subrange(start as int, text@.len() as int)),
                ),
            decreases chars.len() - start,
        {
            let ghost rest = text@.subrange(start as int, text@.len() as int);
            let mut end = start;
            while end < chars.len() && chars[end] != '\n'
                invariant
                    start <= end <= chars.len(),
                    forall|j: int| start <= j < end ==> chars@[j] != '\n',
                decreases chars.len() - end,
            {
                end += 1;
            }
            let terminated = end < chars.len();
            let stop = if terminated && end > start && chars[end - 1] == '\r' {
                end - 1
            } else {
                end
            };
            let next = if terminated {
                end + 1
            } else {
                end
            };
            let line = slice_subrange(chars.as_slice(), start, stop);
            proof {
                lemma_first_index(rest, '\n', end - start);
                assert(rest.subrange(0, end - start) =~= text@.subrange(start as int, end as int));
                if terminated {
                    if end > start {
                        assert(text@.subrange(start as int, end as int).drop_last()
                            =~= text@.subrange(start as int, end - 1));
                    }
                    assert(rest.subrange(end - start + 1, rest.len() as int) =~= text@.subrange(
                        next as int,
                        text@.len() as int,
                    ));
                } else {
                    assert(rest =~= text@.subrange(start as int, end as int));
                    assert(text@.subrange(next as int, text@.len() as int) =~= Seq::empty());
                }
                assert(line@ == lines_of(rest)[0]);
                assert(lines_of(rest).drop_first() =~= lines_of(
                    text@.subrange(next as int, text@.len() as int),
                ));
            }
            match decoder.feed_chars(line) {
                Ok(fed) => {
                    decoder = fed;
                },
                Err(Flaw::Header) => {
                    let held = text.substring_char(start, stop).to_owned();
                    return Err(RleError::MalformedHeader(held));
                },
                Err(Flaw::Character(c)) => {
                    return Err(RleError::InvalidCharacter(c));
                },
            }
            start = next;
        }
        proof {
            if decoder@.finished {
                lemma_finished_absorbs(
                    decoder@,
                    lines_of(text@.subrange(start as int, text@.len() as int)),
                );
            }
        }
        Ok(decoder.finish())
    }
}

} // verus!
