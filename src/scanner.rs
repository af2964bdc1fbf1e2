//! The assembler's front end: scans source text into elements.
use vstd::prelude::*;
use crate::assembler::{
    arg_kind, opt_arg_kind, elem_wf, elems_count, elems_size, find_label, labels_unique, AssembleError,
    AssembleErrorKind, ArgType, Elem, Label, LabelId, Op, ParseOutput, Parser, LABEL_SEP,
    MAX_SOURCE_LEN, STATEMENT_SEP,
};
use crate::mnemonic::{lemma_mnemonic_known, lookup_mnemonic, mnemonic};
use crate::number::{number_literal, parse_number};
use crate::opcode::{self, operand_kind_of, OperandKind};
use crate::source::Source;

verus! {

/// Characters skipped between statements.
pub open spec fn is_blank(c: char) -> bool {
    c == '\n' || c == '\r' || c == ' '
}

/// Characters with the Unicode `White_Space` property, which separate the
/// words of a statement.
pub open spec fn is_white_space(c: char) -> bool {
    ('\u{9}' <= c <= '\u{d}') || c == ' ' || c == '\u{85}' || c == '\u{a0}' || c == '\u{1680}'
        || ('\u{2000}' <= c <= '\u{200a}') || c == '\u{2028}' || c == '\u{2029}' || c == '\u{202f}'
        || c == '\u{205f}' || c == '\u{3000}'
}

pub fn white_space(c: char) -> (r: bool)
    ensures
        r == is_white_space(c),
{
    ('\u{9}' <= c && c <= '\u{d}') || c == ' ' || c == '\u{85}' || c == '\u{a0}' || c == '\u{1680}'
        || ('\u{2000}' <= c && c <= '\u{200a}') || c == '\u{2028}' || c == '\u{2029}' || c
        == '\u{202f}' || c == '\u{205f}' || c == '\u{3000}'
}

/// Number of line breaks in `s`.
pub open spec fn count_newlines(s: Seq<char>) -> nat
    decreases s.len(),
{
    if s.len() == 0 {
        0
    } else {
        count_newlines(s.drop_last()) + if s.last() == '\n' { 1nat } else { 0nat }
    }
}

/// `spans` are the words of `s[from..to]`: maximal runs of characters
/// without white space, in order.
#[verifier::opaque]
pub open spec fn is_word_split(s: Seq<char>, from: int, to: int, spans: Seq<(usize, usize)>) -> bool {
    &&& forall|j: int| 0 <= j < spans.len() ==> from <= #[trigger] spans[j].0 < spans[j].1 <= to
    &&& forall|j: int, k: int| #![trigger spans[j], s[k]] 0 <= j < spans.len() && spans[j].0 <= k < spans[j].1 ==> !is_white_space(s[k])
    &&& forall|j: int| 0 <= j < spans.len() ==> (#[trigger] spans[j].1 == to || is_white_space(s[spans[j].1 as int]))
    &&& forall|j: int| 0 < j < spans.len() ==> spans[j - 1].1 <= #[trigger] spans[j].0
    &&& forall|k: int| from <= k < to && !is_white_space(s[k]) ==> exists|j: int| 0 <= j < spans.len() && spans[j].0 <= k < #[trigger] spans[j].1
}

/// How an operand text reads: `@NAME`, `.NAME`, or an integer literal.
pub open spec fn arg_read(s: Seq<char>, r: Result<ArgType, AssembleErrorKind>) -> bool {
    if s.len() == 0 {
        r == Err::<ArgType, AssembleErrorKind>(AssembleErrorKind::MissingArgument)
    } else if s[0] == '@' {
        r matches Ok(ArgType::AbsLabelRef(n)) && n@ == s.drop_first()
    } else if s[0] == '.' {
        r matches Ok(ArgType::OffLabelRef(n)) && n@ == s.drop_first()
    } else {
        match number_literal(s) {
            Ok(v) => r == Ok::<ArgType, AssembleErrorKind>(ArgType::Number(v)),
            Err(k) => r == Err::<ArgType, AssembleErrorKind>(AssembleErrorKind::UnableToParseInt(k)),
        }
    }
}

/// How a register operand reads: an integer in `0..=255`.
pub open spec fn register_read(s: Seq<char>, r: Result<ArgType, AssembleErrorKind>) -> bool {
    if s.len() == 0 || s[0] == '@' || s[0] == '.' {
        if s.len() == 0 {
            r == Err::<ArgType, AssembleErrorKind>(AssembleErrorKind::MissingArgument)
        } else {
            r == Err::<ArgType, AssembleErrorKind>(AssembleErrorKind::UnexpectedImmArgSize)
        }
    } else {
        match number_literal(s) {
            Ok(v) => if 0 <= v <= 255 {
                r == Ok::<ArgType, AssembleErrorKind>(ArgType::Register(v as u8))
            } else {
                r == Err::<ArgType, AssembleErrorKind>(AssembleErrorKind::UnexpectedRegisterId(v))
            },
            Err(k) => r == Err::<ArgType, AssembleErrorKind>(AssembleErrorKind::UnableToParseInt(k)),
        }
    }
}

/// How an operand of the given kind reads.
pub open spec fn operand_read(kind: OperandKind, s: Seq<char>, r: Result<ArgType, AssembleErrorKind>) -> bool {
    if kind == OperandKind::Register {
        register_read(s, r)
    } else {
        arg_read(s, r)
    }
}

/// The `j`-th word.
pub open spec fn word_at(s: Seq<char>, spans: Seq<(usize, usize)>, j: int) -> Seq<char> {
    s.subrange(spans[j].0 as int, spans[j].1 as int)
}

/// How a statement reads, given its words: the name picks the opcode and the
/// operand kind; a missing operand, a bad operand, or an extra word is an error.
pub open spec fn statement_read(s: Seq<char>, spans: Seq<(usize, usize)>, r: Result<Op, AssembleErrorKind>) -> bool {
    if spans.len() == 0 || mnemonic(word_at(s, spans, 0)) is None {
        r == Err::<Op, AssembleErrorKind>(AssembleErrorKind::UnknownOperation)
    } else {
        let op = mnemonic(word_at(s, spans, 0))->0;
        match operand_kind_of(op) {
            None => if spans.len() > 1 {
                r == Err::<Op, AssembleErrorKind>(AssembleErrorKind::TooManyArguments)
            } else {
                r == Ok::<Op, AssembleErrorKind>(Op { opcode: op, arg: None })
            },
            Some(kind) => if spans.len() < 2 {
                r == Err::<Op, AssembleErrorKind>(AssembleErrorKind::MissingArgument)
            } else {
                exists|a: Result<ArgType, AssembleErrorKind>| {
                    &&& #[trigger] operand_read(kind, word_at(s, spans, 1), a)
                    &&& match a {
                        Err(e) => r == Err::<Op, AssembleErrorKind>(e),
                        Ok(arg) => if spans.len() > 2 {
                            r == Err::<Op, AssembleErrorKind>(AssembleErrorKind::TooManyArguments)
                        } else {
                            r == Ok::<Op, AssembleErrorKind>(Op { opcode: op, arg: Some(arg) })
                        },
                    }
                }
            },
        }
    }
}

/// The first position at or after `from` that holds `c`, or the length of
/// `s` when there is none.
pub open spec fn next_delim(s: Seq<char>, from: int, c: char) -> int
    decreases s.len() - from,
{
    if from < 0 || from >= s.len() {
        s.len() as int
    } else if s[from] == c {
        from
    } else {
        next_delim(s, from + 1, c)
    }
}

/// The labels as names and positions.
pub open spec fn label_views(labels: Seq<Label>) -> Seq<(Seq<char>, u32)> {
    labels.map_values(|l: Label| (l.name@, l.position))
}

/// The position of the first label called `name`.
pub open spec fn find_name(labels: Seq<(Seq<char>, u32)>, name: Seq<char>) -> Option<u32>
    decreases labels.len(),
{
    if labels.len() == 0 {
        None
    } else if labels[0].0 == name {
        Some(labels[0].1)
    } else {
        find_name(labels.drop_first(), name)
    }
}

/// Scanning `s` from `pos`, with `labels` defined and `size` code bytes read
/// before it, yields the elements `elems` and ends with the labels
/// `labels_after`. Blanks are skipped; `#ARG;` is a constant; `:NAME:`
/// defines a new label at the current code offset; anything else is a
/// statement up to its `;`.
pub open spec fn scanned(
    s: Seq<char>,
    pos: int,
    labels: Seq<(Seq<char>, u32)>,
    size: nat,
    elems: Seq<Elem>,
    labels_after: Seq<(Seq<char>, u32)>,
) -> bool
    decreases s.len() - pos, 1nat,
{
    if pos < 0 || pos >= s.len() {
        elems.len() == 0 && labels_after == labels
    } else if is_blank(s[pos]) {
        scanned(s, pos + 1, labels, size, elems, labels_after)
    } else if elems.len() == 0 {
        false
    } else if s[pos] == '#' {
        let e = next_delim(s, pos + 1, STATEMENT_SEP);
        &&& e < s.len()
        &&& elems[0] matches Elem::Const(a) && arg_read(s.subrange(pos + 1, e), Ok(a))
        &&& scanned_rest(s, e + 1, pos, labels, size + 5, elems.drop_first(), labels_after)
    } else if s[pos] == LABEL_SEP {
        let e = next_delim(s, pos + 1, LABEL_SEP);
        let name = s.subrange(pos + 1, e);
        &&& e < s.len()
        &&& find_name(labels, name) is None
        &&& elems[0] == Elem::Label(LabelId(labels.len() as usize))
        &&& scanned_rest(s, e + 1, pos, labels.push((name, size as u32)), size, elems.drop_first(), labels_after)
    } else {
        let e = next_delim(s, pos, STATEMENT_SEP);
        &&& e < s.len()
        &&& elems[0] matches Elem::Op(op) && (exists|spans: Seq<(usize, usize)>| #[trigger] is_word_split(s, pos, e, spans) && statement_read(s, spans, Ok(op)))
            && scanned_rest(s, e + 1, pos, labels, size + op.spec_size(), elems.drop_first(), labels_after)
    }
}

/// Some scan of `s` from `pos` succeeds.
pub open spec fn scannable(s: Seq<char>, pos: int, labels: Seq<(Seq<char>, u32)>, size: nat) -> bool {
    exists|p: (Seq<Elem>, Seq<(Seq<char>, u32)>)| #[trigger] scanned(s, pos, labels, size, p.0, p.1)
}

/// `scanned` from `next`, a position after `pos`.
pub open spec fn scanned_rest(
    s: Seq<char>,
    next: int,
    pos: int,
    labels: Seq<(Seq<char>, u32)>,
    size: nat,
    elems: Seq<Elem>,
    labels_after: Seq<(Seq<char>, u32)>,
) -> bool
    decreases s.len() - pos, 0nat,
{
    next > pos && next <= s.len() && (if pos < next <= s.len() { scanned(s, next, labels, size, elems, labels_after) } else { false })
}

/// The outcome of reading one statement, without the position after it.
pub open spec fn statement_outcome(r: Result<(Op, usize), AssembleError>) -> Result<Op, AssembleErrorKind> {
    match r {
        Ok((op, _)) => Ok(op),
        Err(e) => Err(e.kind),
    }
}

/// `e` is the first `c` at or after `from`.
pub open spec fn first_at(s: Seq<char>, from: int, e: int, c: char) -> bool {
    &&& from <= e < s.len()
    &&& s[e] == c
    &&& forall|k: int| from <= k < e ==> s[k] != c
}

pub open spec fn err_kind<T>(r: Result<T, AssembleError>) -> Result<T, AssembleErrorKind> {
    match r {
        Ok(v) => Ok(v),
        Err(e) => Err(e.kind),
    }
}

/// The next word of `src[from..to]`, if any.
fn next_word(src: &Source, from: usize, to: usize) -> (r: Option<(usize, usize)>)
    requires
        from <= to <= src@.len(),
    ensures
        r is None ==> forall|k: int| from <= k < to ==> is_white_space(src@[k]),
        r matches Some((a, b)) ==> {
            &&& from <= a < b <= to
            &&& forall|k: int| from <= k < a ==> is_white_space(src@[k])
            &&& forall|k: int| a <= k < b ==> !is_white_space(src@[k])
            &&& b == to || is_white_space(src@[b as int])
        },
{
    let mut a = from;
    while a < to && white_space(src.at(a))
        invariant
            from <= a <= to <= src@.len(),
            forall|k: int| from <= k < a ==> is_white_space(src@[k]),
        decreases to - a,
    {
        a = a + 1;
    }
    if a == to {
        return None;
    }
    let mut b = a + 1;
    while b < to && !white_space(src.at(b))
        invariant
            a < b <= to <= src@.len(),
            forall|k: int| a <= k < b ==> !is_white_space(src@[k]),
        decreases to - b,
    {
        b = b + 1;
    }
    Some((a, b))
}

/// The words of `src[from..to]`, as spans.
pub fn iter_op_args(src: &Source, from: usize, to: usize) -> (spans: Vec<(usize, usize)>)
    requires
        from <= to <= src@.len(),
    ensures
        is_word_split(src@, from as int, to as int, spans@),
{
    let mut spans: Vec<(usize, usize)> = Vec::new();
    let mut pos = from;
    loop
        invariant
            from <= pos <= to <= src@.len(),
            forall|j: int| 0 <= j < spans@.len() ==> from <= #[trigger] spans@[j].0 < spans@[j].1 <= pos,
            forall|j: int, k: int| #![trigger spans@[j], src@[k]] 0 <= j < spans@.len() && spans@[j].0 <= k < spans@[j].1 ==> !is_white_space(src@[k]),
            forall|j: int| 0 <= j < spans@.len() ==> (#[trigger] spans@[j].1 == to || is_white_space(src@[spans@[j].1 as int])),
            forall|j: int| 0 < j < spans@.len() ==> spans@[j - 1].1 <= #[trigger] spans@[j].0,
            forall|k: int| from <= k < pos && !is_white_space(src@[k]) ==> exists|j: int| 0 <= j < spans@.len() && spans@[j].0 <= k < #[trigger] spans@[j].1,
        decreases to - pos,
    {
        match next_word(src, pos, to) {
            None => {
                reveal(is_word_split);
                return spans;
            },
            Some((a, b)) => {
                let ghost old_spans = spans@;
                spans.push((a, b));
                assert forall|k: int| from <= k < b && !is_white_space(src@[k]) implies exists|j: int| 0 <= j < spans@.len() && spans@[j].0 <= k < #[trigger] spans@[j].1 by {
                    if k < pos {
                        let j = choose|j: int| 0 <= j < old_spans.len() && old_spans[j].0 <= k < #[trigger] old_spans[j].1;
                        assert(spans@[j] == old_spans[j]);
                    } else {
                        assert(spans@[spans@.len() - 1] == (a, b));
                    }
                }
                pos = b;
            },
        }
    }
}

impl Parser {
    /// `parse_i32("0x-7D0")` is -2000: integer literals of the language.
    pub fn parse_i32(&self, s: &str) -> (r: Result<i32, AssembleError>)
        ensures
            match number_literal(s@) {
                Ok(v) => r matches Ok(x) && x == v,
                Err(k) => r matches Err(e) && e.kind == AssembleErrorKind::UnableToParseInt(k) && e.line == self.line,
            },
    {
        let src = Source::new(s);
        match parse_number(&src, 0, src.len()) {
            Ok(v) => {
                assert(src@.subrange(0, src@.len() as int) =~= s@);
                Ok(v)
            },
            Err(k) => {
                assert(src@.subrange(0, src@.len() as int) =~= s@);
                Err(AssembleError::new(self, AssembleErrorKind::UnableToParseInt(k)))
            },
        }
    }

    /// Skips blanks from `pos`, counting line breaks; `None` when only blanks remain.
    pub fn skip_whitespace(&mut self, src: &Source, pos: usize) -> (r: Option<usize>)
        requires
            pos <= src@.len(),
            old(self).line + src@.len() <= usize::MAX,
        ensures
            r is None ==> forall|k: int| pos <= k < src@.len() ==> is_blank(src@[k]),
            r is None ==> final(self).line == old(self).line + count_newlines(src@.subrange(pos as int, src@.len() as int)),
            r is None ==> final(self).line <= old(self).line + (src@.len() - pos),
            r matches Some(j) ==> {
                &&& pos <= j < src@.len()
                &&& !is_blank(src@[j as int])
                &&& forall|k: int| pos <= k < j ==> is_blank(src@[k])
                &&& final(self).line == old(self).line + count_newlines(src@.subrange(pos as int, j as int))
                &&& final(self).line <= old(self).line + (j - pos)
            },
            final(self).op_count == old(self).op_count,
            final(self).op_size_bytes == old(self).op_size_bytes,
            final(self).labels == old(self).labels,
    {
        let mut i = pos;
        while i < src.len()
            invariant
                pos <= i <= src@.len(),
                old(self).line + src@.len() <= usize::MAX,
                forall|k: int| pos <= k < i ==> is_blank(src@[k]),
                self.line == old(self).line + count_newlines(src@.subrange(pos as int, i as int)),
                count_newlines(src@.subrange(pos as int, i as int)) <= i - pos,
                self.op_count == old(self).op_count,
                self.op_size_bytes == old(self).op_size_bytes,
                self.labels == old(self).labels,
            decreases src@.len() - i,
        {
            let c = src.at(i);
            assert(src@.subrange(pos as int, i + 1).drop_last() =~= src@.subrange(pos as int, i as int));
            if c == '\n' {
                self.line = self.line + 1;
            } else if c != '\r' && c != ' ' {
                return Some(i);
            }
            i = i + 1;
        }
        None
    }

    /// The text from `start` up to the first `delim`, and where the text
    /// after it begins.
    pub fn slice_until(&self, src: &Source, start: usize, delim: char) -> (r: Result<ParseOutput, AssembleError>)
        requires
            start <= src@.len(),
        ensures
            r is Err <==> forall|k: int| start <= k < src@.len() ==> src@[k] != delim,
            r matches Err(e) ==> e.kind == AssembleErrorKind::MissingDelimiter && e.line == self.line,
            r matches Ok(out) ==> {
                &&& out.word_start == start <= out.word_end < src@.len()
                &&& out.rest == out.word_end + 1
                &&& src@[out.word_end as int] == delim
                &&& forall|k: int| start <= k < out.word_end ==> src@[k] != delim
            },
    {
        let mut i = start;
        while i < src.len()
            invariant
                start <= i <= src@.len(),
                forall|k: int| start <= k < i ==> src@[k] != delim,
            decreases src@.len() - i,
        {
            if src.at(i) == delim {
                return Ok(ParseOutput { word_start: start, word_end: i, rest: i + 1 });
            }
            i = i + 1;
        }
        Err(AssembleError::new(self, AssembleErrorKind::MissingDelimiter))
    }

    /// Reads an operand: `@NAME`, `.NAME` or an integer literal.
    pub fn parse_arg(&self, src: &Source, start: usize, end: usize) -> (r: Result<ArgType, AssembleError>)
        requires
            src.wf(),
            start <= end <= src@.len(),
        ensures
            arg_read(src@.subrange(start as int, end as int), err_kind(r)),
            r matches Err(e) ==> e.line == self.line,
    {
        let ghost s = src@.subrange(start as int, end as int);
        if start == end {
            return Err(AssembleError::new(self, AssembleErrorKind::MissingArgument));
        }
        let c = src.at(start);
        if c == '@' {
            let name = src.substring(start + 1, end);
            assert(name@ =~= s.drop_first());
            Ok(ArgType::AbsLabelRef(name))
        } else if c == '.' {
            let name = src.substring(start + 1, end);
            assert(name@ =~= s.drop_first());
            Ok(ArgType::OffLabelRef(name))
        } else {
            match parse_number(src, start, end) {
                Ok(v) => Ok(ArgType::Number(v)),
                Err(k) => Err(AssembleError::new(self, AssembleErrorKind::UnableToParseInt(k))),
            }
        }
    }

    /// Reads a register operand from the word `word`, if there is one.
    pub fn arg_register(&self, src: &Source, word: Option<(usize, usize)>) -> (r: Result<ArgType, AssembleError>)
        requires
            src.wf(),
            word matches Some((a, b)) ==> a <= b <= src@.len(),
        ensures
            r matches Err(e) ==> e.line == self.line,
            match word {
                None => err_kind(r) == Err::<ArgType, AssembleErrorKind>(AssembleErrorKind::MissingArgument),
                Some((a, b)) => register_read(src@.subrange(a as int, b as int), err_kind(r)),
            },
    {
        let (a, b) = match word {
            None => return Err(AssembleError::new(self, AssembleErrorKind::MissingArgument)),
            Some(w) => w,
        };
        match self.parse_arg(src, a, b)? {
            ArgType::Number(num) => {
                if 0 <= num && num <= 255 {
                    Ok(ArgType::Register(num as u8))
                } else {
                    Err(AssembleError::new(self, AssembleErrorKind::UnexpectedRegisterId(num)))
                }
            },
            _ => Err(AssembleError::new(self, AssembleErrorKind::UnexpectedImmArgSize)),
        }
    }

    /// Reads a numeric operand from the word `word`, if there is one.
    pub fn arg_const(&self, src: &Source, word: Option<(usize, usize)>) -> (r: Result<ArgType, AssembleError>)
        requires
            src.wf(),
            word matches Some((a, b)) ==> a <= b <= src@.len(),
        ensures
            r matches Err(e) ==> e.line == self.line,
            match word {
                None => err_kind(r) == Err::<ArgType, AssembleErrorKind>(AssembleErrorKind::MissingArgument),
                Some((a, b)) => arg_read(src@.subrange(a as int, b as int), err_kind(r)),
            },
    {
        match word {
            None => Err(AssembleError::new(self, AssembleErrorKind::MissingArgument)),
            Some((a, b)) => self.parse_arg(src, a, b),
        }
    }

    /// Reads one statement `MNEMONIC [ARG];` starting at `start`; returns the
    /// instruction and the position after the `;`.
    pub fn parse_op(&self, src: &Source, start: usize) -> (r: Result<(Op, usize), AssembleError>)
        requires
            src.wf(),
            start <= src@.len(),
        ensures
            r matches Err(e) ==> e.line == self.line,
            (forall|k: int| start <= k < src@.len() ==> src@[k] != STATEMENT_SEP) ==> err_kind(r)
                == Err::<(Op, usize), AssembleErrorKind>(AssembleErrorKind::MissingDelimiter),
            r matches Ok((_, rest)) ==> first_at(src@, start as int, rest - 1, STATEMENT_SEP),
            !(forall|k: int| start <= k < src@.len() ==> src@[k] != STATEMENT_SEP) ==> exists|e: int, spans: Seq<(usize, usize)>| {
                &&& first_at(src@, start as int, e, STATEMENT_SEP)
                &&& #[trigger] is_word_split(src@, start as int, e, spans)
                &&& statement_read(src@, spans, statement_outcome(r))
            },
    {
        let statement = self.slice_until(src, start, STATEMENT_SEP)?;
        let ghost e = statement.word_end as int;
        let words = iter_op_args(src, statement.word_start, statement.word_end);
        assert(forall|j: int| 0 <= j < words@.len() ==> start <= #[trigger] words@[j].0 < words@[j].1 <= e) by {
            reveal(is_word_split);
        }
        let op = self.op_from_words(src, &words);
        let r = match op {
            Ok(op) => Ok((op, statement.rest)),
            Err(err) => Err(err),
        };
        assert(first_at(src@, start as int, e, STATEMENT_SEP));
        assert(is_word_split(src@, start as int, e, words@) && statement_read(src@, words@, statement_outcome(r)));
        r
    }

    /// The instruction that a statement's words spell.
    fn op_from_words(&self, src: &Source, words: &Vec<(usize, usize)>) -> (r: Result<Op, AssembleError>)
        requires
            src.wf(),
            forall|j: int| 0 <= j < words@.len() ==> #[trigger] words@[j].0 <= words@[j].1 <= src@.len(),
        ensures
            r matches Err(e) ==> e.line == self.line,
            statement_read(src@, words@, err_kind(r)),
    {
        if words.len() == 0 {
            return Err(AssembleError::new(self, AssembleErrorKind::UnknownOperation));
        }
        let (a, b) = words[0];
        let opcode = match lookup_mnemonic(src, a, b) {
            None => {
                return Err(AssembleError::new(self, AssembleErrorKind::UnknownOperation));
            },
            Some(op) => op,
        };
        let kind = match opcode::operand_kind(opcode) {
            None => {
                if words.len() > 1 {
                    return Err(AssembleError::new(self, AssembleErrorKind::TooManyArguments));
                }
                return Ok(Op { opcode, arg: None });
            },
            Some(k) => k,
        };
        if words.len() < 2 {
            return Err(AssembleError::new(self, AssembleErrorKind::MissingArgument));
        }
        let a = match kind {
            OperandKind::Register => self.arg_register(src, Some(words[1])),
            OperandKind::Num => self.arg_const(src, Some(words[1])),
        };
        let ghost word1 = word_at(src@, words@, 1);
        assert(operand_read(kind, word1, err_kind(a)));
        match a {
            Err(err) => {
                let r: Result<Op, AssembleError> = Err(err);
                assert(err_kind(a) == Err::<ArgType, AssembleErrorKind>(err.kind));
                assert(match err_kind(a) {
                    Err(e) => err_kind(r) == Err::<Op, AssembleErrorKind>(e),
                    Ok(_) => false,
                });
                r
            },
            Ok(arg) => {
                if words.len() > 2 {
                    Err(AssembleError::new(self, AssembleErrorKind::TooManyArguments))
                } else {
                    Ok(Op { opcode, arg: Some(arg) })
                }
            },
        }
    }

    /// Scans the whole source into elements, defining labels as they come
    /// and counting instructions and code bytes.
    pub fn parse_elems(&mut self, code: &str) -> (r: Result<Vec<Elem>, AssembleError>)
        requires
            old(self).wf(),
            old(self).op_count == 0,
            old(self).op_size_bytes == 0,
            old(self).line == 0,
            old(self).labels@.len() == 0,
            code@.len() <= MAX_SOURCE_LEN,
        ensures
            r matches Ok(elems) ==> {
                &&& final(self).wf()
                &&& final(self).op_size_bytes == elems_size(elems@)
                &&& final(self).op_count == elems_count(elems@)
                &&& final(self).op_size_bytes <= 5 * code@.len()
                &&& forall|i: int| 0 <= i < elems@.len() ==> elem_wf(#[trigger] elems@[i])
                &&& scanned(code@, 0, Seq::empty(), 0, elems@, label_views(final(self).labels@))
            },
            r matches Err(e) ==> e.line <= code@.len(),
            scannable(code@, 0, Seq::empty(), 0) ==> r is Ok,
            r matches Err(e) ==> !(e.kind is UnknownLabel),
    {
        let src = Source::new(code);
        let mut elems: Vec<Elem> = Vec::new();
        let mut pos: usize = 0;
        assert forall|r: Seq<Elem>, l: Seq<(Seq<char>, u32)>| #[trigger] scanned(src@, 0, label_views(self.labels@), 0, r, l)
            implies scanned(src@, 0, Seq::empty(), 0, elems@ + r, l) by {
            assert(elems@ + r =~= r);
            assert(label_views(self.labels@) =~= Seq::<(Seq<char>, u32)>::empty());
        }
        assert(label_views(self.labels@) =~= Seq::<(Seq<char>, u32)>::empty());
        while pos < src.len()
            invariant
                src.wf(),
                src@ == code@,
                pos <= src@.len() <= MAX_SOURCE_LEN,
                self.wf(),
                self.op_size_bytes == elems_size(elems@),
                self.op_count == elems_count(elems@),
                self.op_size_bytes <= 5 * pos,
                self.line <= pos,
                forall|i: int| 0 <= i < elems@.len() ==> elem_wf(#[trigger] elems@[i]),
                forall|r: Seq<Elem>, l: Seq<(Seq<char>, u32)>| #[trigger] scanned(src@, pos as int, label_views(self.labels@), self.op_size_bytes as nat, r, l)
                    ==> scanned(src@, 0, Seq::empty(), 0, elems@ + r, l),
                scannable(code@, 0, Seq::empty(), 0) ==> scannable(src@, pos as int, label_views(self.labels@), self.op_size_bytes as nat),
            decreases src@.len() - pos,
        {
            let ghost old_elems = elems@;
            let ghost pos0 = pos as int;
            let ghost labels0 = label_views(self.labels@);
            let ghost size0 = self.op_size_bytes as nat;
            let ghost s = src@;
            let ghost ok0 = scannable(s, pos0, labels0, size0);
            let ghost p = choose|p: (Seq<Elem>, Seq<(Seq<char>, u32)>)| #[trigger] scanned(s, pos0, labels0, size0, p.0, p.1);
            let c = src.at(pos);
            if c == '\n' || c == '\r' || c == ' ' {
                match self.skip_whitespace(&src, pos) {
                    None => {
                        pos = src.len();
                    },
                    Some(j) => {
                        pos = j;
                    },
                }
                assert forall|r: Seq<Elem>, l: Seq<(Seq<char>, u32)>| #[trigger] scanned(s, pos as int, labels0, size0, r, l)
                    implies scanned(s, 0, Seq::empty(), 0, old_elems + r, l) by {
                    lemma_skip_blanks(s, pos0, pos as int, labels0, size0, r, l);
                }
                proof {
                    if ok0 {
                        lemma_skip_blanks_forward(s, pos0, pos as int, labels0, size0, p.0, p.1);
                        assert(scanned(s, pos as int, labels0, size0, p.0, p.1));
                    }
                }
            } else if c == '#' {
                let statement = match self.slice_until(&src, pos + 1, STATEMENT_SEP) {
                    Ok(st) => st,
                    Err(e) => {
                        assert(!ok0) by {
                            if ok0 {
                                lemma_next_delim_none(s, pos0 + 1, STATEMENT_SEP);
                                assert(scanned(s, pos0, labels0, size0, p.0, p.1));
                            }
                        }
                        return Err(e);
                    },
                };
                proof {
                    lemma_next_delim(s, pos0 + 1, statement.word_end as int, STATEMENT_SEP);
                }
                let arg = match self.parse_arg(&src, statement.word_start, statement.word_end) {
                    Ok(a) => a,
                    Err(e) => {
                        assert(!ok0) by {
                            if ok0 {
                                assert(scanned(s, pos0, labels0, size0, p.0, p.1));
                                let a = p.0[0]->Const_0;
                                lemma_operand_read_exclusive(OperandKind::Num, s.subrange(pos0 + 1, statement.word_end as int), e.kind, a);
                            }
                        }
                        return Err(e);
                    },
                };
                proof {
                    if ok0 {
                        assert(scanned(s, pos0, labels0, size0, p.0, p.1));
                        assert(next_delim(s, pos0 + 1, STATEMENT_SEP) == statement.word_end);
                        assert(scanned_rest(s, statement.rest as int, pos0, labels0, size0 + 5, p.0.drop_first(), p.1));
                        let q = (p.0.drop_first(), p.1);
                        assert(scanned(s, statement.rest as int, labels0, size0 + 5, q.0, q.1));
                    }
                }
                let ghost new_elem = Elem::Const(arg);
                self.op_size_bytes = self.op_size_bytes + 5;
                elems.push(Elem::Const(arg));
                self.op_count = self.op_count + 1;
                assert(elems@.drop_last() =~= old_elems);
                pos = statement.rest;
                assert forall|r: Seq<Elem>, l: Seq<(Seq<char>, u32)>| #[trigger] scanned(s, pos as int, labels0, size0 + 5, r, l)
                    implies scanned(s, 0, Seq::empty(), 0, elems@ + r, l) by {
                    let r0 = seq![new_elem] + r;
                    assert(r0.drop_first() =~= r);
                    let e = next_delim(s, pos0 + 1, STATEMENT_SEP);
                    assert(e == pos - 1);
                    assert(s[pos0] == '#');
                    assert(arg_read(s.subrange(pos0 + 1, e), Ok(arg)));
                    assert(scanned_rest(s, e + 1, pos0, labels0, size0 + 5, r0.drop_first(), l));
                    assert(scanned(s, pos0, labels0, size0, r0, l));
                    assert(old_elems + r0 =~= elems@ + r);
                }
            } else if c == LABEL_SEP {
                let (label, rest) = match self.parse_label(&src, pos + 1) {
                    Ok(x) => x,
                    Err(e) => {
                        assert(!ok0) by {
                            if ok0 {
                                lemma_next_delim_none(s, pos0 + 1, LABEL_SEP);
                                assert(scanned(s, pos0, labels0, size0, p.0, p.1));
                            }
                        }
                        return Err(e);
                    },
                };
                let ghost old_labels = self.labels@;
                let ghost name = label.name@;
                let ghost new_label = label;
                proof {
                    lemma_next_delim(s, pos0 + 1, rest - 1, LABEL_SEP);
                    lemma_find_label_views(old_labels, name);
                }
                let id = match self.try_push_label(label.name, label.position) {
                    Ok(id) => id,
                    Err(e) => {
                        assert(!ok0) by {
                            if ok0 {
                                assert(scanned(s, pos0, labels0, size0, p.0, p.1));
                            }
                        }
                        return Err(e);
                    },
                };
                proof {
                    lemma_find_label_none(old_labels, name);
                    lemma_next_delim(s, pos0 + 1, rest - 1, LABEL_SEP);
                }
                elems.push(Elem::Label(id));
                assert(elems@.drop_last() =~= old_elems);
                pos = rest;
                let ghost name_view = (s.subrange(pos0 + 1, pos - 1), size0 as u32);
                assert(label_views(self.labels@) =~= labels0.push(name_view));
                proof {
                    if ok0 {
                        assert(scanned(s, pos0, labels0, size0, p.0, p.1));
                        assert(next_delim(s, pos0 + 1, LABEL_SEP) == pos - 1);
                        assert(scanned_rest(s, pos as int, pos0, labels0.push(name_view), size0, p.0.drop_first(), p.1));
                        let q = (p.0.drop_first(), p.1);
                        assert(scanned(s, pos as int, label_views(self.labels@), size0, q.0, q.1));
                    }
                }
                assert forall|r: Seq<Elem>, l: Seq<(Seq<char>, u32)>| #[trigger] scanned(s, pos as int, label_views(self.labels@), size0, r, l)
                    implies scanned(s, 0, Seq::empty(), 0, elems@ + r, l) by {
                    let r0 = seq![Elem::Label(id)] + r;
                    assert(r0.drop_first() =~= r);
                    let e = next_delim(s, pos0 + 1, LABEL_SEP);
                    assert(e == pos - 1);
                    assert(s[pos0] == LABEL_SEP && !is_blank(s[pos0]) && s[pos0] != '#');
                    assert(find_name(labels0, s.subrange(pos0 + 1, e)) is None);
                    assert(scanned_rest(s, e + 1, pos0, labels0.push(name_view), size0, r0.drop_first(), l));
                    assert(scanned(s, pos0, labels0, size0, r0, l));
                    assert(old_elems + r0 =~= elems@ + r);
                }
            } else {
                let parsed = self.parse_op(&src, pos);
                let (op, rest) = match parsed {
                    Ok(x) => x,
                    Err(e) => {
                        assert(!ok0) by {
                            if ok0 {
                                assert(scanned(s, pos0, labels0, size0, p.0, p.1));
                                let e1 = next_delim(s, pos0, STATEMENT_SEP);
                                lemma_next_delim_found(s, pos0, STATEMENT_SEP);
                                let spans1 = choose|spans: Seq<(usize, usize)>| #[trigger] is_word_split(s, pos0, e1, spans) && statement_read(s, spans, Ok(p.0[0]->Op_0));
                                assert(s[e1] == STATEMENT_SEP);
                                let (e2, spans2) = choose|e: int, spans: Seq<(usize, usize)>| {
                                    &&& first_at(s, pos0, e, STATEMENT_SEP)
                                    &&& #[trigger] is_word_split(s, pos0, e, spans)
                                    &&& statement_read(s, spans, statement_outcome(parsed))
                                };
                                lemma_first_at_unique(s, pos0, e1, e2, STATEMENT_SEP);
                                lemma_word_split_unique(s, pos0, e1, spans1, spans2);
                                lemma_statement_read_exclusive(s, spans1, e.kind, p.0[0]->Op_0);
                            }
                        }
                        proof {
                            if exists|k: int| pos0 <= k < s.len() && s[k] == STATEMENT_SEP {
                                let (e2, spans2) = choose|e: int, spans: Seq<(usize, usize)>| {
                                    &&& first_at(s, pos0, e, STATEMENT_SEP)
                                    &&& #[trigger] is_word_split(s, pos0, e, spans)
                                    &&& statement_read(s, spans, statement_outcome(parsed))
                                };
                                lemma_statement_error_kind(s, spans2, e.kind);
                            }
                        }
                        return Err(e);
                    },
                };
                proof {
                    lemma_statement_wf(src@, pos as int, op);
                }
                let ghost new_op = op;
                let ghost pair = choose|pair: (int, Seq<(usize, usize)>)| {
                    &&& first_at(s, pos0, pair.0, STATEMENT_SEP)
                    &&& #[trigger] is_word_split(s, pos0, pair.0, pair.1)
                    &&& statement_read(s, pair.1, statement_outcome(Ok::<(Op, usize), AssembleError>((op, rest))))
                };
                let ghost spans = pair.1;
                proof {
                    let (e0, sp0) = choose|e: int, spans: Seq<(usize, usize)>| {
                        &&& first_at(s, pos0, e, STATEMENT_SEP)
                        &&& #[trigger] is_word_split(s, pos0, e, spans)
                        &&& statement_read(s, spans, statement_outcome(Ok::<(Op, usize), AssembleError>((op, rest))))
                    };
                    assert(first_at(s, pos0, (e0, sp0).0, STATEMENT_SEP) && is_word_split(s, pos0, (e0, sp0).0, (e0, sp0).1));
                    lemma_next_delim(s, pos0, rest - 1, STATEMENT_SEP);
                    lemma_first_at_unique(s, pos0, pair.0, rest - 1, STATEMENT_SEP);
                }
                assert(is_word_split(s, pos0, rest - 1, spans) && statement_read(s, spans, Ok(new_op)));
                proof {
                    if ok0 {
                        assert(scanned(s, pos0, labels0, size0, p.0, p.1));
                        let op2 = p.0[0]->Op_0;
                        let spans2 = choose|sp: Seq<(usize, usize)>| #[trigger] is_word_split(s, pos0, rest - 1, sp) && statement_read(s, sp, Ok(op2));
                        lemma_word_split_unique(s, pos0, rest - 1, spans, spans2);
                        lemma_statement_read_size(s, spans, new_op, op2);
                        assert(next_delim(s, pos0, STATEMENT_SEP) == rest - 1);
                        assert(scanned_rest(s, rest as int, pos0, labels0, size0 + op2.spec_size(), p.0.drop_first(), p.1));
                        let q = (p.0.drop_first(), p.1);
                        assert(scanned(s, rest as int, labels0, size0 + new_op.spec_size(), q.0, q.1));
                    }
                }
                let size = op.size_bytes();
                self.op_size_bytes = self.op_size_bytes + size;
                elems.push(Elem::Op(op));
                self.op_count = self.op_count + 1;
                assert(elems@.drop_last() =~= old_elems);
                pos = rest;
                assert forall|r: Seq<Elem>, l: Seq<(Seq<char>, u32)>| #[trigger] scanned(s, pos as int, labels0, size0 + new_op.spec_size(), r, l)
                    implies scanned(s, 0, Seq::empty(), 0, elems@ + r, l) by {
                    let r0 = seq![Elem::Op(new_op)] + r;
                    assert(r0.drop_first() =~= r);
                    let e = next_delim(s, pos0, STATEMENT_SEP);
                    assert(e == pos - 1);
                    assert(s[pos0] != '#' && s[pos0] != LABEL_SEP && !is_blank(s[pos0]));
                    assert(is_word_split(s, pos0, e, spans) && statement_read(s, spans, Ok(new_op)));
                    assert(scanned_rest(s, e + 1, pos0, labels0, size0 + new_op.spec_size(), r0.drop_first(), l));
                    assert(scanned(s, pos0, labels0, size0, r0, l));
                    assert(old_elems + r0 =~= elems@ + r);
                }
            }
        }
        assert(scanned(src@, pos as int, label_views(self.labels@), self.op_size_bytes as nat, Seq::empty(), label_views(self.labels@)));
        assert(elems@ + Seq::<Elem>::empty() =~= elems@);
        Ok(elems)
    }

    /// Reads a label definition `NAME:` (the leading `:` already consumed);
    /// the label stands at the current code offset.
    pub fn parse_label(&self, src: &Source, start: usize) -> (r: Result<(Label, usize), AssembleError>)
        requires
            src.wf(),
            start <= src@.len(),
        ensures
            r is Err <==> forall|k: int| start <= k < src@.len() ==> src@[k] != LABEL_SEP,
            r matches Err(e) ==> e.kind == AssembleErrorKind::MissingDelimiter && e.line == self.line,
            r matches Ok((label, rest)) ==> {
                &&& first_at(src@, start as int, rest - 1, LABEL_SEP)
                &&& label.name@ == src@.subrange(start as int, rest - 1)
                &&& label.position == self.op_size_bytes as u32
            },
    {
        let out = self.slice_until(src, start, LABEL_SEP)?;
        let name = src.substring(out.word_start, out.word_end);
        Ok((Label { name, position: self.op_size_bytes as u32 }, out.rest))
    }
}

/// A statement that reads without error is an instruction of the catalog
/// with the operand the catalog gives it.
proof fn lemma_statement_wf(s: Seq<char>, start: int, op: Op)
    requires
        exists|e: int, spans: Seq<(usize, usize)>| {
            &&& first_at(s, start, e, STATEMENT_SEP)
            &&& #[trigger] is_word_split(s, start, e, spans)
            &&& statement_read(s, spans, Ok(op))
        },
    ensures
        op.wf(),
{
    let (e, spans) = choose|e: int, spans: Seq<(usize, usize)>| {
        &&& first_at(s, start, e, STATEMENT_SEP)
        &&& #[trigger] is_word_split(s, start, e, spans)
        &&& statement_read(s, spans, Ok(op))
    };
    lemma_mnemonic_known(word_at(s, spans, 0));
}

/// `next_delim` finds the first delimiter.
pub proof fn lemma_next_delim(s: Seq<char>, from: int, e: int, c: char)
    requires
        0 <= from,
        first_at(s, from, e, c),
    ensures
        next_delim(s, from, c) == e,
    decreases e - from,
{
    if from < e {
        lemma_next_delim(s, from + 1, e, c);
    }
}

/// There is one first delimiter.
pub proof fn lemma_first_at_unique(s: Seq<char>, from: int, e1: int, e2: int, c: char)
    requires
        first_at(s, from, e1, c),
        first_at(s, from, e2, c),
    ensures
        e1 == e2,
{
}

/// Words of a split come in order: each ends before the next begins.
proof fn lemma_word_split_ordered(s: Seq<char>, from: int, to: int, spans: Seq<(usize, usize)>, i: int, j: int)
    requires
        is_word_split(s, from, to, spans),
        0 <= i < j < spans.len(),
    ensures
        spans[i].1 <= spans[j].0,
    decreases j - i,
{
    reveal(is_word_split);
    if i + 1 < j {
        lemma_word_split_ordered(s, from, to, spans, i + 1, j);
    }
}

/// The first word of a split is the first run of non-white characters,
/// and the other words split the rest.
proof fn lemma_word_split_first(s: Seq<char>, from: int, to: int, a: Seq<(usize, usize)>, b: Seq<(usize, usize)>)
    requires
        is_word_split(s, from, to, a),
        is_word_split(s, from, to, b),
        a.len() > 0,
    ensures
        b.len() > 0,
        a[0] == b[0],
        is_word_split(s, a[0].1 as int, to, a.drop_first()),
        is_word_split(s, a[0].1 as int, to, b.drop_first()),
{
    reveal(is_word_split);
    let k = a[0].0 as int;
    assert(!is_white_space(s[k]));
    let jb = choose|j: int| 0 <= j < b.len() && b[j].0 <= k < #[trigger] b[j].1;
    assert(b.len() > 0);
    if b[0].0 < a[0].0 {
        let kb = b[0].0 as int;
        assert(!is_white_space(s[kb]));
        let ja = choose|j: int| 0 <= j < a.len() && a[j].0 <= kb < #[trigger] a[j].1;
        if ja > 0 {
            lemma_word_split_ordered(s, from, to, a, 0, ja);
        }
    } else if a[0].0 < b[0].0 {
        if jb > 0 {
            lemma_word_split_ordered(s, from, to, b, 0, jb);
        }
    }
    assert(a[0].0 == b[0].0);
    if a[0].1 < b[0].1 {
        assert(!is_white_space(s[a[0].1 as int]));
    } else if b[0].1 < a[0].1 {
        assert(!is_white_space(s[b[0].1 as int]));
    }
    assert(a[0] == b[0]);
    lemma_word_split_tail(s, from, to, a);
    lemma_word_split_tail(s, from, to, b);
}

/// The words after the first split the text after it.
proof fn lemma_word_split_tail(s: Seq<char>, from: int, to: int, a: Seq<(usize, usize)>)
    requires
        is_word_split(s, from, to, a),
        a.len() > 0,
    ensures
        is_word_split(s, a[0].1 as int, to, a.drop_first()),
{
    let t = a.drop_first();
    let start = a[0].1 as int;
    assert forall|j: int| 0 <= j < t.len() implies start <= #[trigger] t[j].0 < t[j].1 <= to by {
        lemma_word_split_ordered(s, from, to, a, 0, j + 1);
        reveal(is_word_split);
        assert(t[j] == a[j + 1]);
    }
    reveal(is_word_split);
    assert(from <= a[0].0 < a[0].1);
    assert forall|k: int| start <= k < to && !is_white_space(s[k]) implies exists|j: int| 0 <= j < t.len() && t[j].0 <= k < #[trigger] t[j].1 by {
        assert(from <= k < to);
        assert(exists|j: int| 0 <= j < a.len() && a[j].0 <= k < #[trigger] a[j].1);
        let j = choose|j: int| 0 <= j < a.len() && a[j].0 <= k < #[trigger] a[j].1;
        assert(j != 0);
        assert(t[j - 1] == a[j]);
        assert(t[j - 1].0 <= k < t[j - 1].1);
    }
    assert forall|j: int, k: int| #![trigger t[j], s[k]] 0 <= j < t.len() && t[j].0 <= k < t[j].1 implies !is_white_space(s[k]) by {
        assert(t[j] == a[j + 1]);
    }
    assert forall|j: int| 0 <= j < t.len() implies (#[trigger] t[j].1 == to || is_white_space(s[t[j].1 as int])) by {
        assert(t[j] == a[j + 1]);
    }
    assert forall|j: int| 0 < j < t.len() implies t[j - 1].1 <= #[trigger] t[j].0 by {
        assert(t[j] == a[j + 1]);
        assert(t[j - 1] == a[j]);
    }
}

/// A text has one split into words.
pub proof fn lemma_word_split_unique(s: Seq<char>, from: int, to: int, a: Seq<(usize, usize)>, b: Seq<(usize, usize)>)
    requires
        is_word_split(s, from, to, a),
        is_word_split(s, from, to, b),
    ensures
        a == b,
    decreases a.len(),
{
    if a.len() == 0 {
        if b.len() > 0 {
            lemma_word_split_first(s, from, to, b, a);
        }
        assert(a =~= b);
    } else {
        lemma_word_split_first(s, from, to, a, b);
        lemma_word_split_unique(s, a[0].1 as int, to, a.drop_first(), b.drop_first());
        assert(a =~= seq![a[0]] + a.drop_first());
        assert(b =~= seq![b[0]] + b.drop_first());
    }
}

/// An operand text reads one way: as a failure or as an operand.
proof fn lemma_operand_read_exclusive(kind: OperandKind, w: Seq<char>, k: AssembleErrorKind, a: ArgType)
    requires
        operand_read(kind, w, Err(k)),
    ensures
        !operand_read(kind, w, Ok(a)),
{
}

/// A statement reads one way: as a failure or as an instruction.
proof fn lemma_statement_read_exclusive(s: Seq<char>, spans: Seq<(usize, usize)>, k: AssembleErrorKind, op: Op)
    requires
        statement_read(s, spans, Err(k)),
    ensures
        !statement_read(s, spans, Ok(op)),
{
    if spans.len() >= 2 && statement_read(s, spans, Ok(op)) && mnemonic(word_at(s, spans, 0)) is Some {
        let opc = mnemonic(word_at(s, spans, 0))->0;
        if let Some(kind) = operand_kind_of(opc) {
            let a1 = choose|a: Result<ArgType, AssembleErrorKind>| {
                &&& #[trigger] operand_read(kind, word_at(s, spans, 1), a)
                &&& match a {
                    Err(e) => Err::<Op, AssembleErrorKind>(k) == Err::<Op, AssembleErrorKind>(e),
                    Ok(arg) => if spans.len() > 2 {
                        Err::<Op, AssembleErrorKind>(k) == Err::<Op, AssembleErrorKind>(AssembleErrorKind::TooManyArguments)
                    } else {
                        Err::<Op, AssembleErrorKind>(k) == Ok::<Op, AssembleErrorKind>(Op { opcode: opc, arg: Some(arg) })
                    },
                }
            };
            let a2 = choose|a: Result<ArgType, AssembleErrorKind>| {
                &&& #[trigger] operand_read(kind, word_at(s, spans, 1), a)
                &&& match a {
                    Err(e) => Ok::<Op, AssembleErrorKind>(op) == Err::<Op, AssembleErrorKind>(e),
                    Ok(arg) => if spans.len() > 2 {
                        Ok::<Op, AssembleErrorKind>(op) == Err::<Op, AssembleErrorKind>(AssembleErrorKind::TooManyArguments)
                    } else {
                        Ok::<Op, AssembleErrorKind>(op) == Ok::<Op, AssembleErrorKind>(Op { opcode: opc, arg: Some(arg) })
                    },
                }
            };
            if let Err(e1) = a1 {
                if let Ok(x) = a2 {
                    lemma_operand_read_exclusive(kind, word_at(s, spans, 1), e1, x);
                }
            }
        }
    }
}

/// A statement never fails for an unknown label: labels are resolved later.
proof fn lemma_statement_error_kind(s: Seq<char>, spans: Seq<(usize, usize)>, k: AssembleErrorKind)
    requires
        statement_read(s, spans, Err(k)),
    ensures
        !(k is UnknownLabel),
{
    if spans.len() >= 2 && mnemonic(word_at(s, spans, 0)) is Some {
        let opc = mnemonic(word_at(s, spans, 0))->0;
        if let Some(kind) = operand_kind_of(opc) {
            let a1 = choose|a: Result<ArgType, AssembleErrorKind>| {
                &&& #[trigger] operand_read(kind, word_at(s, spans, 1), a)
                &&& match a {
                    Err(e) => Err::<Op, AssembleErrorKind>(k) == Err::<Op, AssembleErrorKind>(e),
                    Ok(arg) => if spans.len() > 2 {
                        Err::<Op, AssembleErrorKind>(k) == Err::<Op, AssembleErrorKind>(AssembleErrorKind::TooManyArguments)
                    } else {
                        Err::<Op, AssembleErrorKind>(k) == Ok::<Op, AssembleErrorKind>(Op { opcode: opc, arg: Some(arg) })
                    },
                }
            };
        }
    }
}

/// Two instructions that a statement reads as are of one size.
proof fn lemma_statement_read_size(s: Seq<char>, spans: Seq<(usize, usize)>, o1: Op, o2: Op)
    requires
        statement_read(s, spans, Ok(o1)),
        statement_read(s, spans, Ok(o2)),
    ensures
        o1.spec_size() == o2.spec_size(),
{
    let opc = mnemonic(word_at(s, spans, 0))->0;
    assert(o1.opcode == opc && o2.opcode == opc);
    if let Some(kind) = operand_kind_of(opc) {
        let a1 = choose|a: Result<ArgType, AssembleErrorKind>| {
            &&& #[trigger] operand_read(kind, word_at(s, spans, 1), a)
            &&& match a {
                Err(e) => Ok::<Op, AssembleErrorKind>(o1) == Err::<Op, AssembleErrorKind>(e),
                Ok(arg) => if spans.len() > 2 {
                    Ok::<Op, AssembleErrorKind>(o1) == Err::<Op, AssembleErrorKind>(AssembleErrorKind::TooManyArguments)
                } else {
                    Ok::<Op, AssembleErrorKind>(o1) == Ok::<Op, AssembleErrorKind>(Op { opcode: opc, arg: Some(arg) })
                },
            }
        };
        let a2 = choose|a: Result<ArgType, AssembleErrorKind>| {
            &&& #[trigger] operand_read(kind, word_at(s, spans, 1), a)
            &&& match a {
                Err(e) => Ok::<Op, AssembleErrorKind>(o2) == Err::<Op, AssembleErrorKind>(e),
                Ok(arg) => if spans.len() > 2 {
                    Ok::<Op, AssembleErrorKind>(o2) == Err::<Op, AssembleErrorKind>(AssembleErrorKind::TooManyArguments)
                } else {
                    Ok::<Op, AssembleErrorKind>(o2) == Ok::<Op, AssembleErrorKind>(Op { opcode: opc, arg: Some(arg) })
                },
            }
        };
        assert(opt_arg_kind(o1.arg) == Some(kind));
        assert(opt_arg_kind(o2.arg) == Some(kind));
    }
}

/// When `next_delim` stops short of the end, it stands on the first delimiter.
proof fn lemma_next_delim_found(s: Seq<char>, from: int, c: char)
    requires
        0 <= from,
        next_delim(s, from, c) < s.len(),
    ensures
        first_at(s, from, next_delim(s, from, c), c),
    decreases s.len() - from,
{
    if from < s.len() && s[from] != c {
        lemma_next_delim_found(s, from + 1, c);
    }
}

/// Without the delimiter, `next_delim` runs to the end.
proof fn lemma_next_delim_none(s: Seq<char>, from: int, c: char)
    requires
        0 <= from <= s.len(),
        forall|k: int| from <= k < s.len() ==> s[k] != c,
    ensures
        next_delim(s, from, c) == s.len(),
    decreases s.len() - from,
{
    if from < s.len() {
        lemma_next_delim_none(s, from + 1, c);
    }
}

/// A scan over blanks goes on after them.
proof fn lemma_skip_blanks_forward(s: Seq<char>, pos: int, j: int, labels: Seq<(Seq<char>, u32)>, size: nat, elems: Seq<Elem>, labels_after: Seq<(Seq<char>, u32)>)
    requires
        0 <= pos <= j <= s.len(),
        forall|k: int| pos <= k < j ==> is_blank(s[k]),
        scanned(s, pos, labels, size, elems, labels_after),
    ensures
        scanned(s, j, labels, size, elems, labels_after),
    decreases j - pos,
{
    if pos < j {
        lemma_skip_blanks_forward(s, pos + 1, j, labels, size, elems, labels_after);
    }
}

/// Looking a label up by name sees only the names and positions.
pub proof fn lemma_find_label_views(labels: Seq<Label>, name: Seq<char>)
    ensures
        find_label(labels, name) == find_name(label_views(labels), name),
    decreases labels.len(),
{
    if labels.len() > 0 {
        lemma_find_label_views(labels.drop_first(), name);
        assert(label_views(labels.drop_first()) =~= label_views(labels).drop_first());
    }
}

/// Blanks before a scan change nothing.
pub proof fn lemma_skip_blanks(s: Seq<char>, pos: int, j: int, labels: Seq<(Seq<char>, u32)>, size: nat, elems: Seq<Elem>, labels_after: Seq<(Seq<char>, u32)>)
    requires
        0 <= pos <= j <= s.len(),
        forall|k: int| pos <= k < j ==> is_blank(s[k]),
        scanned(s, j, labels, size, elems, labels_after),
    ensures
        scanned(s, pos, labels, size, elems, labels_after),
    decreases j - pos,
{
    if pos < j {
        lemma_skip_blanks(s, pos + 1, j, labels, size, elems, labels_after);
    }
}

/// A label that is not found has a name unlike every label's.
pub proof fn lemma_find_label_none(labels: Seq<Label>, name: Seq<char>)
    requires
        find_label(labels, name) is None,
    ensures
        forall|i: int| 0 <= i < labels.len() ==> labels[i].name@ != name,
    decreases labels.len(),
{
    if labels.len() > 0 {
        lemma_find_label_none(labels.drop_first(), name);
        assert forall|i: int| 0 <= i < labels.len() implies labels[i].name@ != name by {
            if i > 0 {
                assert(labels[i] == labels.drop_first()[i - 1]);
            }
        }
    }
}

} // verus!

