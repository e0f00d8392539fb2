//! Cutting statement text into tokens.
//!
//! A statement is read as characters. Blanks separate tokens and are otherwise
//! ignored. A token is a comma, an unsigned decimal number, a positional
//! parameter (`$` and a positive number) or a word: a letter or underscore
//! followed by letters, digits, underscores and dots.

use vstd::prelude::*;
use vstd::string::StringExecFns;
use crate::text::{decimal, push_decimal};

verus! {

/// Why a statement was turned down.
#[derive(Clone, Copy, Debug, PartialEq, Eq, Structural)]
pub enum CompileCause {
    /// The text holds no token at all.
    EmptyStatement,
    /// A character that begins no token.
    UnexpectedCharacter,
    /// A number literal above the largest signed 64-bit number.
    NumberTooLarge,
    /// `$` without a number from 1 to 65535 behind it.
    BadParameter,
    /// The statement does not begin with `SELECT`.
    ExpectedSelect,
    /// A column was expected.
    ExpectedItem,
    /// The name of a data source was expected behind `FROM`.
    ExpectedTarget,
    /// A row count was expected behind `LIMIT`.
    ExpectedCount,
    /// The statement is complete and more text follows.
    TrailingInput,
    /// A column names a field and the statement has no source to take it from.
    UnresolvedIdentifier,
    /// The parameters bound are not as many as the statement uses.
    ParameterCount,
}

/// A statement that does not compile: the cause, and the index of the
/// character at which it was found.
#[derive(Clone, Copy, Debug, PartialEq, Eq, Structural)]
pub struct CompileError {
    pub cause: CompileCause,
    pub position: usize,
}

impl CompileCause {
    /// The cause in words.
    pub open spec fn words(self) -> Seq<char> {
        match self {
            CompileCause::EmptyStatement => "statement is empty"@,
            CompileCause::UnexpectedCharacter => "unexpected character"@,
            CompileCause::NumberTooLarge => "number too large"@,
            CompileCause::BadParameter => "malformed parameter"@,
            CompileCause::ExpectedSelect => "expected SELECT"@,
            CompileCause::ExpectedItem => "expected a column"@,
            CompileCause::ExpectedTarget => "expected the name of a source"@,
            CompileCause::ExpectedCount => "expected a row count"@,
            CompileCause::TrailingInput => "unexpected text after the statement"@,
            CompileCause::UnresolvedIdentifier => "field without a source to take it from"@,
            CompileCause::ParameterCount => "wrong number of parameters"@,
        }
    }

    pub fn as_str(self) -> (words: &'static str)
        ensures
            words@ == self.words(),
    {
        match self {
            CompileCause::EmptyStatement => "statement is empty",
            CompileCause::UnexpectedCharacter => "unexpected character",
            CompileCause::NumberTooLarge => "number too large",
            CompileCause::BadParameter => "malformed parameter",
            CompileCause::ExpectedSelect => "expected SELECT",
            CompileCause::ExpectedItem => "expected a column",
            CompileCause::ExpectedTarget => "expected the name of a source",
            CompileCause::ExpectedCount => "expected a row count",
            CompileCause::TrailingInput => "unexpected text after the statement",
            CompileCause::UnresolvedIdentifier => "field without a source to take it from",
            CompileCause::ParameterCount => "wrong number of parameters",
        }
    }
}

impl CompileError {
    /// The error in words: the cause, and the position in decimal.
    pub open spec fn text(self) -> Seq<char> {
        self.cause.words() + " at position "@ + decimal(self.position as nat)
    }

    pub fn message(&self) -> (message: String)
        ensures
            message@ == self.text(),
    {
        let mut message = String::from_str(self.cause.as_str());
        message.append(" at position ");
        push_decimal(&mut message, self.position as u64);
        message
    }
}

/// What a token is, with the number it holds where it holds one.
#[derive(Clone, Copy, Debug, PartialEq, Eq, Structural)]
pub enum TokenKind {
    Word,
    Number(u64),
    Param(u64),
    Comma,
}

/// A token and the characters it covers, `start` included and `end` not.
#[derive(Clone, Copy, Debug, PartialEq, Eq, Structural)]
pub struct Token {
    pub kind: TokenKind,
    pub start: usize,
    pub end: usize,
}

/// The classes of characters that runs are made of.
#[derive(Clone, Copy, Debug, PartialEq, Eq, Structural)]
pub enum CharClass {
    Blank,
    Digit,
    Word,
}

/// The largest number a literal may hold.
pub const NUMBER_MAX: u64 = 0x7fff_ffff_ffff_ffff;

/// The largest index a parameter may have.
pub const PARAM_MAX: u64 = 65535;

pub open spec fn is_blank(c: char) -> bool {
    c == ' ' || c == '\t' || c == '\n' || c == '\r'
}

pub open spec fn is_digit(c: char) -> bool {
    '0' <= c <= '9'
}

pub open spec fn is_word_start(c: char) -> bool {
    ('a' <= c <= 'z') || ('A' <= c <= 'Z') || c == '_'
}

pub open spec fn in_class(class: CharClass, c: char) -> bool {
    match class {
        CharClass::Blank => is_blank(c),
        CharClass::Digit => is_digit(c),
        CharClass::Word => is_word_start(c) || is_digit(c) || c == '.',
    }
}

/// The number a decimal digit stands for.
pub open spec fn digit_value(c: char) -> nat {
    (c as u32 - '0' as u32) as nat
}

/// The first index from `pos` on whose character is not of the class; the
/// length of the text where there is none.
pub open spec fn span_end(s: Seq<char>, pos: int, class: CharClass) -> int
    decreases s.len() - pos,
{
    if 0 <= pos < s.len() && in_class(class, s[pos]) {
        span_end(s, pos + 1, class)
    } else {
        pos
    }
}

/// The number that the digits from `start` up to `end` spell.
pub open spec fn digits_value(s: Seq<char>, start: int, end: int) -> nat
    decreases end - start,
{
    if end <= start {
        0
    } else {
        digits_value(s, start, end - 1) * 10 + digit_value(s[end - 1])
    }
}

/// The token that begins at the first character from `pos` on that is not a
/// blank; `None` where only blanks are left.
pub open spec fn token_at(s: Seq<char>, pos: int) -> Result<Option<Token>, CompileError> {
    let p = span_end(s, pos, CharClass::Blank);
    if p >= s.len() {
        Ok(None)
    } else if s[p] == ',' {
        Ok(Some(Token { kind: TokenKind::Comma, start: p as usize, end: (p + 1) as usize }))
    } else if is_digit(s[p]) {
        let e = span_end(s, p, CharClass::Digit);
        let v = digits_value(s, p, e);
        if v > NUMBER_MAX {
            Err(CompileError { cause: CompileCause::NumberTooLarge, position: p as usize })
        } else {
            Ok(Some(Token { kind: TokenKind::Number(v as u64), start: p as usize, end: e as usize }))
        }
    } else if s[p] == '$' {
        let e = span_end(s, p + 1, CharClass::Digit);
        let v = digits_value(s, p + 1, e);
        if e == p + 1 || v == 0 || v > PARAM_MAX {
            Err(CompileError { cause: CompileCause::BadParameter, position: p as usize })
        } else {
            Ok(Some(Token { kind: TokenKind::Param(v as u64), start: p as usize, end: e as usize }))
        }
    } else if is_word_start(s[p]) {
        let e = span_end(s, p, CharClass::Word);
        Ok(Some(Token { kind: TokenKind::Word, start: p as usize, end: e as usize }))
    } else {
        Err(CompileError { cause: CompileCause::UnexpectedCharacter, position: p as usize })
    }
}

/// The tokens from `pos` on, behind those already found. A token ends
/// behind the place where the search for it began, and inside the text; the
/// test for it is there for texts too long to be held, in which a place may
/// not fit a token.
pub open spec fn tokens_from(s: Seq<char>, pos: int, found: Seq<Token>) -> Result<
    Seq<Token>,
    CompileError,
>
    decreases s.len() - pos,
{
    match token_at(s, pos) {
        Err(e) => Err(e),
        Ok(None) => Ok(found),
        Ok(Some(t)) => if pos < t.end <= s.len() {
            tokens_from(s, t.end as int, found.push(t))
        } else {
            Ok(found.push(t))
        },
    }
}

/// The tokens of a statement, or the first fault in it.
pub open spec fn tokens_of(s: Seq<char>) -> Result<Seq<Token>, CompileError> {
    tokens_from(s, 0, Seq::empty())
}

/// What a token may hold: a number no larger than a literal may be, a
/// parameter index in its range.
pub open spec fn kind_in_range(kind: TokenKind) -> bool {
    match kind {
        TokenKind::Number(v) => v <= NUMBER_MAX,
        TokenKind::Param(k) => 1 <= k <= PARAM_MAX,
        _ => true,
    }
}

/// Tokens lie inside the text, in order, none is empty, and each holds what
/// a token may hold.
pub open spec fn tokens_in_order(tokens: Seq<Token>, len: int) -> bool {
    &&& forall|i: int| 0 <= i < tokens.len() ==> (#[trigger] tokens[i]).start < tokens[i].end <= len
    &&& forall|i: int| 0 <= i < tokens.len() ==> kind_in_range((#[trigger] tokens[i]).kind)
    &&& forall|i: int, j: int|
        0 <= i < j < tokens.len() ==> (#[trigger] tokens[i]).end <= (#[trigger] tokens[j]).start
}

/// A run ends inside the text, holds characters of its class only, and is
/// followed by none.
pub proof fn lemma_span_end_bounds(s: Seq<char>, pos: int, class: CharClass)
    requires
        0 <= pos <= s.len(),
    ensures
        pos <= span_end(s, pos, class) <= s.len(),
        forall|j: int| pos <= j < span_end(s, pos, class) ==> in_class(class, #[trigger] s[j]),
        span_end(s, pos, class) < s.len() ==> !in_class(class, s[span_end(s, pos, class)]),
    decreases s.len() - pos,
{
    if pos < s.len() && in_class(class, s[pos]) {
        lemma_span_end_bounds(s, pos + 1, class);
    }
}

/// A span that is known to hold up to `mid` ends where the span from `mid` ends.
pub proof fn lemma_span_end_step(s: Seq<char>, pos: int, mid: int, class: CharClass)
    requires
        0 <= pos <= mid <= s.len(),
        forall|j: int| pos <= j < mid ==> in_class(class, #[trigger] s[j]),
    ensures
        span_end(s, pos, class) == span_end(s, mid, class),
    decreases mid - pos,
{
    if pos < mid {
        lemma_span_end_step(s, pos + 1, mid, class);
    }
}

/// More digits never spell a smaller number.
pub proof fn lemma_digits_value_grows(s: Seq<char>, start: int, mid: int, end: int)
    requires
        start <= mid <= end,
    ensures
        digits_value(s, start, mid) <= digits_value(s, start, end),
    decreases end - mid,
{
    if mid < end {
        lemma_digits_value_grows(s, start, mid, end - 1);
    }
}

impl CharClass {
    pub fn holds(self, c: char) -> (b: bool)
        ensures
            b == in_class(self, c),
    {
        match self {
            CharClass::Blank => c == ' ' || c == '\t' || c == '\n' || c == '\r',
            CharClass::Digit => '0' <= c && c <= '9',
            CharClass::Word => ('a' <= c && c <= 'z') || ('A' <= c && c <= 'Z') || c == '_' || (
            '0' <= c && c <= '9') || c == '.',
        }
    }
}

/// The characters of a text, in order.
pub fn chars_of(text: &str) -> (chars: Vec<char>)
    ensures
        chars@ == text@,
{
    let mut chars: Vec<char> = Vec::new();
    for c in it: text.chars()
        invariant
            chars@ == it.seq().take(it.index() as int),
    {
        chars.push(c);
    }
    chars
}

/// Where the run of characters of one class that begins at `pos` ends.
fn scan(chars: &Vec<char>, pos: usize, class: CharClass) -> (end: usize)
    requires
        pos <= chars.len(),
    ensures
        end == span_end(chars@, pos as int, class),
        pos <= end <= chars.len(),
{
    let mut i: usize = pos;
    while i < chars.len() && class.holds(chars[i])
        invariant
            pos <= i <= chars.len(),
            forall|j: int| pos <= j < i ==> in_class(class, #[trigger] chars@[j]),
        decreases chars.len() - i,
    {
        i = i + 1;
    }
    proof {
        lemma_span_end_step(chars@, pos as int, i as int, class);
    }
    i
}

/// The number that the digits from `start` up to `end` spell, unless it
/// passes `max`.
fn read_number(chars: &Vec<char>, start: usize, end: usize, max: u64) -> (value: Option<u64>)
    requires
        start <= end <= chars.len(),
        forall|j: int| start <= j < end ==> is_digit(#[trigger] chars@[j]),
        max <= NUMBER_MAX,
    ensures
        value == if digits_value(chars@, start as int, end as int) <= max {
            Some(digits_value(chars@, start as int, end as int) as u64)
        } else {
            None
        },
{
    let mut acc: u64 = 0;
    let mut i: usize = start;
    while i < end
        invariant
            start <= i <= end <= chars.len(),
            forall|j: int| start <= j < end ==> is_digit(#[trigger] chars@[j]),
            acc == digits_value(chars@, start as int, i as int),
            acc <= max <= NUMBER_MAX,
        decreases end - i,
    {
        let c: char = chars[i];
        assert(is_digit(chars@[i as int]));
        let d: u64 = (c as u32 - '0' as u32) as u64;
        assert(d == digit_value(c));
        assert(digits_value(chars@, start as int, i + 1) == acc * 10 + d);
        if d > max || acc > (max - d) / 10 {
            proof {
                lemma_digits_value_grows(chars@, start as int, i + 1, end as int);
            }
            return None;
        }
        acc = acc * 10 + d;
        i = i + 1;
    }
    Some(acc)
}

/// The next token from `pos` on.
fn next_token(chars: &Vec<char>, pos: usize) -> (found: Result<Option<Token>, CompileError>)
    requires
        pos <= chars.len(),
    ensures
        found == token_at(chars@, pos as int),
        found matches Ok(Some(t)) ==> pos <= t.start < t.end <= chars.len() && kind_in_range(
            t.kind,
        ),
{
    let p = scan(chars, pos, CharClass::Blank);
    if p >= chars.len() {
        return Ok(None);
    }
    let c: char = chars[p];
    if c == ',' {
        Ok(Some(Token { kind: TokenKind::Comma, start: p, end: p + 1 }))
    } else if CharClass::Digit.holds(c) {
        let e = scan(chars, p, CharClass::Digit);
        proof {
            lemma_span_end_bounds(chars@, p as int, CharClass::Digit);
            lemma_span_end_bounds(chars@, p + 1, CharClass::Digit);
        }
        match read_number(chars, p, e, NUMBER_MAX) {
            Some(v) => Ok(Some(Token { kind: TokenKind::Number(v), start: p, end: e })),
            None => Err(CompileError { cause: CompileCause::NumberTooLarge, position: p }),
        }
    } else if c == '$' {
        let e = scan(chars, p + 1, CharClass::Digit);
        proof {
            lemma_span_end_bounds(chars@, p + 1, CharClass::Digit);
        }
        match read_number(chars, p + 1, e, PARAM_MAX) {
            Some(v) => if e == p + 1 || v == 0 {
                Err(CompileError { cause: CompileCause::BadParameter, position: p })
            } else {
                Ok(Some(Token { kind: TokenKind::Param(v), start: p, end: e }))
            },
            None => Err(CompileError { cause: CompileCause::BadParameter, position: p }),
        }
    } else if ('a' <= c && c <= 'z') || ('A' <= c && c <= 'Z') || c == '_' {
        let e = scan(chars, p, CharClass::Word);
        proof {
            lemma_span_end_bounds(chars@, p + 1, CharClass::Word);
        }
        Ok(Some(Token { kind: TokenKind::Word, start: p, end: e }))
    } else {
        Err(CompileError { cause: CompileCause::UnexpectedCharacter, position: p })
    }
}

/// The tokens of a statement, or the first fault in it.
pub fn tokenize(chars: &Vec<char>) -> (found: Result<Vec<Token>, CompileError>)
    ensures
        found matches Ok(tokens) ==> tokens_of(chars@) == Ok::<Seq<Token>, CompileError>(tokens@)
            && tokens_in_order(tokens@, chars.len() as int),
        found matches Err(e) ==> tokens_of(chars@) == Err::<Seq<Token>, CompileError>(e),
{
    let mut tokens: Vec<Token> = Vec::new();
    let mut pos: usize = 0;
    loop
        invariant
            pos <= chars.len(),
            tokens_of(chars@) == tokens_from(chars@, pos as int, tokens@),
            tokens_in_order(tokens@, pos as int),
        decreases chars.len() - pos,
    {
        match next_token(chars, pos) {
            Err(e) => {
                return Err(e);
            },
            Ok(None) => {
                return Ok(tokens);
            },
            Ok(Some(t)) => {
                tokens.push(t);
                pos = t.end;
            },
        }
    }
}

} // verus!
