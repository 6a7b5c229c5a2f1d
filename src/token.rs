//! The selection language as a token sequence, the shape in which the macro
//! host hands it over.
use vstd::prelude::*;

verus! {

/// How a group is delimited.
#[derive(Clone, Copy, Debug, PartialEq, Eq, Structural)]
pub enum Delimiter {
    Parenthesis,
    Brace,
    Bracket,
    /// An invisible group, as macro expansion makes them.
    Invisible,
}

/// One token tree of the selection language.
#[derive(Debug)]
pub enum Token {
    Ident(String),
    Punct(char),
    /// A literal as written, quotes and escapes included.
    Literal(String),
    Group(Delimiter, Vec<Token>),
}

/// Whether the host accepts `s` as a plain identifier (keywords are not).
pub uninterp spec fn accepted_ident(s: Seq<char>) -> bool;

/// The value of a string literal written as `text`, if it is one.
pub uninterp spec fn string_literal_value(text: Seq<char>) -> Option<Seq<char>>;

/// Relies on syn's `Ident` parser: whether `s` parses as an identifier that
/// is not a keyword.
#[verifier::external_body]
pub(crate) fn ident_accepted(s: &str) -> (r: bool)
    ensures
        r == accepted_ident(s@),
{
    syn::parse_str::<syn::Ident>(s).is_ok()
}

/// Relies on syn's `LitStr` parser and `LitStr::value`: the value of the
/// string literal written as `text`, or nothing when it is not one.
#[verifier::external_body]
pub(crate) fn literal_string(text: &str) -> (r: Option<String>)
    ensures
        match r {
            Some(v) => string_literal_value(text@) == Some(v@),
            None => string_literal_value(text@) is None,
        },
{
    syn::parse_str::<syn::LitStr>(text).ok().map(|l| l.value())
}

/// Where a selection is malformed, and what was expected there.
#[derive(Clone, Copy, Debug, PartialEq, Eq, Structural)]
pub enum SyntaxErrorKind {
    /// The input ended where a pattern should start.
    ExpectedPattern,
    ExpectedIdent,
    /// A block does not start with a bracketed header.
    ExpectedHeader,
    /// A header does not hold an identifier.
    ExpectedHeaderName,
    /// A header holds more than its identifier.
    UnexpectedToken,
    /// An alias lacks its `=`.
    ExpectedEquals,
}

/// A syntax error at a token position.
#[derive(Clone, Copy, Debug, PartialEq, Eq, Structural)]
pub struct SyntaxError {
    /// The index of the offending token in the sequence being parsed.
    pub position: usize,
    pub kind: SyntaxErrorKind,
}

pub open spec fn punct_at(toks: Seq<Token>, pos: int, c: char) -> bool {
    &&& 0 <= pos < toks.len()
    &&& toks[pos] is Punct
    &&& toks[pos]->Punct_0 == c
}

/// The identifier at `pos`, when it is an accepted one.
pub open spec fn ident_at(toks: Seq<Token>, pos: int) -> Option<Seq<char>> {
    if 0 <= pos < toks.len() && toks[pos] is Ident && accepted_ident(toks[pos]->Ident_0@) {
        Some(toks[pos]->Ident_0@)
    } else {
        None
    }
}

pub fn is_punct(toks: &Vec<Token>, pos: usize, c: char) -> (r: bool)
    ensures
        r == punct_at(toks@, pos as int, c),
{
    if pos < toks.len() {
        match &toks[pos] {
            Token::Punct(p) => *p == c,
            _ => false,
        }
    } else {
        false
    }
}

pub fn ident_token(toks: &Vec<Token>, pos: usize) -> (r: Option<String>)
    ensures
        match r {
            Some(s) => ident_at(toks@, pos as int) == Some(s@),
            None => ident_at(toks@, pos as int) is None,
        },
{
    if pos < toks.len() {
        match &toks[pos] {
            Token::Ident(s) => if ident_accepted(s.as_str()) {
                Some(s.clone())
            } else {
                None
            },
            _ => None,
        }
    } else {
        None
    }
}

} // verus!
