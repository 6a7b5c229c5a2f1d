//! Turning document keys into identifiers, and back for comment lookup.
use vstd::prelude::*;
use crate::text::{chars_of, replace_char, replace_chars, string_of};

verus! {

/// The name and path of the document's top level.
pub const ROOT: &'static str = "";

/// `s` without one pair of surrounding double quotes, when it has them.
pub open spec fn unquoted(s: Seq<char>) -> Seq<char> {
    if s.len() >= 2 && s[0] == '"' && s.last() == '"' {
        s.subrange(1, s.len() - 1)
    } else {
        s
    }
}

pub open spec fn snake_of(s: Seq<char>) -> Seq<char> {
    replace_char(s, '-', '_')
}

pub open spec fn kebab_of(s: Seq<char>) -> Seq<char> {
    replace_char(s, '_', '-')
}

/// A key as an identifier: quotes stripped, dashes made underscores; the
/// empty result is the root's name.
pub open spec fn ident_of(s: Seq<char>) -> Seq<char> {
    snake_of(unquoted(s))
}

/// Converts a document key into an identifier (see `ident_of`).
pub fn to_valid_ident(input: &str) -> (r: String)
    ensures
        r@ == ident_of(input@),
{
    let cs = chars_of(input);
    let n = cs.len();
    let inner = if n >= 2 && cs[0] == '"' && cs[n - 1] == '"' {
        crate::text::slice_chars(&cs, 1, n - 1)
    } else {
        cs
    };
    string_of(&replace_chars(&inner, '-', '_'))
}

/// Replaces every `-` with `_`.
pub fn kebab_to_snake(input: &str) -> (r: String)
    ensures
        r@ == snake_of(input@),
{
    string_of(&replace_chars(&chars_of(input), '-', '_'))
}

/// Replaces every `_` with `-`.
pub fn snake_to_kebab(input: &str) -> (r: String)
    ensures
        r@ == kebab_of(input@),
{
    string_of(&replace_chars(&chars_of(input), '_', '-'))
}

/// Normalising dashes to underscores keeps the length, and turning the
/// underscores back into dashes restores any key that had no underscore.
pub proof fn lemma_snake_kebab_round_trip(s: Seq<char>)
    ensures
        snake_of(s).len() == s.len(),
        (forall|i: int| 0 <= i < s.len() ==> s[i] != '_') ==> kebab_of(snake_of(s)) == s,
{
    if forall|i: int| 0 <= i < s.len() ==> s[i] != '_' {
        assert(kebab_of(snake_of(s)) =~= s);
    }
}

} // verus!
