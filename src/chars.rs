//! Character classes that drive word motion, bracket pairing and trimming.

use vstd::prelude::*;

verus! {

/// Characters that end a word for word motion and word deletion.
pub open spec fn is_break(c: char) -> bool {
    c == ' ' || c == ',' || c == '.' || c == ';' || c == ':' || c == '"' || c == '('
        || c == ')' || c == '{' || c == '}' || c == '[' || c == ']' || c == '<' || c == '>'
        || c == '_' || c == '-' || c == '@' || c == '/' || c == '\\' || c == '\''
        || c == '\t'
}

pub fn break_char(c: char) -> (r: bool)
    ensures
        r == is_break(c),
{
    c == ' ' || c == ',' || c == '.' || c == ';' || c == ':' || c == '"' || c == '('
        || c == ')' || c == '{' || c == '}' || c == '[' || c == ']' || c == '<' || c == '>'
        || c == '_' || c == '-' || c == '@' || c == '/' || c == '\\' || c == '\''
        || c == '\t'
}

/// The closer that insert mode adds after an opening bracket or quote.
pub open spec fn pair_closer(c: char) -> Option<char> {
    if c == '(' {
        Some(')')
    } else if c == '[' {
        Some(']')
    } else if c == '{' {
        Some('}')
    } else if c == '"' {
        Some('"')
    } else if c == '\'' {
        Some('\'')
    } else {
        None
    }
}

pub fn closer_of(c: char) -> (r: Option<char>)
    ensures
        r == pair_closer(c),
{
    if c == '(' {
        Some(')')
    } else if c == '[' {
        Some(']')
    } else if c == '{' {
        Some('}')
    } else if c == '"' {
        Some('"')
    } else if c == '\'' {
        Some('\'')
    } else {
        None
    }
}

/// The closer of a scope-opening bracket, which drives auto-indent.
pub open spec fn scope_closer(c: char) -> Option<char> {
    if c == '(' {
        Some(')')
    } else if c == '[' {
        Some(']')
    } else if c == '{' {
        Some('}')
    } else {
        None
    }
}

pub fn scope_closer_of(c: char) -> (r: Option<char>)
    ensures
        r == scope_closer(c),
{
    if c == '(' {
        Some(')')
    } else if c == '[' {
        Some(']')
    } else if c == '{' {
        Some('}')
    } else {
        None
    }
}

/// Leading blanks that the line-start motion skips.
pub open spec fn is_indent(c: char) -> bool {
    c == ' ' || c == '\t'
}

/// White space in the sense of Unicode's `White_Space` property: what saving
/// trims from the end of every line.
pub open spec fn is_space(c: char) -> bool {
    ('\t' <= c && c <= '\r') || c == ' ' || c == '\u{85}' || c == '\u{a0}' || c == '\u{1680}'
        || ('\u{2000}' <= c && c <= '\u{200a}') || c == '\u{2028}' || c == '\u{2029}'
        || c == '\u{202f}' || c == '\u{205f}' || c == '\u{3000}'
}

pub fn space_char(c: char) -> (r: bool)
    ensures
        r == is_space(c),
{
    ('\t' <= c && c <= '\r') || c == ' ' || c == '\u{85}' || c == '\u{a0}' || c == '\u{1680}'
        || ('\u{2000}' <= c && c <= '\u{200a}') || c == '\u{2028}' || c == '\u{2029}'
        || c == '\u{202f}' || c == '\u{205f}' || c == '\u{3000}'
}

/// Closing characters of the pairing table: backspace in insert mode on one
/// of these removes it too.
pub open spec fn is_closer(c: char) -> bool {
    c == ')' || c == ']' || c == '}' || c == '"' || c == '\''
}

pub fn closer_char(c: char) -> (r: bool)
    ensures
        r == is_closer(c),
{
    c == ')' || c == ']' || c == '}' || c == '"' || c == '\''
}

} // verus!
