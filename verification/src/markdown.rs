//! Message markup, as the messenger's second Markdown style reads it.

use vstd::prelude::*;

verus! {

/// The characters that have a meaning in marked up text.
pub open spec fn is_markup(c: char) -> bool {
    ||| c == '_'
    ||| c == '*'
    ||| c == '['
    ||| c == ']'
    ||| c == '('
    ||| c == ')'
    ||| c == '~'
    ||| c == '`'
    ||| c == '>'
    ||| c == '#'
    ||| c == '+'
    ||| c == '-'
    ||| c == '='
    ||| c == '|'
    ||| c == '{'
    ||| c == '}'
    ||| c == '.'
    ||| c == '!'
}

/// A text with a backslash before every character that has a meaning in marked
/// up text.
pub open spec fn escaped(s: Seq<char>) -> Seq<char>
    decreases s.len(),
{
    if s.len() == 0 {
        s
    } else if is_markup(s.last()) {
        escaped(s.drop_last()) + seq!['\\', s.last()]
    } else {
        escaped(s.drop_last()).push(s.last())
    }
}

/// A link target with a backslash before every backtick and closing bracket.
pub open spec fn escaped_target(s: Seq<char>) -> Seq<char>
    decreases s.len(),
{
    if s.len() == 0 {
        s
    } else if s.last() == '`' || s.last() == ')' {
        escaped_target(s.drop_last()) + seq!['\\', s.last()]
    } else {
        escaped_target(s.drop_last()).push(s.last())
    }
}

/// A piece of code with a backslash before every backtick and backslash.
pub open spec fn escaped_code(s: Seq<char>) -> Seq<char>
    decreases s.len(),
{
    if s.len() == 0 {
        s
    } else if s.last() == '`' || s.last() == '\\' {
        escaped_code(s.drop_last()) + seq!['\\', s.last()]
    } else {
        escaped_code(s.drop_last()).push(s.last())
    }
}

/// A text, itself markup, that links to `target`.
pub open spec fn linked(target: Seq<char>, text: Seq<char>) -> Seq<char> {
    seq!['['] + text + seq![']', '('] + escaped_target(target) + seq![')']
}

/// A text set as code.
pub open spec fn as_code(s: Seq<char>) -> Seq<char> {
    seq!['`'] + escaped_code(s) + seq!['`']
}

/// `teloxide::utils::markdown::escape` puts a backslash before every character
/// with a meaning and changes nothing else.
#[verifier::external_body]
pub(crate) fn escape(s: &str) -> (r: String)
    ensures
        r@ == escaped(s@),
{
    teloxide::utils::markdown::escape(s)
}

/// `teloxide::utils::markdown::link` sets the text in square brackets as it is,
/// then the target in round brackets with its backticks and closing brackets
/// escaped.
#[verifier::external_body]
pub(crate) fn link(url: &str, text: &str) -> (r: String)
    ensures
        r@ == linked(url@, text@),
{
    teloxide::utils::markdown::link(url, text)
}

/// `teloxide::utils::markdown::code_inline` sets a text between backticks, with
/// its backticks and backslashes escaped.
#[verifier::external_body]
pub(crate) fn code_inline(s: &str) -> (r: String)
    ensures
        r@ == as_code(s@),
{
    teloxide::utils::markdown::code_inline(s)
}

} // verus!
