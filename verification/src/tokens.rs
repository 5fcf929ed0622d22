//! The token model: the alphabet the lexer produces and the parser
//! consumes, together with the error type shared by both stages.

use vstd::prelude::*;

verus! {

/// An error raised by the lexer or the parser. Each variant carries the
/// position at which the problem was detected: a character index for
/// lexical errors, a token index for structural errors.
#[derive(Clone, Copy, Debug, PartialEq, Eq, Structural)]
pub enum RtfError {
    /// A backslash stands at the very end of the input; the carried
    /// index is the length of the input.
    DanglingEscape(usize),
    /// A control word's numeric parameter does not fit the signed
    /// 16-bit range used by table references.
    ParamOutOfRange(usize),
    /// A closing brace without a matching opening brace, or an opening
    /// brace never closed; the carried index is the offending token's
    /// index (the token count when the input ends inside a group).
    UnbalancedGroup(usize),
}

/// A lexical unit of an RTF document.
#[derive(Clone, Debug, PartialEq)]
pub enum Token {
    /// A structural `{`.
    OpeningGroup,
    /// A structural `}`.
    ClosingGroup,
    /// A backslash-prefixed alphabetic command: its name (letters only,
    /// without the backslash), an optional signed numeric parameter,
    /// and whether a single trailing space was consumed as delimiter.
    ControlWord(Vec<char>, Option<i16>, bool),
    /// A backslash followed by exactly one non-letter character other
    /// than a brace or a second backslash.
    ControlSymbol(char),
    /// Literal text between control constructs, with the escapes `\\`,
    /// `\{` and `\}` already resolved to their literal characters.
    PlainText(String),
}

/// The mathematical shadow of [`Token`]: text carried as `Seq<char>`.
pub enum SpecToken {
    OpeningGroup,
    ClosingGroup,
    ControlWord(Seq<char>, Option<i16>, bool),
    ControlSymbol(char),
    PlainText(Seq<char>),
}

impl View for Token {
    type V = SpecToken;

    open spec fn view(&self) -> SpecToken {
        match self {
            Token::OpeningGroup => SpecToken::OpeningGroup,
            Token::ClosingGroup => SpecToken::ClosingGroup,
            Token::ControlWord(name, param, trailing) => SpecToken::ControlWord(
                name@,
                *param,
                *trailing,
            ),
            Token::ControlSymbol(c) => SpecToken::ControlSymbol(*c),
            Token::PlainText(text) => SpecToken::PlainText(text@),
        }
    }
}

/// The view of a token sequence, token by token.
pub open spec fn tokens_view(toks: Seq<Token>) -> Seq<SpecToken> {
    toks.map(|i: int, t: Token| t@)
}

/// Whether `c` is an ASCII letter, the only characters a control word's
/// name is made of.
pub open spec fn spec_is_letter(c: char) -> bool {
    (97 <= c as u32 && c as u32 <= 122) || (65 <= c as u32 && c as u32 <= 90)
}

/// Whether `c` is an ASCII decimal digit.
pub open spec fn spec_is_digit(c: char) -> bool {
    48 <= c as u32 && c as u32 <= 57
}

/// The numeric value of an ASCII decimal digit.
pub open spec fn spec_digit_val(c: char) -> int {
    c as u32 - 48
}

/// Executable letter test, equal to [`spec_is_letter`].
pub fn is_letter(c: char) -> (r: bool)
    ensures
        r == spec_is_letter(c),
{
    let v: u32 = c as u32;
    (97 <= v && v <= 122) || (65 <= v && v <= 90)
}

/// Executable digit test, equal to [`spec_is_digit`].
pub fn is_digit(c: char) -> (r: bool)
    ensures
        r == spec_is_digit(c),
{
    let v: u32 = c as u32;
    48 <= v && v <= 57
}

/// Executable digit value, equal to [`spec_digit_val`].
pub fn digit_val(c: char) -> (r: u32)
    requires
        spec_is_digit(c),
    ensures
        r == spec_digit_val(c),
{
    c as u32 - 48
}

/// Converts an accumulated character buffer into owned text.
///
/// Relies on `String`'s `FromIterator` implementation in std: collecting
/// the characters of a `Vec<char>` yields a string of exactly those
/// characters in order.
#[verifier::external_body]
pub(crate) fn chars_to_string(v: &Vec<char>) -> (r: String)
    ensures
        r@ == v@,
{
    v.iter().collect()
}

} // verus!
