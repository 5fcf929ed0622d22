//! The lexer: a single-pass, left-to-right scanner that turns raw RTF
//! text into the ordered token sequence the parser consumes.
//!
//! The scanner is a character-level state machine. Its mathematical
//! counterpart is [`lex_fold`], a fold of [`lex_step`] over the input
//! characters; [`scan`] returns exactly what [`spec_scan`] describes.

use vstd::prelude::*;
use vstd::string::StrSliceExecFns;

use crate::tokens::{
    RtfError, chars_to_string, SpecToken, Token, digit_val, is_digit, is_letter, spec_digit_val, spec_is_digit,
    spec_is_letter, tokens_view,
};

verus! {

/// The scanner's mode between two characters.
#[derive(Clone, Copy, Debug, PartialEq, Eq, Structural)]
pub enum LexMode {
    /// Accumulating plain text.
    Normal,
    /// A backslash was read; the next character decides what it opens.
    Escape,
    /// Reading the letters of a control word's name.
    Word,
    /// Reading the digits of a control word's numeric parameter.
    Param,
}

/// The scanner's full state between two characters: the mode, the
/// pending plain-text buffer, the control word under construction
/// (name, parameter sign and magnitude), the tokens emitted so far,
/// the first error if one occurred, and the index of the next character.
pub struct SpecLexState {
    pub mode: LexMode,
    pub text: Seq<char>,
    pub name: Seq<char>,
    pub neg: bool,
    pub mag: int,
    pub toks: Seq<SpecToken>,
    pub err: Option<RtfError>,
    pub pos: int,
}

/// The state scanning starts from.
pub open spec fn lex_init() -> SpecLexState {
    SpecLexState {
        mode: LexMode::Normal,
        text: Seq::empty(),
        name: Seq::empty(),
        neg: false,
        mag: 0,
        toks: Seq::empty(),
        err: None,
        pos: 0,
    }
}

/// Emits the pending plain text as one token, if there is any: literal
/// characters coalesce into a single `PlainText` token.
pub open spec fn flush_text(st: SpecLexState) -> SpecLexState {
    if st.text.len() > 0 {
        SpecLexState { toks: st.toks.push(SpecToken::PlainText(st.text)), text: Seq::empty(), ..st }
    } else {
        st
    }
}

/// The signed 16-bit value of a parameter with sign `neg` and magnitude `mag`.
pub open spec fn word_param(neg: bool, mag: int) -> i16 {
    (if neg {
        -mag
    } else {
        mag
    }) as i16
}

/// Emits the control word under construction with no parameter.
pub open spec fn emit_word(st: SpecLexState, trailing: bool) -> SpecLexState {
    SpecLexState {
        toks: st.toks.push(SpecToken::ControlWord(st.name, None, trailing)),
        name: Seq::empty(),
        ..st
    }
}

/// Emits the control word under construction with its numeric parameter,
/// or records an out-of-range error when the parameter does not fit the
/// signed 16-bit range.
pub open spec fn emit_word_param(st: SpecLexState, trailing: bool) -> SpecLexState {
    if !st.neg && st.mag == 32768 {
        SpecLexState { err: Some(RtfError::ParamOutOfRange(st.pos as usize)), ..st }
    } else {
        SpecLexState {
            toks: st.toks.push(
                SpecToken::ControlWord(st.name, Some(word_param(st.neg, st.mag)), trailing),
            ),
            name: Seq::empty(),
            ..st
        }
    }
}

/// Processes one character in `Normal` mode: braces become structural
/// tokens, a backslash opens an escape, anything else is plain text.
pub open spec fn step_normal(st: SpecLexState, c: char) -> SpecLexState {
    if c == '{' {
        let st = flush_text(st);
        SpecLexState { toks: st.toks.push(SpecToken::OpeningGroup), mode: LexMode::Normal, ..st }
    } else if c == '}' {
        let st = flush_text(st);
        SpecLexState { toks: st.toks.push(SpecToken::ClosingGroup), mode: LexMode::Normal, ..st }
    } else if c == '\\' {
        SpecLexState { mode: LexMode::Escape, ..st }
    } else {
        SpecLexState { text: st.text.push(c), mode: LexMode::Normal, ..st }
    }
}

/// Processes one character. Once an error is recorded the state is
/// frozen, so the first error is the one reported.
pub open spec fn lex_step(st: SpecLexState, c: char) -> SpecLexState {
    let next = if st.err is Some {
        st
    } else {
        match st.mode {
            LexMode::Normal => step_normal(st, c),
            LexMode::Escape => if c == '\\' || c == '{' || c == '}' {
                // An escaped literal character: it joins the surrounding
                // plain text rather than becoming a command.
                SpecLexState { text: st.text.push(c), mode: LexMode::Normal, ..st }
            } else if spec_is_letter(c) {
                let st = flush_text(st);
                SpecLexState { name: seq![c], mode: LexMode::Word, ..st }
            } else {
                let st = flush_text(st);
                SpecLexState {
                    toks: st.toks.push(SpecToken::ControlSymbol(c)),
                    mode: LexMode::Normal,
                    ..st
                }
            },
            LexMode::Word => if spec_is_letter(c) {
                SpecLexState { name: st.name.push(c), ..st }
            } else if spec_is_digit(c) {
                SpecLexState { mode: LexMode::Param, neg: false, mag: spec_digit_val(c), ..st }
            } else if c == '-' {
                SpecLexState { mode: LexMode::Param, neg: true, mag: 0, ..st }
            } else if c == ' ' {
                // A single trailing space is consumed as the delimiter.
                SpecLexState { mode: LexMode::Normal, ..emit_word(st, true) }
            } else {
                // Any other delimiter is not consumed: it is processed
                // again as an ordinary character.
                step_normal(SpecLexState { mode: LexMode::Normal, ..emit_word(st, false) }, c)
            },
            LexMode::Param => if spec_is_digit(c) {
                let m = st.mag * 10 + spec_digit_val(c);
                if m > 32768 {
                    SpecLexState { err: Some(RtfError::ParamOutOfRange(st.pos as usize)), ..st }
                } else {
                    SpecLexState { mag: m, ..st }
                }
            } else if c == ' ' {
                SpecLexState { mode: LexMode::Normal, ..emit_word_param(st, true) }
            } else {
                let st = emit_word_param(st, false);
                if st.err is Some {
                    st
                } else {
                    step_normal(SpecLexState { mode: LexMode::Normal, ..st }, c)
                }
            },
        }
    };
    SpecLexState { pos: st.pos + 1, ..next }
}

/// The scanner state after the whole of `s`, character by character.
pub open spec fn lex_fold(s: Seq<char>) -> SpecLexState
    decreases s.len(),
{
    if s.len() == 0 {
        lex_init()
    } else {
        lex_step(lex_fold(s.drop_last()), s.last())
    }
}

/// Closes the final state: a pending escape is a dangling-escape error,
/// a pending control word is emitted, pending text is flushed.
pub open spec fn lex_finalize(st: SpecLexState) -> Result<Seq<SpecToken>, RtfError> {
    if st.err is Some {
        Err(st.err->Some_0)
    } else {
        match st.mode {
            LexMode::Normal => Ok(flush_text(st).toks),
            LexMode::Escape => Err(RtfError::DanglingEscape(st.pos as usize)),
            LexMode::Word => Ok(emit_word(st, false).toks),
            LexMode::Param => {
                let st = emit_word_param(st, false);
                if st.err is Some {
                    Err(st.err->Some_0)
                } else {
                    Ok(st.toks)
                }
            },
        }
    }
}

/// What scanning `s` produces: the token sequence, or the first error.
pub open spec fn spec_scan(s: Seq<char>) -> Result<Seq<SpecToken>, RtfError> {
    lex_finalize(lex_fold(s))
}

/// Well-formedness kept across every step: the parameter magnitude stays
/// within one step of the 16-bit bound, and `pos` counts the characters
/// consumed.
pub open spec fn lex_wf(st: SpecLexState) -> bool {
    &&& 0 <= st.mag <= 32768
    &&& (st.mode == LexMode::Word || st.mode == LexMode::Param) ==> st.text.len() == 0
}

pub proof fn lemma_fold_wf(s: Seq<char>)
    ensures
        lex_wf(lex_fold(s)),
        lex_fold(s).pos == s.len(),
    decreases s.len(),
{
    if s.len() > 0 {
        lemma_fold_wf(s.drop_last());
    }
}

/// Folding one more character is one more step.
pub proof fn lemma_fold_snoc(s: Seq<char>, i: int)
    requires
        0 <= i < s.len(),
    ensures
        lex_fold(s.take(i + 1)) == lex_step(lex_fold(s.take(i)), s[i]),
{
    assert(s.take(i + 1).drop_last() =~= s.take(i));
    assert(s.take(i + 1).last() == s[i]);
}

/// Once an error is recorded, every later state carries the same error.
pub proof fn lemma_err_persists(s: Seq<char>, i: int)
    requires
        0 <= i <= s.len(),
        lex_fold(s.take(i)).err is Some,
    ensures
        lex_fold(s).err == lex_fold(s.take(i)).err,
    decreases s.len() - i,
{
    if i == s.len() {
        assert(s.take(i) =~= s);
    } else {
        lemma_fold_snoc(s, i);
        lemma_err_persists(s, i + 1);
    }
}

/// The signed 16-bit parameter value for sign `neg` and magnitude `mag`.
fn param_value(neg: bool, mag: u32) -> (r: i16)
    requires
        mag <= 32768,
        !neg ==> mag <= 32767,
    ensures
        r == word_param(neg, mag as int),
{
    if neg {
        if mag == 32768 {
            i16::MIN
        } else {
            let m: i16 = mag as i16;
            -m
        }
    } else {
        mag as i16
    }
}

/// Scans a complete RTF document into its token sequence.
///
/// Scanning succeeds and returns exactly the tokens that [`spec_scan`]
/// describes, or fails with the first lexical error: a dangling escape
/// (a backslash ending the input) or a control-word parameter outside
/// the signed 16-bit range.
pub fn scan(input: &str) -> (r: Result<Vec<Token>, RtfError>)
    ensures
        (match r {
            Ok(toks) => spec_scan(input@) == Ok::<Seq<SpecToken>, RtfError>(tokens_view(toks@)),
            Err(e) => spec_scan(input@) == Err::<Seq<SpecToken>, RtfError>(e),
        }),
{
    let len: usize = input.unicode_len();
    let mut mode = LexMode::Normal;
    let mut text: Vec<char> = Vec::new();
    let mut name: Vec<char> = Vec::new();
    let mut neg: bool = false;
    let mut mag: u32 = 0;
    let mut toks: Vec<Token> = Vec::new();
    let mut i: usize = 0;
    proof {
        assert(input@.take(0) =~= Seq::<char>::empty());
    }
    while i < len
        invariant
            len == input@.len(),
            i <= len,
            ({
                let st = lex_fold(input@.take(i as int));
                &&& st.err is None
                &&& st.mode == mode
                &&& st.text == text@
                &&& st.name == name@
                &&& st.neg == neg
                &&& st.mag == mag as int
                &&& st.toks == tokens_view(toks@)
            }),
            mag <= 32768,
        decreases len - i,
    {
        let ghost st = lex_fold(input@.take(i as int));
        proof {
            lemma_fold_snoc(input@, i as int);
            lemma_fold_wf(input@.take(i as int));
        }
        let c = input.get_char(i);
        let ghost st2 = lex_step(st, c);
        match mode {
            LexMode::Normal => {
                step_normal_exec(c, &mut mode, &mut text, &mut toks);
            },
            LexMode::Escape => {
                if c == '\\' || c == '{' || c == '}' {
                    text.push(c);
                    mode = LexMode::Normal;
                } else if is_letter(c) {
                    flush_text_exec(&mut text, &mut toks);
                    name = Vec::new();
                    name.push(c);
                    mode = LexMode::Word;
                    proof {
                        assert(name@ =~= seq![c]);
                    }
                } else {
                    flush_text_exec(&mut text, &mut toks);
                    toks.push(Token::ControlSymbol(c));
                    mode = LexMode::Normal;
                    proof {
                        assert(tokens_view(toks@) =~= st2.toks);
                    }
                }
            },
            LexMode::Word => {
                if is_letter(c) {
                    name.push(c);
                } else if is_digit(c) {
                    mode = LexMode::Param;
                    neg = false;
                    mag = digit_val(c);
                } else if c == '-' {
                    mode = LexMode::Param;
                    neg = true;
                    mag = 0;
                } else if c == ' ' {
                    let w = Token::ControlWord(name, None, true);
                    toks.push(w);
                    name = Vec::new();
                    mode = LexMode::Normal;
                    proof {
                        assert(tokens_view(toks@) =~= st2.toks);
                    }
                } else {
                    let w = Token::ControlWord(name, None, false);
                    toks.push(w);
                    name = Vec::new();
                    mode = LexMode::Normal;
                    proof {
                        assert(tokens_view(toks@) =~= emit_word(st, false).toks);
                    }
                    step_normal_exec(c, &mut mode, &mut text, &mut toks);
                }
            },
            LexMode::Param => {
                if is_digit(c) {
                    let m: u32 = mag * 10 + digit_val(c);
                    if m > 32768 {
                        proof {
                            assert(st2.err == Some(RtfError::ParamOutOfRange(i as usize)));
                            assert(input@.take(i as int + 1).len() == i as int + 1);
                            lemma_err_persists(input@, i as int + 1);
                        }
                        return Err(RtfError::ParamOutOfRange(i));
                    } else {
                        mag = m;
                    }
                } else if c == ' ' {
                    if !neg && mag == 32768 {
                        proof {
                            lemma_err_persists(input@, i as int + 1);
                        }
                        return Err(RtfError::ParamOutOfRange(i));
                    }
                    let p = param_value(neg, mag);
                    let w = Token::ControlWord(name, Some(p), true);
                    toks.push(w);
                    name = Vec::new();
                    mode = LexMode::Normal;
                    proof {
                        assert(tokens_view(toks@) =~= st2.toks);
                    }
                } else {
                    if !neg && mag == 32768 {
                        proof {
                            lemma_err_persists(input@, i as int + 1);
                        }
                        return Err(RtfError::ParamOutOfRange(i));
                    }
                    let p = param_value(neg, mag);
                    let w = Token::ControlWord(name, Some(p), false);
                    toks.push(w);
                    name = Vec::new();
                    mode = LexMode::Normal;
                    proof {
                        assert(tokens_view(toks@) =~= emit_word_param(st, false).toks);
                    }
                    step_normal_exec(c, &mut mode, &mut text, &mut toks);
                }
            },
        }
        i += 1;
    }
    proof {
        assert(input@.take(len as int) =~= input@);
        lemma_fold_wf(input@);
    }
    match mode {
        LexMode::Normal => {
            flush_text_exec(&mut text, &mut toks);
            proof {
                assert(tokens_view(toks@) =~= flush_text(lex_fold(input@)).toks);
            }
            Ok(toks)
        },
        LexMode::Escape => Err(RtfError::DanglingEscape(len)),
        LexMode::Word => {
            let w = Token::ControlWord(name, None, false);
            toks.push(w);
            proof {
                assert(tokens_view(toks@) =~= emit_word(lex_fold(input@), false).toks);
            }
            Ok(toks)
        },
        LexMode::Param => {
            if !neg && mag == 32768 {
                return Err(RtfError::ParamOutOfRange(len));
            }
            let p = param_value(neg, mag);
            let w = Token::ControlWord(name, Some(p), false);
            toks.push(w);
            proof {
                assert(tokens_view(toks@) =~= emit_word_param(lex_fold(input@), false).toks);
            }
            Ok(toks)
        },
    }
}

/// The executable mirror of [`step_normal`], acting on the scanner's
/// mutable pieces. The caller's state must match a spec state `st` with
/// `Normal`-mode handling pending for `c`.
fn step_normal_exec(c: char, mode: &mut LexMode, text: &mut Vec<char>, toks: &mut Vec<Token>)
    ensures
        ({
            let st = SpecLexState {
                mode: LexMode::Normal,
                text: old(text)@,
                name: Seq::empty(),
                neg: false,
                mag: 0,
                toks: tokens_view(old(toks)@),
                err: None,
                pos: 0,
            };
            let st2 = step_normal(st, c);
            &&& *final(mode) == st2.mode
            &&& final(text)@ == st2.text
            &&& tokens_view(final(toks)@) == st2.toks
        }),
{
    if c == '{' {
        flush_text_exec(text, toks);
        toks.push(Token::OpeningGroup);
        *mode = LexMode::Normal;
        proof {
            assert(tokens_view(toks@) =~= step_normal(
                SpecLexState {
                    mode: LexMode::Normal,
                    text: old(text)@,
                    name: Seq::empty(),
                    neg: false,
                    mag: 0,
                    toks: tokens_view(old(toks)@),
                    err: None,
                    pos: 0,
                },
                c,
            ).toks);
        }
    } else if c == '}' {
        flush_text_exec(text, toks);
        toks.push(Token::ClosingGroup);
        *mode = LexMode::Normal;
        proof {
            assert(tokens_view(toks@) =~= step_normal(
                SpecLexState {
                    mode: LexMode::Normal,
                    text: old(text)@,
                    name: Seq::empty(),
                    neg: false,
                    mag: 0,
                    toks: tokens_view(old(toks)@),
                    err: None,
                    pos: 0,
                },
                c,
            ).toks);
        }
    } else if c == '\\' {
        *mode = LexMode::Escape;
    } else {
        text.push(c);
        *mode = LexMode::Normal;
    }
}

/// The executable mirror of [`flush_text`]: emits the pending text as a
/// single `PlainText` token when it is nonempty.
fn flush_text_exec(text: &mut Vec<char>, toks: &mut Vec<Token>)
    ensures
        ({
            let st = SpecLexState {
                mode: LexMode::Normal,
                text: old(text)@,
                name: Seq::empty(),
                neg: false,
                mag: 0,
                toks: tokens_view(old(toks)@),
                err: None,
                pos: 0,
            };
            let st2 = flush_text(st);
            &&& final(text)@ == st2.text
            &&& tokens_view(final(toks)@) == st2.toks
        }),
{
    if text.len() > 0 {
        let s = chars_to_string(text);
        toks.push(Token::PlainText(s));
        *text = Vec::new();
        proof {
            assert(tokens_view(toks@) =~= flush_text(
                SpecLexState {
                    mode: LexMode::Normal,
                    text: old(text)@,
                    name: Seq::empty(),
                    neg: false,
                    mag: 0,
                    toks: tokens_view(old(toks)@),
                    err: None,
                    pos: 0,
                },
            ).toks);
        }
    }
}

/// The concatenation, in order, of the contents of all `PlainText`
/// tokens of a sequence.
pub open spec fn concat_plain(toks: Seq<SpecToken>) -> Seq<char>
    decreases toks.len(),
{
    if toks.len() == 0 {
        Seq::empty()
    } else {
        concat_plain(toks.drop_last()) + (match toks.last() {
            SpecToken::PlainText(t) => t,
            _ => Seq::empty(),
        })
    }
}

pub proof fn lemma_concat_plain_push(ts: Seq<SpecToken>, t: SpecToken)
    ensures
        (t matches SpecToken::PlainText(x) ==> concat_plain(ts.push(t)) == concat_plain(ts) + x),
        !(t is PlainText) ==> concat_plain(ts.push(t)) == concat_plain(ts),
{
    assert(ts.push(t).drop_last() =~= ts);
    assert(ts.push(t).last() == t);
    if !(t is PlainText) {
        assert(concat_plain(ts) + Seq::<char>::empty() =~= concat_plain(ts));
    }
}

/// The rank used to show that [`vis`] terminates: a mode that can hand
/// its character back to a lower mode without consuming it ranks higher.
pub open spec fn vis_rank(m: LexMode) -> nat {
    match m {
        LexMode::Normal => 0,
        LexMode::Escape => 0,
        LexMode::Word => 2,
        LexMode::Param => 1,
    }
}

/// The visible text of the remaining input, read in scanner mode `m`:
/// braces, control words (with their parameters and trailing space) and
/// control symbols disappear; escaped `\\`, `\{` and `\}` contribute
/// their literal character; everything else is kept as it stands.
pub open spec fn vis(m: LexMode, s: Seq<char>) -> Seq<char>
    decreases s.len(), vis_rank(m),
{
    if s.len() == 0 {
        Seq::empty()
    } else {
        let c = s.first();
        let rest = s.drop_first();
        match m {
            LexMode::Normal => if c == '{' || c == '}' {
                vis(LexMode::Normal, rest)
            } else if c == '\\' {
                vis(LexMode::Escape, rest)
            } else {
                seq![c] + vis(LexMode::Normal, rest)
            },
            LexMode::Escape => if c == '\\' || c == '{' || c == '}' {
                seq![c] + vis(LexMode::Normal, rest)
            } else if spec_is_letter(c) {
                vis(LexMode::Word, rest)
            } else {
                vis(LexMode::Normal, rest)
            },
            LexMode::Word => if spec_is_letter(c) {
                vis(LexMode::Word, rest)
            } else if spec_is_digit(c) || c == '-' {
                vis(LexMode::Param, rest)
            } else if c == ' ' {
                vis(LexMode::Normal, rest)
            } else {
                vis(LexMode::Normal, s)
            },
            LexMode::Param => if spec_is_digit(c) {
                vis(LexMode::Param, rest)
            } else if c == ' ' {
                vis(LexMode::Normal, rest)
            } else {
                vis(LexMode::Normal, s)
            },
        }
    }
}

/// The input's visible text: what remains after all control constructs
/// (braces, control words, control symbols) are removed and the escapes
/// are resolved to their literal characters.
pub open spec fn visible_text(s: Seq<char>) -> Seq<char> {
    vis(LexMode::Normal, s)
}

/// The text a scanner state accounts for: everything already emitted as
/// `PlainText` tokens, plus the pending text buffer.
pub open spec fn emitted(st: SpecLexState) -> Seq<char> {
    concat_plain(st.toks) + st.text
}

/// Handling one character in `Normal` mode neither loses nor invents
/// visible text.
proof fn lemma_vis_step_normal(st: SpecLexState, c: char, rest: Seq<char>)
    ensures
        ({
            let st2 = step_normal(st, c);
            emitted(st2) + vis(st2.mode, rest) == emitted(st) + vis(
                LexMode::Normal,
                seq![c] + rest,
            )
        }),
{
    let full = seq![c] + rest;
    assert(full.drop_first() =~= rest);
    assert(full.first() == c);
    let st2 = step_normal(st, c);
    if c == '{' || c == '}' {
        if st.text.len() > 0 {
            lemma_concat_plain_push(st.toks, SpecToken::PlainText(st.text));
        }
        lemma_concat_plain_push(flush_text(st).toks, SpecToken::OpeningGroup);
        lemma_concat_plain_push(flush_text(st).toks, SpecToken::ClosingGroup);
        assert(emitted(st2) =~= emitted(st));
    } else if c == '\\' {
    } else {
        assert(emitted(st2) =~= emitted(st) + seq![c]);
        assert((emitted(st) + seq![c]) + vis(LexMode::Normal, rest) =~= emitted(st) + (seq![c]
            + vis(LexMode::Normal, rest)));
    }
}

/// One error-free scanner step neither loses nor invents visible text.
proof fn lemma_vis_step(st: SpecLexState, c: char, rest: Seq<char>)
    requires
        st.err is None,
        lex_step(st, c).err is None,
        lex_wf(st),
    ensures
        ({
            let st2 = lex_step(st, c);
            emitted(st2) + vis(st2.mode, rest) == emitted(st) + vis(st.mode, seq![c] + rest)
        }),
{
    let full = seq![c] + rest;
    assert(full.drop_first() =~= rest);
    assert(full.first() == c);
    let st2 = lex_step(st, c);
    match st.mode {
        LexMode::Normal => {
            lemma_vis_step_normal(st, c, rest);
        },
        LexMode::Escape => {
            if c == '\\' || c == '{' || c == '}' {
                assert(emitted(st2) =~= emitted(st) + seq![c]);
                assert((emitted(st) + seq![c]) + vis(LexMode::Normal, rest) =~= emitted(st) + (
                seq![c] + vis(LexMode::Normal, rest)));
            } else if spec_is_letter(c) {
                if st.text.len() > 0 {
                    lemma_concat_plain_push(st.toks, SpecToken::PlainText(st.text));
                }
                assert(emitted(st2) =~= emitted(st));
            } else {
                if st.text.len() > 0 {
                    lemma_concat_plain_push(st.toks, SpecToken::PlainText(st.text));
                }
                lemma_concat_plain_push(flush_text(st).toks, SpecToken::ControlSymbol(c));
                assert(emitted(st2) =~= emitted(st));
            }
        },
        LexMode::Word => {
            if spec_is_letter(c) || spec_is_digit(c) || c == '-' {
            } else if c == ' ' {
                lemma_concat_plain_push(st.toks, SpecToken::ControlWord(st.name, None, true));
                assert(emitted(st2) =~= emitted(st));
            } else {
                let stw = emit_word(st, false);
                lemma_concat_plain_push(st.toks, SpecToken::ControlWord(st.name, None, false));
                let stn = SpecLexState { mode: LexMode::Normal, ..stw };
                assert(emitted(stn) =~= emitted(st));
                lemma_vis_step_normal(stn, c, rest);
                assert(vis(LexMode::Word, full) == vis(LexMode::Normal, full));
            }
        },
        LexMode::Param => {
            if spec_is_digit(c) {
            } else if c == ' ' {
                lemma_concat_plain_push(
                    st.toks,
                    SpecToken::ControlWord(st.name, Some(word_param(st.neg, st.mag)), true),
                );
                assert(emitted(st2) =~= emitted(st));
            } else {
                let stw = emit_word_param(st, false);
                lemma_concat_plain_push(
                    st.toks,
                    SpecToken::ControlWord(st.name, Some(word_param(st.neg, st.mag)), false),
                );
                let stn = SpecLexState { mode: LexMode::Normal, ..stw };
                assert(emitted(stn) =~= emitted(st));
                lemma_vis_step_normal(stn, c, rest);
                assert(vis(LexMode::Param, full) == vis(LexMode::Normal, full));
            }
        },
    }
}

/// After any error-free prefix, what the scanner has emitted plus the
/// visible text of the rest is the visible text of the whole input.
proof fn lemma_vis_fold(s: Seq<char>, i: int)
    requires
        0 <= i <= s.len(),
        lex_fold(s).err is None,
    ensures
        emitted(lex_fold(s.take(i))) + vis(lex_fold(s.take(i)).mode, s.skip(i)) == visible_text(s),
    decreases i,
{
    if i == 0 {
        assert(s.take(0) =~= Seq::<char>::empty());
        assert(s.skip(0) =~= s);
        assert(emitted(lex_init()) =~= Seq::<char>::empty());
        assert(Seq::<char>::empty() + vis(LexMode::Normal, s) =~= vis(LexMode::Normal, s));
    } else {
        lemma_vis_fold(s, i - 1);
        let st = lex_fold(s.take(i - 1));
        let c = s[i - 1];
        lemma_fold_snoc(s, i - 1);
        if st.err is Some {
            lemma_err_persists(s, i - 1);
            assert(false);
        }
        if lex_fold(s.take(i)).err is Some {
            lemma_err_persists(s, i);
            assert(false);
        }
        lemma_fold_wf(s.take(i - 1));
        assert(seq![c] + s.skip(i) =~= s.skip(i - 1));
        lemma_vis_step(st, c, s.skip(i));
    }
}

/// Round trip: when scanning succeeds, the concatenation of all
/// `PlainText` token contents, in order, is exactly the input's visible
/// text: the input with every control construct removed and every
/// escape resolved.
pub proof fn theorem_round_trip(s: Seq<char>, toks: Seq<SpecToken>)
    requires
        spec_scan(s) == Ok::<Seq<SpecToken>, RtfError>(toks),
    ensures
        concat_plain(toks) == visible_text(s),
{
    let st = lex_fold(s);
    lemma_fold_wf(s);
    lemma_vis_fold(s, s.len() as int);
    assert(s.take(s.len() as int) =~= s);
    assert(s.skip(s.len() as int) =~= Seq::<char>::empty());
    assert(vis(st.mode, Seq::<char>::empty()) =~= Seq::<char>::empty());
    assert(emitted(st) + Seq::<char>::empty() =~= emitted(st));
    match st.mode {
        LexMode::Normal => {
            if st.text.len() > 0 {
                lemma_concat_plain_push(st.toks, SpecToken::PlainText(st.text));
            }
            assert(concat_plain(toks) =~= emitted(st));
        },
        LexMode::Escape => {
            assert(false);
        },
        LexMode::Word => {
            lemma_concat_plain_push(st.toks, SpecToken::ControlWord(st.name, None, false));
            assert(concat_plain(toks) =~= emitted(st));
        },
        LexMode::Param => {
            lemma_concat_plain_push(
                st.toks,
                SpecToken::ControlWord(st.name, Some(word_param(st.neg, st.mag)), false),
            );
            assert(concat_plain(toks) =~= emitted(st));
        },
    }
}

} // verus!
