//! The parser: consumes the token sequence, drives group nesting and
//! header-table recognition, and materializes the document model.

use std::collections::HashMap;
use vstd::prelude::*;

use crate::header::{
    CharacterSet, Color, ColorRef, Font, FontFamily, FontRef, RtfHeader, SpecFont, SpecHeader,
    Style, StyleRef, chars_eq_str, spec_character_set,
};
use crate::tokens::chars_to_string;
use crate::paragraph::{Alignment, Paragraph};
use crate::tokens::{RtfError, SpecToken, Token, tokens_view};

verus! {

broadcast use vstd::std_specs::hash::group_hash_axioms;

/// Character-level formatting attributes. A value type whose default has
/// every attribute off and no font or color override.
#[derive(Clone, Copy, Debug, PartialEq, Eq, Structural)]
pub struct Painter {
    pub bold: bool,
    pub italic: bool,
    pub underline: bool,
    /// The active font, validated against the header's font table.
    pub font_ref: Option<FontRef>,
    /// The font size in half-points, set by `\fsN`; zero when unset.
    pub size: u16,
    /// The active foreground color, validated against the color table.
    pub color_ref: Option<ColorRef>,
}

impl Painter {
    /// The default painter: everything off, no overrides.
    pub open spec fn spec_default() -> Painter {
        Painter {
            bold: false,
            italic: false,
            underline: false,
            font_ref: None,
            size: 0,
            color_ref: None,
        }
    }
}

impl Default for Painter {
    fn default() -> (r: Painter)
        ensures
            r == Painter::spec_default(),
    {
        Painter {
            bold: false,
            italic: false,
            underline: false,
            font_ref: None,
            size: 0,
            color_ref: None,
        }
    }
}

/// One styled run of body text: the characters of a `PlainText` token
/// together with the formatting state active where it appeared.
#[derive(Clone, Debug, PartialEq)]
pub struct StyleBlock {
    pub painter: Painter,
    pub paragraph: Paragraph,
    pub text: String,
}

/// The mathematical shadow of [`StyleBlock`].
pub struct SpecBlock {
    pub painter: Painter,
    pub paragraph: Paragraph,
    pub text: Seq<char>,
}

impl View for StyleBlock {
    type V = SpecBlock;

    open spec fn view(&self) -> SpecBlock {
        SpecBlock { painter: self.painter, paragraph: self.paragraph, text: self.text@ }
    }
}

/// A parsed document: the header and the ordered body runs.
#[derive(Clone, Debug, PartialEq)]
pub struct Document {
    pub header: RtfHeader,
    pub body: Vec<StyleBlock>,
}

/// The mathematical shadow of [`Document`].
pub struct SpecDocument {
    pub header: SpecHeader,
    pub body: Seq<SpecBlock>,
}

impl View for Document {
    type V = SpecDocument;

    open spec fn view(&self) -> SpecDocument {
        SpecDocument {
            header: self.header@,
            body: blocks_view(self.body@),
        }
    }
}

/// The view of a body, run by run.
pub open spec fn blocks_view(blocks: Seq<StyleBlock>) -> Seq<SpecBlock> {
    blocks.map(|i: int, b: StyleBlock| b@)
}

/// The parser's region: the body, or one of the three header tables,
/// entered when its keying control word is seen and left when the group
/// it was entered in closes.
#[derive(Clone, Copy, Debug, PartialEq, Eq, Structural)]
pub enum PMode {
    Body,
    Fonts,
    Colors,
    Styles,
}

/// The parser's full state between two tokens.
///
/// `stack` is the group-nesting stack of formatting snapshots: entering
/// `{` pushes a copy of the current state, leaving `}` pops back to the
/// parent's, and the last element is the state formatting commands act
/// on. `table_depth` is the stack height at which the active table
/// region was entered; closing a group at that height returns to the
/// body. The remaining scalar fields accumulate the table entry under
/// construction. `err` is the index of the first offending token, and
/// `pos` the index of the next token.
pub struct SpecParseState {
    pub stack: Seq<Style>,
    pub mode: PMode,
    pub table_depth: int,
    pub header: SpecHeader,
    pub body: Seq<SpecBlock>,
    pub charset_locked: bool,
    pub pending: bool,
    pub entry_index: u16,
    pub fname: Seq<char>,
    pub fcharset: u8,
    pub ffamily: FontFamily,
    pub red: u8,
    pub green: u8,
    pub blue: u8,
    pub color_pending: bool,
    pub color_count: u16,
    pub entry_style: Style,
    pub err: Option<int>,
    pub pos: int,
}

/// The state parsing starts from: one implicit top-level group with
/// default formatting, an empty header, an empty body.
pub open spec fn parse_init() -> SpecParseState {
    SpecParseState {
        stack: seq![Style::spec_default()],
        mode: PMode::Body,
        table_depth: 0,
        header: SpecHeader::spec_empty(),
        body: Seq::empty(),
        charset_locked: false,
        pending: false,
        entry_index: 0,
        fname: Seq::empty(),
        fcharset: 0,
        ffamily: FontFamily::Nil,
        red: 0,
        green: 0,
        blue: 0,
        color_pending: false,
        color_count: 0,
        entry_style: Style::spec_default(),
        err: None,
        pos: 0,
    }
}

/// The formatting state of the innermost open group.
pub open spec fn cur_style(st: SpecParseState) -> Style {
    st.stack.last()
}

/// Replaces the formatting state of the innermost open group.
pub open spec fn set_cur(st: SpecParseState, sty: Style) -> SpecParseState {
    SpecParseState { stack: st.stack.drop_last().push(sty), ..st }
}

/// Whether a toggle control word such as `\b` switches its attribute on:
/// a parameter of zero (as in `\b0`) switches it off, anything else on.
pub open spec fn toggle_on(param: Option<i16>) -> bool {
    param != Some(0i16)
}

/// Applies one formatting control word to a style: the character
/// attributes `\b`, `\i`, `\ul`, `\ulnone`, `\fs`, the validated
/// references `\f` and `\cf`, and the layout words `\ql`, `\qr`, `\qc`,
/// `\qj`, `\li`, `\sb`, `\sa`. A reference that misses its header table
/// leaves the previous value unchanged; an unrecognized word changes
/// nothing.
pub open spec fn apply_format(
    sty: Style,
    header: SpecHeader,
    name: Seq<char>,
    param: Option<i16>,
) -> Style {
    if name == "b"@ {
        Style { painter: Painter { bold: toggle_on(param), ..sty.painter }, ..sty }
    } else if name == "i"@ {
        Style { painter: Painter { italic: toggle_on(param), ..sty.painter }, ..sty }
    } else if name == "ul"@ {
        Style { painter: Painter { underline: toggle_on(param), ..sty.painter }, ..sty }
    } else if name == "ulnone"@ {
        Style { painter: Painter { underline: false, ..sty.painter }, ..sty }
    } else if name == "fs"@ {
        match param {
            Some(n) => if n >= 0 {
                Style { painter: Painter { size: n as u16, ..sty.painter }, ..sty }
            } else {
                sty
            },
            None => sty,
        }
    } else if name == "f"@ {
        match param {
            Some(n) => if n >= 0 && header.font_table.contains_key(n as u16) {
                Style { painter: Painter { font_ref: Some(n as u16), ..sty.painter }, ..sty }
            } else {
                sty
            },
            None => sty,
        }
    } else if name == "cf"@ {
        match param {
            Some(n) => if n >= 0 && header.color_table.contains_key(n as u16) {
                Style { painter: Painter { color_ref: Some(n as u16), ..sty.painter }, ..sty }
            } else {
                sty
            },
            None => sty,
        }
    } else if name == "ql"@ {
        Style { paragraph: Paragraph { alignment: Alignment::LeftAligned, ..sty.paragraph }, ..sty }
    } else if name == "qr"@ {
        Style {
            paragraph: Paragraph { alignment: Alignment::RightAligned, ..sty.paragraph },
            ..sty
        }
    } else if name == "qc"@ {
        Style { paragraph: Paragraph { alignment: Alignment::Center, ..sty.paragraph }, ..sty }
    } else if name == "qj"@ {
        Style { paragraph: Paragraph { alignment: Alignment::Justify, ..sty.paragraph }, ..sty }
    } else if name == "li"@ {
        match param {
            Some(n) => Style { paragraph: Paragraph { indent: n, ..sty.paragraph }, ..sty },
            None => sty,
        }
    } else if name == "sb"@ {
        match param {
            Some(n) => Style { paragraph: Paragraph { space_before: n, ..sty.paragraph }, ..sty },
            None => sty,
        }
    } else if name == "sa"@ {
        match param {
            Some(n) => Style { paragraph: Paragraph { space_after: n, ..sty.paragraph }, ..sty },
            None => sty,
        }
    } else {
        sty
    }
}

/// The font family named by a control word seen inside `\fonttbl`, if any.
pub open spec fn family_of_name(name: Seq<char>) -> Option<FontFamily> {
    if name == "fnil"@ {
        Some(FontFamily::Nil)
    } else if name == "froman"@ {
        Some(FontFamily::Roman)
    } else if name == "fswiss"@ {
        Some(FontFamily::Swiss)
    } else if name == "fmodern"@ {
        Some(FontFamily::Modern)
    } else if name == "fscript"@ {
        Some(FontFamily::Script)
    } else if name == "fdecor"@ {
        Some(FontFamily::Decor)
    } else if name == "ftech"@ {
        Some(FontFamily::Tech)
    } else if name == "fbidi"@ {
        Some(FontFamily::Bidi)
    } else {
        None
    }
}

/// Completes the font entry under construction, if there is one: the
/// accumulated name, character set and family are inserted at the
/// entry's index (a later entry with the same index wins) and the
/// accumulators reset.
pub open spec fn finish_font(st: SpecParseState) -> SpecParseState {
    if st.pending {
        SpecParseState {
            header: SpecHeader {
                font_table: st.header.font_table.insert(
                    st.entry_index,
                    SpecFont {
                        name: st.fname,
                        character_set: st.fcharset,
                        font_family: st.ffamily,
                    },
                ),
                ..st.header
            },
            pending: false,
            fname: Seq::empty(),
            fcharset: 0,
            ffamily: FontFamily::Nil,
            ..st
        }
    } else {
        st
    }
}

/// Completes a color entry: the accumulated channels are inserted at the
/// next ordinal index and reset to black. Entries past the 16-bit index
/// space are dropped.
pub open spec fn finish_color(st: SpecParseState) -> SpecParseState {
    if st.color_count < 65535 {
        SpecParseState {
            header: SpecHeader {
                color_table: st.header.color_table.insert(
                    st.color_count,
                    Color { red: st.red, green: st.green, blue: st.blue },
                ),
                ..st.header
            },
            red: 0,
            green: 0,
            blue: 0,
            color_pending: false,
            color_count: (st.color_count + 1) as u16,
            ..st
        }
    } else {
        SpecParseState { red: 0, green: 0, blue: 0, color_pending: false, ..st }
    }
}

/// Completes the stylesheet entry under construction, if there is one.
pub open spec fn finish_style(st: SpecParseState) -> SpecParseState {
    if st.pending {
        SpecParseState {
            header: SpecHeader {
                stylesheet: st.header.stylesheet.insert(st.entry_index, st.entry_style),
                ..st.header
            },
            pending: false,
            entry_style: Style::spec_default(),
            ..st
        }
    } else {
        st
    }
}

/// One character of plain text inside `\fonttbl`: `;` terminates the
/// entry, any other character extends the entry's font name.
pub open spec fn fonts_text_step(st: SpecParseState, c: char) -> SpecParseState {
    if c == ';' {
        finish_font(st)
    } else if st.pending {
        SpecParseState { fname: st.fname.push(c), ..st }
    } else {
        st
    }
}

pub open spec fn fonts_text_fold(st: SpecParseState, s: Seq<char>) -> SpecParseState
    decreases s.len(),
{
    if s.len() == 0 {
        st
    } else {
        fonts_text_step(fonts_text_fold(st, s.drop_last()), s.last())
    }
}

/// One character of plain text inside `\colortbl`: `;` terminates the
/// entry (so a bare `;` yields the default black), anything else is
/// ignored.
pub open spec fn colors_text_step(st: SpecParseState, c: char) -> SpecParseState {
    if c == ';' {
        finish_color(st)
    } else {
        st
    }
}

pub open spec fn colors_text_fold(st: SpecParseState, s: Seq<char>) -> SpecParseState
    decreases s.len(),
{
    if s.len() == 0 {
        st
    } else {
        colors_text_step(colors_text_fold(st, s.drop_last()), s.last())
    }
}

/// One character of plain text inside `\stylesheet`: `;` terminates the
/// entry; the style's display name is not retained.
pub open spec fn styles_text_step(st: SpecParseState, c: char) -> SpecParseState {
    if c == ';' {
        finish_style(st)
    } else {
        st
    }
}

pub open spec fn styles_text_fold(st: SpecParseState, s: Seq<char>) -> SpecParseState
    decreases s.len(),
{
    if s.len() == 0 {
        st
    } else {
        styles_text_step(styles_text_fold(st, s.drop_last()), s.last())
    }
}

/// Processes an opening brace: a copy of the current formatting state is
/// pushed, so changes inside the group cannot outlive it.
pub open spec fn step_open(st: SpecParseState) -> SpecParseState {
    SpecParseState { stack: st.stack.push(st.stack.last()), ..st }
}

/// Processes a closing brace. Closing the implicit top-level group is a
/// structural error; closing the group a table was entered in finishes
/// the pending entry and returns to the body; any close pops back to the
/// enclosing group's formatting state.
pub open spec fn step_close(st: SpecParseState) -> SpecParseState {
    if st.stack.len() == 1 {
        SpecParseState { err: Some(st.pos), ..st }
    } else {
        let st1 = match st.mode {
            PMode::Body => st,
            PMode::Fonts => finish_font(st),
            PMode::Colors => if st.color_pending {
                finish_color(st)
            } else {
                st
            },
            PMode::Styles => finish_style(st),
        };
        let st2 = SpecParseState { stack: st1.stack.drop_last(), ..st1 };
        if st.mode != PMode::Body && st.stack.len() == st.table_depth {
            SpecParseState { mode: PMode::Body, ..st2 }
        } else {
            st2
        }
    }
}

/// Processes a control word in body mode: a character-set declaration
/// (first one wins), a table keyword, a stylesheet application `\sN`
/// (a miss leaves the current state unchanged), or a formatting word
/// applied to the current group's state.
pub open spec fn step_word_body(st: SpecParseState, name: Seq<char>, param: Option<i16>)
    -> SpecParseState {
    let cs = spec_character_set(SpecToken::ControlWord(name, param, false));
    if cs is Some && !st.charset_locked {
        SpecParseState {
            header: SpecHeader { character_set: cs->Some_0, ..st.header },
            charset_locked: true,
            ..st
        }
    } else if name == "fonttbl"@ {
        SpecParseState {
            mode: PMode::Fonts,
            table_depth: st.stack.len() as int,
            pending: false,
            entry_index: 0,
            fname: Seq::empty(),
            fcharset: 0,
            ffamily: FontFamily::Nil,
            ..st
        }
    } else if name == "colortbl"@ {
        SpecParseState {
            mode: PMode::Colors,
            table_depth: st.stack.len() as int,
            red: 0,
            green: 0,
            blue: 0,
            color_pending: false,
            color_count: 0,
            ..st
        }
    } else if name == "stylesheet"@ {
        SpecParseState {
            mode: PMode::Styles,
            table_depth: st.stack.len() as int,
            pending: false,
            entry_index: 0,
            entry_style: Style::spec_default(),
            ..st
        }
    } else if name == "s"@ {
        match param {
            Some(n) => if n >= 0 && st.header.stylesheet.contains_key(n as u16) {
                set_cur(st, st.header.stylesheet[n as u16])
            } else {
                st
            },
            None => st,
        }
    } else {
        set_cur(st, apply_format(cur_style(st), st.header, name, param))
    }
}

/// Processes a control word inside `\fonttbl`: `\fN` starts the entry at
/// index N (finishing any entry still open), `\fcharsetN` and the family
/// words fill it, anything else is ignored.
pub open spec fn step_word_fonts(st: SpecParseState, name: Seq<char>, param: Option<i16>)
    -> SpecParseState {
    if name == "f"@ {
        match param {
            Some(n) => if n >= 0 {
                let st1 = finish_font(st);
                SpecParseState {
                    pending: true,
                    entry_index: n as u16,
                    fname: Seq::empty(),
                    fcharset: 0,
                    ffamily: FontFamily::Nil,
                    ..st1
                }
            } else {
                st
            },
            None => st,
        }
    } else if name == "fcharset"@ {
        match param {
            Some(n) => if 0 <= n <= 255 {
                SpecParseState { fcharset: n as u8, ..st }
            } else {
                st
            },
            None => st,
        }
    } else {
        match family_of_name(name) {
            Some(fam) => SpecParseState { ffamily: fam, ..st },
            None => st,
        }
    }
}

/// Processes a control word inside `\colortbl`: `\redN`, `\greenN` and
/// `\blueN` set the channels of the entry under construction.
pub open spec fn step_word_colors(st: SpecParseState, name: Seq<char>, param: Option<i16>)
    -> SpecParseState {
    match param {
        Some(n) => if 0 <= n <= 255 {
            if name == "red"@ {
                SpecParseState { red: n as u8, color_pending: true, ..st }
            } else if name == "green"@ {
                SpecParseState { green: n as u8, color_pending: true, ..st }
            } else if name == "blue"@ {
                SpecParseState { blue: n as u8, color_pending: true, ..st }
            } else {
                st
            }
        } else {
            st
        },
        None => st,
    }
}

/// Processes a control word inside `\stylesheet`: `\sN` starts the entry
/// at index N; once an entry is open, formatting words fill its style.
pub open spec fn step_word_styles(st: SpecParseState, name: Seq<char>, param: Option<i16>)
    -> SpecParseState {
    if name == "s"@ {
        match param {
            Some(n) => if n >= 0 {
                let st1 = finish_style(st);
                SpecParseState {
                    pending: true,
                    entry_index: n as u16,
                    entry_style: Style::spec_default(),
                    ..st1
                }
            } else {
                st
            },
            None => st,
        }
    } else if st.pending {
        SpecParseState {
            entry_style: apply_format(st.entry_style, st.header, name, param),
            ..st
        }
    } else {
        st
    }
}

/// Processes one plain-text token: in the body it becomes one styled run
/// under the current formatting state; inside a table it feeds the
/// entry under construction character by character.
pub open spec fn step_text(st: SpecParseState, s: Seq<char>) -> SpecParseState {
    match st.mode {
        PMode::Body => SpecParseState {
            body: st.body.push(
                SpecBlock {
                    painter: cur_style(st).painter,
                    paragraph: cur_style(st).paragraph,
                    text: s,
                },
            ),
            ..st
        },
        PMode::Fonts => fonts_text_fold(st, s),
        PMode::Colors => colors_text_fold(st, s),
        PMode::Styles => styles_text_fold(st, s),
    }
}

/// Processes one token. Once a structural error is recorded the state is
/// frozen, so the first offending token is the one reported.
pub open spec fn parse_step(st: SpecParseState, t: SpecToken) -> SpecParseState {
    let next = if st.err is Some {
        st
    } else {
        match t {
            SpecToken::OpeningGroup => step_open(st),
            SpecToken::ClosingGroup => step_close(st),
            SpecToken::ControlWord(name, param, _) => match st.mode {
                PMode::Body => step_word_body(st, name, param),
                PMode::Fonts => step_word_fonts(st, name, param),
                PMode::Colors => step_word_colors(st, name, param),
                PMode::Styles => step_word_styles(st, name, param),
            },
            SpecToken::ControlSymbol(_) => st,
            SpecToken::PlainText(s) => step_text(st, s),
        }
    };
    SpecParseState { pos: st.pos + 1, ..next }
}

/// The parser state after the whole of `toks`, token by token, starting
/// from `st`.
pub open spec fn parse_fold_from(st: SpecParseState, toks: Seq<SpecToken>) -> SpecParseState
    decreases toks.len(),
{
    if toks.len() == 0 {
        st
    } else {
        parse_step(parse_fold_from(st, toks.drop_last()), toks.last())
    }
}

/// Closes the final state: an unmatched `}` was recorded as it happened;
/// a group still open at end of input is the other structural error.
pub open spec fn parse_finalize(st: SpecParseState) -> Result<SpecDocument, RtfError> {
    if st.err is Some {
        Err(RtfError::UnbalancedGroup(st.err->Some_0 as usize))
    } else if st.stack.len() > 1 {
        Err(RtfError::UnbalancedGroup(st.pos as usize))
    } else {
        Ok(SpecDocument { header: st.header, body: st.body })
    }
}

/// What parsing `toks` produces: the document, or the first structural
/// error.
pub open spec fn spec_parse(toks: Seq<SpecToken>) -> Result<SpecDocument, RtfError> {
    parse_finalize(parse_fold_from(parse_init(), toks))
}

/// Inserting into a table and then viewing it is viewing it and then
/// inserting the entry's view.
pub proof fn lemma_map_values_insert<K, A, B>(m: Map<K, A>, k: K, v: A, f: spec_fn(A) -> B)
    ensures
        m.insert(k, v).map_values(f) == m.map_values(f).insert(k, f(v)),
{
    assert(m.insert(k, v).map_values(f) =~= m.map_values(f).insert(k, f(v)));
}

/// A table entry's character fold leaves everything but the header and
/// its own accumulators alone.
pub proof fn lemma_fonts_fold_frame(st: SpecParseState, s: Seq<char>)
    ensures
        ({
            let st2 = fonts_text_fold(st, s);
            &&& st2.stack == st.stack
            &&& st2.mode == st.mode
            &&& st2.table_depth == st.table_depth
            &&& st2.body == st.body
            &&& st2.err == st.err
            &&& st2.pos == st.pos
        }),
    decreases s.len(),
{
    if s.len() > 0 {
        lemma_fonts_fold_frame(st, s.drop_last());
    }
}

pub proof fn lemma_colors_fold_frame(st: SpecParseState, s: Seq<char>)
    ensures
        ({
            let st2 = colors_text_fold(st, s);
            &&& st2.stack == st.stack
            &&& st2.mode == st.mode
            &&& st2.table_depth == st.table_depth
            &&& st2.body == st.body
            &&& st2.err == st.err
            &&& st2.pos == st.pos
        }),
    decreases s.len(),
{
    if s.len() > 0 {
        lemma_colors_fold_frame(st, s.drop_last());
    }
}

pub proof fn lemma_styles_fold_frame(st: SpecParseState, s: Seq<char>)
    ensures
        ({
            let st2 = styles_text_fold(st, s);
            &&& st2.stack == st.stack
            &&& st2.mode == st.mode
            &&& st2.table_depth == st.table_depth
            &&& st2.body == st.body
            &&& st2.err == st.err
            &&& st2.pos == st.pos
        }),
    decreases s.len(),
{
    if s.len() > 0 {
        lemma_styles_fold_frame(st, s.drop_last());
    }
}

/// One step never empties the stack and advances `pos` by one; an
/// error-free step out of an error-free state errs only on an unmatched
/// closing brace.
pub proof fn lemma_parse_step_wf(st: SpecParseState, t: SpecToken)
    requires
        st.stack.len() >= 1,
    ensures
        parse_step(st, t).stack.len() >= 1,
        parse_step(st, t).pos == st.pos + 1,
        parse_step(st, t).err == (if st.err is Some {
            st.err
        } else if t == SpecToken::ClosingGroup && st.stack.len() == 1 {
            Some(st.pos)
        } else {
            None
        }),
{
    match t {
        SpecToken::PlainText(s) => {
            lemma_fonts_fold_frame(st, s);
            lemma_colors_fold_frame(st, s);
            lemma_styles_fold_frame(st, s);
        },
        _ => {},
    }
}

/// Folding from the start keeps the stack nonempty and counts tokens.
pub proof fn lemma_parse_fold_wf(st: SpecParseState, toks: Seq<SpecToken>)
    requires
        st.stack.len() >= 1,
    ensures
        parse_fold_from(st, toks).stack.len() >= 1,
        parse_fold_from(st, toks).pos == st.pos + toks.len(),
    decreases toks.len(),
{
    if toks.len() > 0 {
        lemma_parse_fold_wf(st, toks.drop_last());
        lemma_parse_step_wf(parse_fold_from(st, toks.drop_last()), toks.last());
    }
}

/// Folding one more token is one more step.
pub proof fn lemma_parse_snoc(st: SpecParseState, toks: Seq<SpecToken>, i: int)
    requires
        0 <= i < toks.len(),
    ensures
        parse_fold_from(st, toks.take(i + 1)) == parse_step(
            parse_fold_from(st, toks.take(i)),
            toks[i],
        ),
{
    assert(toks.take(i + 1).drop_last() =~= toks.take(i));
    assert(toks.take(i + 1).last() == toks[i]);
}

/// Once a structural error is recorded, every later state carries it.
pub proof fn lemma_parse_err_persists(st: SpecParseState, toks: Seq<SpecToken>, i: int)
    requires
        0 <= i <= toks.len(),
        st.stack.len() >= 1,
        parse_fold_from(st, toks.take(i)).err is Some,
    ensures
        parse_fold_from(st, toks).err == parse_fold_from(st, toks.take(i)).err,
    decreases toks.len() - i,
{
    if i == toks.len() {
        assert(toks.take(i) =~= toks);
    } else {
        lemma_parse_snoc(st, toks, i);
        lemma_parse_fold_wf(st, toks.take(i));
        lemma_parse_step_wf(parse_fold_from(st, toks.take(i)), toks[i]);
        lemma_parse_err_persists(st, toks, i + 1);
    }
}

/// What a token does to the brace-nesting depth.
pub open spec fn brace_delta(t: SpecToken) -> int {
    match t {
        SpecToken::OpeningGroup => 1,
        SpecToken::ClosingGroup => -1,
        _ => 0,
    }
}

/// The net brace-nesting depth of a token sequence.
pub open spec fn depth(toks: Seq<SpecToken>) -> int
    decreases toks.len(),
{
    if toks.len() == 0 {
        0
    } else {
        depth(toks.drop_last()) + brace_delta(toks.last())
    }
}

/// Whether the nesting depth stays nonnegative at every prefix.
pub open spec fn depth_never_negative(toks: Seq<SpecToken>) -> bool {
    forall|i: int| 0 <= i <= toks.len() ==> depth(#[trigger] toks.take(i)) >= 0
}

/// Whether the groups of a token sequence balance: the depth never goes
/// negative and every opened group is closed.
pub open spec fn balanced(toks: Seq<SpecToken>) -> bool {
    depth_never_negative(toks) && depth(toks) == 0
}

/// Along an error-free fold, the stack height is one more than the
/// nesting depth, and a structural error is recorded exactly when the
/// depth first goes negative.
pub proof fn lemma_fold_tracks_depth(toks: Seq<SpecToken>)
    ensures
        ({
            let e = parse_fold_from(parse_init(), toks);
            &&& (e.err is None <==> depth_never_negative(toks))
            &&& (e.err is None ==> e.stack.len() == 1 + depth(toks))
        }),
    decreases toks.len(),
{
    if toks.len() == 0 {
        assert(depth_never_negative(toks)) by {
            assert(forall|i: int|
                0 <= i <= toks.len() ==> (#[trigger] toks.take(i)) =~= Seq::<SpecToken>::empty());
        }
    } else {
        let dl = toks.drop_last();
        let t = toks.last();
        lemma_fold_tracks_depth(dl);
        let e1 = parse_fold_from(parse_init(), dl);
        let e = parse_fold_from(parse_init(), toks);
        lemma_parse_fold_wf(parse_init(), dl);
        lemma_parse_step_wf(e1, t);
        assert(forall|i: int| 0 <= i <= dl.len() ==> toks.take(i) =~= (#[trigger] dl.take(i)));
        assert(toks.take(toks.len() as int) =~= toks);
        if e1.err is Some {
            assert(!depth_never_negative(dl));
            let i = choose|i: int| 0 <= i <= dl.len() && depth(#[trigger] dl.take(i)) < 0;
            assert(depth(toks.take(i)) < 0);
            assert(!depth_never_negative(toks));
        } else {
            match t {
                SpecToken::PlainText(s) => {
                    lemma_fonts_fold_frame(e1, s);
                    lemma_colors_fold_frame(e1, s);
                    lemma_styles_fold_frame(e1, s);
                },
                _ => {},
            }
            if t == SpecToken::ClosingGroup && e1.stack.len() == 1 {
                assert(depth(toks) == -1);
                assert(e.err is Some);
            } else {
                assert(e.err is None);
                assert(e.stack.len() == 1 + depth(toks));
                assert(depth_never_negative(toks)) by {
                    assert(depth(toks) == depth(dl) + brace_delta(t));
                    assert(depth(toks) >= 0);
                    assert(forall|i: int|
                        0 <= i <= toks.len() ==> depth(#[trigger] toks.take(i)) >= 0) by {
                        assert(forall|i: int|
                            0 <= i < toks.len() ==> depth(#[trigger] toks.take(i)) == depth(
                                dl.take(i),
                            ));
                    }
                }
            }
        }
    }
}

/// Parsing succeeds exactly on balanced token sequences: the nesting
/// depth never goes negative at any prefix and every group is closed.
/// In particular, for any input whose scan succeeds with balanced
/// braces, the whole pipeline succeeds.
pub proof fn theorem_parse_ok_iff_balanced(toks: Seq<SpecToken>)
    ensures
        spec_parse(toks) is Ok <==> balanced(toks),
{
    lemma_fold_tracks_depth(toks);
    lemma_parse_fold_wf(parse_init(), toks);
    let e = parse_fold_from(parse_init(), toks);
    if e.err is None {
        assert(e.stack.len() == 1 + depth(toks));
    }
}

/// Parsing is deterministic: the same token sequence always yields
/// structurally equal documents.
pub proof fn theorem_parse_idempotent(toks: Seq<SpecToken>, d1: SpecDocument, d2: SpecDocument)
    requires
        spec_parse(toks) == Ok::<SpecDocument, RtfError>(d1),
        spec_parse(toks) == Ok::<SpecDocument, RtfError>(d2),
    ensures
        d1 == d2,
{
}

/// Whether a painter's references resolve against the header: each one
/// is either absent or a key of its table.
pub open spec fn painter_refs_ok(p: Painter, h: SpecHeader) -> bool {
    &&& (p.font_ref matches Some(r) ==> h.font_table.contains_key(r))
    &&& (p.color_ref matches Some(r) ==> h.color_table.contains_key(r))
}

/// The reference invariant the parser maintains: every painter it can
/// still reach (on the stack, in an emitted body run, in a stylesheet
/// entry, or in the entry under construction) resolves against the
/// header tables.
pub open spec fn state_refs_ok(st: SpecParseState) -> bool {
    &&& forall|i: int|
        0 <= i < st.stack.len() ==> painter_refs_ok((#[trigger] st.stack[i]).painter, st.header)
    &&& forall|i: int|
        0 <= i < st.body.len() ==> painter_refs_ok((#[trigger] st.body[i]).painter, st.header)
    &&& forall|k: StyleRef|
        st.header.stylesheet.contains_key(k) ==> painter_refs_ok(
            (#[trigger] st.header.stylesheet[k]).painter,
            st.header,
        )
    &&& painter_refs_ok(st.entry_style.painter, st.header)
}

pub proof fn lemma_fonts_fold_refs(st: SpecParseState, s: Seq<char>)
    requires
        state_refs_ok(st),
    ensures
        state_refs_ok(fonts_text_fold(st, s)),
    decreases s.len(),
{
    if s.len() > 0 {
        lemma_fonts_fold_refs(st, s.drop_last());
    }
}

pub proof fn lemma_colors_fold_refs(st: SpecParseState, s: Seq<char>)
    requires
        state_refs_ok(st),
    ensures
        state_refs_ok(colors_text_fold(st, s)),
    decreases s.len(),
{
    if s.len() > 0 {
        lemma_colors_fold_refs(st, s.drop_last());
    }
}

pub proof fn lemma_styles_fold_refs(st: SpecParseState, s: Seq<char>)
    requires
        state_refs_ok(st),
    ensures
        state_refs_ok(styles_text_fold(st, s)),
    decreases s.len(),
{
    if s.len() > 0 {
        lemma_styles_fold_refs(st, s.drop_last());
    }
}

/// One parse step preserves the reference invariant: references are
/// installed only after a successful lookup, and the tables only grow.
pub proof fn lemma_step_refs(st: SpecParseState, t: SpecToken)
    requires
        state_refs_ok(st),
        st.stack.len() >= 1,
    ensures
        state_refs_ok(parse_step(st, t)),
{
    if st.err is None {
        match t {
            SpecToken::PlainText(s) => {
                lemma_fonts_fold_refs(st, s);
                lemma_colors_fold_refs(st, s);
                lemma_styles_fold_refs(st, s);
            },
            _ => {},
        }
    }
}

pub proof fn lemma_fold_refs(st: SpecParseState, toks: Seq<SpecToken>)
    requires
        state_refs_ok(st),
        st.stack.len() >= 1,
    ensures
        state_refs_ok(parse_fold_from(st, toks)),
    decreases toks.len(),
{
    if toks.len() > 0 {
        lemma_fold_refs(st, toks.drop_last());
        lemma_parse_fold_wf(st, toks.drop_last());
        lemma_step_refs(parse_fold_from(st, toks.drop_last()), toks.last());
    }
}

/// Table integrity: in a successfully parsed document, every font or
/// color reference carried by a body run resolves to an entry of the
/// corresponding header table, and every stylesheet entry's references
/// resolve too. (A body `\fN`, `\cfN` or `\sN` that misses its table is
/// treated as absent while parsing and never aborts the parse, which is
/// why no run can carry a dangling reference.)
pub proof fn theorem_table_integrity(toks: Seq<SpecToken>, doc: SpecDocument)
    requires
        spec_parse(toks) == Ok::<SpecDocument, RtfError>(doc),
    ensures
        forall|i: int|
            0 <= i < doc.body.len() ==> painter_refs_ok((#[trigger] doc.body[i]).painter,
                doc.header,
            ),
        forall|k: StyleRef|
            doc.header.stylesheet.contains_key(k) ==> painter_refs_ok(
                (#[trigger] doc.header.stylesheet[k]).painter,
                doc.header,
            ),
{
    lemma_fold_refs(parse_init(), toks);
}

/// Executable mirror of [`toggle_on`].
fn toggle_exec(param: Option<i16>) -> (r: bool)
    ensures
        r == toggle_on(param),
{
    match param {
        Some(0i16) => false,
        _ => true,
    }
}

/// Executable mirror of [`family_of_name`].
fn family_of_chars(name: &Vec<char>) -> (r: Option<FontFamily>)
    ensures
        r == family_of_name(name@),
{
    if chars_eq_str(name, "fnil") {
        Some(FontFamily::Nil)
    } else if chars_eq_str(name, "froman") {
        Some(FontFamily::Roman)
    } else if chars_eq_str(name, "fswiss") {
        Some(FontFamily::Swiss)
    } else if chars_eq_str(name, "fmodern") {
        Some(FontFamily::Modern)
    } else if chars_eq_str(name, "fscript") {
        Some(FontFamily::Script)
    } else if chars_eq_str(name, "fdecor") {
        Some(FontFamily::Decor)
    } else if chars_eq_str(name, "ftech") {
        Some(FontFamily::Tech)
    } else if chars_eq_str(name, "fbidi") {
        Some(FontFamily::Bidi)
    } else {
        None
    }
}

/// Executable mirror of [`apply_format`].
fn apply_format_exec(sty: Style, header: &RtfHeader, name: &Vec<char>, param: Option<i16>) -> (r:
    Style)
    ensures
        r == apply_format(sty, header@, name@, param),
{
    if chars_eq_str(name, "b") {
        Style { painter: Painter { bold: toggle_exec(param), ..sty.painter }, ..sty }
    } else if chars_eq_str(name, "i") {
        Style { painter: Painter { italic: toggle_exec(param), ..sty.painter }, ..sty }
    } else if chars_eq_str(name, "ul") {
        Style { painter: Painter { underline: toggle_exec(param), ..sty.painter }, ..sty }
    } else if chars_eq_str(name, "ulnone") {
        Style { painter: Painter { underline: false, ..sty.painter }, ..sty }
    } else if chars_eq_str(name, "fs") {
        match param {
            Some(n) => if n >= 0 {
                Style { painter: Painter { size: n as u16, ..sty.painter }, ..sty }
            } else {
                sty
            },
            None => sty,
        }
    } else if chars_eq_str(name, "f") {
        match param {
            Some(n) => if n >= 0 {
                let k: u16 = n as u16;
                proof {
                    assert(header@.font_table.contains_key(k) == header.font_table@.contains_key(k))
                        by {
                        assert(header@.font_table.dom() =~= header.font_table@.dom());
                    }
                }
                if header.font_table.contains_key(&k) {
                    Style { painter: Painter { font_ref: Some(k), ..sty.painter }, ..sty }
                } else {
                    sty
                }
            } else {
                sty
            },
            None => sty,
        }
    } else if chars_eq_str(name, "cf") {
        match param {
            Some(n) => if n >= 0 {
                let k: u16 = n as u16;
                if header.color_table.contains_key(&k) {
                    Style { painter: Painter { color_ref: Some(k), ..sty.painter }, ..sty }
                } else {
                    sty
                }
            } else {
                sty
            },
            None => sty,
        }
    } else if chars_eq_str(name, "ql") {
        Style { paragraph: Paragraph { alignment: Alignment::LeftAligned, ..sty.paragraph }, ..sty }
    } else if chars_eq_str(name, "qr") {
        Style {
            paragraph: Paragraph { alignment: Alignment::RightAligned, ..sty.paragraph },
            ..sty
        }
    } else if chars_eq_str(name, "qc") {
        Style { paragraph: Paragraph { alignment: Alignment::Center, ..sty.paragraph }, ..sty }
    } else if chars_eq_str(name, "qj") {
        Style { paragraph: Paragraph { alignment: Alignment::Justify, ..sty.paragraph }, ..sty }
    } else if chars_eq_str(name, "li") {
        match param {
            Some(n) => Style { paragraph: Paragraph { indent: n, ..sty.paragraph }, ..sty },
            None => sty,
        }
    } else if chars_eq_str(name, "sb") {
        match param {
            Some(n) => Style { paragraph: Paragraph { space_before: n, ..sty.paragraph }, ..sty },
            None => sty,
        }
    } else if chars_eq_str(name, "sa") {
        match param {
            Some(n) => Style { paragraph: Paragraph { space_after: n, ..sty.paragraph }, ..sty },
            None => sty,
        }
    } else {
        sty
    }
}

/// The parser's working state: the executable counterpart of
/// [`SpecParseState`] (which additionally carries the error and the
/// token position; the executable parser reports an error by returning).
struct ParseState {
    stack: Vec<Style>,
    mode: PMode,
    table_depth: usize,
    header: RtfHeader,
    body: Vec<StyleBlock>,
    charset_locked: bool,
    pending: bool,
    entry_index: u16,
    fname: Vec<char>,
    fcharset: u8,
    ffamily: FontFamily,
    red: u8,
    green: u8,
    blue: u8,
    color_pending: bool,
    color_count: u16,
    entry_style: Style,
}

impl ParseState {
    /// Field-for-field agreement with a spec state (`err` and `pos` are
    /// the spec state's own bookkeeping).
    spec fn matches(self, st: SpecParseState) -> bool {
        &&& self.stack@ == st.stack
        &&& self.mode == st.mode
        &&& self.table_depth as int == st.table_depth
        &&& self.header@ == st.header
        &&& blocks_view(self.body@) == st.body
        &&& self.charset_locked == st.charset_locked
        &&& self.pending == st.pending
        &&& self.entry_index == st.entry_index
        &&& self.fname@ == st.fname
        &&& self.fcharset == st.fcharset
        &&& self.ffamily == st.ffamily
        &&& self.red == st.red
        &&& self.green == st.green
        &&& self.blue == st.blue
        &&& self.color_pending == st.color_pending
        &&& self.color_count == st.color_count
        &&& self.entry_style == st.entry_style
    }

    fn new() -> (r: ParseState)
        ensures
            r.matches(parse_init()),
    {
        let mut stack: Vec<Style> = Vec::new();
        stack.push(Style::default());
        let r = ParseState {
            stack,
            mode: PMode::Body,
            table_depth: 0,
            header: RtfHeader::new(),
            body: Vec::new(),
            charset_locked: false,
            pending: false,
            entry_index: 0,
            fname: Vec::new(),
            fcharset: 0,
            ffamily: FontFamily::Nil,
            red: 0,
            green: 0,
            blue: 0,
            color_pending: false,
            color_count: 0,
            entry_style: Style::default(),
        };
        proof {
            assert(r.stack@ =~= parse_init().stack);
            assert(blocks_view(r.body@) =~= parse_init().body);
        }
        r
    }

    /// Replaces the formatting state of the innermost open group.
    fn set_current(&mut self, sty: Style, Ghost(st): Ghost<SpecParseState>)
        requires
            old(self).matches(st),
            st.stack.len() >= 1,
        ensures
            final(self).matches(set_cur(st, sty)),
    {
        let _ = self.stack.pop();
        self.stack.push(sty);
        proof {
            assert(self.stack@ =~= st.stack.drop_last().push(sty));
        }
    }

    /// Executable mirror of [`finish_font`].
    fn finish_font_exec(&mut self, Ghost(st): Ghost<SpecParseState>)
        requires
            old(self).matches(st),
        ensures
            final(self).matches(finish_font(st)),
    {
        if self.pending {
            let nm = chars_to_string(&self.fname);
            let f = Font { name: nm, character_set: self.fcharset, font_family: self.ffamily };
            proof {
                lemma_map_values_insert(
                    self.header.font_table@,
                    self.entry_index,
                    f,
                    |x: Font| x@,
                );
            }
            self.header.font_table.insert(self.entry_index, f);
            self.pending = false;
            self.fname = Vec::new();
            self.fcharset = 0;
            self.ffamily = FontFamily::Nil;
        }
    }

    /// Executable mirror of [`finish_color`].
    fn finish_color_exec(&mut self, Ghost(st): Ghost<SpecParseState>)
        requires
            old(self).matches(st),
        ensures
            final(self).matches(finish_color(st)),
    {
        if self.color_count < 65535 {
            let c = Color { red: self.red, green: self.green, blue: self.blue };
            self.header.color_table.insert(self.color_count, c);
            self.red = 0;
            self.green = 0;
            self.blue = 0;
            self.color_pending = false;
            self.color_count = self.color_count + 1;
        } else {
            self.red = 0;
            self.green = 0;
            self.blue = 0;
            self.color_pending = false;
        }
    }

    /// Executable mirror of [`finish_style`].
    fn finish_style_exec(&mut self, Ghost(st): Ghost<SpecParseState>)
        requires
            old(self).matches(st),
        ensures
            final(self).matches(finish_style(st)),
    {
        if self.pending {
            self.header.stylesheet.insert(self.entry_index, self.entry_style);
            self.pending = false;
            self.entry_style = Style::default();
        }
    }

    /// Executable mirror of [`step_word_body`].
    fn word_body(
        &mut self,
        name: &Vec<char>,
        param: Option<i16>,
        t: &Token,
        Ghost(st): Ghost<SpecParseState>,
    )
        requires
            old(self).matches(st),
            st.stack.len() >= 1,
            st.mode == PMode::Body,
            (t@ matches SpecToken::ControlWord(n, p, _tr) && n == name@ && p == param),
        ensures
            final(self).matches(step_word_body(st, name@, param)),
    {
        let cs = CharacterSet::from(t);
        match cs {
            Some(c) => {
                if !self.charset_locked {
                    self.header.character_set = c;
                    self.charset_locked = true;
                    return ;
                }
            },
            None => {},
        }
        if chars_eq_str(name, "fonttbl") {
            self.mode = PMode::Fonts;
            self.table_depth = self.stack.len();
            self.pending = false;
            self.entry_index = 0;
            self.fname = Vec::new();
            self.fcharset = 0;
            self.ffamily = FontFamily::Nil;
        } else if chars_eq_str(name, "colortbl") {
            self.mode = PMode::Colors;
            self.table_depth = self.stack.len();
            self.red = 0;
            self.green = 0;
            self.blue = 0;
            self.color_pending = false;
            self.color_count = 0;
        } else if chars_eq_str(name, "stylesheet") {
            self.mode = PMode::Styles;
            self.table_depth = self.stack.len();
            self.pending = false;
            self.entry_index = 0;
            self.entry_style = Style::default();
        } else if chars_eq_str(name, "s") {
            match param {
                Some(n) => {
                    if n >= 0 {
                        let k: u16 = n as u16;
                        let hit = match self.header.stylesheet.get(&k) {
                            Some(sty) => Some(*sty),
                            None => None,
                        };
                        match hit {
                            Some(sty) => {
                                self.set_current(sty, Ghost(st));
                            },
                            None => {},
                        }
                    }
                },
                None => {},
            }
        } else {
            let l = self.stack.len();
            let cur = self.stack[l - 1];
            let cur2 = apply_format_exec(cur, &self.header, name, param);
            self.set_current(cur2, Ghost(st));
        }
    }

    /// Executable mirror of [`step_word_fonts`].
    fn word_fonts(&mut self, name: &Vec<char>, param: Option<i16>, Ghost(st): Ghost<SpecParseState>)
        requires
            old(self).matches(st),
        ensures
            final(self).matches(step_word_fonts(st, name@, param)),
    {
        if chars_eq_str(name, "f") {
            match param {
                Some(n) => {
                    if n >= 0 {
                        self.finish_font_exec(Ghost(st));
                        self.pending = true;
                        self.entry_index = n as u16;
                        self.fname = Vec::new();
                        self.fcharset = 0;
                        self.ffamily = FontFamily::Nil;
                    }
                },
                None => {},
            }
        } else if chars_eq_str(name, "fcharset") {
            match param {
                Some(n) => {
                    if 0 <= n && n <= 255 {
                        self.fcharset = n as u8;
                    }
                },
                None => {},
            }
        } else {
            match family_of_chars(name) {
                Some(fam) => {
                    self.ffamily = fam;
                },
                None => {},
            }
        }
    }

    /// Executable mirror of [`step_word_colors`].
    fn word_colors(
        &mut self,
        name: &Vec<char>,
        param: Option<i16>,
        Ghost(st): Ghost<SpecParseState>,
    )
        requires
            old(self).matches(st),
        ensures
            final(self).matches(step_word_colors(st, name@, param)),
    {
        match param {
            Some(n) => {
                if 0 <= n && n <= 255 {
                    if chars_eq_str(name, "red") {
                        self.red = n as u8;
                        self.color_pending = true;
                    } else if chars_eq_str(name, "green") {
                        self.green = n as u8;
                        self.color_pending = true;
                    } else if chars_eq_str(name, "blue") {
                        self.blue = n as u8;
                        self.color_pending = true;
                    }
                }
            },
            None => {},
        }
    }

    /// Executable mirror of [`step_word_styles`].
    fn word_styles(
        &mut self,
        name: &Vec<char>,
        param: Option<i16>,
        Ghost(st): Ghost<SpecParseState>,
    )
        requires
            old(self).matches(st),
        ensures
            final(self).matches(step_word_styles(st, name@, param)),
    {
        if chars_eq_str(name, "s") {
            match param {
                Some(n) => {
                    if n >= 0 {
                        self.finish_style_exec(Ghost(st));
                        self.pending = true;
                        self.entry_index = n as u16;
                        self.entry_style = Style::default();
                    }
                },
                None => {},
            }
        } else if self.pending {
            self.entry_style = apply_format_exec(self.entry_style, &self.header, name, param);
        }
    }

    /// Executable mirror of [`step_text`] in body mode.
    fn text_body(&mut self, s: &String, Ghost(st): Ghost<SpecParseState>)
        requires
            old(self).matches(st),
            st.stack.len() >= 1,
            st.mode == PMode::Body,
        ensures
            final(self).matches(step_text(st, s@)),
    {
        let l = self.stack.len();
        let cur = self.stack[l - 1];
        self.body.push(
            StyleBlock { painter: cur.painter, paragraph: cur.paragraph, text: s.clone() },
        );
        proof {
            assert(blocks_view(self.body@) =~= step_text(st, s@).body);
        }
    }

    /// Executable mirror of [`fonts_text_fold`].
    fn text_fonts(&mut self, s: &String, Ghost(st): Ghost<SpecParseState>)
        requires
            old(self).matches(st),
        ensures
            final(self).matches(fonts_text_fold(st, s@)),
    {
        let n = s.as_str().unicode_len();
        let mut j: usize = 0;
        proof {
            assert(s@.take(0) =~= Seq::<char>::empty());
        }
        while j < n
            invariant
                n == s@.len(),
                j <= n,
                self.matches(fonts_text_fold(st, s@.take(j as int))),
            decreases n - j,
        {
            let ghost stj = fonts_text_fold(st, s@.take(j as int));
            proof {
                assert(s@.take(j as int + 1).drop_last() =~= s@.take(j as int));
                assert(s@.take(j as int + 1).last() == s@[j as int]);
            }
            let c = s.as_str().get_char(j);
            if c == ';' {
                self.finish_font_exec(Ghost(stj));
            } else if self.pending {
                self.fname.push(c);
            }
            j += 1;
        }
        proof {
            assert(s@.take(n as int) =~= s@);
        }
    }

    /// Executable mirror of [`colors_text_fold`].
    fn text_colors(&mut self, s: &String, Ghost(st): Ghost<SpecParseState>)
        requires
            old(self).matches(st),
        ensures
            final(self).matches(colors_text_fold(st, s@)),
    {
        let n = s.as_str().unicode_len();
        let mut j: usize = 0;
        proof {
            assert(s@.take(0) =~= Seq::<char>::empty());
        }
        while j < n
            invariant
                n == s@.len(),
                j <= n,
                self.matches(colors_text_fold(st, s@.take(j as int))),
            decreases n - j,
        {
            let ghost stj = colors_text_fold(st, s@.take(j as int));
            proof {
                assert(s@.take(j as int + 1).drop_last() =~= s@.take(j as int));
                assert(s@.take(j as int + 1).last() == s@[j as int]);
            }
            let c = s.as_str().get_char(j);
            if c == ';' {
                self.finish_color_exec(Ghost(stj));
            }
            j += 1;
        }
        proof {
            assert(s@.take(n as int) =~= s@);
        }
    }

    /// Executable mirror of [`styles_text_fold`].
    fn text_styles(&mut self, s: &String, Ghost(st): Ghost<SpecParseState>)
        requires
            old(self).matches(st),
        ensures
            final(self).matches(styles_text_fold(st, s@)),
    {
        let n = s.as_str().unicode_len();
        let mut j: usize = 0;
        proof {
            assert(s@.take(0) =~= Seq::<char>::empty());
        }
        while j < n
            invariant
                n == s@.len(),
                j <= n,
                self.matches(styles_text_fold(st, s@.take(j as int))),
            decreases n - j,
        {
            let ghost stj = styles_text_fold(st, s@.take(j as int));
            proof {
                assert(s@.take(j as int + 1).drop_last() =~= s@.take(j as int));
                assert(s@.take(j as int + 1).last() == s@[j as int]);
            }
            let c = s.as_str().get_char(j);
            if c == ';' {
                self.finish_style_exec(Ghost(stj));
            }
            j += 1;
        }
        proof {
            assert(s@.take(n as int) =~= s@);
        }
    }
}

/// Parses a token sequence into a document.
///
/// Parsing succeeds and returns exactly the document that [`spec_parse`]
/// describes, or fails with the first structural error: a closing brace
/// with no open group (at that token's index), or a group still open
/// when the tokens end (at the token count).
#[verifier::rlimit(60)]
pub fn parse(tokens: &Vec<Token>) -> (r: Result<Document, RtfError>)
    ensures
        (match r {
            Ok(doc) => spec_parse(tokens_view(tokens@)) == Ok::<SpecDocument, RtfError>(doc@),
            Err(e) => spec_parse(tokens_view(tokens@)) == Err::<SpecDocument, RtfError>(e),
        }),
{
    let ghost tv = tokens_view(tokens@);
    let mut ps = ParseState::new();
    let len = tokens.len();
    let mut i: usize = 0;
    proof {
        assert(tv.take(0) =~= Seq::<SpecToken>::empty());
    }
    while i < len
        invariant
            tv == tokens_view(tokens@),
            len == tokens@.len(),
            i <= len,
            ({
                let st = parse_fold_from(parse_init(), tv.take(i as int));
                &&& st.err is None
                &&& ps.matches(st)
                &&& st.pos == i
                &&& st.stack.len() >= 1
            }),
        decreases len - i,
    {
        let ghost st = parse_fold_from(parse_init(), tv.take(i as int));
        proof {
            lemma_parse_snoc(parse_init(), tv, i as int);
            lemma_parse_step_wf(st, tv[i as int]);
            assert(tv[i as int] == tokens@[i as int]@);
        }
        let t = &tokens[i];
        match t {
            Token::OpeningGroup => {
                let l = ps.stack.len();
                let cur = ps.stack[l - 1];
                ps.stack.push(cur);
            },
            Token::ClosingGroup => {
                if ps.stack.len() == 1 {
                    proof {
                        lemma_parse_err_persists(parse_init(), tv, i as int + 1);
                    }
                    return Err(RtfError::UnbalancedGroup(i));
                }
                match ps.mode {
                    PMode::Body => {},
                    PMode::Fonts => {
                        ps.finish_font_exec(Ghost(st));
                    },
                    PMode::Colors => {
                        if ps.color_pending {
                            ps.finish_color_exec(Ghost(st));
                        }
                    },
                    PMode::Styles => {
                        ps.finish_style_exec(Ghost(st));
                    },
                }
                let was = ps.stack.len();
                let _ = ps.stack.pop();
                let in_table = match ps.mode {
                    PMode::Body => false,
                    _ => true,
                };
                if in_table && was == ps.table_depth {
                    ps.mode = PMode::Body;
                }
                proof {
                    assert(ps.stack@ =~= step_close(st).stack);
                }
            },
            Token::ControlWord(name, param, _trailing) => {
                match ps.mode {
                    PMode::Body => ps.word_body(name, *param, t, Ghost(st)),
                    PMode::Fonts => ps.word_fonts(name, *param, Ghost(st)),
                    PMode::Colors => ps.word_colors(name, *param, Ghost(st)),
                    PMode::Styles => ps.word_styles(name, *param, Ghost(st)),
                }
            },
            Token::ControlSymbol(_) => {},
            Token::PlainText(s) => {
                match ps.mode {
                    PMode::Body => ps.text_body(s, Ghost(st)),
                    PMode::Fonts => ps.text_fonts(s, Ghost(st)),
                    PMode::Colors => ps.text_colors(s, Ghost(st)),
                    PMode::Styles => ps.text_styles(s, Ghost(st)),
                }
            },
        }
        i += 1;
    }
    proof {
        assert(tv.take(len as int) =~= tv);
    }
    if ps.stack.len() > 1 {
        return Err(RtfError::UnbalancedGroup(len));
    }
    let doc = Document { header: ps.header, body: ps.body };
    Ok(doc)
}

/// Folding a single token is one step.
pub proof fn lemma_fold_one(st: SpecParseState, t: SpecToken)
    ensures
        parse_fold_from(st, seq![t]) == parse_step(st, t),
{
    assert(seq![t].drop_last() =~= Seq::<SpecToken>::empty());
    assert(seq![t].last() == t);
    assert(parse_fold_from(st, Seq::<SpecToken>::empty()) == st);
}

/// Folding from one state over the two pieces of a split sequence is
/// folding over the whole.
pub proof fn lemma_parse_concat(st: SpecParseState, a: Seq<SpecToken>, b: Seq<SpecToken>)
    ensures
        parse_fold_from(st, a + b) == parse_fold_from(parse_fold_from(st, a), b),
    decreases b.len(),
{
    if b.len() == 0 {
        assert(a + b =~= a);
    } else {
        assert((a + b).drop_last() =~= a + b.drop_last());
        assert((a + b).last() == b.last());
        lemma_parse_concat(st, a, b.drop_last());
    }
}

/// While the nesting depth stays at or above `k - 1` groups over the
/// starting height, the fold never errs, never touches the bottom
/// `k - 1` stack entries, and any table region it is inside was entered
/// at height `k` or above.
pub proof fn lemma_fold_scoped(st: SpecParseState, toks: Seq<SpecToken>, k: int)
    requires
        st.err is None,
        1 <= k <= st.stack.len(),
        forall|i: int|
            0 <= i <= toks.len() ==> st.stack.len() + depth(#[trigger] toks.take(i)) >= k,
        st.mode != PMode::Body ==> k <= st.table_depth <= st.stack.len(),
    ensures
        ({
            let e = parse_fold_from(st, toks);
            &&& e.err is None
            &&& e.stack.len() == st.stack.len() + depth(toks)
            &&& e.stack.subrange(0, k - 1) == st.stack.subrange(0, k - 1)
            &&& (e.mode != PMode::Body ==> k <= e.table_depth <= e.stack.len())
        }),
    decreases toks.len(),
{
    if toks.len() == 0 {
        assert(toks.take(0) =~= toks);
    } else {
        let dl = toks.drop_last();
        let t = toks.last();
        assert(forall|i: int| 0 <= i <= dl.len() ==> (#[trigger] dl.take(i)) =~= toks.take(i));
        assert(forall|i: int|
            0 <= i <= dl.len() ==> st.stack.len() + depth(#[trigger] dl.take(i)) >= k) by {
            assert(forall|i: int|
                0 <= i <= dl.len() ==> depth(#[trigger] dl.take(i)) == depth(toks.take(i)));
        }
        lemma_fold_scoped(st, dl, k);
        let e1 = parse_fold_from(st, dl);
        let e = parse_fold_from(st, toks);
        assert(toks.take(toks.len() as int) =~= toks);
        assert(st.stack.len() + depth(toks) >= k);
        match t {
            SpecToken::ClosingGroup => {
                assert(depth(toks) == depth(dl) - 1);
                assert(e1.stack.len() >= k + 1);
                assert(e.stack.subrange(0, k - 1) =~= e1.stack.subrange(0, k - 1));
            },
            SpecToken::OpeningGroup => {
                assert(e.stack.subrange(0, k - 1) =~= e1.stack.subrange(0, k - 1));
            },
            SpecToken::ControlWord(name, param, _) => {
                assert(e1.stack.len() >= k);
                assert(e.stack.len() == e1.stack.len());
                assert(e.stack.subrange(0, k - 1) =~= e1.stack.subrange(0, k - 1));
            },
            SpecToken::ControlSymbol(_) => {},
            SpecToken::PlainText(s) => {
                lemma_fonts_fold_frame(e1, s);
                lemma_colors_fold_frame(e1, s);
                lemma_styles_fold_frame(e1, s);
            },
        }
    }
}

/// Group inheritance: in the body, a whole group (an opening brace, any
/// balanced token sequence, and its closing brace) leaves the enclosing
/// formatting stack exactly as it was. Formatting words inside the
/// group act only on the pushed copy, so every change made inside is
/// discarded the moment the group closes, and the enclosing group's
/// state is visible again unchanged.
pub proof fn theorem_group_inheritance(st: SpecParseState, mid: Seq<SpecToken>)
    requires
        st.err is None,
        st.stack.len() >= 1,
        st.mode == PMode::Body,
        forall|i: int| 0 <= i <= mid.len() ==> depth(#[trigger] mid.take(i)) >= 0,
        depth(mid) == 0,
    ensures
        ({
            let after = parse_fold_from(
                st,
                seq![SpecToken::OpeningGroup] + mid + seq![SpecToken::ClosingGroup],
            );
            &&& after.err is None
            &&& after.stack == st.stack
            &&& after.mode == PMode::Body
        }),
{
    let l = st.stack.len() as int;
    let opener = seq![SpecToken::OpeningGroup];
    let closer = seq![SpecToken::ClosingGroup];
    let full = opener + mid + closer;
    lemma_parse_concat(st, opener + mid, closer);
    lemma_parse_concat(st, opener, mid);
    assert((opener + mid) + closer =~= full);
    lemma_fold_one(st, SpecToken::OpeningGroup);
    let st0 = parse_fold_from(st, opener);
    assert(st0 == parse_step(st, SpecToken::OpeningGroup));
    assert(st0.stack.len() == l + 1);
    lemma_fold_scoped(st0, mid, l + 1);
    let e = parse_fold_from(st0, mid);
    assert(e.stack.len() == l + 1);
    assert(e.stack.subrange(0, l) == st0.stack.subrange(0, l));
    assert(st0.stack.subrange(0, l) =~= st.stack);
    let after = parse_fold_from(st, full);
    lemma_fold_one(e, SpecToken::ClosingGroup);
    assert(after == parse_step(e, SpecToken::ClosingGroup));
    assert(e.stack.drop_last() =~= e.stack.subrange(0, l));
    assert(after.stack == st.stack);
    assert(after.mode == PMode::Body);
}

/// Plain text in the body is emitted under the formatting state of the
/// innermost open group, exactly as it stands when the text appears.
pub proof fn theorem_text_gets_current_format(st: SpecParseState, s: Seq<char>)
    requires
        st.err is None,
        st.mode == PMode::Body,
        st.stack.len() >= 1,
    ensures
        parse_step(st, SpecToken::PlainText(s)).body == st.body.push(
            SpecBlock {
                painter: cur_style(st).painter,
                paragraph: cur_style(st).paragraph,
                text: s,
            },
        ),
{
}

} // verus!
