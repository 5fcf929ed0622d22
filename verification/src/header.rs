//! The document header: character set, font table, color table and
//! stylesheet, together with the reference types the body uses to point
//! into those tables.

use std::collections::HashMap;
use vstd::prelude::*;
use vstd::string::StrSliceExecFns;

use crate::paragraph::Paragraph;
use crate::parser::Painter;
use crate::tokens::{SpecToken, Token};

verus! {

/// Index of a color in the color table, referenced from the body by `\cfN`.
pub type ColorRef = u16;

/// Index of a font in the font table, referenced from the body by `\fN`.
pub type FontRef = u16;

/// Index of a style in the stylesheet, referenced from the body by `\sN`.
pub type StyleRef = u16;

pub type ColorTable = HashMap<ColorRef, Color>;

pub type FontTable = HashMap<FontRef, Font>;

pub type StyleSheet = HashMap<StyleRef, Style>;

/// A reusable formatting preset stored in the stylesheet.
#[derive(Clone, Copy, Debug, PartialEq, Eq, Structural)]
pub struct Style {
    /// The character-level attributes.
    pub painter: Painter,
    /// The layout attributes.
    pub paragraph: Paragraph,
}

impl Style {
    /// The default style: default painter, default paragraph layout.
    pub open spec fn spec_default() -> Style {
        Style { painter: Painter::spec_default(), paragraph: Paragraph::spec_default() }
    }
}

impl Default for Style {
    fn default() -> (r: Style)
        ensures
            r == Style::spec_default(),
    {
        Style { painter: Painter::default(), paragraph: Paragraph::default() }
    }
}

/// An RGB color with 8-bit channels; the default is black.
#[derive(Clone, Copy, Debug, PartialEq, Eq, Structural)]
pub struct Color {
    pub red: u8,
    pub green: u8,
    pub blue: u8,
}

impl Color {
    /// The default color: black.
    pub open spec fn spec_default() -> Color {
        Color { red: 0, green: 0, blue: 0 }
    }
}

impl Default for Color {
    fn default() -> (r: Color)
        ensures
            r == Color::spec_default(),
    {
        Color { red: 0, green: 0, blue: 0 }
    }
}

/// The closed set of font families, mapped from the control words
/// `\fnil`, `\froman` and so on; an unknown family string maps to nothing.
#[derive(Clone, Copy, Debug, PartialEq, Eq, Structural)]
pub enum FontFamily {
    Nil,
    Roman,
    Swiss,
    Modern,
    Script,
    Decor,
    Tech,
    Bidi,
}

/// The font family declared by a full control-word string such as
/// `\froman`, or `None` when the string declares no known family.
pub open spec fn spec_font_family(s: Seq<char>) -> Option<FontFamily> {
    if s == r"\fnil"@ {
        Some(FontFamily::Nil)
    } else if s == r"\froman"@ {
        Some(FontFamily::Roman)
    } else if s == r"\fswiss"@ {
        Some(FontFamily::Swiss)
    } else if s == r"\fmodern"@ {
        Some(FontFamily::Modern)
    } else if s == r"\fscript"@ {
        Some(FontFamily::Script)
    } else if s == r"\fdecor"@ {
        Some(FontFamily::Decor)
    } else if s == r"\ftech"@ {
        Some(FontFamily::Tech)
    } else if s == r"\fbidi"@ {
        Some(FontFamily::Bidi)
    } else {
        None
    }
}

impl FontFamily {
    /// Maps a full control-word string (backslash included) to the font
    /// family it declares.
    pub fn from(string: &str) -> (r: Option<FontFamily>)
        ensures
            r == spec_font_family(string@),
    {
        if str_eq(string, r"\fnil") {
            Some(FontFamily::Nil)
        } else if str_eq(string, r"\froman") {
            Some(FontFamily::Roman)
        } else if str_eq(string, r"\fswiss") {
            Some(FontFamily::Swiss)
        } else if str_eq(string, r"\fmodern") {
            Some(FontFamily::Modern)
        } else if str_eq(string, r"\fscript") {
            Some(FontFamily::Script)
        } else if str_eq(string, r"\fdecor") {
            Some(FontFamily::Decor)
        } else if str_eq(string, r"\ftech") {
            Some(FontFamily::Tech)
        } else if str_eq(string, r"\fbidi") {
            Some(FontFamily::Bidi)
        } else {
            None
        }
    }
}

/// A font table entry.
#[derive(Clone, Debug, PartialEq)]
pub struct Font {
    pub name: String,
    pub character_set: u8,
    pub font_family: FontFamily,
}

/// The mathematical shadow of [`Font`]: the name as a `Seq<char>`.
pub struct SpecFont {
    pub name: Seq<char>,
    pub character_set: u8,
    pub font_family: FontFamily,
}

impl View for Font {
    type V = SpecFont;

    open spec fn view(&self) -> SpecFont {
        SpecFont {
            name: self.name@,
            character_set: self.character_set,
            font_family: self.font_family,
        }
    }
}

/// The character set a document declares in its header preamble; the
/// default is `Ansi`.
#[derive(Clone, Copy, Debug, PartialEq, Eq, Structural)]
pub enum CharacterSet {
    Ansi,
    Mac,
    Pc,
    Pca,
    Ansicpg(u16),
}

/// The character set declared by a token, or `None` when the token is
/// no such declaration.
pub open spec fn spec_character_set(t: SpecToken) -> Option<CharacterSet> {
    match t {
        SpecToken::ControlWord(name, param, _) => if name == "ansi"@ {
            Some(CharacterSet::Ansi)
        } else if name == "mac"@ {
            Some(CharacterSet::Mac)
        } else if name == "pc"@ {
            Some(CharacterSet::Pc)
        } else if name == "pca"@ {
            Some(CharacterSet::Pca)
        } else if name == "ansicpg"@ {
            match param {
                Some(n) => if n >= 0 {
                    Some(CharacterSet::Ansicpg(n as u16))
                } else {
                    None
                },
                None => None,
            }
        } else {
            None
        },
        _ => None,
    }
}

impl CharacterSet {
    /// Maps a token to the character set it declares, if any.
    pub fn from(token: &Token) -> (r: Option<CharacterSet>)
        ensures
            r == spec_character_set(token@),
    {
        match token {
            Token::ControlWord(name, param, _) => if chars_eq_str(name, "ansi") {
                Some(CharacterSet::Ansi)
            } else if chars_eq_str(name, "mac") {
                Some(CharacterSet::Mac)
            } else if chars_eq_str(name, "pc") {
                Some(CharacterSet::Pc)
            } else if chars_eq_str(name, "pca") {
                Some(CharacterSet::Pca)
            } else if chars_eq_str(name, "ansicpg") {
                match param {
                    Some(n) => if *n >= 0 {
                        Some(CharacterSet::Ansicpg(*n as u16))
                    } else {
                        None
                    },
                    None => None,
                }
            } else {
                None
            },
            _ => None,
        }
    }
}

/// Information about the document: the declared character set and the
/// three reference tables the body resolves against.
#[derive(Clone, Debug, PartialEq)]
pub struct RtfHeader {
    pub character_set: CharacterSet,
    pub font_table: FontTable,
    pub color_table: ColorTable,
    pub stylesheet: StyleSheet,
}

/// The mathematical shadow of [`RtfHeader`]: tables as `Map`s.
pub struct SpecHeader {
    pub character_set: CharacterSet,
    pub font_table: Map<FontRef, SpecFont>,
    pub color_table: Map<ColorRef, Color>,
    pub stylesheet: Map<StyleRef, Style>,
}

impl View for RtfHeader {
    type V = SpecHeader;

    open spec fn view(&self) -> SpecHeader {
        SpecHeader {
            character_set: self.character_set,
            font_table: self.font_table@.map_values(|f: Font| f@),
            color_table: self.color_table@,
            stylesheet: self.stylesheet@,
        }
    }
}

impl SpecHeader {
    /// The header every parse starts from: default character set, all
    /// three tables empty.
    pub open spec fn spec_empty() -> SpecHeader {
        SpecHeader {
            character_set: CharacterSet::Ansi,
            font_table: Map::empty(),
            color_table: Map::empty(),
            stylesheet: Map::empty(),
        }
    }
}

impl RtfHeader {
    /// An empty header: character set `Ansi`, all tables empty.
    pub fn new() -> (r: RtfHeader)
        ensures
            r@ == SpecHeader::spec_empty(),
    {
        let r = RtfHeader {
            character_set: CharacterSet::Ansi,
            font_table: HashMap::new(),
            color_table: HashMap::new(),
            stylesheet: HashMap::new(),
        };
        proof {
            assert(r@.font_table =~= Map::<FontRef, SpecFont>::empty());
            assert(r@ == SpecHeader::spec_empty());
        }
        r
    }
}

impl Default for RtfHeader {
    fn default() -> (r: RtfHeader)
        ensures
            r@ == SpecHeader::spec_empty(),
    {
        RtfHeader::new()
    }
}

/// Whether two string slices hold the same characters.
pub fn str_eq(a: &str, b: &str) -> (r: bool)
    ensures
        r == (a@ == b@),
{
    let alen: usize = a.unicode_len();
    let blen: usize = b.unicode_len();
    if alen != blen {
        proof {
            assert(a@ != b@) by {
                assert(a@.len() != b@.len());
            }
        }
        return false;
    }
    let mut i: usize = 0;
    while i < alen
        invariant
            alen == a@.len(),
            alen == b@.len(),
            i <= alen,
            forall|j: int| 0 <= j < i ==> a@[j] == b@[j],
        decreases alen - i,
    {
        if a.get_char(i) != b.get_char(i) {
            proof {
                assert(a@ != b@) by {
                    assert(a@[i as int] != b@[i as int]);
                }
            }
            return false;
        }
        i += 1;
    }
    proof {
        assert(a@ =~= b@);
    }
    true
}

/// Whether a character vector holds the same characters as a string slice.
pub fn chars_eq_str(a: &Vec<char>, b: &str) -> (r: bool)
    ensures
        r == (a@ == b@),
{
    let blen: usize = b.unicode_len();
    if a.len() != blen {
        proof {
            assert(a@ != b@) by {
                assert(a@.len() != b@.len());
            }
        }
        return false;
    }
    let mut i: usize = 0;
    while i < blen
        invariant
            blen == b@.len(),
            blen == a@.len(),
            i <= blen,
            forall|j: int| 0 <= j < i ==> a@[j] == b@[j],
        decreases blen - i,
    {
        if a[i] != b.get_char(i) {
            proof {
                assert(a@ != b@) by {
                    assert(a@[i as int] != b@[i as int]);
                }
            }
            return false;
        }
        i += 1;
    }
    proof {
        assert(a@ =~= b@);
    }
    true
}

} // verus!
