use rtf_parser::header::{CharacterSet, Color, FontFamily, RtfHeader, Style};
use rtf_parser::parser::Painter;
use rtf_parser::paragraph::{Alignment, Paragraph};
use rtf_parser::tokens::Token;

fn word(name: &str, param: Option<i16>) -> Token {
    Token::ControlWord(name.chars().collect(), param, false)
}

#[test]
fn character_set_from_tokens() {
    assert_eq!(CharacterSet::from(&word("ansi", None)), Some(CharacterSet::Ansi));
    assert_eq!(CharacterSet::from(&word("mac", None)), Some(CharacterSet::Mac));
    assert_eq!(CharacterSet::from(&word("pc", None)), Some(CharacterSet::Pc));
    assert_eq!(CharacterSet::from(&word("pca", None)), Some(CharacterSet::Pca));
    assert_eq!(
        CharacterSet::from(&word("ansicpg", Some(1252))),
        Some(CharacterSet::Ansicpg(1252))
    );
    assert_eq!(CharacterSet::from(&word("ansicpg", Some(-1))), None);
    assert_eq!(CharacterSet::from(&word("deff", Some(0))), None);
    assert_eq!(CharacterSet::from(&Token::OpeningGroup), None);
    assert_eq!(CharacterSet::from(&Token::PlainText("ansi".to_string())), None);
}

#[test]
fn font_family_from_strings() {
    assert_eq!(FontFamily::from("\\fnil"), Some(FontFamily::Nil));
    assert_eq!(FontFamily::from("\\froman"), Some(FontFamily::Roman));
    assert_eq!(FontFamily::from("\\fswiss"), Some(FontFamily::Swiss));
    assert_eq!(FontFamily::from("\\fmodern"), Some(FontFamily::Modern));
    assert_eq!(FontFamily::from("\\fscript"), Some(FontFamily::Script));
    assert_eq!(FontFamily::from("\\fdecor"), Some(FontFamily::Decor));
    assert_eq!(FontFamily::from("\\ftech"), Some(FontFamily::Tech));
    assert_eq!(FontFamily::from("\\fbidi"), Some(FontFamily::Bidi));
    assert_eq!(FontFamily::from("\\fxyz"), None);
    assert_eq!(FontFamily::from("froman"), None);
}

#[test]
fn defaults_are_well_defined() {
    let h = RtfHeader::default();
    assert_eq!(h.character_set, CharacterSet::Ansi);
    assert!(h.font_table.is_empty());
    assert!(h.color_table.is_empty());
    assert!(h.stylesheet.is_empty());

    let c = Color::default();
    assert_eq!((c.red, c.green, c.blue), (0, 0, 0));

    let p = Painter::default();
    assert!(!p.bold && !p.italic && !p.underline);
    assert_eq!(p.font_ref, None);
    assert_eq!(p.color_ref, None);
    assert_eq!(p.size, 0);

    let par = Paragraph::default();
    assert_eq!(par.alignment, Alignment::LeftAligned);
    assert_eq!((par.indent, par.space_before, par.space_after), (0, 0, 0));

    let s = Style::default();
    assert_eq!(s.painter, Painter::default());
    assert_eq!(s.paragraph, Paragraph::default());
}
