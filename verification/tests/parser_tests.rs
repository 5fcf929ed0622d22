use rtf_parser::header::CharacterSet;
use rtf_parser::lexer::scan;
use rtf_parser::paragraph::Alignment;
use rtf_parser::parse_rtf;
use rtf_parser::parser::parse;
use rtf_parser::tokens::RtfError;

#[test]
fn scenario_header_and_styled_body() {
    let doc = parse_rtf("{\\rtf1\\ansi{\\fonttbl{\\f0 Arial;}}\\f0\\b Hello\\b0 World}").unwrap();
    assert_eq!(doc.header.character_set, CharacterSet::Ansi);
    let font = doc.header.font_table.get(&0).unwrap();
    assert_eq!(font.name, "Arial");
    assert_eq!(doc.body.len(), 2);
    assert_eq!(doc.body[0].text, "Hello");
    assert!(doc.body[0].painter.bold);
    assert_eq!(doc.body[0].painter.font_ref, Some(0));
    assert_eq!(doc.body[1].text, "World");
    assert!(!doc.body[1].painter.bold);
    assert_eq!(doc.body[1].painter.font_ref, Some(0));
}

#[test]
fn scenario_unterminated_group_fails() {
    // Tokens: `{`, `\rtf1`, `\ansi `, `{`, `unterminated` - five in all,
    // so the structural error is reported at token index 5.
    let r = parse_rtf("{\\rtf1\\ansi {unterminated");
    assert_eq!(r.unwrap_err(), RtfError::UnbalancedGroup(5));
}

#[test]
fn scenario_top_level_implicit_group() {
    // Formatting outside any braces is legal at the implicit top group.
    let doc = parse_rtf("\\b Bold\\b0 plain").unwrap();
    assert_eq!(doc.body.len(), 2);
    assert_eq!(doc.body[0].text, "Bold");
    assert!(doc.body[0].painter.bold);
    assert_eq!(doc.body[1].text, "plain");
    assert!(!doc.body[1].painter.bold);
}

#[test]
fn unmatched_closing_brace_fails_at_its_index() {
    assert_eq!(parse_rtf("}x").unwrap_err(), RtfError::UnbalancedGroup(0));
    assert_eq!(parse_rtf("x}}").unwrap_err(), RtfError::UnbalancedGroup(1));
}

#[test]
fn empty_group_contributes_nothing() {
    let doc = parse_rtf("{}").unwrap();
    assert_eq!(doc.body.len(), 0);
    assert_eq!(doc.header.character_set, CharacterSet::Ansi);
    assert!(doc.header.font_table.is_empty());
}

#[test]
fn group_inheritance_reverts_on_close() {
    let doc = parse_rtf("a{\\b b}c").unwrap();
    assert_eq!(doc.body.len(), 3);
    assert!(!doc.body[0].painter.bold);
    assert!(doc.body[1].painter.bold);
    assert_eq!(doc.body[1].text, "b");
    assert!(!doc.body[2].painter.bold);
}

#[test]
fn nested_groups_inherit_from_parent() {
    let doc = parse_rtf("{\\i a{\\b b}c}").unwrap();
    assert_eq!(doc.body.len(), 3);
    assert!(doc.body[0].painter.italic && !doc.body[0].painter.bold);
    assert!(doc.body[1].painter.italic && doc.body[1].painter.bold);
    assert!(doc.body[2].painter.italic && !doc.body[2].painter.bold);
}

#[test]
fn color_table_and_reference() {
    let doc = parse_rtf("{\\rtf1{\\colortbl;\\red255\\green1\\blue2;}\\cf1 x}").unwrap();
    let c0 = doc.header.color_table.get(&0).unwrap();
    assert_eq!((c0.red, c0.green, c0.blue), (0, 0, 0));
    let c1 = doc.header.color_table.get(&1).unwrap();
    assert_eq!((c1.red, c1.green, c1.blue), (255, 1, 2));
    assert_eq!(doc.body.len(), 1);
    assert_eq!(doc.body[0].painter.color_ref, Some(1));
}

#[test]
fn stylesheet_entry_and_application() {
    let doc = parse_rtf("{\\rtf1{\\stylesheet{\\s1\\b Head;}}\\s1 x}").unwrap();
    let s1 = doc.header.stylesheet.get(&1).unwrap();
    assert!(s1.painter.bold);
    assert_eq!(doc.body.len(), 1);
    assert_eq!(doc.body[0].text, "x");
    assert!(doc.body[0].painter.bold);
}

#[test]
fn unresolved_references_fall_back_to_inherited() {
    // `\f5`, `\cf3` and `\s9` miss their tables: the parse still
    // succeeds and the previous (default) values stay in force.
    let doc = parse_rtf("\\f5\\cf3\\s9 x").unwrap();
    assert_eq!(doc.body.len(), 1);
    assert_eq!(doc.body[0].painter.font_ref, None);
    assert_eq!(doc.body[0].painter.color_ref, None);
    assert!(!doc.body[0].painter.bold);
}

#[test]
fn font_table_family_charset_and_last_write_wins() {
    let doc =
        parse_rtf("{\\rtf1{\\fonttbl{\\f0\\fswiss\\fcharset1 Arial;}{\\f1\\froman Times;}}}")
            .unwrap();
    let f0 = doc.header.font_table.get(&0).unwrap();
    assert_eq!(f0.name, "Arial");
    assert_eq!(f0.character_set, 1);
    assert_eq!(f0.font_family, rtf_parser::header::FontFamily::Swiss);
    let f1 = doc.header.font_table.get(&1).unwrap();
    assert_eq!(f1.name, "Times");
    assert_eq!(f1.font_family, rtf_parser::header::FontFamily::Roman);

    let doc = parse_rtf("{\\rtf1{\\fonttbl{\\f0 A;}{\\f0 B;}}}").unwrap();
    assert_eq!(doc.header.font_table.len(), 1);
    assert_eq!(doc.header.font_table.get(&0).unwrap().name, "B");
}

#[test]
fn font_table_entry_terminated_by_group_close() {
    // A table entry missing its `;` is closed implicitly by the group.
    let doc = parse_rtf("{\\rtf1{\\fonttbl{\\f2 Consolas}}x}").unwrap();
    assert_eq!(doc.header.font_table.get(&2).unwrap().name, "Consolas");
    assert_eq!(doc.body.len(), 1);
    assert_eq!(doc.body[0].text, "x");
}

#[test]
fn first_character_set_declaration_wins() {
    let doc = parse_rtf("{\\rtf1\\mac\\ansi x}").unwrap();
    assert_eq!(doc.header.character_set, CharacterSet::Mac);
}

#[test]
fn character_set_code_page() {
    let doc = parse_rtf("{\\rtf1\\ansicpg1252 x}").unwrap();
    assert_eq!(doc.header.character_set, CharacterSet::Ansicpg(1252));
}

#[test]
fn paragraph_layout_words() {
    let doc = parse_rtf("\\qc\\li100\\sb10\\sa20 x").unwrap();
    assert_eq!(doc.body.len(), 1);
    let p = doc.body[0].paragraph;
    assert_eq!(p.alignment, Alignment::Center);
    assert_eq!(p.indent, 100);
    assert_eq!(p.space_before, 10);
    assert_eq!(p.space_after, 20);
}

#[test]
fn font_size_and_underline() {
    let doc = parse_rtf("\\ul\\fs24 x\\ulnone y").unwrap();
    assert_eq!(doc.body.len(), 2);
    assert!(doc.body[0].painter.underline);
    assert_eq!(doc.body[0].painter.size, 24);
    assert!(!doc.body[1].painter.underline);
}

#[test]
fn unrecognized_words_are_ignored() {
    let doc = parse_rtf("\\rtf1\\deff0\\viewkind4 x").unwrap();
    assert_eq!(doc.body.len(), 1);
    assert_eq!(doc.body[0].text, "x");
}

#[test]
fn parse_same_tokens_twice_yields_equal_documents() {
    let toks = scan("{\\rtf1\\ansi{\\fonttbl{\\f0 Arial;}}\\f0\\b Hi\\b0 there}").unwrap();
    let d1 = parse(&toks).unwrap();
    let d2 = parse(&toks).unwrap();
    assert_eq!(d1, d2);
}

#[test]
fn lexical_error_propagates_through_pipeline() {
    assert_eq!(parse_rtf("oops\\").unwrap_err(), RtfError::DanglingEscape(5));
}
