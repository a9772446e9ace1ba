use glyph_encodings::parse_tsv;
use glyph_encodings::to_unique_codepoints;
use glyph_encodings::GlyphRef;
use glyph_encodings::UnicodeData;

fn annot(name: &str, category: &str, encoding: char) -> UnicodeData {
    UnicodeData { name: name.to_string(), category: category.to_string(), encoding }
}

#[test]
fn reduction_of_distinct_codepoints_warns_nothing() {
    let glyphs = vec![
        GlyphRef { name: "A".to_string(), unicode: vec![annot("LETTER A", "Lu", 'A')] },
        GlyphRef { name: "B".to_string(), unicode: vec![annot("LETTER B", "Lu", 'B')] },
    ];
    let (uniques, warnings) = to_unique_codepoints(&glyphs);
    assert_eq!(uniques.len(), 2);
    assert_eq!(uniques[0].encoding, 'A');
    assert_eq!(uniques[1].encoding, 'B');
    assert_eq!(warnings.len(), 0);
}

#[test]
fn duplicate_encoding_keeps_first_record_and_warns_once() {
    let glyphs = vec![
        GlyphRef { name: "A".to_string(), unicode: vec![annot("FIRST A", "Lu", 'A')] },
        GlyphRef { name: "A.alt".to_string(), unicode: vec![annot("SECOND A", "Lu", 'A')] },
    ];
    let (uniques, warnings) = to_unique_codepoints(&glyphs);
    assert_eq!(uniques.len(), 1);
    assert_eq!(uniques[0].encoding, 'A');
    // First-encountered record wins as the representative.
    assert_eq!(uniques[0].name, "FIRST A");
    assert_eq!(warnings.len(), 1);
    assert_eq!(warnings[0], "U+0041");
}

#[test]
fn each_later_occurrence_warns_separately() {
    let glyphs = vec![
        GlyphRef { name: "x1".to_string(), unicode: vec![annot("X", "Ll", 'x')] },
        GlyphRef { name: "x2".to_string(), unicode: vec![annot("X", "Ll", 'x')] },
        GlyphRef { name: "x3".to_string(), unicode: vec![annot("X", "Ll", 'x')] },
    ];
    let (uniques, warnings) = to_unique_codepoints(&glyphs);
    assert_eq!(uniques.len(), 1);
    assert_eq!(warnings, vec!["U+0078".to_string(), "U+0078".to_string()]);
}

#[test]
fn reduction_is_idempotent_on_its_own_output() {
    let glyphs = vec![
        GlyphRef { name: "A".to_string(), unicode: vec![annot("LETTER A", "Lu", 'A')] },
        GlyphRef {
            name: "lig".to_string(),
            unicode: vec![annot("LETTER A", "Lu", 'A'), annot("LETTER B", "Lu", 'B')],
        },
    ];
    let (first, first_warnings) = to_unique_codepoints(&glyphs);
    assert_eq!(first_warnings.len(), 1);
    let wrapped: Vec<GlyphRef> = first
        .iter()
        .map(|u| GlyphRef {
            name: format!("wrap.{}", u.encoding),
            unicode: vec![u.clone()],
        })
        .collect();
    let (second, second_warnings) = to_unique_codepoints(&wrapped);
    assert_eq!(second, first);
    assert_eq!(second_warnings.len(), 0);
}

#[test]
fn reduction_of_empty_input_is_empty() {
    let glyphs: Vec<GlyphRef> = Vec::new();
    let (uniques, warnings) = to_unique_codepoints(&glyphs);
    assert_eq!(uniques.len(), 0);
    assert_eq!(warnings.len(), 0);
}

#[test]
fn warning_label_pads_to_four_digits_and_grows_past_them() {
    let glyphs = vec![
        GlyphRef { name: "nul1".to_string(), unicode: vec![annot("NUL", "Cc", '\u{0}')] },
        GlyphRef { name: "nul2".to_string(), unicode: vec![annot("NUL", "Cc", '\u{0}')] },
        GlyphRef { name: "g1".to_string(), unicode: vec![annot("GRIN", "So", '\u{1F600}')] },
        GlyphRef { name: "g2".to_string(), unicode: vec![annot("GRIN", "So", '\u{1F600}')] },
    ];
    let (uniques, warnings) = to_unique_codepoints(&glyphs);
    assert_eq!(uniques.len(), 2);
    assert_eq!(warnings, vec!["U+0000".to_string(), "U+1F600".to_string()]);
}

#[test]
fn end_to_end_decode_then_reduce() {
    let text = "glifname\tuniname\tcodepoints\tunicat\nA\tLATIN CAPITAL LETTER A\t0041\tLu\nB\tLATIN CAPITAL LETTER B\t0042\tLu\n";
    let glyphs = parse_tsv(text).unwrap();
    assert_eq!(glyphs.len(), 2);
    let (uniques, warnings) = to_unique_codepoints(&glyphs);
    assert_eq!(uniques.len(), 2);
    let cps: Vec<char> = uniques.iter().map(|u| u.encoding).collect();
    assert_eq!(cps, vec!['A', 'B']);
    assert_eq!(warnings.len(), 0);
}

#[test]
fn codepoint_label_formats_upper_case_padded_hex() {
    assert_eq!(glyph_encodings::hex::codepoint_label('A'), "U+0041");
    assert_eq!(glyph_encodings::hex::codepoint_label('\u{0}'), "U+0000");
    assert_eq!(glyph_encodings::hex::codepoint_label('\u{FFFD}'), "U+FFFD");
    assert_eq!(glyph_encodings::hex::codepoint_label('\u{10FFFF}'), "U+10FFFF");
}
