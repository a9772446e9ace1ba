use glyph_encodings::parse_tsv;
use glyph_encodings::TsvError;

#[test]
fn decodes_two_rows_end_to_end() {
    let text = "glifname\tuniname\tcodepoints\tunicat\nA\tLATIN CAPITAL LETTER A\t0041\tLu\nB\tLATIN CAPITAL LETTER B\t0042\tLu\n";
    let glyphs = parse_tsv(text).unwrap();
    assert_eq!(glyphs.len(), 2);
    assert_eq!(glyphs[0].name, "A");
    assert_eq!(glyphs[1].name, "B");
    assert_eq!(glyphs[0].unicode.len(), 1);
    assert_eq!(glyphs[0].unicode[0].encoding, 'A');
    assert_eq!(glyphs[0].unicode[0].name, "LATIN CAPITAL LETTER A");
    assert_eq!(glyphs[0].unicode[0].category, "Lu");
    assert_eq!(glyphs[1].unicode.len(), 1);
    assert_eq!(glyphs[1].unicode[0].encoding, 'B');
}

#[test]
fn row_count_and_order_preserved() {
    let text = "glifname\tuniname\tcodepoints\tunicat\none\tX\t0031\tNd\ntwo\tY\t0032\tNd\nthree\tZ\t0033\tNd";
    let glyphs = parse_tsv(text).unwrap();
    assert_eq!(glyphs.len(), 3);
    assert_eq!(glyphs[0].name, "one");
    assert_eq!(glyphs[1].name, "two");
    assert_eq!(glyphs[2].name, "three");
}

#[test]
fn header_order_is_irrelevant_and_extra_columns_ignored() {
    let text = "extra\tunicat\tglifname\tcodepoints\tuniname\njunk\tLu\tA\t0041\tLETTER A\n";
    let glyphs = parse_tsv(text).unwrap();
    assert_eq!(glyphs.len(), 1);
    assert_eq!(glyphs[0].name, "A");
    assert_eq!(glyphs[0].unicode[0].encoding, 'A');
    assert_eq!(glyphs[0].unicode[0].name, "LETTER A");
    assert_eq!(glyphs[0].unicode[0].category, "Lu");
}

#[test]
fn crlf_line_endings_decode_like_plain_newlines() {
    let text = "glifname\tuniname\tcodepoints\tunicat\r\nA\tLETTER A\t0041\tLu\r\n";
    let glyphs = parse_tsv(text).unwrap();
    assert_eq!(glyphs.len(), 1);
    assert_eq!(glyphs[0].unicode[0].encoding, 'A');
}

#[test]
fn multi_valued_fields_zip_in_order() {
    let text = "glifname\tuniname\tcodepoints\tunicat\nfi\tLETTER F,LETTER I\t0066,0069\tLl,Ll\n";
    let glyphs = parse_tsv(text).unwrap();
    assert_eq!(glyphs[0].unicode.len(), 2);
    assert_eq!(glyphs[0].unicode[0].encoding, 'f');
    assert_eq!(glyphs[0].unicode[0].name, "LETTER F");
    assert_eq!(glyphs[0].unicode[1].encoding, 'i');
    assert_eq!(glyphs[0].unicode[1].name, "LETTER I");
}

#[test]
fn zip_truncates_to_shortest_sub_list() {
    // Two names and categories but a single code point: one annotation.
    let text = "glifname\tuniname\tcodepoints\tunicat\ng\tN1,N2\t0041\tLu,Lu\n";
    let glyphs = parse_tsv(text).unwrap();
    assert_eq!(glyphs[0].unicode.len(), 1);
    assert_eq!(glyphs[0].unicode[0].name, "N1");

    // More code points than names: the name list is the limit.
    let text2 = "glifname\tuniname\tcodepoints\tunicat\ng\tN1\t0041,0042\tLu,Lu\n";
    let glyphs2 = parse_tsv(text2).unwrap();
    assert_eq!(glyphs2[0].unicode.len(), 1);
    assert_eq!(glyphs2[0].unicode[0].encoding, 'A');
}

#[test]
fn blank_codepoint_tokens_are_dropped() {
    // An empty codepoints field leaves the glyph without annotations even
    // though the other lists hold placeholders.
    let text = "glifname\tuniname\tcodepoints\tunicat\nspacer\tplaceholder\t\tZs\n";
    let glyphs = parse_tsv(text).unwrap();
    assert_eq!(glyphs[0].unicode.len(), 0);

    // A whitespace-only token between commas is dropped too.
    let text2 = "glifname\tuniname\tcodepoints\tunicat\ng\tN1,N2\t0041, \tLu,Lu\n";
    let glyphs2 = parse_tsv(text2).unwrap();
    assert_eq!(glyphs2[0].unicode.len(), 1);
    assert_eq!(glyphs2[0].unicode[0].encoding, 'A');
}

#[test]
fn missing_unicat_column_is_a_schema_error() {
    let text = "glifname\tuniname\tcodepoints\nA\tLETTER A\t0041\n";
    let err = parse_tsv(text).unwrap_err();
    assert!(err.is_schema_error());
    match err {
        TsvError::MissingColumn { column } => assert_eq!(column, "unicat"),
        _ => panic!("expected a missing-column error"),
    }
}

#[test]
fn empty_input_is_a_schema_error() {
    let err = parse_tsv("").unwrap_err();
    match err {
        TsvError::MissingColumn { column } => assert_eq!(column, "glifname"),
        _ => panic!("expected a missing-column error"),
    }
}

#[test]
fn non_hex_codepoint_is_a_malformed_record_error() {
    let text = "glifname\tuniname\tcodepoints\tunicat\nA\tLETTER A\tzz\tLu\n";
    let err = parse_tsv(text).unwrap_err();
    assert!(!err.is_schema_error());
    match err {
        TsvError::BadCodepoint { row, token } => {
            assert_eq!(row, 0);
            assert_eq!(token, "zz");
        },
        _ => panic!("expected a bad-codepoint error"),
    }
}

#[test]
fn surrogate_codepoint_is_a_malformed_record_error() {
    let text = "glifname\tuniname\tcodepoints\tunicat\nA\tLETTER A\tD800\tLu\n";
    let err = parse_tsv(text).unwrap_err();
    match err {
        TsvError::BadCodepoint { row, token } => {
            assert_eq!(row, 0);
            assert_eq!(token, "D800");
        },
        _ => panic!("expected a bad-codepoint error"),
    }
}

#[test]
fn out_of_range_codepoint_is_a_malformed_record_error() {
    let text = "glifname\tuniname\tcodepoints\tunicat\nA\tLETTER A\t110000\tLu\n";
    let err = parse_tsv(text).unwrap_err();
    assert!(matches!(err, TsvError::BadCodepoint { .. }));
}

#[test]
fn wrong_field_count_is_a_malformed_record_error() {
    let text = "glifname\tuniname\tcodepoints\tunicat\nA\tLETTER A\t0041\n";
    let err = parse_tsv(text).unwrap_err();
    match err {
        TsvError::FieldCount { row, expected, found } => {
            assert_eq!(row, 0);
            assert_eq!(expected, 4);
            assert_eq!(found, 3);
        },
        _ => panic!("expected a field-count error"),
    }
}

#[test]
fn decode_fails_fast_on_the_first_bad_row() {
    let text = "glifname\tuniname\tcodepoints\tunicat\nA\tLETTER A\t0041\tLu\nB\tLETTER B\tqq\tLu\nC\tLETTER C\tzz\tLu\n";
    let err = parse_tsv(text).unwrap_err();
    match err {
        TsvError::BadCodepoint { row, token } => {
            assert_eq!(row, 1);
            assert_eq!(token, "qq");
        },
        _ => panic!("expected a bad-codepoint error"),
    }
}

#[test]
fn glyph_with_several_codepoints_keeps_their_order() {
    let text = "glifname\tuniname\tcodepoints\tunicat\nlig\tA,B,C\t0043,0041,0042\tLu,Lu,Lu\n";
    let glyphs = parse_tsv(text).unwrap();
    let cps: Vec<char> = glyphs[0].unicode.iter().map(|u| u.encoding).collect();
    assert_eq!(cps, vec!['C', 'A', 'B']);
}

#[test]
fn header_only_input_decodes_to_nothing() {
    let text = "glifname\tuniname\tcodepoints\tunicat\n";
    let glyphs = parse_tsv(text).unwrap();
    assert_eq!(glyphs.len(), 0);
}

#[test]
fn largest_scalar_value_decodes() {
    let text = "glifname\tuniname\tcodepoints\tunicat\nlast\tPRIVATE\t10FFFF\tCo\n";
    let glyphs = parse_tsv(text).unwrap();
    assert_eq!(glyphs[0].unicode[0].encoding, '\u{10FFFF}');
}

#[test]
fn oversized_hex_token_is_a_malformed_record_error() {
    let text = "glifname\tuniname\tcodepoints\tunicat\nA\tLETTER A\tFFFFFFFFF\tLu\n";
    let err = parse_tsv(text).unwrap_err();
    assert!(matches!(err, TsvError::BadCodepoint { .. }));
}

#[test]
fn hex_is_case_insensitive() {
    let text = "glifname\tuniname\tcodepoints\tunicat\ng\tSNOWMAN\t26c4\tSo\n";
    let glyphs = parse_tsv(text).unwrap();
    assert_eq!(glyphs[0].unicode[0].encoding, '\u{26C4}');
}
