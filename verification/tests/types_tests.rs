use std::cmp::Ordering;

use glyph_encodings::GlyphRef;
use glyph_encodings::UnicodeData;

fn annot(name: &str, category: &str, encoding: char) -> UnicodeData {
    UnicodeData { name: name.to_string(), category: category.to_string(), encoding }
}

#[test]
fn unicode_data_identity_is_the_encoding_alone() {
    let a = annot("LATIN CAPITAL LETTER A", "Lu", 'A');
    let b = annot("completely different", "Xx", 'A');
    let c = annot("LATIN CAPITAL LETTER A", "Lu", 'B');
    assert_eq!(a, b);
    assert_ne!(a, c);
    assert_eq!(a.partial_cmp(&b), Some(Ordering::Equal));
    assert_eq!(a.partial_cmp(&c), Some(Ordering::Less));
    assert_eq!(c.partial_cmp(&a), Some(Ordering::Greater));
}

#[test]
fn glyph_equality_is_structural() {
    let g1 = GlyphRef { name: "A".to_string(), unicode: vec![annot("LETTER A", "Lu", 'A')] };
    let g2 = GlyphRef { name: "A".to_string(), unicode: vec![annot("LETTER A", "Lu", 'A')] };
    let g3 = GlyphRef { name: "B".to_string(), unicode: vec![annot("LETTER A", "Lu", 'A')] };
    let g4 = GlyphRef { name: "A".to_string(), unicode: vec![] };
    assert_eq!(g1, g2);
    assert_ne!(g1, g3);
    assert_ne!(g1, g4);
}

#[test]
fn glyph_ordering_puts_encoded_before_unencoded() {
    let b = GlyphRef { name: "b".to_string(), unicode: vec![] };
    let a = GlyphRef { name: "a".to_string(), unicode: vec![annot("LETTER B", "Lu", 'B')] };
    let c = GlyphRef { name: "c".to_string(), unicode: vec![annot("LETTER A", "Lu", 'A')] };
    // Encoded glyphs precede unencoded ones; among encoded glyphs, ascending
    // code point; so the order is c (U+0041), a (U+0042), b.
    assert_eq!(c.partial_cmp(&a), Some(Ordering::Less));
    assert_eq!(a.partial_cmp(&b), Some(Ordering::Less));
    assert_eq!(c.partial_cmp(&b), Some(Ordering::Less));
    assert_eq!(b.partial_cmp(&c), Some(Ordering::Greater));

    let mut glyphs = vec![b, a, c];
    glyphs.sort_by(|x, y| x.partial_cmp(y).unwrap());
    let names: Vec<&str> = glyphs.iter().map(|g| g.name.as_str()).collect();
    assert_eq!(names, vec!["c", "a", "b"]);
}

#[test]
fn unencoded_glyphs_order_by_name() {
    let x = GlyphRef { name: "alpha".to_string(), unicode: vec![] };
    let y = GlyphRef { name: "beta".to_string(), unicode: vec![] };
    assert_eq!(x.partial_cmp(&y), Some(Ordering::Less));
    assert_eq!(y.partial_cmp(&x), Some(Ordering::Greater));
    assert_eq!(x.partial_cmp(&x), Some(Ordering::Equal));
}

#[test]
fn encoded_glyphs_compare_by_first_codepoint_only() {
    let g1 = GlyphRef {
        name: "zzz".to_string(),
        unicode: vec![annot("LETTER A", "Lu", 'A'), annot("LETTER Z", "Lu", 'Z')],
    };
    let g2 = GlyphRef { name: "aaa".to_string(), unicode: vec![annot("LETTER B", "Lu", 'B')] };
    assert_eq!(g1.partial_cmp(&g2), Some(Ordering::Less));
}

#[test]
fn display_name_is_the_glyph_name() {
    let g = GlyphRef { name: "A.alt".to_string(), unicode: vec![] };
    assert_eq!(g.display_name(), "A.alt");
}
