//! The record model: `UnicodeData` (one Unicode annotation of a glyph) and
//! `GlyphRef` (a named glyph with its ordered annotations), together with
//! their equality and ordering semantics.
//!
//! A `UnicodeData` record is identified by its code point alone: equality and
//! ordering ignore the descriptive `name` and `category` text.  A `GlyphRef`
//! orders by the code point of its first annotation; glyphs with at least one
//! annotation come before glyphs with none, and glyphs with none order by
//! name.

use core::cmp::Ordering;
use vstd::prelude::*;
use vstd::std_specs::cmp::PartialEqSpecImpl;
use vstd::std_specs::cmp::PartialOrdSpecImpl;

use crate::text::char_cmp;
use crate::text::lex_cmp;
use crate::text::str_lex_cmp;

verus! {

/// One Unicode annotation of a glyph: a display name, a general-category
/// tag, and the code point.  The code point is the identity of the record;
/// name and category are descriptive payload.
#[derive(Debug)]
pub struct UnicodeData {
    pub name: String,
    pub category: String,
    pub encoding: char,
}

/// Mathematical model of a `UnicodeData` record.
#[verifier::ext_equal]
pub ghost struct UnicodeDataModel {
    pub name: Seq<char>,
    pub category: Seq<char>,
    pub encoding: char,
}

impl View for UnicodeData {
    type V = UnicodeDataModel;

    open spec fn view(&self) -> UnicodeDataModel {
        UnicodeDataModel { name: self.name@, category: self.category@, encoding: self.encoding }
    }
}

impl Clone for UnicodeData {
    fn clone(&self) -> (r: Self)
        ensures
            r@ == self@,
    {
        UnicodeData {
            name: self.name.clone(),
            category: self.category.clone(),
            encoding: self.encoding,
        }
    }
}

impl PartialEq for UnicodeData {
    fn eq(&self, other: &Self) -> bool {
        self.encoding == other.encoding
    }
}

impl PartialEqSpecImpl for UnicodeData {
    open spec fn obeys_eq_spec() -> bool {
        true
    }

    open spec fn eq_spec(&self, other: &UnicodeData) -> bool {
        self.encoding == other.encoding
    }
}

impl PartialOrd for UnicodeData {
    fn partial_cmp(&self, other: &Self) -> Option<Ordering> {
        let a = self.encoding as u32;
        let b = other.encoding as u32;
        if a < b {
            Some(Ordering::Less)
        } else if a == b {
            Some(Ordering::Equal)
        } else {
            Some(Ordering::Greater)
        }
    }
}

impl PartialOrdSpecImpl for UnicodeData {
    open spec fn obeys_partial_cmp_spec() -> bool {
        true
    }

    open spec fn partial_cmp_spec(&self, other: &UnicodeData) -> Option<Ordering> {
        Some(char_cmp(self.encoding, other.encoding))
    }
}

/// A glyph of the font: its name and the ordered list of Unicode annotations
/// it encodes (zero for an unencoded glyph, several for ligatures and
/// variant sequences).
#[derive(Debug)]
pub struct GlyphRef {
    pub name: String,
    pub unicode: Vec<UnicodeData>,
}

/// Mathematical model of a `GlyphRef`.
#[verifier::ext_equal]
pub ghost struct GlyphRefModel {
    pub name: Seq<char>,
    pub unicode: Seq<UnicodeDataModel>,
}

impl View for GlyphRef {
    type V = GlyphRefModel;

    open spec fn view(&self) -> GlyphRefModel {
        GlyphRefModel {
            name: self.name@,
            unicode: Seq::new(self.unicode@.len(), |i: int| self.unicode@[i]@),
        }
    }
}

impl Clone for GlyphRef {
    fn clone(&self) -> (r: Self)
        ensures
            r@ == self@,
    {
        let mut unicode: Vec<UnicodeData> = Vec::new();
        let mut i: usize = 0;
        while i < self.unicode.len()
            invariant
                0 <= i <= self.unicode@.len(),
                unicode@.len() == i,
                forall|j: int| 0 <= j < i ==> unicode@[j]@ == self.unicode@[j]@,
            decreases self.unicode@.len() - i,
        {
            unicode.push(self.unicode[i].clone());
            i = i + 1;
        }
        let r = GlyphRef { name: self.name.clone(), unicode };
        proof {
            assert(r@.unicode =~= self@.unicode);
            assert(r@ =~= self@);
        }
        r
    }
}

/// Equality of two glyph models, as the record model defines it: equal names
/// and annotation lists of equal length whose entries agree code point by
/// code point.
pub open spec fn glyph_eq(a: GlyphRefModel, b: GlyphRefModel) -> bool {
    &&& a.name == b.name
    &&& a.unicode.len() == b.unicode.len()
    &&& forall|i: int| 0 <= i < a.unicode.len() ==> a.unicode[i].encoding == b.unicode[i].encoding
}

/// Ordering of two glyph models: by first code point when both are encoded,
/// encoded before unencoded, and unencoded glyphs by name.
pub open spec fn glyph_cmp(a: GlyphRefModel, b: GlyphRefModel) -> Ordering {
    if a.unicode.len() > 0 && b.unicode.len() > 0 {
        char_cmp(a.unicode[0].encoding, b.unicode[0].encoding)
    } else if a.unicode.len() > 0 {
        Ordering::Less
    } else if b.unicode.len() > 0 {
        Ordering::Greater
    } else {
        lex_cmp(a.name, b.name)
    }
}

impl PartialEq for GlyphRef {
    fn eq(&self, other: &Self) -> bool {
        if !(self.name == other.name) {
            return false;
        }
        if self.unicode.len() != other.unicode.len() {
            return false;
        }
        let mut i: usize = 0;
        while i < self.unicode.len()
            invariant
                0 <= i <= self.unicode@.len(),
                self.unicode@.len() == other.unicode@.len(),
                forall|j: int| 0 <= j < i ==> self.unicode@[j].encoding == other.unicode@[j].encoding,
            decreases self.unicode@.len() - i,
        {
            if self.unicode[i].encoding != other.unicode[i].encoding {
                assert(self@.unicode[i as int].encoding != other@.unicode[i as int].encoding);
                return false;
            }
            i = i + 1;
        }
        assert(forall|j: int| 0 <= j < self@.unicode.len()
            ==> self@.unicode[j].encoding == other@.unicode[j].encoding);
        true
    }
}

impl PartialEqSpecImpl for GlyphRef {
    open spec fn obeys_eq_spec() -> bool {
        true
    }

    open spec fn eq_spec(&self, other: &GlyphRef) -> bool {
        glyph_eq(self@, other@)
    }
}

impl PartialOrd for GlyphRef {
    fn partial_cmp(&self, other: &Self) -> Option<Ordering> {
        if self.unicode.len() > 0 && other.unicode.len() > 0 {
            let a = self.unicode[0].encoding as u32;
            let b = other.unicode[0].encoding as u32;
            if a < b {
                Some(Ordering::Less)
            } else if a == b {
                Some(Ordering::Equal)
            } else {
                Some(Ordering::Greater)
            }
        } else if self.unicode.len() > 0 {
            Some(Ordering::Less)
        } else if other.unicode.len() > 0 {
            Some(Ordering::Greater)
        } else {
            Some(str_lex_cmp(self.name.as_str(), other.name.as_str()))
        }
    }
}

impl PartialOrdSpecImpl for GlyphRef {
    open spec fn obeys_partial_cmp_spec() -> bool {
        true
    }

    open spec fn partial_cmp_spec(&self, other: &GlyphRef) -> Option<Ordering> {
        Some(glyph_cmp(self@, other@))
    }
}

impl GlyphRef {
    /// The display text of a glyph reference: its name.
    pub fn display_name(&self) -> (r: String)
        ensures
            r@ == self@.name,
    {
        self.name.clone()
    }
}

/// The model of one annotation built from its three parts.
pub open spec fn unicode_entry(name: Seq<char>, category: Seq<char>, encoding: char) -> UnicodeDataModel {
    UnicodeDataModel { name, category, encoding }
}

/// The models of a sequence of glyphs.
pub open spec fn glyph_models(s: Seq<GlyphRef>) -> Seq<GlyphRefModel> {
    s.map_values(|g: GlyphRef| g@)
}

/// The models of a sequence of annotation records.
pub open spec fn unicode_models(s: Seq<UnicodeData>) -> Seq<UnicodeDataModel> {
    s.map_values(|u: UnicodeData| u@)
}

/// Identity of a `UnicodeData` record is its code point alone: two records
/// compare equal exactly when their code points agree, and their ordering is
/// the numeric ordering of the code points, whatever their name and category
/// text hold.
pub proof fn lemma_unicode_data_identity_by_encoding(a: UnicodeData, b: UnicodeData)
    ensures
        vstd::std_specs::cmp::PartialEqSpec::eq_spec(&a, &b) <==> a.encoding == b.encoding,
        vstd::std_specs::cmp::PartialOrdSpec::partial_cmp_spec(&a, &b) == Some(
            char_cmp(a.encoding, b.encoding),
        ),
        a.encoding == b.encoding ==> vstd::std_specs::cmp::PartialOrdSpec::partial_cmp_spec(
            &a,
            &b,
        ) == Some(Ordering::Equal),
{
}

/// Both record types are totally ordered: comparison never returns `None`.
pub proof fn lemma_order_is_total(a: GlyphRef, b: GlyphRef, u: UnicodeData, v: UnicodeData)
    ensures
        vstd::std_specs::cmp::PartialOrdSpec::partial_cmp_spec(&a, &b) is Some,
        vstd::std_specs::cmp::PartialOrdSpec::partial_cmp_spec(&u, &v) is Some,
{
}

} // verus!
