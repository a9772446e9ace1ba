//! Reduction: folds a sequence of glyphs into the distinct code points they
//! encode.  The first-seen record wins for each code point; every later
//! occurrence of an already-seen code point is kept out of the result and
//! reported as a warning instead, so that double-encoded glyphs surface
//! without failing the pipeline.

use vstd::prelude::*;

use crate::hex::codepoint_label;
use crate::hex::cp_label;
use crate::types::glyph_models;
use crate::types::unicode_models;
use crate::types::GlyphRef;
use crate::types::GlyphRefModel;
use crate::types::UnicodeData;
use crate::types::UnicodeDataModel;

verus! {

/// Every annotation record of a glyph sequence, flattened in order: glyph
/// order first, position within a glyph's list second.
pub open spec fn all_entries(gs: Seq<GlyphRefModel>) -> Seq<UnicodeDataModel>
    decreases gs.len(),
{
    if gs.len() == 0 {
        Seq::<UnicodeDataModel>::empty()
    } else {
        all_entries(gs.drop_last()) + gs.last().unicode
    }
}

/// Whether some record in `s` already carries the code point `c`.
pub open spec fn has_encoding(s: Seq<UnicodeDataModel>, c: char) -> bool {
    exists|i: int| 0 <= i < s.len() && s[i].encoding == c
}

/// The records of `items` with distinct code points, first occurrence kept,
/// in first-seen order.
pub open spec fn dedup_by_encoding(items: Seq<UnicodeDataModel>) -> Seq<UnicodeDataModel>
    decreases items.len(),
{
    if items.len() == 0 {
        Seq::<UnicodeDataModel>::empty()
    } else {
        let prev = dedup_by_encoding(items.drop_last());
        if has_encoding(prev, items.last().encoding) {
            prev
        } else {
            prev.push(items.last())
        }
    }
}

/// The code points seen again after their first occurrence, once per later
/// occurrence, in occurrence order: what reduction warns about.
pub open spec fn duplicate_encodings(items: Seq<UnicodeDataModel>) -> Seq<char>
    decreases items.len(),
{
    if items.len() == 0 {
        Seq::<char>::empty()
    } else {
        let prev = duplicate_encodings(items.drop_last());
        if has_encoding(dedup_by_encoding(items.drop_last()), items.last().encoding) {
            prev.push(items.last().encoding)
        } else {
            prev
        }
    }
}

/// The reduction of a glyph sequence: its distinct code points.
pub open spec fn reduced(gs: Seq<GlyphRefModel>) -> Seq<UnicodeDataModel> {
    dedup_by_encoding(all_entries(gs))
}

/// The duplicate code points a reduction warns about, in occurrence order.
pub open spec fn reduction_warnings(gs: Seq<GlyphRefModel>) -> Seq<char> {
    duplicate_encodings(all_entries(gs))
}

/// Whether a record with code point `e` is already present.
fn contains_encoding(uniq: &Vec<UnicodeData>, e: char) -> (r: bool)
    ensures
        r == has_encoding(unicode_models(uniq@), e),
{
    let mut i: usize = 0;
    while i < uniq.len()
        invariant
            0 <= i <= uniq@.len(),
            forall|j: int| 0 <= j < i ==> unicode_models(uniq@)[j].encoding != e,
        decreases uniq@.len() - i,
    {
        if uniq[i].encoding == e {
            assert(unicode_models(uniq@)[i as int].encoding == e);
            return true;
        }
        i = i + 1;
    }
    false
}

/// Collects the distinct code points of a glyph sequence, in first-seen
/// order (glyphs in sequence order, each glyph's annotations in list
/// order).  The first record seen for a code point is the one kept; every
/// later occurrence contributes one warning instead, the `U+` label of the
/// duplicated code point, in occurrence order.
pub fn to_unique_codepoints(gvec: &Vec<GlyphRef>) -> (r: (Vec<UnicodeData>, Vec<String>))
    ensures
        unicode_models(r.0@) == reduced(glyph_models(gvec@)),
        r.1@.len() == reduction_warnings(glyph_models(gvec@)).len(),
        forall|j: int|
            0 <= j < r.1@.len() ==> r.1@[j]@ == cp_label(
                #[trigger] reduction_warnings(glyph_models(gvec@))[j],
            ),
{
    let ghost gm = glyph_models(gvec@);
    let mut uniq: Vec<UnicodeData> = Vec::new();
    let mut warnings: Vec<String> = Vec::new();
    let ghost seen = Seq::<UnicodeDataModel>::empty();
    let mut gi: usize = 0;
    proof {
        assert(gm.take(0) =~= Seq::<GlyphRefModel>::empty());
        assert(unicode_models(uniq@) =~= Seq::<UnicodeDataModel>::empty());
    }
    while gi < gvec.len()
        invariant
            gm == glyph_models(gvec@),
            0 <= gi <= gvec@.len(),
            gm.len() == gvec@.len(),
            seen == all_entries(gm.take(gi as int)),
            unicode_models(uniq@) == dedup_by_encoding(seen),
            warnings@.len() == duplicate_encodings(seen).len(),
            forall|j: int|
                0 <= j < warnings@.len() ==> warnings@[j]@ == cp_label(
                    #[trigger] duplicate_encodings(seen)[j],
                ),
        decreases gvec@.len() - gi,
    {
        let glyph = &gvec[gi];
        let ghost gv = glyph@;
        proof {
            assert(gm[gi as int] == gv);
        }
        let mut ui: usize = 0;
        let ghost seen_outer = seen;
        proof {
            assert(gv.unicode.take(0) =~= Seq::<UnicodeDataModel>::empty());
            assert(seen + gv.unicode.take(0) =~= seen);
        }
        while ui < glyph.unicode.len()
            invariant
                gm == glyph_models(gvec@),
                0 <= gi < gvec@.len(),
                gm.len() == gvec@.len(),
                gv == gvec@[gi as int]@,
                glyph == &gvec[gi as int],
                0 <= ui <= gv.unicode.len(),
                gv.unicode.len() == glyph.unicode@.len(),
                seen_outer == all_entries(gm.take(gi as int)),
                seen == seen_outer + gv.unicode.take(ui as int),
                unicode_models(uniq@) == dedup_by_encoding(seen),
                warnings@.len() == duplicate_encodings(seen).len(),
                forall|j: int|
                    0 <= j < warnings@.len() ==> warnings@[j]@ == cp_label(
                        #[trigger] duplicate_encodings(seen)[j],
                    ),
            decreases gv.unicode.len() - ui,
        {
            let entry = &glyph.unicode[ui];
            let ghost ev = entry@;
            proof {
                assert(gv.unicode[ui as int] == ev);
                assert((seen.push(ev)).drop_last() =~= seen);
                assert(seen.push(ev).last() == ev);
                assert(seen_outer + gv.unicode.take(ui + 1) =~= seen.push(ev));
            }
            if contains_encoding(&uniq, entry.encoding) {
                let label = codepoint_label(entry.encoding);
                warnings.push(label);
                proof {
                    assert(duplicate_encodings(seen.push(ev)) =~= duplicate_encodings(
                        seen,
                    ).push(ev.encoding));
                    assert(dedup_by_encoding(seen.push(ev)) == dedup_by_encoding(seen));
                }
            } else {
                uniq.push(entry.clone());
                proof {
                    assert(unicode_models(uniq@) =~= dedup_by_encoding(seen).push(ev));
                    assert(dedup_by_encoding(seen.push(ev)) =~= dedup_by_encoding(seen).push(ev));
                    assert(duplicate_encodings(seen.push(ev)) =~= duplicate_encodings(seen));
                }
            }
            proof {
                seen = seen.push(ev);
            }
            ui = ui + 1;
        }
        proof {
            assert(gv.unicode.take(gv.unicode.len() as int) =~= gv.unicode);
            assert(gm.take(gi + 1).drop_last() =~= gm.take(gi as int));
            assert(gm.take(gi + 1).last() == gv);
            assert(all_entries(gm.take(gi + 1)) =~= seen_outer + gv.unicode);
            assert(seen =~= all_entries(gm.take(gi + 1)));
        }
        gi = gi + 1;
    }
    proof {
        assert(gm.take(gvec@.len() as int) =~= gm);
    }
    (uniq, warnings)
}

/// In the reduction of any glyph sequence, every code point appears at most
/// once.
pub proof fn lemma_reduced_distinct(items: Seq<UnicodeDataModel>)
    ensures
        forall|i: int, j: int|
            0 <= i < j < dedup_by_encoding(items).len() ==> dedup_by_encoding(items)[i].encoding
                != dedup_by_encoding(items)[j].encoding,
    decreases items.len(),
{
    if items.len() > 0 {
        lemma_reduced_distinct(items.drop_last());
        let prev = dedup_by_encoding(items.drop_last());
        let e = items.last().encoding;
        let whole = dedup_by_encoding(items);
        if !has_encoding(prev, e) {
            assert forall|i: int, j: int| 0 <= i < j < whole.len() implies whole[i].encoding
                != whole[j].encoding by {
                if j == prev.len() as int {
                    assert(!(0 <= i < prev.len() && prev[i].encoding == e));
                }
            }
        }
    }
}

/// Reducing a list of records whose code points are already pairwise
/// distinct changes nothing and warns about nothing.
pub proof fn lemma_dedup_of_distinct(items: Seq<UnicodeDataModel>)
    requires
        forall|i: int, j: int|
            0 <= i < j < items.len() ==> items[i].encoding != items[j].encoding,
    ensures
        dedup_by_encoding(items) == items,
        duplicate_encodings(items) == Seq::<char>::empty(),
    decreases items.len(),
{
    if items.len() == 0 {
        assert(dedup_by_encoding(items) =~= items);
    } else {
        lemma_dedup_of_distinct(items.drop_last());
        assert(!has_encoding(items.drop_last(), items.last().encoding));
        assert(dedup_by_encoding(items) =~= items);
    }
}

/// A flat sequence of single-annotation glyphs carries exactly the records
/// wrapped into it.
pub proof fn lemma_all_entries_of_singletons(ws: Seq<GlyphRefModel>, items: Seq<UnicodeDataModel>)
    requires
        ws.len() == items.len(),
        forall|i: int| 0 <= i < ws.len() ==> (#[trigger] ws[i].unicode) == seq![items[i]],
    ensures
        all_entries(ws) == items,
    decreases ws.len(),
{
    if ws.len() == 0 {
        assert(all_entries(ws) =~= items);
    } else {
        lemma_all_entries_of_singletons(ws.drop_last(), items.drop_last());
        assert(all_entries(ws) =~= items.drop_last() + seq![items.last()]);
        assert(items.drop_last() + seq![items.last()] =~= items);
    }
}

/// Reduction is idempotent: wrap the reduction's own output in glyphs of one
/// annotation each (whatever their names) and reduce again, and the same
/// records come back, with no warnings at all.
pub proof fn lemma_reduction_idempotent(gs: Seq<GlyphRefModel>, ws: Seq<GlyphRefModel>)
    requires
        ws.len() == reduced(gs).len(),
        forall|i: int| 0 <= i < ws.len() ==> (#[trigger] ws[i].unicode) == seq![reduced(gs)[i]],
    ensures
        reduced(ws) == reduced(gs),
        reduction_warnings(ws) == Seq::<char>::empty(),
{
    lemma_all_entries_of_singletons(ws, reduced(gs));
    lemma_reduced_distinct(all_entries(gs));
    lemma_dedup_of_distinct(reduced(gs));
}

} // verus!
