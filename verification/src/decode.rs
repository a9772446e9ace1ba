//! The TSV decoder: turns a tab-separated text blob with a header row into a
//! sequence of [`GlyphRef`] records.
//!
//! The first line is the header; the columns `glifname`, `uniname`,
//! `codepoints` and `unicat` are located by name (order irrelevant, extra
//! columns ignored).  Every following line is one data row whose tab-field
//! count must match the header.  Within a row, `uniname`, `codepoints` and
//! `unicat` are comma-separated sub-lists; `codepoints` entries are base-16
//! code points, entries blank after trimming are dropped, and the three
//! sub-lists are zipped positionally, stopping at the shortest.  Decoding is
//! all-or-nothing: a missing column or a malformed row fails the whole call.

use vstd::prelude::*;
use vstd::utf8::char_u32_cast;
use vstd::utf8::is_scalar;

use crate::hex::hex_token_ok;
use crate::hex::hex_token_value;
use crate::hex::parse_hex;
use crate::text::split_char;
use crate::text::split_str;
use crate::text::str_eq;
use crate::text::views_of;
use crate::types::glyph_models;
use crate::types::unicode_entry;
use crate::types::GlyphRef;
use crate::types::GlyphRefModel;
use crate::types::UnicodeData;

verus! {

/// Why a decode failed: a required header column is absent (schema error), or
/// a data row is malformed - wrong tab-field count for the declared header,
/// or a `codepoints` token that is not a base-16 Unicode scalar value.  Row
/// numbers count data rows from zero, header excluded.
#[derive(Debug)]
pub enum TsvError {
    MissingColumn { column: String },
    FieldCount { row: usize, expected: usize, found: usize },
    BadCodepoint { row: usize, token: String },
}

/// Mathematical model of a [`TsvError`].
#[verifier::ext_equal]
pub ghost enum TsvErrorModel {
    MissingColumn { column: Seq<char> },
    FieldCount { row: int, expected: int, found: int },
    BadCodepoint { row: int, token: Seq<char> },
}

impl View for TsvError {
    type V = TsvErrorModel;

    open spec fn view(&self) -> TsvErrorModel {
        match self {
            TsvError::MissingColumn { column } => TsvErrorModel::MissingColumn {
                column: column@,
            },
            TsvError::FieldCount { row, expected, found } => TsvErrorModel::FieldCount {
                row: *row as int,
                expected: *expected as int,
                found: *found as int,
            },
            TsvError::BadCodepoint { row, token } => TsvErrorModel::BadCodepoint {
                row: *row as int,
                token: token@,
            },
        }
    }
}

impl TsvError {
    /// True of a schema error: a required header column was absent.
    pub fn is_schema_error(&self) -> (r: bool)
        ensures
            r == (self@ is MissingColumn),
    {
        match self {
            TsvError::MissingColumn { .. } => true,
            _ => false,
        }
    }
}

/// A line with one trailing carriage return removed, so that input with
/// `\r\n` line ends decodes like input with bare `\n`.
pub open spec fn strip_cr(line: Seq<char>) -> Seq<char> {
    if line.len() > 0 && line.last() == '\r' {
        line.drop_last()
    } else {
        line
    }
}

/// The lines of the input text: pieces between `\n`, a final empty piece
/// (from a trailing newline) dropped, carriage returns stripped.
pub open spec fn lines_of(text: Seq<char>) -> Seq<Seq<char>> {
    let raw = split_char(text, '\n');
    let kept = if raw.last().len() == 0 {
        raw.drop_last()
    } else {
        raw
    };
    kept.map_values(|l: Seq<char>| strip_cr(l))
}

/// The tab-separated fields of one line.
pub open spec fn fields_of(line: Seq<char>) -> Seq<Seq<char>> {
    split_char(line, '\t')
}

/// The header fields of the input: the fields of its first line, or nothing
/// when the input has no lines at all.
pub open spec fn header_fields(text: Seq<char>) -> Seq<Seq<char>> {
    if lines_of(text).len() == 0 {
        Seq::<Seq<char>>::empty()
    } else {
        fields_of(lines_of(text)[0])
    }
}

/// The data rows of the input: every line after the header.
pub open spec fn rows_of(text: Seq<char>) -> Seq<Seq<char>> {
    if lines_of(text).len() == 0 {
        Seq::<Seq<char>>::empty()
    } else {
        lines_of(text).drop_first()
    }
}

/// The position of the first field equal to `name`, if any.
pub open spec fn field_index(fields: Seq<Seq<char>>, name: Seq<char>) -> Option<int>
    decreases fields.len(),
{
    if fields.len() == 0 {
        Option::None
    } else if fields[0] == name {
        Option::Some(0int)
    } else {
        match field_index(fields.drop_first(), name) {
            Option::Some(i) => Option::Some(i + 1),
            Option::None => Option::None,
        }
    }
}

pub proof fn lemma_field_index_at(fields: Seq<Seq<char>>, name: Seq<char>, i: int)
    requires
        0 <= i <= fields.len(),
        forall|j: int| 0 <= j < i ==> fields[j] != name,
    ensures
        i < fields.len() && fields[i] == name ==> field_index(fields, name) == Option::Some(i),
        i == fields.len() ==> field_index(fields, name) is None,
    decreases i,
{
    if i == 0 {
    } else {
        assert(fields[0] != name);
        lemma_field_index_at(fields.drop_first(), name, i - 1);
    }
}

/// All four required columns are present in the header.
pub open spec fn header_ok(header: Seq<Seq<char>>) -> bool {
    &&& field_index(header, "glifname"@) is Some
    &&& field_index(header, "uniname"@) is Some
    &&& field_index(header, "codepoints"@) is Some
    &&& field_index(header, "unicat"@) is Some
}

/// The first required column the header lacks, checked in a fixed order.
pub open spec fn first_missing_column(header: Seq<Seq<char>>) -> Seq<char> {
    if field_index(header, "glifname"@) is None {
        "glifname"@
    } else if field_index(header, "uniname"@) is None {
        "uniname"@
    } else if field_index(header, "codepoints"@) is None {
        "codepoints"@
    } else {
        "unicat"@
    }
}

/// The positions of the four required columns in the header row.
#[verifier::ext_equal]
pub ghost struct ColumnsModel {
    pub glifname: int,
    pub uniname: int,
    pub codepoints: int,
    pub unicat: int,
}

/// The column positions a well-formed header declares.
pub open spec fn columns_of(header: Seq<Seq<char>>) -> ColumnsModel {
    ColumnsModel {
        glifname: field_index(header, "glifname"@)->0,
        uniname: field_index(header, "uniname"@)->0,
        codepoints: field_index(header, "codepoints"@)->0,
        unicat: field_index(header, "unicat"@)->0,
    }
}

/// The header's name-to-position lookup, built once and reused per row.
pub struct ColumnIndices {
    pub glifname: usize,
    pub uniname: usize,
    pub codepoints: usize,
    pub unicat: usize,
}

impl ColumnIndices {
    /// The model of this lookup table.
    pub open spec fn model(&self) -> ColumnsModel {
        ColumnsModel {
            glifname: self.glifname as int,
            uniname: self.uniname as int,
            codepoints: self.codepoints as int,
            unicat: self.unicat as int,
        }
    }
}

/// Finds the first field equal to `name`.
fn find_column(fields: &Vec<String>, name: &str) -> (r: Option<usize>)
    ensures
        r is Some ==> {
            &&& field_index(views_of(fields@), name@) == Option::Some(r->0 as int)
            &&& r->0 < fields@.len()
        },
        r is None ==> field_index(views_of(fields@), name@) is None,
{
    let n = fields.len();
    let mut i: usize = 0;
    while i < n
        invariant
            0 <= i <= n,
            n == fields@.len(),
            forall|j: int| 0 <= j < i ==> views_of(fields@)[j] != name@,
        decreases n - i,
    {
        if str_eq(fields[i].as_str(), name) {
            proof {
                lemma_field_index_at(views_of(fields@), name@, i as int);
            }
            return Option::Some(i);
        }
        i = i + 1;
    }
    proof {
        lemma_field_index_at(views_of(fields@), name@, n as int);
    }
    Option::None
}

/// Removes one trailing carriage return, if present.
fn trim_line(line: &String) -> (r: String)
    ensures
        r@ == strip_cr(line@),
{
    let n = line.as_str().unicode_len();
    if n > 0 && line.as_str().get_char(n - 1) == '\r' {
        let body = line.as_str().substring_char(0, n - 1);
        proof {
            assert(line@.subrange(0, n - 1) =~= line@.drop_last());
        }
        String::from_str(body)
    } else {
        line.clone()
    }
}

/// Splits the input into lines: `\n`-separated, a final empty piece dropped,
/// carriage returns stripped.
fn split_lines(text: &str) -> (lines: Vec<String>)
    ensures
        views_of(lines@) == lines_of(text@),
{
    let mut raw = split_str(text, '\n');
    if raw[raw.len() - 1].as_str().is_empty() {
        raw.pop();
    }
    let ghost kept = raw@;
    let mut lines: Vec<String> = Vec::new();
    let mut i: usize = 0;
    while i < raw.len()
        invariant
            0 <= i <= raw@.len(),
            raw@ == kept,
            lines@.len() == i,
            forall|j: int| 0 <= j < i ==> lines@[j]@ == strip_cr(raw@[j]@),
        decreases raw@.len() - i,
    {
        let t = trim_line(&raw[i]);
        lines.push(t);
        i = i + 1;
    }
    proof {
        assert(views_of(lines@) =~= views_of(kept).map_values(|l: Seq<char>| strip_cr(l)));
        assert(views_of(lines@) =~= lines_of(text@));
    }
    lines
}

/// The whitespace recognized when deciding that a `codepoints` token is
/// blank.
pub open spec fn is_space(c: char) -> bool {
    c == ' ' || c == '\t' || c == '\n' || c == '\r'
}

/// A token that trims to nothing: whitespace only (or empty).
pub open spec fn is_blank(t: Seq<char>) -> bool {
    forall|i: int| 0 <= i < t.len() ==> is_space(t[i])
}

/// The tokens of a comma-separated `codepoints` field that survive: those
/// not blank after trimming, in order.
pub open spec fn kept_tokens(toks: Seq<Seq<char>>) -> Seq<Seq<char>>
    decreases toks.len(),
{
    if toks.len() == 0 {
        Seq::<Seq<char>>::empty()
    } else if is_blank(toks[0]) {
        kept_tokens(toks.drop_first())
    } else {
        seq![toks[0]] + kept_tokens(toks.drop_first())
    }
}

pub proof fn lemma_kept_tokens_concat(a: Seq<Seq<char>>, b: Seq<Seq<char>>)
    ensures
        kept_tokens(a + b) == kept_tokens(a) + kept_tokens(b),
    decreases a.len(),
{
    if a.len() == 0 {
        assert(a + b =~= b);
        assert(kept_tokens(a) + kept_tokens(b) =~= kept_tokens(b));
    } else {
        lemma_kept_tokens_concat(a.drop_first(), b);
        assert((a + b).drop_first() =~= a.drop_first() + b);
        if is_blank(a[0]) {
        } else {
            assert(seq![a[0]] + (kept_tokens(a.drop_first()) + kept_tokens(b)) =~= (seq![a[0]]
                + kept_tokens(a.drop_first())) + kept_tokens(b));
        }
    }
}

pub proof fn lemma_kept_tokens_single(t: Seq<char>)
    ensures
        is_blank(t) ==> kept_tokens(seq![t]) == Seq::<Seq<char>>::empty(),
        !is_blank(t) ==> kept_tokens(seq![t]) == seq![t],
{
    reveal_with_fuel(kept_tokens, 2);
    assert(seq![t][0] == t);
    assert(seq![t].drop_first() =~= Seq::<Seq<char>>::empty());
    if is_blank(t) {
        assert(kept_tokens(seq![t]) =~= Seq::<Seq<char>>::empty());
    } else {
        assert(kept_tokens(seq![t]) =~= seq![t] + kept_tokens(Seq::<Seq<char>>::empty()));
        assert(kept_tokens(seq![t]) =~= seq![t]);
    }
}

/// A surviving `codepoints` token must be a base-16 number whose value is a
/// Unicode scalar value.
pub open spec fn cp_token_ok(t: Seq<char>) -> bool {
    &&& hex_token_ok(t)
    &&& is_scalar(hex_token_value(t) as u32)
}

/// The first surviving token that does not parse, if any (empty otherwise).
pub open spec fn first_bad_kept(ts: Seq<Seq<char>>) -> Seq<char>
    decreases ts.len(),
{
    if ts.len() == 0 {
        Seq::<char>::empty()
    } else if !cp_token_ok(ts[0]) {
        ts[0]
    } else {
        first_bad_kept(ts.drop_first())
    }
}

pub proof fn lemma_first_bad_kept_at(ts: Seq<Seq<char>>, i: int)
    requires
        0 <= i < ts.len(),
        forall|j: int| 0 <= j < i ==> cp_token_ok(ts[j]),
        !cp_token_ok(ts[i]),
    ensures
        first_bad_kept(ts) == ts[i],
    decreases i,
{
    if i > 0 {
        lemma_first_bad_kept_at(ts.drop_first(), i - 1);
    }
}

/// The surviving tokens of a `codepoints` field.
pub open spec fn cp_kept(field: Seq<char>) -> Seq<Seq<char>> {
    kept_tokens(split_char(field, ','))
}

/// Every surviving token of the field parses as a scalar code point.
pub open spec fn cp_field_ok(field: Seq<char>) -> bool {
    forall|i: int| 0 <= i < cp_kept(field).len() ==> cp_token_ok(#[trigger] cp_kept(field)[i])
}

/// The code points a `codepoints` field denotes, in order.
pub open spec fn cp_values(field: Seq<char>) -> Seq<char> {
    cp_kept(field).map_values(|t: Seq<char>| (hex_token_value(t) as u32) as char)
}

/// Relies on `char::from_u32`: yields the character with the given code
/// point exactly when the value is a Unicode scalar value (not a surrogate,
/// at most `0x10FFFF`), and `None` otherwise.
pub assume_specification[ char::from_u32 ](v: u32) -> (r: Option<char>)
    ensures
        r is Some <==> is_scalar(v),
        r is Some ==> r->0 as u32 == v,
;

fn is_space_char(c: char) -> (r: bool)
    ensures
        r == is_space(c),
{
    c == ' ' || c == '\t' || c == '\n' || c == '\r'
}

/// True when the token trims to nothing.
fn is_blank_str(t: &str) -> (r: bool)
    ensures
        r == is_blank(t@),
{
    let n = t.unicode_len();
    let mut i: usize = 0;
    while i < n
        invariant
            0 <= i <= n,
            n == t@.len(),
            forall|j: int| 0 <= j < i ==> is_space(t@[j]),
        decreases n - i,
    {
        if !is_space_char(t.get_char(i)) {
            return false;
        }
        i = i + 1;
    }
    true
}

/// Parses a comma-separated `codepoints` field: blank tokens are dropped,
/// every other token must be a base-16 Unicode scalar value.  On failure the
/// error carries the first offending token.
fn parse_codepoints(field: &str) -> (r: Result<Vec<char>, String>)
    ensures
        r is Ok <==> cp_field_ok(field@),
        r is Ok ==> r->Ok_0@ == cp_values(field@),
        r is Err ==> r->Err_0@ == first_bad_kept(cp_kept(field@)),
{
    let toks = split_str(field, ',');
    let ghost all = views_of(toks@);
    proof {
        assert(all == split_char(field@, ','));
    }
    let mut out: Vec<char> = Vec::new();
    let mut i: usize = 0;
    proof {
        assert(all.take(0) =~= Seq::<Seq<char>>::empty());
        assert(kept_tokens(all.take(0)) =~= Seq::<Seq<char>>::empty());
    }
    while i < toks.len()
        invariant
            0 <= i <= toks@.len(),
            all == views_of(toks@),
            all == split_char(field@, ','),
            forall|j: int| 0 <= j < kept_tokens(all.take(i as int)).len()
                ==> cp_token_ok(#[trigger] kept_tokens(all.take(i as int))[j]),
            out@ == kept_tokens(all.take(i as int)).map_values(
                |t: Seq<char>| (hex_token_value(t) as u32) as char,
            ),
        decreases toks@.len() - i,
    {
        let ghost prev_kept = kept_tokens(all.take(i as int));
        proof {
            assert(all.take(i + 1) =~= all.take(i as int) + seq![all[i as int]]);
            lemma_kept_tokens_concat(all.take(i as int), seq![all[i as int]]);
            assert(seq![all[i as int]].drop_first() =~= Seq::<Seq<char>>::empty());
        }
        if !is_blank_str(toks[i].as_str()) {
            proof {
                lemma_kept_tokens_single(all[i as int]);
                assert(kept_tokens(all.take(i + 1)) =~= prev_kept.push(all[i as int]));
            }
            let v = match parse_hex(toks[i].as_str()) {
                Option::Some(v) => v,
                Option::None => {
                    proof {
                        assert(all[i as int] == toks@[i as int]@);
                        assert(!cp_token_ok(all[i as int]));
                        lemma_bad_token_is_first(all, i as int);
                        assert(cp_kept(field@) == kept_tokens(all));
                        assert(!cp_field_ok(field@));
                    }
                    return Result::Err(toks[i].clone());
                },
            };
            let c = match char::from_u32(v) {
                Option::Some(c) => c,
                Option::None => {
                    proof {
                        assert(all[i as int] == toks@[i as int]@);
                        assert(!cp_token_ok(all[i as int]));
                        lemma_bad_token_is_first(all, i as int);
                        assert(cp_kept(field@) == kept_tokens(all));
                        assert(!cp_field_ok(field@));
                    }
                    return Result::Err(toks[i].clone());
                },
            };
            proof {
                char_u32_cast(c, v);
                assert(c == (hex_token_value(all[i as int]) as u32) as char);
            }
            out.push(c);
            proof {
                assert(out@ =~= kept_tokens(all.take(i + 1)).map_values(
                    |t: Seq<char>| (hex_token_value(t) as u32) as char,
                ));
            }
        } else {
            proof {
                lemma_kept_tokens_single(all[i as int]);
                assert(kept_tokens(all.take(i + 1)) =~= prev_kept);
            }
        }
        i = i + 1;
    }
    proof {
        assert(all.take(toks@.len() as int) =~= all);
    }
    Result::Ok(out)
}

/// When every surviving token before position `i` parses and the (non-blank)
/// token at `i` does not, that token is the first bad surviving token of the
/// whole list, and the field as a whole is rejected.
proof fn lemma_bad_token_is_first(all: Seq<Seq<char>>, i: int)
    requires
        0 <= i < all.len(),
        !is_blank(all[i]),
        !cp_token_ok(all[i]),
        forall|j: int| 0 <= j < kept_tokens(all.take(i)).len()
            ==> cp_token_ok(#[trigger] kept_tokens(all.take(i))[j]),
    ensures
        !(forall|j: int| 0 <= j < kept_tokens(all).len()
            ==> cp_token_ok(#[trigger] kept_tokens(all)[j])),
        first_bad_kept(kept_tokens(all)) == all[i],
{
    let pre = kept_tokens(all.take(i));
    assert(all =~= all.take(i + 1) + all.skip(i + 1));
    lemma_kept_tokens_concat(all.take(i + 1), all.skip(i + 1));
    assert(all.take(i + 1) =~= all.take(i) + seq![all[i]]);
    lemma_kept_tokens_concat(all.take(i), seq![all[i]]);
    lemma_kept_tokens_single(all[i]);
    let whole = kept_tokens(all);
    assert(whole =~= pre + seq![all[i]] + kept_tokens(all.skip(i + 1)));
    assert(whole[pre.len() as int] == all[i]);
    assert(forall|j: int| 0 <= j < pre.len() ==> whole[j] == pre[j]);
    lemma_first_bad_kept_at(whole, pre.len() as int);
}

/// The least of three list lengths.
pub open spec fn min3(a: int, b: int, c: int) -> int {
    if a <= b && a <= c {
        a
    } else if b <= c {
        b
    } else {
        c
    }
}

/// A data row is well formed for a header of `w` fields when its own field
/// count is exactly `w` and its `codepoints` field parses.
pub open spec fn row_fields_ok(w: int, c: ColumnsModel, fields: Seq<Seq<char>>) -> bool {
    &&& fields.len() == w
    &&& cp_field_ok(fields[c.codepoints])
}

/// The glyph a well-formed data row denotes: the `glifname` field verbatim,
/// and the three comma-separated sub-lists zipped positionally into
/// annotations, stopping at the shortest.
pub open spec fn row_glyph_fields(c: ColumnsModel, fields: Seq<Seq<char>>) -> GlyphRefModel {
    let uninames = split_char(fields[c.uniname], ',');
    let cats = split_char(fields[c.unicat], ',');
    let cps = cp_values(fields[c.codepoints]);
    let n = min3(uninames.len() as int, cps.len() as int, cats.len() as int);
    GlyphRefModel {
        name: fields[c.glifname],
        unicode: Seq::new(
            n as nat,
            |i: int| unicode_entry(uninames[i], cats[i], cps[i]),
        ),
    }
}

/// A decoded glyph carries exactly as many annotations as the shortest of
/// the three aligned sub-lists, counting only the `codepoints` tokens that
/// survive the blank-token drop: mismatched lengths truncate silently.
pub proof fn lemma_row_glyph_unicode_len(c: ColumnsModel, fields: Seq<Seq<char>>)
    ensures
        row_glyph_fields(c, fields).unicode.len() == min3(
            split_char(fields[c.uniname], ',').len() as int,
            cp_values(fields[c.codepoints]).len() as int,
            split_char(fields[c.unicat], ',').len() as int,
        ),
{
    let uninames = split_char(fields[c.uniname], ',');
    let cats = split_char(fields[c.unicat], ',');
    let cps = cp_values(fields[c.codepoints]);
    let n = min3(uninames.len() as int, cps.len() as int, cats.len() as int);
    assert(n >= 0);
    assert(row_glyph_fields(c, fields).unicode.len() == n as nat);
}

/// The position of the first malformed data row.
pub open spec fn first_bad_row(w: int, c: ColumnsModel, rows: Seq<Seq<char>>) -> int
    decreases rows.len(),
{
    if rows.len() == 0 {
        0
    } else if !row_fields_ok(w, c, fields_of(rows[0])) {
        0
    } else {
        1 + first_bad_row(w, c, rows.drop_first())
    }
}

pub proof fn lemma_first_bad_row_at(w: int, c: ColumnsModel, rows: Seq<Seq<char>>, i: int)
    requires
        0 <= i < rows.len(),
        forall|j: int| 0 <= j < i ==> row_fields_ok(w, c, fields_of(#[trigger] rows[j])),
        !row_fields_ok(w, c, fields_of(rows[i])),
    ensures
        first_bad_row(w, c, rows) == i,
    decreases i,
{
    if i > 0 {
        lemma_first_bad_row_at(w, c, rows.drop_first(), i - 1);
    }
}

/// The whole input decodes: the header declares all required columns and
/// every data row is well formed.
pub open spec fn decode_ok(text: Seq<char>) -> bool {
    &&& header_ok(header_fields(text))
    &&& forall|k: int|
        0 <= k < rows_of(text).len() ==> row_fields_ok(
            header_fields(text).len() as int,
            columns_of(header_fields(text)),
            fields_of(#[trigger] rows_of(text)[k]),
        )
}

/// The glyphs a valid input denotes: one per data row, in row order.
pub open spec fn decode_glyphs(text: Seq<char>) -> Seq<GlyphRefModel> {
    rows_of(text).map_values(
        |line: Seq<char>| row_glyph_fields(columns_of(header_fields(text)), fields_of(line)),
    )
}

/// The error an invalid input produces: the first missing required column,
/// or else the first malformed data row with what was wrong about it.
pub open spec fn decode_err(text: Seq<char>) -> TsvErrorModel {
    let header = header_fields(text);
    if !header_ok(header) {
        TsvErrorModel::MissingColumn { column: first_missing_column(header) }
    } else {
        let w = header.len() as int;
        let c = columns_of(header);
        let k = first_bad_row(w, c, rows_of(text));
        let fields = fields_of(rows_of(text)[k]);
        if fields.len() != w {
            TsvErrorModel::FieldCount { row: k, expected: w, found: fields.len() as int }
        } else {
            TsvErrorModel::BadCodepoint {
                row: k,
                token: first_bad_kept(cp_kept(fields[c.codepoints])),
            }
        }
    }
}

/// Zips the three aligned sub-lists of a row into annotation records,
/// stopping at the shortest list.
fn zip_annotations(uninames: &Vec<String>, cats: &Vec<String>, cps: &Vec<char>) -> (r: Vec<
    UnicodeData,
>)
    ensures
        r@.len() == min3(uninames@.len() as int, cps@.len() as int, cats@.len() as int),
        forall|j: int|
            0 <= j < r@.len() ==> r@[j]@ == unicode_entry(uninames@[j]@, cats@[j]@, cps@[j]),
{
    let mut n = uninames.len();
    if cps.len() < n {
        n = cps.len();
    }
    if cats.len() < n {
        n = cats.len();
    }
    let mut out: Vec<UnicodeData> = Vec::new();
    let mut i: usize = 0;
    while i < n
        invariant
            0 <= i <= n,
            n <= uninames@.len(),
            n <= cps@.len(),
            n <= cats@.len(),
            out@.len() == i,
            forall|j: int|
                0 <= j < i ==> out@[j]@ == unicode_entry(uninames@[j]@, cats@[j]@, cps@[j]),
        decreases n - i,
    {
        push_annotation(&mut out, &uninames[i], &cats[i], cps[i]);
        i = i + 1;
    }
    out
}

/// Appends one annotation record built from its three parts.
fn push_annotation(out: &mut Vec<UnicodeData>, name: &String, category: &String, encoding: char)
    ensures
        final(out)@.len() == old(out)@.len() + 1,
        final(out)@[old(out)@.len() as int]@ == unicode_entry(name@, category@, encoding),
        forall|j: int| 0 <= j < old(out)@.len() ==> final(out)@[j] == old(out)@[j],
{
    let entry = UnicodeData { name: name.clone(), category: category.clone(), encoding };
    out.push(entry);
}

/// Builds the glyph one data row of the right width denotes.  Fails exactly
/// when a surviving `codepoints` token does not parse, returning that token.
fn glyph_from_row(cols: &ColumnIndices, fields: &Vec<String>) -> (r: Result<GlyphRef, String>)
    requires
        cols.glifname < fields@.len(),
        cols.uniname < fields@.len(),
        cols.codepoints < fields@.len(),
        cols.unicat < fields@.len(),
    ensures
        r is Ok <==> cp_field_ok(views_of(fields@)[cols.model().codepoints]),
        r is Ok ==> r->Ok_0@ == row_glyph_fields(cols.model(), views_of(fields@)),
        r is Err ==> r->Err_0@ == first_bad_kept(
            cp_kept(views_of(fields@)[cols.model().codepoints]),
        ),
{
    let ghost fv = views_of(fields@);
    let name = fields[cols.glifname].clone();
    let uninames = split_str(fields[cols.uniname].as_str(), ',');
    let cats = split_str(fields[cols.unicat].as_str(), ',');
    let cps = match parse_codepoints(fields[cols.codepoints].as_str()) {
        Result::Ok(v) => v,
        Result::Err(t) => {
            return Result::Err(t);
        },
    };
    proof {
        assert(views_of(uninames@) == split_char(fv[cols.model().uniname], ','));
        assert(views_of(cats@) == split_char(fv[cols.model().unicat], ','));
        assert(cps@ == cp_values(fv[cols.model().codepoints]));
    }
    let unicode = zip_annotations(&uninames, &cats, &cps);
    let g = GlyphRef { name, unicode };
    proof {
        let spec_g = row_glyph_fields(cols.model(), fv);
        assert(g@.unicode.len() == spec_g.unicode.len());
        assert forall|j: int| 0 <= j < g@.unicode.len() implies g@.unicode[j]
            == spec_g.unicode[j] by {
            assert(views_of(uninames@)[j] == uninames@[j]@);
            assert(views_of(cats@)[j] == cats@[j]@);
        }
        assert(g@.unicode =~= spec_g.unicode);
        assert(g@ =~= spec_g);
    }
    Result::Ok(g)
}

fn field_count_error(row: usize, expected: usize, found: usize) -> (e: TsvError)
    ensures
        e@ == (TsvErrorModel::FieldCount {
            row: row as int,
            expected: expected as int,
            found: found as int,
        }),
{
    TsvError::FieldCount { row, expected, found }
}

fn bad_codepoint_error(row: usize, token: String) -> (e: TsvError)
    ensures
        e@ == (TsvErrorModel::BadCodepoint { row: row as int, token: token@ }),
{
    TsvError::BadCodepoint { row, token }
}

/// Decodes a tab-separated metadata blob into one glyph per data row, in row
/// order.  Decoding is all-or-nothing: the result is `Ok` exactly when the
/// header declares all four required columns and every data row is well
/// formed; otherwise the error pins down the first failure - the first
/// missing column, or the first malformed row and the first token in it
/// that did not parse.
pub fn parse_tsv(tsv_data: &str) -> (r: Result<Vec<GlyphRef>, TsvError>)
    ensures
        r is Ok <==> decode_ok(tsv_data@),
        r is Ok ==> glyph_models(r->Ok_0@) == decode_glyphs(tsv_data@),
        r is Ok ==> r->Ok_0@.len() == rows_of(tsv_data@).len(),
        r is Err ==> r->Err_0@ == decode_err(tsv_data@),
{
    let lines = split_lines(tsv_data);
    let ghost text = tsv_data@;
    if lines.len() == 0 {
        return Result::Err(
            TsvError::MissingColumn { column: String::from_str("glifname") },
        );
    }
    let header = split_str(lines[0].as_str(), '\t');
    proof {
        assert(lines@[0]@ == lines_of(text)[0]);
        assert(views_of(header@) == header_fields(text));
    }
    let g_i = match find_column(&header, "glifname") {
        Option::Some(i) => i,
        Option::None => {
            return Result::Err(
                TsvError::MissingColumn { column: String::from_str("glifname") },
            );
        },
    };
    let u_i = match find_column(&header, "uniname") {
        Option::Some(i) => i,
        Option::None => {
            return Result::Err(
                TsvError::MissingColumn { column: String::from_str("uniname") },
            );
        },
    };
    let c_i = match find_column(&header, "codepoints") {
        Option::Some(i) => i,
        Option::None => {
            return Result::Err(
                TsvError::MissingColumn { column: String::from_str("codepoints") },
            );
        },
    };
    let t_i = match find_column(&header, "unicat") {
        Option::Some(i) => i,
        Option::None => {
            return Result::Err(
                TsvError::MissingColumn { column: String::from_str("unicat") },
            );
        },
    };
    let cols = ColumnIndices { glifname: g_i, uniname: u_i, codepoints: c_i, unicat: t_i };
    let w = header.len();
    proof {
        assert(cols.model() == columns_of(header_fields(text)));
        assert(header_ok(header_fields(text)));
    }
    let mut glyphs: Vec<GlyphRef> = Vec::new();
    let mut k: usize = 1;
    while k < lines.len()
        invariant
            text == tsv_data@,
            1 <= k <= lines@.len(),
            views_of(lines@) == lines_of(text),
            views_of(header@) == header_fields(text),
            header_ok(header_fields(text)),
            cols.model() == columns_of(header_fields(text)),
            w == header@.len(),
            cols.glifname < w,
            cols.uniname < w,
            cols.codepoints < w,
            cols.unicat < w,
            forall|j: int|
                0 <= j < k - 1 ==> row_fields_ok(
                    w as int,
                    cols.model(),
                    fields_of(#[trigger] rows_of(text)[j]),
                ),
            glyphs@.len() == k - 1,
            forall|j: int|
                0 <= j < k - 1 ==> glyphs@[j]@ == row_glyph_fields(
                    cols.model(),
                    fields_of(#[trigger] rows_of(text)[j]),
                ),
        decreases lines@.len() - k,
    {
        let ghost row_line = rows_of(text)[k - 1];
        proof {
            assert(rows_of(text).len() == lines_of(text).len() - 1);
            assert(row_line == lines@[k as int]@);
        }
        let fields = split_str(lines[k].as_str(), '\t');
        proof {
            assert(views_of(fields@) == fields_of(row_line));
        }
        if fields.len() != w {
            proof {
                assert(fields_of(row_line).len() == fields@.len());
                assert(!row_fields_ok(w as int, cols.model(), fields_of(row_line)));
                lemma_first_bad_row_at(w as int, cols.model(), rows_of(text), k - 1);
                assert(first_bad_row(w as int, cols.model(), rows_of(text)) == k - 1);
                assert(!decode_ok(text));
                assert(decode_err(text) == (TsvErrorModel::FieldCount {
                    row: k - 1 as int,
                    expected: w as int,
                    found: fields@.len() as int,
                }));
            }
            let e = field_count_error(k - 1, w, fields.len());
            return Result::Err(e);
        }
        match glyph_from_row(&cols, &fields) {
            Result::Ok(g) => {
                glyphs.push(g);
            },
            Result::Err(token) => {
                proof {
                    assert(!cp_field_ok(views_of(fields@)[cols.model().codepoints]));
                    assert(!row_fields_ok(w as int, cols.model(), fields_of(row_line)));
                    lemma_first_bad_row_at(w as int, cols.model(), rows_of(text), k - 1);
                    assert(first_bad_row(w as int, cols.model(), rows_of(text)) == k - 1);
                    assert(!decode_ok(text));
                    assert(token@ == first_bad_kept(
                        cp_kept(fields_of(row_line)[cols.model().codepoints]),
                    ));
                    assert(decode_err(text) == (TsvErrorModel::BadCodepoint {
                        row: k - 1 as int,
                        token: token@,
                    }));
                }
                let e = bad_codepoint_error(k - 1, token);
                return Result::Err(e);
            },
        }
        k = k + 1;
    }
    proof {
        assert(rows_of(text).len() == lines_of(text).len() - 1);
        assert(decode_ok(text));
        assert(glyph_models(glyphs@) =~= decode_glyphs(text));
    }
    Result::Ok(glyphs)
}

} // verus!
