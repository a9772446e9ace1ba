//! Character-sequence utilities shared by the decoder: delimiter splitting,
//! string equality and lexicographic comparison, and blank-token detection.

use core::cmp::Ordering;
use vstd::prelude::*;

verus! {

/// Numeric comparison of two characters by code point.
pub open spec fn char_cmp(a: char, b: char) -> Ordering {
    if (a as u32) < (b as u32) {
        Ordering::Less
    } else if (a as u32) == (b as u32) {
        Ordering::Equal
    } else {
        Ordering::Greater
    }
}

/// Lexicographic comparison of two character sequences by code point; a
/// proper prefix orders before the longer sequence.
pub open spec fn lex_cmp(a: Seq<char>, b: Seq<char>) -> Ordering
    decreases a.len(),
{
    if a.len() == 0 && b.len() == 0 {
        Ordering::Equal
    } else if a.len() == 0 {
        Ordering::Less
    } else if b.len() == 0 {
        Ordering::Greater
    } else if a[0] != b[0] {
        char_cmp(a[0], b[0])
    } else {
        lex_cmp(a.drop_first(), b.drop_first())
    }
}

/// Compares two strings lexicographically by code point.
pub fn str_lex_cmp(a: &str, b: &str) -> (o: Ordering)
    ensures
        o == lex_cmp(a@, b@),
{
    let alen = a.unicode_len();
    let blen = b.unicode_len();
    let mut i: usize = 0;
    proof {
        assert(a@.skip(0) =~= a@);
        assert(b@.skip(0) =~= b@);
    }
    loop
        invariant
            0 <= i <= alen,
            0 <= i <= blen,
            alen == a@.len(),
            blen == b@.len(),
            lex_cmp(a@, b@) == lex_cmp(a@.skip(i as int), b@.skip(i as int)),
        decreases alen - i,
    {
        if i == alen && i == blen {
            return Ordering::Equal;
        }
        if i == alen {
            return Ordering::Less;
        }
        if i == blen {
            return Ordering::Greater;
        }
        let ca = a.get_char(i);
        let cb = b.get_char(i);
        if (ca as u32) < (cb as u32) {
            return Ordering::Less;
        }
        if (ca as u32) > (cb as u32) {
            return Ordering::Greater;
        }
        proof {
            vstd::utf8::char_u32_cast(ca, ca as u32);
            vstd::utf8::char_u32_cast(cb, cb as u32);
            assert(ca == cb);
            assert(a@.skip(i as int)[0] == ca);
            assert(b@.skip(i as int)[0] == cb);
            assert(a@.skip(i as int).drop_first() =~= a@.skip(i + 1));
            assert(b@.skip(i as int).drop_first() =~= b@.skip(i + 1));
        }
        i = i + 1;
    }
}

/// The pieces of `s` between occurrences of the delimiter `d`, in order.
/// Splitting always yields at least one piece; an empty input yields one
/// empty piece, and a delimiter at the edge yields an empty piece there.
pub open spec fn split_char(s: Seq<char>, d: char) -> Seq<Seq<char>>
    decreases s.len(),
{
    if s.len() == 0 {
        seq![Seq::<char>::empty()]
    } else if s[0] == d {
        seq![Seq::<char>::empty()] + split_char(s.drop_first(), d)
    } else {
        let rest = split_char(s.drop_first(), d);
        seq![seq![s[0]] + rest[0]] + rest.drop_first()
    }
}

/// The views of a vector of owned strings.
pub open spec fn views_of(parts: Seq<String>) -> Seq<Seq<char>> {
    parts.map_values(|p: String| p@)
}

pub proof fn lemma_split_char_len(s: Seq<char>, d: char)
    ensures
        split_char(s, d).len() >= 1,
    decreases s.len(),
{
    if s.len() == 0 {
    } else {
        lemma_split_char_len(s.drop_first(), d);
    }
}

/// A sequence without the delimiter splits into itself alone.
pub proof fn lemma_split_char_no_delim(s: Seq<char>, d: char)
    requires
        forall|i: int| 0 <= i < s.len() ==> s[i] != d,
    ensures
        split_char(s, d) =~~= seq![s],
    decreases s.len(),
{
    if s.len() == 0 {
        assert(split_char(s, d) =~~= seq![s]);
    } else {
        lemma_split_char_no_delim(s.drop_first(), d);
        lemma_split_char_len(s.drop_first(), d);
        assert(seq![s[0]] + s.drop_first() =~= s);
        assert(split_char(s, d) =~~= seq![s]);
    }
}

/// Splitting at the first delimiter occurrence: the head piece is everything
/// before it, and the remaining pieces are the split of everything after it.
pub proof fn lemma_split_char_first_delim(s: Seq<char>, d: char, i: int)
    requires
        0 <= i < s.len(),
        s[i] == d,
        forall|j: int| 0 <= j < i ==> s[j] != d,
    ensures
        split_char(s, d) =~~= seq![s.take(i)] + split_char(s.skip(i + 1), d),
    decreases i,
{
    if i == 0 {
        assert(s.take(0) =~= Seq::<char>::empty());
        assert(s.skip(1) =~= s.drop_first());
    } else {
        let t = s.drop_first();
        assert(forall|j: int| 0 <= j < i - 1 ==> t[j] != d);
        lemma_split_char_first_delim(t, d, i - 1);
        lemma_split_char_len(t.skip(i), d);
        assert(t.skip(i) =~= s.skip(i + 1));
        assert(seq![s[0]] + t.take(i - 1) =~= s.take(i));
        assert(split_char(s, d) =~~= seq![s.take(i)] + split_char(s.skip(i + 1), d));
    }
}

/// Splits `s` at every occurrence of `d`, returning owned pieces.
pub fn split_str(s: &str, d: char) -> (parts: Vec<String>)
    ensures
        views_of(parts@) == split_char(s@, d),
        parts@.len() >= 1,
{
    let n = s.unicode_len();
    let mut parts: Vec<String> = Vec::new();
    let mut start: usize = 0;
    let mut i: usize = 0;
    proof {
        assert(s@.skip(0) =~= s@);
        assert(views_of(parts@) =~= Seq::<Seq<char>>::empty());
    }
    while i < n
        invariant
            0 <= start <= i <= n,
            n == s@.len(),
            forall|j: int| start <= j < i ==> s@[j] != d,
            split_char(s@, d) =~~= views_of(parts@) + split_char(s@.skip(start as int), d),
        decreases n - i,
    {
        if s.get_char(i) == d {
            let piece = s.substring_char(start, i);
            proof {
                let tail = s@.skip(start as int);
                assert(forall|j: int| 0 <= j < i - start ==> tail[j] != d);
                assert(tail[i - start] == d);
                lemma_split_char_first_delim(tail, d, i - start);
                assert(tail.take(i - start) =~= s@.subrange(start as int, i as int));
                assert(tail.skip(i - start + 1) =~= s@.skip(i + 1));
            }
            parts.push(String::from_str(piece));
            proof {
                assert(views_of(parts@) =~=
                    views_of(parts@.drop_last()) + seq![s@.subrange(start as int, i as int)]);
                assert(split_char(s@, d) =~~=
                    views_of(parts@) + split_char(s@.skip(i + 1 as int), d));
            }
            start = i + 1;
        }
        i = i + 1;
    }
    let piece = s.substring_char(start, n);
    proof {
        let tail = s@.skip(start as int);
        lemma_split_char_no_delim(tail, d);
        assert(tail =~= s@.subrange(start as int, n as int));
    }
    parts.push(String::from_str(piece));
    proof {
        assert(views_of(parts@) =~=
            views_of(parts@.drop_last()) + seq![s@.subrange(start as int, n as int)]);
        assert(views_of(parts@) =~~= split_char(s@, d));
    }
    parts
}

/// True exactly when the two strings hold the same characters.
pub fn str_eq(a: &str, b: &str) -> (r: bool)
    ensures
        r == (a@ == b@),
{
    let alen = a.unicode_len();
    let blen = b.unicode_len();
    if alen != blen {
        return false;
    }
    let mut i: usize = 0;
    while i < alen
        invariant
            0 <= i <= alen,
            alen == a@.len(),
            alen == b@.len(),
            forall|j: int| 0 <= j < i ==> a@[j] == b@[j],
        decreases alen - i,
    {
        if a.get_char(i) != b.get_char(i) {
            return false;
        }
        i = i + 1;
    }
    proof {
        assert(a@ =~= b@);
    }
    true
}

} // verus!
