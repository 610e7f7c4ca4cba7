//! Deterministic ordering of strings.
//!
//! Report rows are tie-broken by name. The order used is the lexicographic
//! order of the UTF-8 encodings, which is a total order on strings and agrees
//! with the usual alphabetical order on ASCII names.
use vstd::prelude::*;
use vstd::utf8::encode_utf8;

verus! {

/// Lexicographic "less or equal" on byte sequences.
pub open spec fn lex_le(a: Seq<u8>, b: Seq<u8>) -> bool
    decreases a.len(),
{
    if a.len() == 0 {
        true
    } else if b.len() == 0 {
        false
    } else if a[0] < b[0] {
        true
    } else if a[0] > b[0] {
        false
    } else {
        lex_le(a.drop_first(), b.drop_first())
    }
}

/// Order on strings: lexicographic on the UTF-8 encodings of their characters.
pub open spec fn str_le(a: Seq<char>, b: Seq<char>) -> bool {
    lex_le(encode_utf8(a), encode_utf8(b))
}

/// A shared prefix does not affect the lexicographic comparison.
proof fn lemma_lex_le_skip(a: Seq<u8>, b: Seq<u8>, i: int)
    requires
        0 <= i <= a.len(),
        i <= b.len(),
        forall|j: int| 0 <= j < i ==> a[j] == b[j],
    ensures
        lex_le(a, b) == lex_le(a.skip(i), b.skip(i)),
    decreases i,
{
    if i > 0 {
        assert(a.len() > 0 && b.len() > 0);
        assert(a[0] == b[0]);
        lemma_lex_le_skip(a.drop_first(), b.drop_first(), i - 1);
        assert(a.drop_first().skip(i - 1) =~= a.skip(i));
        assert(b.drop_first().skip(i - 1) =~= b.skip(i));
    } else {
        assert(a.skip(0) =~= a);
        assert(b.skip(0) =~= b);
    }
}

/// Whether one of the collected names equals `s`.
pub fn contains_string(keys: &Vec<String>, s: &String) -> (r: bool)
    ensures
        r == keys.deep_view().contains(s@),
{
    let mut j: usize = 0;
    while j < keys.len()
        invariant
            j <= keys@.len(),
            forall|l: int| 0 <= l < j ==> keys.deep_view()[l] != s@,
        decreases keys@.len() - j,
    {
        if keys[j] == *s {
            assert(keys.deep_view()[j as int] == s@);
            return true;
        }
        j = j + 1;
    }
    false
}

/// Compares two strings in the order of [`str_le`].
pub fn str_le_exec(a: &str, b: &str) -> (r: bool)
    ensures
        r == str_le(a@, b@),
{
    let ab = a.as_bytes_vec();
    let bb = b.as_bytes_vec();
    let mut i: usize = 0;
    loop
        invariant
            i <= ab.len(),
            i <= bb.len(),
            ab@ == encode_utf8(a@),
            bb@ == encode_utf8(b@),
            forall|j: int| 0 <= j < i ==> ab@[j] == bb@[j],
        decreases ab.len() - i,
    {
        proof {
            lemma_lex_le_skip(ab@, bb@, i as int);
        }
        if i >= ab.len() {
            assert(ab@.skip(i as int).len() == 0);
            return true;
        }
        if i >= bb.len() {
            assert(bb@.skip(i as int).len() == 0);
            return false;
        }
        let ca = ab[i];
        let cb = bb[i];
        assert(ab@.skip(i as int)[0] == ab@[i as int]);
        assert(bb@.skip(i as int)[0] == bb@[i as int]);
        if ca < cb {
            return true;
        }
        if ca > cb {
            return false;
        }
        i = i + 1;
    }
}

} // verus!
