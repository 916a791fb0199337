//! Byte-string helpers: ASCII case folding, equality, concatenation.
//!
//! Ticker symbols and addresses are carried as byte strings. Tickers are
//! canonicalised by folding ASCII upper-case letters to lower case, the
//! way the protocol folds a `tick` key before storage and lookup.

use vstd::prelude::*;

verus! {

/// The lower-case fold of a single byte: ASCII `A`..`Z` maps to `a`..`z`,
/// every other byte is left alone.
pub open spec fn lower_byte(b: u8) -> u8 {
    if 65 <= b && b <= 90 {
        (b + 32) as u8
    } else {
        b
    }
}

/// The lower-case fold of a byte string, byte by byte.
pub open spec fn lower_bytes(s: Seq<u8>) -> Seq<u8> {
    Seq::new(s.len(), |i: int| lower_byte(s[i]))
}

/// Holds when no byte of `s` is an ASCII upper-case letter, i.e. `s` is
/// already in canonical (folded) form.
pub open spec fn is_lower(s: Seq<u8>) -> bool {
    forall|i: int| 0 <= i < s.len() ==> !(65 <= #[trigger] s[i] && s[i] <= 90)
}

/// Folding is idempotent: a folded string is in canonical form.
pub proof fn lemma_lower_bytes_is_lower(s: Seq<u8>)
    ensures
        is_lower(lower_bytes(s)),
        lower_bytes(lower_bytes(s)) == lower_bytes(s),
{
    assert(lower_bytes(lower_bytes(s)) =~= lower_bytes(s));
}

/// Folds ASCII upper-case letters of `v` to lower case.
pub fn to_lowercase_bytes(v: &Vec<u8>) -> (r: Vec<u8>)
    ensures
        r@ == lower_bytes(v@),
{
    let mut r: Vec<u8> = Vec::new();
    let mut i: usize = 0;
    while i < v.len()
        invariant
            0 <= i <= v@.len(),
            r@ == lower_bytes(v@.subrange(0, i as int)),
        decreases v@.len() - i,
    {
        let b = v[i];
        if 65 <= b && b <= 90 {
            r.push(b + 32);
        } else {
            r.push(b);
        }
        i = i + 1;
        assert(r@ =~= lower_bytes(v@.subrange(0, i as int)));
    }
    assert(v@.subrange(0, v@.len() as int) =~= v@);
    r
}

/// A copy of a byte string with the same view.
pub fn clone_bytes(v: &Vec<u8>) -> (r: Vec<u8>)
    ensures
        r@ == v@,
{
    let r = v.clone();
    proof {
        assert(r@ =~= v@);
    }
    r
}

/// A copy of an optional byte string with the same view.
pub fn clone_opt_bytes(v: &Option<Vec<u8>>) -> (r: Option<Vec<u8>>)
    ensures
        crate::state::opt_bytes_view(r) == crate::state::opt_bytes_view(*v),
{
    match v {
        Some(b) => Some(clone_bytes(b)),
        None => None,
    }
}

/// Byte-string equality, decided byte by byte.
pub fn bytes_eq(a: &Vec<u8>, b: &Vec<u8>) -> (r: bool)
    ensures
        r == (a@ == b@),
{
    if a.len() != b.len() {
        assert(a@ != b@) by {
            assert(a@.len() != b@.len());
        }
        return false;
    }
    let mut i: usize = 0;
    while i < a.len()
        invariant
            0 <= i <= a@.len(),
            a@.len() == b@.len(),
            forall|j: int| 0 <= j < i ==> a@[j] == b@[j],
        decreases a@.len() - i,
    {
        if a[i] != b[i] {
            return false;
        }
        i = i + 1;
    }
    assert(a@ =~= b@);
    true
}

/// The concatenation of a sequence of byte strings, in order.
pub open spec fn concat_views(parts: Seq<Seq<u8>>) -> Seq<u8>
    decreases parts.len(),
{
    if parts.len() == 0 {
        Seq::empty()
    } else {
        concat_views(parts.drop_last()) + parts.last()
    }
}

/// Concatenates witness stack elements into one buffer, in stack order.
pub fn concat_parts(parts: &Vec<Vec<u8>>) -> (r: Vec<u8>)
    ensures
        r@ == concat_views(parts@.map_values(|p: Vec<u8>| p@)),
{
    let ghost all = parts@.map_values(|p: Vec<u8>| p@);
    let mut r: Vec<u8> = Vec::new();
    let mut i: usize = 0;
    while i < parts.len()
        invariant
            0 <= i <= parts@.len(),
            all == parts@.map_values(|p: Vec<u8>| p@),
            r@ == concat_views(all.subrange(0, i as int)),
        decreases parts@.len() - i,
    {
        let part = &parts[i];
        let mut j: usize = 0;
        while j < part.len()
            invariant
                0 <= j <= part@.len(),
                part@ == parts@[i as int]@,
                i < parts@.len(),
                all == parts@.map_values(|p: Vec<u8>| p@),
                r@ == concat_views(all.subrange(0, i as int)) + part@.subrange(0, j as int),
            decreases part@.len() - j,
        {
            r.push(part[j]);
            j = j + 1;
            assert(r@ =~= concat_views(all.subrange(0, i as int)) + part@.subrange(0, j as int));
        }
        i = i + 1;
        assert(all.subrange(0, i as int).drop_last() =~= all.subrange(0, i - 1));
        assert(part@.subrange(0, part@.len() as int) =~= part@);
        assert(r@ =~= concat_views(all.subrange(0, i as int)));
    }
    assert(all.subrange(0, all.len() as int) =~= all);
    r
}

} // verus!
