//! Locating a BRC-20 payload inside witness bytes.
//!
//! A candidate payload is the slice from the first `{` after the first
//! MIME marker (`text/plain` preferred, else `application/json`) to the
//! last `}` of the buffer. Parsing the slice as JSON is the caller's
//! business; this module only frames it, exactly.

use vstd::prelude::*;

verus! {

/// The marker `"text/plain"` as bytes.
pub open spec fn text_plain_marker() -> Seq<u8> {
    seq![116u8, 101u8, 120u8, 116u8, 47u8, 112u8, 108u8, 97u8, 105u8, 110u8]
}

/// The marker `"application/json"` as bytes.
pub open spec fn app_json_marker() -> Seq<u8> {
    seq![
        97u8,
        112u8,
        112u8,
        108u8,
        105u8,
        99u8,
        97u8,
        116u8,
        105u8,
        111u8,
        110u8,
        47u8,
        106u8,
        115u8,
        111u8,
        110u8,
    ]
}

/// `n` occurs in `h` at position `i`.
pub open spec fn is_match_at(h: Seq<u8>, n: Seq<u8>, i: int) -> bool {
    0 <= i && i + n.len() <= h.len() && h.subrange(i, i + n.len()) == n
}

/// The first occurrence of `n` in `h` at or after `s`.
pub open spec fn first_match_from(h: Seq<u8>, n: Seq<u8>, s: int) -> Option<int>
    decreases h.len() - s,
{
    if s < 0 || s + n.len() > h.len() {
        None
    } else if n.len() == 0 {
        Some(s)
    } else if is_match_at(h, n, s) {
        Some(s)
    } else {
        first_match_from(h, n, s + 1)
    }
}

/// What a found occurrence means: a match there, at or after the start.
pub proof fn lemma_first_match_from_some(h: Seq<u8>, n: Seq<u8>, s: int)
    requires
        first_match_from(h, n, s) is Some,
    ensures
        s <= first_match_from(h, n, s)->Some_0,
        first_match_from(h, n, s)->Some_0 + n.len() <= h.len(),
        n.len() > 0 ==> is_match_at(h, n, first_match_from(h, n, s)->Some_0),
    decreases h.len() - s,
{
    if s < 0 || s + n.len() > h.len() {
    } else if n.len() == 0 {
    } else if is_match_at(h, n, s) {
    } else {
        lemma_first_match_from_some(h, n, s + 1);
    }
}

/// The first position of byte `b` in `h` at or after `s`.
pub open spec fn first_byte_from(h: Seq<u8>, b: u8, s: int) -> Option<int>
    decreases h.len() - s,
{
    if s < 0 || s >= h.len() {
        None
    } else if h[s] == b {
        Some(s)
    } else {
        first_byte_from(h, b, s + 1)
    }
}

/// What a found byte means.
pub proof fn lemma_first_byte_from_some(h: Seq<u8>, b: u8, s: int)
    requires
        first_byte_from(h, b, s) is Some,
    ensures
        s <= first_byte_from(h, b, s)->Some_0 < h.len(),
        h[first_byte_from(h, b, s)->Some_0] == b,
    decreases h.len() - s,
{
    if s < 0 || s >= h.len() {
    } else if h[s] == b {
    } else {
        lemma_first_byte_from_some(h, b, s + 1);
    }
}

/// The last position of byte `b` in `h` before `e`.
pub open spec fn last_byte_before(h: Seq<u8>, b: u8, e: int) -> Option<int>
    decreases e,
{
    if e <= 0 || e > h.len() {
        None
    } else if h[e - 1] == b {
        Some(e - 1)
    } else {
        last_byte_before(h, b, e - 1)
    }
}

/// What a found last byte means.
pub proof fn lemma_last_byte_before_some(h: Seq<u8>, b: u8, e: int)
    requires
        last_byte_before(h, b, e) is Some,
    ensures
        0 <= last_byte_before(h, b, e)->Some_0 < e,
        last_byte_before(h, b, e)->Some_0 < h.len(),
        h[last_byte_before(h, b, e)->Some_0] == b,
    decreases e,
{
    if e <= 0 || e > h.len() {
    } else if h[e - 1] == b {
    } else {
        lemma_last_byte_before_some(h, b, e - 1);
    }
}

/// Where the JSON candidate starts: one past the first marker, with
/// `text/plain` taking precedence over `application/json`.
pub open spec fn payload_window_start(w: Seq<u8>) -> Option<int> {
    if first_match_from(w, text_plain_marker(), 0) is Some {
        Some(first_match_from(w, text_plain_marker(), 0)->Some_0 + text_plain_marker().len())
    } else if first_match_from(w, app_json_marker(), 0) is Some {
        Some(first_match_from(w, app_json_marker(), 0)->Some_0 + app_json_marker().len())
    } else {
        None
    }
}

/// The framed payload of a witness buffer: from the first `{` after the
/// marker to the last `}` of the buffer, both inclusive; `None` where no
/// marker, no brace, or no closing brace at or after the opening one.
pub open spec fn payload_of(w: Seq<u8>) -> Option<Seq<u8>> {
    match payload_window_start(w) {
        None => None,
        Some(start) => match first_byte_from(w, 123u8, start) {
            None => None,
            Some(j) => match last_byte_before(w, 125u8, w.len() as int) {
                None => None,
                Some(k) => if k >= j {
                    Some(w.subrange(j, k + 1))
                } else {
                    None
                },
            },
        },
    }
}

/// Whether `n` occurs in `h` at exactly position `i`.
fn eq_at(h: &Vec<u8>, n: &Vec<u8>, i: usize) -> (r: bool)
    requires
        i + n@.len() <= h@.len(),
    ensures
        r == is_match_at(h@, n@, i as int),
{
    let hlen = h.len();
    let mut m: usize = 0;
    while m < n.len()
        invariant
            0 <= m <= n@.len(),
            i + n@.len() <= h@.len(),
            hlen == h@.len(),
            forall|q: int| 0 <= q < m ==> h@[i + q] == n@[q],
        decreases n@.len() - m,
    {
        if h[i + m] != n[m] {
            proof {
                assert(h@.subrange(i as int, i + n@.len())[m as int] == h@[i + m]);
            }
            return false;
        }
        m = m + 1;
    }
    proof {
        assert(h@.subrange(i as int, i + n@.len()) =~= n@);
    }
    true
}

/// The first occurrence of `n` in `h`, scanning forward.
fn find_marker(h: &Vec<u8>, n: &Vec<u8>) -> (r: Option<usize>)
    requires
        n@.len() >= 1,
    ensures
        match r {
            Some(i) => first_match_from(h@, n@, 0) == Some(i as int),
            None => first_match_from(h@, n@, 0) is None,
        },
{
    if n.len() > h.len() {
        return None;
    }
    let mut i: usize = 0;
    while i <= h.len() - n.len()
        invariant
            0 <= i <= h@.len() - n@.len() + 1,
            1 <= n@.len() <= h@.len(),
            first_match_from(h@, n@, 0) == first_match_from(h@, n@, i as int),
        decreases h@.len() - n@.len() + 1 - i,
    {
        if eq_at(h, n, i) {
            return Some(i);
        }
        i = i + 1;
    }
    None
}

/// The first position of `b` in `h` at or after `start`.
fn find_byte_from(h: &Vec<u8>, b: u8, start: usize) -> (r: Option<usize>)
    ensures
        match r {
            Some(i) => first_byte_from(h@, b, start as int) == Some(i as int),
            None => first_byte_from(h@, b, start as int) is None,
        },
{
    let mut i: usize = start;
    while i < h.len()
        invariant
            start <= i,
            first_byte_from(h@, b, start as int) == first_byte_from(h@, b, i as int),
        decreases h@.len() - i,
    {
        if h[i] == b {
            return Some(i);
        }
        i = i + 1;
    }
    None
}

/// The last position of `b` in `h`.
fn rfind_byte(h: &Vec<u8>, b: u8) -> (r: Option<usize>)
    ensures
        match r {
            Some(i) => last_byte_before(h@, b, h@.len() as int) == Some(i as int),
            None => last_byte_before(h@, b, h@.len() as int) is None,
        },
{
    let mut e: usize = h.len();
    while e > 0
        invariant
            0 <= e <= h@.len(),
            last_byte_before(h@, b, h@.len() as int) == last_byte_before(h@, b, e as int),
        decreases e,
    {
        if h[e - 1] == b {
            return Some(e - 1);
        }
        e = e - 1;
    }
    None
}

/// Frames the JSON candidate of a witness buffer, exactly as
/// [`payload_of`] describes.
pub fn extract_inscription_payload(w: &Vec<u8>) -> (r: Option<Vec<u8>>)
    ensures
        crate::state::opt_bytes_view(r) == payload_of(w@),
{
    let w_len = w.len();
    let tp = {
        let mut v: Vec<u8> = Vec::new();
        v.push(116);
        v.push(101);
        v.push(120);
        v.push(116);
        v.push(47);
        v.push(112);
        v.push(108);
        v.push(97);
        v.push(105);
        v.push(110);
        proof {
            assert(v@ =~= text_plain_marker());
        }
        v
    };
    let start = match find_marker(w, &tp) {
        Some(i) => {
            proof {
                lemma_first_match_from_some(w@, text_plain_marker(), 0);
            }
            i + 10
        },
        None => {
            let aj = {
                let mut v: Vec<u8> = Vec::new();
                v.push(97);
                v.push(112);
                v.push(112);
                v.push(108);
                v.push(105);
                v.push(99);
                v.push(97);
                v.push(116);
                v.push(105);
                v.push(111);
                v.push(110);
                v.push(47);
                v.push(106);
                v.push(115);
                v.push(111);
                v.push(110);
                proof {
                    assert(v@ =~= app_json_marker());
                }
                v
            };
            match find_marker(w, &aj) {
                Some(i) => {
                    proof {
                        lemma_first_match_from_some(w@, app_json_marker(), 0);
                    }
                    i + 16
                },
                None => {
                    return None;
                },
            }
        },
    };
    let j = match find_byte_from(w, 123, start) {
        Some(j) => {
            proof {
                lemma_first_byte_from_some(w@, 123, start as int);
            }
            j
        },
        None => {
            return None;
        },
    };
    let k = match rfind_byte(w, 125) {
        Some(k) => {
            proof {
                lemma_last_byte_before_some(w@, 125, w@.len() as int);
            }
            k
        },
        None => {
            return None;
        },
    };
    if k < j {
        return None;
    }
    let mut out: Vec<u8> = Vec::new();
    let mut m: usize = j;
    while m <= k
        invariant
            j <= m <= k + 1,
            k < w@.len(),
            w_len == w@.len(),
            out@ == w@.subrange(j as int, m as int),
        decreases k + 1 - m,
    {
        out.push(w[m]);
        m = m + 1;
        proof {
            assert(out@ =~= w@.subrange(j as int, m as int));
        }
    }
    Some(out)
}

} // verus!
