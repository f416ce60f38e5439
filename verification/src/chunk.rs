//! Splitting text into fixed-size, overlapping segments.
use vstd::prelude::*;
use crate::text::{chars_of, slice, string_of};

verus! {

/// The effective segment size: at least 1.
pub open spec fn eff_size(size: nat) -> nat {
    if size < 1 { 1 } else { size }
}

/// The effective overlap: less than the segment size.
pub open spec fn eff_overlap(size: nat, overlap: nat) -> nat {
    if overlap < eff_size(size) - 1 { overlap } else { (eff_size(size) - 1) as nat }
}

/// Distance between the starts of two consecutive segments (at least 1).
pub open spec fn step_of(size: nat, overlap: nat) -> nat {
    (eff_size(size) - eff_overlap(size, overlap)) as nat
}

pub open spec fn min_int(a: int, b: int) -> int {
    if a <= b { a } else { b }
}

/// Segment `k` of a text of length `len`: `[k*step, min(k*step+size, len))`.
pub open spec fn segment(s: Seq<char>, k: int, size: nat, overlap: nat) -> Seq<char> {
    s.subrange(k * step_of(size, overlap), min_int(k * step_of(size, overlap) + eff_size(size), s.len() as int))
}

/// `n` is the number of segments: the `n`-th reaches the end of the text and
/// the one before it does not.
pub open spec fn segment_count_ok(len: nat, size: nat, overlap: nat, n: nat) -> bool {
    &&& n >= 1
    &&& (n - 1) * step_of(size, overlap) + eff_size(size) >= len
    &&& (n == 1 || (n - 2) * step_of(size, overlap) + eff_size(size) < len)
}

/// Splits `text` into segments of `size` characters; each segment starts
/// `size - overlap` characters after the previous one, so neighbours share
/// `overlap` characters. An empty text gives no segments.
pub fn chunk_text(text: &str, size: usize, overlap: usize) -> (r: Vec<String>)
    ensures
        text@.len() == 0 ==> r@.len() == 0,
        text@.len() > 0 ==> segment_count_ok(text@.len(), size as nat, overlap as nat, r@.len()),
        forall|k: int| 0 <= k < r@.len() ==> (#[trigger] r@[k])@ == segment(text@, k, size as nat, overlap as nat),
{
    let chars = chars_of(text);
    let mut out: Vec<String> = Vec::new();
    if chars.len() == 0 {
        return out;
    }
    let sz = if size < 1 { 1 } else { size };
    let ov = if overlap < sz - 1 { overlap } else { sz - 1 };
    let step = sz - ov;
    assert(sz == eff_size(size as nat) && ov == eff_overlap(size as nat, overlap as nat));
    assert(step == step_of(size as nat, overlap as nat));
    let len = chars.len();
    let mut i: usize = 0;
    let ghost mut k: int = 0;
    let mut done = false;
    while !done
        invariant
            chars@ == text@,
            len == chars.len() > 0,
            sz == eff_size(size as nat),
            step == step_of(size as nat, overlap as nat),
            1 <= step <= sz,
            i == k * step,
            0 <= k,
            !done ==> k == out@.len(),
            done ==> k + 1 == out@.len() && k * step + sz >= len,
            i < len,
            k == 0 || (k - 1) * step + sz < len,
            forall|j: int| 0 <= j < out@.len() ==> (#[trigger] out@[j])@ == chars@.subrange(j * step, min_int(j * step + sz, len as int)),
        decreases len - i, if done { 0int } else { 1int },
    {
        let end = if sz <= len && i <= len - sz { i + sz } else { len };
        let piece = slice(&chars, i, end);
        out.push(string_of(&piece));
        if end >= len {
            done = true;
        } else {
            assert((k + 1) * step == k * step + step) by (nonlinear_arith);
            i += step;
            proof {
                k = k + 1;
            }
        }
    }
    assert forall|j: int| 0 <= j < out@.len() implies (#[trigger] out@[j])@ == segment(text@, j, size as nat, overlap as nat) by {}
    out
}

/// Neighbouring segments share the overlap: every segment but the last is
/// a full `size` characters, and its last `overlap` characters are the
/// first `overlap` characters of the next one.
pub proof fn adjacent_segments_overlap(s: Seq<char>, size: nat, overlap: nat, n: nat, k: int)
    requires
        s.len() > 0,
        segment_count_ok(s.len(), size, overlap, n),
        0 <= k,
        k + 1 < n,
    ensures
        segment(s, k, size, overlap).len() == eff_size(size),
        segment(s, k, size, overlap).subrange(
            eff_size(size) - eff_overlap(size, overlap),
            eff_size(size) as int,
        ) == segment(s, k + 1, size, overlap).subrange(0, eff_overlap(size, overlap) as int),
{
    let step = step_of(size, overlap);
    let sz = eff_size(size);
    let ov = eff_overlap(size, overlap);
    assert(k * step <= (n - 2) * step) by (nonlinear_arith)
        requires k <= n - 2, step >= 0;
    assert((k + 1) * step == k * step + step) by (nonlinear_arith);
    assert(k * step >= 0) by (nonlinear_arith)
        requires k >= 0, step >= 0;
    let a = segment(s, k, size, overlap);
    let b = segment(s, k + 1, size, overlap);
    assert(a =~= s.subrange(k * step, k * step + sz));
    assert(a.subrange(sz - ov, sz as int) =~= s.subrange(k * step + step, k * step + sz));
    assert(b.subrange(0, ov as int) =~= s.subrange(k * step + step, k * step + sz));
}

} // verus!
