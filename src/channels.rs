//! Separating an interleaved four-channel buffer into its colour channels and
//! a side channel, and putting the two back together.
//!
//! Samples are carried as the raw bit patterns of 32-bit floats: these
//! transforms only move values, they never compute with them.
use vstd::prelude::*;
use vstd::arithmetic::div_mod::lemma_fundamental_div_mod_converse;
use crate::image::BufferType;

verus! {

/// Index `p * n + k` with `k < n` lies in group `p`, at offset `k`.
pub proof fn lemma_group_index(p: int, k: int, n: int)
    requires
        0 <= p,
        0 <= k < n,
    ensures
        (p * n + k) / n == p,
        (p * n + k) % n == k,
{
    lemma_fundamental_div_mod_converse(p * n + k, n, p, k);
}

/// The colour part of a four-channel buffer: channels 0, 1 and 2 of every
/// pixel, three values per pixel.
pub open spec fn split_colour(b: Seq<u32>) -> Seq<u32> {
    Seq::new((b.len() / 4 * 3) as nat, |i: int| b[(i / 3) * 4 + i % 3])
}

/// The side part of a four-channel buffer: one value per pixel, taken from
/// channel 2 of that pixel.
pub open spec fn split_side(b: Seq<u32>) -> Seq<u32> {
    Seq::new((b.len() / 4) as nat, |p: int| b[p * 4 + 2])
}

/// Four channels per pixel: the three colour values of the pixel followed by
/// its side value.
pub open spec fn merge_side(colour: Seq<u32>, side: Seq<u32>) -> Seq<u32> {
    Seq::new(
        side.len() * 4,
        |i: int|
            if i % 4 == 3 {
                side[i / 4]
            } else {
                colour[(i / 4) * 3 + i % 4]
            },
    )
}

/// Every pixel of a four-channel buffer holds the same value in channels 2 and 3.
pub open spec fn side_matches_last(b: Seq<u32>) -> bool {
    forall|p: int| 0 <= p < b.len() / 4 ==> #[trigger] b[p * 4 + 2] == b[p * 4 + 3]
}

/// Splits a four-channel interleaved buffer into a three-channel buffer of
/// channels 0, 1, 2 and a one-channel buffer. The one-channel buffer holds
/// channel 2 of each pixel (not channel 3), so it is only a faithful copy of
/// the alpha channel where channels 2 and 3 agree.
pub fn strip_alpha(rgba_data: Vec<u32>) -> (r: (Vec<u32>, Vec<u32>))
    requires
        rgba_data.len() % 4 == 0,
    ensures
        r.0@ == split_colour(rgba_data@),
        r.1@ == split_side(rgba_data@),
{
    let n: usize = rgba_data.len() / 4;
    let mut rgb_data: Vec<u32> = Vec::new();
    let mut a_data: Vec<u32> = Vec::new();
    let mut p: usize = 0;
    while p < n
        invariant
            n == rgba_data.len() / 4,
            rgba_data.len() % 4 == 0,
            p <= n,
            rgb_data.len() == p * 3,
            a_data.len() == p,
            forall|i: int| 0 <= i < rgb_data.len() ==> #[trigger] rgb_data@[i] == rgba_data@[(i / 3) * 4 + i % 3],
            forall|q: int| 0 <= q < a_data.len() ==> #[trigger] a_data@[q] == rgba_data@[q * 4 + 2],
        decreases n - p,
    {
        let base: usize = p * 4;
        rgb_data.push(rgba_data[base]);
        rgb_data.push(rgba_data[base + 1]);
        rgb_data.push(rgba_data[base + 2]);
        a_data.push(rgba_data[base + 2]);
        proof {
            lemma_group_index(p as int, 0, 3);
            lemma_group_index(p as int, 1, 3);
            lemma_group_index(p as int, 2, 3);
        }
        p = p + 1;
    }
    assert(rgb_data@ =~= split_colour(rgba_data@));
    assert(a_data@ =~= split_side(rgba_data@));
    (rgb_data, a_data)
}

/// Interleaves a three-channel buffer with a one-channel buffer of the same
/// pixel count into a four-channel buffer: pixel `i` becomes
/// `(rgb[3i], rgb[3i+1], rgb[3i+2], a[i])`.
pub fn add_alpha(rgb_data: Vec<u32>, a_data: Vec<u32>) -> (r: Vec<u32>)
    requires
        rgb_data.len() == a_data.len() * 3,
    ensures
        r@ == merge_side(rgb_data@, a_data@),
{
    let n: usize = a_data.len();
    let mut rgba_data: Vec<u32> = Vec::new();
    let mut p: usize = 0;
    while p < n
        invariant
            n == a_data.len(),
            rgb_data.len() == n * 3,
            p <= n,
            rgba_data.len() == p * 4,
            forall|i: int| 0 <= i < rgba_data.len() ==> #[trigger] rgba_data@[i] == merge_side(rgb_data@, a_data@)[i],
        decreases n - p,
    {
        let base: usize = p * 3;
        rgba_data.push(rgb_data[base]);
        rgba_data.push(rgb_data[base + 1]);
        rgba_data.push(rgb_data[base + 2]);
        rgba_data.push(a_data[p]);
        proof {
            lemma_group_index(p as int, 0, 4);
            lemma_group_index(p as int, 1, 4);
            lemma_group_index(p as int, 2, 4);
            lemma_group_index(p as int, 3, 4);
        }
        p = p + 1;
    }
    assert(rgba_data@ =~= merge_side(rgb_data@, a_data@));
    rgba_data
}

/// Splitting a four-channel buffer and merging the parts back gives the
/// buffer again exactly when every pixel holds equal values in channels 2
/// and 3: the side part is taken from channel 2 but put back as channel 3.
pub proof fn lemma_split_merge(b: Seq<u32>)
    requires
        b.len() % 4 == 0,
    ensures
        merge_side(split_colour(b), split_side(b)) == b <==> side_matches_last(b),
{
    let m = merge_side(split_colour(b), split_side(b));
    let n = b.len() / 4;
    assert(m.len() == b.len());
    assert forall|i: int| 0 <= i < b.len() && i % 4 != 3 implies m[i] == b[i] by {
        let p = i / 4;
        let k = i % 4;
        assert(i == p * 4 + k) by {
            vstd::arithmetic::div_mod::lemma_fundamental_div_mod(i, 4);
        }
        assert(0 <= p < n) by (nonlinear_arith)
            requires i == p * 4 + k, 0 <= k < 4, 0 <= i < b.len(), n == b.len() / 4, b.len() % 4 == 0;
        lemma_group_index(p, k, 3);
        assert(0 <= p * 3 + k < n * 3) by (nonlinear_arith)
            requires 0 <= p < n, 0 <= k < 3;
    }
    if side_matches_last(b) {
        assert forall|i: int| 0 <= i < b.len() implies m[i] == b[i] by {
            if i % 4 == 3 {
                let p = i / 4;
                assert(i == p * 4 + 3) by {
                    vstd::arithmetic::div_mod::lemma_fundamental_div_mod(i, 4);
                }
                assert(0 <= p < n) by (nonlinear_arith)
                    requires i == p * 4 + 3, 0 <= i < b.len(), n == b.len() / 4, b.len() % 4 == 0;
                assert(b[p * 4 + 2] == b[p * 4 + 3]);
            }
        }
        assert(m =~= b);
    }
    if m == b {
        assert forall|p: int| 0 <= p < b.len() / 4 implies #[trigger] b[p * 4 + 2] == b[p * 4 + 3] by {
            lemma_group_index(p, 3, 4);
            assert(m[p * 4 + 3] == b[p * 4 + 3]);
        }
    }
}

/// Prepares a layer for the denoising filter, which takes three channels: a
/// four-channel layer is split into colour and side parts, any other layer
/// passes whole, with an empty side part.
pub fn separate_side(kind: BufferType, data: Vec<u32>) -> (r: (Vec<u32>, Vec<u32>))
    requires
        kind == BufferType::RGBA ==> data.len() % 4 == 0,
    ensures
        kind == BufferType::RGBA ==> r.0@ == split_colour(data@) && r.1@ == split_side(data@),
        kind != BufferType::RGBA ==> r.0@ == data@ && r.1@.len() == 0,
{
    match kind {
        BufferType::RGBA => strip_alpha(data),
        _ => (data, Vec::new()),
    }
}

/// Undoes `separate_side` after the filter: a four-channel layer gets its
/// side part back as the fourth channel, any other layer is the filtered
/// buffer itself.
pub fn rejoin_side(kind: BufferType, colour: Vec<u32>, side: Vec<u32>) -> (r: Vec<u32>)
    requires
        kind == BufferType::RGBA ==> colour.len() == side.len() * 3,
    ensures
        kind == BufferType::RGBA ==> r@ == merge_side(colour@, side@),
        kind != BufferType::RGBA ==> r@ == colour@,
{
    match kind {
        BufferType::RGBA => add_alpha(colour, side),
        _ => colour,
    }
}

} // verus!
