//! What the encoder writes for each pixel of a layer: the values of pixel
//! `(x, y)` sit at `(x + y * width) * channels` in the layer's buffer.
use vstd::prelude::*;
use crate::channels::lemma_group_index;
use crate::decode::{interleave, reverse_declared};

verus! {

/// The three values of pixel `(x, y)` of a three-channel buffer, if the
/// buffer reaches that far.
pub open spec fn rgb_at_spec(b: Seq<u32>, width: int, x: int, y: int) -> Option<(u32, u32, u32)> {
    let i = x + y * width;
    if (i + 1) * 3 <= b.len() {
        Some((b[i * 3], b[i * 3 + 1], b[i * 3 + 2]))
    } else {
        None
    }
}

/// The four values of pixel `(x, y)` of a four-channel buffer, if the buffer
/// reaches that far.
pub open spec fn rgba_at_spec(b: Seq<u32>, width: int, x: int, y: int) -> Option<
    (u32, u32, u32, u32),
> {
    let i = x + y * width;
    if (i + 1) * 4 <= b.len() {
        Some((b[i * 4], b[i * 4 + 1], b[i * 4 + 2], b[i * 4 + 3]))
    } else {
        None
    }
}

/// Start of pixel `(x, y)` in a buffer of `channels` values per pixel, if
/// the whole pixel lies within `len` values. Where the arithmetic leaves
/// `usize` the pixel lies past every buffer.
fn pixel_start(len: usize, width: usize, channels: usize, x: usize, y: usize) -> (r: Option<usize>)
    requires
        channels > 0,
    ensures
        r is Some <==> (x + y * width + 1) * channels <= len,
        r matches Some(s) ==> s == (x + y * width) * channels,
{
    proof {
        assert((x + y * width + 1) * channels >= x + y * width + 1) by (nonlinear_arith)
            requires channels > 0;
        assert(x + y * width >= y * width);
    }
    let row = match y.checked_mul(width) {
        Some(v) => v,
        None => return None,
    };
    let end = match row.checked_add(x) {
        Some(i) => match i.checked_add(1) {
            Some(v) => v,
            None => return None,
        },
        None => return None,
    };
    match end.checked_mul(channels) {
        Some(e) => {
            if e <= len {
                assert(e == (end - 1) * channels + channels) by (nonlinear_arith)
                    requires e == end * channels;
                Some(e - channels)
            } else {
                None
            }
        },
        None => None,
    }
}

/// The values of pixel `(x, y)` of a three-channel buffer, as the encoder
/// writes them: `buffer[(x + y * width) * 3 ..][..3]`, or `None` past the end.
pub fn rgb_at(buffer: &Vec<u32>, width: usize, x: usize, y: usize) -> (r: Option<(u32, u32, u32)>)
    ensures
        r == rgb_at_spec(buffer@, width as int, x as int, y as int),
{
    match pixel_start(buffer.len(), width, 3, x, y) {
        Some(s) => Some((buffer[s], buffer[s + 1], buffer[s + 2])),
        None => None,
    }
}

/// The values of pixel `(x, y)` of a four-channel buffer, as the encoder
/// writes them: `buffer[(x + y * width) * 4 ..][..4]`, or `None` past the end.
pub fn rgba_at(buffer: &Vec<u32>, width: usize, x: usize, y: usize) -> (r: Option<
    (u32, u32, u32, u32),
>)
    ensures
        r == rgba_at_spec(buffer@, width as int, x as int, y as int),
{
    match pixel_start(buffer.len(), width, 4, x, y) {
        Some(s) => Some((buffer[s], buffer[s + 1], buffer[s + 2], buffer[s + 3])),
        None => None,
    }
}

/// Decoding three declared channels and encoding the layer again writes
/// every sample back unchanged: at each pixel inside the resolution the
/// encoder finds the values of the three declared channels, last declared
/// first, which undoes the reversal of the merge.
pub proof fn lemma_decode_encode_round_trip(
    channels: Seq<Seq<u32>>,
    width: nat,
    height: nat,
    x: nat,
    y: nat,
)
    requires
        channels.len() == 3,
        forall|c: int| 0 <= c < 3 ==> (#[trigger] channels[c]).len() == width * height,
        x < width,
        y < height,
    ensures
        ({
            let i = (x + y * width) as int;
            rgb_at_spec(interleave(channels, width * height), width as int, x as int, y as int)
                == Some((channels[2][i], channels[1][i], channels[0][i]))
        }),
{
    let i = (x + y * width) as int;
    let b = interleave(channels, width * height);
    assert(i + 1 <= width * height) by (nonlinear_arith)
        requires x < width, y < height, i == x + y * width;
    assert((i + 1) * 3 <= (width * height) * 3) by (nonlinear_arith)
        requires i + 1 <= width * height;
    assert(b.len() == (width * height) * 3);
    lemma_group_index(i, 0, 3);
    lemma_group_index(i, 1, 3);
    lemma_group_index(i, 2, 3);
    assert(reverse_declared(3, 0) == 2);
}

} // verus!
