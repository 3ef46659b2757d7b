//! Building a layer store from the layers and channels that a container
//! reader handed over, one sample sequence per declared channel.
use vstd::prelude::*;
use crate::channels::lemma_group_index;
use crate::image::{buffer_type_for, buffer_type_of, layer_fits, BufferType, FloatImage};

verus! {

/// A layer as the container declares it: an optional name, and one sample
/// sequence per channel, in declaration order.
pub struct DecodedLayer {
    pub name: Option<String>,
    pub channels: Vec<Vec<u32>>,
}

/// The name under which a layer is stored: its own, or `main_layer` when it
/// declares none.
pub open spec fn resolved_name(name: Option<String>) -> Seq<char> {
    match name {
        Some(s) => s@,
        None => "main_layer"@,
    }
}

/// The sample sequences of a list of channels.
pub open spec fn channel_views(channels: Seq<Vec<u32>>) -> Seq<Seq<u32>> {
    channels.map_values(|c: Vec<u32>| c@)
}

/// Channel policy of the merge: slot `slot` of a pixel with `count` channels
/// holds the declared channel `count - 1 - slot`, so that channels declared
/// as A, B, G, R come out as R, G, B, A.
pub open spec fn reverse_declared(count: int, slot: int) -> int {
    count - 1 - slot
}

/// The interleaved buffer of `pixels` pixels: pixels outermost, and within a
/// pixel the channels in reverse declaration order.
pub open spec fn interleave(channels: Seq<Seq<u32>>, pixels: nat) -> Seq<u32> {
    Seq::new(
        pixels * channels.len(),
        |j: int|
            channels[reverse_declared(channels.len() as int, j % (channels.len() as int))][j
                / (channels.len() as int)],
    )
}

/// What a layer becomes in the store: the classification of its channel
/// count, and its interleaved samples.
pub open spec fn decoded_entry(layer: DecodedLayer, pixels: nat) -> (BufferType, Seq<u32>) {
    (
        buffer_type_of(layer.channels.len() as int),
        interleave(channel_views(layer.channels@), pixels),
    )
}

/// The layers of a store built from `layers` in order: a later layer of the
/// same name replaces an earlier one.
pub open spec fn decoded_layers(layers: Seq<DecodedLayer>, pixels: nat) -> Map<
    Seq<char>,
    (BufferType, Seq<u32>),
>
    decreases layers.len(),
{
    if layers.len() == 0 {
        Map::empty()
    } else {
        decoded_layers(layers.drop_last(), pixels).insert(
            resolved_name(layers.last().name),
            decoded_entry(layers.last(), pixels),
        )
    }
}

/// Every channel holds `pixels` samples, and the merged buffer's length fits
/// a `usize`.
pub open spec fn channels_fit(channels: Seq<Vec<u32>>, pixels: nat) -> bool {
    &&& channels.len() * pixels <= usize::MAX
    &&& forall|c: int| 0 <= c < channels.len() ==> (#[trigger] channels[c])@.len() == pixels
}

/// Merges per-channel sample sequences of `n_pixels` samples each into one
/// interleaved buffer, visiting the channels in reverse declaration order.
pub fn merge_channels(channels: &Vec<Vec<u32>>, n_pixels: usize) -> (r: Vec<u32>)
    requires
        channels_fit(channels@, n_pixels as nat),
    ensures
        r@ == interleave(channel_views(channels@), n_pixels as nat),
{
    let count: usize = channels.len();
    let ghost chs = channel_views(channels@);
    let mut out: Vec<u32> = Vec::new();
    let mut p: usize = 0;
    while p < n_pixels
        invariant
            count == channels.len(),
            chs == channel_views(channels@),
            channels_fit(channels@, n_pixels as nat),
            p <= n_pixels,
            out.len() == p * count,
            forall|j: int|
                0 <= j < out.len() ==> #[trigger] out@[j] == chs[reverse_declared(
                    count as int,
                    j % (count as int),
                )][j / (count as int)],
        decreases n_pixels - p,
    {
        let mut k: usize = 0;
        while k < count
            invariant
                count == channels.len(),
                chs == channel_views(channels@),
                channels_fit(channels@, n_pixels as nat),
                p < n_pixels,
                k <= count,
                out.len() == p * count + k,
                forall|j: int|
                    0 <= j < out.len() ==> #[trigger] out@[j] == chs[reverse_declared(
                        count as int,
                        j % (count as int),
                    )][j / (count as int)],
            decreases count - k,
        {
            let c: usize = count - 1 - k;
            assert(channels@[c as int]@.len() == n_pixels);
            out.push(channels[c][p]);
            proof {
                lemma_group_index(p as int, k as int, count as int);
            }
            k = k + 1;
        }
        proof {
            assert((p + 1) * count == p * count + count) by (nonlinear_arith);
        }
        p = p + 1;
    }
    proof {
        assert(out@ =~= interleave(chs, n_pixels as nat));
    }
    out
}

/// Builds a store of the given resolution from decoded layers, in order:
/// each layer is stored under its resolved name, with its channels merged
/// and classified by their count.
pub fn from_decoded_layers(width: usize, height: usize, layers: Vec<DecodedLayer>) -> (r:
    FloatImage)
    requires
        width > 0,
        height > 0,
        width * height <= usize::MAX,
        forall|i: int|
            0 <= i < layers.len() ==> channels_fit(
                (#[trigger] layers@[i]).channels@,
                (width * height) as nat,
            ),
    ensures
        r.wf(),
        r.width == width,
        r.height == height,
        r.layers() == decoded_layers(layers@, (width * height) as nat),
{
    let mut img = FloatImage::new(width, height);
    let pixels: usize = img.pixel_count();
    let mut i: usize = 0;
    while i < layers.len()
        invariant
            img.wf(),
            img.width == width,
            img.height == height,
            pixels == width * height,
            pixels > 0,
            i <= layers.len(),
            forall|i: int|
                0 <= i < layers.len() ==> channels_fit(
                    (#[trigger] layers@[i]).channels@,
                    (width * height) as nat,
                ),
            img.layers() == decoded_layers(layers@.subrange(0, i as int), pixels as nat),
        decreases layers.len() - i,
    {
        let layer = &layers[i];
        let name: String = match &layer.name {
            Some(s) => s.clone(),
            None => "main_layer".to_owned(),
        };
        let count: usize = layer.channels.len();
        let merged = merge_channels(&layer.channels, pixels);
        let kind = buffer_type_for(merged.len(), pixels);
        proof {
            lemma_group_index(count as int, 0, pixels as int);
            assert(merged@.len() == count * pixels) by (nonlinear_arith)
                requires merged@.len() == pixels * count;
            assert(layer_fits(pixels as int, (kind, merged@)));
            assert(layers@.subrange(0, i + 1).drop_last() =~= layers@.subrange(0, i as int));
        }
        img.put(name, kind, merged);
        i = i + 1;
    }
    assert(layers@.subrange(0, layers.len() as int) =~= layers@);
    img
}

} // verus!
