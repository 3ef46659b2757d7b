//! The layer store: named layers of one resolution, each a flat buffer of
//! samples interleaved per pixel, classified by its channel count.
//!
//! Samples are the raw bit patterns of 32-bit floats, so that every value
//! is carried bit for bit.
use vstd::prelude::*;
use crate::channels::lemma_group_index;

verus! {

/// Channel-count classification of a layer's buffer.
#[derive(Clone, Copy, Debug, PartialEq, Eq, Structural)]
pub enum BufferType {
    RGB,
    RGBA,
    Other,
}

/// Failures of the denoising pipeline.
#[derive(Clone, Copy, Debug, PartialEq, Eq, Structural)]
pub enum ImageError {
    /// The requested layer name is absent from the store.
    LayerNotFound,
    /// Reading or decoding a container file failed.
    DecodeFailure,
    /// Writing a container file failed.
    EncodeFailure,
    /// The beauty, albedo and normal sequences differ in frame count.
    SequenceMismatch,
    /// The denoising filter rejected its input or reported a device error.
    TransformFailure,
}

/// The classification of a buffer with `channels` values per pixel.
pub open spec fn buffer_type_of(channels: int) -> BufferType {
    if channels == 3 {
        BufferType::RGB
    } else if channels == 4 {
        BufferType::RGBA
    } else {
        BufferType::Other
    }
}

/// A layer agrees with a resolution of `pixels` pixels: its buffer holds a
/// whole number of values per pixel, and its classification is the one of
/// that number.
pub open spec fn layer_fits(pixels: int, layer: (BufferType, Seq<u32>)) -> bool {
    &&& (layer.1.len() as int) % pixels == 0
    &&& layer.0 == buffer_type_of((layer.1.len() as int) / pixels)
}

/// Classifies a buffer of `len` values over `pixel_count` pixels.
pub fn buffer_type_for(len: usize, pixel_count: usize) -> (r: BufferType)
    requires
        pixel_count > 0,
    ensures
        r == buffer_type_of(len as int / pixel_count as int),
{
    let channels: usize = len / pixel_count;
    if channels == 3 {
        BufferType::RGB
    } else if channels == 4 {
        BufferType::RGBA
    } else {
        BufferType::Other
    }
}

/// The layers of a store, by name.
#[verifier::external_body]
pub struct LayerMap {
    map: hashbrown::HashMap<String, (BufferType, Vec<u32>)>,
}

/// What a `LayerMap` holds: each name with its classification and samples.
pub uninterp spec fn layers_of(m: LayerMap) -> Map<Seq<char>, (BufferType, Seq<u32>)>;

impl LayerMap {
    /// Relies on hashbrown::HashMap::new: a new map holds nothing.
    #[verifier::external_body]
    fn new() -> (r: LayerMap)
        ensures
            layers_of(r).dom() == Set::<Seq<char>>::empty(),
    {
        LayerMap { map: hashbrown::HashMap::new() }
    }

    /// Relies on hashbrown::HashMap::insert: afterwards the key maps to the
    /// given value, replacing any earlier one, and no other entry changes.
    #[verifier::external_body]
    fn insert(&mut self, name: String, layer: (BufferType, Vec<u32>))
        ensures
            layers_of(*final(self)) == layers_of(*old(self)).insert(name@, (layer.0, layer.1@)),
    {
        self.map.insert(name, layer);
    }

    /// Relies on hashbrown::HashMap::get: the value stored under the key, if any.
    #[verifier::external_body]
    fn get(&self, name: &String) -> (r: Option<&(BufferType, Vec<u32>)>)
        ensures
            r is Some <==> layers_of(*self).contains_key(name@),
            r matches Some(v) ==> layers_of(*self)[name@] == (v.0, v.1@),
    {
        self.map.get(name)
    }
}

/// A multi-layer image: one resolution, and a buffer per named layer.
pub struct FloatImage {
    pub width: usize,
    pub height: usize,
    pub buffers: LayerMap,
}

impl FloatImage {
    /// The layers, by name, with their classification and samples.
    pub open spec fn layers(&self) -> Map<Seq<char>, (BufferType, Seq<u32>)> {
        layers_of(self.buffers)
    }

    /// Number of pixels of every layer.
    pub open spec fn pixels(&self) -> int {
        self.width * self.height
    }

    /// The store's invariant: a positive resolution whose pixel count fits a
    /// `usize`, and every layer agreeing with it.
    pub open spec fn wf(&self) -> bool {
        &&& self.width > 0
        &&& self.height > 0
        &&& self.pixels() <= usize::MAX
        &&& forall|name: Seq<char>| #[trigger] self.layers().contains_key(name)
            ==> layer_fits(self.pixels(), self.layers()[name])
    }

    /// An empty store of the given resolution.
    pub fn new(width: usize, height: usize) -> (r: FloatImage)
        requires
            width > 0,
            height > 0,
            width * height <= usize::MAX,
        ensures
            r.wf(),
            r.width == width,
            r.height == height,
            r.layers().dom() == Set::<Seq<char>>::empty(),
    {
        FloatImage { width, height, buffers: LayerMap::new() }
    }

    /// `width * height`.
    pub fn pixel_count(&self) -> (r: usize)
        requires
            self.wf(),
        ensures
            r == self.pixels(),
            r > 0,
    {
        proof {
            assert(self.width * self.height > 0) by (nonlinear_arith)
                requires
                    self.width > 0,
                    self.height > 0,
            ;
        }
        self.width * self.height
    }

    /// The classification and samples of the layer `name`, or `LayerNotFound`.
    pub fn get(&self, name: &String) -> (r: Result<&(BufferType, Vec<u32>), ImageError>)
        ensures
            r is Ok <==> self.layers().contains_key(name@),
            r matches Ok(v) ==> self.layers()[name@] == (v.0, v.1@),
            r matches Err(e) ==> e == ImageError::LayerNotFound,
    {
        match self.buffers.get(name) {
            Some(v) => Ok(v),
            None => Err(ImageError::LayerNotFound),
        }
    }

    /// Whether `put` accepts this classification and buffer.
    pub fn fits(&self, kind: BufferType, buffer: &Vec<u32>) -> (r: bool)
        requires
            self.wf(),
        ensures
            r == layer_fits(self.pixels(), (kind, buffer@)),
    {
        let pixels: usize = self.pixel_count();
        buffer.len() % pixels == 0 && kind == buffer_type_for(buffer.len(), pixels)
    }

    /// Stores `buffer` under `name`, replacing any layer of that name.
    pub fn put(&mut self, name: String, kind: BufferType, buffer: Vec<u32>)
        requires
            old(self).wf(),
            layer_fits(old(self).pixels(), (kind, buffer@)),
        ensures
            final(self).wf(),
            final(self).width == old(self).width,
            final(self).height == old(self).height,
            final(self).layers() == old(self).layers().insert(name@, (kind, buffer@)),
    {
        let ghost key = name@;
        let ghost entry = (kind, buffer@);
        self.buffers.insert(name, (kind, buffer));
        proof {
            assert forall|n: Seq<char>| #[trigger] self.layers().contains_key(n) implies layer_fits(
                self.pixels(),
                self.layers()[n],
            ) by {
                if n != key {
                    assert(old(self).layers().contains_key(n));
                }
            }
        }
    }
}

/// A layer's classification always agrees with the length of its buffer:
/// the length is a whole multiple of the pixel count, and the multiple
/// decides the classification.
pub proof fn lemma_layer_classified(img: &FloatImage, name: Seq<char>)
    requires
        img.wf(),
        img.layers().contains_key(name),
    ensures
        (img.layers()[name].1.len() as int) % img.pixels() == 0,
        img.layers()[name].0 == buffer_type_of((img.layers()[name].1.len() as int) / img.pixels()),
{
}

} // verus!
