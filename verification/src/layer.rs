use vstd::prelude::*;

verus! {

use crate::aggregate::Aggregate;
use crate::arith::sum_of;
use crate::error::Error;
use crate::raster::{GridView, Raster};

/// The payload of one pyramid level: a raster tagged with its channel
/// layout.  `Grayscale` holds one channel, `Rgb` three, `Raw` any number
/// (an arbitrary color space).
#[derive(Debug)]
pub enum WaveletLayerBuffer {
    Grayscale { data: Raster },
    Rgb { data: Raster },
    Raw { data: Raster },
}

impl WaveletLayerBuffer {
    /// The raster behind the tag.
    pub open spec fn grid(self) -> GridView {
        match self {
            WaveletLayerBuffer::Grayscale { data } => data@,
            WaveletLayerBuffer::Rgb { data } => data@,
            WaveletLayerBuffer::Raw { data } => data@,
        }
    }

    /// The tag states the channel count it stands for.
    pub open spec fn wf(self) -> bool {
        &&& self.grid().wf()
        &&& self matches WaveletLayerBuffer::Grayscale { .. } ==> self.grid().channels == 1
        &&& self matches WaveletLayerBuffer::Rgb { .. } ==> self.grid().channels == 3
    }

    /// The raster behind the tag, by reference.
    pub fn raster(&self) -> (r: &Raster)
        ensures
            r@ == self.grid(),
    {
        match self {
            WaveletLayerBuffer::Grayscale { data } => data,
            WaveletLayerBuffer::Rgb { data } => data,
            WaveletLayerBuffer::Raw { data } => data,
        }
    }
}

impl Aggregate for WaveletLayerBuffer {
    open spec fn agg_samples(&self) -> Seq<i64> {
        self.grid().data
    }

    open spec fn agg_wf(&self) -> bool {
        self.grid().wf()
    }

    fn min(&self) -> (r: i64) {
        match self {
            WaveletLayerBuffer::Grayscale { data } => data.min(),
            WaveletLayerBuffer::Rgb { data } => data.min(),
            WaveletLayerBuffer::Raw { data } => data.min(),
        }
    }

    fn max(&self) -> (r: i64) {
        match self {
            WaveletLayerBuffer::Grayscale { data } => data.max(),
            WaveletLayerBuffer::Rgb { data } => data.max(),
            WaveletLayerBuffer::Raw { data } => data.max(),
        }
    }
}

/// A layer rendered for encoding: grayscale or RGB sample planes.  The
/// raw variant of `WaveletLayerBuffer` has no rendered form.
#[derive(Debug)]
pub enum WaveletLayerImageBuffer {
    Grayscale { buffer: Raster },
    Rgb { buffer: Raster },
}

impl WaveletLayerImageBuffer {
    /// The raster behind the tag.
    pub open spec fn grid(self) -> GridView {
        match self {
            WaveletLayerImageBuffer::Grayscale { buffer } => buffer@,
            WaveletLayerImageBuffer::Rgb { buffer } => buffer@,
        }
    }

    /// Renders a layer buffer: grayscale and RGB layers carry over with
    /// their samples untouched; a raw layer has no rendered form and is
    /// rejected.
    pub fn from_buffer(value: WaveletLayerBuffer) -> (r: Result<WaveletLayerImageBuffer, Error>)
        ensures
            match value {
                WaveletLayerBuffer::Grayscale { .. } => r matches Ok(img) && (img matches
                    WaveletLayerImageBuffer::Grayscale { .. }) && img.grid() == value.grid(),
                WaveletLayerBuffer::Rgb { .. } => r matches Ok(img) && (img matches
                    WaveletLayerImageBuffer::Rgb { .. }) && img.grid() == value.grid(),
                WaveletLayerBuffer::Raw { .. } => r == Err::<WaveletLayerImageBuffer, Error>(
                    Error::LayerMismatch,
                ),
            },
    {
        match value {
            WaveletLayerBuffer::Grayscale { data } => Ok(
                WaveletLayerImageBuffer::Grayscale { buffer: data },
            ),
            WaveletLayerBuffer::Rgb { data } => Ok(WaveletLayerImageBuffer::Rgb { buffer: data }),
            WaveletLayerBuffer::Raw { .. } => Err(Error::LayerMismatch),
        }
    }
}

/// One pyramid level: its payload and its dilation level.  A detail layer
/// carries `pixel_scale = Some(k)`; the terminal residue carries `None`.
#[derive(Debug)]
pub struct WaveletLayer {
    pub buffer: WaveletLayerBuffer,
    pub pixel_scale: Option<usize>,
}

impl WaveletLayer {
    /// Whether this is the terminal residue layer rather than a detail
    /// layer: exactly when it carries no dilation level.
    pub fn is_residue_layer(&self) -> (r: bool)
        ensures
            r == (self.pixel_scale is None),
    {
        self.pixel_scale.is_none()
    }
}

impl Clone for WaveletLayerBuffer {
    /// A clone keeps the tag and the samples.
    fn clone(&self) -> (r: Self)
        ensures
            r.grid() == self.grid(),
            r matches WaveletLayerBuffer::Grayscale { .. } <==> self matches
                WaveletLayerBuffer::Grayscale { .. },
            r matches WaveletLayerBuffer::Rgb { .. } <==> self matches WaveletLayerBuffer::Rgb {
                ..
            },
            r matches WaveletLayerBuffer::Raw { .. } <==> self matches WaveletLayerBuffer::Raw {
                ..
            },
    {
        match self {
            WaveletLayerBuffer::Grayscale { data } => WaveletLayerBuffer::Grayscale {
                data: data.clone(),
            },
            WaveletLayerBuffer::Rgb { data } => WaveletLayerBuffer::Rgb { data: data.clone() },
            WaveletLayerBuffer::Raw { data } => WaveletLayerBuffer::Raw { data: data.clone() },
        }
    }
}

impl Clone for WaveletLayer {
    /// A clone keeps the payload and the dilation level.
    fn clone(&self) -> (r: Self)
        ensures
            r.buffer.grid() == self.buffer.grid(),
            r.pixel_scale == self.pixel_scale,
    {
        WaveletLayer { buffer: self.buffer.clone(), pixel_scale: self.pixel_scale }
    }
}

/// The series of one sample position's values across a sequence of
/// layers, indexed by the layer.
pub open spec fn layer_series(ls: Seq<WaveletLayer>, y: int, x: int, ch: int) -> spec_fn(
    int,
) -> int {
    |i: int| ls[i].buffer.grid().at(y, x, ch)
}

/// The element-wise sum of a sequence of layers at one sample position.
pub open spec fn layers_sum(ls: Seq<WaveletLayer>, y: int, x: int, ch: int) -> int {
    sum_of(layer_series(ls, y, x, ch), ls.len())
}

/// Appending a layer adds its sample to the element-wise sum.
pub proof fn lemma_layers_sum_push(ls: Seq<WaveletLayer>, l: WaveletLayer, y: int, x: int, ch: int)
    ensures
        layers_sum(ls.push(l), y, x, ch) == layers_sum(ls, y, x, ch) + l.buffer.grid().at(
            y,
            x,
            ch,
        ),
{
    let s1 = ls.push(l);
    let f0 = layer_series(ls, y, x, ch);
    let f1 = layer_series(s1, y, x, ch);
    assert(s1.len() == ls.len() + 1);
    assert(s1[ls.len() as int] == l);
    assert forall|i: int| 0 <= i < ls.len() implies #[trigger] f1(i) == #[trigger] f0(i) by {
        assert(s1[i] == ls[i]);
    }
    crate::arith::lemma_sum_congruence(f1, f0, ls.len());
    assert(sum_of(f1, s1.len()) == sum_of(f1, ls.len()) + f1(ls.len() as int));
}

} // verus!
