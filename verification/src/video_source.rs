//! What a source of video fields delivers.
use vstd::prelude::*;

verus! {

/// A television standard.
#[derive(Clone, Copy, Debug, PartialEq, Eq, Structural)]
pub enum VideoStandard {
    Ntsc,
    Pal,
}

/// Which rows of a frame a field holds.
#[derive(Clone, Copy, Debug, PartialEq, Eq, Structural)]
pub enum FieldParity {
    Even,
    Odd,
}

/// One field of video, two bytes to the pixel in the order U Y0 V Y1.
#[derive(Debug)]
pub struct Field {
    pub parity: FieldParity,
    pub width: u32,
    pub height: u32,
    pub pixels: Vec<u8>,
}

/// One field of video, as a model.
pub struct FieldModel {
    pub parity: FieldParity,
    pub width: u32,
    pub height: u32,
    pub pixels: Seq<u8>,
}

impl View for Field {
    type V = FieldModel;

    open spec fn view(&self) -> FieldModel {
        FieldModel { parity: self.parity, width: self.width, height: self.height, pixels: self.pixels@ }
    }
}

impl VideoStandard {
    /// Width and height of one field: half of 640 by 486 or 768 by 576 pixels.
    pub open spec fn size(self) -> (u32, u32) {
        match self {
            VideoStandard::Ntsc => (640, 243),
            VideoStandard::Pal => (768, 288),
        }
    }

    /// Width and height of one field.
    pub fn field_size(self) -> (r: (u32, u32))
        ensures
            r == self.size(),
    {
        match self {
            VideoStandard::Ntsc => (640, 243),
            VideoStandard::Pal => (768, 288),
        }
    }
}

impl FieldParity {
    /// The other parity.
    pub open spec fn flipped(self) -> FieldParity {
        match self {
            FieldParity::Even => FieldParity::Odd,
            FieldParity::Odd => FieldParity::Even,
        }
    }

    /// The other parity.
    pub fn flip(self) -> (r: FieldParity)
        ensures
            r == self.flipped(),
    {
        match self {
            FieldParity::Even => FieldParity::Odd,
            FieldParity::Odd => FieldParity::Even,
        }
    }
}

/// A field has half of 640 by 486 pixels by one standard, and half of 768 by 576 by the
/// other. The two parities follow each other.
pub proof fn law_standards(parity: FieldParity)
    ensures
        VideoStandard::Ntsc.size().0 == 640,
        VideoStandard::Ntsc.size().1 * 2 == 486,
        VideoStandard::Pal.size().0 == 768,
        VideoStandard::Pal.size().1 * 2 == 576,
        parity.flipped() != parity,
        parity.flipped().flipped() == parity,
{
}

/// A field and its model have the same parts.
pub proof fn law_model_of_a_field(f: Field)
    ensures
        f@.parity == f.parity,
        f@.width == f.width,
        f@.height == f.height,
        f@.pixels == f.pixels@,
{
}

}
