//! The pens: each size paints a fixed footprint of canvas cells around the
//! stroke centre.

use vstd::prelude::*;

verus! {

/// One cell of a pen's footprint, as an offset from the stroke centre.
#[derive(Clone, Copy, PartialEq, Eq, Structural)]
pub struct OffsetSpot {
    pub x: i8,
    pub y: i8,
}

/// The four pen sizes.
#[derive(Clone, Copy, PartialEq, Eq, Structural)]
pub enum PenType {
    HugePen,
    FatPen,
    ThinPen,
    TinyPen,
}

/// The currently selected pen.
pub struct PenState {
    pub pentype: PenType,
}

/// The footprint of each pen size.
pub open spec fn spots_of(p: PenType) -> Seq<OffsetSpot> {
    match p {
        PenType::FatPen => seq![
            OffsetSpot { x: 0i8, y: 0i8 },
            OffsetSpot { x: 1i8, y: 0i8 },
            OffsetSpot { x: -1i8, y: 0i8 },
            OffsetSpot { x: 0i8, y: 1i8 },
            OffsetSpot { x: 0i8, y: -1i8 },
            OffsetSpot { x: 1i8, y: 1i8 },
            OffsetSpot { x: -1i8, y: 1i8 },
            OffsetSpot { x: 1i8, y: -1i8 },
            OffsetSpot { x: -1i8, y: -1i8 },
            OffsetSpot { x: -1i8, y: 2i8 },
            OffsetSpot { x: 0i8, y: 2i8 },
            OffsetSpot { x: 1i8, y: 2i8 },
            OffsetSpot { x: -1i8, y: -2i8 },
            OffsetSpot { x: 0i8, y: -2i8 },
            OffsetSpot { x: 1i8, y: -2i8 },
            OffsetSpot { x: 2i8, y: -1i8 },
            OffsetSpot { x: 2i8, y: 0i8 },
            OffsetSpot { x: 2i8, y: 1i8 },
            OffsetSpot { x: -2i8, y: -1i8 },
            OffsetSpot { x: -2i8, y: 0i8 },
            OffsetSpot { x: -2i8, y: 1i8 },
        ],
        PenType::ThinPen => seq![
            OffsetSpot { x: 0i8, y: 0i8 },
            OffsetSpot { x: 1i8, y: 0i8 },
            OffsetSpot { x: -1i8, y: 0i8 },
            OffsetSpot { x: 0i8, y: 1i8 },
            OffsetSpot { x: 0i8, y: -1i8 },
            OffsetSpot { x: 1i8, y: 1i8 },
            OffsetSpot { x: -1i8, y: 1i8 },
            OffsetSpot { x: 1i8, y: -1i8 },
            OffsetSpot { x: -1i8, y: -1i8 },
        ],
        PenType::TinyPen => seq![
            OffsetSpot { x: 0i8, y: 0i8 },
        ],
        PenType::HugePen => seq![
            OffsetSpot { x: 0i8, y: 0i8 },
            OffsetSpot { x: 1i8, y: 0i8 },
            OffsetSpot { x: -1i8, y: 0i8 },
            OffsetSpot { x: 0i8, y: 1i8 },
            OffsetSpot { x: 0i8, y: -1i8 },
            OffsetSpot { x: 1i8, y: 1i8 },
            OffsetSpot { x: -1i8, y: 1i8 },
            OffsetSpot { x: 1i8, y: -1i8 },
            OffsetSpot { x: -1i8, y: -1i8 },
            OffsetSpot { x: -1i8, y: 2i8 },
            OffsetSpot { x: 0i8, y: 2i8 },
            OffsetSpot { x: 1i8, y: 2i8 },
            OffsetSpot { x: -1i8, y: -2i8 },
            OffsetSpot { x: 0i8, y: -2i8 },
            OffsetSpot { x: 1i8, y: -2i8 },
            OffsetSpot { x: 2i8, y: -1i8 },
            OffsetSpot { x: 2i8, y: 0i8 },
            OffsetSpot { x: 2i8, y: 1i8 },
            OffsetSpot { x: -2i8, y: -1i8 },
            OffsetSpot { x: -2i8, y: 0i8 },
            OffsetSpot { x: -2i8, y: 1i8 },
            OffsetSpot { x: -3i8, y: -2i8 },
            OffsetSpot { x: -3i8, y: -1i8 },
            OffsetSpot { x: -3i8, y: 0i8 },
            OffsetSpot { x: -3i8, y: 1i8 },
            OffsetSpot { x: -3i8, y: 2i8 },
            OffsetSpot { x: 3i8, y: -2i8 },
            OffsetSpot { x: 3i8, y: -1i8 },
            OffsetSpot { x: 3i8, y: 0i8 },
            OffsetSpot { x: 3i8, y: 1i8 },
            OffsetSpot { x: 3i8, y: 2i8 },
            OffsetSpot { x: -2i8, y: 3i8 },
            OffsetSpot { x: -1i8, y: 3i8 },
            OffsetSpot { x: 0i8, y: 3i8 },
            OffsetSpot { x: 1i8, y: 3i8 },
            OffsetSpot { x: 2i8, y: 3i8 },
            OffsetSpot { x: -2i8, y: -3i8 },
            OffsetSpot { x: -1i8, y: -3i8 },
            OffsetSpot { x: 0i8, y: -3i8 },
            OffsetSpot { x: 1i8, y: -3i8 },
            OffsetSpot { x: 2i8, y: -3i8 },
            OffsetSpot { x: -2i8, y: -2i8 },
            OffsetSpot { x: 2i8, y: -2i8 },
            OffsetSpot { x: 2i8, y: 2i8 },
            OffsetSpot { x: -2i8, y: 2i8 },
        ],
    }
}

/// The size the pen-swap control moves to from each size.
pub open spec fn next_pen(p: PenType) -> PenType {
    match p {
        PenType::HugePen => PenType::TinyPen,
        PenType::FatPen => PenType::HugePen,
        PenType::ThinPen => PenType::FatPen,
        PenType::TinyPen => PenType::ThinPen,
    }
}

fn fat_spots() -> (r: Vec<OffsetSpot>)
    ensures
        r@ == spots_of(PenType::FatPen),
{
    let mut v: Vec<OffsetSpot> = Vec::new();
    v.push(OffsetSpot { x: 0i8, y: 0i8 });
    v.push(OffsetSpot { x: 1i8, y: 0i8 });
    v.push(OffsetSpot { x: -1i8, y: 0i8 });
    v.push(OffsetSpot { x: 0i8, y: 1i8 });
    v.push(OffsetSpot { x: 0i8, y: -1i8 });
    v.push(OffsetSpot { x: 1i8, y: 1i8 });
    v.push(OffsetSpot { x: -1i8, y: 1i8 });
    v.push(OffsetSpot { x: 1i8, y: -1i8 });
    v.push(OffsetSpot { x: -1i8, y: -1i8 });
    v.push(OffsetSpot { x: -1i8, y: 2i8 });
    v.push(OffsetSpot { x: 0i8, y: 2i8 });
    v.push(OffsetSpot { x: 1i8, y: 2i8 });
    v.push(OffsetSpot { x: -1i8, y: -2i8 });
    v.push(OffsetSpot { x: 0i8, y: -2i8 });
    v.push(OffsetSpot { x: 1i8, y: -2i8 });
    v.push(OffsetSpot { x: 2i8, y: -1i8 });
    v.push(OffsetSpot { x: 2i8, y: 0i8 });
    v.push(OffsetSpot { x: 2i8, y: 1i8 });
    v.push(OffsetSpot { x: -2i8, y: -1i8 });
    v.push(OffsetSpot { x: -2i8, y: 0i8 });
    v.push(OffsetSpot { x: -2i8, y: 1i8 });
    proof {
        assert(v@ =~= spots_of(PenType::FatPen));
    }
    v
}

fn thin_spots() -> (r: Vec<OffsetSpot>)
    ensures
        r@ == spots_of(PenType::ThinPen),
{
    let mut v: Vec<OffsetSpot> = Vec::new();
    v.push(OffsetSpot { x: 0i8, y: 0i8 });
    v.push(OffsetSpot { x: 1i8, y: 0i8 });
    v.push(OffsetSpot { x: -1i8, y: 0i8 });
    v.push(OffsetSpot { x: 0i8, y: 1i8 });
    v.push(OffsetSpot { x: 0i8, y: -1i8 });
    v.push(OffsetSpot { x: 1i8, y: 1i8 });
    v.push(OffsetSpot { x: -1i8, y: 1i8 });
    v.push(OffsetSpot { x: 1i8, y: -1i8 });
    v.push(OffsetSpot { x: -1i8, y: -1i8 });
    proof {
        assert(v@ =~= spots_of(PenType::ThinPen));
    }
    v
}

fn tiny_spots() -> (r: Vec<OffsetSpot>)
    ensures
        r@ == spots_of(PenType::TinyPen),
{
    let mut v: Vec<OffsetSpot> = Vec::new();
    v.push(OffsetSpot { x: 0i8, y: 0i8 });
    proof {
        assert(v@ =~= spots_of(PenType::TinyPen));
    }
    v
}

#[verifier::rlimit(50)]
fn huge_spots() -> (r: Vec<OffsetSpot>)
    ensures
        r@ == spots_of(PenType::HugePen),
{
    let mut v: Vec<OffsetSpot> = Vec::new();
    v.push(OffsetSpot { x: 0i8, y: 0i8 });
    v.push(OffsetSpot { x: 1i8, y: 0i8 });
    v.push(OffsetSpot { x: -1i8, y: 0i8 });
    v.push(OffsetSpot { x: 0i8, y: 1i8 });
    v.push(OffsetSpot { x: 0i8, y: -1i8 });
    v.push(OffsetSpot { x: 1i8, y: 1i8 });
    v.push(OffsetSpot { x: -1i8, y: 1i8 });
    v.push(OffsetSpot { x: 1i8, y: -1i8 });
    v.push(OffsetSpot { x: -1i8, y: -1i8 });
    v.push(OffsetSpot { x: -1i8, y: 2i8 });
    v.push(OffsetSpot { x: 0i8, y: 2i8 });
    v.push(OffsetSpot { x: 1i8, y: 2i8 });
    v.push(OffsetSpot { x: -1i8, y: -2i8 });
    v.push(OffsetSpot { x: 0i8, y: -2i8 });
    v.push(OffsetSpot { x: 1i8, y: -2i8 });
    v.push(OffsetSpot { x: 2i8, y: -1i8 });
    v.push(OffsetSpot { x: 2i8, y: 0i8 });
    v.push(OffsetSpot { x: 2i8, y: 1i8 });
    v.push(OffsetSpot { x: -2i8, y: -1i8 });
    v.push(OffsetSpot { x: -2i8, y: 0i8 });
    v.push(OffsetSpot { x: -2i8, y: 1i8 });
    v.push(OffsetSpot { x: -3i8, y: -2i8 });
    v.push(OffsetSpot { x: -3i8, y: -1i8 });
    v.push(OffsetSpot { x: -3i8, y: 0i8 });
    v.push(OffsetSpot { x: -3i8, y: 1i8 });
    v.push(OffsetSpot { x: -3i8, y: 2i8 });
    v.push(OffsetSpot { x: 3i8, y: -2i8 });
    v.push(OffsetSpot { x: 3i8, y: -1i8 });
    v.push(OffsetSpot { x: 3i8, y: 0i8 });
    v.push(OffsetSpot { x: 3i8, y: 1i8 });
    v.push(OffsetSpot { x: 3i8, y: 2i8 });
    v.push(OffsetSpot { x: -2i8, y: 3i8 });
    v.push(OffsetSpot { x: -1i8, y: 3i8 });
    v.push(OffsetSpot { x: 0i8, y: 3i8 });
    v.push(OffsetSpot { x: 1i8, y: 3i8 });
    v.push(OffsetSpot { x: 2i8, y: 3i8 });
    v.push(OffsetSpot { x: -2i8, y: -3i8 });
    v.push(OffsetSpot { x: -1i8, y: -3i8 });
    v.push(OffsetSpot { x: 0i8, y: -3i8 });
    v.push(OffsetSpot { x: 1i8, y: -3i8 });
    v.push(OffsetSpot { x: 2i8, y: -3i8 });
    v.push(OffsetSpot { x: -2i8, y: -2i8 });
    v.push(OffsetSpot { x: 2i8, y: -2i8 });
    v.push(OffsetSpot { x: 2i8, y: 2i8 });
    v.push(OffsetSpot { x: -2i8, y: 2i8 });
    proof {
        assert(v@ =~= spots_of(PenType::HugePen));
    }
    v
}

impl PenType {
    /// The cells this pen paints around the stroke centre.
    pub fn get_spots(&self) -> (r: Vec<OffsetSpot>)
        ensures
            r@ == spots_of(*self),
    {
        match self {
            PenType::FatPen => fat_spots(),
            PenType::ThinPen => thin_spots(),
            PenType::TinyPen => tiny_spots(),
            PenType::HugePen => huge_spots(),
        }
    }

    /// The next size in the swap cycle.
    pub fn next(&self) -> (r: PenType)
        ensures
            r == next_pen(*self),
    {
        match self {
            PenType::HugePen => PenType::TinyPen,
            PenType::FatPen => PenType::HugePen,
            PenType::ThinPen => PenType::FatPen,
            PenType::TinyPen => PenType::ThinPen,
        }
    }
}

impl PenState {
    pub fn new(pentype: PenType) -> (r: PenState)
        ensures
            r.pentype == pentype,
    {
        PenState { pentype }
    }
}

} // verus!
