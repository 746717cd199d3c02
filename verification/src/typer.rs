//! Text typing onto the canvas: a glyph head that walks the 200-wide canvas,
//! copying 16 x 16 glyph cells out of a 544 x 544 glyph atlas, wrapping at
//! the right edge and stepping back on backspace.

use vstd::prelude::*;

verus! {

/// Width of the square canvas in pixels.
pub const CANVAS_WIDTH: u16 = 200;

/// Number of pixels on the canvas.
pub const CANVAS_AREA: usize = 40000;

/// Width and height of one glyph in pixels.
pub const GLYPH_SIZE: u16 = 16;

/// Width of the square glyph atlas in pixels: 16 cells of 34 pixels each.
pub const ATLAS_WIDTH: usize = 544;

/// Number of pixels in the glyph atlas.
pub const ATLAS_AREA: usize = 544 * 544;

/// A position on the canvas.
#[derive(Clone, Copy, Debug, PartialEq, Eq, Structural)]
pub struct ArrayCoord {
    pub x: u16,
    pub y: u16,
}

/// The linear canvas index of a position, clamped into the canvas.
pub open spec fn coord_index(c: ArrayCoord) -> int {
    clamp_index(c.y * 200 + c.x)
}

/// Indexes past the last canvas cell stick at the last cell.
pub open spec fn clamp_index(i: int) -> int {
    if i > 39999 {
        39999
    } else {
        i
    }
}

impl ArrayCoord {
    /// The linear canvas index of this position. The coordinate arithmetic
    /// must not leave the machine word.
    pub fn to_index(&self) -> (r: u16)
        requires
            self.y as int * 200 + self.x as int <= u16::MAX as int,
        ensures
            r as int == coord_index(*self),
    {
        let idx = self.y * CANVAS_WIDTH + self.x;
        if idx > 39999 {
            39999
        } else {
            idx
        }
    }

    pub fn new(x: u16, y: u16) -> (r: ArrayCoord)
        ensures
            r == (ArrayCoord { x, y }),
    {
        ArrayCoord { x, y }
    }

    pub fn set(&mut self, x: u16, y: u16)
        ensures
            *final(self) == (ArrayCoord { x, y }),
    {
        self.x = x;
        self.y = y;
    }
}

/// Pixel column of the atlas where this character's glyph cell starts:
/// sixteen 34-pixel cells per row, one pixel of bezel.
pub open spec fn glyph_origin_x(c: u8) -> int {
    34 * ((c % 16) as int) + 1
}

/// Pixel row of the atlas where this character's glyph cell starts.
pub open spec fn glyph_origin_y(c: u8) -> int {
    34 * ((c / 16) as int) + 1
}

/// The 256 atlas pixels of this character's glyph, row by row.
pub open spec fn glyph_cells(guitex: Seq<u8>, c: u8) -> Seq<u8> {
    Seq::new(
        256,
        |t: int| guitex[(glyph_origin_y(c) + t / 16) * 544 + glyph_origin_x(c) + t % 16],
    )
}

/// The canvas after the first `n` of the 256 glyph cells have been copied in,
/// in row order, starting at linear index `start`; every write is clamped
/// into the canvas, so at the bottom edge a later cell wins.
pub open spec fn written(canvas: Seq<u8>, start: int, glyph: Seq<u8>, n: int) -> Seq<u8>
    recommends
        0 <= n <= 256,
        glyph.len() == 256,
    decreases n,
{
    if n <= 0 {
        canvas
    } else {
        let t = n - 1;
        written(canvas, start, glyph, t).update(clamp_index(start + (t / 16) * 200 + t % 16), glyph[t])
    }
}

/// The glyph head after a newline: back to the starting column, one glyph
/// row further down.
pub open spec fn newline_head(t: Typer) -> ArrayCoord {
    ArrayCoord { x: t.current_start.x, y: (t.head.y + 16) as u16 }
}

/// Where the glyph head stands when a (non-newline) character is about to be
/// drawn: past the right margin it wraps to a new line first.
pub open spec fn typed_head(t: Typer) -> ArrayCoord {
    if t.head.x >= 184 {
        newline_head(t)
    } else {
        t.head
    }
}

/// The glyph head after a backspace: one glyph back, or — at or before the
/// starting column — up one row (never above the start) and to the right
/// margin's last glyph column.
pub open spec fn backspace_head(t: Typer) -> ArrayCoord {
    if t.head.x <= t.current_start.x {
        let y = if t.head.y >= 16 && t.head.y > t.current_start.y {
            (t.head.y - 16) as u16
        } else {
            t.head.y
        };
        ArrayCoord { x: (176 + t.current_start.x % 16) as u16, y }
    } else {
        ArrayCoord { x: (t.head.x - 16) as u16, y: t.head.y }
    }
}

/// The typing cursor over the canvas.
pub struct Typer {
    pub typemode: bool,
    pub started: bool,
    pub current_start: ArrayCoord,
    pub head: ArrayCoord,
    pub gwidth: u16,
    pub gheight: u16,
}

impl Typer {
    /// The glyph dimensions never change.
    pub open spec fn wf(&self) -> bool {
        &&& self.gwidth == GLYPH_SIZE
        &&& self.gheight == GLYPH_SIZE
    }

    pub fn new() -> (r: Typer)
        ensures
            r.wf(),
            !r.typemode,
            !r.started,
            r.current_start == (ArrayCoord { x: 0u16, y: 0u16 }),
            r.head == (ArrayCoord { x: 0u16, y: 0u16 }),
    {
        Typer {
            typemode: false,
            started: false,
            current_start: ArrayCoord::new(0, 0),
            head: ArrayCoord::new(0, 0),
            gwidth: 16,
            gheight: 16,
        }
    }

    /// Puts both the head and the line start at the given position and
    /// starts typing there.
    pub fn place_head_and_start(&mut self, x: u16, y: u16)
        ensures
            final(self).head == (ArrayCoord { x, y }),
            final(self).current_start == (ArrayCoord { x, y }),
            final(self).started,
            final(self).typemode == old(self).typemode,
            final(self).gwidth == old(self).gwidth,
            final(self).gheight == old(self).gheight,
    {
        self.head.set(x, y);
        self.current_start.set(x, y);
        self.started = true;
    }

    fn newline(&mut self)
        requires
            old(self).wf(),
            old(self).head.y + 16 <= u16::MAX,
        ensures
            final(self).head == newline_head(*old(self)),
            final(self).typemode == old(self).typemode,
            final(self).started == old(self).started,
            final(self).current_start == old(self).current_start,
            final(self).gwidth == old(self).gwidth,
            final(self).gheight == old(self).gheight,
    {
        self.head.y = self.head.y + self.gheight;
        self.head.x = self.current_start.x;
    }

    /// The 256 atlas pixels of this character's glyph, row by row.
    pub fn letter_buffer(&self, charcode: u8, guitex: &Vec<u8>) -> (r: Vec<u8>)
        requires
            guitex@.len() == ATLAS_AREA,
        ensures
            r@ == glyph_cells(guitex@, charcode),
    {
        let x0: usize = 34 * ((charcode % 16) as usize) + 1;
        let y0: usize = 34 * ((charcode / 16) as usize) + 1;
        let mut out: Vec<u8> = Vec::new();
        let mut i: usize = 0;
        while i < 16
            invariant
                i <= 16,
                guitex@.len() == ATLAS_AREA,
                x0 == glyph_origin_x(charcode),
                y0 == glyph_origin_y(charcode),
                out@.len() == i * 16,
                forall|t: int|
                    0 <= t < i * 16 ==> out@[t] == guitex@[(y0 + t / 16) * 544 + x0 + t % 16],
            decreases 16 - i,
        {
            let row_start: usize = (y0 + i) * 544 + x0;
            let mut k: usize = 0;
            while k < 16
                invariant
                    i < 16,
                    k <= 16,
                    guitex@.len() == ATLAS_AREA,
                    x0 == glyph_origin_x(charcode),
                    y0 == glyph_origin_y(charcode),
                    x0 <= 511 && y0 <= 511,
                    row_start == (y0 + i) * 544 + x0,
                    out@.len() == i * 16 + k,
                    forall|t: int|
                        0 <= t < i * 16 + k ==> out@[t] == guitex@[(y0 + t / 16) * 544 + x0 + t
                            % 16],
                decreases 16 - k,
            {
                out.push(guitex[row_start + k]);
                proof {
                    vstd::arithmetic::div_mod::lemma_fundamental_div_mod_converse(
                        i as int * 16 + k as int,
                        16,
                        i as int,
                        k as int,
                    );
                }
                k = k + 1;
            }
            i = i + 1;
        }
        proof {
            assert(out@ =~= glyph_cells(guitex@, charcode));
        }
        out
    }

    /// Copies one glyph's cells onto the canvas, rows downward from `start`,
    /// clamping every write into the canvas.
    fn write_block(canvas: &mut Vec<u8>, start: u16, cells: &Vec<u8>)
        requires
            old(canvas)@.len() == CANVAS_AREA,
            start <= 39999,
            cells@.len() == 256,
        ensures
            final(canvas)@ == written(old(canvas)@, start as int, cells@, 256),
            final(canvas)@.len() == CANVAS_AREA,
    {
        let mut i: usize = 0;
        while i < 16
            invariant
                i <= 16,
                start <= 39999,
                cells@.len() == 256,
                canvas@ == written(old(canvas)@, start as int, cells@, i as int * 16),
                canvas@.len() == CANVAS_AREA,
            decreases 16 - i,
        {
            let row_start: usize = start as usize + i * 200;
            let mut k: usize = 0;
            while k < 16
                invariant
                    i < 16,
                    k <= 16,
                    start <= 39999,
                    cells@.len() == 256,
                    row_start == start as int + i * 200,
                    canvas@ == written(old(canvas)@, start as int, cells@, i as int * 16
                        + k as int),
                    canvas@.len() == CANVAS_AREA,
                decreases 16 - k,
            {
                let idx0: usize = row_start + k;
                let idx: usize = if idx0 > 39999 {
                    39999
                } else {
                    idx0
                };
                let cell = cells[i * 16 + k];
                canvas[idx] = cell;
                proof {
                    vstd::arithmetic::div_mod::lemma_fundamental_div_mod_converse(
                        i as int * 16 + k as int,
                        16,
                        i as int,
                        k as int,
                    );
                    assert(canvas@ == written(
                        old(canvas)@,
                        start as int,
                        cells@,
                        i as int * 16 + k as int + 1,
                    ));
                }
                k = k + 1;
            }
            i = i + 1;
        }
    }

    /// Types one character. A newline (code 10) moves the head down one
    /// glyph row and back to the starting column. Any other character wraps
    /// first if the head is past the right margin, then copies its glyph
    /// onto the canvas and steps the head one glyph to the right.
    pub fn type_letter(&mut self, canvas: &mut Vec<u8>, charcode: u8, guitex: &Vec<u8>)
        requires
            old(self).wf(),
            old(canvas)@.len() == CANVAS_AREA,
            guitex@.len() == ATLAS_AREA,
            charcode == 10 ==> old(self).head.y + 16 <= u16::MAX,
            charcode != 10 ==> {
                let th = typed_head(*old(self));
                &&& (old(self).head.x >= 184 ==> old(self).head.y + 16 <= u16::MAX)
                &&& th.y as int * 200 + th.x as int <= u16::MAX as int
                &&& th.x + 16 <= u16::MAX
            },
        ensures
            final(self).wf(),
            final(self).typemode == old(self).typemode,
            final(self).started == old(self).started,
            final(self).current_start == old(self).current_start,
            final(canvas)@.len() == CANVAS_AREA,
            charcode == 10 ==> {
                &&& final(self).head == newline_head(*old(self))
                &&& final(canvas)@ == old(canvas)@
            },
            charcode != 10 ==> {
                let th = typed_head(*old(self));
                &&& final(self).head == (ArrayCoord { x: (th.x + 16) as u16, y: th.y })
                &&& final(canvas)@ == written(
                    old(canvas)@,
                    coord_index(th),
                    glyph_cells(guitex@, charcode),
                    256,
                )
            },
    {
        if charcode == 10 {
            self.newline();
        } else {
            if self.head.x >= CANVAS_WIDTH - self.gwidth {
                self.newline();
            }
            let letter = self.letter_buffer(charcode, guitex);
            let start = self.head.to_index();
            Self::write_block(canvas, start, &letter);
            self.head.x = self.head.x + self.gwidth;
        }
    }

    /// Steps the head one glyph back (wrapping up a row at the line start)
    /// and blanks the glyph cell there to the canvas grey.
    pub fn backspace(&mut self, canvas: &mut Vec<u8>)
        requires
            old(self).wf(),
            old(canvas)@.len() == CANVAS_AREA,
            old(self).head.x > old(self).current_start.x ==> old(self).head.x >= 16,
            ({
                let bh = backspace_head(*old(self));
                bh.y as int * 200 + bh.x as int <= u16::MAX as int
            }),
        ensures
            final(self).wf(),
            final(self).typemode == old(self).typemode,
            final(self).started == old(self).started,
            final(self).current_start == old(self).current_start,
            final(self).head == backspace_head(*old(self)),
            final(canvas)@.len() == CANVAS_AREA,
            final(canvas)@ == written(
                old(canvas)@,
                coord_index(backspace_head(*old(self))),
                Seq::new(256, |t: int| 127u8),
                256,
            ),
    {
        if self.head.x <= self.current_start.x {
            if self.head.y >= self.gheight && self.head.y > self.current_start.y {
                self.head.y = self.head.y - self.gheight;
            }
            let remainder = self.current_start.x % self.gwidth;
            self.head.x = CANVAS_WIDTH - ((self.gwidth + self.gwidth / 2) - remainder);
        } else {
            self.head.x = self.head.x - self.gwidth;
        }
        let start = self.head.to_index();
        let mut blank: Vec<u8> = Vec::new();
        while blank.len() < 256
            invariant
                blank@.len() <= 256,
                blank@ == Seq::new(blank@.len(), |t: int| 127u8),
            decreases 256 - blank@.len(),
        {
            blank.push(127);
            proof {
                assert(blank@ =~= Seq::new(blank@.len(), |t: int| 127u8));
            }
        }
        Self::write_block(canvas, start, &blank);
    }
}

} // verus!
