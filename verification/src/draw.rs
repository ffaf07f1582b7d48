//! Draw instructions and the plain draw buffer that records them.

use vstd::prelude::*;

use crate::color::Color;

verus! {

/// One drawing step over a material's background: a single pixel, a
/// rectangle, or a square (a rectangle whose sides are equal).
#[derive(Debug, Clone, Copy, PartialEq, Eq, Structural)]
pub enum DrawInstruction {
    Pixel { x: i16, y: i16, color: Color },
    Rectangle { x: i16, y: i16, w: i16, h: i16, color: Color },
    Square { x: i16, y: i16, l: i16, color: Color },
}

impl DrawInstruction {
    /// The numeric discriminant used in the prepared buffer.
    pub open spec fn spec_identifier(self) -> i32 {
        match self {
            DrawInstruction::Pixel { .. } => 1,
            DrawInstruction::Rectangle { .. } => 2,
            DrawInstruction::Square { .. } => 3,
        }
    }

    pub open spec fn spec_x(self) -> i16 {
        match self {
            DrawInstruction::Pixel { x, .. } => x,
            DrawInstruction::Rectangle { x, .. } => x,
            DrawInstruction::Square { x, .. } => x,
        }
    }

    pub open spec fn spec_y(self) -> i16 {
        match self {
            DrawInstruction::Pixel { y, .. } => y,
            DrawInstruction::Rectangle { y, .. } => y,
            DrawInstruction::Square { y, .. } => y,
        }
    }

    pub open spec fn spec_width(self) -> Option<i16> {
        match self {
            DrawInstruction::Pixel { .. } => None,
            DrawInstruction::Rectangle { w, .. } => Some(w),
            DrawInstruction::Square { l, .. } => Some(l),
        }
    }

    pub open spec fn spec_height(self) -> Option<i16> {
        match self {
            DrawInstruction::Pixel { .. } => None,
            DrawInstruction::Rectangle { h, .. } => Some(h),
            DrawInstruction::Square { l, .. } => Some(l),
        }
    }

    pub open spec fn spec_color(self) -> Color {
        match self {
            DrawInstruction::Pixel { color, .. } => color,
            DrawInstruction::Rectangle { color, .. } => color,
            DrawInstruction::Square { color, .. } => color,
        }
    }

    /// The twelve integers an instruction contributes to a prepared buffer:
    /// its discriminant, three padding words, position, extent (zero where
    /// absent), and the color channels with an opacity word.
    pub open spec fn spec_int_set(self) -> Seq<i32> {
        let c = self.spec_color();
        seq![
            self.spec_identifier(),
            0i32,
            0i32,
            0i32,
            self.spec_x() as i32,
            self.spec_y() as i32,
            match self.spec_width() {
                Some(w) => w as i32,
                None => 0i32,
            },
            match self.spec_height() {
                Some(h) => h as i32,
                None => 0i32,
            },
            c.r as i32,
            c.g as i32,
            c.b as i32,
            if c.is_transparent {
                0i32
            } else {
                1i32
            },
        ]
    }

    pub fn identifier(&self) -> (r: i32)
        ensures
            r == self.spec_identifier(),
    {
        match *self {
            DrawInstruction::Pixel { .. } => 1,
            DrawInstruction::Rectangle { .. } => 2,
            DrawInstruction::Square { .. } => 3,
        }
    }

    pub fn x(&self) -> (r: i16)
        ensures
            r == self.spec_x(),
    {
        match *self {
            DrawInstruction::Pixel { x, .. } => x,
            DrawInstruction::Rectangle { x, .. } => x,
            DrawInstruction::Square { x, .. } => x,
        }
    }

    pub fn y(&self) -> (r: i16)
        ensures
            r == self.spec_y(),
    {
        match *self {
            DrawInstruction::Pixel { y, .. } => y,
            DrawInstruction::Rectangle { y, .. } => y,
            DrawInstruction::Square { y, .. } => y,
        }
    }

    pub fn width(&self) -> (r: Option<i16>)
        ensures
            r == self.spec_width(),
    {
        match *self {
            DrawInstruction::Pixel { .. } => None,
            DrawInstruction::Rectangle { w, .. } => Some(w),
            DrawInstruction::Square { l, .. } => Some(l),
        }
    }

    pub fn height(&self) -> (r: Option<i16>)
        ensures
            r == self.spec_height(),
    {
        match *self {
            DrawInstruction::Pixel { .. } => None,
            DrawInstruction::Rectangle { h, .. } => Some(h),
            DrawInstruction::Square { l, .. } => Some(l),
        }
    }

    pub fn color(&self) -> (r: Color)
        ensures
            r == self.spec_color(),
    {
        match *self {
            DrawInstruction::Pixel { color, .. } => color,
            DrawInstruction::Rectangle { color, .. } => color,
            DrawInstruction::Square { color, .. } => color,
        }
    }

    /// The instruction as its twelve buffer integers.
    pub fn as_int_set(&self) -> (r: [i32; 12])
        ensures
            r@ == self.spec_int_set(),
    {
        let color = self.color();
        let r = [
            self.identifier(),
            0,
            0,
            0,
            self.x() as i32,
            self.y() as i32,
            match self.width() {
                Some(w) => w as i32,
                None => 0,
            },
            match self.height() {
                Some(h) => h as i32,
                None => 0,
            },
            color.r as i32,
            color.g as i32,
            color.b as i32,
            if color.is_transparent {
                0
            } else {
                1
            },
        ];
        proof {
            assert(r@ =~= self.spec_int_set());
        }
        r
    }
}

/// Whether an instruction paints the pixel at column `i`, row `j`.
pub open spec fn spec_covers(d: DrawInstruction, i: int, j: int) -> bool {
    match d {
        DrawInstruction::Pixel { x, y, .. } => i == x && j == y,
        DrawInstruction::Rectangle { x, y, w, h, .. } => x <= i < x + w && y <= j < y + h,
        DrawInstruction::Square { x, y, l, .. } => x <= i < x + l && y <= j < y + l,
    }
}

/// The color of the pixel at `(i, j)`: the most recent instruction that
/// covers it, or the background where none does.
pub open spec fn spec_pixel_color(
    instrs: Seq<DrawInstruction>,
    bg: Color,
    i: int,
    j: int,
) -> Color
    decreases instrs,
{
    if instrs.len() == 0 {
        bg
    } else if spec_covers(instrs.last(), i, j) {
        instrs.last().spec_color()
    } else {
        spec_pixel_color(instrs.drop_last(), bg, i, j)
    }
}

/// The executable form of `spec_covers`.
fn covers(d: &DrawInstruction, i: i64, j: i64) -> (r: bool)
    ensures
        r == spec_covers(*d, i as int, j as int),
{
    match *d {
        DrawInstruction::Pixel { x, y, .. } => i == x as i64 && j == y as i64,
        DrawInstruction::Rectangle { x, y, w, h, .. } => x as i64 <= i && i < x as i64 + w as i64
            && y as i64 <= j && j < y as i64 + h as i64,
        DrawInstruction::Square { x, y, l, .. } => x as i64 <= i && i < x as i64 + l as i64
            && y as i64 <= j && j < y as i64 + l as i64,
    }
}

/// Scans the instructions, most recent first, for one covering `(i, j)`.
fn pixel_color_at(instrs: &Vec<DrawInstruction>, bg: Color, i: i64, j: i64) -> (c: Color)
    ensures
        c == spec_pixel_color(instrs@, bg, i as int, j as int),
{
    let mut k = instrs.len();
    proof {
        assert(instrs@.subrange(0, k as int) =~= instrs@);
    }
    while k > 0
        invariant
            k <= instrs@.len(),
            spec_pixel_color(instrs@, bg, i as int, j as int) == spec_pixel_color(
                instrs@.subrange(0, k as int),
                bg,
                i as int,
                j as int,
            ),
        decreases k,
    {
        let d = instrs[k - 1];
        proof {
            assert(instrs@.subrange(0, k as int).last() == instrs@[k - 1]);
            assert(instrs@.subrange(0, k as int).drop_last() =~= instrs@.subrange(0, k - 1));
        }
        if covers(&d, i, j) {
            return d.color();
        }
        k = k - 1;
    }
    proof {
        assert(instrs@.subrange(0, 0) =~= Seq::<DrawInstruction>::empty());
    }
    bg
}

/// A plain record of draw instructions over a background, kept apart from
/// any material.
#[derive(Debug, Clone)]
pub struct DrawBuffer {
    instructions: Vec<DrawInstruction>,
    background_color: Color,
    width: u32,
    height: u32,
}

impl DrawBuffer {
    pub fn new(width: u32, height: u32, background_color: Color) -> (b: DrawBuffer)
        ensures
            b.spec_instructions() == Seq::<DrawInstruction>::empty(),
            b.spec_width() == width,
            b.spec_height() == height,
            b.spec_background_color() == background_color,
    {
        DrawBuffer { instructions: Vec::new(), width, height, background_color }
    }

    pub closed spec fn spec_width(&self) -> u32 {
        self.width
    }

    pub closed spec fn spec_height(&self) -> u32 {
        self.height
    }

    pub closed spec fn spec_background_color(&self) -> Color {
        self.background_color
    }

    pub closed spec fn spec_instructions(&self) -> Seq<DrawInstruction> {
        self.instructions@
    }

    pub fn width(&self) -> (r: u32)
        ensures
            r == self.spec_width(),
    {
        self.width
    }

    pub fn height(&self) -> (r: u32)
        ensures
            r == self.spec_height(),
    {
        self.height
    }

    pub fn background_color(&self) -> (r: Color)
        ensures
            r == self.spec_background_color(),
    {
        self.background_color
    }

    pub fn instructions(&self) -> (r: &Vec<DrawInstruction>)
        ensures
            r@ == self.spec_instructions(),
    {
        &self.instructions
    }

    /// The pixel grid this buffer draws, row by row: each pixel takes the
    /// color of the most recent instruction covering it, over the
    /// background. Converting the grid to the renderer's channel format is
    /// the caller's business.
    #[verifier::loop_isolation(false)]
    pub fn rasterize(&self) -> (grid: Vec<Vec<Color>>)
        ensures
            grid@.len() == self.spec_height(),
            forall|j: int| 0 <= j < grid@.len() ==> (#[trigger] grid@[j])@.len() == self.spec_width(),
            forall|j: int, i: int|
                0 <= j < grid@.len() && 0 <= i < self.spec_width() ==> #[trigger] grid@[j]@[i]
                    == spec_pixel_color(
                    self.spec_instructions(),
                    self.spec_background_color(),
                    i,
                    j,
                ),
    {
        let h = self.height;
        let w = self.width;
        let mut grid: Vec<Vec<Color>> = Vec::new();
        let mut j: u32 = 0;
        while j < h
            invariant
                j <= h,
                grid@.len() == j,
                forall|r: int| 0 <= r < j ==> (#[trigger] grid@[r])@.len() == w,
                forall|r: int, i: int|
                    0 <= r < j && 0 <= i < w ==> #[trigger] grid@[r]@[i] == spec_pixel_color(
                        self.instructions@,
                        self.background_color,
                        i,
                        r,
                    ),
            decreases h - j,
        {
            let mut row: Vec<Color> = Vec::new();
            let mut i: u32 = 0;
            while i < w
                invariant
                    i <= w,
                    row@.len() == i,
                    forall|c: int|
                        0 <= c < i ==> #[trigger] row@[c] == spec_pixel_color(
                            self.instructions@,
                            self.background_color,
                            c,
                            j as int,
                        ),
                decreases w - i,
            {
                row.push(pixel_color_at(&self.instructions, self.background_color, i as i64, j as i64));
                i = i + 1;
            }
            grid.push(row);
            j = j + 1;
        }
        grid
    }

    pub fn draw_pixel(&mut self, x: i16, y: i16, color: Color)
        ensures
            final(self).spec_instructions() == old(self).spec_instructions().push(
                DrawInstruction::Pixel { x, y, color },
            ),
            final(self).spec_width() == old(self).spec_width(),
            final(self).spec_height() == old(self).spec_height(),
            final(self).spec_background_color() == old(self).spec_background_color(),
    {
        self.instructions.push(DrawInstruction::Pixel { x, y, color });
    }

    pub fn draw_rectangle(&mut self, x: i16, y: i16, w: i16, h: i16, color: Color)
        ensures
            final(self).spec_instructions() == old(self).spec_instructions().push(
                DrawInstruction::Rectangle { x, y, w, h, color },
            ),
            final(self).spec_width() == old(self).spec_width(),
            final(self).spec_height() == old(self).spec_height(),
            final(self).spec_background_color() == old(self).spec_background_color(),
    {
        self.instructions.push(DrawInstruction::Rectangle { x, y, w, h, color });
    }
}

} // verus!
