//! Image materials: a dependency-aware description of a texture before it is
//! built, with a lazily prepared, memoized buffer of draw-instruction data.

use vstd::prelude::*;

use crate::color::Color;
use crate::draw::DrawInstruction;
use crate::error::LitError;

verus! {

/// The mathematical model of a material.
pub struct SpecMaterial {
    pub width: i16,
    pub height: i16,
    pub bg_color: Color,
    pub draws: Seq<DrawInstruction>,
    /// The prepared buffer: absent until `prepare` has run.
    pub buffer: Option<Seq<i32>>,
}

/// The derived buffer a material prepares: the twelve buffer integers of
/// each draw instruction, most recent instruction first.
pub open spec fn spec_prepared(draws: Seq<DrawInstruction>) -> Seq<i32>
    decreases draws,
{
    if draws.len() == 0 {
        Seq::empty()
    } else {
        draws.last().spec_int_set() + spec_prepared(draws.drop_last())
    }
}

/// Prepending an instruction appends its integers to the prepared buffer.
proof fn lemma_prepared_front(s: Seq<DrawInstruction>, a: DrawInstruction)
    ensures
        spec_prepared(seq![a] + s) == spec_prepared(s) + a.spec_int_set(),
    decreases s,
{
    let t = seq![a] + s;
    if s.len() == 0 {
        reveal_with_fuel(spec_prepared, 3);
        assert(t.drop_last() =~= Seq::<DrawInstruction>::empty());
        assert(t.last() == a);
        assert(spec_prepared(t) =~= spec_prepared(s) + a.spec_int_set());
    } else {
        lemma_prepared_front(s.drop_last(), a);
        assert(t.drop_last() =~= seq![a] + s.drop_last());
        assert(t.last() == s.last());
        assert(spec_prepared(t) =~= spec_prepared(s) + a.spec_int_set());
    }
}

/// A description of an image: its dimensions, background color, and the draw
/// instructions applied over that background, plus an optional prepared
/// buffer of the instruction data, built lazily and kept once built.
#[derive(Debug, Clone)]
pub struct ImgMaterial {
    width: i16,
    height: i16,
    bg_color: Color,
    draws: Vec<DrawInstruction>,
    buffer: Option<Vec<i32>>,
}

impl View for ImgMaterial {
    type V = SpecMaterial;

    closed spec fn view(&self) -> SpecMaterial {
        SpecMaterial {
            width: self.width,
            height: self.height,
            bg_color: self.bg_color,
            draws: self.draws@,
            buffer: match self.buffer {
                Some(b) => Some(b@),
                None => None,
            },
        }
    }
}

impl ImgMaterial {
    /// An empty material: no draw instructions, nothing prepared yet.
    pub fn new(width: i16, height: i16, background_color: Color) -> (m: ImgMaterial)
        ensures
            m@ == (SpecMaterial {
                width,
                height,
                bg_color: background_color,
                draws: Seq::<DrawInstruction>::empty(),
                buffer: None,
            }),
    {
        Self::from_draws(width, height, background_color, Vec::new())
    }

    /// A material with an initial list of draw instructions.
    pub fn from_draws(width: i16, height: i16, bg_color: Color, draws: Vec<DrawInstruction>) -> (m:
        ImgMaterial)
        ensures
            m@ == (SpecMaterial { width, height, bg_color, draws: draws@, buffer: None }),
    {
        ImgMaterial { width, height, bg_color, draws, buffer: None }
    }

    pub fn width(&self) -> (w: i16)
        ensures
            w == self@.width,
    {
        self.width
    }

    pub fn height(&self) -> (h: i16)
        ensures
            h == self@.height,
    {
        self.height
    }

    pub fn background_color(&self) -> (c: Color)
        ensures
            c == self@.bg_color,
    {
        self.bg_color
    }

    pub fn draws(&self) -> (d: &Vec<DrawInstruction>)
        ensures
            d@ == self@.draws,
    {
        &self.draws
    }

    pub fn buffer(&self) -> (b: Option<&Vec<i32>>)
        ensures
            match b {
                Some(v) => self@.buffer == Some(v@),
                None => self@.buffer is None,
            },
    {
        self.buffer.as_ref()
    }

    /// Ensures the derived buffer is present: a first call builds it from
    /// the draw instructions, most recent first; once present it is never
    /// rebuilt.
    #[verifier::loop_isolation(false)]
    pub fn prepare(&mut self) -> (r: Result<(), LitError>)
        ensures
            r is Ok,
            old(self)@.buffer is Some ==> *final(self) == *old(self),
            old(self)@.buffer is None ==> final(self)@ == (SpecMaterial {
                buffer: Some(spec_prepared(old(self)@.draws)),
                ..old(self)@
            }),
    {
        if self.buffer.is_some() {
            return Ok(());
        }
        let n = self.draws.len();
        let mut buf: Vec<i32> = Vec::new();
        let mut i: usize = 0;
        proof {
            assert(self.draws@.subrange(n as int, n as int) =~= Seq::<DrawInstruction>::empty());
        }
        while i < n
            invariant
                i <= n,
                buf@ == spec_prepared(self.draws@.subrange(n - i, n as int)),
            decreases n - i,
        {
            let d = self.draws[n - 1 - i];
            let ints = d.as_int_set();
            let ghost b0 = buf@;
            let mut j: usize = 0;
            while j < 12
                invariant
                    j <= 12,
                    buf@ == b0 + ints@.subrange(0, j as int),
                decreases 12 - j,
            {
                buf.push(ints[j]);
                proof {
                    assert(buf@ =~= b0 + ints@.subrange(0, j + 1));
                }
                j = j + 1;
            }
            proof {
                assert(ints@.subrange(0, 12) =~= d.spec_int_set());
                assert(self.draws@.subrange(n - i - 1, n as int) =~= seq![d] + self.draws@.subrange(
                    n - i,
                    n as int,
                ));
                lemma_prepared_front(self.draws@.subrange(n - i, n as int), d);
            }
            i = i + 1;
        }
        proof {
            assert(self.draws@.subrange(0, n as int) =~= self.draws@);
        }
        self.buffer = Some(buf);
        Ok(())
    }

    /// Appends a pixel instruction.
    pub fn draw_pixel(&mut self, x: i16, y: i16, color: Color) -> (r: Result<(), LitError>)
        ensures
            r is Ok,
            final(self)@ == (SpecMaterial {
                draws: old(self)@.draws.push(DrawInstruction::Pixel { x, y, color }),
                ..old(self)@
            }),
    {
        self.draws.push(DrawInstruction::Pixel { x, y, color });
        Ok(())
    }

    /// Appends a rectangle instruction.
    pub fn draw_rectangle(&mut self, x: i16, y: i16, w: i16, h: i16, color: Color) -> (r: Result<
        (),
        LitError,
    >)
        ensures
            r is Ok,
            final(self)@ == (SpecMaterial {
                draws: old(self)@.draws.push(DrawInstruction::Rectangle { x, y, w, h, color }),
                ..old(self)@
            }),
    {
        self.draws.push(DrawInstruction::Rectangle { x, y, w, h, color });
        Ok(())
    }
}

} // verus!
