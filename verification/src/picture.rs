//! Declarative raster drawings: a list of primitive commands.

use vstd::prelude::*;

verus! {

/// Primitive raster drawing commands.
#[derive(Debug, Clone, Copy, Hash, PartialEq, Eq, Structural)]
pub enum PictureCmd {
    /// Sets the draw colour: red, green, blue, alpha.
    SetColor(u8, u8, u8, u8),
    /// Fills a rectangle: x, y, width, height.
    FillRect(u32, u32, u32, u32),
}

impl PictureCmd {
    /// How far to the right the command paints: `x + width` for a rectangle,
    /// nothing for the others.
    pub open spec fn reach_x(self) -> int {
        match self {
            PictureCmd::FillRect(x, _, w, _) => x + w,
            _ => 0,
        }
    }

    /// How far down the command paints: `y + height` for a rectangle.
    pub open spec fn reach_y(self) -> int {
        match self {
            PictureCmd::FillRect(_, y, _, h) => y + h,
            _ => 0,
        }
    }
}

/// A declarative way of drawing: a list of picture commands, run in order.
#[derive(Debug, Clone, Hash, PartialEq, Eq)]
pub struct Picture(pub Vec<PictureCmd>);

impl View for Picture {
    type V = Seq<PictureCmd>;

    open spec fn view(&self) -> Seq<PictureCmd> {
        self.0@
    }
}

/// `m` is the largest horizontal reach among the commands, or zero when
/// nothing is painted.
pub open spec fn is_widest(cmds: Seq<PictureCmd>, m: int) -> bool {
    &&& forall|i: int| 0 <= i < cmds.len() ==> (#[trigger] cmds[i]).reach_x() <= m
    &&& m == 0 || exists|i: int| 0 <= i < cmds.len() && (#[trigger] cmds[i]).reach_x() == m
}

/// `m` is the largest vertical reach among the commands, or zero.
pub open spec fn is_tallest(cmds: Seq<PictureCmd>, m: int) -> bool {
    &&& forall|i: int| 0 <= i < cmds.len() ==> (#[trigger] cmds[i]).reach_y() <= m
    &&& m == 0 || exists|i: int| 0 <= i < cmds.len() && (#[trigger] cmds[i]).reach_y() == m
}

/// The largest horizontal reach among the commands.
pub open spec fn widest(cmds: Seq<PictureCmd>) -> int {
    choose|m: int| is_widest(cmds, m)
}

/// The largest vertical reach among the commands.
pub open spec fn tallest(cmds: Seq<PictureCmd>) -> int {
    choose|m: int| is_tallest(cmds, m)
}

/// There is one largest horizontal reach.
pub proof fn lemma_widest(cmds: Seq<PictureCmd>, m: int)
    requires
        is_widest(cmds, m),
    ensures
        widest(cmds) == m,
{
    let w = widest(cmds);
    assert(is_widest(cmds, w));
    if w != 0 {
        let i = choose|i: int| 0 <= i < cmds.len() && (#[trigger] cmds[i]).reach_x() == w;
        assert(cmds[i].reach_x() <= m);
    }
    if m != 0 {
        let i = choose|i: int| 0 <= i < cmds.len() && (#[trigger] cmds[i]).reach_x() == m;
        assert(cmds[i].reach_x() <= w);
    }
    if w == 0 && m != 0 {
        assert(false);
    }
    assert forall|i: int| 0 <= i < cmds.len() implies (#[trigger] cmds[i]).reach_x() >= 0 by {}
}

/// There is one largest vertical reach.
pub proof fn lemma_tallest(cmds: Seq<PictureCmd>, m: int)
    requires
        is_tallest(cmds, m),
    ensures
        tallest(cmds) == m,
{
    let w = tallest(cmds);
    assert(is_tallest(cmds, w));
    if w != 0 {
        let i = choose|i: int| 0 <= i < cmds.len() && (#[trigger] cmds[i]).reach_y() == w;
        assert(cmds[i].reach_y() <= m);
    }
    if m != 0 {
        let i = choose|i: int| 0 <= i < cmds.len() && (#[trigger] cmds[i]).reach_y() == m;
        assert(cmds[i].reach_y() <= w);
    }
    assert forall|i: int| 0 <= i < cmds.len() implies (#[trigger] cmds[i]).reach_y() >= 0 by {}
}

impl Picture {
    /// Every rectangle ends within the 32-bit coordinate range.
    pub open spec fn bounded(&self) -> bool {
        forall|i: int|
            0 <= i < self@.len() ==> {
                &&& (#[trigger] self@[i]).reach_x() <= u32::MAX
                &&& self@[i].reach_y() <= u32::MAX
            }
    }

    pub fn new() -> (p: Picture)
        ensures
            p@ == Seq::<PictureCmd>::empty(),
    {
        Picture(Vec::new())
    }

    /// The footprint of the drawing: the width and height of the smallest
    /// rectangle anchored at the origin that holds every filled rectangle.
    pub fn size(&self) -> (r: (u32, u32))
        requires
            self.bounded(),
        ensures
            is_widest(self@, r.0 as int),
            is_tallest(self@, r.1 as int),
            r.0 == widest(self@),
            r.1 == tallest(self@),
    {
        let mut max_w: u32 = 0;
        let mut max_h: u32 = 0;
        let mut i: usize = 0;
        while i < self.0.len()
            invariant
                0 <= i <= self.0.len(),
                self.bounded(),
                is_widest(self@.take(i as int), max_w as int),
                is_tallest(self@.take(i as int), max_h as int),
            decreases self.0.len() - i,
        {
            let ghost before = self@.take(i as int);
            let ghost after = self@.take(i + 1);
            let ghost old_w = max_w;
            let ghost old_h = max_h;
            let cmd = self.0[i];
            assert(cmd == self@[i as int]);
            match cmd {
                PictureCmd::FillRect(x, y, w, h) => {
                    if x + w > max_w {
                        max_w = x + w;
                    }
                    if y + h > max_h {
                        max_h = y + h;
                    }
                },
                _ => {},
            }
            proof {
                assert(after[i as int] == cmd);
                assert forall|j: int| 0 <= j < i implies after[j] == before[j] by {}
                if old_w != 0 && max_w == old_w {
                    let k = choose|k: int| 0 <= k < before.len() && (#[trigger] before[k]).reach_x() == old_w;
                    assert(after[k].reach_x() == max_w);
                }
                if old_h != 0 && max_h == old_h {
                    let k = choose|k: int| 0 <= k < before.len() && (#[trigger] before[k]).reach_y() == old_h;
                    assert(after[k].reach_y() == max_h);
                }
                assert(is_widest(after, max_w as int));
                assert(is_tallest(after, max_h as int));
            }
            i += 1;
        }
        assert(self@.take(i as int) == self@);
        proof {
            lemma_widest(self@, max_w as int);
            lemma_tallest(self@, max_h as int);
        }
        (max_w, max_h)
    }

    /// Whether every rectangle ends within the 32-bit coordinate range.
    pub fn is_bounded(&self) -> (b: bool)
        ensures
            b == self.bounded(),
    {
        let mut i: usize = 0;
        while i < self.0.len()
            invariant
                0 <= i <= self.0.len(),
                forall|j: int|
                    0 <= j < i ==> (#[trigger] self@[j]).reach_x() <= u32::MAX
                        && self@[j].reach_y() <= u32::MAX,
            decreases self.0.len() - i,
        {
            match self.0[i] {
                PictureCmd::FillRect(x, y, w, h) => {
                    if x as u64 + w as u64 > u32::MAX as u64 || y as u64 + h as u64
                        > u32::MAX as u64 {
                        assert(self@[i as int].reach_x() > u32::MAX || self@[i as int].reach_y()
                            > u32::MAX);
                        return false;
                    }
                },
                _ => {},
            }
            i += 1;
        }
        true
    }

    /// The footprint of the drawing, or `None` where a rectangle ends beyond
    /// the 32-bit coordinate range.
    pub fn checked_size(&self) -> (r: Option<(u32, u32)>)
        ensures
            r is Some <==> self.bounded(),
            r matches Some(size) ==> size.0 == widest(self@) && size.1 == tallest(self@),
    {
        if self.is_bounded() {
            Some(self.size())
        } else {
            None
        }
    }

    /// Appends a colour change.
    pub fn set_color(self, r: u8, g: u8, b: u8, a: u8) -> (p: Picture)
        ensures
            p@ == self@.push(PictureCmd::SetColor(r, g, b, a)),
    {
        let mut s = self;
        s.0.push(PictureCmd::SetColor(r, g, b, a));
        s
    }

    /// Appends a filled rectangle.
    pub fn fill_rect(self, x: u32, y: u32, w: u32, h: u32) -> (p: Picture)
        ensures
            p@ == self@.push(PictureCmd::FillRect(x, y, w, h)),
    {
        let mut s = self;
        s.0.push(PictureCmd::FillRect(x, y, w, h));
        s
    }
}

} // verus!
