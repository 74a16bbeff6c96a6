use vstd::prelude::*;

verus! {

/// Exclusive lower bound of a scale factor, in hundredths (a scale must exceed 0.10).
pub const SCALE_FLOOR: u32 = 10;

/// Rotation / flip applied to an output.
#[derive(Clone, Copy, Debug, PartialEq, Eq, Structural)]
pub enum Transform {
    Normal,
    Rotate90,
    Rotate180,
    Rotate270,
    Flipped,
    Flipped90,
    Flipped180,
    Flipped270,
}

impl Transform {
    /// A quarter turn exchanges width and height.
    pub open spec fn swaps_axes(self) -> bool {
        self is Rotate90 || self is Rotate270 || self is Flipped90 || self is Flipped270
    }

    pub fn swaps(&self) -> (r: bool)
        ensures
            r == self.swaps_axes(),
    {
        match self {
            Transform::Rotate90 | Transform::Rotate270 | Transform::Flipped90
            | Transform::Flipped270 => true,
            _ => false,
        }
    }
}

/// One resolution / refresh-rate combination; the refresh rate is kept in millihertz.
#[derive(Clone, Copy, Debug, PartialEq, Eq, Structural)]
pub struct OutputMode {
    pub width: u32,
    pub height: u32,
    pub refresh_mhz: u32,
    pub current: bool,
    pub preferred: bool,
}

/// Mode `i` is the current one and no other mode is.
pub open spec fn current_at(modes: Seq<OutputMode>, i: int) -> bool {
    &&& 0 <= i < modes.len()
    &&& modes[i].current
    &&& forall|j: int| 0 <= j < modes.len() && j != i ==> !(#[trigger] modes[j]).current
}

/// Exactly one mode is marked current.
pub open spec fn single_current(modes: Seq<OutputMode>) -> bool {
    exists|i: int| current_at(modes, i)
}

/// Index of the current mode.
pub open spec fn current_index(modes: Seq<OutputMode>) -> int {
    choose|i: int| current_at(modes, i)
}

/// Logical size of a mode: physical size divided by the scale (in hundredths),
/// truncated, then exchanged when the transform is a quarter turn.
pub open spec fn logical_dims(mode: OutputMode, scale: u32, transform: Transform) -> (int, int)
    recommends
        scale > 0,
{
    let w = mode.width as int * 100 / scale as int;
    let h = mode.height as int * 100 / scale as int;
    if transform.swaps_axes() {
        (h, w)
    } else {
        (w, h)
    }
}

/// Largest logical extent of any well-formed output.
pub const LOGICAL_LIMIT: i64 = 0x80_0000_0000;

proof fn lemma_scaled_bound(v: int, scale: int)
    requires
        0 <= v <= u32::MAX,
        scale > SCALE_FLOOR,
    ensures
        0 <= v * 100 / scale < LOGICAL_LIMIT,
{
    assert(0 <= v * 100 / scale <= v * 100) by (nonlinear_arith)
        requires
            v >= 0,
            scale >= 1,
    ;
}

pub fn logical_size(mode: &OutputMode, scale: u32, transform: Transform) -> (r: (i64, i64))
    requires
        scale > SCALE_FLOOR,
    ensures
        r.0 == logical_dims(*mode, scale, transform).0,
        r.1 == logical_dims(*mode, scale, transform).1,
        0 <= r.0 < LOGICAL_LIMIT,
        0 <= r.1 < LOGICAL_LIMIT,
{
    let w = mode.width as i64 * 100 / scale as i64;
    let h = mode.height as i64 * 100 / scale as i64;
    proof {
        lemma_scaled_bound(mode.width as int, scale as int);
        lemma_scaled_bound(mode.height as int, scale as int);
    }
    if transform.swaps() {
        (h, w)
    } else {
        (w, h)
    }
}

/// Indices, in order, of the first `n` modes whose resolution is `w` x `h`.
pub open spec fn same_resolution(modes: Seq<OutputMode>, w: u32, h: u32, n: int) -> Seq<usize>
    decreases n,
{
    if n <= 0 {
        Seq::empty()
    } else {
        let r = same_resolution(modes, w, h, n - 1);
        if modes[n - 1].width == w && modes[n - 1].height == h {
            r.push((n - 1) as usize)
        } else {
            r
        }
    }
}

/// A logical rectangle: top-left corner and extent, in logical pixels.
#[derive(Clone, Copy, Debug, PartialEq, Eq, Structural)]
pub struct Rect {
    pub x: i64,
    pub y: i64,
    pub w: i64,
    pub h: i64,
}

/// One managed display.
pub struct Output {
    pub name: String,
    pub description: String,
    pub physical_size: String,
    pub position: (i32, i32),
    /// Scale factor in hundredths (125 stands for 1.25).
    pub scale: u32,
    pub transform: Transform,
    pub enabled: bool,
    pub modes: Vec<OutputMode>,
}

impl Output {
    pub open spec fn wf(&self) -> bool {
        &&& SCALE_FLOOR < self.scale
        &&& single_current(self.modes@)
    }

    pub open spec fn current_mode_spec(&self) -> OutputMode {
        self.modes@[current_index(self.modes@)]
    }

    pub open spec fn logical_spec(&self) -> (int, int) {
        logical_dims(self.current_mode_spec(), self.scale, self.transform)
    }

    pub open spec fn rect_spec(&self) -> Rect {
        Rect {
            x: self.position.0 as i64,
            y: self.position.1 as i64,
            w: self.logical_spec().0 as i64,
            h: self.logical_spec().1 as i64,
        }
    }

    /// Whether the scale is in range and exactly one mode is current.
    pub fn is_well_formed(&self) -> (r: bool)
        ensures
            r == self.wf(),
    {
        if self.scale <= SCALE_FLOOR {
            return false;
        }
        let mut found: Option<usize> = None;
        let mut i: usize = 0;
        while i < self.modes.len()
            invariant
                0 <= i <= self.modes.len(),
                found is None ==> forall|j: int| 0 <= j < i ==> !(#[trigger] self.modes@[j]).current,
                found matches Some(k) ==> k < i && self.modes@[k as int].current && forall|j: int|
                    0 <= j < i && j != k ==> !(#[trigger] self.modes@[j]).current,
            decreases self.modes.len() - i,
        {
            if self.modes[i].current {
                if let Some(k) = found {
                    proof {
                        assert forall|c: int| !current_at(self.modes@, c) by {
                            if current_at(self.modes@, c) {
                                assert(c == k as int || c == i as int);
                            }
                        }
                    }
                    return false;
                }
                found = Some(i);
            }
            i = i + 1;
        }
        match found {
            Some(k) => {
                assert(current_at(self.modes@, k as int));
                true
            },
            None => {
                assert forall|c: int| !current_at(self.modes@, c) by {
                    if 0 <= c < self.modes@.len() {
                        assert(!self.modes@[c].current);
                    }
                }
                false
            },
        }
    }

    /// The mode marked current; the invariant guarantees there is exactly one.
    pub fn current_mode(&self) -> (m: OutputMode)
        requires
            self.wf(),
        ensures
            m == self.current_mode_spec(),
    {
        let ghost k = current_index(self.modes@);
        let mut i: usize = 0;
        while i < self.modes.len()
            invariant
                current_at(self.modes@, k),
                0 <= i <= k,
            decreases self.modes.len() - i,
        {
            if self.modes[i].current {
                proof {
                    assert(i as int == k);
                }
                return self.modes[i];
            }
            i = i + 1;
        }
        self.modes[i]
    }

    /// The refresh-rate choices: indices of the modes that share the current
    /// mode's resolution, in order.
    pub fn refresh_choices(&self) -> (r: Vec<usize>)
        requires
            self.wf(),
        ensures
            r@ == same_resolution(
                self.modes@,
                self.current_mode_spec().width,
                self.current_mode_spec().height,
                self.modes@.len() as int,
            ),
    {
        let cur = self.current_mode();
        let mut r: Vec<usize> = Vec::new();
        let mut i: usize = 0;
        while i < self.modes.len()
            invariant
                0 <= i <= self.modes.len(),
                cur == self.current_mode_spec(),
                r@ == same_resolution(self.modes@, cur.width, cur.height, i as int),
            decreases self.modes.len() - i,
        {
            if self.modes[i].width == cur.width && self.modes[i].height == cur.height {
                r.push(i);
            }
            i = i + 1;
        }
        r
    }

    /// Logical width and height of the output in its current mode.
    pub fn logical_size(&self) -> (r: (i64, i64))
        requires
            self.wf(),
        ensures
            r.0 == self.logical_spec().0,
            r.1 == self.logical_spec().1,
            0 <= r.0 < LOGICAL_LIMIT,
            0 <= r.1 < LOGICAL_LIMIT,
    {
        let m = self.current_mode();
        logical_size(&m, self.scale, self.transform)
    }

    /// Logical rectangle the output covers.
    pub fn rect(&self) -> (r: Rect)
        requires
            self.wf(),
        ensures
            r == self.rect_spec(),
            0 <= r.w < LOGICAL_LIMIT,
            0 <= r.h < LOGICAL_LIMIT,
    {
        let (w, h) = self.logical_size();
        Rect { x: self.position.0 as i64, y: self.position.1 as i64, w, h }
    }
}

} // verus!
