use vstd::prelude::*;
use crate::display::Message;
use crate::layout::{calculate_layout, last_hit, output_at, projection_of, Projection};
use crate::output::Output;
use crate::snap::{all_wf, rects_of, snap_position, snap_spec};

verus! {

/// An output being dragged: its index, where the pointer was pressed, and
/// where the output stood at that moment.
#[derive(Clone, Copy, Debug)]
pub struct Drag {
    pub index: usize,
    pub pointer: (i32, i32),
    pub origin: (i32, i32),
}

/// Pointer state of the canvas: the drag under way, if any, and the hovered
/// output, tracked independently.
#[derive(Clone, Copy, Debug)]
pub struct CanvasState {
    pub dragging: Option<Drag>,
    pub hovered: Option<usize>,
}

/// A pointer event, in surface pixels. A press outside the surface carries no point.
#[derive(Clone, Copy, Debug)]
pub enum PointerEvent {
    Pressed(Option<(i32, i32)>),
    Released,
    Moved((i32, i32)),
}

/// What the canvas hands back: a message to publish, whether the event was
/// captured, and whether the drawing must be redone.
#[derive(Debug, Clone)]
pub struct CanvasReply {
    pub message: Option<Message>,
    pub captured: bool,
    pub redraw: bool,
}

pub open spec fn quiet(r: CanvasReply) -> bool {
    r.message is None && !r.captured && !r.redraw
}

/// Nearest integer to `p / q`, halves away from zero (`q > 0`).
pub open spec fn round_div(p: int, q: int) -> int {
    if p >= 0 {
        (2 * p + q) / (2 * q)
    } else {
        -((-2 * p + q) / (2 * q))
    }
}

/// Coordinate kept within `0..=i32::MAX`.
pub open spec fn clamp_coord(v: int) -> int {
    if v < 0 {
        0
    } else if v > i32::MAX {
        i32::MAX as int
    } else {
        v
    }
}

/// Provisional coordinate of a dragged output: where it stood, plus the
/// pointer's travel divided by the canvas scale `num / den`, rounded, clamped.
pub open spec fn drag_coord(origin: int, start: int, now: int, p: Projection) -> int {
    clamp_coord(origin + round_div((now - start) * p.den, p.num as int))
}

/// One transition of the pointer state machine.
pub open spec fn canvas_step(
    s: CanvasState,
    outs: Seq<Output>,
    p: Projection,
    ev: PointerEvent,
    ns: CanvasState,
    r: CanvasReply,
) -> bool {
    let rects = rects_of(outs);
    let n = outs.len() as int;
    match ev {
        PointerEvent::Pressed(None) => ns == s && quiet(r),
        PointerEvent::Pressed(Some(pt)) => match last_hit(p, rects, pt.0 as int, pt.1 as int, n) {
            Some(i) => {
                &&& ns == CanvasState {
                    dragging: Some(Drag { index: i, pointer: pt, origin: outs[i as int].position }),
                    hovered: s.hovered,
                }
                &&& r.message == Some(Message::MonitorClicked(i))
                &&& r.captured
                &&& !r.redraw
            },
            None => ns == CanvasState { dragging: None, hovered: s.hovered } && quiet(r),
        },
        PointerEvent::Released => ns == CanvasState { dragging: None, hovered: s.hovered } && quiet(r),
        PointerEvent::Moved(pt) => match s.dragging {
            Some(d) => {
                &&& ns == s
                &&& if d.index < n && p.num > 0 {
                    let x = drag_coord(d.origin.0 as int, d.pointer.0 as int, pt.0 as int, p);
                    let y = drag_coord(d.origin.1 as int, d.pointer.1 as int, pt.1 as int, p);
                    let sn = snap_spec(rects, d.index as int, x, y);
                    &&& r.message == Some(Message::MonitorPositioned(d.index, sn.0 as i32, sn.1 as i32))
                    &&& !r.captured
                    &&& !r.redraw
                } else {
                    quiet(r)
                }
            },
            None => {
                let h = last_hit(p, rects, pt.0 as int, pt.1 as int, n);
                &&& ns == CanvasState { dragging: None, hovered: h }
                &&& r.message is None
                &&& !r.captured
                &&& r.redraw == (h != s.hovered)
            },
        },
    }
}

/// Hovering never selects: a pointer move while no drag is under way
/// publishes no message and starts no drag.
pub proof fn lemma_hover_keeps_selection(
    s: CanvasState,
    outs: Seq<Output>,
    p: Projection,
    pt: (i32, i32),
    ns: CanvasState,
    r: CanvasReply,
)
    requires
        s.dragging is None,
        canvas_step(s, outs, p, PointerEvent::Moved(pt), ns, r),
    ensures
        r.message is None,
        ns.dragging is None,
{
}

/// Selecting never hovers: a press changes the drag state only, never the
/// hovered output.
pub proof fn lemma_press_keeps_hover(
    s: CanvasState,
    outs: Seq<Output>,
    p: Projection,
    pt: Option<(i32, i32)>,
    ns: CanvasState,
    r: CanvasReply,
)
    requires
        canvas_step(s, outs, p, PointerEvent::Pressed(pt), ns, r),
    ensures
        ns.hovered == s.hovered,
{
}

/// Only a pointer move without a drag touches the hovered output: a press,
/// a release or a drag step leaves it, and asks for no redraw.
pub proof fn lemma_pointer_keeps_hover(
    s: CanvasState,
    outs: Seq<Output>,
    p: Projection,
    ev: PointerEvent,
    ns: CanvasState,
    r: CanvasReply,
)
    requires
        !(ev is Moved && s.dragging is None),
        canvas_step(s, outs, p, ev, ns, r),
    ensures
        ns.hovered == s.hovered,
        !r.redraw,
{
}

/// A drag whose computed coordinate would be negative lands on zero on that axis.
pub proof fn lemma_drag_clamps(origin: int, start: int, now: int, p: Projection)
    requires
        origin + round_div((now - start) * p.den, p.num as int) < 0,
    ensures
        drag_coord(origin, start, now, p) == 0,
{
}

impl CanvasState {
    /// No drag, nothing hovered.
    pub fn new() -> (r: Self)
        ensures
            r.dragging is None,
            r.hovered is None,
    {
        CanvasState { dragging: None, hovered: None }
    }
}

fn drag_coord_exec(origin: i32, start: i32, now: i32, p: &Projection) -> (r: i64)
    requires
        p.wf(),
        p.num > 0,
    ensures
        r == drag_coord(origin as int, start as int, now as int, *p),
        0 <= r <= i32::MAX,
{
    let d = now as i128 - start as i128;
    let num = p.num as i128;
    let den = p.den as i128;
    proof {
        assert(-(0x1_0000_0000 * 0x800_0000_0000) <= d * den <= 0x1_0000_0000 * 0x800_0000_0000) by (nonlinear_arith)
            requires
                -0x1_0000_0000 <= d <= 0x1_0000_0000,
                0 < den <= 0x800_0000_0000,
        ;
    }
    let q = d * den;
    let delta: i128 = if q >= 0 {
        ((2 * q + num) as u128 / (2 * num) as u128) as i128
    } else {
        -(((-2 * q + num) as u128 / (2 * num) as u128) as i128)
    };
    proof {
        let a = if q >= 0 { 2 * q + num } else { -2 * q + num };
        assert(0 <= a / (2 * num) <= a) by (nonlinear_arith)
            requires
                a >= 0,
                num >= 1,
        ;
    }
    let v = origin as i128 + delta;
    if v < 0 {
        0
    } else if v > i32::MAX as i128 {
        i32::MAX as i64
    } else {
        v as i64
    }
}

/// Handles one pointer event on a surface of `width` x `height` pixels.
/// A press on an output starts dragging it (the last one drawn wins where
/// they overlap) and selects it; a move during a drag proposes the snapped
/// position; a move without a drag updates the hovered output only; a
/// release ends the drag.
pub fn canvas_update(
    state: &mut CanvasState,
    outputs: &Vec<Output>,
    event: PointerEvent,
    width: u32,
    height: u32,
) -> (r: CanvasReply)
    requires
        all_wf(outputs@),
    ensures
        canvas_step(
            *old(state),
            outputs@,
            projection_of(rects_of(outputs@), width, height),
            event,
            *final(state),
            r,
        ),
{
    let p = calculate_layout(outputs, width, height);
    match event {
        PointerEvent::Pressed(None) => CanvasReply { message: None, captured: false, redraw: false },
        PointerEvent::Pressed(Some(pt)) => {
            match output_at(outputs, &p, pt.0, pt.1) {
                Some(i) => {
                    state.dragging = Some(
                        Drag { index: i, pointer: pt, origin: outputs[i].position },
                    );
                    CanvasReply {
                        message: Some(Message::MonitorClicked(i)),
                        captured: true,
                        redraw: false,
                    }
                },
                None => {
                    state.dragging = None;
                    CanvasReply { message: None, captured: false, redraw: false }
                },
            }
        },
        PointerEvent::Released => {
            state.dragging = None;
            CanvasReply { message: None, captured: false, redraw: false }
        },
        PointerEvent::Moved(pt) => {
            match state.dragging {
                Some(d) => {
                    if d.index < outputs.len() && p.num > 0 {
                        let x = drag_coord_exec(d.origin.0, d.pointer.0, pt.0, &p);
                        let y = drag_coord_exec(d.origin.1, d.pointer.1, pt.1, &p);
                        let sn = snap_position(outputs, d.index, x, y);
                        CanvasReply {
                            message: Some(Message::MonitorPositioned(d.index, sn.0, sn.1)),
                            captured: false,
                            redraw: false,
                        }
                    } else {
                        CanvasReply { message: None, captured: false, redraw: false }
                    }
                },
                None => {
                    let h = output_at(outputs, &p, pt.0, pt.1);
                    let redraw = match (h, state.hovered) {
                        (Some(a), Some(b)) => a != b,
                        (None, None) => false,
                        _ => true,
                    };
                    state.hovered = h;
                    CanvasReply { message: None, captured: false, redraw }
                },
            }
        },
    }
}

} // verus!
