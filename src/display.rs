use vstd::prelude::*;
use crate::normalize::{
    min_of, normalize_outputs, normalized, normalized_positions_of, positions_of,
    same_but_position, xs_of, ys_of,
};
use crate::output::{current_at, Output, OutputMode, Transform, SCALE_FLOOR};
use crate::snap::all_wf;
use crate::text::{parse_i32, parse_scale, i32_text_value, scale_text_value};

verus! {

/// Step of the scale buttons, in hundredths.
pub const SCALE_STEP: u32 = 5;

/// A user command on the arrangement.
#[derive(Debug, Clone)]
pub enum Message {
    MonitorClicked(usize),
    MonitorPositioned(usize, i32, i32),
    XChanged(String),
    YChanged(String),
    XInc,
    XDec,
    YInc,
    YDec,
    ScaleChanged(String),
    ScaleInc,
    ScaleDec,
    EnabledToggled(bool),
    ResolutionSelected(usize),
    TransformSelected(Transform),
    ApplyClicked,
    SaveClicked,
}

/// Work left to the caller after a message: push `normalized_positions` to
/// the display server, or write them to the configuration file, then report
/// the outcome to `finish_write`.
#[derive(Clone, Copy, Debug, PartialEq, Eq, Structural)]
pub enum Effect {
    Nothing,
    Apply,
    Save,
}

pub open spec fn effect_of(msg: Message) -> Effect {
    match msg {
        Message::ApplyClicked => Effect::Apply,
        Message::SaveClicked => Effect::Save,
        _ => Effect::Nothing,
    }
}

pub open spec fn with_position(o: Output, p: (i32, i32)) -> Output {
    Output { position: p, ..o }
}

/// Two outputs agree on everything but their modes.
pub open spec fn same_but_modes(a: Output, b: Output) -> bool {
    a == Output { modes: a.modes, ..b }
}

/// The same modes with only mode `k` marked current.
pub open spec fn mark_current(modes: Seq<OutputMode>, k: int) -> Seq<OutputMode> {
    Seq::new(modes.len(), |j: int| OutputMode { current: j == k, ..modes[j] })
}

/// The arrangement being edited: outputs, the selected one, and whether the
/// drawing of the canvas has gone stale.
pub struct MangoDisplay {
    outputs: Vec<Output>,
    selected_output_idx: Option<usize>,
    layout_stale: bool,
}

impl MangoDisplay {
    pub closed spec fn outputs_view(&self) -> Seq<Output> {
        self.outputs@
    }

    pub closed spec fn selected_view(&self) -> Option<usize> {
        self.selected_output_idx
    }

    pub closed spec fn stale_view(&self) -> bool {
        self.layout_stale
    }

    /// Every output is well formed and the selection, if any, names one of them.
    pub open spec fn wf(&self) -> bool {
        &&& all_wf(self.outputs_view())
        &&& (self.selected_view() matches Some(i) ==> i < self.outputs_view().len())
    }

    pub open spec fn sel_out(&self) -> Output {
        self.outputs_view()[self.selected_view()->0 as int]
    }

    /// The message changes the arrangement or the selection; any other
    /// message leaves everything as it was.
    pub open spec fn accepts(&self, msg: Message) -> bool {
        let outs = self.outputs_view();
        let sel = self.selected_view() is Some;
        let o = self.sel_out();
        match msg {
            Message::MonitorClicked(i) => i < outs.len(),
            Message::MonitorPositioned(i, _, _) => i < outs.len(),
            Message::XChanged(s) => sel && i32_text_value(s@) is Some && i32_text_value(s@)->0 >= 0,
            Message::YChanged(s) => sel && i32_text_value(s@) is Some && i32_text_value(s@)->0 >= 0,
            Message::XInc => sel && o.position.0 < i32::MAX,
            Message::XDec => sel && o.position.0 > 0,
            Message::YInc => sel && o.position.1 < i32::MAX,
            Message::YDec => sel && o.position.1 > 0,
            Message::ScaleChanged(s) => sel && scale_text_value(s@) is Some && SCALE_FLOOR
                < scale_text_value(s@)->0 <= u32::MAX,
            Message::ScaleInc => sel && o.scale + SCALE_STEP <= u32::MAX,
            Message::ScaleDec => sel && o.scale - SCALE_STEP > SCALE_FLOOR,
            Message::EnabledToggled(_) => sel,
            Message::ResolutionSelected(k) => sel && k < o.modes@.len(),
            Message::TransformSelected(_) => sel,
            Message::ApplyClicked | Message::SaveClicked => false,
        }
    }

    /// `n` is the selected output after an accepted edit of it.
    pub open spec fn selected_edit(&self, msg: Message, n: Output) -> bool {
        let o = self.sel_out();
        match msg {
            Message::XChanged(s) => n == with_position(o, (i32_text_value(s@)->0, o.position.1)),
            Message::YChanged(s) => n == with_position(o, (o.position.0, i32_text_value(s@)->0)),
            Message::XInc => n == with_position(o, ((o.position.0 + 1) as i32, o.position.1)),
            Message::XDec => n == with_position(o, ((o.position.0 - 1) as i32, o.position.1)),
            Message::YInc => n == with_position(o, (o.position.0, (o.position.1 + 1) as i32)),
            Message::YDec => n == with_position(o, (o.position.0, (o.position.1 - 1) as i32)),
            Message::ScaleChanged(s) => n == Output { scale: scale_text_value(s@)->0 as u32, ..o },
            Message::ScaleInc => n == Output { scale: (o.scale + SCALE_STEP) as u32, ..o },
            Message::ScaleDec => n == Output { scale: (o.scale - SCALE_STEP) as u32, ..o },
            Message::EnabledToggled(b) => n == Output { enabled: b, ..o },
            Message::ResolutionSelected(k) => same_but_modes(n, o) && n.modes@ == mark_current(
                o.modes@,
                k as int,
            ),
            Message::TransformSelected(t) => n == Output { transform: t, ..o },
            _ => false,
        }
    }

    /// Outputs `outs` and selection `sel` are what an accepted message leaves.
    pub open spec fn accepted_result(&self, msg: Message, outs: Seq<Output>, sel: Option<usize>) -> bool {
        let old = self.outputs_view();
        match msg {
            Message::MonitorClicked(i) => outs == old && sel == Some(i),
            Message::MonitorPositioned(i, x, y) => outs == old.update(
                i as int,
                with_position(old[i as int], (x, y)),
            ) && sel == self.selected_view(),
            _ => {
                &&& sel == self.selected_view()
                &&& outs.len() == old.len()
                &&& self.selected_edit(msg, outs[sel->0 as int])
                &&& forall|j: int|
                    0 <= j < outs.len() && j != sel->0 ==> #[trigger] outs[j] == old[j]
            },
        }
    }

    /// A session over the given outputs, the first one selected.
    pub fn new(outputs: Vec<Output>) -> (r: Self)
        requires
            all_wf(outputs@),
        ensures
            r.wf(),
            r.outputs_view() == outputs@,
            r.selected_view() == (if outputs@.len() > 0 {
                Some(0usize)
            } else {
                None
            }),
            r.stale_view(),
    {
        let sel = if outputs.len() > 0 {
            Some(0)
        } else {
            None
        };
        MangoDisplay { outputs, selected_output_idx: sel, layout_stale: true }
    }

    pub fn outputs(&self) -> (r: &Vec<Output>)
        ensures
            r@ == self.outputs_view(),
    {
        &self.outputs
    }

    pub fn selected(&self) -> (r: Option<usize>)
        ensures
            r == self.selected_view(),
    {
        self.selected_output_idx
    }

    /// Whether the canvas must be drawn again; the flag is cleared.
    pub fn take_layout_stale(&mut self) -> (r: bool)
        ensures
            r == old(self).stale_view(),
            !final(self).stale_view(),
            final(self).outputs_view() == old(self).outputs_view(),
            final(self).selected_view() == old(self).selected_view(),
    {
        let r = self.layout_stale;
        self.layout_stale = false;
        r
    }

    /// Shifts all outputs so that no coordinate is negative; the drawing goes
    /// stale when anything moved.
    pub fn normalize_positions(&mut self) -> (changed: bool)
        requires
            old(self).wf(),
        ensures
            final(self).wf(),
            final(self).selected_view() == old(self).selected_view(),
            final(self).outputs_view().len() == old(self).outputs_view().len(),
            positions_of(final(self).outputs_view()) == normalized(
                positions_of(old(self).outputs_view()),
            ),
            forall|j: int|
                0 <= j < final(self).outputs_view().len() ==> same_but_position(
                    #[trigger] final(self).outputs_view()[j],
                    old(self).outputs_view()[j],
                ),
            changed == (min_of(xs_of(positions_of(old(self).outputs_view()))) < 0 || min_of(
                ys_of(positions_of(old(self).outputs_view())),
            ) < 0),
            !changed ==> final(self).outputs_view() == old(self).outputs_view(),
            final(self).stale_view() == (old(self).stale_view() || changed),
    {
        let changed = normalize_outputs(&mut self.outputs);
        proof {
            assert forall|j: int| 0 <= j < self.outputs@.len() implies (
            #[trigger] self.outputs@[j]).wf() by {
                assert(same_but_position(self.outputs@[j], old(self).outputs@[j]));
                assert(old(self).outputs@[j].wf());
            }
        }
        if changed {
            self.layout_stale = true;
        }
        changed
    }

    /// The positions to hand to the display server or the configuration
    /// file: normalized, while the arrangement itself is left as it is.
    pub fn normalized_positions(&self) -> (r: Vec<(i32, i32)>)
        ensures
            r@ == normalized(positions_of(self.outputs_view())),
    {
        normalized_positions_of(&self.outputs)
    }

    /// Records the outcome of an apply or a save of the normalized positions:
    /// on success the arrangement takes them, on failure nothing changes.
    /// Returns whether anything moved.
    pub fn finish_write(&mut self, ok: bool) -> (changed: bool)
        requires
            old(self).wf(),
        ensures
            final(self).wf(),
            final(self).selected_view() == old(self).selected_view(),
            !ok ==> !changed && final(self).outputs_view() == old(self).outputs_view()
                && final(self).stale_view() == old(self).stale_view(),
            ok ==> final(self).outputs_view().len() == old(self).outputs_view().len(),
            ok ==> positions_of(final(self).outputs_view()) == normalized(
                positions_of(old(self).outputs_view()),
            ),
            ok ==> forall|j: int|
                0 <= j < final(self).outputs_view().len() ==> same_but_position(
                    #[trigger] final(self).outputs_view()[j],
                    old(self).outputs_view()[j],
                ),
            ok ==> final(self).stale_view() == (old(self).stale_view() || changed),
            !changed ==> final(self).outputs_view() == old(self).outputs_view(),
    {
        if ok {
            self.normalize_positions()
        } else {
            false
        }
    }

    fn sets_position(&mut self, i: usize, p: (i32, i32))
        requires
            old(self).wf(),
            i < old(self).outputs_view().len(),
        ensures
            final(self).wf(),
            final(self).outputs_view() == old(self).outputs_view().update(
                i as int,
                with_position(old(self).outputs_view()[i as int], p),
            ),
            final(self).selected_view() == old(self).selected_view(),
            final(self).stale_view(),
    {
        self.outputs[i].position = p;
        assert(self.outputs@ =~= old(self).outputs@.update(
            i as int,
            with_position(old(self).outputs@[i as int], p),
        ));
        self.layout_stale = true;
    }

    fn sets_scale(&mut self, v: u32)
        requires
            old(self).wf(),
            old(self).selected_view() is Some,
            SCALE_FLOOR < v,
        ensures
            final(self).wf(),
            final(self).outputs_view() == old(self).outputs_view().update(
                old(self).selected_view()->0 as int,
                Output { scale: v, ..old(self).sel_out() },
            ),
            final(self).selected_view() == old(self).selected_view(),
            final(self).stale_view(),
    {
        let i = self.selected_output_idx.unwrap();
        self.outputs[i].scale = v;
        assert(self.outputs@ =~= old(self).outputs@.update(
            i as int,
            Output { scale: v, ..old(self).outputs@[i as int] },
        ));
        self.layout_stale = true;
    }

    /// Applies one message. Edits of the selected output need a selection;
    /// text that does not parse, a negative position or a scale not above
    /// 0.10 leaves everything as it was. Apply and Save change nothing here:
    /// the caller writes `normalized_positions` out and reports the outcome
    /// to `finish_write`.
    pub fn update(&mut self, message: Message) -> (r: Effect)
        requires
            old(self).wf(),
        ensures
            final(self).wf(),
            r == effect_of(message),
            old(self).accepts(message) ==> old(self).accepted_result(
                message,
                final(self).outputs_view(),
                final(self).selected_view(),
            ) && final(self).stale_view(),
            !old(self).accepts(message) ==> final(self).outputs_view() == old(self).outputs_view()
                && final(self).selected_view() == old(self).selected_view()
                && final(self).stale_view() == old(self).stale_view(),
    {
        match message {
            Message::MonitorClicked(idx) => {
                if idx < self.outputs.len() {
                    self.selected_output_idx = Some(idx);
                    self.layout_stale = true;
                }
                Effect::Nothing
            },
            Message::MonitorPositioned(idx, x, y) => {
                if idx < self.outputs.len() {
                    self.sets_position(idx, (x, y));
                }
                Effect::Nothing
            },
            Message::XChanged(val) => {
                if let Some(i) = self.selected_output_idx {
                    if let Some(v) = parse_i32(val.as_str()) {
                        if v >= 0 {
                            let y = self.outputs[i].position.1;
                            self.sets_position(i, (v, y));
                        }
                    }
                }
                Effect::Nothing
            },
            Message::YChanged(val) => {
                if let Some(i) = self.selected_output_idx {
                    if let Some(v) = parse_i32(val.as_str()) {
                        if v >= 0 {
                            let x = self.outputs[i].position.0;
                            self.sets_position(i, (x, v));
                        }
                    }
                }
                Effect::Nothing
            },
            Message::XInc => {
                if let Some(i) = self.selected_output_idx {
                    let p = self.outputs[i].position;
                    if p.0 < i32::MAX {
                        self.sets_position(i, (p.0 + 1, p.1));
                    }
                }
                Effect::Nothing
            },
            Message::XDec => {
                if let Some(i) = self.selected_output_idx {
                    let p = self.outputs[i].position;
                    if p.0 > 0 {
                        self.sets_position(i, (p.0 - 1, p.1));
                    }
                }
                Effect::Nothing
            },
            Message::YInc => {
                if let Some(i) = self.selected_output_idx {
                    let p = self.outputs[i].position;
                    if p.1 < i32::MAX {
                        self.sets_position(i, (p.0, p.1 + 1));
                    }
                }
                Effect::Nothing
            },
            Message::YDec => {
                if let Some(i) = self.selected_output_idx {
                    let p = self.outputs[i].position;
                    if p.1 > 0 {
                        self.sets_position(i, (p.0, p.1 - 1));
                    }
                }
                Effect::Nothing
            },
            Message::ScaleChanged(val) => {
                if self.selected_output_idx.is_some() {
                    if let Some(v) = parse_scale(val.as_str()) {
                        if SCALE_FLOOR < v {
                            self.sets_scale(v);
                        }
                    }
                }
                Effect::Nothing
            },
            Message::ScaleInc => {
                if let Some(i) = self.selected_output_idx {
                    let s = self.outputs[i].scale;
                    if s <= u32::MAX - SCALE_STEP {
                        self.sets_scale(s + SCALE_STEP);
                    }
                }
                Effect::Nothing
            },
            Message::ScaleDec => {
                if let Some(i) = self.selected_output_idx {
                    let s = self.outputs[i].scale;
                    if s > SCALE_FLOOR + SCALE_STEP {
                        self.sets_scale(s - SCALE_STEP);
                    }
                }
                Effect::Nothing
            },
            Message::EnabledToggled(b) => {
                if let Some(i) = self.selected_output_idx {
                    self.outputs[i].enabled = b;
                    assert(self.outputs@ =~= old(self).outputs@.update(
                        i as int,
                        Output { enabled: b, ..old(self).outputs@[i as int] },
                    ));
                    self.layout_stale = true;
                }
                Effect::Nothing
            },
            Message::TransformSelected(t) => {
                if let Some(i) = self.selected_output_idx {
                    self.outputs[i].transform = t;
                    assert(self.outputs@ =~= old(self).outputs@.update(
                        i as int,
                        Output { transform: t, ..old(self).outputs@[i as int] },
                    ));
                    self.layout_stale = true;
                }
                Effect::Nothing
            },
            Message::ResolutionSelected(k) => {
                if let Some(i) = self.selected_output_idx {
                    if k < self.outputs[i].modes.len() {
                        self.select_mode(i, k);
                    }
                }
                Effect::Nothing
            },
            Message::ApplyClicked => Effect::Apply,
            Message::SaveClicked => Effect::Save,
        }
    }

    fn select_mode(&mut self, i: usize, k: usize)
        requires
            old(self).wf(),
            i < old(self).outputs_view().len(),
            k < old(self).outputs_view()[i as int].modes@.len(),
        ensures
            final(self).wf(),
            final(self).selected_view() == old(self).selected_view(),
            final(self).stale_view(),
            final(self).outputs_view().len() == old(self).outputs_view().len(),
            forall|j: int|
                0 <= j < final(self).outputs_view().len() && j != i ==> #[trigger] final(self).outputs_view()[j]
                    == old(self).outputs_view()[j],
            same_but_modes(final(self).outputs_view()[i as int], old(self).outputs_view()[i as int]),
            final(self).outputs_view()[i as int].modes@ == mark_current(
                old(self).outputs_view()[i as int].modes@,
                k as int,
            ),
    {
        let ghost orig = self.outputs@;
        let ghost modes0 = self.outputs@[i as int].modes@;
        let n = self.outputs[i].modes.len();
        let mut j: usize = 0;
        while j < n
            invariant
                i < orig.len(),
                self.outputs@.len() == orig.len(),
                self.selected_output_idx == old(self).selected_output_idx,
                old(self).wf(),
                orig == old(self).outputs@,
                modes0 == orig[i as int].modes@,
                n == modes0.len(),
                k < n,
                0 <= j <= n,
                forall|jj: int| 0 <= jj < orig.len() && jj != i ==> #[trigger] self.outputs@[jj] == orig[jj],
                same_but_modes(self.outputs@[i as int], orig[i as int]),
                self.outputs@[i as int].modes@.len() == n,
                forall|jj: int|
                    0 <= jj < j ==> #[trigger] self.outputs@[i as int].modes@[jj] == mark_current(
                        modes0,
                        k as int,
                    )[jj],
                forall|jj: int| j <= jj < n ==> #[trigger] self.outputs@[i as int].modes@[jj] == modes0[jj],
            decreases n - j,
        {
            self.outputs[i].modes[j].current = j == k;
            j = j + 1;
        }
        assert(self.outputs@[i as int].modes@ =~= mark_current(modes0, k as int));
        assert(current_at(self.outputs@[i as int].modes@, k as int));
        assert forall|jj: int| 0 <= jj < self.outputs@.len() implies (#[trigger] self.outputs@[jj]).wf() by {
            assert(orig[jj].wf());
        }
        self.layout_stale = true;
    }
}

} // verus!
