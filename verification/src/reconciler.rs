//! The single owner of "what geometry has actually been written to X11".
//!
//! Three geometries are kept apart: what the layout *desires*, what was last
//! *applied*, and what a client *reports*. Desired placements are diffed against
//! the applied ones and only the differences are written; a report that differs
//! from the applied geometry is either adopted (floats) or overruled.

use crate::geom::Rect;
use crate::model::{Client, WindowId};
use crate::state::State;
use std::collections::HashMap;
use vstd::prelude::*;

verus! {

broadcast use vstd::std_specs::hash::group_hash_axioms;

/// Where the layout wants one window.
#[derive(Debug, Clone, Copy, PartialEq, Eq, Structural)]
pub struct DesiredWindow {
    pub window: WindowId,
    pub rect: Rect,
    pub border: u32,
    pub mapped: bool,
}

/// Where the layout wants every window, and which to raise.
#[derive(Debug)]
pub struct DesiredState {
    pub windows: Vec<DesiredWindow>,
    pub raise: Vec<WindowId>,
}

/// One window's last *applied* (written to X11) geometry + border state.
#[derive(Debug, Clone, Copy, PartialEq, Eq, Structural)]
pub struct AppliedWindow {
    pub rect: Rect,
    pub border_w: u32,
    /// False until the first configure has been applied.
    pub seen: bool,
}

impl Default for AppliedWindow {
    fn default() -> (a: AppliedWindow)
        ensures
            a == (AppliedWindow {
                rect: Rect { x: 0, y: 0, w: 0, h: 0 },
                border_w: 0,
                seen: false,
            }),
    {
        AppliedWindow { rect: Rect::default(), border_w: 0, seen: false }
    }
}

/// The full set of windows whose applied geometry is known.
#[derive(Debug)]
pub struct AppliedState {
    pub windows: HashMap<WindowId, AppliedWindow>,
}

impl View for AppliedState {
    type V = Map<WindowId, AppliedWindow>;

    open spec fn view(&self) -> Map<WindowId, AppliedWindow> {
        self.windows@
    }
}

impl Default for AppliedState {
    fn default() -> (s: AppliedState)
        ensures
            s@ == Map::<WindowId, AppliedWindow>::empty(),
    {
        AppliedState { windows: HashMap::new() }
    }
}

/// A configure is owed: a transition is pending, or nothing was applied to the
/// window yet, or what was applied is not what is desired.
pub open spec fn owes_configure(
    applied: Map<WindowId, AppliedWindow>,
    win: WindowId,
    rect: Rect,
    bw: u32,
    dirty: bool,
) -> bool {
    dirty || !applied.contains_key(win) || !applied[win].seen || applied[win].rect != rect
        || applied[win].border_w != bw
}

/// The record after `rect` and `bw` were written to `win`.
pub open spec fn recorded(
    applied: Map<WindowId, AppliedWindow>,
    win: WindowId,
    rect: Rect,
    bw: u32,
) -> Map<WindowId, AppliedWindow> {
    applied.insert(win, AppliedWindow { rect, border_w: bw, seen: true })
}

impl AppliedState {
    /// Diff the *desired* placement against what was last applied.
    ///
    /// Returns `Some((rect, bw))` when a reconfigure must be emitted, `None`
    /// when the desired state already matches the applied one. A pending
    /// transition (`geometry_dirty`) forces emission even when the rectangle is
    /// identical.
    pub fn diff(
        &mut self,
        win: WindowId,
        desired_rect: Rect,
        desired_bw: u32,
        geometry_dirty: bool,
    ) -> (r: Option<(Rect, u32)>)
        ensures
            owes_configure(old(self)@, win, desired_rect, desired_bw, geometry_dirty) ==> {
                &&& r == Some((desired_rect, desired_bw))
                &&& final(self)@ == recorded(old(self)@, win, desired_rect, desired_bw)
            },
            !owes_configure(old(self)@, win, desired_rect, desired_bw, geometry_dirty) ==> {
                &&& r is None
                &&& final(self)@ == old(self)@
            },
    {
        let changed: bool = match self.windows.get(&win) {
            Some(prev) => geometry_dirty || !prev.seen || prev.rect != desired_rect || prev.border_w
                != desired_bw,
            None => true,
        };
        if changed {
            self.windows.insert(
                win,
                AppliedWindow { rect: desired_rect, border_w: desired_bw, seen: true },
            );
            Some((desired_rect, desired_bw))
        } else {
            None
        }
    }

    /// Forget a destroyed / unmanaged window so its next appearance re-emits a
    /// full configure (its old applied rect is no longer valid).
    pub fn forget(&mut self, win: WindowId)
        ensures
            final(self)@ == old(self)@.remove(win),
    {
        self.windows.remove(&win);
    }
}

/// A geometry operation the backend must apply to X11 to make it match Desired.
#[derive(Debug, Clone, Copy, PartialEq, Eq, Structural)]
pub enum GeometryEffect {
    Configure { win: WindowId, rect: Rect, border: u32 },
}

/// Some transition of `win` is still to be announced.
pub open spec fn is_dirty(clients: Map<WindowId, Client>, win: WindowId) -> bool {
    clients.contains_key(win) && clients[win].geometry_dirty
}

/// The effects of walking the desired windows in order, and the record that
/// the walk leaves behind.
pub open spec fn reconciled(
    desired: Seq<DesiredWindow>,
    clients: Map<WindowId, Client>,
    applied: Map<WindowId, AppliedWindow>,
) -> (Seq<GeometryEffect>, Map<WindowId, AppliedWindow>)
    decreases desired.len(),
{
    if desired.len() == 0 {
        (Seq::empty(), applied)
    } else {
        let (out, rec) = reconciled(desired.drop_last(), clients, applied);
        let d = desired.last();
        if owes_configure(rec, d.window, d.rect, d.border, is_dirty(clients, d.window)) {
            (
                out.push(
                    GeometryEffect::Configure { win: d.window, rect: d.rect, border: d.border },
                ),
                recorded(rec, d.window, d.rect, d.border),
            )
        } else {
            (out, rec)
        }
    }
}

/// Diff the explicit `Desired` against the recorded `Applied` and produce the
/// X11 geometry effects required to make X11 match Desired. Only the record
/// changes; the model is read.
pub fn reconcile(desired: &DesiredState, state: &State, applied: &mut AppliedState) -> (out: Vec<
    GeometryEffect,
>)
    ensures
        (out@, final(applied)@) == reconciled(desired.windows@, state@.clients, old(applied)@),
{
    let mut out: Vec<GeometryEffect> = Vec::new();
    let mut i: usize = 0;
    assert(desired.windows@.take(0) =~= Seq::<DesiredWindow>::empty());
    while i < desired.windows.len()
        invariant
            i <= desired.windows.len(),
            (out@, applied@) == reconciled(
                desired.windows@.take(i as int),
                state@.clients,
                old(applied)@,
            ),
        decreases desired.windows.len() - i,
    {
        let d: DesiredWindow = desired.windows[i];
        proof {
            assert(desired.windows@.take(i as int + 1).drop_last() =~= desired.windows@.take(
                i as int,
            ));
        }
        let dirty: bool = match state.clients.get(&d.window) {
            Some(c) => c.geometry_dirty,
            None => false,
        };
        match applied.diff(d.window, d.rect, d.border, dirty) {
            Some((rect, border)) => {
                out.push(GeometryEffect::Configure { win: d.window, rect, border });
            },
            None => {},
        }
        i = i + 1;
    }
    assert(desired.windows@.take(i as int) =~= desired.windows@);
    out
}

/// The verdict of comparing an external `ConfigureNotify` against `Applied`.
#[derive(Debug, Clone, Copy, PartialEq, Eq, Structural)]
pub enum ConfigureObservation {
    /// Reported geometry equals what we last applied: the echo of our own
    /// configure, or a compliant client. Nothing to do.
    Compliant,
    /// The client moved on its own. `follow` says whether the WM yields to it
    /// (a float) or re-asserts its own geometry (tiled and fullscreen).
    Diverged { follow: bool },
}

/// Classify an external `ConfigureNotify` for a managed window.
pub fn classify_configure(
    reported_rect: Rect,
    reported_bw: u32,
    applied: &AppliedWindow,
    client: &Client,
) -> (r: ConfigureObservation)
    ensures
        r == (if applied.rect == reported_rect && applied.border_w == reported_bw {
            ConfigureObservation::Compliant
        } else {
            ConfigureObservation::Diverged { follow: client.floats() && !client.fullscreen() }
        }),
{
    if applied.rect == reported_rect && applied.border_w == reported_bw {
        return ConfigureObservation::Compliant;
    }
    let follow: bool = client.is_float() && !client.is_fullscreen();
    ConfigureObservation::Diverged { follow }
}

/// No window is desired in two places.
pub open spec fn desired_once(desired: Seq<DesiredWindow>) -> bool {
    forall|i: int, j: int|
        #![trigger desired[i], desired[j]]
        0 <= i < desired.len() && 0 <= j < desired.len() && desired[i].window == desired[j].window
            ==> i == j
}

/// `win` is desired somewhere.
pub open spec fn is_desired(desired: Seq<DesiredWindow>, win: WindowId) -> bool {
    exists|i: int| 0 <= i < desired.len() && (#[trigger] desired[i]).window == win
}

/// A diff that emitted is recorded: the same placement asked for again, with no
/// transition pending, is not emitted a second time.
pub proof fn applied_placement_is_not_emitted_again(
    applied: Map<WindowId, AppliedWindow>,
    win: WindowId,
    rect: Rect,
    bw: u32,
)
    ensures
        !owes_configure(recorded(applied, win, rect, bw), win, rect, bw, false),
{
}

/// A forgotten window owes a full configure, whatever is asked for.
pub proof fn forgotten_window_is_configured_again(
    applied: Map<WindowId, AppliedWindow>,
    win: WindowId,
    rect: Rect,
    bw: u32,
    dirty: bool,
)
    ensures
        owes_configure(applied.remove(win), win, rect, bw, dirty),
{
}

/// Windows that are not desired keep their record, and each desired window's
/// record ends up being its desired placement.
pub proof fn reconciling_makes_applied_match_desired(
    desired: Seq<DesiredWindow>,
    clients: Map<WindowId, Client>,
    applied: Map<WindowId, AppliedWindow>,
)
    requires
        desired_once(desired),
    ensures
        forall|i: int|
            0 <= i < desired.len() ==> {
                let d = #[trigger] desired[i];
                let rec = reconciled(desired, clients, applied).1;
                rec.contains_key(d.window) && rec[d.window] == (AppliedWindow {
                    rect: d.rect,
                    border_w: d.border,
                    seen: true,
                })
            },
        forall|w: WindowId|
            !#[trigger] is_desired(desired, w) ==> {
                let rec = reconciled(desired, clients, applied).1;
                rec.contains_key(w) == applied.contains_key(w) && rec[w] == applied[w]
            },
    decreases desired.len(),
{
    if desired.len() > 0 {
        let init = desired.drop_last();
        let d = desired.last();
        assert(desired_once(init)) by {
            assert forall|i: int, j: int|
                #![trigger init[i], init[j]]
                0 <= i < init.len() && 0 <= j < init.len() && init[i].window
                    == init[j].window implies i == j by {
                assert(desired[i] == init[i] && desired[j] == init[j]);
            }
        }
        reconciling_makes_applied_match_desired(init, clients, applied);
        let rec0 = reconciled(init, clients, applied).1;
        let rec = reconciled(desired, clients, applied).1;
        assert(desired[desired.len() - 1] == d);
        assert forall|i: int| 0 <= i < desired.len() implies {
            let e = #[trigger] desired[i];
            rec.contains_key(e.window) && rec[e.window] == (AppliedWindow {
                rect: e.rect,
                border_w: e.border,
                seen: true,
            })
        } by {
            if i < desired.len() - 1 {
                assert(init[i] == desired[i]);
                assert(desired[i].window != d.window);
            }
        }
        assert forall|w: WindowId| !#[trigger] is_desired(desired, w) implies rec.contains_key(w)
            == applied.contains_key(w) && rec[w] == applied[w] by {
            if is_desired(init, w) {
                let i = choose|i: int| 0 <= i < init.len() && (#[trigger] init[i]).window == w;
                assert(desired[i].window == w);
            }
            assert(d.window != w);
        }
    }
}

/// Once X11 matches, it stays matched silently: reconciling the same desired
/// state a second time, with no transition pending on its windows, emits nothing
/// and changes nothing.
pub proof fn reconciling_twice_emits_nothing(
    desired: Seq<DesiredWindow>,
    clients: Map<WindowId, Client>,
    settled: Map<WindowId, Client>,
    applied: Map<WindowId, AppliedWindow>,
)
    requires
        desired_once(desired),
        forall|i: int|
            0 <= i < desired.len() ==> !is_dirty(settled, (#[trigger] desired[i]).window),
    ensures
        ({
            let rec = reconciled(desired, clients, applied).1;
            reconciled(desired, settled, rec) == (Seq::<GeometryEffect>::empty(), rec)
        }),
{
    let rec = reconciled(desired, clients, applied).1;
    reconciling_makes_applied_match_desired(desired, clients, applied);
    matched_prefix_is_silent(desired, settled, rec, desired.len() as int);
    assert(desired.take(desired.len() as int) =~= desired);
}

/// A walk over windows whose record already matches leaves the record as it
/// is.
proof fn matched_prefix_is_silent(
    desired: Seq<DesiredWindow>,
    clients: Map<WindowId, Client>,
    rec: Map<WindowId, AppliedWindow>,
    k: int,
)
    requires
        0 <= k <= desired.len(),
        forall|i: int|
            0 <= i < desired.len() ==> !is_dirty(clients, (#[trigger] desired[i]).window),
        forall|i: int|
            0 <= i < desired.len() ==> {
                let d = #[trigger] desired[i];
                rec.contains_key(d.window) && rec[d.window] == (AppliedWindow {
                    rect: d.rect,
                    border_w: d.border,
                    seen: true,
                })
            },
    ensures
        reconciled(desired.take(k), clients, rec) == (Seq::<GeometryEffect>::empty(), rec),
    decreases k,
{
    if k > 0 {
        matched_prefix_is_silent(desired, clients, rec, k - 1);
        assert(desired.take(k).drop_last() =~= desired.take(k - 1));
        assert(desired.take(k).last() == desired[k - 1]);
    }
}

/// What is asked for is written where it differs from what was written last, in
/// position, in size or in border, and where that is not known or not certain; else
/// nothing is.
pub proof fn only_differences_are_written(
    applied: Map<WindowId, AppliedWindow>,
    win: WindowId,
    rect: Rect,
    bw: u32,
    dirty: bool,
)
    ensures
        dirty ==> owes_configure(applied, win, rect, bw, dirty),
        !applied.contains_key(win) ==> owes_configure(applied, win, rect, bw, dirty),
        applied.contains_key(win) && !dirty && applied[win].seen ==> (owes_configure(
            applied,
            win,
            rect,
            bw,
            dirty,
        ) <==> applied[win].rect.x != rect.x || applied[win].rect.y != rect.y
            || applied[win].rect.w != rect.w || applied[win].rect.h != rect.h
            || applied[win].border_w != bw),
{
}

/// Every effect puts some desired window where it is desired, and every desired
/// window whose transition is to be announced, or that nothing was written to, gets
/// one.
pub proof fn effects_are_the_desired_geometry(
    desired: Seq<DesiredWindow>,
    clients: Map<WindowId, Client>,
    applied: Map<WindowId, AppliedWindow>,
)
    requires
        desired_once(desired),
    ensures
        ({
            let out = reconciled(desired, clients, applied).0;
            &&& forall|k: int|
                0 <= k < out.len() ==> exists|i: int|
                    0 <= i < desired.len() && #[trigger] out[k] == (GeometryEffect::Configure {
                        win: (#[trigger] desired[i]).window,
                        rect: desired[i].rect,
                        border: desired[i].border,
                    })
            &&& forall|i: int|
                0 <= i < desired.len() && ((clients.contains_key((#[trigger] desired[i]).window)
                    && clients[desired[i].window].geometry_dirty) || !applied.contains_key(
                    desired[i].window,
                ) || applied[desired[i].window].rect != desired[i].rect
                    || applied[desired[i].window].border_w != desired[i].border) ==> out.contains(
                    GeometryEffect::Configure {
                        win: desired[i].window,
                        rect: desired[i].rect,
                        border: desired[i].border,
                    },
                )
        }),
    decreases desired.len(),
{
    if desired.len() > 0 {
        let before = desired.drop_last();
        let d = desired.last();
        assert(desired_once(before)) by {
            assert forall|i: int, j: int|
                #![trigger before[i], before[j]]
                0 <= i < before.len() && 0 <= j < before.len() && before[i].window
                    == before[j].window implies i == j by {
                assert(desired[i].window == desired[j].window);
            }
        }
        effects_are_the_desired_geometry(before, clients, applied);
        reconciling_makes_applied_match_desired(before, clients, applied);
        let (o, rec) = reconciled(before, clients, applied);
        let out = reconciled(desired, clients, applied).0;
        assert(!is_desired(before, d.window)) by {
            if is_desired(before, d.window) {
                let i = choose|i: int| 0 <= i < before.len() && (#[trigger] before[i]).window
                    == d.window;
                assert(desired[i].window == desired[desired.len() - 1].window);
            }
        }
        assert forall|k: int| 0 <= k < out.len() implies exists|i: int|
            0 <= i < desired.len() && #[trigger] out[k] == (GeometryEffect::Configure {
                win: (#[trigger] desired[i]).window,
                rect: desired[i].rect,
                border: desired[i].border,
            }) by {
            if k < o.len() {
                assert(out[k] == o[k]);
                let i = choose|i: int|
                    0 <= i < before.len() && #[trigger] o[k] == (GeometryEffect::Configure {
                        win: (#[trigger] before[i]).window,
                        rect: before[i].rect,
                        border: before[i].border,
                    });
                assert(desired[i] == before[i]);
            } else {
                assert(desired[desired.len() - 1] == d);
            }
        }
        assert forall|i: int|
            0 <= i < desired.len() && ((clients.contains_key((#[trigger] desired[i]).window)
                && clients[desired[i].window].geometry_dirty) || !applied.contains_key(
                desired[i].window,
            ) || applied[desired[i].window].rect != desired[i].rect
                || applied[desired[i].window].border_w
                != desired[i].border) implies out.contains(
            GeometryEffect::Configure {
                win: desired[i].window,
                rect: desired[i].rect,
                border: desired[i].border,
            },
        ) by {
            let e = GeometryEffect::Configure {
                win: desired[i].window,
                rect: desired[i].rect,
                border: desired[i].border,
            };
            if i < before.len() {
                assert(before[i] == desired[i]);
                assert(o.contains(e));
                let k = choose|k: int| 0 <= k < o.len() && o[k] == e;
                assert(out[k] == e);
            } else {
                assert(out[out.len() - 1] == e);
            }
        }
    }
}

} // verus!
