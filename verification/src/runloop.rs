//! The event loop's decisions: how long to wait, what is stale, who owns the
//! screen.

use crate::config::Cfg;
use crate::geom::Rect;
use crate::model::{Client, LayoutKind, WindowId};
use crate::monitors::{tag_clamped, with_workspaces};
use crate::seqs::contains_window;
use crate::state::{monitor_views, Monitor, MonitorV, State, StateV};
use crate::text::{same_text, texts};
use crate::workspace::WorkspaceV;
use crate::xproto::viewable_state;
use vstd::prelude::*;

verus! {

broadcast use vstd::std_specs::hash::group_hash_axioms;

// ---- Waiting ----------------------------------------------------------------

/// How long to wait for events, in milliseconds. A frame that is due waits for
/// nothing where the display has paced it, and briefly otherwise; without one the
/// loop idles. It never sleeps past a keyboard refresh.
pub open spec fn wait_of(
    pending: bool,
    vblank_synced: bool,
    composited: bool,
    refresh_in: Option<u64>,
) -> u64 {
    let base: u64 = if !pending {
        100
    } else if vblank_synced {
        0
    } else if composited {
        2
    } else {
        16
    };
    match refresh_in {
        Some(left) => if left < base {
            left
        } else {
            base
        },
        None => base,
    }
}

pub fn poll_timeout(
    pending: bool,
    vblank_synced: bool,
    composited: bool,
    refresh_in: Option<u64>,
) -> (ms: u64)
    ensures
        ms == wait_of(pending, vblank_synced, composited, refresh_in),
{
    let base: u64 = if !pending {
        100
    } else if vblank_synced {
        0
    } else if composited {
        2
    } else {
        16
    };
    match refresh_in {
        Some(left) => if left < base {
            left
        } else {
            base
        },
        None => base,
    }
}

/// The loop never waits longer than 100 ms, nor past a keyboard refresh.
pub proof fn wait_is_bounded(
    pending: bool,
    vblank_synced: bool,
    composited: bool,
    refresh_in: Option<u64>,
)
    ensures
        wait_of(pending, vblank_synced, composited, refresh_in) <= 100,
        refresh_in matches Some(left) ==> wait_of(pending, vblank_synced, composited, refresh_in)
            <= left,
{
}

/// A keyboard refresh that waits for the rest of a burst of notifications.
/// Times are in milliseconds.
#[derive(Debug, Clone, Copy, PartialEq, Eq, Structural)]
pub struct KeyboardRefresh {
    pub due: Option<u64>,
}

impl KeyboardRefresh {
    /// The refresh after a notification at `now`: 50 ms after the first one of a
    /// burst; those that follow do not put it off.
    pub open spec fn scheduled(self, now: u64) -> KeyboardRefresh {
        match self.due {
            Some(_) => self,
            None => KeyboardRefresh { due: Some((now + 50) as u64) },
        }
    }

    pub fn schedule(&mut self, now: u64)
        requires
            now <= u64::MAX - 50,
        ensures
            *final(self) == old(self).scheduled(now),
    {
        match self.due {
            Some(_) => {},
            None => {
                self.due = Some(now + 50);
            },
        }
    }

    /// How long until the refresh, if there is one; none at all if it is late.
    pub fn remaining(&self, now: u64) -> (r: Option<u64>)
        ensures
            r == (match self.due {
                Some(t) => Some(
                    if t > now {
                        (t - now) as u64
                    } else {
                        0
                    },
                ),
                None => None,
            }),
    {
        match self.due {
            Some(t) => Some(if t > now { t - now } else { 0 }),
            None => None,
        }
    }

    /// Whether to refresh now; the refresh is then done with.
    pub fn take_due(&mut self, now: u64) -> (b: bool)
        ensures
            b == (old(self).due matches Some(t) && now >= t),
            *final(self) == (if b {
                KeyboardRefresh { due: None }
            } else {
                *old(self)
            }),
    {
        match self.due {
            Some(t) => {
                if now >= t {
                    self.due = None;
                    return true;
                }
            },
            None => {},
        }
        false
    }
}

/// However many notifications follow the first, the refresh comes 50 ms after it.
pub proof fn burst_does_not_delay_the_refresh(first: u64, later: Seq<u64>)
    requires
        first <= u64::MAX - 50,
    ensures
        after_burst((KeyboardRefresh { due: None }).scheduled(first), later).due == Some(
            (first + 50) as u64,
        ),
    decreases later.len(),
{
    if later.len() > 0 {
        burst_does_not_delay_the_refresh(first, later.drop_last());
    }
}

/// The refresh after the notifications at the given times.
pub open spec fn after_burst(k: KeyboardRefresh, times: Seq<u64>) -> KeyboardRefresh
    decreases times.len(),
{
    if times.len() == 0 {
        k
    } else {
        after_burst(k, times.drop_last()).scheduled(times.last())
    }
}

// ---- Which monitors to project anew -----------------------------------------

/// Monitor `mi` is to be projected anew: something moves, its layout changed, or
/// the monitors themselves did.
pub open spec fn is_stale(st: StateV, mi: int, cached: nat, animating: bool) -> bool {
    animating || st.monitors[mi].layout_dirty || cached != st.monitors.len()
}

/// The layout of a monitor is projected.
pub open spec fn projected() -> spec_fn(MonitorV) -> MonitorV {
    |m: MonitorV| MonitorV { layout_dirty: false, ..m }
}

impl State {
    /// The monitors to project anew, in order; all are projected then. `cached`
    /// is the number of monitors whose projection is at hand.
    pub fn take_stale(&mut self, cached: usize, animating: bool) -> (out: Vec<usize>)
        ensures
            final(self)@ == (StateV {
                monitors: old(self)@.monitors.map_values(projected()),
                ..old(self)@
            }),
            forall|i: int, j: int|
                #![trigger out@[i], out@[j]]
                0 <= i < j < out@.len() ==> out@[i] < out@[j],
            forall|mi: usize| #[trigger]
                out@.contains(mi) <==> mi < old(self).monitors.len() && is_stale(
                    old(self)@,
                    mi as int,
                    cached as nat,
                    animating,
                ),
    {
        let n: usize = self.monitors.len();
        let ghost s0 = *self;
        let all: bool = animating || cached != n;
        let mut out: Vec<usize> = Vec::new();
        let mut i: usize = 0;
        while i < n
            invariant
                i <= n,
                n == self.monitors.len(),
                n == s0.monitors.len(),
                s0 == *old(self),
                all == (animating || cached != n),
                *self == (State { monitors: self.monitors, ..s0 }),
                forall|j: int|
                    0 <= j < i ==> (#[trigger] self.monitors@[j])@ == projected()(s0.monitors@[j]@),
                forall|j: int| i <= j < n ==> self.monitors@[j] == s0.monitors@[j],
                forall|k: int| 0 <= k < out@.len() ==> out@[k] < i,
                forall|a: int, b: int|
                    #![trigger out@[a], out@[b]]
                    0 <= a < b < out@.len() ==> out@[a] < out@[b],
                forall|mi: usize| #[trigger]
                    out@.contains(mi) <==> mi < i && is_stale(
                        s0@,
                        mi as int,
                        cached as nat,
                        animating,
                    ),
            decreases n - i,
        {
            assert(s0@.monitors[i as int] == s0.monitors@[i as int]@);
            let stale: bool = all || self.monitors[i].layout_dirty;
            assert(stale == is_stale(s0@, i as int, cached as nat, animating));
            let ghost before = out@;
            if stale {
                out.push(i);
            }
            assert forall|mi: usize| #[trigger] out@.contains(mi) <==> mi < i + 1 && is_stale(
                s0@,
                mi as int,
                cached as nat,
                animating,
            ) by {
                if before.contains(mi) {
                    let k = choose|k: int| 0 <= k < before.len() && before[k] == mi;
                    assert(out@[k] == mi);
                }
                if mi == i && stale {
                    assert(out@[before.len() as int] == i);
                }
                if out@.contains(mi) && mi != i {
                    let k = choose|k: int| 0 <= k < out@.len() && out@[k] == mi;
                    assert(before[k] == mi);
                }
                if out@.contains(mi) && mi == i && !stale {
                    assert(before.contains(mi));
                }
            }
            self.monitors[i].layout_dirty = false;
            i = i + 1;
        }
        assert(self@.monitors =~= s0@.monitors.map_values(projected()));
        out
    }
}

/// While nothing moves and nothing changes, nothing is projected again.
pub proof fn idle_monitors_cost_nothing(st: StateV, mi: int)
    requires
        0 <= mi < st.monitors.len(),
    ensures
        ({
            let after = StateV { monitors: st.monitors.map_values(projected()), ..st };
            !is_stale(after, mi, after.monitors.len(), false)
        }),
{
}

// ---- Whose window it is -----------------------------------------------------

/// The next step of a search for the client that a window belongs to.
#[derive(Debug, Clone, Copy, PartialEq, Eq, Structural)]
pub enum FindStep {
    Found(WindowId),
    /// It belongs to none.
    Lost,
    /// Ask the server for the parent of that window.
    Ask(WindowId),
}

/// Where the search starts.
pub open spec fn find_first(st: StateV, win: WindowId) -> FindStep {
    if st.clients.contains_key(win) {
        FindStep::Found(win)
    } else {
        FindStep::Ask(win)
    }
}

/// Where the search goes once the parent of the last window of `seen` is known
/// (`None`: the server does not tell).
pub open spec fn find_next(
    st: StateV,
    seen: Seq<WindowId>,
    parent: Option<WindowId>,
    root: WindowId,
) -> FindStep {
    match parent {
        None => FindStep::Lost,
        Some(p) => if p == root || p == seen.last() || p == 0 {
            FindStep::Lost
        } else if st.clients.contains_key(p) {
            FindStep::Found(p)
        } else if seen.contains(p) {
            FindStep::Lost
        } else {
            FindStep::Ask(p)
        },
    }
}

impl State {
    /// Start looking for the client that `win` belongs to.
    pub fn find_client(&self, win: WindowId, seen: &mut Vec<WindowId>) -> (r: FindStep)
        ensures
            r == find_first(self@, win),
            final(seen)@ == old(seen)@.push(win),
    {
        seen.push(win);
        if self.clients.contains_key(&win) {
            FindStep::Found(win)
        } else {
            FindStep::Ask(win)
        }
    }

    /// Go on looking, now that the parent of the last window asked for is known.
    pub fn find_client_above(
        &self,
        seen: &mut Vec<WindowId>,
        parent: Option<WindowId>,
        root: WindowId,
    ) -> (r: FindStep)
        requires
            old(seen)@.len() > 0,
        ensures
            r == find_next(self@, old(seen)@, parent, root),
            final(seen)@ == (match r {
                FindStep::Ask(p) => old(seen)@.push(p),
                _ => old(seen)@,
            }),
    {
        let last: WindowId = seen[seen.len() - 1];
        match parent {
            None => FindStep::Lost,
            Some(p) => {
                if p == root || p == last || p == 0 {
                    return FindStep::Lost;
                }
                if self.clients.contains_key(&p) {
                    return FindStep::Found(p);
                }
                if contains_window(seen, p) {
                    return FindStep::Lost;
                }
                seen.push(p);
                FindStep::Ask(p)
            },
        }
    }
}

/// The search never asks for the parent of the same window twice, so it ends even
/// where the server's answers go round in a circle.
pub proof fn search_never_repeats_a_question(
    st: StateV,
    seen: Seq<WindowId>,
    parent: Option<WindowId>,
    root: WindowId,
)
    requires
        seen.len() > 0,
        seen.no_duplicates(),
    ensures
        find_next(st, seen, parent, root) matches FindStep::Ask(p) ==> seen.push(
            p,
        ).no_duplicates(),
        find_next(st, seen, parent, root) matches FindStep::Found(p) ==> st.clients.contains_key(p),
{
    match find_next(st, seen, parent, root) {
        FindStep::Ask(p) => {
            let s = seen.push(p);
            assert forall|i: int, j: int| 0 <= i < s.len() && 0 <= j < s.len() && i != j implies s[i]
                != s[j] by {
                if i == seen.len() {
                    assert(seen.contains(seen[j]));
                } else if j == seen.len() {
                    assert(seen.contains(seen[i]));
                }
            }
        },
        _ => {},
    }
}

/// Whether a window found at startup is to be managed.
pub fn scan_manages(override_redirect: bool, map_state: u8) -> (b: bool)
    ensures
        b == (!override_redirect && map_state == 2),
{
    !override_redirect && map_state == viewable_state()
}

// ---- Taking over the screen -------------------------------------------------

/// How often another window manager is asked to leave.
pub const ATTEMPTS: usize = 20;

/// How long it gets each time, in milliseconds.
pub const SLEEP_MS: u64 = 150;

/// The next step of taking over the screen.
#[derive(Debug, Clone, Copy, PartialEq, Eq, Structural)]
pub enum ClaimStep {
    /// The screen is ours.
    Claimed,
    /// Ask the other window manager to leave, wait, and try again.
    AskAndWait,
    /// It does not leave.
    GaveUp,
}

/// How many requests to leave are still to be made.
#[derive(Debug, Clone, Copy, PartialEq, Eq, Structural)]
pub struct ScreenClaim {
    pub left: usize,
}

/// What follows an attempt to take the screen over.
pub open spec fn claim_after(c: ScreenClaim, grabbed: bool) -> (ScreenClaim, ClaimStep) {
    if grabbed {
        (c, ClaimStep::Claimed)
    } else if c.left == 0 {
        (c, ClaimStep::GaveUp)
    } else {
        (ScreenClaim { left: (c.left - 1) as usize }, ClaimStep::AskAndWait)
    }
}

impl ScreenClaim {
    pub fn new() -> (c: ScreenClaim)
        ensures
            c.left == 20,
    {
        ScreenClaim { left: ATTEMPTS }
    }

    pub fn attempted(&mut self, grabbed: bool) -> (s: ClaimStep)
        ensures
            (*final(self), s) == claim_after(*old(self), grabbed),
    {
        if grabbed {
            ClaimStep::Claimed
        } else if self.left == 0 {
            ClaimStep::GaveUp
        } else {
            self.left = self.left - 1;
            ClaimStep::AskAndWait
        }
    }
}

/// The window of the other window manager, out of the words of the root's
/// property, if it has one.
pub fn check_window(words: &Option<Vec<u32>>) -> (r: Option<WindowId>)
    ensures
        r == (match *words {
            Some(v) => if v@.len() > 0 && v@[0] != 0 {
                Some(v@[0])
            } else {
                None
            },
            None => None,
        }),
{
    match words {
        Some(v) => if v.len() > 0 && v[0] != 0 {
            Some(v[0])
        } else {
            None
        },
        None => None,
    }
}

/// A window manager that never leaves is asked to twenty times, no more.
pub proof fn stubborn_owner_is_asked_twenty_times(n: nat)
    ensures
        n <= 20 ==> claim_run(n).left == 20 - n,
        n < 20 ==> claim_after(claim_run(n), false).1 == ClaimStep::AskAndWait,
        n == 20 ==> claim_after(claim_run(n), false).1 == ClaimStep::GaveUp,
    decreases n,
{
    if n > 0 {
        stubborn_owner_is_asked_twenty_times((n - 1) as nat);
    }
}

/// The claim after `n` attempts in vain.
pub open spec fn claim_run(n: nat) -> ScreenClaim
    decreases n,
{
    if n == 0 {
        ScreenClaim { left: 20 }
    } else {
        claim_after(claim_run((n - 1) as nat), false).0
    }
}

// ---- Monitors ---------------------------------------------------------------

/// A monitor with `n` empty workspaces.
pub open spec fn fresh_monitor(screen: Rect, n: nat) -> MonitorV {
    MonitorV {
        screen,
        workarea: screen,
        workspaces: Seq::new(n, |i: int| WorkspaceV::empty(LayoutKind::Column)),
        active_ws: 0,
        focused: None,
        focus_stack: Seq::empty(),
        layout_dirty: true,
        reserved: Seq::empty(),
    }
}

/// The monitors that the server lists, or the whole screen where it lists none.
pub open spec fn monitors_of(listed: Seq<Rect>, screen: Rect, n: nat) -> Seq<MonitorV> {
    if listed.len() == 0 {
        seq![fresh_monitor(screen, n)]
    } else {
        listed.map_values(|r: Rect| fresh_monitor(r, n))
    }
}

/// Fresh monitors for what the server lists.
pub fn detect_monitors(listed: &Vec<Rect>, screen: Rect, n: usize) -> (out: Vec<Monitor>)
    ensures
        monitor_views(out@) == monitors_of(listed@, screen, n as nat),
{
    let mut out: Vec<Monitor> = Vec::new();
    if listed.len() == 0 {
        out.push(Monitor::new(screen, n));
        assert(monitor_views(out@) =~= monitors_of(listed@, screen, n as nat));
        return out;
    }
    let ghost all = listed@.map_values(|r: Rect| fresh_monitor(r, n as nat));
    let mut i: usize = 0;
    assert(monitor_views(out@) =~= all.take(0));
    while i < listed.len()
        invariant
            i <= listed.len(),
            all == listed@.map_values(|r: Rect| fresh_monitor(r, n as nat)),
            monitor_views(out@) == all.take(i as int),
        decreases listed.len() - i,
    {
        let m: Monitor = Monitor::new(listed[i], n);
        proof {
            assert(m@ == all[i as int]);
            assert(monitor_views(out@.push(m)) =~= monitor_views(out@).push(m@));
            assert(all.take(i as int + 1) =~= all.take(i as int).push(all[i as int]));
        }
        out.push(m);
        i = i + 1;
    }
    assert(all.take(i as int) =~= all);
    out
}

// ---- A new configuration ----------------------------------------------------

/// The tags of two configurations differ, in number or in name.
pub fn tags_changed(old_cfg: &Cfg, new_cfg: &Cfg) -> (b: bool)
    ensures
        b == (old_cfg.n_tags != new_cfg.n_tags || texts(old_cfg.tag_names@) != texts(
            new_cfg.tag_names@,
        )),
{
    if old_cfg.n_tags != new_cfg.n_tags || old_cfg.tag_names.len() != new_cfg.tag_names.len() {
        assert(texts(old_cfg.tag_names@).len() == old_cfg.tag_names.len());
        assert(texts(new_cfg.tag_names@).len() == new_cfg.tag_names.len());
        return true;
    }
    let n: usize = old_cfg.tag_names.len();
    let ghost a = texts(old_cfg.tag_names@);
    let ghost b = texts(new_cfg.tag_names@);
    let mut i: usize = 0;
    while i < n
        invariant
            i <= n,
            n == old_cfg.tag_names.len(),
            n == new_cfg.tag_names.len(),
            a == texts(old_cfg.tag_names@),
            b == texts(new_cfg.tag_names@),
            forall|j: int| 0 <= j < i ==> a[j] == b[j],
        decreases n - i,
    {
        assert(a[i as int] == old_cfg.tag_names@[i as int]@);
        assert(b[i as int] == new_cfg.tag_names@[i as int]@);
        if !same_text(old_cfg.tag_names[i].as_str(), new_cfg.tag_names[i].as_str()) {
            return true;
        }
        i = i + 1;
    }
    assert(a =~= b);
    false
}

/// Gives a monitor `n` workspaces.
pub open spec fn given_tags(n: int) -> spec_fn(MonitorV) -> MonitorV {
    |m: MonitorV| with_workspaces(m, n)
}

/// The state with `n` workspaces on every monitor, and every client on one of
/// them.
pub open spec fn retagged(st: StateV, n: int) -> StateV {
    StateV {
        monitors: st.monitors.map_values(given_tags(n)),
        clients: st.clients.map_values(|c: Client| tag_clamped(c, n)),
        ..st
    }
}

impl State {
    /// Adopt a new number of tags. Returns the clients that had to move, in no
    /// particular order.
    pub fn adopt_tags(&mut self, n: usize) -> (moved: Vec<WindowId>)
        ensures
            final(self)@ == retagged(old(self)@, n as int),
            moved@.no_duplicates(),
            forall|w: WindowId| #[trigger]
                moved@.contains(w) <==> old(self)@.clients.contains_key(w)
                    && old(self)@.clients[w].workspace >= n,
    {
        let k: usize = self.monitors.len();
        let ghost s0 = *self;
        let mut i: usize = 0;
        while i < k
            invariant
                i <= k,
                k == self.monitors.len(),
                k == s0.monitors.len(),
                *self == (State { monitors: self.monitors, ..s0 }),
                forall|j: int|
                    0 <= j < i ==> (#[trigger] self.monitors@[j])@ == given_tags(n as int)(
                        s0.monitors@[j]@,
                    ),
                forall|j: int| i <= j < k ==> self.monitors@[j] == s0.monitors@[j],
            decreases k - i,
        {
            self.monitors[i].reconcile_workspaces(n);
            i = i + 1;
        }
        assert(self@.monitors =~= s0@.monitors.map_values(given_tags(n as int)));
        self.clamp_client_tags(n)
    }
}

/// After a change of tags every monitor has the new number of workspaces, and
/// every client is on one of them.
pub proof fn every_client_keeps_a_workspace(st: StateV, n: int, win: WindowId, mi: int)
    requires
        n > 0,
        st.clients.contains_key(win),
        0 <= mi < st.monitors.len(),
    ensures
        retagged(st, n).clients[win].workspace < n,
        retagged(st, n).monitors[mi].workspaces.len() == n,
{
    crate::monitors::resizing_gives_the_asked_number(st.monitors[mi].workspaces, n);
}

// ---- Leaving ----------------------------------------------------------------

/// How long clients get to close, in milliseconds.
pub const SHUTDOWN_BUDGET: u64 = 3000;

/// A shutdown under way: when it is over, in milliseconds.
#[derive(Debug, Clone, Copy, PartialEq, Eq, Structural)]
pub struct Shutdown {
    pub deadline: Option<u64>,
}

impl Shutdown {
    /// Begin to shut down. Returns whether that is new: clients are asked to
    /// close once, and the time they get does not start again.
    pub fn begin(&mut self, now: u64) -> (first: bool)
        requires
            now <= u64::MAX - 3000,
        ensures
            first == (old(self).deadline is None),
            final(self).deadline == (if first {
                Some((now + 3000) as u64)
            } else {
                old(self).deadline
            }),
    {
        match self.deadline {
            Some(_) => false,
            None => {
                self.deadline = Some(now + SHUTDOWN_BUDGET);
                true
            },
        }
    }

    /// Whether the time for clients to close is over.
    pub fn expired(&self, now: u64) -> (b: bool)
        ensures
            b == (self.deadline matches Some(t) && now >= t),
    {
        match self.deadline {
            Some(t) => now >= t,
            None => false,
        }
    }

    /// Whether a shutdown is over: the clients are gone, or their time is.
    pub fn is_over(&self, now: u64, clients: usize) -> (b: bool)
        ensures
            b == (self.deadline matches Some(t) && (now >= t || clients == 0)),
    {
        self.expired(now) || (self.deadline.is_some() && clients == 0)
    }
}

/// The last state told to subscribers.
#[derive(Debug)]
pub struct Publisher {
    pub last: String,
}

impl Publisher {
    pub fn new() -> (p: Publisher)
        ensures
            p.last@ == Seq::<char>::empty(),
    {
        Publisher { last: String::new() }
    }

    /// Whether a state is news; it is remembered then.
    pub fn publish(&mut self, json: &String) -> (news: bool)
        ensures
            news == (json@ != old(self).last@),
            final(self).last@ == json@,
    {
        if same_text(json.as_str(), self.last.as_str()) {
            false
        } else {
            self.last = json.as_str().to_owned();
            true
        }
    }
}

/// The loop waits a tenth of a second where nothing is to be drawn, not at all where
/// the display paces it, and a little where it must pace itself; never past a due
/// refresh of the keyboard.
pub proof fn loop_waits_as_long_as_it_may(pending: bool, synced: bool, composited: bool, due: u64)
    ensures
        wait_of(false, synced, composited, None) == 100,
        wait_of(true, true, composited, None) == 0,
        wait_of(true, false, true, None) == 2,
        wait_of(true, false, false, None) == 16,
        due <= wait_of(pending, synced, composited, None) ==> wait_of(
            pending,
            synced,
            composited,
            Some(due),
        ) == due,
        due > wait_of(pending, synced, composited, None) ==> wait_of(
            pending,
            synced,
            composited,
            Some(due),
        ) == wait_of(pending, synced, composited, None),
{
}

/// The search for the client that a window belongs to goes up parent by parent: it
/// ends at the first client, and at the root without one.
pub proof fn search_goes_up_to_the_first_client(
    st: StateV,
    seen: Seq<WindowId>,
    p: WindowId,
    root: WindowId,
)
    requires
        seen.len() > 0,
    ensures
        st.clients.contains_key(p) ==> find_first(st, p) == FindStep::Found(p),
        !st.clients.contains_key(p) ==> find_first(st, p) == FindStep::Ask(p),
        p != root && p != 0 && !seen.contains(p) && st.clients.contains_key(p) ==> find_next(
            st,
            seen,
            Some(p),
            root,
        ) == FindStep::Found(p),
        p != root && p != 0 && !seen.contains(p) && !st.clients.contains_key(p) ==> find_next(
            st,
            seen,
            Some(p),
            root,
        ) == FindStep::Ask(p),
        find_next(st, seen, Some(root), root) == FindStep::Lost,
        find_next(st, seen, None, root) == FindStep::Lost,
        find_next(st, seen, Some(0), root) == FindStep::Lost,
{
    assert(seen.contains(seen.last())) by {
        assert(seen[seen.len() - 1] == seen.last());
    }
}

/// There is one monitor for each that is listed, in order, and one over the whole
/// screen where none is; each starts empty, with its first workspace on show and its
/// whole screen as work area.
pub proof fn detected_monitors_are_those_listed(listed: Seq<Rect>, screen: Rect, n: nat, i: int)
    requires
        0 <= i < monitors_of(listed, screen, n).len(),
    ensures
        ({
            let m = monitors_of(listed, screen, n)[i];
            &&& listed.len() > 0 ==> monitors_of(listed, screen, n).len() == listed.len()
                && m.screen == listed[i]
            &&& listed.len() == 0 ==> monitors_of(listed, screen, n).len() == 1 && m.screen
                == screen
            &&& m.workarea == m.screen && m.active_ws == 0 && m.focused is None
                && m.focus_stack.len() == 0 && m.reserved.len() == 0 && m.layout_dirty
            &&& m.workspaces.len() == n && forall|k: int|
                0 <= k < n ==> (#[trigger] m.workspaces[k]).columns.len() == 0
                    && m.workspaces[k].floats.len() == 0 && m.workspaces[k].layout
                    == LayoutKind::Column
        }),
{
}

/// A monitor is projected anew where something moves, where its layout changed and
/// where the number of monitors did, and only there.
pub proof fn stale_monitors_have_a_reason(st: StateV, mi: int, cached: nat, animating: bool)
    ensures
        is_stale(st, mi, cached, animating) <==> animating || st.monitors[mi].layout_dirty || cached
            != st.monitors.len(),
{
}

/// With fewer tags, a client of a workspace that is gone goes to the last one, and
/// every other client stays where it is.
pub proof fn clients_of_lost_tags_go_to_the_last(st: StateV, n: int, win: WindowId)
    requires
        0 < n <= usize::MAX,
        st.clients.contains_key(win),
    ensures
        ({
            let c = st.clients[win];
            let d = retagged(st, n).clients[win];
            &&& c.workspace < n ==> d == c
            &&& c.workspace >= n ==> d.workspace == n - 1
            &&& d == (Client { workspace: d.workspace, ..c })
            &&& retagged(st, n).clients.dom() == st.clients.dom()
        }),
{
}

} // verus!
