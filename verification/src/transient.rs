//! Ownership between windows: `WM_TRANSIENT_FOR` chains.

use crate::model::{Client, WindowId};
use crate::seqs::contains_window;
use std::collections::HashMap;
use vstd::prelude::*;

verus! {

broadcast use vstd::std_specs::hash::group_hash_axioms;

/// How many `transient_parent` links a single ownership question may follow.
///
/// The property is client-controlled and unvalidated: a client can point a
/// window at itself, or two windows at each other. The walk is therefore
/// bounded. Exceeding the bound is fail-safe: the deep window is simply not
/// recognised as owned.
pub const MAX_TRANSIENT_DEPTH: usize = 4;

/// The recorded parent of `win`, if it is a client and has one.
pub open spec fn parent(clients: Map<WindowId, Client>, win: WindowId) -> Option<WindowId> {
    if clients.contains_key(win) {
        clients[win].transient_parent
    } else {
        None
    }
}

/// The window `k` links up from `win`.
pub open spec fn ancestor(clients: Map<WindowId, Client>, win: WindowId, k: nat) -> Option<WindowId>
    decreases k,
{
    if k == 0 {
        Some(win)
    } else {
        match ancestor(clients, win, (k - 1) as nat) {
            Some(p) => parent(clients, p),
            None => None,
        }
    }
}

/// `k` links up from `win` stands one of `roots`, and it is a client still: a
/// window that is gone owns nothing.
pub open spec fn reaches_at(
    clients: Map<WindowId, Client>,
    win: WindowId,
    roots: Seq<WindowId>,
    k: nat,
) -> bool {
    match ancestor(clients, win, k) {
        Some(p) => clients.contains_key(p) && roots.contains(p),
        None => false,
    }
}

/// One of `roots` stands at most [`MAX_TRANSIENT_DEPTH`] links up from `win`,
/// and at least one.
pub open spec fn owned_by(
    clients: Map<WindowId, Client>,
    win: WindowId,
    roots: Seq<WindowId>,
) -> bool {
    exists|k: nat| 1 <= k <= MAX_TRANSIENT_DEPTH && #[trigger] reaches_at(clients, win, roots, k)
}

fn parent_of(clients: &HashMap<WindowId, Client>, win: WindowId) -> (r: Option<WindowId>)
    ensures
        r == parent(clients@, win),
{
    match clients.get(&win) {
        Some(c) => c.transient_parent,
        None => None,
    }
}

/// Whether `win`'s `transient_parent` chain reaches any window in `roots`,
/// following at most [`MAX_TRANSIENT_DEPTH`] links. A link that names a window
/// which is no longer a client ends the walk, also where it is one of `roots`.
pub fn transient_chain_reaches(
    clients: &HashMap<WindowId, Client>,
    win: WindowId,
    roots: &[WindowId],
) -> (b: bool)
    ensures
        b == owned_by(clients@, win, roots@),
{
    let mut cur: Option<WindowId> = parent_of(clients, win);
    let mut i: usize = 0;
    assert(ancestor(clients@, win, 0) == Some(win));
    assert(cur == ancestor(clients@, win, 1));
    while i < MAX_TRANSIENT_DEPTH
        invariant
            i <= MAX_TRANSIENT_DEPTH,
            cur == ancestor(clients@, win, (i + 1) as nat),
            forall|k: nat|
                1 <= k <= i ==> !#[trigger] reaches_at(clients@, win, roots@, k),
        decreases MAX_TRANSIENT_DEPTH - i,
    {
        match cur {
            Some(p) => {
                assert(reaches_at(clients@, win, roots@, (i + 1) as nat) == (clients@.contains_key(
                    p,
                ) && roots@.contains(p)));
                if clients.contains_key(&p) && contains_window(roots, p) {
                    return true;
                }
                cur = parent_of(clients, p);
            },
            None => {
                proof {
                    assert forall|k: nat| 1 <= k <= MAX_TRANSIENT_DEPTH implies !#[trigger]
                        reaches_at(clients@, win, roots@, k) by {
                        if k > i {
                            no_ancestor_above(clients@, win, (i + 1) as nat, k);
                        }
                    }
                }
                return false;
            },
        }
        i = i + 1;
    }
    false
}

/// A chain that ends has nothing above its end.
proof fn no_ancestor_above(clients: Map<WindowId, Client>, win: WindowId, j: nat, k: nat)
    requires
        j <= k,
        ancestor(clients, win, j) is None,
    ensures
        ancestor(clients, win, k) is None,
    decreases k - j,
{
    if j < k {
        no_ancestor_above(clients, win, j, (k - 1) as nat);
    }
}

/// An unmanaged window, and one without a recorded parent, is owned by nobody.
pub proof fn orphan_is_owned_by_nobody(
    clients: Map<WindowId, Client>,
    win: WindowId,
    roots: Seq<WindowId>,
)
    requires
        parent(clients, win) is None,
    ensures
        !owned_by(clients, win, roots),
{
    assert(ancestor(clients, win, 0) == Some(win));
    assert(ancestor(clients, win, 1) is None);
    assert forall|k: nat| 1 <= k <= MAX_TRANSIENT_DEPTH implies !#[trigger] reaches_at(
        clients,
        win,
        roots,
        k,
    ) by {
        no_ancestor_above(clients, win, 1, k);
    }
}

/// A window whose parent is no longer managed is owned by nobody, not even by that
/// parent.
pub proof fn destroyed_parent_owns_nothing(
    clients: Map<WindowId, Client>,
    win: WindowId,
    roots: Seq<WindowId>,
)
    requires
        parent(clients, win) matches Some(p) ==> !clients.contains_key(p),
    ensures
        !owned_by(clients, win, roots),
{
    assert(ancestor(clients, win, 0) == Some(win));
    assert(ancestor(clients, win, 1) == parent(clients, win));
    assert(ancestor(clients, win, 2) is None);
    assert forall|k: nat| 1 <= k <= MAX_TRANSIENT_DEPTH implies !#[trigger] reaches_at(
        clients,
        win,
        roots,
        k,
    ) by {
        if k >= 2 {
            no_ancestor_above(clients, win, 2, k);
        }
    }
}

/// Ownership only grows with the set of roots.
pub proof fn ownership_is_monotone_in_roots(
    clients: Map<WindowId, Client>,
    win: WindowId,
    roots: Seq<WindowId>,
    more: Seq<WindowId>,
)
    requires
        owned_by(clients, win, roots),
        forall|w: WindowId| #[trigger] roots.contains(w) ==> more.contains(w),
    ensures
        owned_by(clients, win, more),
{
    let k = choose|k: nat|
        1 <= k <= MAX_TRANSIENT_DEPTH && #[trigger] reaches_at(clients, win, roots, k);
    assert(reaches_at(clients, win, more, k));
}

/// A window belongs to a root just where one of the first four windows up its chain
/// of parents is that root, and all of them, up to it, are managed.
pub proof fn ownership_goes_up_four_parents(
    clients: Map<WindowId, Client>,
    win: WindowId,
    roots: Seq<WindowId>,
)
    ensures
        owned_by(clients, win, roots) <==> {
            let a = parent(clients, win);
            a is Some && clients.contains_key(a->0) && (roots.contains(a->0) || {
                let b = clients[a->0].transient_parent;
                b is Some && clients.contains_key(b->0) && (roots.contains(b->0) || {
                    let c = clients[b->0].transient_parent;
                    c is Some && clients.contains_key(c->0) && (roots.contains(c->0) || {
                        let d = clients[c->0].transient_parent;
                        d is Some && clients.contains_key(d->0) && roots.contains(d->0)
                    })
                })
            })
        },
{
    reveal_with_fuel(ancestor, 6);
    let a = ancestor(clients, win, 1);
    let b = ancestor(clients, win, 2);
    let c = ancestor(clients, win, 3);
    let d = ancestor(clients, win, 4);
    assert(a == parent(clients, win));
    if owned_by(clients, win, roots) {
        let k = choose|k: nat|
            1 <= k <= MAX_TRANSIENT_DEPTH && #[trigger] reaches_at(clients, win, roots, k);
        assert(k == 1 || k == 2 || k == 3 || k == 4);
    }
    if reaches_at(clients, win, roots, 1) || reaches_at(clients, win, roots, 2) || reaches_at(
        clients,
        win,
        roots,
        3,
    ) || reaches_at(clients, win, roots, 4) {
        assert(owned_by(clients, win, roots));
    }
}

} // verus!
