//! The draw order, bottom to top, kept from the server's restack events.

use crate::seqs::{
    first_index, first_index_is, first_index_props, position_of, without, without_absent,
    without_contains, without_no_duplicates, without_window,
};
use vstd::prelude::*;

verus! {

/// `stack` with the first `win` taken out.
pub open spec fn minus_first(stack: Seq<u32>, win: u32) -> Seq<u32> {
    match first_index(stack, win) {
        Some(i) => stack.remove(i),
        None => stack,
    }
}

/// The order after the server put `win` directly above `above`, or at the
/// bottom where there is no sibling; `None` where the sibling is not in the
/// order.
pub open spec fn restacked(stack: Seq<u32>, win: u32, above: Option<u32>) -> Option<Seq<u32>> {
    let rest = minus_first(stack, win);
    match above {
        None => Some(seq![win] + rest),
        Some(sib) => if sib == win {
            Some(stack)
        } else if !stack.contains(sib) {
            None
        } else {
            let at = first_index(rest, sib)->0 + 1;
            Some(rest.take(at).push(win) + rest.skip(at))
        },
    }
}

/// `stack` without the entry at `i` is `stack` without `w`, where `w` stands
/// only there.
proof fn removal_is_without(stack: Seq<u32>, i: int)
    requires
        0 <= i < stack.len(),
        stack.no_duplicates(),
    ensures
        stack.remove(i) == without(stack, stack[i]),
    decreases stack.len(),
{
    let w = stack[i];
    reveal(Seq::filter);
    let front = stack.drop_last();
    if i == stack.len() - 1 {
        assert(!front.contains(w));
        without_absent(front, w);
        assert(stack.remove(i) =~= front);
    } else {
        assert(front.no_duplicates());
        removal_is_without(front, i);
        assert(stack.last() != w);
        assert(stack.remove(i) =~= front.remove(i).push(stack.last()));
    }
}

/// Where a window stands once another was taken out.
proof fn index_after_removal(stack: Seq<u32>, cur: int, sib: u32, sib_at: int)
    requires
        0 <= cur < stack.len(),
        first_index(stack, sib) == Some(sib_at),
        stack[cur] != sib,
    ensures
        first_index(stack.remove(cur), sib) == Some(
            if cur < sib_at {
                sib_at - 1
            } else {
                sib_at
            },
        ),
{
    first_index_props(stack, sib);
    let rest = stack.remove(cur);
    let at = if cur < sib_at {
        sib_at - 1
    } else {
        sib_at
    };
    assert(rest[at] == sib);
    assert forall|j: int| 0 <= j < at implies rest[j] != sib by {
        if j < cur {
            assert(rest[j] == stack[j]);
        } else {
            assert(rest[j] == stack[j + 1]);
        }
    }
    first_index_is(rest, sib, at);
}

/// In an order without duplicates, taking out the first is taking out all.
proof fn minus_first_is_without(stack: Seq<u32>, win: u32)
    requires
        stack.no_duplicates(),
    ensures
        minus_first(stack, win) == without(stack, win),
{
    first_index_props(stack, win);
    match first_index(stack, win) {
        Some(i) => removal_is_without(stack, i),
        None => without_absent(stack, win),
    }
}

/// Apply one restack of the server to a bottom-to-top order.
///
/// `above` is the sibling `win` now sits directly above; `None` means that it
/// went to the very bottom. Returns `false` where `above` names a window that is
/// not in the order: `win` is then forgotten, and the caller must read the order
/// anew, since no position can be inferred.
pub fn stack_restack(stack: &mut Vec<u32>, win: u32, above: Option<u32>) -> (ok: bool)
    ensures
        match restacked(old(stack)@, win, above) {
            Some(s) => ok && final(stack)@ == s,
            None => !ok && final(stack)@ == without(old(stack)@, win),
        },
{
    let ghost before = stack@;
    let target: usize = match above {
        None => 0,
        Some(sib) => {
            if sib == win {
                return true;
            }
            match position_of(stack, sib) {
                Some(i) => {
                    proof {
                        first_index_props(before, sib);
                    }
                    i + 1
                },
                None => {
                    proof {
                        first_index_props(before, sib);
                    }
                    *stack = without_window(stack, win);
                    return false;
                },
            }
        },
    };
    proof {
        first_index_props(before, win);
    }
    match position_of(stack, win) {
        Some(cur) => {
            stack.remove(cur);
            proof {
                if let Some(sib) = above {
                    index_after_removal(before, cur as int, sib, target - 1);
                }
            }
            let at: usize = if cur < target {
                target - 1
            } else {
                target
            };
            let ghost rest = stack@;
            stack.insert(at, win);
            assert(stack@ =~= rest.take(at as int).push(win) + rest.skip(at as int));
            if above.is_none() {
                assert(stack@ =~= seq![win] + rest);
            }
        },
        None => {
            let ghost rest = stack@;
            stack.insert(target, win);
            assert(stack@ =~= rest.take(target as int).push(win) + rest.skip(target as int));
            if above.is_none() {
                assert(stack@ =~= seq![win] + rest);
            }
        },
    }
    true
}

/// Put `win` on top, where the server places a newly created window.
pub fn stack_add_top(stack: &mut Vec<u32>, win: u32)
    ensures
        final(stack)@ == without(old(stack)@, win).push(win),
{
    *stack = without_window(stack, win);
    stack.push(win);
}

/// Forget `win` entirely.
pub fn stack_remove(stack: &mut Vec<u32>, win: u32)
    ensures
        final(stack)@ == without(old(stack)@, win),
{
    *stack = without_window(stack, win);
}

/// Where a restack succeeds with a sibling, the window stands directly above it.
pub proof fn restacked_window_sits_above_its_sibling(stack: Seq<u32>, win: u32, sib: u32)
    requires
        sib != win,
        stack.contains(sib),
    ensures
        restacked(stack, win, Some(sib)) matches Some(s) && exists|i: int|
            0 <= i < s.len() - 1 && s[i] == sib && #[trigger] s[i + 1] == win,
{
    let rest = minus_first(stack, win);
    first_index_props(stack, win);
    first_index_props(stack, sib);
    if let Some(cur) = first_index(stack, win) {
        index_after_removal(stack, cur, sib, first_index(stack, sib)->0);
    }
    first_index_props(rest, sib);
    let i = first_index(rest, sib)->0;
    let s = restacked(stack, win, Some(sib))->0;
    assert(s[i] == sib);
    assert(s[i + 1] == win);
}

/// A restack leaves no window twice in the order, keeps every other window, and
/// keeps the order of the others among themselves.
pub proof fn restacking_keeps_the_others(stack: Seq<u32>, win: u32, above: Option<u32>)
    requires
        stack.no_duplicates(),
        restacked(stack, win, above) is Some,
    ensures
        restacked(stack, win, above)->0.no_duplicates(),
        without(restacked(stack, win, above)->0, win) == without(stack, win),
{
    let rest = without(stack, win);
    let s = restacked(stack, win, above)->0;
    minus_first_is_without(stack, win);
    without_contains(stack, win);
    without_no_duplicates(stack, win);
    let at: int = match above {
        None => 0,
        Some(sib) => {
            first_index_props(rest, sib);
            first_index(rest, sib)->0 + 1
        },
    };
    if above != Some(win) {
        if above is None {
            assert(s =~= rest.take(0).push(win) + rest.skip(0));
        }
        assert(s =~= rest.take(at).push(win) + rest.skip(at));
        assert forall|i: int, j: int| 0 <= i < j < s.len() implies s[i] != s[j] by {
            if i == at {
                assert(s[j] == rest[j - 1]);
                assert(rest.contains(rest[j - 1]));
            } else if j == at {
                assert(s[i] == rest[i]);
                assert(rest.contains(rest[i]));
            } else {
                let a = if i < at {
                    i
                } else {
                    i - 1
                };
                let b = if j < at {
                    j
                } else {
                    j - 1
                };
                assert(s[i] == rest[a] && s[j] == rest[b]);
            }
        }
        assert(s.remove(at) =~= rest);
        removal_is_without(s, at);
    }
}

/// Applying the same restack again changes nothing.
pub proof fn restacking_twice_is_restacking_once(stack: Seq<u32>, win: u32, above: Option<u32>)
    requires
        stack.no_duplicates(),
        restacked(stack, win, above) is Some,
    ensures
        restacked(restacked(stack, win, above)->0, win, above) == restacked(stack, win, above),
{
    restacking_keeps_the_others(stack, win, above);
    minus_first_is_without(stack, win);
    minus_first_is_without(restacked(stack, win, above)->0, win);
    if let Some(sib) = above {
        if sib != win {
            restacked_window_sits_above_its_sibling(stack, win, sib);
            let s = restacked(stack, win, above)->0;
            let i = choose|i: int|
                0 <= i < s.len() - 1 && s[i] == sib && #[trigger] s[i + 1] == win;
            assert(s.contains(s[i]));
        }
    }
}

/// A window that entered on top is there once, above all others.
pub proof fn added_window_is_on_top_once(stack: Seq<u32>, win: u32)
    requires
        stack.no_duplicates(),
    ensures
        without(stack, win).push(win).no_duplicates(),
        without(stack, win).push(win).last() == win,
        without(without(stack, win).push(win), win) == without(stack, win),
{
    let rest = without(stack, win);
    without_contains(stack, win);
    without_no_duplicates(stack, win);
    let s = rest.push(win);
    assert forall|i: int, j: int| 0 <= i < j < s.len() implies s[i] != s[j] by {
        assert(rest.contains(rest[i]));
    }
    assert(s.remove(rest.len() as int) =~= rest);
    removal_is_without(s, rest.len() as int);
}

/// A restack without a sibling puts the window below all others; one above a
/// sibling that is not in the order is refused, and no other is.
pub proof fn restack_without_a_sibling_goes_to_the_bottom(stack: Seq<u32>, win: u32, sib: u32)
    ensures
        restacked(stack, win, None) is Some,
        restacked(stack, win, None)->0[0] == win,
        restacked(stack, win, Some(sib)) is None <==> sib != win && !stack.contains(sib),
        restacked(stack, win, Some(win)) == Some(stack),
{
}

} // verus!
