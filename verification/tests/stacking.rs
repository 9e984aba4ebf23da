use maverick::compositor::CompWin;
use maverick::geom::Rect;
use maverick::stacking::{stack_add_top, stack_remove, stack_restack};

const A: u32 = 0xA;
const B: u32 = 0xB;
const C: u32 = 0xC;

/// The viewport-cull test: a window fully past any screen edge must be
/// culled, while one that merely touches the edge (or sits within the 64px
/// grace margin) must still be drawn — else windows scrolling in/out of
/// view would pop. This is the predicate `render` uses to skip the GPU draw
/// for the dozens of off-screen ribbon windows, so it must be exact at the
/// boundary. The screen here is 1920x1080.
#[test]
fn viewport_cull_matches_edges() {
    const W: u32 = 1920;
    const H: u32 = 1080;
    // Fully on screen.
    assert!(!CompWin::offscreen(Rect::new(100, 100, 400, 300), W, H));
    // Touches the left edge.
    assert!(!CompWin::offscreen(Rect::new(0, 100, 400, 300), W, H));
    // Just inside the right edge (within the margin).
    assert!(!CompWin::offscreen(
        Rect::new((W as i32) - 60, 100, 400, 300),
        W,
        H
    ));
    // Fully to the left, beyond the margin.
    assert!(CompWin::offscreen(Rect::new(-200, 100, 100, 300), W, H));
    // Fully below.
    assert!(CompWin::offscreen(
        Rect::new(100, (H as i32) + 200, 100, 300),
        W,
        H
    ));
    // Entirely past the right edge.
    assert!(CompWin::offscreen(
        Rect::new((W as i32) + 100, 100, 100, 300),
        W,
        H
    ));
}

/// Two windows, B below A, and then B is raised. Raising is a bare
/// `ConfigureWindow(stack_mode: ABOVE)`, which asks for no `QueryTree`: the draw
/// order follows from the event alone.
#[test]
fn raising_b_draws_b_above_a() {
    let mut stack = vec![B, A]; // bottom→top: B at the bottom, A on top
    assert!(stack_restack(&mut stack, B, Some(A)));
    assert_eq!(stack, vec![A, B], "B must end up above A in the draw order");
}

#[test]
fn above_none_means_bottom_not_unknown() {
    // X encodes "went to the very bottom" as above_sibling = None. Treating
    // it as "no information" is what would let the synthetic ConfigureNotify
    // from apply_geom bury every window.
    let mut stack = vec![A, B, C];
    assert!(stack_restack(&mut stack, C, None));
    assert_eq!(stack, vec![C, A, B]);
}

#[test]
fn restack_is_idempotent() {
    let mut stack = vec![A, B, C];
    for _ in 0..3 {
        assert!(stack_restack(&mut stack, B, Some(A)));
        assert_eq!(
            stack,
            vec![A, B, C],
            "re-applying the same order is a no-op"
        );
    }
}

#[test]
fn moving_a_window_up_accounts_for_its_own_removal() {
    // The off-by-one that a naive remove-then-insert produces: `target` is
    // computed while `win` is still in the vector, so removing an entry
    // below the target shifts it.
    let mut stack = vec![A, B, C];
    assert!(stack_restack(&mut stack, A, Some(B)));
    assert_eq!(stack, vec![B, A, C], "A sits immediately above B");

    let mut stack = vec![A, B, C];
    assert!(stack_restack(&mut stack, A, Some(C)));
    assert_eq!(stack, vec![B, C, A], "A goes to the top");
}

#[test]
fn moving_a_window_down_keeps_the_sibling_relation() {
    let mut stack = vec![A, B, C];
    assert!(stack_restack(&mut stack, C, Some(A)));
    assert_eq!(stack, vec![A, C, B]);
}

#[test]
fn an_untracked_window_with_a_known_sibling_is_inserted_exactly() {
    let mut stack = vec![A, B];
    assert!(stack_restack(&mut stack, C, Some(A)));
    assert_eq!(stack, vec![A, C, B]);
}

#[test]
fn an_unknown_sibling_demands_a_resync_instead_of_a_guess() {
    let mut stack = vec![A, B];
    assert!(
        !stack_restack(&mut stack, B, Some(C)),
        "must report failure so the caller re-reads QueryTree"
    );
    assert!(
        !stack.contains(&B),
        "the stale entry is dropped so the resync starts clean"
    );
}

#[test]
fn never_duplicates_an_entry() {
    let mut stack = vec![A, B, C];
    for (win, above) in [(A, Some(C)), (B, None), (C, Some(A)), (A, Some(B))] {
        stack_restack(&mut stack, win, above);
    }
    let mut sorted = stack.clone();
    sorted.sort_unstable();
    sorted.dedup();
    assert_eq!(
        sorted.len(),
        stack.len(),
        "no window may appear twice: {stack:?}"
    );
}

#[test]
fn create_goes_on_top_and_destroy_forgets() {
    let mut stack = vec![A];
    stack_add_top(&mut stack, B);
    assert_eq!(stack, vec![A, B]);
    // A create for something already tracked must not duplicate it.
    stack_add_top(&mut stack, A);
    assert_eq!(stack, vec![B, A]);
    stack_remove(&mut stack, B);
    assert_eq!(stack, vec![A]);
    stack_remove(&mut stack, B); // removing twice is harmless
    assert_eq!(stack, vec![A]);
}
