//! Keyboard: which keycodes a binding grabs and which binding a press means.

use crate::config::{bind_views, Action, ActionV, Cfg};
use crate::seqs::{distinct, distinct_has_no_duplicates};
use crate::xproto::{
    button_numbers, keycodes_per_modifier, modifier_bits, ButtonNumbers, ModifierBits,
};
use std::collections::HashMap;
use vstd::prelude::*;
use vstd::string::*;

verus! {

broadcast use vstd::std_specs::hash::group_hash_axioms;

// ---- Masks and keysyms ------------------------------------------------------

/// A keysym as bindings are indexed: a capital letter stands for its small one.
pub open spec fn normalized(k: u32) -> u32 {
    if 0x41 <= k <= 0x5a {
        (k + 0x20) as u32
    } else {
        k
    }
}

/// The keysym that bindings are indexed by.
pub fn normalize_ksym(k: u32) -> (r: u32)
    ensures
        r == normalized(k),
{
    if 0x41 <= k && k <= 0x5a {
        k + 0x20
    } else {
        k
    }
}

/// The modifiers of a key or button state: the locks and the bits that are no
/// modifiers (buttons, keyboard groups) removed.
pub open spec fn cleaned(state: u16, numlock: u16) -> u16 {
    state & !(numlock | 2u16) & 253u16
}

/// The modifiers of a key or button state, without NumLock and CapsLock and
/// without the bits that are no modifiers.
pub fn clean_mask(state: u16, numlock: u16) -> (r: u16)
    ensures
        r == cleaned(state, numlock),
{
    let m: ModifierBits = modifier_bits();
    assert(1u16 | 4u16 | 8u16 | 16u16 | 32u16 | 64u16 | 128u16 == 253u16) by (bit_vector);
    state & !(numlock | m.lock) & (m.shift | m.control | m.m1 | m.m2 | m.m3 | m.m4 | m.m5)
}

/// Neither lock, nor any bit that is no modifier, is left in a cleaned mask;
/// cleaning again changes nothing; and a lock held or not makes no difference.
pub proof fn cleaned_mask_ignores_the_locks(state: u16, numlock: u16)
    ensures
        cleaned(state, numlock) & numlock == 0,
        cleaned(state, numlock) & 2u16 == 0,
        cleaned(state, numlock) & 0xff00u16 == 0,
        cleaned(cleaned(state, numlock), numlock) == cleaned(state, numlock),
        cleaned(state | 2u16, numlock) == cleaned(state, numlock),
        cleaned(state | numlock, numlock) == cleaned(state, numlock),
{
    assert((state & !(numlock | 2u16) & 253u16) & numlock == 0 && (state & !(numlock | 2u16)
        & 253u16) & 2u16 == 0 && (state & !(numlock | 2u16) & 253u16) & 0xff00u16 == 0 && ((state
        & !(numlock | 2u16) & 253u16) & !(numlock | 2u16) & 253u16) == (state & !(numlock | 2u16)
        & 253u16) && ((state | 2u16) & !(numlock | 2u16) & 253u16) == (state & !(numlock | 2u16)
        & 253u16) && ((state | numlock) & !(numlock | 2u16) & 253u16) == (state & !(numlock | 2u16)
        & 253u16)) by (bit_vector);
}

/// What the locks may add to a mask.
pub open spec fn lock_states(numlock: u16) -> Seq<u16> {
    seq![0u16, numlock, 2u16, numlock | 2u16]
}

/// What the locks may add to a mask: nothing, NumLock, CapsLock, both.
pub fn mod_variants(numlock: u16) -> (r: [u16; 4])
    ensures
        r@ == lock_states(numlock),
{
    let lock: u16 = modifier_bits().lock;
    let r: [u16; 4] = [0, numlock, lock, numlock | lock];
    assert(r@ =~= lock_states(numlock));
    r
}

/// Each state of the locks once.
fn lock_variants(numlock: u16) -> (v: Vec<u16>)
    ensures
        v@ == distinct(lock_states(numlock)),
{
    let all: [u16; 4] = mod_variants(numlock);
    let mut v: Vec<u16> = Vec::new();
    let mut i: usize = 0;
    assert(lock_states(numlock).take(0) =~= Seq::<u16>::empty());
    while i < 4
        invariant
            i <= 4,
            all@ == lock_states(numlock),
            v@ == distinct(lock_states(numlock).take(i as int)),
        decreases 4 - i,
    {
        let x: u16 = all[i];
        proof {
            let t = lock_states(numlock).take(i as int + 1);
            assert(t.drop_last() =~= lock_states(numlock).take(i as int));
            assert(t.last() == x);
        }
        let mut known: bool = false;
        let mut j: usize = 0;
        while j < v.len()
            invariant
                j <= v.len(),
                known == v@.take(j as int).contains(x),
            decreases v.len() - j,
        {
            assert(v@.take(j as int + 1) =~= v@.take(j as int).push(v@[j as int]));
            if v[j] == x {
                known = true;
                assert(v@.take(j as int + 1)[j as int] == x);
            }
            proof {
                let a = v@.take(j as int);
                let b = v@.take(j as int + 1);
                if a.contains(x) {
                    let k = choose|k: int| 0 <= k < a.len() && a[k] == x;
                    assert(b[k] == x);
                }
                if b.contains(x) {
                    let k = choose|k: int| 0 <= k < b.len() && b[k] == x;
                    if k < j {
                        assert(a[k] == x);
                    }
                }
            }
            j = j + 1;
        }
        assert(v@.take(j as int) =~= v@);
        if !known {
            v.push(x);
        }
        i = i + 1;
    }
    assert(lock_states(numlock).take(4) =~= lock_states(numlock));
    v
}

// ---- Keycodes of a keysym ---------------------------------------------------

pub open spec fn smaller(a: int, b: int) -> int {
    if a <= b {
        a
    } else {
        b
    }
}

/// The keycodes, counted from `code` on, of those rows of `kpk` keysyms whose
/// first `width` columns hold `keysym`.
pub open spec fn codes_from(
    keysyms: Seq<u32>,
    code: int,
    kpk: int,
    width: int,
    keysym: u32,
) -> Seq<u8>
    decreases keysyms.len(),
{
    if keysyms.len() == 0 || kpk <= 0 {
        Seq::empty()
    } else {
        let n = smaller(kpk, keysyms.len() as int);
        let rest = codes_from(keysyms.skip(n), code + 1, kpk, width, keysym);
        if code <= 255 && keysyms.take(smaller(width, n)).contains(keysym) {
            seq![code as u8] + rest
        } else {
            rest
        }
    }
}

/// The keycodes whose unshifted or shifted column of the first group holds the
/// keysym.
pub open spec fn group1_codes(keysyms: Seq<u32>, min: u8, kpk: usize, keysym: u32) -> Seq<u8> {
    codes_from(keysyms, min as int, kpk as int, 2, keysym)
}

/// The keycodes any column of which holds the keysym.
pub open spec fn any_codes(keysyms: Seq<u32>, min: u8, kpk: usize, keysym: u32) -> Seq<u8> {
    codes_from(keysyms, min as int, kpk as int, kpk as int, keysym)
}

/// There are no keycodes above 255.
proof fn no_codes_above(keysyms: Seq<u32>, code: int, kpk: int, width: int, keysym: u32)
    requires
        code > 255,
    ensures
        codes_from(keysyms, code, kpk, width, keysym).len() == 0,
    decreases keysyms.len(),
{
    if keysyms.len() > 0 && kpk > 0 {
        let n = smaller(kpk, keysyms.len() as int);
        no_codes_above(keysyms.skip(n), code + 1, kpk, width, keysym);
    }
}

fn range_contains(v: &[u32], from: usize, to: usize, x: u32) -> (b: bool)
    requires
        from <= to <= v@.len(),
    ensures
        b == v@.subrange(from as int, to as int).contains(x),
{
    let ghost part = v@.subrange(from as int, to as int);
    let mut i: usize = from;
    while i < to
        invariant
            from <= i <= to <= v@.len(),
            part == v@.subrange(from as int, to as int),
            forall|j: int| 0 <= j < i - from ==> part[j] != x,
        decreases to - i,
    {
        assert(part[i - from] == v@[i as int]);
        if v[i] == x {
            return true;
        }
        i = i + 1;
    }
    false
}

fn scan_codes(keysyms: &[u32], min: u8, kpk: usize, width: usize, keysym: u32) -> (out: Vec<u8>)
    ensures
        out@ == codes_from(keysyms@, min as int, kpk as int, width as int, keysym),
{
    let mut out: Vec<u8> = Vec::new();
    if kpk == 0 {
        return out;
    }
    let ghost whole = codes_from(keysyms@, min as int, kpk as int, width as int, keysym);
    let len: usize = keysyms.len();
    let mut code: u16 = min as u16;
    let mut pos: usize = 0;
    assert(keysyms@.skip(0) =~= keysyms@);
    assert(out@ + whole =~= whole);
    while pos < len && code <= 255
        invariant
            kpk > 0,
            len == keysyms@.len(),
            pos <= len,
            code <= 256,
            whole == out@ + codes_from(
                keysyms@.skip(pos as int),
                code as int,
                kpk as int,
                width as int,
                keysym,
            ),
        decreases len - pos,
    {
        let left: usize = len - pos;
        let n: usize = if kpk <= left {
            kpk
        } else {
            left
        };
        let w: usize = if width <= n {
            width
        } else {
            n
        };
        let ghost tail = keysyms@.skip(pos as int);
        assert(tail.take(w as int) =~= keysyms@.subrange(pos as int, pos + w));
        assert(tail.skip(n as int) =~= keysyms@.skip(pos + n));
        let ghost rest = codes_from(
            keysyms@.skip(pos + n),
            code + 1,
            kpk as int,
            width as int,
            keysym,
        );
        let ghost before = out@;
        if range_contains(keysyms, pos, pos + w, keysym) {
            out.push(code as u8);
            assert(before + (seq![code as u8] + rest) =~= out@ + rest);
        }
        pos = pos + n;
        code = code + 1;
    }
    proof {
        let tail = keysyms@.skip(pos as int);
        if code > 255 {
            no_codes_above(tail, code as int, kpk as int, width as int, keysym);
        }
        assert(whole =~= out@);
    }
    out
}

/// Keycodes whose first group produces `keysym`: the unshifted and the shifted
/// column only.
///
/// The first group is the only part of the core keymap with an unambiguous
/// meaning: the columns after it hold either a second layout or further levels,
/// key by key.
pub fn keysym_to_codes_group1(keysyms: &[u32], min: u8, kpk: usize, keysym: u32) -> (out: Vec<u8>)
    ensures
        out@ == group1_codes(keysyms@, min, kpk, keysym),
{
    scan_codes(keysyms, min, kpk, 2, keysym)
}

/// Keycodes that produce `keysym` in any column.
pub fn keysym_to_codes_any(keysyms: &[u32], min: u8, kpk: usize, keysym: u32) -> (out: Vec<u8>)
    ensures
        out@ == any_codes(keysyms@, min, kpk, keysym),
{
    scan_codes(keysyms, min, kpk, kpk, keysym)
}

// ---- The grabs --------------------------------------------------------------

/// What to ask the server for.
#[derive(Debug)]
pub struct KeyGrabPlan {
    /// Modifier mask, bound keysym and keycode of each grab; no mask and keycode
    /// occur together twice.
    pub grabs: Vec<(u16, u32, u8)>,
    /// Keycodes grabbed for keysyms that the first group cannot reach, with the
    /// normalised keysyms they were grabbed for.
    pub code_bindings: HashMap<u8, Vec<u32>>,
    /// Bindings whose keysym does not exist anywhere in the layout.
    pub missing: Vec<(u16, u32)>,
}

/// A [`KeyGrabPlan`], mathematically.
#[verifier::ext_equal]
pub struct KeyGrabPlanV {
    pub grabs: Seq<(u16, u32, u8)>,
    pub code_bindings: Map<u8, Seq<u32>>,
    pub missing: Seq<(u16, u32)>,
}

/// The lists of a table, mathematically.
pub open spec fn lists(m: Map<u8, Vec<u32>>) -> Map<u8, Seq<u32>> {
    m.map_values(|v: Vec<u32>| v@)
}

impl View for KeyGrabPlan {
    type V = KeyGrabPlanV;

    open spec fn view(&self) -> KeyGrabPlanV {
        KeyGrabPlanV {
            grabs: self.grabs@,
            code_bindings: lists(self.code_bindings@),
            missing: self.missing@,
        }
    }
}

/// `list` with `x` at its end, unless it is in it.
pub open spec fn listed(list: Seq<u32>, x: u32) -> Seq<u32> {
    if list.contains(x) {
        list
    } else {
        list.push(x)
    }
}

/// The keysyms recorded for a keycode.
pub open spec fn recorded(t: Map<u8, Seq<u32>>, code: u8) -> Seq<u32> {
    if t.dom().contains(code) {
        t[code]
    } else {
        Seq::empty()
    }
}

/// The mask and the keycode are grabbed together.
pub open spec fn grabbed(grabs: Seq<(u16, u32, u8)>, mask: u16, code: u8) -> bool {
    exists|i: int| 0 <= i < grabs.len() && (#[trigger] grabs[i]).0 == mask && grabs[i].2 == code
}

impl KeyGrabPlanV {
    pub open spec fn empty() -> KeyGrabPlanV {
        KeyGrabPlanV { grabs: Seq::empty(), code_bindings: Map::empty(), missing: Seq::empty() }
    }

    /// With one more keycode grabbed for a binding; `fallback` records what for.
    pub open spec fn with_code(
        self,
        mask: u16,
        keysym: u32,
        code: u8,
        fallback: bool,
    ) -> KeyGrabPlanV {
        KeyGrabPlanV {
            grabs: if grabbed(self.grabs, mask, code) {
                self.grabs
            } else {
                self.grabs.push((mask, keysym, code))
            },
            code_bindings: if fallback {
                self.code_bindings.insert(
                    code,
                    listed(recorded(self.code_bindings, code), normalized(keysym)),
                )
            } else {
                self.code_bindings
            },
            missing: self.missing,
        }
    }

    /// With each of the keycodes grabbed for a binding.
    pub open spec fn with_codes(
        self,
        mask: u16,
        keysym: u32,
        codes: Seq<u8>,
        fallback: bool,
    ) -> KeyGrabPlanV
        decreases codes.len(),
    {
        if codes.len() == 0 {
            self
        } else {
            self.with_codes(mask, keysym, codes.drop_last(), fallback).with_code(
                mask,
                keysym,
                codes.last(),
                fallback,
            )
        }
    }
}

/// The plan for the bindings, one after the other.
pub open spec fn plan_of(
    keysyms: Seq<u32>,
    min: u8,
    kpk: usize,
    binds: Seq<(u16, u32)>,
) -> KeyGrabPlanV
    decreases binds.len(),
{
    if binds.len() == 0 || kpk == 0 {
        KeyGrabPlanV::empty()
    } else {
        let p = plan_of(keysyms, min, kpk, binds.drop_last());
        let (mask, keysym) = binds.last();
        let near = group1_codes(keysyms, min, kpk, keysym);
        let far = any_codes(keysyms, min, kpk, keysym);
        if near.len() > 0 {
            p.with_codes(mask, keysym, near, false)
        } else if far.len() > 0 {
            p.with_codes(mask, keysym, far, true)
        } else {
            KeyGrabPlanV { missing: p.missing.push((mask, keysym)), ..p }
        }
    }
}

fn is_grabbed(grabs: &Vec<(u16, u32, u8)>, mask: u16, code: u8) -> (b: bool)
    ensures
        b == grabbed(grabs@, mask, code),
{
    let mut i: usize = 0;
    while i < grabs.len()
        invariant
            i <= grabs.len(),
            forall|j: int|
                0 <= j < i ==> !((#[trigger] grabs@[j]).0 == mask && grabs@[j].2 == code),
        decreases grabs.len() - i,
    {
        if grabs[i].0 == mask && grabs[i].2 == code {
            return true;
        }
        i = i + 1;
    }
    false
}

fn record(table: &mut HashMap<u8, Vec<u32>>, code: u8, keysym: u32)
    ensures
        lists(final(table)@) == lists(old(table)@).insert(
            code,
            listed(recorded(lists(old(table)@), code), keysym),
        ),
{
    let ghost before = table@;
    let mut list: Vec<u32> = match table.remove(&code) {
        Some(list) => list,
        None => Vec::new(),
    };
    assert(list@ == recorded(lists(before), code));
    if !range_contains(&list, 0, list.len(), keysym) {
        assert(list@.subrange(0, list@.len() as int) =~= list@);
        list.push(keysym);
    } else {
        assert(list@.subrange(0, list@.len() as int) =~= list@);
    }
    table.insert(code, list);
    proof {
        assert(lists(table@) =~= lists(before).insert(
            code,
            listed(recorded(lists(before), code), keysym),
        ));
    }
}

impl KeyGrabPlan {
    fn grab_codes(&mut self, mask: u16, keysym: u32, codes: &Vec<u8>, fallback: bool)
        ensures
            final(self)@ == old(self)@.with_codes(mask, keysym, codes@, fallback),
    {
        let ghost start = self@;
        let ks: u32 = normalize_ksym(keysym);
        let mut i: usize = 0;
        while i < codes.len()
            invariant
                i <= codes.len(),
                ks == normalized(keysym),
                self@ == start.with_codes(mask, keysym, codes@.take(i as int), fallback),
            decreases codes.len() - i,
        {
            let code: u8 = codes[i];
            let ghost p = self@;
            if fallback {
                record(&mut self.code_bindings, code, ks);
            }
            if !is_grabbed(&self.grabs, mask, code) {
                self.grabs.push((mask, keysym, code));
            }
            proof {
                assert(self@ =~= p.with_code(mask, keysym, code, fallback));
                let t = codes@.take(i as int + 1);
                assert(t.drop_last() =~= codes@.take(i as int));
                assert(t.last() == code);
            }
            i = i + 1;
        }
        assert(codes@.take(i as int) =~= codes@);
    }
}

/// Resolve every binding to the keycodes to grab.
///
/// A keysym is looked for in the first group. Where it is not there, every
/// column is searched, and the keycodes found are recorded so that a press of
/// them can still be resolved. Where it exists nowhere, it is reported: a key
/// that could not be dispatched is never grabbed.
pub fn plan_key_grabs(keysyms: &[u32], min: u8, kpk: usize, binds: &[(u16, u32)]) -> (plan:
    KeyGrabPlan)
    ensures
        plan@ == plan_of(keysyms@, min, kpk, binds@),
{
    let mut plan: KeyGrabPlan = KeyGrabPlan {
        grabs: Vec::new(),
        code_bindings: HashMap::new(),
        missing: Vec::new(),
    };
    assert(plan@ =~= KeyGrabPlanV::empty()) by {
        assert(lists(plan.code_bindings@) =~= Map::<u8, Seq<u32>>::empty());
    }
    if kpk == 0 {
        return plan;
    }
    let mut i: usize = 0;
    while i < binds.len()
        invariant
            i <= binds.len(),
            kpk > 0,
            plan@ == plan_of(keysyms@, min, kpk, binds@.take(i as int)),
        decreases binds.len() - i,
    {
        let (mask, keysym): (u16, u32) = binds[i];
        proof {
            let t = binds@.take(i as int + 1);
            assert(t.drop_last() =~= binds@.take(i as int));
            assert(t.last() == (mask, keysym));
        }
        let near: Vec<u8> = keysym_to_codes_group1(keysyms, min, kpk, keysym);
        if near.len() > 0 {
            plan.grab_codes(mask, keysym, &near, false);
        } else {
            let far: Vec<u8> = keysym_to_codes_any(keysyms, min, kpk, keysym);
            if far.len() > 0 {
                plan.grab_codes(mask, keysym, &far, true);
            } else {
                let ghost p = plan@;
                plan.missing.push((mask, keysym));
                assert(plan@ =~= (KeyGrabPlanV { missing: p.missing.push((mask, keysym)), ..p }));
            }
        }
        i = i + 1;
    }
    assert(binds@.take(i as int) =~= binds@);
    plan
}

/// A request to grab a key.
#[derive(Debug, Clone, Copy, PartialEq, Eq, Structural)]
pub struct KeyGrab {
    pub mask: u16,
    pub code: u8,
    /// The bound keysym, for diagnostics.
    pub keysym: u32,
    /// A rejection is worth a warning: the variant without locks.
    pub checked: bool,
}

/// The requests for one grab: without locks first, then each other state of the
/// locks once.
pub open spec fn requests_for(g: (u16, u32, u8), numlock: u16) -> Seq<KeyGrab> {
    distinct(lock_states(numlock)).map_values(
        |v: u16|
            KeyGrab { mask: g.0 | v, code: g.2, keysym: g.1, checked: v == 0 },
    )
}

/// The requests for the grabs, one grab after the other.
pub open spec fn grab_requests(grabs: Seq<(u16, u32, u8)>, numlock: u16) -> Seq<KeyGrab>
    decreases grabs.len(),
{
    if grabs.len() == 0 {
        Seq::empty()
    } else {
        grab_requests(grabs.drop_last(), numlock) + requests_for(grabs.last(), numlock)
    }
}

impl KeyGrabPlan {
    /// The grab requests of the plan, in every state of the locks.
    pub fn requests(&self, numlock: u16) -> (out: Vec<KeyGrab>)
        ensures
            out@ == grab_requests(self@.grabs, numlock),
    {
        let variants: Vec<u16> = lock_variants(numlock);
        let mut out: Vec<KeyGrab> = Vec::new();
        let mut i: usize = 0;
        while i < self.grabs.len()
            invariant
                i <= self.grabs.len(),
                variants@ == distinct(lock_states(numlock)),
                out@ == grab_requests(self.grabs@.take(i as int), numlock),
            decreases self.grabs.len() - i,
        {
            let (mask, keysym, code): (u16, u32, u8) = self.grabs[i];
            let ghost g = self.grabs@[i as int];
            let ghost before = out@;
            let mut j: usize = 0;
            assert(out@ =~= before + requests_for(g, numlock).take(0));
            while j < variants.len()
                invariant
                    j <= variants.len(),
                    variants@ == distinct(lock_states(numlock)),
                    g == (mask, keysym, code),
                    out@ == before + requests_for(g, numlock).take(j as int),
                decreases variants.len() - j,
            {
                let v: u16 = variants[j];
                out.push(KeyGrab { mask: mask | v, code, keysym, checked: v == 0 });
                assert(out@ =~= before + requests_for(g, numlock).take(j as int + 1));
                j = j + 1;
            }
            proof {
                assert(requests_for(g, numlock).take(j as int) =~= requests_for(g, numlock));
                let t = self.grabs@.take(i as int + 1);
                assert(t.drop_last() =~= self.grabs@.take(i as int));
                assert(t.last() == g);
            }
            i = i + 1;
        }
        assert(self.grabs@.take(i as int) =~= self.grabs@);
        out
    }
}

/// A request to grab a pointer button on a window.
#[derive(Debug, Clone, Copy, PartialEq, Eq, Structural)]
pub struct ButtonGrab {
    /// The button, 1 for the left one.
    pub button: u8,
    pub mask: u16,
}

/// Super with the left and with the right button, in every state of the locks.
pub open spec fn drag_grabs(numlock: u16) -> Seq<ButtonGrab> {
    let m = lock_states(numlock);
    Seq::new(
        8,
        |i: int|
            ButtonGrab {
                button: if i % 2 == 0 {
                    1u8
                } else {
                    3u8
                },
                mask: 64u16 | m[i / 2],
            },
    )
}

/// The grabs by which a window is moved and resized with the pointer: Super with
/// the left and with the right button, in every state of the locks.
pub fn button_grabs(numlock: u16) -> (out: Vec<ButtonGrab>)
    ensures
        out@ == drag_grabs(numlock),
{
    let sup: u16 = modifier_bits().m4;
    let buttons: ButtonNumbers = button_numbers();
    let all: [u16; 4] = mod_variants(numlock);
    let mut out: Vec<ButtonGrab> = Vec::new();
    let mut i: usize = 0;
    while i < 4
        invariant
            i <= 4,
            sup == 64,
            buttons == ButtonNumbers::of_protocol(),
            all@ == lock_states(numlock),
            out@ == drag_grabs(numlock).take(2 * i as int),
        decreases 4 - i,
    {
        let m: u16 = sup | all[i];
        out.push(ButtonGrab { button: buttons.m1, mask: m });
        out.push(ButtonGrab { button: buttons.m3, mask: m });
        proof {
            let d = drag_grabs(numlock);
            let k = 2 * i as int;
            assert(k / 2 == i && (k + 1) / 2 == i && k % 2 == 0 && (k + 1) % 2 == 1);
            assert(d[k] == ButtonGrab { button: 1, mask: m });
            assert(d[k + 1] == ButtonGrab { button: 3, mask: m });
            assert(out@ =~= d.take(k + 2));
        }
        i = i + 1;
    }
    assert(drag_grabs(numlock).take(8) =~= drag_grabs(numlock));
    out
}

// ---- The bindings -----------------------------------------------------------

/// What a mask and a normalised keysym are bound to: by the first binding of
/// them.
pub open spec fn bound(binds: Seq<(u16, u32, ActionV)>, mods: u16, keysym: u32) -> Option<ActionV>
    decreases binds.len(),
{
    if binds.len() == 0 {
        None
    } else {
        match bound(binds.drop_last(), mods, keysym) {
            Some(a) => Some(a),
            None => if binds.last().0 == mods && normalized(binds.last().1) == keysym {
                Some(binds.last().2)
            } else {
                None
            },
        }
    }
}

/// Actions by mask and normalised keysym.
#[derive(Debug)]
pub struct Keymap {
    entries: Vec<(u16, u32, Action)>,
}

impl Keymap {
    pub closed spec fn entries(&self) -> Seq<(u16, u32, ActionV)> {
        bind_views(self.entries@)
    }

    /// What the mask and the keysym are bound to.
    pub open spec fn lookup(&self, mods: u16, keysym: u32) -> Option<ActionV> {
        bound(self.entries(), mods, keysym)
    }

    /// No mask and keysym have two entries, and every keysym is normalised.
    pub open spec fn well_formed(&self) -> bool {
        let e = self.entries();
        &&& forall|i: int, j: int|
            0 <= i < j < e.len() ==> !((#[trigger] e[i]).0 == (#[trigger] e[j]).0 && e[i].1
                == e[j].1)
        &&& forall|i: int| 0 <= i < e.len() ==> normalized((#[trigger] e[i]).1) == e[i].1
    }

    /// The action bound to a mask and a normalised keysym.
    pub fn get(&self, key: &(u16, u32)) -> (r: Option<&Action>)
        requires
            self.well_formed(),
        ensures
            match r {
                Some(a) => self.lookup(key.0, key.1) == Some(a@),
                None => self.lookup(key.0, key.1) is None,
            },
    {
        let ghost e = self.entries();
        let mut i: usize = 0;
        assert(e.take(0) =~= Seq::<(u16, u32, ActionV)>::empty());
        while i < self.entries.len()
            invariant
                i <= self.entries.len(),
                e == self.entries(),
                e == bind_views(self.entries@),
                self.well_formed(),
                bound(e.take(i as int), key.0, key.1) is None,
            decreases self.entries.len() - i,
        {
            let entry: &(u16, u32, Action) = &self.entries[i];
            proof {
                let t = e.take(i as int + 1);
                assert(t.drop_last() =~= e.take(i as int));
                assert(t.last() == e[i as int]);
                assert(normalized(e[i as int].1) == e[i as int].1);
            }
            if entry.0 == key.0 && entry.1 == key.1 {
                proof {
                    bound_keeps_first(e, i as int + 1, key.0, key.1);
                }
                return Some(&entry.2);
            }
            i = i + 1;
        }
        assert(e.take(i as int) =~= e);
        None
    }

    /// Whether a mask and a normalised keysym are bound.
    pub fn contains_key(&self, key: &(u16, u32)) -> (b: bool)
        requires
            self.well_formed(),
        ensures
            b == self.lookup(key.0, key.1) is Some,
    {
        self.get(key).is_some()
    }
}

/// Later bindings do not change what an earlier one bound.
proof fn bound_keeps_first(binds: Seq<(u16, u32, ActionV)>, n: int, mods: u16, keysym: u32)
    requires
        0 <= n <= binds.len(),
        bound(binds.take(n), mods, keysym) is Some,
    ensures
        bound(binds, mods, keysym) == bound(binds.take(n), mods, keysym),
    decreases binds.len(),
{
    if n < binds.len() {
        assert(binds.drop_last().take(n) =~= binds.take(n));
        bound_keeps_first(binds.drop_last(), n, mods, keysym);
    } else {
        assert(binds.take(n) =~= binds);
    }
}

/// A mask and a keysym are bound exactly where some binding is for them.
pub proof fn bound_where_some_binding(binds: Seq<(u16, u32, ActionV)>, mods: u16, keysym: u32)
    ensures
        bound(binds, mods, keysym) is Some <==> exists|i: int|
            0 <= i < binds.len() && (#[trigger] binds[i]).0 == mods && normalized(binds[i].1)
                == keysym,
    decreases binds.len(),
{
    if binds.len() > 0 {
        let t = binds.drop_last();
        bound_where_some_binding(t, mods, keysym);
        if bound(t, mods, keysym) is Some {
            let i = choose|i: int|
                0 <= i < t.len() && (#[trigger] t[i]).0 == mods && normalized(t[i].1) == keysym;
            assert(binds[i] == t[i]);
        } else {
            assert forall|i: int|
                0 <= i < binds.len() && (#[trigger] binds[i]).0 == mods && normalized(binds[i].1)
                    == keysym implies i == binds.len() - 1 by {
                if i < t.len() {
                    assert(t[i] == binds[i]);
                }
            }
            assert(binds.last() == binds[binds.len() - 1]);
        }
    }
}

/// The bindings of a configuration by mask and normalised keysym; of two for the
/// same, the first.
pub fn build_keymap(cfg: &Cfg) -> (map: Keymap)
    ensures
        map.well_formed(),
        forall|mods: u16, keysym: u32| #[trigger]
            map.lookup(mods, keysym) == bound(bind_views(cfg.keybinds@), mods, keysym),
{
    let ghost binds = bind_views(cfg.keybinds@);
    let mut map: Keymap = Keymap { entries: Vec::new() };
    let mut i: usize = 0;
    assert(map.entries() =~= Seq::<(u16, u32, ActionV)>::empty());
    assert(binds.take(0) =~= Seq::<(u16, u32, ActionV)>::empty());
    while i < cfg.keybinds.len()
        invariant
            i <= cfg.keybinds.len(),
            binds == bind_views(cfg.keybinds@),
            map.well_formed(),
            forall|mods: u16, keysym: u32| #[trigger]
                map.lookup(mods, keysym) == bound(binds.take(i as int), mods, keysym),
        decreases cfg.keybinds.len() - i,
    {
        let bind: &(u16, u32, Action) = &cfg.keybinds[i];
        let ks: u32 = normalize_ksym(bind.1);
        let ghost e = map.entries();
        let ghost t = binds.take(i as int + 1);
        let ghost before = map;
        proof {
            assert(t.drop_last() =~= binds.take(i as int));
            assert(t.last() == (bind.0, bind.1, bind.2@));
        }
        if !map.contains_key(&(bind.0, ks)) {
            let a: Action = bind.2.copy();
            map.entries.push((bind.0, ks, a));
            proof {
                assert(map.entries() =~= e.push((bind.0, ks, bind.2@)));
                assert(map.entries().drop_last() =~= e);
                bound_where_some_binding(e, bind.0, ks);
                assert forall|p: int, q: int| 0 <= p < q < map.entries().len() implies !((
                #[trigger] map.entries()[p]).0 == (#[trigger] map.entries()[q]).0
                    && map.entries()[p].1 == map.entries()[q].1) by {
                    assert(map.entries()[p] == e[p]);
                    if q < e.len() {
                        assert(map.entries()[q] == e[q]);
                    }
                }
                assert forall|p: int| 0 <= p < map.entries().len() implies normalized(
                    (#[trigger] map.entries()[p]).1,
                ) == map.entries()[p].1 by {
                    if p < e.len() {
                        assert(map.entries()[p] == e[p]);
                    }
                }
            }
        }
        proof {
            assert forall|mods: u16, keysym: u32| #[trigger]
                map.lookup(mods, keysym) == bound(t, mods, keysym) by {
                assert(before.lookup(mods, keysym) == bound(binds.take(i as int), mods, keysym));
            }
        }
        i = i + 1;
    }
    assert(binds.take(i as int) =~= binds);
    map
}

/// The first of the keysyms that is bound under the mask.
pub open spec fn first_bound(keymap: &Keymap, mods: u16, keysyms: Seq<u32>) -> Option<
    (u16, u32, ActionV),
>
    decreases keysyms.len(),
{
    if keysyms.len() == 0 {
        None
    } else {
        match keymap.lookup(mods, keysyms[0]) {
            Some(a) => Some((mods, keysyms[0], a)),
            None => first_bound(keymap, mods, keysyms.skip(1)),
        }
    }
}

/// The keysyms a press may mean, in the order they are tried: unshifted, shifted,
/// then those the keycode was grabbed for.
pub open spec fn candidates(
    code_bindings: Map<u8, Seq<u32>>,
    code: u8,
    primary: u32,
    shifted: u32,
) -> Seq<u32> {
    let a = if normalized(primary) != 0 {
        seq![normalized(primary)]
    } else {
        Seq::empty()
    };
    let b = if normalized(shifted) != 0 {
        seq![normalized(shifted)]
    } else {
        Seq::empty()
    };
    a + b + recorded(code_bindings, code)
}

fn find_bound(keymap: &Keymap, mods: u16, keysyms: &Vec<u32>) -> (r: Option<((u16, u32), Action)>)
    requires
        keymap.well_formed(),
    ensures
        match r {
            Some((key, a)) => first_bound(keymap, mods, keysyms@) == Some((key.0, key.1, a@)),
            None => first_bound(keymap, mods, keysyms@) is None,
        },
{
    let mut i: usize = 0;
    assert(keysyms@.skip(0) =~= keysyms@);
    while i < keysyms.len()
        invariant
            i <= keysyms.len(),
            keymap.well_formed(),
            first_bound(keymap, mods, keysyms@) == first_bound(
                keymap,
                mods,
                keysyms@.skip(i as int),
            ),
        decreases keysyms.len() - i,
    {
        let ks: u32 = keysyms[i];
        assert(keysyms@.skip(i as int).skip(1) =~= keysyms@.skip(i as int + 1));
        match keymap.get(&(mods, ks)) {
            Some(a) => {
                return Some(((mods, ks), a.copy()));
            },
            None => {},
        }
        i = i + 1;
    }
    None
}

/// Match a press against the bindings: the unshifted keysym of the first group,
/// then the shifted one, then the keysyms recorded for keycodes that were
/// grabbed beyond the first group. Returns the mask and keysym that matched, with
/// the action.
pub fn resolve_binding(
    keymap: &Keymap,
    code_bindings: &HashMap<u8, Vec<u32>>,
    mods: u16,
    code: u8,
    ks_primary: u32,
    ks_shifted: u32,
) -> (r: Option<((u16, u32), Action)>)
    requires
        keymap.well_formed(),
    ensures
        match r {
            Some((key, a)) => first_bound(
                keymap,
                mods,
                candidates(lists(code_bindings@), code, ks_primary, ks_shifted),
            ) == Some((key.0, key.1, a@)),
            None => first_bound(
                keymap,
                mods,
                candidates(lists(code_bindings@), code, ks_primary, ks_shifted),
            ) is None,
        },
{
    let mut all: Vec<u32> = Vec::new();
    let a: u32 = normalize_ksym(ks_primary);
    if a != 0 {
        all.push(a);
    }
    let b: u32 = normalize_ksym(ks_shifted);
    if b != 0 {
        all.push(b);
    }
    let ghost front = all@;
    match code_bindings.get(&code) {
        Some(list) => {
            let mut i: usize = 0;
            assert(all@ =~= front + list@.take(0));
            while i < list.len()
                invariant
                    i <= list.len(),
                    all@ == front + list@.take(i as int),
                decreases list.len() - i,
            {
                all.push(list[i]);
                assert(all@ =~= front + list@.take(i as int + 1));
                i = i + 1;
            }
            assert(list@.take(i as int) =~= list@);
        },
        None => {},
    }
    assert(all@ =~= candidates(lists(code_bindings@), code, ks_primary, ks_shifted));
    find_bound(keymap, mods, &all)
}

/// A keysym that is bound and among the candidates makes the press resolve.
pub proof fn bound_candidate_resolves(keymap: &Keymap, mods: u16, keysyms: Seq<u32>, i: int)
    requires
        0 <= i < keysyms.len(),
        keymap.lookup(mods, keysyms[i]) is Some,
    ensures
        first_bound(keymap, mods, keysyms) is Some,
    decreases keysyms.len(),
{
    if keymap.lookup(mods, keysyms[0]) is None {
        assert(keysyms.skip(1)[i - 1] == keysyms[i]);
        bound_candidate_resolves(keymap, mods, keysyms.skip(1), i - 1);
    }
}

// ---- Reading the keymap -----------------------------------------------------

/// The column of the first group that Shift and CapsLock select: they cancel
/// each other out, and a keymap of one column has no other.
pub open spec fn group1_column(shift: bool, lock: bool, kpk: usize) -> usize {
    if shift != lock && kpk > 1 {
        1
    } else {
        0
    }
}

/// The column a press is read from, clamped to the first group.
pub fn dispatch_col(shift: bool, lock: bool, kpk: usize) -> (col: usize)
    ensures
        col == group1_column(shift, lock, kpk),
        col <= 1,
        kpk > 0 ==> col < kpk,
{
    if shift != lock && kpk > 1 {
        1
    } else {
        0
    }
}

/// The keysym of a keycode in a column, the last column standing for those after
/// it; 0 outside the keymap.
pub open spec fn keysym_of(keysyms: Seq<u32>, min: u8, kpk: usize, code: u8, col: usize) -> u32 {
    let c = smaller(col as int, kpk - 1);
    let at = (code - min) * kpk + c;
    if kpk == 0 || code < min || at >= keysyms.len() {
        0
    } else {
        keysyms[at]
    }
}

/// The keycode is one that can be on the modifier map and has the NumLock keysym
/// in some column.
pub open spec fn is_numlock(keysyms: Seq<u32>, min: u8, max: u8, kpk: usize, code: u8) -> bool {
    &&& code != 0
    &&& min <= code <= max
    &&& keysyms.subrange((code - min) * kpk, (code - min) * kpk + kpk).contains(XK_NUM_LOCK)
}

/// The bit of the first modifier, counted from `i`, one of whose `kpm` keycodes
/// is NumLock; none where no modifier is.
pub open spec fn numlock_bit(
    keycodes: Seq<u8>,
    i: int,
    kpm: int,
    keysyms: Seq<u32>,
    kpk: usize,
    min: u8,
    max: u8,
) -> u16
    decreases keycodes.len(),
{
    if keycodes.len() == 0 || kpm <= 0 {
        0
    } else {
        let n = smaller(kpm, keycodes.len() as int);
        if exists|j: int| 0 <= j < n && is_numlock(keysyms, min, max, kpk, #[trigger] keycodes[j]) {
            1u16 << (i as u16)
        } else {
            numlock_bit(keycodes.skip(n), i + 1, kpm, keysyms, kpk, min, max)
        }
    }
}

pub const XK_NUM_LOCK: u32 = 0xff7f;

/// The row of every keycode of the modifier map lies in the keymap.
pub open spec fn rows_exist(
    keycodes: Seq<u8>,
    keysyms: Seq<u32>,
    kpk: usize,
    min: u8,
    max: u8,
) -> bool {
    forall|j: int|
        0 <= j < keycodes.len() && keycodes[j] != 0 && min <= #[trigger] keycodes[j] <= max ==> (
        keycodes[j] - min) * kpk + kpk <= keysyms.len()
}

/// The modifier bit of NumLock, 0 where it is on no modifier.
pub fn compute_numlock(
    keycodes: &[u8],
    kpm: usize,
    keysyms: &[u32],
    kpk: usize,
    min: u8,
    max: u8,
) -> (bit: u16)
    requires
        rows_exist(keycodes@, keysyms@, kpk, min, max),
        keycodes@.len() <= 16 * kpm,
    ensures
        bit == (if kpk == 0 || kpm == 0 {
            0u16
        } else {
            numlock_bit(keycodes@, 0, kpm as int, keysyms@, kpk, min, max)
        }),
{
    if kpk == 0 || kpm == 0 {
        return 0;
    }
    let ghost whole = numlock_bit(keycodes@, 0, kpm as int, keysyms@, kpk, min, max);
    let len: usize = keycodes.len();
    let total: usize = keysyms.len();
    let mut pos: usize = 0;
    let mut i: u16 = 0;
    assert(keycodes@.skip(0) =~= keycodes@);
    while pos < len
        invariant
            kpk > 0,
            kpm > 0,
            len == keycodes@.len(),
            total == keysyms@.len(),
            pos <= len,
            rows_exist(keycodes@, keysyms@, kpk, min, max),
            len <= 16 * kpm,
            pos < len ==> pos == i * kpm,
            i <= 16,
            whole == numlock_bit(keycodes@, 0, kpm as int, keysyms@, kpk, min, max),
            whole == numlock_bit(
                keycodes@.skip(pos as int),
                i as int,
                kpm as int,
                keysyms@,
                kpk,
                min,
                max,
            ),
        decreases len - pos,
    {
        let left: usize = len - pos;
        let n: usize = if kpm <= left {
            kpm
        } else {
            left
        };
        let ghost tail = keycodes@.skip(pos as int);
        assert(i < 16) by (nonlinear_arith)
            requires
                i * kpm < len,
                len <= 16 * kpm,
                kpm > 0,
        ;
        let mut j: usize = 0;
        while j < n
            invariant
                n <= len - pos,
                j <= n,
                len == keycodes@.len(),
                total == keysyms@.len(),
                kpk > 0,
                tail == keycodes@.skip(pos as int),
                rows_exist(keycodes@, keysyms@, kpk, min, max),
                i < 16,
                n == smaller(kpm as int, tail.len() as int),
                tail.len() > 0,
                kpm > 0,
                whole == numlock_bit(keycodes@, 0, kpm as int, keysyms@, kpk, min, max),
                whole == numlock_bit(tail, i as int, kpm as int, keysyms@, kpk, min, max),
                forall|k: int|
                    0 <= k < j ==> !is_numlock(keysyms@, min, max, kpk, #[trigger] tail[k]),
            decreases n - j,
        {
            let code: u8 = keycodes[pos + j];
            assert(tail[j as int] == code);
            if code != 0 && code >= min && code <= max {
                let row: usize = (code - min) as usize;
                assert(keycodes@[pos + j] == code);
                assert(row * kpk + kpk <= total);
                assert(row * kpk >= 0) by (nonlinear_arith);
                let from: usize = row * kpk;
                if range_contains(keysyms, from, from + kpk, XK_NUM_LOCK) {
                    assert(is_numlock(keysyms@, min, max, kpk, tail[j as int]));
                    return 1u16 << i;
                }
            }
            j = j + 1;
        }
        assert(tail.skip(n as int) =~= keycodes@.skip(pos + n));
        proof {
            assert((i + 1) * kpm == i * kpm + kpm) by (nonlinear_arith);
        }
        pos = pos + n;
        i = i + 1;
    }
    0
}

/// The keymap as last read from the server.
#[derive(Debug)]
pub struct KeyboardState {
    pub keysyms: Vec<u32>,
    /// Keysyms per keycode.
    pub kpk: usize,
    /// The lowest keycode.
    pub min: u8,
    pub numlock: u16,
}

/// How many keycodes there are from `min` to `max`, as the keymap request takes
/// it.
pub fn keycode_count(min: u8, max: u8) -> (n: u8)
    requires
        min <= max,
    ensures
        n == (max - min + 1) % 256,
{
    if max - min == 255 {
        0
    } else {
        max - min + 1
    }
}

impl KeyboardState {
    /// The keyboard's state from the replies to the keymap request and to the
    /// modifier map request; without the latter NumLock is on no modifier.
    pub fn from_replies(
        keysyms: Vec<u32>,
        kpk: u8,
        min: u8,
        max: u8,
        modifier_map: Option<Vec<u8>>,
    ) -> (k: KeyboardState)
        requires
            modifier_map matches Some(m) ==> {
                &&& m@.len() == 8 * (m@.len() / 8)
                &&& m@.len() / 8 <= 255
                &&& rows_exist(m@, keysyms@, kpk as usize, min, max)
            },
        ensures
            k.keysyms == keysyms,
            k.kpk == kpk,
            k.min == min,
            k.numlock == match modifier_map {
                Some(m) => if kpk == 0 || m@.len() == 0 {
                    0u16
                } else {
                    numlock_bit(
                        m@,
                        0,
                        (m@.len() / 8) as int,
                        keysyms@,
                        kpk as usize,
                        min,
                        max,
                    )
                },
                None => 0u16,
            },
    {
        let numlock: u16 = match &modifier_map {
            Some(m) => {
                let kpm: u8 = keycodes_per_modifier(m);
                compute_numlock(m, kpm as usize, &keysyms, kpk as usize, min, max)
            },
            None => 0,
        };
        KeyboardState { keysyms, kpk: kpk as usize, min, numlock }
    }

    /// The keysym of a keycode in a column (0 is unshifted).
    pub fn keysym_at_col(&self, code: u8, col: usize) -> (r: u32)
        ensures
            r == keysym_of(self.keysyms@, self.min, self.kpk, code, col),
    {
        if self.kpk == 0 || code < self.min {
            return 0;
        }
        let len: usize = self.keysyms.len();
        let row: usize = (code - self.min) as usize;
        let c: usize = if col < self.kpk {
            col
        } else {
            self.kpk - 1
        };
        let kpk: usize = self.kpk;
        assert(row as u128 * kpk as u128 <= 255 * kpk as u128) by (nonlinear_arith)
            requires
                row <= 255,
        ;
        assert(row as u128 * kpk as u128 == (row * kpk) as int) by (nonlinear_arith)
            requires
                0 <= row * kpk <= u128::MAX,
        ;
        let at: u128 = row as u128 * kpk as u128 + c as u128;
        if at >= len as u128 {
            0
        } else {
            self.keysyms[at as usize]
        }
    }

    /// The mask of a press, and the keysyms of its unshifted column and of the
    /// one that its Shift and CapsLock select.
    pub open spec fn reading(&self, code: u8, state: u16) -> (u16, u32, u32) {
        let col = group1_column(state & 1u16 != 0, state & 2u16 != 0, self.kpk);
        (
            cleaned(state, self.numlock),
            keysym_of(self.keysyms@, self.min, self.kpk, code, 0),
            keysym_of(self.keysyms@, self.min, self.kpk, code, col),
        )
    }

    /// What a press of a key means under the bindings.
    pub open spec fn meaning(
        &self,
        keymap: &Keymap,
        code_bindings: Map<u8, Seq<u32>>,
        code: u8,
        state: u16,
    ) -> Option<(u16, u32, ActionV)> {
        let r = self.reading(code, state);
        first_bound(keymap, r.0, candidates(code_bindings, code, r.1, r.2))
    }

    /// The binding that a press of a key matches, if any, with its action.
    pub fn resolve_press(
        &self,
        keymap: &Keymap,
        code_bindings: &HashMap<u8, Vec<u32>>,
        code: u8,
        state: u16,
    ) -> (r: Option<((u16, u32), Action)>)
        requires
            keymap.well_formed(),
        ensures
            match r {
                Some((key, a)) => self.meaning(keymap, lists(code_bindings@), code, state) == Some(
                    (key.0, key.1, a@),
                ),
                None => self.meaning(keymap, lists(code_bindings@), code, state) is None,
            },
    {
        let m: ModifierBits = modifier_bits();
        let mods: u16 = clean_mask(state, self.numlock);
        let primary: u32 = self.keysym_at_col(code, 0);
        let col: usize = dispatch_col(state & m.shift != 0, state & m.lock != 0, self.kpk);
        let shifted: u32 = self.keysym_at_col(code, col);
        resolve_binding(keymap, code_bindings, mods, code, primary, shifted)
    }
}

// ---- What the keyboard means ------------------------------------------------

/// A capital letter is bound as its small one, 32 keysyms on; every other keysym is
/// bound as it is.
pub proof fn capital_letters_are_bound_as_small_ones(k: u32)
    ensures
        0x41 <= k <= 0x5a ==> normalized(k) == k + 32,
        k < 0x41 || k > 0x5a ==> normalized(k) == k,
        normalized(normalized(k)) == normalized(k),
{
}

/// A cleaned mask keeps every modifier that is no lock: Shift, Control and the five
/// numbered ones, save the one that NumLock is on.
pub proof fn cleaned_mask_keeps_the_modifiers(state: u16, numlock: u16, m: u16)
    requires
        m == 1 || m == 4 || m == 8 || m == 16 || m == 32 || m == 64 || m == 128,
        numlock & m == 0,
    ensures
        cleaned(state, numlock) & m == state & m,
{
    assert((m == 1 || m == 4 || m == 8 || m == 16 || m == 32 || m == 64 || m == 128) && numlock & m
        == 0 ==> (state & !(numlock | 2u16) & 253u16) & m == state & m) by (bit_vector);
}

/// A key is asked for in every state of the locks: with neither, with either and with
/// both, always of the same keycode, and each once.
pub proof fn key_is_grabbed_in_every_state_of_the_locks(
    g: (u16, u32, u8),
    numlock: u16,
    num: bool,
    caps: bool,
)
    ensures
        ({
            let v = if num && caps {
                numlock | 2u16
            } else if num {
                numlock
            } else if caps {
                2u16
            } else {
                0u16
            };
            requests_for(g, numlock).contains(
                KeyGrab { mask: g.0 | v, code: g.2, keysym: g.1, checked: v == 0 },
            )
        }),
        forall|i: int|
            0 <= i < requests_for(g, numlock).len() ==> (#[trigger] requests_for(
                g,
                numlock,
            )[i]).code == g.2 && requests_for(g, numlock)[i].keysym == g.1,
{
    let states = lock_states(numlock);
    let v = if num && caps {
        numlock | 2u16
    } else if num {
        numlock
    } else if caps {
        2u16
    } else {
        0u16
    };
    assert(states[0] == 0u16 && states[1] == numlock && states[2] == 2u16 && states[3] == numlock
        | 2u16);
    assert(states.contains(v));
    distinct_has_no_duplicates(states);
    let d = distinct(states);
    assert(d.contains(v));
    let i = choose|i: int| 0 <= i < d.len() && d[i] == v;
    assert(requests_for(g, numlock)[i] == (KeyGrab {
        mask: g.0 | v,
        code: g.2,
        keysym: g.1,
        checked: v == 0,
    }));
}

/// Of several bindings for a mask and a keysym the first one counts.
pub proof fn first_binding_counts(
    binds: Seq<(u16, u32, ActionV)>,
    mods: u16,
    keysym: u32,
    i: int,
)
    requires
        0 <= i < binds.len(),
        binds[i].0 == mods,
        normalized(binds[i].1) == keysym,
        forall|j: int|
            0 <= j < i ==> !((#[trigger] binds[j]).0 == mods && normalized(binds[j].1) == keysym),
    ensures
        bound(binds, mods, keysym) == Some(binds[i].2),
{
    let before = binds.take(i);
    let upto = binds.take(i + 1);
    bound_where_some_binding(before, mods, keysym);
    assert(bound(before, mods, keysym) is None) by {
        if bound(before, mods, keysym) is Some {
            let j = choose|j: int|
                0 <= j < before.len() && (#[trigger] before[j]).0 == mods && normalized(
                    before[j].1,
                ) == keysym;
            assert(binds[j] == before[j]);
        }
    }
    assert(upto.drop_last() =~= before);
    assert(upto.last() == binds[i]);
    bound_keeps_first(binds, i + 1, mods, keysym);
}

/// A press means the first of its candidates that is bound.
pub proof fn press_means_its_first_bound_candidate(
    keymap: &Keymap,
    mods: u16,
    keysyms: Seq<u32>,
    i: int,
)
    requires
        0 <= i < keysyms.len(),
        keymap.lookup(mods, keysyms[i]) is Some,
        forall|j: int| 0 <= j < i ==> keymap.lookup(mods, #[trigger] keysyms[j]) is None,
    ensures
        first_bound(keymap, mods, keysyms) == Some(
            (mods, keysyms[i], keymap.lookup(mods, keysyms[i])->0),
        ),
    decreases i,
{
    if i > 0 {
        assert(keymap.lookup(mods, keysyms[0]) is None);
        let rest = keysyms.skip(1);
        assert(rest[i - 1] == keysyms[i]);
        assert forall|j: int| 0 <= j < i - 1 implies keymap.lookup(
            mods,
            #[trigger] rest[j],
        ) is None by {
            assert(rest[j] == keysyms[j + 1]);
        }
        press_means_its_first_bound_candidate(keymap, mods, rest, i - 1);
    }
}

/// A press may mean its unshifted keysym, its shifted one and what its keycode was
/// grabbed for, and nothing else; the unshifted one is tried first.
pub proof fn press_may_mean_its_own_keysyms(
    code_bindings: Map<u8, Seq<u32>>,
    code: u8,
    primary: u32,
    shifted: u32,
    k: u32,
)
    ensures
        ({
            let c = candidates(code_bindings, code, primary, shifted);
            &&& c.contains(k) <==> (k != 0 && (k == normalized(primary) || k == normalized(
                shifted,
            ))) || (code_bindings.contains_key(code) && code_bindings[code].contains(k))
            &&& normalized(primary) != 0 ==> c[0] == normalized(primary)
            &&& normalized(primary) != 0 && normalized(shifted) != 0 ==> c[1] == normalized(
                shifted,
            )
        }),
{
    let a = if normalized(primary) != 0 {
        seq![normalized(primary)]
    } else {
        Seq::empty()
    };
    let b = if normalized(shifted) != 0 {
        seq![normalized(shifted)]
    } else {
        Seq::empty()
    };
    let r = recorded(code_bindings, code);
    assert(a.contains(k) <==> k != 0 && k == normalized(primary)) by {
        if normalized(primary) != 0 {
            assert(a[0] == normalized(primary));
        }
    }
    assert(b.contains(k) <==> k != 0 && k == normalized(shifted)) by {
        if normalized(shifted) != 0 {
            assert(b[0] == normalized(shifted));
        }
    }
    vstd::seq_lib::lemma_seq_concat_contains_all_elements(a, b, k);
    vstd::seq_lib::lemma_seq_concat_contains_all_elements(a + b, r, k);
}

/// A key is read in its own row of the keymap, at the column asked for or, past the
/// last one, at the last; nothing is read outside the keymap. Shift and CapsLock
/// select the second column each, and the first both together.
pub proof fn key_is_read_in_its_own_row(
    keysyms: Seq<u32>,
    min: u8,
    kpk: usize,
    code: u8,
    col: usize,
    shift: bool,
    lock: bool,
)
    requires
        kpk > 0,
    ensures
        ({
            let c = if col < kpk {
                col as int
            } else {
                kpk - 1
            };
            let at = (code - min) * kpk + c;
            &&& code >= min && at < keysyms.len() ==> keysym_of(keysyms, min, kpk, code, col)
                == keysyms[at]
            &&& code < min || at >= keysyms.len() ==> keysym_of(keysyms, min, kpk, code, col) == 0
        }),
        kpk > 1 ==> (group1_column(shift, lock, kpk) == 1 <==> shift != lock),
        shift == lock || kpk == 1 ==> group1_column(shift, lock, kpk) == 0,
{
}

/// NumLock is on the first modifier that one of its keys is a NumLock key of: the bit
/// is that modifier's.
pub proof fn numlock_is_the_first_modifier_with_its_key(
    keycodes: Seq<u8>,
    from: int,
    kpm: int,
    keysyms: Seq<u32>,
    kpk: usize,
    min: u8,
    max: u8,
    m: int,
    j: int,
)
    requires
        kpm > 0,
        0 <= m,
        m * kpm <= j < (m + 1) * kpm,
        j < keycodes.len(),
        is_numlock(keysyms, min, max, kpk, keycodes[j]),
        forall|k: int|
            0 <= k < m * kpm && k < keycodes.len() ==> !is_numlock(
                keysyms,
                min,
                max,
                kpk,
                #[trigger] keycodes[k],
            ),
    ensures
        numlock_bit(keycodes, from, kpm, keysyms, kpk, min, max) == 1u16 << ((from + m) as u16),
    decreases m,
{
    let n = smaller(kpm, keycodes.len() as int);
    if m == 0 {
        assert(0 * kpm == 0 && (0 + 1) * kpm == kpm) by (nonlinear_arith);
        assert(0 <= j < n && is_numlock(keysyms, min, max, kpk, keycodes[j]));
    } else {
        assert(m * kpm == (m - 1) * kpm + kpm && (m + 1) * kpm == m * kpm + kpm && m * kpm >= kpm)
            by (nonlinear_arith)
            requires
                m >= 1,
                kpm > 0,
        ;
        assert(n == kpm);
        let rest = keycodes.skip(n);
        assert(rest[j - n] == keycodes[j]);
        assert forall|k: int|
            0 <= k < (m - 1) * kpm && k < rest.len() implies !is_numlock(
            keysyms,
            min,
            max,
            kpk,
            #[trigger] rest[k],
        ) by {
            assert(rest[k] == keycodes[k + n]);
        }
        assert forall|k: int| 0 <= k < n implies !is_numlock(
            keysyms,
            min,
            max,
            kpk,
            #[trigger] keycodes[k],
        ) by {}
        numlock_is_the_first_modifier_with_its_key(
            rest,
            from + 1,
            kpm,
            keysyms,
            kpk,
            min,
            max,
            m - 1,
            j - n,
        );
    }
}

/// Where no key on the modifier map is a NumLock key, there is no NumLock.
pub proof fn keyboard_may_lack_numlock(
    keycodes: Seq<u8>,
    from: int,
    kpm: int,
    keysyms: Seq<u32>,
    kpk: usize,
    min: u8,
    max: u8,
)
    requires
        forall|k: int|
            0 <= k < keycodes.len() ==> !is_numlock(
                keysyms,
                min,
                max,
                kpk,
                #[trigger] keycodes[k],
            ),
    ensures
        numlock_bit(keycodes, from, kpm, keysyms, kpk, min, max) == 0,
    decreases keycodes.len(),
{
    if keycodes.len() > 0 && kpm > 0 {
        let n = smaller(kpm, keycodes.len() as int);
        let rest = keycodes.skip(n);
        assert forall|k: int| 0 <= k < rest.len() implies !is_numlock(
            keysyms,
            min,
            max,
            kpk,
            #[trigger] rest[k],
        ) by {
            assert(rest[k] == keycodes[k + n]);
        }
        keyboard_may_lack_numlock(rest, from + 1, kpm, keysyms, kpk, min, max);
    }
}

/// A window is grabbed for dragging by the left and by the right button, each with
/// Super and in every state of the locks.
pub proof fn window_is_dragged_by_two_buttons(numlock: u16, i: int)
    requires
        0 <= i < 4,
    ensures
        drag_grabs(numlock).len() == 8,
        drag_grabs(numlock).contains(
            ButtonGrab { button: 1, mask: 64u16 | lock_states(numlock)[i] },
        ),
        drag_grabs(numlock).contains(
            ButtonGrab { button: 3, mask: 64u16 | lock_states(numlock)[i] },
        ),
{
    let d = drag_grabs(numlock);
    assert(d[2 * i] == (ButtonGrab { button: 1, mask: 64u16 | lock_states(numlock)[i] }));
    assert(d[2 * i + 1] == (ButtonGrab { button: 3, mask: 64u16 | lock_states(numlock)[i] }));
}

} // verus!
