//! From a key press to an action: that grabs and dispatch agree, how repeats are
//! held back, and what bindings are called.

use crate::config::{Action, ActionV};
use crate::keyboard::{
    any_codes, bound_candidate_resolves, bound_where_some_binding, candidates, cleaned, codes_from,
    grabbed, group1_codes, group1_column, keysym_of, listed, normalized, plan_of, recorded, smaller,
    KeyGrabPlanV, KeyboardState, Keymap,
};
use crate::xproto::{modifier_bits, ModifierBits};
use vstd::prelude::*;
use vstd::string::*;

verus! {

// ---- Grabs and dispatch agree -----------------------------------------------

/// A keycode found for a keysym has the keysym in its row, in one of the columns
/// searched.
proof fn found_code_holds_keysym(
    keysyms: Seq<u32>,
    start: int,
    kpk: int,
    width: int,
    keysym: u32,
    code: u8,
) -> (col: int)
    requires
        kpk > 0,
        width >= 0,
        codes_from(keysyms, start, kpk, width, keysym).contains(code),
        start >= 0,
    ensures
        start <= code,
        0 <= col < kpk,
        col < width,
        0 <= (code - start) * kpk + col < keysyms.len(),
        keysyms[(code - start) * kpk + col] == keysym,
    decreases keysyms.len(),
{
    let n = smaller(kpk, keysyms.len() as int);
    let row = keysyms.take(smaller(width, n));
    let rest = codes_from(keysyms.skip(n), start + 1, kpk, width, keysym);
    let all = codes_from(keysyms, start, kpk, width, keysym);
    let at = choose|i: int| 0 <= i < all.len() && all[i] == code;
    if start <= 255 && row.contains(keysym) && at == 0 {
        let col = choose|i: int| 0 <= i < row.len() && row[i] == keysym;
        assert((code - start) * kpk == 0) by (nonlinear_arith)
            requires
                code == start,
        ;
        col
    } else {
        if start <= 255 && row.contains(keysym) {
            assert(rest[at - 1] == code);
        } else {
            assert(rest[at] == code);
        }
        let col = found_code_holds_keysym(
            keysyms.skip(n),
            start + 1,
            kpk,
            width,
            keysym,
            code,
        );
        assert(keysyms.skip(n).len() > 0);
        assert(n == kpk);
        assert((code - start) * kpk == (code - start - 1) * kpk + kpk) by (nonlinear_arith);
        col
    }
}

/// The grab is of a keycode that the first group finds, or that was recorded for
/// the keysym.
spec fn justified(
    keysyms: Seq<u32>,
    min: u8,
    kpk: usize,
    p: KeyGrabPlanV,
    g: (u16, u32, u8),
) -> bool {
    group1_codes(keysyms, min, kpk, g.1).contains(g.2) || recorded(
        p.code_bindings,
        g.2,
    ).contains(normalized(g.1))
}

spec fn all_justified(
    keysyms: Seq<u32>,
    min: u8,
    kpk: usize,
    p: KeyGrabPlanV,
    binds: Seq<(u16, u32)>,
) -> bool {
    forall|i: int|
        0 <= i < p.grabs.len() ==> {
            &&& justified(keysyms, min, kpk, p, #[trigger] p.grabs[i])
            &&& binds.contains((p.grabs[i].0, p.grabs[i].1))
        }
}

proof fn code_stays_justified(
    keysyms: Seq<u32>,
    min: u8,
    kpk: usize,
    p: KeyGrabPlanV,
    binds: Seq<(u16, u32)>,
    mask: u16,
    keysym: u32,
    code: u8,
    fallback: bool,
)
    requires
        all_justified(keysyms, min, kpk, p, binds),
        binds.contains((mask, keysym)),
        fallback || group1_codes(keysyms, min, kpk, keysym).contains(code),
    ensures
        all_justified(keysyms, min, kpk, p.with_code(mask, keysym, code, fallback), binds),
{
    let q = p.with_code(mask, keysym, code, fallback);
    assert forall|c: u8, x: u32| recorded(p.code_bindings, c).contains(x) implies recorded(
        q.code_bindings,
        c,
    ).contains(x) by {
        let old_list = recorded(p.code_bindings, c);
        let i = choose|i: int| 0 <= i < old_list.len() && old_list[i] == x;
        assert(recorded(q.code_bindings, c)[i] == x);
    }
    if fallback {
        let list = recorded(p.code_bindings, code);
        let after = listed(list, normalized(keysym));
        if !list.contains(normalized(keysym)) {
            assert(after[list.len() as int] == normalized(keysym));
        }
        assert(recorded(q.code_bindings, code).contains(normalized(keysym)));
    }
    assert forall|i: int| 0 <= i < q.grabs.len() implies justified(
        keysyms,
        min,
        kpk,
        q,
        #[trigger] q.grabs[i],
    ) && binds.contains((q.grabs[i].0, q.grabs[i].1)) by {
        if i < p.grabs.len() {
            assert(q.grabs[i] == p.grabs[i]);
            assert(justified(keysyms, min, kpk, p, p.grabs[i]));
        }
    }
}

proof fn codes_stay_justified(
    keysyms: Seq<u32>,
    min: u8,
    kpk: usize,
    p: KeyGrabPlanV,
    binds: Seq<(u16, u32)>,
    mask: u16,
    keysym: u32,
    codes: Seq<u8>,
    fallback: bool,
)
    requires
        all_justified(keysyms, min, kpk, p, binds),
        binds.contains((mask, keysym)),
        fallback || forall|i: int|
            0 <= i < codes.len() ==> group1_codes(keysyms, min, kpk, keysym).contains(
                #[trigger] codes[i],
            ),
    ensures
        all_justified(keysyms, min, kpk, p.with_codes(mask, keysym, codes, fallback), binds),
    decreases codes.len(),
{
    if codes.len() > 0 {
        let t = codes.drop_last();
        assert forall|i: int| 0 <= i < t.len() && !fallback implies group1_codes(
            keysyms,
            min,
            kpk,
            keysym,
        ).contains(#[trigger] t[i]) by {
            assert(t[i] == codes[i]);
        }
        codes_stay_justified(keysyms, min, kpk, p, binds, mask, keysym, t, fallback);
        assert(codes.last() == codes[codes.len() - 1]);
        code_stays_justified(
            keysyms,
            min,
            kpk,
            p.with_codes(mask, keysym, t, fallback),
            binds,
            mask,
            keysym,
            codes.last(),
            fallback,
        );
    }
}

proof fn plan_is_justified(keysyms: Seq<u32>, min: u8, kpk: usize, binds: Seq<(u16, u32)>)
    ensures
        all_justified(keysyms, min, kpk, plan_of(keysyms, min, kpk, binds), binds),
    decreases binds.len(),
{
    if binds.len() > 0 && kpk > 0 {
        let t = binds.drop_last();
        plan_is_justified(keysyms, min, kpk, t);
        let p = plan_of(keysyms, min, kpk, t);
        let (mask, keysym) = binds.last();
        assert forall|b: (u16, u32)| t.contains(b) implies binds.contains(b) by {
            let i = choose|i: int| 0 <= i < t.len() && t[i] == b;
            assert(binds[i] == b);
        }
        assert(binds[binds.len() - 1] == (mask, keysym));
        assert(all_justified(keysyms, min, kpk, p, binds));
        let near = group1_codes(keysyms, min, kpk, keysym);
        let far = any_codes(keysyms, min, kpk, keysym);
        if near.len() > 0 {
            codes_stay_justified(keysyms, min, kpk, p, binds, mask, keysym, near, false);
        } else if far.len() > 0 {
            codes_stay_justified(keysyms, min, kpk, p, binds, mask, keysym, far, true);
        } else {
            let q = plan_of(keysyms, min, kpk, binds);
            assert forall|i: int| 0 <= i < q.grabs.len() implies justified(
                keysyms,
                min,
                kpk,
                q,
                #[trigger] q.grabs[i],
            ) && binds.contains((q.grabs[i].0, q.grabs[i].1)) by {
                assert(justified(keysyms, min, kpk, p, p.grabs[i]));
            }
        }
    }
}

/// The masks and keysyms of bindings.
pub open spec fn bind_keys(binds: Seq<(u16, u32, ActionV)>) -> Seq<(u16, u32)> {
    binds.map_values(|b: (u16, u32, ActionV)| (b.0, b.1))
}

/// A key that was grabbed is never swallowed: pressed under the modifiers it was
/// grabbed with, in any state of the locks, it resolves to a binding. The one
/// exception is a keysym that stands only in the shifted column of its key, under
/// a press that reads the unshifted one.
pub proof fn grabbed_key_is_dispatched(
    keyboard: &KeyboardState,
    binds: Seq<(u16, u32, ActionV)>,
    keymap: &Keymap,
    g: (u16, u32, u8),
    state: u16,
)
    requires
        forall|m: u16, k: u32| #[trigger] keymap.lookup(m, k) == crate::keyboard::bound(binds, m, k),
        plan_of(keyboard.keysyms@, keyboard.min, keyboard.kpk, bind_keys(binds)).grabs.contains(g),
        cleaned(state, keyboard.numlock) == g.0,
        g.1 != 0,
        !group1_codes(keyboard.keysyms@, keyboard.min, keyboard.kpk, g.1).contains(g.2)
            || normalized(
            keysym_of(keyboard.keysyms@, keyboard.min, keyboard.kpk, g.2, 0),
        ) == normalized(g.1) || group1_column(
            state & 1u16 != 0,
            state & 2u16 != 0,
            keyboard.kpk,
        ) == 1,
    ensures
        keyboard.meaning(
            keymap,
            plan_of(
                keyboard.keysyms@,
                keyboard.min,
                keyboard.kpk,
                bind_keys(binds),
            ).code_bindings,
            g.2,
            state,
        ) is Some,
{
    let keys = bind_keys(binds);
    let (ks, min, kpk) = (keyboard.keysyms@, keyboard.min, keyboard.kpk);
    let p = plan_of(ks, min, kpk, keys);
    plan_is_justified(ks, min, kpk, keys);
    let at = choose|i: int| 0 <= i < p.grabs.len() && p.grabs[i] == g;
    assert(justified(ks, min, kpk, p, p.grabs[at]));
    // The binding that was grabbed for is in the keymap.
    let b = choose|i: int| 0 <= i < keys.len() && keys[i] == (g.0, g.1);
    assert(binds[b].0 == g.0 && binds[b].1 == g.1);
    bound_where_some_binding(binds, g.0, normalized(g.1));
    assert(keymap.lookup(g.0, normalized(g.1)) is Some);
    // Its keysym is among the candidates of the press.
    let r = keyboard.reading(g.2, state);
    let c = candidates(p.code_bindings, g.2, r.1, r.2);
    let list = recorded(p.code_bindings, g.2);
    assert(kpk > 0);
    if group1_codes(ks, min, kpk, g.1).contains(g.2) {
        let col = found_code_holds_keysym(ks, min as int, kpk as int, 2, g.1, g.2);
        if normalized(r.1) == normalized(g.1) {
            assert(c[0] == normalized(g.1));
            bound_candidate_resolves(keymap, g.0, c, 0);
        } else {
            assert(col == 1);
            assert(r.2 == g.1);
            let i: int = if normalized(r.1) != 0 {
                1
            } else {
                0
            };
            assert(c[i] == normalized(g.1));
            bound_candidate_resolves(keymap, g.0, c, i);
        }
    } else {
        let i = choose|i: int| 0 <= i < list.len() && list[i] == normalized(g.1);
        let k = c.len() - list.len() + i;
        assert(c[k] == normalized(g.1));
        bound_candidate_resolves(keymap, g.0, c, k);
    }
}

spec fn grabbed_once(p: KeyGrabPlanV) -> bool {
    forall|i: int, j: int|
        0 <= i < j < p.grabs.len() ==> !((#[trigger] p.grabs[i]).0 == (#[trigger] p.grabs[j]).0
            && p.grabs[i].2 == p.grabs[j].2)
}

proof fn codes_stay_distinct(
    p: KeyGrabPlanV,
    mask: u16,
    keysym: u32,
    codes: Seq<u8>,
    fallback: bool,
)
    requires
        grabbed_once(p),
    ensures
        grabbed_once(p.with_codes(mask, keysym, codes, fallback)),
    decreases codes.len(),
{
    if codes.len() > 0 {
        codes_stay_distinct(p, mask, keysym, codes.drop_last(), fallback);
        let q = p.with_codes(mask, keysym, codes.drop_last(), fallback);
        if !grabbed(q.grabs, mask, codes.last()) {
            let r = q.with_code(mask, keysym, codes.last(), fallback);
            assert forall|i: int, j: int| 0 <= i < j < r.grabs.len() implies !((
            #[trigger] r.grabs[i]).0 == (#[trigger] r.grabs[j]).0 && r.grabs[i].2
                == r.grabs[j].2) by {
                assert(r.grabs[i] == q.grabs[i]);
                if j < q.grabs.len() {
                    assert(r.grabs[j] == q.grabs[j]);
                }
            }
        }
    }
}

/// No key is grabbed twice under the same modifiers.
pub proof fn no_key_is_grabbed_twice(
    keysyms: Seq<u32>,
    min: u8,
    kpk: usize,
    binds: Seq<(u16, u32)>,
    i: int,
    j: int,
)
    requires
        0 <= i < j < plan_of(keysyms, min, kpk, binds).grabs.len(),
    ensures
        ({
            let grabs = plan_of(keysyms, min, kpk, binds).grabs;
            !(grabs[i].0 == grabs[j].0 && grabs[i].2 == grabs[j].2)
        }),
{
    plan_is_distinct(keysyms, min, kpk, binds);
}

proof fn plan_is_distinct(keysyms: Seq<u32>, min: u8, kpk: usize, binds: Seq<(u16, u32)>)
    ensures
        grabbed_once(plan_of(keysyms, min, kpk, binds)),
    decreases binds.len(),
{
    if binds.len() > 0 && kpk > 0 {
        let t = binds.drop_last();
        plan_is_distinct(keysyms, min, kpk, t);
        let p = plan_of(keysyms, min, kpk, t);
        let (mask, keysym) = binds.last();
        codes_stay_distinct(p, mask, keysym, group1_codes(keysyms, min, kpk, keysym), false);
        codes_stay_distinct(p, mask, keysym, any_codes(keysyms, min, kpk, keysym), true);
    }
}

// ---- Repeats ----------------------------------------------------------------

/// When each binding last fired, in milliseconds.
#[derive(Debug)]
pub struct KeyTimes {
    entries: Vec<(u16, u32, u64)>,
}

/// The entry is of another key than `key`.
pub open spec fn of_other_key(key: (u16, u32)) -> spec_fn((u16, u32, u64)) -> bool {
    |e: (u16, u32, u64)| !(e.0 == key.0 && e.1 == key.1)
}

/// The entry is at most a second old.
pub open spec fn recent(now: u64) -> spec_fn((u16, u32, u64)) -> bool {
    |e: (u16, u32, u64)| e.2 + 1000 >= now
}

/// The key fired less than `interval` ago.
pub open spec fn too_soon(
    times: Seq<(u16, u32, u64)>,
    key: (u16, u32),
    interval: u64,
    now: u64,
) -> bool {
    exists|i: int|
        0 <= i < times.len() && (#[trigger] times[i]).0 == key.0 && times[i].1 == key.1 && now
            < times[i].2 + interval
}

/// How long a binding rests after it fired: longer where it starts a program.
pub open spec fn rest_after(a: ActionV) -> u64 {
    match a {
        ActionV::Spawn(_) => 200,
        ActionV::Do(_) => 60,
    }
}

impl KeyTimes {
    pub closed spec fn entries(&self) -> Seq<(u16, u32, u64)> {
        self.entries@
    }

    /// No key has fired yet.
    pub fn new() -> (t: KeyTimes)
        ensures
            t.entries().len() == 0,
    {
        KeyTimes { entries: Vec::new() }
    }

    /// Whether a binding may fire now. One that fires is noted, and what is more
    /// than a second old is forgotten.
    pub fn fire(&mut self, key: (u16, u32), action: &Action, now: u64) -> (fires: bool)
        ensures
            fires == !too_soon(old(self).entries(), key, rest_after(action@), now),
            final(self).entries() == (if fires {
                old(self).entries().filter(recent(now)).filter(of_other_key(key)).push(
                    (key.0, key.1, now),
                )
            } else {
                old(self).entries()
            }),
    {
        let interval: u64 = match action {
            Action::Spawn(_) => 200,
            _ => 60,
        };
        let ghost before = self.entries@;
        let mut i: usize = 0;
        while i < self.entries.len()
            invariant
                i <= self.entries.len(),
                self.entries@ == before,
                interval == rest_after(action@),
                forall|j: int|
                    0 <= j < i ==> !((#[trigger] before[j]).0 == key.0 && before[j].1 == key.1
                        && now < before[j].2 + interval),
            decreases self.entries.len() - i,
        {
            let e: (u16, u32, u64) = self.entries[i];
            if e.0 == key.0 && e.1 == key.1 && (e.2 >= now || now - e.2 < interval) {
                assert(before[i as int] == e);
                return false;
            }
            i = i + 1;
        }
        let mut kept: Vec<(u16, u32, u64)> = Vec::new();
        let mut k: usize = 0;
        proof {
            reveal(Seq::filter);
        }
        assert(kept@ =~= before.take(0).filter(recent(now)).filter(of_other_key(key)));
        while k < self.entries.len()
            invariant
                k <= self.entries.len(),
                self.entries@ == before,
                kept@ == before.take(k as int).filter(recent(now)).filter(of_other_key(key)),
            decreases self.entries.len() - k,
        {
            let e: (u16, u32, u64) = self.entries[k];
            proof {
                let t = before.take(k as int + 1);
                assert(t.drop_last() =~= before.take(k as int));
                assert(t.last() == e);
                let a = t.drop_last().filter(recent(now));
                reveal(Seq::filter);
                if recent(now)(e) {
                    assert(t.filter(recent(now)) =~= a.push(e));
                    assert(a.push(e).drop_last() =~= a);
                } else {
                    assert(t.filter(recent(now)) =~= a);
                }
            }
            let fresh: bool = e.2 >= now || now - e.2 <= 1000;
            if fresh && !(e.0 == key.0 && e.1 == key.1) {
                kept.push(e);
            }
            k = k + 1;
        }
        assert(before.take(k as int) =~= before);
        kept.push((key.0, key.1, now));
        self.entries = kept;
        true
    }
}

/// A binding that just fired does not fire again at once.
pub proof fn fired_binding_rests(
    times: Seq<(u16, u32, u64)>,
    key: (u16, u32),
    a: ActionV,
    now: u64,
    later: u64,
)
    requires
        now <= later < now + rest_after(a),
    ensures
        too_soon(
            times.filter(recent(now)).filter(of_other_key(key)).push((key.0, key.1, now)),
            key,
            rest_after(a),
            later,
        ),
{
    let t = times.filter(recent(now)).filter(of_other_key(key));
    assert(t.push((key.0, key.1, now))[t.len() as int] == (key.0, key.1, now));
}

// ---- Names ------------------------------------------------------------------

/// A digit of a number in base sixteen.
pub open spec fn hex_digit(d: nat) -> Seq<char> {
    "0123456789abcdef"@.subrange(d as int, d as int + 1)
}

/// A number in base sixteen.
pub open spec fn hex_text(n: nat) -> Seq<char>
    decreases n,
{
    if n < 16 {
        hex_digit(n)
    } else {
        hex_text(n / 16) + hex_digit(n % 16)
    }
}

fn hex(n: u32) -> (s: String)
    ensures
        s@ == hex_text(n as nat),
    decreases n,
{
    proof {
        reveal_strlit("0123456789abcdef");
    }
    let d: usize = (n % 16) as usize;
    let digit: &str = "0123456789abcdef".substring_char(d, d + 1);
    if n < 16 {
        digit.to_owned()
    } else {
        hex(n / 16).concat(digit)
    }
}

/// The name of a keysym as a configuration writes it: the letters and digits and
/// a few named keys, and the number for every other.
pub open spec fn keysym_text(k: u32) -> Seq<char> {
    if 0x61 <= k <= 0x7a {
        "abcdefghijklmnopqrstuvwxyz"@.subrange(k - 0x61, k - 0x60)
    } else if 0x30 <= k <= 0x39 {
        "0123456789"@.subrange(k - 0x30, k - 0x2f)
    } else if k == 0x20 {
        "space"@
    } else if k == 0x5b {
        "bracketleft"@
    } else if k == 0x5d {
        "bracketright"@
    } else if k == 0xff09 {
        "Tab"@
    } else if k == 0xff0d {
        "Return"@
    } else if k == 0xffc2 {
        "F5"@
    } else {
        "0x"@ + hex_text(k as nat)
    }
}

/// The name of a keysym as a configuration writes it.
pub fn keysym_name(k: u32) -> (s: String)
    ensures
        s@ == keysym_text(k),
{
    proof {
        reveal_strlit("abcdefghijklmnopqrstuvwxyz");
        reveal_strlit("0123456789");
    }
    if 0x61 <= k && k <= 0x7a {
        let i: usize = (k - 0x61) as usize;
        "abcdefghijklmnopqrstuvwxyz".substring_char(i, i + 1).to_owned()
    } else if 0x30 <= k && k <= 0x39 {
        let i: usize = (k - 0x30) as usize;
        "0123456789".substring_char(i, i + 1).to_owned()
    } else if k == 0x20 {
        "space".to_owned()
    } else if k == 0x5b {
        "bracketleft".to_owned()
    } else if k == 0x5d {
        "bracketright".to_owned()
    } else if k == 0xff09 {
        "Tab".to_owned()
    } else if k == 0xff0d {
        "Return".to_owned()
    } else if k == 0xffc2 {
        "F5".to_owned()
    } else {
        "0x".to_owned().concat(hex(k).as_str())
    }
}

/// Two names joined by a plus sign, unless the first is empty.
pub open spec fn joined(a: Seq<char>, b: Seq<char>) -> Seq<char> {
    if a.len() == 0 {
        b
    } else {
        a + "+"@ + b
    }
}

/// `a` joined with `name` where `on`.
pub open spec fn with_mod(a: Seq<char>, on: bool, name: Seq<char>) -> Seq<char> {
    if on {
        joined(a, name)
    } else {
        a
    }
}

/// The names of the modifiers in a mask, joined.
pub open spec fn mods_text(mask: u16) -> Seq<char> {
    with_mod(
        with_mod(
            with_mod(
                with_mod(Seq::empty(), mask & 64u16 != 0, "Super"@),
                mask & 4u16 != 0,
                "Ctrl"@,
            ),
            mask & 8u16 != 0,
            "Alt"@,
        ),
        mask & 1u16 != 0,
        "Shift"@,
    )
}

/// The name of a binding.
pub open spec fn bind_text(mask: u16, keysym: u32) -> Seq<char> {
    joined(mods_text(mask), keysym_text(keysym))
}

fn join(a: String, b: &str) -> (s: String)
    ensures
        s@ == joined(a@, b@),
{
    if a.as_str().unicode_len() == 0 {
        b.to_owned()
    } else {
        a.concat("+").concat(b)
    }
}

/// The names of the modifiers in a mask, joined.
pub fn mods_name(mask: u16) -> (s: String)
    ensures
        s@ == mods_text(mask),
{
    let m: ModifierBits = modifier_bits();
    let mut s: String = String::new();
    assert(s@ =~= Seq::<char>::empty());
    if mask & m.m4 != 0 {
        s = join(s, "Super");
    }
    if mask & m.control != 0 {
        s = join(s, "Ctrl");
    }
    if mask & m.m1 != 0 {
        s = join(s, "Alt");
    }
    if mask & m.shift != 0 {
        s = join(s, "Shift");
    }
    s
}

/// Human-readable name of a binding, for diagnostics.
pub fn bind_name(mask: u16, keysym: u32) -> (s: String)
    ensures
        s@ == bind_text(mask, keysym),
{
    join(mods_name(mask), keysym_name(keysym).as_str())
}

/// What is said of a binding whose keysym the layout lacks.
pub fn missing_bind_warning(mask: u16, keysym: u32) -> (s: String)
    ensures
        s@ == "keybinding "@ + bind_text(mask, keysym)
            + ": that keysym does not exist in the current layout — ignored"@,
{
    "keybinding ".to_owned().concat(bind_name(mask, keysym).as_str()).concat(
        ": that keysym does not exist in the current layout — ignored",
    )
}

// ---- What is grabbed --------------------------------------------------------

/// A keycode is found for a keysym just where its row of the keymap holds the keysym
/// in one of the first two columns.
pub proof fn first_group_finds_the_keys_that_hold_the_keysym(
    keysyms: Seq<u32>,
    min: u8,
    kpk: usize,
    keysym: u32,
    code: u8,
)
    requires
        kpk > 0,
    ensures
        group1_codes(keysyms, min, kpk, keysym).contains(code) <==> min <= code && exists|col: int|
            0 <= col < 2 && col < kpk && 0 <= (code - min) * kpk + col < keysyms.len()
                && #[trigger] keysyms[(code - min) * kpk + col] == keysym,
{
    if group1_codes(keysyms, min, kpk, keysym).contains(code) {
        let col = found_code_holds_keysym(keysyms, min as int, kpk as int, 2, keysym, code);
        assert(keysyms[(code - min) * kpk + col] == keysym);
    }
    if min <= code && exists|col: int|
        0 <= col < 2 && col < kpk && 0 <= (code - min) * kpk + col < keysyms.len()
            && #[trigger] keysyms[(code - min) * kpk + col] == keysym {
        let col = choose|col: int|
            0 <= col < 2 && col < kpk && 0 <= (code - min) * kpk + col < keysyms.len()
                && #[trigger] keysyms[(code - min) * kpk + col] == keysym;
        holding_code_is_found(keysyms, min as int, kpk as int, 2, keysym, code, col);
    }
}

/// A keycode is found for a keysym in any column just where its row of the keymap
/// holds the keysym.
pub proof fn whole_keymap_finds_the_keys_that_hold_the_keysym(
    keysyms: Seq<u32>,
    min: u8,
    kpk: usize,
    keysym: u32,
    code: u8,
)
    requires
        kpk > 0,
    ensures
        any_codes(keysyms, min, kpk, keysym).contains(code) <==> min <= code && exists|col: int|
            0 <= col < kpk && 0 <= (code - min) * kpk + col < keysyms.len()
                && #[trigger] keysyms[(code - min) * kpk + col] == keysym,
{
    if any_codes(keysyms, min, kpk, keysym).contains(code) {
        let col = found_code_holds_keysym(
            keysyms,
            min as int,
            kpk as int,
            kpk as int,
            keysym,
            code,
        );
        assert(keysyms[(code - min) * kpk + col] == keysym);
    }
    if min <= code && exists|col: int|
        0 <= col < kpk && 0 <= (code - min) * kpk + col < keysyms.len()
            && #[trigger] keysyms[(code - min) * kpk + col] == keysym {
        let col = choose|col: int|
            0 <= col < kpk && 0 <= (code - min) * kpk + col < keysyms.len()
                && #[trigger] keysyms[(code - min) * kpk + col] == keysym;
        holding_code_is_found(keysyms, min as int, kpk as int, kpk as int, keysym, code, col);
    }
}

proof fn holding_code_is_found(
    keysyms: Seq<u32>,
    start: int,
    kpk: int,
    width: int,
    keysym: u32,
    code: u8,
    col: int,
)
    requires
        kpk > 0,
        0 <= start <= code,
        0 <= col < kpk,
        col < width,
        0 <= (code - start) * kpk + col < keysyms.len(),
        keysyms[(code - start) * kpk + col] == keysym,
    ensures
        codes_from(keysyms, start, kpk, width, keysym).contains(code),
    decreases keysyms.len(),
{
    let n = smaller(kpk, keysyms.len() as int);
    let found = codes_from(keysyms, start, kpk, width, keysym);
    if code == start {
        assert((code - start) * kpk == 0) by (nonlinear_arith)
            requires
                code == start,
        ;
        let row = keysyms.take(smaller(width, n));
        assert(row[col] == keysym);
        assert(found[0] == code);
    } else {
        let rest = keysyms.skip(n);
        assert((code - start) * kpk == (code - (start + 1)) * kpk + kpk && (code - start) * kpk
            >= kpk) by (nonlinear_arith)
            requires
                code >= start + 1,
                kpk > 0,
        ;
        assert(n == kpk);
        assert(rest[(code - (start + 1)) * kpk + col] == keysyms[(code - start) * kpk + col]);
        assert((code - (start + 1)) * kpk >= 0) by (nonlinear_arith)
            requires
                code >= start + 1,
                kpk > 0,
        ;
        holding_code_is_found(rest, start + 1, kpk, width, keysym, code, col);
        let later = codes_from(rest, start + 1, kpk, width, keysym);
        let i = choose|i: int| 0 <= i < later.len() && later[i] == code;
        if found.len() == later.len() {
            assert(found[i] == code);
        } else {
            assert(found[i + 1] == code);
        }
    }
}

proof fn more_codes_keep_grabs(
    p: KeyGrabPlanV,
    mask: u16,
    keysym: u32,
    codes: Seq<u8>,
    fallback: bool,
    m: u16,
    c: u8,
)
    ensures
        grabbed(p.grabs, m, c) ==> grabbed(
            p.with_codes(mask, keysym, codes, fallback).grabs,
            m,
            c,
        ),
        codes.contains(c) ==> grabbed(
            p.with_codes(mask, keysym, codes, fallback).grabs,
            mask,
            c,
        ),
        p.with_codes(mask, keysym, codes, fallback).missing == p.missing,
    decreases codes.len(),
{
    if codes.len() > 0 {
        let q = p.with_codes(mask, keysym, codes.drop_last(), fallback);
        let r = p.with_codes(mask, keysym, codes, fallback);
        more_codes_keep_grabs(p, mask, keysym, codes.drop_last(), fallback, m, c);
        if grabbed(q.grabs, m, c) {
            let i = choose|i: int|
                0 <= i < q.grabs.len() && (#[trigger] q.grabs[i]).0 == m && q.grabs[i].2 == c;
            assert(r.grabs[i] == q.grabs[i]);
        }
        if grabbed(q.grabs, mask, c) {
            let i = choose|i: int|
                0 <= i < q.grabs.len() && (#[trigger] q.grabs[i]).0 == mask && q.grabs[i].2 == c;
            assert(r.grabs[i] == q.grabs[i]);
        }
        if codes.contains(c) {
            let i = choose|i: int| 0 <= i < codes.len() && codes[i] == c;
            if i < codes.len() - 1 {
                assert(codes.drop_last()[i] == c);
            } else {
                if !grabbed(q.grabs, mask, c) {
                    assert(r.grabs[r.grabs.len() - 1] == (mask, keysym, c));
                }
            }
        }
    }
}

/// Every binding is grabbed on every key that has its keysym in the first group, or,
/// where none has, on every key that has it anywhere; and a binding is reported as
/// missing just where no key has its keysym.
pub proof fn every_binding_is_grabbed_or_missing(
    keysyms: Seq<u32>,
    min: u8,
    kpk: usize,
    binds: Seq<(u16, u32)>,
    b: (u16, u32),
    code: u8,
)
    requires
        kpk > 0,
        binds.contains(b),
    ensures
        ({
            let p = plan_of(keysyms, min, kpk, binds);
            let near = group1_codes(keysyms, min, kpk, b.1);
            let far = any_codes(keysyms, min, kpk, b.1);
            &&& near.contains(code) ==> grabbed(p.grabs, b.0, code)
            &&& near.len() == 0 && far.contains(code) ==> grabbed(p.grabs, b.0, code)
            &&& p.missing.contains(b) <==> near.len() == 0 && far.len() == 0
        }),
    decreases binds.len(),
{
    let before = binds.drop_last();
    let q = plan_of(keysyms, min, kpk, before);
    let (mask, keysym) = binds.last();
    let near = group1_codes(keysyms, min, kpk, keysym);
    let far = any_codes(keysyms, min, kpk, keysym);
    let p = plan_of(keysyms, min, kpk, binds);
    more_codes_keep_grabs(q, mask, keysym, near, false, b.0, code);
    more_codes_keep_grabs(q, mask, keysym, far, true, b.0, code);
    missing_is_justified(keysyms, min, kpk, before, b);
    let i = choose|i: int| 0 <= i < binds.len() && binds[i] == b;
    if i < before.len() {
        assert(before[i] == b);
        every_binding_is_grabbed_or_missing(keysyms, min, kpk, before, b, code);
        if q.missing.contains(b) {
            let k = choose|k: int| 0 <= k < q.missing.len() && q.missing[k] == b;
            assert(p.missing[k] == b);
        }
    } else if near.len() == 0 && far.len() == 0 {
        assert(p.missing[p.missing.len() - 1] == b);
    }
    missing_is_justified(keysyms, min, kpk, binds, b);
}

proof fn missing_is_justified(
    keysyms: Seq<u32>,
    min: u8,
    kpk: usize,
    binds: Seq<(u16, u32)>,
    b: (u16, u32),
)
    ensures
        plan_of(keysyms, min, kpk, binds).missing.contains(b) ==> group1_codes(
            keysyms,
            min,
            kpk,
            b.1,
        ).len() == 0 && any_codes(keysyms, min, kpk, b.1).len() == 0,
    decreases binds.len(),
{
    if binds.len() > 0 && kpk > 0 {
        let before = binds.drop_last();
        missing_is_justified(keysyms, min, kpk, before, b);
        let q = plan_of(keysyms, min, kpk, before);
        let (mask, keysym) = binds.last();
        let near = group1_codes(keysyms, min, kpk, keysym);
        let far = any_codes(keysyms, min, kpk, keysym);
        more_codes_keep_grabs(q, mask, keysym, near, false, 0, 0);
        more_codes_keep_grabs(q, mask, keysym, far, true, 0, 0);
        let p = plan_of(keysyms, min, kpk, binds);
        if p.missing.contains(b) {
            let k = choose|k: int| 0 <= k < p.missing.len() && p.missing[k] == b;
            if k < q.missing.len() {
                assert(q.missing[k] == b);
            }
        }
    }
}

// ---- What rests -------------------------------------------------------------

/// A binding that starts a program rests for 200 milliseconds after it fired, and any
/// other for 60.
pub proof fn programs_rest_longer(a: ActionV)
    ensures
        a is Spawn ==> rest_after(a) == 200,
        a is Do ==> rest_after(a) == 60,
{
}

/// Firing one binding neither holds back nor releases another: a key that fired
/// within the last second rests just as long as before.
pub proof fn other_bindings_rest_as_before(
    times: Seq<(u16, u32, u64)>,
    key: (u16, u32),
    other: (u16, u32),
    a: ActionV,
    now: u64,
    later: u64,
)
    requires
        other != key,
        now <= later,
    ensures
        too_soon(
            times.filter(recent(now)).filter(of_other_key(key)).push((key.0, key.1, now)),
            other,
            rest_after(a),
            later,
        ) <==> too_soon(times, other, rest_after(a), later),
{
    let kept = times.filter(recent(now));
    let s = kept.filter(of_other_key(key));
    let t = s.push((key.0, key.1, now));
    let n = rest_after(a);
    if too_soon(times, other, n, later) {
        let i = choose|i: int|
            0 <= i < times.len() && (#[trigger] times[i]).0 == other.0 && times[i].1 == other.1
                && later < times[i].2 + n;
        let e = times[i];
        times.lemma_filter_contains(recent(now), i);
        assert(kept.contains(e));
        let j = choose|j: int| 0 <= j < kept.len() && kept[j] == e;
        kept.lemma_filter_contains(of_other_key(key), j);
        assert(s.contains(e));
        let k = choose|k: int| 0 <= k < s.len() && s[k] == e;
        assert(t[k] == e);
    }
    if too_soon(t, other, n, later) {
        let k = choose|k: int|
            0 <= k < t.len() && (#[trigger] t[k]).0 == other.0 && t[k].1 == other.1 && later
                < t[k].2 + n;
        assert(k < s.len());
        assert(s[k] == t[k]);
        assert(s.contains(t[k]));
        kept.lemma_filter_contains_rev(of_other_key(key), t[k]);
        times.lemma_filter_contains_rev(recent(now), t[k]);
        let i = choose|i: int| 0 <= i < times.len() && times[i] == t[k];
        assert(times[i] == t[k]);
    }
}

/// A binding fires again once its rest is over: only the moment it fired last counts.
pub proof fn rested_binding_fires_again(
    times: Seq<(u16, u32, u64)>,
    key: (u16, u32),
    a: ActionV,
    now: u64,
    later: u64,
)
    requires
        later >= now + rest_after(a),
    ensures
        !too_soon(
            times.filter(recent(now)).filter(of_other_key(key)).push((key.0, key.1, now)),
            key,
            rest_after(a),
            later,
        ),
{
    let kept = times.filter(recent(now));
    let s = kept.filter(of_other_key(key));
    let t = s.push((key.0, key.1, now));
    assert forall|i: int|
        0 <= i < t.len() && (#[trigger] t[i]).0 == key.0 && t[i].1 == key.1 implies !(later
        < t[i].2 + rest_after(a)) by {
        if i < s.len() {
            kept.lemma_filter_pred(of_other_key(key), i);
        }
    }
}

/// What fired more than a second ago is forgotten when a binding fires, and what
/// fired since is kept.
pub proof fn old_presses_are_forgotten(
    times: Seq<(u16, u32, u64)>,
    key: (u16, u32),
    now: u64,
    e: (u16, u32, u64),
)
    requires
        times.contains(e),
        (e.0, e.1) != key,
    ensures
        times.filter(recent(now)).filter(of_other_key(key)).contains(e) <==> e.2 + 1000 >= now,
{
    let kept = times.filter(recent(now));
    let s = kept.filter(of_other_key(key));
    if e.2 + 1000 >= now {
        let i = choose|i: int| 0 <= i < times.len() && times[i] == e;
        times.lemma_filter_contains(recent(now), i);
        let j = choose|j: int| 0 <= j < kept.len() && kept[j] == e;
        kept.lemma_filter_contains(of_other_key(key), j);
    }
    if s.contains(e) {
        kept.lemma_filter_contains_rev(of_other_key(key), e);
        let j = choose|j: int| 0 <= j < kept.len() && kept[j] == e;
        times.lemma_filter_pred(recent(now), j);
    }
}

/// A modifier that is held is named after those before it, with a plus sign between
/// them, and one that is not is not named; the key comes last.
pub proof fn held_modifiers_are_named(a: Seq<char>, name: Seq<char>, mask: u16, keysym: u32)
    ensures
        with_mod(a, false, name) == a,
        with_mod(Seq::empty(), true, name) == name,
        a.len() > 0 ==> with_mod(a, true, name) == a + "+"@ + name,
        mods_text(mask).len() == 0 ==> bind_text(mask, keysym) == keysym_text(keysym),
        mods_text(mask).len() > 0 ==> bind_text(mask, keysym) == mods_text(mask) + "+"@
            + keysym_text(keysym),
{
}

/// A number is written in base sixteen digit by digit, the last digit last.
pub proof fn number_is_written_in_base_sixteen(n: nat, d: nat)
    requires
        d < 16,
    ensures
        hex_text(d).len() == 1,
        d < 10 ==> hex_text(d)[0] as u32 == '0' as u32 + d,
        d >= 10 ==> hex_text(d)[0] as u32 == 'a' as u32 + (d - 10),
        n > 0 ==> hex_text(16 * n + d) == hex_text(n) + hex_text(d),
{
    reveal_strlit("0123456789abcdef");
    assert((16 * n + d) / 16 == n && (16 * n + d) % 16 == d);
}

} // verus!
