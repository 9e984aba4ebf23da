//! Text as window properties and rules use it.

use vstd::prelude::*;
use vstd::string::*;

verus! {

/// The lower-case form of a text.
pub uninterp spec fn lowercased(s: Seq<char>) -> Seq<char>;

/// `str::to_lowercase`. Claimed: the result is a function of the text.
#[verifier::external_body]
pub(crate) fn to_lowercase(s: &str) -> (r: String)
    ensures
        r@ == lowercased(s@),
{
    s.to_lowercase()
}

/// `needle` occurs in `hay` as a run of consecutive characters.
pub open spec fn occurs_in(hay: Seq<char>, needle: Seq<char>) -> bool {
    exists|i: int|
        0 <= i <= hay.len() - needle.len() && #[trigger] hay.subrange(i, i + needle.len())
            == needle
}

/// `str::contains` with a text as its pattern. Claimed: whether the pattern
/// occurs in the text.
#[verifier::external_body]
pub(crate) fn text_contains(hay: &str, needle: &str) -> (b: bool)
    ensures
        b == occurs_in(hay@, needle@),
{
    hay.contains(needle)
}

/// `c` with an upper-case ASCII letter made lower-case.
pub open spec fn ascii_lower(c: char) -> char {
    if 'A' <= c <= 'Z' {
        (c as u32 + 32) as char
    } else {
        c
    }
}

/// Every upper-case ASCII letter made lower-case.
pub open spec fn ascii_lowercased(s: Seq<char>) -> Seq<char> {
    s.map_values(|c: char| ascii_lower(c))
}

/// The text with every upper-case ASCII letter made lower-case.
pub(crate) fn to_ascii_lowercase(s: &str) -> (r: String)
    ensures
        r@ == ascii_lowercased(s@),
{
    let n: usize = s.unicode_len();
    let mut r: String = "".to_owned();
    let mut i: usize = 0;
    proof {
        reveal_strlit("");
        reveal_strlit("abcdefghijklmnopqrstuvwxyz");
    }
    assert(r@ =~= ascii_lowercased(s@.take(0)));
    while i < n
        invariant
            i <= n,
            n == s@.len(),
            r@ == ascii_lowercased(s@.take(i as int)),
            forall|k: int|
                0 <= k < 26 ==> (#[trigger] "abcdefghijklmnopqrstuvwxyz"@[k]) as int == 97 + k,
            "abcdefghijklmnopqrstuvwxyz"@.len() == 26,
        decreases n - i,
    {
        let c: char = s.get_char(i);
        if 'A' <= c && c <= 'Z' {
            let k: usize = (c as u32 - 65) as usize;
            r.append("abcdefghijklmnopqrstuvwxyz".substring_char(k, k + 1));
        } else {
            r.append(s.substring_char(i, i + 1));
        }
        assert(r@ =~= ascii_lowercased(s@.take(i as int)).push(ascii_lower(c)));
        assert(ascii_lowercased(s@.take(i as int + 1)) =~= ascii_lowercased(
            s@.take(i as int),
        ).push(ascii_lower(c)));
        i = i + 1;
    }
    assert(s@.take(i as int) =~= s@);
    r
}

/// The text that a sequence of bytes stands for, with what is no UTF-8
/// replaced.
pub uninterp spec fn lossy_text(bytes: Seq<u8>) -> Seq<char>;

/// `String::from_utf8_lossy`. Claimed: the result is a function of the bytes.
#[verifier::external_body]
pub(crate) fn from_utf8_lossy(bytes: &Vec<u8>) -> (r: String)
    ensures
        r@ == lossy_text(bytes@),
{
    String::from_utf8_lossy(bytes).into_owned()
}

/// Whether two texts are the same.
pub fn same_text(a: &str, b: &str) -> (r: bool)
    ensures
        r == (a@ == b@),
{
    let n: usize = a.unicode_len();
    if n != b.unicode_len() {
        return false;
    }
    let mut i: usize = 0;
    while i < n
        invariant
            i <= n,
            n == a@.len(),
            n == b@.len(),
            forall|j: int| 0 <= j < i ==> a@[j] == b@[j],
        decreases n - i,
    {
        if a.get_char(i) != b.get_char(i) {
            return false;
        }
        i = i + 1;
    }
    assert(a@ =~= b@);
    true
}

/// The text before the first NUL, or all of it.
pub open spec fn before_nul(s: Seq<char>) -> Seq<char>
    decreases s.len(),
{
    if s.len() == 0 || s[0] == '\0' {
        Seq::empty()
    } else {
        seq![s[0]] + before_nul(s.skip(1))
    }
}

/// The text after the first NUL, or none.
pub open spec fn after_nul(s: Seq<char>) -> Seq<char>
    decreases s.len(),
{
    if s.len() == 0 {
        Seq::empty()
    } else if s[0] == '\0' {
        s.skip(1)
    } else {
        after_nul(s.skip(1))
    }
}

/// Where the first NUL stands decides both halves.
proof fn nul_split_at(s: Seq<char>, k: int)
    requires
        0 <= k <= s.len(),
        forall|j: int| 0 <= j < k ==> s[j] != '\0',
        k < s.len() ==> s[k] == '\0',
    ensures
        before_nul(s) == s.take(k),
        after_nul(s) == (if k < s.len() {
            s.skip(k + 1)
        } else {
            Seq::empty()
        }),
    decreases s.len(),
{
    if s.len() == 0 || k == 0 {
        assert(before_nul(s) =~= s.take(k));
        if s.len() > 0 {
            assert(after_nul(s) =~= s.skip(1));
        } else {
            assert(after_nul(s) =~= Seq::<char>::empty());
        }
    } else {
        let t = s.skip(1);
        assert forall|j: int| 0 <= j < k - 1 implies t[j] != '\0' by {
            assert(t[j] == s[j + 1]);
        }
        nul_split_at(t, k - 1);
        assert(seq![s[0]] + t.take(k - 1) =~= s.take(k));
        if k < s.len() {
            assert(t.skip(k) =~= s.skip(k + 1));
        }
    }
}

/// Split a text at its first NUL.
pub fn split_nul(s: &str) -> (r: (String, String))
    ensures
        r.0@ == before_nul(s@),
        r.1@ == after_nul(s@),
{
    let n: usize = s.unicode_len();
    let mut k: usize = 0;
    while k < n && s.get_char(k) != '\0'
        invariant
            k <= n,
            n == s@.len(),
            forall|j: int| 0 <= j < k ==> s@[j] != '\0',
        decreases n - k,
    {
        k = k + 1;
    }
    proof {
        nul_split_at(s@, k as int);
    }
    let first: String = s.substring_char(0, k).to_owned();
    assert(s@.subrange(0, k as int) =~= s@.take(k as int));
    if k < n {
        let second: String = s.substring_char(k + 1, n).to_owned();
        assert(s@.subrange(k as int + 1, n as int) =~= s@.skip(k as int + 1));
        (first, second)
    } else {
        (first, String::new())
    }
}

/// The texts of a list of words.
pub open spec fn texts(v: Seq<String>) -> Seq<Seq<char>> {
    v.map_values(|s: String| s@)
}

/// Whether `want` is one of the texts.
pub fn contains_text(v: &[String], want: &str) -> (b: bool)
    ensures
        b == texts(v@).contains(want@),
{
    let mut i: usize = 0;
    while i < v.len()
        invariant
            i <= v.len(),
            forall|j: int| 0 <= j < i ==> (#[trigger] texts(v@)[j]) != want@,
        decreases v.len() - i,
    {
        assert(texts(v@)[i as int] == v@[i as int]@);
        if same_text(v[i].as_str(), want) {
            return true;
        }
        i = i + 1;
    }
    false
}

/// The same texts again.
pub fn copy_texts(v: &Vec<String>) -> (r: Vec<String>)
    ensures
        texts(r@) == texts(v@),
{
    let mut r: Vec<String> = Vec::new();
    let mut i: usize = 0;
    while i < v.len()
        invariant
            i <= v.len(),
            texts(r@) == texts(v@.take(i as int)),
        decreases v.len() - i,
    {
        let ghost before = r@;
        r.push(v[i].as_str().to_owned());
        proof {
            assert(texts(r@) =~= texts(before).push(v@[i as int]@));
            assert(texts(v@.take(i as int + 1)) =~= texts(v@.take(i as int)).push(v@[i as int]@));
        }
        i = i + 1;
    }
    assert(v@.take(i as int) =~= v@);
    r
}

/// A decimal digit.
pub open spec fn decimal_digit(d: nat) -> Seq<char> {
    "0123456789"@.subrange(d as int, d as int + 1)
}

/// A number in base ten.
pub open spec fn decimal_text(n: nat) -> Seq<char>
    decreases n,
{
    if n < 10 {
        decimal_digit(n)
    } else {
        decimal_text(n / 10) + decimal_digit(n % 10)
    }
}

/// A number in base ten.
pub fn decimal(n: u64) -> (s: String)
    ensures
        s@ == decimal_text(n as nat),
    decreases n,
{
    proof {
        reveal_strlit("0123456789");
    }
    let d: usize = (n % 10) as usize;
    let digit: &str = "0123456789".substring_char(d, d + 1);
    if n < 10 {
        digit.to_owned()
    } else {
        decimal(n / 10).concat(digit)
    }
}

/// Text up to a zero character and text after it, with the character between them,
/// are the whole text; text without one is all before it.
pub proof fn text_falls_apart_at_its_first_nul(s: Seq<char>)
    ensures
        !before_nul(s).contains('\0'),
        s.contains('\0') ==> s == before_nul(s) + seq!['\0'] + after_nul(s),
        !s.contains('\0') ==> before_nul(s) == s && after_nul(s).len() == 0,
    decreases s.len(),
{
    if s.len() > 0 {
        let rest = s.skip(1);
        assert(s =~= seq![s[0]] + rest);
        if s[0] == '\0' {
            assert(before_nul(s) =~= Seq::empty());
            assert(s =~= before_nul(s) + seq!['\0'] + after_nul(s));
        } else {
            text_falls_apart_at_its_first_nul(rest);
            let b = before_nul(s);
            assert(b =~= seq![s[0]] + before_nul(rest));
            assert(!b.contains('\0')) by {
                if b.contains('\0') {
                    let i = choose|i: int| 0 <= i < b.len() && b[i] == '\0';
                    assert(before_nul(rest)[i - 1] == '\0');
                }
            }
            if s.contains('\0') {
                let i = choose|i: int| 0 <= i < s.len() && s[i] == '\0';
                assert(rest[i - 1] == '\0');
                assert(s =~= b + seq!['\0'] + after_nul(s));
            } else {
                assert(!rest.contains('\0')) by {
                    if rest.contains('\0') {
                        let i = choose|i: int| 0 <= i < rest.len() && rest[i] == '\0';
                        assert(s[i + 1] == '\0');
                    }
                }
                assert(b =~= s);
            }
        }
    }
}

/// A number is written digit by digit: its last digit stands last, and what comes
/// before it is the number without that digit.
pub proof fn number_is_written_digit_by_digit(n: nat, d: nat)
    requires
        d < 10,
    ensures
        decimal_text(d).len() == 1,
        decimal_text(d)[0] as u32 == '0' as u32 + d,
        n > 0 ==> decimal_text(10 * n + d) == decimal_text(n) + decimal_text(d),
{
    reveal_strlit("0123456789");
    assert((10 * n + d) / 10 == n && (10 * n + d) % 10 == d);
}

/// Only the letters from A to Z are lowered, each to the small letter in its place.
pub proof fn letters_are_lowered_one_by_one(s: Seq<char>, i: int)
    requires
        0 <= i < s.len(),
    ensures
        ascii_lowercased(s).len() == s.len(),
        'A' <= s[i] <= 'Z' ==> ascii_lowercased(s)[i] as u32 == s[i] as u32 + 32,
        !('A' <= s[i] <= 'Z') ==> ascii_lowercased(s)[i] == s[i],
{
}

} // verus!
