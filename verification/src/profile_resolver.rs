//! Exact keyboard-profile resolution. A platform probe lists the loaded
//! keyboard layouts, activates each one on its own thread, reads the exact
//! layout name, and restores the original layout after every probe. The
//! result is all or nothing.

use vstd::prelude::*;

use crate::text::{chars_of, string_of};

verus! {

/// The most keyboard layouts a resolution accepts.
pub const MAX_LOADED_KEYBOARD_LAYOUTS: usize = 64;

/// Why a resolution was refused.
#[derive(Debug, Clone, Copy, PartialEq, Eq)]
pub enum ProfileResolutionError {
    Unavailable,
    InvalidLayoutList,
    ActivationFailed,
    IdentityUnavailable,
    RestoreFailed,
    LayoutListChanged,
}

impl ProfileResolutionError {
    /// The diagnostic name of the error.
    pub fn describe(&self) -> (r: &'static str)
        ensures
            r@ == match *self {
                ProfileResolutionError::Unavailable => "profile_resolution_Unavailable"@,
                ProfileResolutionError::InvalidLayoutList => "profile_resolution_InvalidLayoutList"@,
                ProfileResolutionError::ActivationFailed => "profile_resolution_ActivationFailed"@,
                ProfileResolutionError::IdentityUnavailable => "profile_resolution_IdentityUnavailable"@,
                ProfileResolutionError::RestoreFailed => "profile_resolution_RestoreFailed"@,
                ProfileResolutionError::LayoutListChanged => "profile_resolution_LayoutListChanged"@,
            },
    {
        match self {
            ProfileResolutionError::Unavailable => "profile_resolution_Unavailable",
            ProfileResolutionError::InvalidLayoutList => "profile_resolution_InvalidLayoutList",
            ProfileResolutionError::ActivationFailed => "profile_resolution_ActivationFailed",
            ProfileResolutionError::IdentityUnavailable => "profile_resolution_IdentityUnavailable",
            ProfileResolutionError::RestoreFailed => "profile_resolution_RestoreFailed",
            ProfileResolutionError::LayoutListChanged => "profile_resolution_LayoutListChanged",
        }
    }
}

/// An exact Windows keyboard profile: the language identifier and the
/// keyboard layout identifier, written `LLLL:KKKKKKKK` in hexadecimal.
#[derive(Debug, Clone, Copy, PartialEq, Eq, Structural, Hash)]
pub struct WindowsKeyboardProfile {
    pub lang_id: u16,
    pub layout_id: u32,
}

/// The text was not a profile.
#[derive(Debug, Clone, Copy, PartialEq, Eq)]
pub struct InvalidProfile;

/// The value of hexadecimal digit `c`, in either case.
pub open spec fn hex_value(c: char) -> Option<nat> {
    if '0' <= c && c <= '9' {
        Some((c as nat - '0' as nat) as nat)
    } else if 'a' <= c && c <= 'f' {
        Some((c as nat - 'a' as nat + 10) as nat)
    } else if 'A' <= c && c <= 'F' {
        Some((c as nat - 'A' as nat + 10) as nat)
    } else {
        None
    }
}

/// The value of a string of hexadecimal digits.
pub open spec fn hex_number(s: Seq<char>) -> Option<nat>
    decreases s.len(),
{
    if s.len() == 0 {
        Some(0)
    } else {
        match (hex_number(s.drop_last()), hex_value(s.last())) {
            (Some(high), Some(d)) => Some(high * 16 + d),
            _ => None,
        }
    }
}

/// The profile that `s` spells: four and eight hexadecimal digits around a
/// colon; a zero layout identifier names no layout.
pub open spec fn parse_profile(s: Seq<char>) -> Option<WindowsKeyboardProfile> {
    if s.len() != 13 || s[4] != ':' {
        None
    } else {
        match (hex_number(s.take(4)), hex_number(s.skip(5))) {
            (Some(l), Some(k)) => if k == 0 {
                None
            } else {
                Some(WindowsKeyboardProfile { lang_id: l as u16, layout_id: k as u32 })
            },
            _ => None,
        }
    }
}

/// The upper-case digit for `d < 16`.
pub open spec fn hex_digit(d: nat) -> char {
    if d < 10 {
        (48 + d) as char
    } else {
        (55 + d) as char
    }
}

/// `v` in `n` upper-case hexadecimal digits.
pub open spec fn hex_text(v: nat, n: nat) -> Seq<char>
    decreases n,
{
    if n == 0 {
        Seq::<char>::empty()
    } else {
        hex_text(v / 16, (n - 1) as nat).push(hex_digit(v % 16))
    }
}

pub open spec fn profile_text(p: WindowsKeyboardProfile) -> Seq<char> {
    hex_text(p.lang_id as nat, 4) + seq![':'] + hex_text(p.layout_id as nat, 8)
}

proof fn lemma_hex_number_bound(s: Seq<char>)
    requires
        hex_number(s) is Some,
    ensures
        hex_number(s)->0 < pow16(s.len()),
    decreases s.len(),
{
    if s.len() > 0 {
        lemma_hex_number_bound(s.drop_last());
        let h = hex_number(s.drop_last())->0;
        let d = hex_value(s.last())->0;
        assert(h * 16 + d < pow16(s.len())) by (nonlinear_arith)
            requires
                h < pow16((s.len() - 1) as nat),
                d < 16,
                pow16(s.len()) == 16 * pow16((s.len() - 1) as nat),
        ;
    }
}

pub open spec fn pow16(n: nat) -> nat
    decreases n,
{
    if n == 0 {
        1
    } else {
        16 * pow16((n - 1) as nat)
    }
}

pub(crate) fn hex_value_exec(c: char) -> (r: Option<u32>)
    ensures
        match r {
            Some(v) => hex_value(c) == Some(v as nat) && v < 16,
            None => hex_value(c) is None,
        },
{
    if '0' <= c && c <= '9' {
        Some((c as u32) - ('0' as u32))
    } else if 'a' <= c && c <= 'f' {
        Some((c as u32) - ('a' as u32) + 10)
    } else if 'A' <= c && c <= 'F' {
        Some((c as u32) - ('A' as u32) + 10)
    } else {
        None
    }
}

fn hex_number_exec(s: &[char], start: usize, end: usize) -> (r: Option<u32>)
    requires
        start <= end <= s@.len(),
        end - start <= 8,
    ensures
        match r {
            Some(v) => hex_number(s@.subrange(start as int, end as int)) == Some(v as nat),
            None => hex_number(s@.subrange(start as int, end as int)) is None,
        },
{
    let mut v: u32 = 0;
    let mut i: usize = start;
    assert(s@.subrange(start as int, start as int) =~= Seq::<char>::empty());
    while i < end
        invariant
            start <= i <= end <= s@.len(),
            end - start <= 8,
            hex_number(s@.subrange(start as int, i as int)) == Some(v as nat),
            (v as nat) < pow16((i - start) as nat),
        decreases end - i,
    {
        let ghost pre = s@.subrange(start as int, i as int);
        assert(s@.subrange(start as int, i + 1).drop_last() =~= pre);
        assert(s@.subrange(start as int, i + 1).last() == s@[i as int]);
        match hex_value_exec(s[i]) {
            None => {
                proof {
                    lemma_hex_none_extends(s@.subrange(start as int, end as int), (i - start) as int + 1);
                    assert(s@.subrange(start as int, end as int).take((i - start) as int + 1) =~= s@.subrange(
                        start as int,
                        i + 1,
                    ));
                }
                return None;
            },
            Some(d) => {
                proof {
                    lemma_pow16_bound((i - start + 1) as nat);
                    assert(v * 16 + d < pow16((i - start + 1) as nat)) by (nonlinear_arith)
                        requires
                            (v as nat) < pow16((i - start) as nat),
                            d < 16,
                            pow16((i - start + 1) as nat) == 16 * pow16((i - start) as nat),
                    ;
                }
                v = v * 16 + d;
            },
        }
        i = i + 1;
    }
    Some(v)
}

proof fn lemma_pow16_bound(n: nat)
    requires
        n <= 8,
    ensures
        pow16(n) <= 0x1_0000_0000,
        n > 0 ==> pow16(n) == 16 * pow16((n - 1) as nat),
{
    reveal_with_fuel(pow16, 9);
}

proof fn lemma_hex_none_extends(s: Seq<char>, j: int)
    requires
        0 <= j <= s.len(),
        hex_number(s.take(j)) is None,
    ensures
        hex_number(s) is None,
    decreases s.len() - j,
{
    if j < s.len() {
        assert(s.take(j + 1).drop_last() =~= s.take(j));
        lemma_hex_none_extends(s, j + 1);
    } else {
        assert(s.take(j) =~= s);
    }
}

pub(crate) fn hex_text_exec(v: u32, n: usize) -> (r: Vec<char>)
    requires
        n <= 8,
    ensures
        r@ == hex_text(v as nat, n as nat),
    decreases n,
{
    if n == 0 {
        Vec::new()
    } else {
        let mut r = hex_text_exec(v / 16, n - 1);
        let d: u32 = v % 16;
        let c = if d < 10 {
            ((48 + d) as u8) as char
        } else {
            ((55 + d) as u8) as char
        };
        r.push(c);
        r
    }
}

impl WindowsKeyboardProfile {
    /// Parse `LLLL:KKKKKKKK`, hexadecimal digits in either case.
    pub fn parse(text: &str) -> (r: Result<WindowsKeyboardProfile, InvalidProfile>)
        ensures
            match r {
                Ok(p) => parse_profile(text@) == Some(p),
                Err(_) => parse_profile(text@) is None,
            },
    {
        let s = chars_of(text);
        if s.len() != 13 || s[4] != ':' {
            return Err(InvalidProfile);
        }
        assert(s@.subrange(0, 4) =~= s@.take(4));
        assert(s@.subrange(5, 13) =~= s@.skip(5));
        let l = match hex_number_exec(&s, 0, 4) {
            Some(l) => l,
            None => return Err(InvalidProfile),
        };
        let k = match hex_number_exec(&s, 5, 13) {
            Some(k) => k,
            None => return Err(InvalidProfile),
        };
        if k == 0 {
            return Err(InvalidProfile);
        }
        proof {
            lemma_hex_number_bound(s@.take(4));
            lemma_pow16_bound(4);
            reveal_with_fuel(pow16, 5);
        }
        Ok(WindowsKeyboardProfile { lang_id: l as u16, layout_id: k })
    }

    /// `LLLL:KKKKKKKK` in upper-case hexadecimal.
    pub fn to_text(&self) -> (r: String)
        ensures
            r@ == profile_text(*self),
    {
        let mut out = hex_text_exec(self.lang_id as u32, 4);
        out.push(':');
        let tail = hex_text_exec(self.layout_id, 8);
        let ghost head = out@;
        let mut i: usize = 0;
        while i < tail.len()
            invariant
                i <= tail@.len(),
                out@ == head + tail@.take(i as int),
            decreases tail.len() - i,
        {
            out.push(tail[i]);
            assert(tail@.take(i + 1) == tail@.take(i as int).push(tail@[i as int]));
            i = i + 1;
        }
        assert(tail@.take(tail@.len() as int) == tail@);
        string_of(&out)
    }
}

pub open spec fn strictly_sorted(s: Seq<usize>) -> bool {
    forall|i: int, j: int| 0 <= i < j < s.len() ==> s[i] < s[j]
}

pub open spec fn keys_of(ps: Seq<(usize, WindowsKeyboardProfile)>) -> Seq<usize> {
    ps.map_values(|p: (usize, WindowsKeyboardProfile)| p.0)
}

/// The content of a resolution: the loaded layouts in increasing order and
/// the bindings of the non-IME ones, by increasing layout.
pub struct ResolvedView {
    pub loaded: Seq<usize>,
    pub profiles: Seq<(usize, WindowsKeyboardProfile)>,
}

/// `layouts_with` lists exactly the layouts bound to the profile.
proof fn lemma_layouts_with_contains(ps: Seq<(usize, WindowsKeyboardProfile)>, p: WindowsKeyboardProfile, l: usize)
    ensures
        layouts_with(ps, p).contains(l) <==> exists|k: int| 0 <= k < ps.len() && ps[k] == (l, p),
    decreases ps.len(),
{
    if ps.len() > 0 {
        let init = ps.drop_last();
        lemma_layouts_with_contains(init, p, l);
        if exists|k: int| 0 <= k < init.len() && init[k] == (l, p) {
            let k = choose|k: int| 0 <= k < init.len() && init[k] == (l, p);
            assert(ps[k] == (l, p));
        }
        if exists|k: int| 0 <= k < ps.len() && ps[k] == (l, p) {
            let k = choose|k: int| 0 <= k < ps.len() && ps[k] == (l, p);
            if k < ps.len() - 1 {
                assert(init[k] == (l, p));
            }
        }
        if ps.last().1 == p {
            let w = layouts_with(init, p);
            if w.push(ps.last().0).contains(l) && !w.contains(l) {
                let m = choose|m: int| 0 <= m < w.push(ps.last().0).len() && w.push(ps.last().0)[m] == l;
                assert(m == w.len());
            }
            if w.contains(l) {
                let m = choose|m: int| 0 <= m < w.len() && w[m] == l;
                assert(w.push(ps.last().0)[m] == l);
            }
            if ps.last() == (l, p) {
                assert(w.push(ps.last().0)[w.len() as int] == l);
            }
        }
    }
}

/// With each layout bound once, `profile_of` gives the binding of a layout.
proof fn lemma_profile_of_binding(ps: Seq<(usize, WindowsKeyboardProfile)>, l: usize, p: WindowsKeyboardProfile)
    requires
        strictly_sorted(keys_of(ps)),
    ensures
        (profile_of(ps, l) == Some(p)) <==> exists|k: int| 0 <= k < ps.len() && ps[k] == (l, p),
    decreases ps.len(),
{
    if ps.len() > 0 {
        let rest = ps.drop_first();
        assert forall|i: int, j: int| 0 <= i < j < keys_of(rest).len() implies keys_of(rest)[i] < keys_of(rest)[j] by {
            assert(keys_of(rest)[i] == keys_of(ps)[i + 1] && keys_of(rest)[j] == keys_of(ps)[j + 1]);
        }
        lemma_profile_of_binding(rest, l, p);
        if exists|k: int| 0 <= k < ps.len() && ps[k] == (l, p) {
            let k = choose|k: int| 0 <= k < ps.len() && ps[k] == (l, p);
            if k > 0 {
                assert(rest[k - 1] == (l, p));
                assert(keys_of(ps)[0] < keys_of(ps)[k]);
            }
        }
        if exists|k: int| 0 <= k < rest.len() && rest[k] == (l, p) {
            let k = choose|k: int| 0 <= k < rest.len() && rest[k] == (l, p);
            assert(ps[k + 1] == (l, p));
            assert(keys_of(ps)[0] < keys_of(ps)[k + 1]);
        }
    }
}

/// The layouts bound to a profile are listed once each.
proof fn lemma_layouts_with_distinct(ps: Seq<(usize, WindowsKeyboardProfile)>, p: WindowsKeyboardProfile)
    requires
        strictly_sorted(keys_of(ps)),
    ensures
        layouts_with(ps, p).no_duplicates(),
    decreases ps.len(),
{
    if ps.len() > 0 {
        let init = ps.drop_last();
        assert forall|i: int, j: int| 0 <= i < j < keys_of(init).len() implies keys_of(init)[i] < keys_of(init)[j] by {
            assert(keys_of(init)[i] == keys_of(ps)[i] && keys_of(init)[j] == keys_of(ps)[j]);
        }
        lemma_layouts_with_distinct(init, p);
        if ps.last().1 == p {
            let w = layouts_with(init, p);
            let x = ps.last().0;
            lemma_layouts_with_contains(init, p, x);
            if w.contains(x) {
                let k = choose|k: int| 0 <= k < init.len() && init[k] == (x, p);
                assert(keys_of(ps)[k] < keys_of(ps)[ps.len() - 1]);
            }
            assert forall|i: int, j: int| 0 <= i < w.push(x).len() && 0 <= j < w.push(x).len() && i != j implies w.push(x)[i] != w.push(x)[j] by {
                if i < w.len() && j < w.len() {
                } else if i < w.len() {
                    assert(w.contains(w[i]));
                } else {
                    assert(w.contains(w[j]));
                }
            }
        }
    }
}

/// `unique_layout` finds `l` exactly when `l` is the only layout that
/// `profile` gives `p`; with two or more such layouts it finds none.
pub proof fn lemma_unique_layout(v: ResolvedView, p: WindowsKeyboardProfile, l: usize)
    requires
        resolved_wf(v),
    ensures
        (layouts_with(v.profiles, p).len() == 1 && layouts_with(v.profiles, p)[0] == l) <==> (profile_of(v.profiles, l)
            == Some(p) && forall|m: usize| #[trigger] profile_of(v.profiles, m) == Some(p) ==> m == l),
{
    let ps = v.profiles;
    let w = layouts_with(ps, p);
    lemma_layouts_with_contains(ps, p, l);
    lemma_profile_of_binding(ps, l, p);
    lemma_layouts_with_distinct(ps, p);
    if w.len() == 1 && w[0] == l {
        assert(w.contains(l));
        assert forall|m: usize| #[trigger] profile_of(ps, m) == Some(p) implies m == l by {
            lemma_profile_of_binding(ps, m, p);
            lemma_layouts_with_contains(ps, p, m);
            assert(w.contains(m));
        }
    }
    if profile_of(ps, l) == Some(p) && forall|m: usize| #[trigger] profile_of(ps, m) == Some(p) ==> m == l {
        assert(w.contains(l));
        assert forall|i: int| 0 <= i < w.len() implies w[i] == l by {
            lemma_layouts_with_contains(ps, p, w[i]);
            assert(w.contains(w[i]));
            lemma_profile_of_binding(ps, w[i], p);
        }
        if w.len() > 1 {
            assert(w[0] == l && w[1] == l);
        }
    }
}

/// The loaded layouts and the exact profile of each non-IME layout.
#[derive(Debug, Clone, PartialEq, Eq)]
pub struct ResolvedKeyboardProfiles {
    loaded: Vec<usize>,
    profiles: Vec<(usize, WindowsKeyboardProfile)>,
}

impl View for ResolvedKeyboardProfiles {
    type V = ResolvedView;

    closed spec fn view(&self) -> ResolvedView {
        ResolvedView { loaded: self.loaded@, profiles: self.profiles@ }
    }
}

/// Each layout once, in order; only loaded layouts have a profile.
pub open spec fn resolved_wf(v: ResolvedView) -> bool {
    &&& strictly_sorted(v.loaded)
    &&& strictly_sorted(keys_of(v.profiles))
    &&& forall|i: int| 0 <= i < v.profiles.len() ==> v.loaded.contains(#[trigger] v.profiles[i].0)
}

/// The profile bound to `layout`.
pub open spec fn profile_of(ps: Seq<(usize, WindowsKeyboardProfile)>, layout: usize) -> Option<WindowsKeyboardProfile>
    decreases ps.len(),
{
    if ps.len() == 0 {
        None
    } else if ps[0].0 == layout {
        Some(ps[0].1)
    } else {
        profile_of(ps.drop_first(), layout)
    }
}

/// The layouts bound to `profile`, in order.
pub open spec fn layouts_with(ps: Seq<(usize, WindowsKeyboardProfile)>, profile: WindowsKeyboardProfile) -> Seq<usize>
    decreases ps.len(),
{
    if ps.len() == 0 {
        Seq::<usize>::empty()
    } else if ps.last().1 == profile {
        layouts_with(ps.drop_last(), profile).push(ps.last().0)
    } else {
        layouts_with(ps.drop_last(), profile)
    }
}

fn is_strictly_sorted(s: &[usize]) -> (r: bool)
    ensures
        r == strictly_sorted(s@),
{
    let mut i: usize = 1;
    if s.len() == 0 {
        return true;
    }
    while i < s.len()
        invariant
            1 <= i <= s@.len(),
            strictly_sorted(s@.take(i as int)),
        decreases s.len() - i,
    {
        if s[i - 1] >= s[i] {
            assert(!strictly_sorted(s@) ) by {
                assert(s@[i - 1] >= s@[i as int]);
            }
            return false;
        }
        let ghost t = s@.take(i + 1);
        let ghost p = s@.take(i as int);
        assert forall|a: int, b: int| 0 <= a < b < t.len() implies #[trigger] t[a] < #[trigger] t[b] by {
            assert(t[a] == s@[a]);
            assert(t[b] == s@[b]);
            if b < i {
                assert(p[a] < p[b]);
            } else if a < i - 1 {
                assert(p[a] < p[i - 1]);
            }
        }
        assert(strictly_sorted(t));
        i = i + 1;
    }
    assert(s@.take(s@.len() as int) =~= s@);
    true
}

fn copy_slice<T: Copy>(s: &[T]) -> (r: Vec<T>)
    ensures
        r@ == s@,
{
    let mut r: Vec<T> = Vec::new();
    let mut i: usize = 0;
    while i < s.len()
        invariant
            i <= s@.len(),
            r@ == s@.take(i as int),
        decreases s.len() - i,
    {
        r.push(s[i]);
        assert(s@.take(i + 1) =~= s@.take(i as int).push(s@[i as int]));
        i = i + 1;
    }
    assert(s@.take(s@.len() as int) =~= s@);
    r
}

fn contains_usize(s: &[usize], x: usize) -> (r: bool)
    ensures
        r == s@.contains(x),
{
    let mut i: usize = 0;
    while i < s.len()
        invariant
            i <= s@.len(),
            forall|k: int| 0 <= k < i ==> s@[k] != x,
        decreases s.len() - i,
    {
        if s[i] == x {
            assert(s@[i as int] == x);
            return true;
        }
        i = i + 1;
    }
    false
}

fn binding_keys(ps: &[(usize, WindowsKeyboardProfile)]) -> (r: Vec<usize>)
    ensures
        r@ == keys_of(ps@),
{
    let mut r: Vec<usize> = Vec::new();
    let mut i: usize = 0;
    while i < ps.len()
        invariant
            i <= ps@.len(),
            r@ == keys_of(ps@).take(i as int),
        decreases ps.len() - i,
    {
        r.push(ps[i].0);
        assert(keys_of(ps@).take(i + 1) =~= keys_of(ps@).take(i as int).push(ps@[i as int].0));
        i = i + 1;
    }
    assert(keys_of(ps@).take(ps@.len() as int) =~= keys_of(ps@));
    r
}

impl ResolvedKeyboardProfiles {
    /// A resolution from its parts: the loaded layouts and the bindings, each
    /// in increasing order of layout, every bound layout loaded.
    pub fn from_parts(loaded: &[usize], profiles: &[(usize, WindowsKeyboardProfile)]) -> (r: Option<ResolvedKeyboardProfiles>)
        ensures
            match r {
                Some(x) => x@.loaded == loaded@ && x@.profiles == profiles@ && resolved_wf(x@),
                None => !resolved_wf(ResolvedView { loaded: loaded@, profiles: profiles@ }),
            },
    {
        if !is_strictly_sorted(loaded) {
            return None;
        }
        let keys = binding_keys(profiles);
        if !is_strictly_sorted(&keys) {
            return None;
        }
        let mut i: usize = 0;
        while i < profiles.len()
            invariant
                i <= profiles@.len(),
                forall|k: int| 0 <= k < i ==> loaded@.contains(#[trigger] profiles@[k].0),
            decreases profiles.len() - i,
        {
            if !contains_usize(loaded, profiles[i].0) {
                return None;
            }
            i = i + 1;
        }
        Some(ResolvedKeyboardProfiles { loaded: copy_slice(loaded), profiles: copy_slice(profiles) })
    }

    /// The profile bound to `layout`; IME layouts have none.
    pub fn profile(&self, layout: usize) -> (r: Option<WindowsKeyboardProfile>)
        ensures
            r == profile_of(self@.profiles, layout),
    {
        let ghost ps = self.profiles@;
        let mut i: usize = 0;
        assert(ps.skip(0) =~= ps);
        while i < self.profiles.len()
            invariant
                i <= ps.len(),
                ps == self.profiles@,
                profile_of(ps, layout) == profile_of(ps.skip(i as int), layout),
            decreases self.profiles.len() - i,
        {
            assert(ps.skip(i as int)[0] == ps[i as int]);
            assert(ps.skip(i as int).drop_first() =~= ps.skip(i + 1));
            if self.profiles[i].0 == layout {
                return Some(self.profiles[i].1);
            }
            i = i + 1;
        }
        None
    }

    /// The loaded layouts, in increasing order.
    pub fn loaded_layouts(&self) -> (r: Vec<usize>)
        ensures
            r@ == self@.loaded,
    {
        self.loaded.clone()
    }

    /// The only layout bound to `profile`; several handles for one exact
    /// profile are ambiguous, so none is chosen.
    pub fn unique_layout(&self, profile: WindowsKeyboardProfile) -> (r: Option<usize>)
        ensures
            r == (if layouts_with(self@.profiles, profile).len() == 1 {
                Some(layouts_with(self@.profiles, profile)[0])
            } else {
                None::<usize>
            }),
    {
        let ghost ps = self.profiles@;
        let mut found: Vec<usize> = Vec::new();
        let mut i: usize = 0;
        assert(ps.take(0) =~= Seq::<(usize, WindowsKeyboardProfile)>::empty());
        while i < self.profiles.len()
            invariant
                i <= ps.len(),
                ps == self.profiles@,
                found@ == layouts_with(ps.take(i as int), profile),
            decreases self.profiles.len() - i,
        {
            assert(ps.take(i + 1).drop_last() =~= ps.take(i as int));
            assert(ps.take(i + 1).last() == ps[i as int]);
            let (layout, p) = self.profiles[i];
            if p == profile {
                found.push(layout);
            }
            i = i + 1;
        }
        assert(ps.take(ps.len() as int) =~= ps);
        if found.len() == 1 {
            Some(found[0])
        } else {
            None
        }
    }

    /// The same resolution without the binding of `layout`.
    pub fn remove_profile(&mut self, layout: usize)
        ensures
            final(self)@.loaded == old(self)@.loaded,
            final(self)@.profiles == old(self)@.profiles.filter(|p: (usize, WindowsKeyboardProfile)| p.0 != layout),
    {
        let ghost all = self.profiles@;
        let ghost keep = |p: (usize, WindowsKeyboardProfile)| p.0 != layout;
        let mut kept: Vec<(usize, WindowsKeyboardProfile)> = Vec::new();
        let mut i: usize = 0;
        assert(all.take(0).filter(keep) =~= Seq::<(usize, WindowsKeyboardProfile)>::empty()) by {
            reveal(Seq::filter);
        }
        while i < self.profiles.len()
            invariant
                i <= all.len(),
                all == self.profiles@,
                kept@ == all.take(i as int).filter(keep),
                keep == (|p: (usize, WindowsKeyboardProfile)| p.0 != layout),
            decreases self.profiles.len() - i,
        {
            assert(all.take(i + 1).drop_last() =~= all.take(i as int));
            assert(all.take(i + 1).last() == all[i as int]);
            let entry = self.profiles[i];
            if entry.0 != layout {
                kept.push(entry);
            }
            assert(kept@ == all.take(i + 1).filter(keep)) by {
                reveal(Seq::filter);
            }
            i = i + 1;
        }
        assert(all.take(all.len() as int) =~= all);
        self.profiles = kept;
    }
}

/// Insert `x` into a strictly increasing sequence; false when present.
fn insert_sorted(set: &mut Vec<usize>, x: usize) -> (r: bool)
    requires
        strictly_sorted(old(set)@),
    ensures
        strictly_sorted(final(set)@),
        r == !old(set)@.contains(x),
        final(set)@.to_set() == old(set)@.to_set().insert(x),
        final(set)@.len() == old(set)@.len() + (if r { 1int } else { 0int }),
{
    let ghost before = set@;
    let mut p: usize = 0;
    while p < set.len() && set[p] < x
        invariant
            p <= set@.len(),
            set@ == before,
            strictly_sorted(before),
            forall|k: int| 0 <= k < p ==> before[k] < x,
        decreases set.len() - p,
    {
        p = p + 1;
    }
    if p < set.len() && set[p] == x {
        assert(before.contains(x));
        assert(before.to_set().insert(x) =~= before.to_set());
        return false;
    }
    assert(!before.contains(x)) by {
        if before.contains(x) {
            let k = choose|k: int| 0 <= k < before.len() && before[k] == x;
            if k >= p {
                assert(before[p as int] <= before[k]);
            }
        }
    }
    set.insert(p, x);
    assert(set@ =~= before.insert(p as int, x));
    assert forall|a: int, b: int| 0 <= a < b < set@.len() implies #[trigger] set@[a] < #[trigger] set@[b] by {
        if b < p {
            assert(set@[a] == before[a] && set@[b] == before[b]);
        } else if b == p {
            assert(set@[a] == before[a]);
        } else if a < p {
            assert(set@[b] == before[b - 1]);
            assert(before[a] < x);
            assert(before[p as int] >= x);
            assert(before[a] <= before[b - 1]);
        } else if a == p {
            assert(set@[b] == before[b - 1]);
            assert(before[p as int] >= x && before[p as int] != x);
            assert(before[p as int] <= before[b - 1]);
        } else {
            assert(set@[a] == before[a - 1] && set@[b] == before[b - 1]);
        }
    }
    assert(set@.to_set() =~= before.to_set().insert(x)) by {
        assert forall|y: usize| set@.to_set().contains(y) <==> before.to_set().insert(x).contains(y) by {
            if set@.contains(y) {
                let k = choose|k: int| 0 <= k < set@.len() && set@[k] == y;
                if k < p {
                    assert(before[k] == y);
                } else if k > p {
                    assert(before[k - 1] == y);
                }
            }
            if before.contains(y) {
                let k = choose|k: int| 0 <= k < before.len() && before[k] == y;
                if k < p {
                    assert(set@[k] == y);
                } else {
                    assert(set@[k + 1] == y);
                }
            }
            if y == x {
                assert(set@[p as int] == x);
            }
        }
    }
    true
}

/// A list that `checked_layouts` accepts: present, one to 64 entries, each
/// distinct and none of the special values 0 and 1.
pub open spec fn layout_list_ok(l: Seq<usize>) -> bool {
    &&& 1 <= l.len() <= MAX_LOADED_KEYBOARD_LAYOUTS
    &&& l.no_duplicates()
    &&& forall|k: int| 0 <= k < l.len() ==> #[trigger] l[k] > 1
}

/// Validate a loaded-layout list and give its layouts in increasing order.
fn checked_layouts(layouts: Option<Vec<usize>>) -> (r: Result<Vec<usize>, ProfileResolutionError>)
    ensures
        match layouts {
            None => r == Err::<Vec<usize>, ProfileResolutionError>(ProfileResolutionError::Unavailable),
            Some(l) => match r {
                Ok(v) => layout_list_ok(l@) && strictly_sorted(v@) && v@.to_set() == l@.to_set()
                    && v@.len() == l@.len(),
                Err(e) => !layout_list_ok(l@) && e == ProfileResolutionError::InvalidLayoutList,
            },
        },
{
    match layouts {
        Some(l) => checked_list(&l),
        None => Err(ProfileResolutionError::Unavailable),
    }
}

fn checked_list(layouts: &Vec<usize>) -> (r: Result<Vec<usize>, ProfileResolutionError>)
    ensures
        match r {
            Ok(v) => layout_list_ok(layouts@) && strictly_sorted(v@) && v@.to_set() == layouts@.to_set()
                && v@.len() == layouts@.len(),
            Err(e) => !layout_list_ok(layouts@) && e == ProfileResolutionError::InvalidLayoutList,
        },
{
    if layouts.len() == 0 || layouts.len() > MAX_LOADED_KEYBOARD_LAYOUTS {
        return Err(ProfileResolutionError::InvalidLayoutList);
    }
    let mut unique: Vec<usize> = Vec::new();
    let mut i: usize = 0;
    assert(layouts@.take(0).to_set() =~= Set::<usize>::empty());
    while i < layouts.len()
        invariant
            i <= layouts@.len(),
            strictly_sorted(unique@),
            unique@.to_set() == layouts@.take(i as int).to_set(),
            unique@.len() == i,
            layouts@.take(i as int).no_duplicates(),
            forall|k: int| 0 <= k < i ==> #[trigger] layouts@[k] > 1,
        decreases layouts.len() - i,
    {
        let layout = layouts[i];
        assert(layouts@.take(i + 1) =~= layouts@.take(i as int).push(layout));
        if layout <= 1 {
            return Err(ProfileResolutionError::InvalidLayoutList);
        }
        if !insert_sorted(&mut unique, layout) {
            proof {
                assert(unique@.to_set().contains(layout));
                assert(layouts@.take(i as int).to_set().contains(layout));
                let k = choose|k: int| 0 <= k < i && layouts@.take(i as int)[k] == layout;
                assert(layouts@[k] == layouts@[i as int]);
            }
            return Err(ProfileResolutionError::InvalidLayoutList);
        }
        proof {
            layouts@.take(i as int).lemma_push_to_set_commute(layout);
        }
        assert(layouts@.take(i + 1).no_duplicates()) by {
            assert(!layouts@.take(i as int).contains(layout)) by {
                if layouts@.take(i as int).contains(layout) {
                    assert(layouts@.take(i as int).to_set().contains(layout));
                }
            }
        }
        i = i + 1;
    }
    assert(layouts@.take(layouts@.len() as int) =~= layouts@);
    Ok(unique)
}

fn same_layouts(a: &Vec<usize>, b: &Vec<usize>) -> (r: bool)
    ensures
        r == (a@ == b@),
{
    if a.len() != b.len() {
        return false;
    }
    let mut i: usize = 0;
    while i < a.len()
        invariant
            i <= a@.len(),
            a@.len() == b@.len(),
            forall|k: int| 0 <= k < i ==> a@[k] == b@[k],
        decreases a.len() - i,
    {
        if a[i] != b[i] {
            return false;
        }
        i = i + 1;
    }
    assert(a@ =~= b@);
    true
}

fn same_bindings(a: &Vec<(usize, WindowsKeyboardProfile)>, b: &Vec<(usize, WindowsKeyboardProfile)>) -> (r: bool)
    ensures
        r == (a@ == b@),
{
    if a.len() != b.len() {
        return false;
    }
    let mut i: usize = 0;
    while i < a.len()
        invariant
            i <= a@.len(),
            a@.len() == b@.len(),
            forall|k: int| 0 <= k < i ==> a@[k] == b@[k],
        decreases a.len() - i,
    {
        if a[i].0 != b[i].0 || a[i].1 != b[i].1 {
            return false;
        }
        i = i + 1;
    }
    assert(a@ =~= b@);
    true
}

impl ResolvedKeyboardProfiles {
    /// Whether two resolutions hold the same layouts and bindings.
    pub fn same(&self, other: &ResolvedKeyboardProfiles) -> (r: bool)
        ensures
            r == (self@ == other@),
    {
        same_layouts(&self.loaded, &other.loaded) && same_bindings(&self.profiles, &other.profiles)
    }

    /// A copy with the same layouts and bindings.
    pub fn duplicate(&self) -> (r: ResolvedKeyboardProfiles)
        ensures
            r@ == self@,
    {
        ResolvedKeyboardProfiles { loaded: copy_slice(&self.loaded), profiles: copy_slice(&self.profiles) }
    }
}

/// The content of a `ProfileSnapshotCache`.
pub struct CacheView {
    pub snapshot: Option<ResolvedView>,
    pub confirmed_at: Option<u64>,
    pub generation: u64,
}

/// Freshness of the last accepted resolution. Times are milliseconds on a
/// monotonic clock. An unchanged refresh keeps the generation; losing the
/// snapshot or a changed binding advances it.
#[derive(Debug)]
pub struct ProfileSnapshotCache {
    snapshot: Option<ResolvedKeyboardProfiles>,
    confirmed_at: Option<u64>,
    generation: u64,
}

impl View for ProfileSnapshotCache {
    type V = CacheView;

    closed spec fn view(&self) -> CacheView {
        CacheView {
            snapshot: match self.snapshot {
                Some(s) => Some(s@),
                None => None,
            },
            confirmed_at: self.confirmed_at,
            generation: self.generation,
        }
    }
}

/// Whether the snapshot was confirmed no later than `now` and less than
/// `max_age` before it.
pub open spec fn is_fresh(c: CacheView, now: u64, max_age: u64) -> bool {
    &&& c.snapshot is Some
    &&& c.confirmed_at is Some
    &&& c.confirmed_at->0 <= now
    &&& now - c.confirmed_at->0 < max_age
}

/// The generation after one more change.
pub open spec fn next_generation(g: u64) -> u64 {
    if g == u64::MAX {
        0
    } else {
        (g + 1) as u64
    }
}

pub open spec fn invalidated(c: CacheView) -> CacheView {
    CacheView {
        snapshot: None,
        confirmed_at: None,
        generation: if c.snapshot is Some {
            next_generation(c.generation)
        } else {
            c.generation
        },
    }
}

impl Default for ProfileSnapshotCache {
    fn default() -> (r: ProfileSnapshotCache)
        ensures
            r@ == (CacheView { snapshot: None, confirmed_at: None, generation: 0 }),
    {
        ProfileSnapshotCache { snapshot: None, confirmed_at: None, generation: 0 }
    }
}

impl ProfileSnapshotCache {
    /// The snapshot while it is fresh; evidence dated after `now` is never
    /// accepted.
    pub fn current(&self, now: u64, max_age: u64) -> (r: Option<&ResolvedKeyboardProfiles>)
        ensures
            r is Some == is_fresh(self@, now, max_age),
            r is Some ==> Some(r->0@) == self@.snapshot,
    {
        let confirmed = match self.confirmed_at {
            Some(c) => c,
            None => return None,
        };
        let age = match now.checked_sub(confirmed) {
            Some(a) => a,
            None => return None,
        };
        if age < max_age {
            match &self.snapshot {
                Some(s) => Some(s),
                None => None,
            }
        } else {
            None
        }
    }

    pub fn generation(&self) -> (r: u64)
        ensures
            r == self@.generation,
    {
        self.generation
    }

    /// Drop the snapshot; true, with a new generation, when there was one.
    pub fn invalidate(&mut self) -> (r: bool)
        ensures
            r == old(self)@.snapshot is Some,
            final(self)@ == invalidated(old(self)@),
    {
        self.confirmed_at = None;
        if self.snapshot.is_some() {
            self.snapshot = None;
            self.generation = self.generation.wrapping_add(1);
            true
        } else {
            false
        }
    }

    /// Invalidate a snapshot that is no longer fresh.
    pub fn expire(&mut self, now: u64, max_age: u64) -> (r: bool)
        ensures
            is_fresh(old(self)@, now, max_age) ==> !r && final(self)@ == old(self)@,
            !is_fresh(old(self)@, now, max_age) ==> r == (old(self)@.snapshot is Some) && final(self)@
                == invalidated(old(self)@),
    {
        if self.current(now, max_age).is_none() {
            self.invalidate()
        } else {
            false
        }
    }

    /// Accept a resolution confirmed at `now`; true, with a new generation,
    /// when it differs from the snapshot held. Re-accepting an identical
    /// snapshot, however old, keeps the generation.
    pub fn accept(&mut self, snapshot: ResolvedKeyboardProfiles, now: u64, max_age: u64) -> (r: bool)
        ensures
            r == (old(self)@.snapshot != Some(snapshot@)),
            final(self)@ == (CacheView {
                snapshot: Some(snapshot@),
                confirmed_at: Some(now),
                generation: if r {
                    next_generation(old(self)@.generation)
                } else {
                    old(self)@.generation
                },
            }),
    {
        let changed = match &self.snapshot {
            Some(s) => !s.same(&snapshot),
            None => true,
        };
        if changed {
            self.generation = self.generation.wrapping_add(1);
        }
        self.snapshot = Some(snapshot);
        self.confirmed_at = Some(now);
        changed
    }
}

/// A platform provider for the resolver's own thread. Layout handles are
/// opaque; only the documented low word, the language identifier, is read.
pub trait KeyboardProfileProbe {
    fn loaded_layouts(&mut self) -> Option<Vec<usize>>;

    fn current_layout(&mut self) -> Option<usize>;

    fn is_ime(&mut self, layout: usize) -> bool;

    /// Activate on the calling thread; return the previous layout.
    fn activate_layout(&mut self, layout: usize) -> Option<usize>;

    fn current_layout_name(&mut self) -> Option<[u16; 9]>;
}

/// A layout name as the platform gives it: eight ASCII hexadecimal digits
/// and a terminating zero.
pub open spec fn name_ok(name: Seq<u16>) -> bool {
    &&& name.len() == 9
    &&& name[8] == 0
    &&& forall|k: int| 0 <= k < 8 ==> #[trigger] name[k] <= 0x7f && hex_value(name[k] as char) is Some
}

pub open spec fn name_text(name: Seq<u16>) -> Seq<char> {
    Seq::new(8, |k: int| name[k] as char)
}

/// The profile of `layout` whose layout name is `name`: the low word of the
/// handle and the nonzero identifier that the name spells.
pub open spec fn name_profile(layout: usize, name: Seq<u16>) -> Option<WindowsKeyboardProfile> {
    if name_ok(name) && hex_number(name_text(name))->0 != 0 {
        Some(
            WindowsKeyboardProfile {
                lang_id: (layout % 0x10000) as u16,
                layout_id: hex_number(name_text(name))->0 as u32,
            },
        )
    } else {
        None
    }
}

fn profile_from_name(layout: usize, name: [u16; 9]) -> (r: Option<WindowsKeyboardProfile>)
    ensures
        r == name_profile(layout, name@),
        r matches Some(p) ==> p.layout_id != 0 && p.lang_id == (layout % 0x10000) as u16,
{
    if name[8] != 0 {
        return None;
    }
    let ghost text = name_text(name@);
    let mut v: u32 = 0;
    let mut k: usize = 0;
    assert(text.take(0) =~= Seq::<char>::empty());
    while k < 8
        invariant
            k <= 8,
            name@.len() == 9,
            text == name_text(name@),
            hex_number(text.take(k as int)) == Some(v as nat),
            (v as nat) < pow16(k as nat),
            forall|j: int| 0 <= j < k ==> #[trigger] name@[j] <= 0x7f && hex_value(name@[j] as char) is Some,
        decreases 8 - k,
    {
        let c = name[k];
        if c > 0x7f {
            return None;
        }
        let ch = (c as u8) as char;
        assert(ch == name@[k as int] as char);
        assert(text.take(k + 1).drop_last() =~= text.take(k as int));
        assert(text.take(k + 1).last() == ch);
        match hex_value_exec(ch) {
            None => {
                return None;
            },
            Some(d) => {
                proof {
                    lemma_pow16_bound((k + 1) as nat);
                    assert(v * 16 + d < pow16((k + 1) as nat)) by (nonlinear_arith)
                        requires
                            (v as nat) < pow16(k as nat),
                            d < 16,
                            pow16((k + 1) as nat) == 16 * pow16(k as nat),
                    ;
                }
                v = v * 16 + d;
            },
        }
        k = k + 1;
    }
    assert(text.take(8) =~= text);
    if v == 0 {
        return None;
    }
    Some(WindowsKeyboardProfile { lang_id: (layout % 0x10000) as u16, layout_id: v })
}

fn same_opt(a: Option<usize>, b: Option<usize>) -> (r: bool)
    ensures
        r == (a == b),
{
    match (a, b) {
        (Some(x), Some(y)) => x == y,
        (None, None) => true,
        _ => false,
    }
}

/// Whether a restore is confirmed: the layout before it was known, the
/// activation reported exactly that layout as the previous one, and the
/// original layout is current afterwards.
pub open spec fn restore_confirmed(previous: Option<usize>, activated: Option<usize>, after: Option<usize>, original: usize) -> bool {
    previous is Some && activated == previous && after == Some(original)
}

fn confirm_restore(previous: Option<usize>, activated: Option<usize>, after: Option<usize>, original: usize) -> (r: bool)
    ensures
        r == restore_confirmed(previous, activated, after, original),
{
    previous.is_some() && same_opt(activated, previous) && same_opt(after, Some(original))
}

/// Every binding carries its layout's language (the low 16 bits of the
/// layout handle) and a non-zero layout identifier, as a well-formed layout
/// name gives them.
pub open spec fn named_bindings(ps: Seq<(usize, WindowsKeyboardProfile)>) -> bool {
    forall|k: int|
        0 <= k < ps.len() ==> (#[trigger] ps[k]).1.lang_id == (ps[k].0 % 0x10000) as u16 && ps[k].1.layout_id != 0
}

/// Two strictly increasing sequences with the same elements are equal.
proof fn lemma_sorted_same_set(a: Seq<usize>, b: Seq<usize>)
    requires
        strictly_sorted(a),
        strictly_sorted(b),
        a.to_set() == b.to_set(),
    ensures
        a == b,
    decreases a.len(),
{
    if a.len() == 0 {
        if b.len() > 0 {
            assert(b.to_set().contains(b[0]));
            assert(!a.to_set().contains(b[0]));
        }
        assert(a =~= b);
    } else {
        if b.len() == 0 {
            assert(a.to_set().contains(a[0]));
            assert(!b.to_set().contains(a[0]));
        }
        assert(a.to_set().contains(a[0]) && b.to_set().contains(b[0]));
        assert(b.to_set().contains(a[0]));
        assert(a.to_set().contains(b[0]));
        let ja = choose|j: int| 0 <= j < b.len() && b[j] == a[0];
        let jb = choose|j: int| 0 <= j < a.len() && a[j] == b[0];
        if ja > 0 {
            assert(b[0] < b[ja]);
        }
        if jb > 0 {
            assert(a[0] < a[jb]);
        }
        assert(a[0] == b[0]);
        let ta = a.drop_first();
        let tb = b.drop_first();
        assert forall|x: usize| ta.to_set().contains(x) implies tb.to_set().contains(x) by {
            let k = choose|k: int| 0 <= k < ta.len() && ta[k] == x;
            assert(a[k + 1] == x && a[0] < x);
            assert(b.to_set().contains(x));
            let m = choose|m: int| 0 <= m < b.len() && b[m] == x;
            assert(m != 0);
            assert(tb[m - 1] == x);
        }
        assert forall|x: usize| tb.to_set().contains(x) implies ta.to_set().contains(x) by {
            let k = choose|k: int| 0 <= k < tb.len() && tb[k] == x;
            assert(b[k + 1] == x && b[0] < x);
            assert(a.to_set().contains(x));
            let m = choose|m: int| 0 <= m < a.len() && a[m] == x;
            assert(m != 0);
            assert(ta[m - 1] == x);
        }
        assert(ta.to_set() =~= tb.to_set());
        lemma_sorted_same_set(ta, tb);
        assert(a =~= seq![a[0]] + ta);
        assert(b =~= seq![b[0]] + tb);
    }
}

/// What the resolution asks the probe next.
#[derive(Debug, Clone, Copy, PartialEq, Eq, Structural)]
pub enum ProbeRequest {
    LoadedLayouts,
    CurrentLayout,
    IsIme(usize),
    ActivateLayout(usize),
    CurrentLayoutName,
}

/// The probe's answer to the last request.
#[derive(Debug, Clone, PartialEq, Eq)]
pub enum ProbeAnswer {
    Started,
    Layouts(Option<Vec<usize>>),
    Layout(Option<usize>),
    Ime(bool),
    Name(Option<[u16; 9]>),
}

pub enum AnswerView {
    Started,
    Layouts(Option<Seq<usize>>),
    Layout(Option<usize>),
    Ime(bool),
    Name(Option<Seq<u16>>),
}

impl View for ProbeAnswer {
    type V = AnswerView;

    open spec fn view(&self) -> AnswerView {
        match self {
            ProbeAnswer::Started => AnswerView::Started,
            ProbeAnswer::Layouts(l) => AnswerView::Layouts(
                match l {
                    Some(v) => Some(v@),
                    None => None,
                },
            ),
            ProbeAnswer::Layout(l) => AnswerView::Layout(*l),
            ProbeAnswer::Ime(b) => AnswerView::Ime(*b),
            ProbeAnswer::Name(n) => AnswerView::Name(
                match n {
                    Some(v) => Some(v@),
                    None => None,
                },
            ),
        }
    }
}

/// Where a resolution stands: which answer it waits for.
#[derive(Debug, Clone, Copy, PartialEq, Eq, Structural)]
pub enum ResolutionStage {
    Begin,
    Loaded,
    Original,
    Ime,
    PreActivation,
    Activation,
    ActivatedCurrent,
    Name,
    NameCurrent,
    RestorePrevious,
    RestoreActivation,
    RestoreAfter,
    FinalLayouts,
    FinalCurrent,
    Done,
}

/// A resolution in progress: the checked layouts, the original layout, the
/// layout being identified and what is known of it, and the bindings so
/// far.
#[derive(Debug, Clone)]
pub struct ProfileResolution {
    stage: ResolutionStage,
    loaded: Vec<usize>,
    original: usize,
    index: usize,
    profiles: Vec<(usize, WindowsKeyboardProfile)>,
    activated: bool,
    identity: Option<WindowsKeyboardProfile>,
    name: [u16; 9],
    restore_previous: Option<usize>,
    restore_activated: Option<usize>,
    retried: bool,
}

pub struct ResolutionView {
    pub stage: ResolutionStage,
    pub loaded: Seq<usize>,
    pub original: usize,
    pub index: int,
    pub profiles: Seq<(usize, WindowsKeyboardProfile)>,
    pub activated: bool,
    pub identity: Option<WindowsKeyboardProfile>,
    pub name: Seq<u16>,
    pub restore_previous: Option<usize>,
    pub restore_activated: Option<usize>,
    pub retried: bool,
}

impl View for ProfileResolution {
    type V = ResolutionView;

    closed spec fn view(&self) -> ResolutionView {
        ResolutionView {
            stage: self.stage,
            loaded: self.loaded@,
            original: self.original,
            index: self.index as int,
            profiles: self.profiles@,
            activated: self.activated,
            identity: self.identity,
            name: self.name@,
            restore_previous: self.restore_previous,
            restore_activated: self.restore_activated,
            retried: self.retried,
        }
    }
}

/// The next thing a resolution does: ask the probe, or finish.
#[derive(Debug, PartialEq, Eq)]
pub enum ResolutionStep {
    Ask(ProbeRequest),
    Finished(Result<ResolvedKeyboardProfiles, ProfileResolutionError>),
}

pub enum StepView {
    Ask(ProbeRequest),
    Finished(Result<ResolvedView, ProfileResolutionError>),
}

impl View for ResolutionStep {
    type V = StepView;

    open spec fn view(&self) -> StepView {
        match self {
            ResolutionStep::Ask(q) => StepView::Ask(*q),
            ResolutionStep::Finished(Ok(r)) => StepView::Finished(Ok(r@)),
            ResolutionStep::Finished(Err(e)) => StepView::Finished(Err(*e)),
        }
    }
}

/// The stages in which one layout is being identified.
pub open spec fn per_layout(stage: ResolutionStage) -> bool {
    !(stage is Begin || stage is Loaded || stage is Original || stage is FinalLayouts || stage is FinalCurrent
        || stage is Done)
}

/// The layout being identified.
pub open spec fn current_target(s: ResolutionView) -> usize {
    s.loaded[s.index]
}

/// The invariant of a resolution.
pub open spec fn resolution_wf(s: ResolutionView) -> bool {
    &&& 0 <= s.index <= s.loaded.len()
    &&& !(s.stage is Begin || s.stage is Loaded || s.stage is Done) ==> strictly_sorted(s.loaded) && 1 <= s.loaded.len()
        <= MAX_LOADED_KEYBOARD_LAYOUTS && forall|k: int| 0 <= k < s.loaded.len() ==> #[trigger] s.loaded[k] > 1
    &&& per_layout(s.stage) ==> s.index < s.loaded.len()
    &&& per_layout(s.stage) ==> (s.identity matches Some(p) ==> p.lang_id == (current_target(s) % 0x10000) as u16
        && p.layout_id != 0)
    &&& (s.stage is Begin || s.stage is Loaded || s.stage is Original) ==> s.profiles.len() == 0 && s.index == 0
    &&& strictly_sorted(keys_of(s.profiles))
    &&& bound_before(s.loaded, s.index, s.profiles)
    &&& named_bindings(s.profiles)
    &&& (s.stage is Ime || s.stage is PreActivation || s.stage is Activation || s.stage is ActivatedCurrent
        || s.stage is Name || s.stage is NameCurrent) ==> !s.retried
}

/// Every binding is for one of the first `index` layouts.
pub open spec fn bound_before(loaded: Seq<usize>, index: int, ps: Seq<(usize, WindowsKeyboardProfile)>) -> bool {
    forall|k: int| 0 <= k < ps.len() ==> exists|j: int| 0 <= j < index && loaded[j] == #[trigger] ps[k].0
}

/// How many requests a resolution can still make at most.
pub open spec fn remaining_requests(s: ResolutionView) -> nat {
    let rest = s.loaded.len() - s.index - 1;
    let within: int = match s.stage {
        ResolutionStage::Ime => 19,
        ResolutionStage::PreActivation => 18,
        ResolutionStage::Activation => 17,
        ResolutionStage::ActivatedCurrent => 16,
        ResolutionStage::Name => 15,
        ResolutionStage::NameCurrent => 14,
        ResolutionStage::RestorePrevious => if s.retried { 9 } else { 13 },
        ResolutionStage::RestoreActivation => if s.retried { 8 } else { 12 },
        ResolutionStage::RestoreAfter => if s.retried { 7 } else { 11 },
        _ => 0,
    };
    (match s.stage {
        ResolutionStage::Begin => 2000,
        ResolutionStage::Loaded => 1999,
        ResolutionStage::Original => 1998,
        ResolutionStage::FinalLayouts => 2,
        ResolutionStage::FinalCurrent => 1,
        ResolutionStage::Done => 0,
        _ => rest * 20 + 4 + within,
    }) as nat
}

pub open spec fn ask(s: ResolutionView, stage: ResolutionStage, q: ProbeRequest) -> (ResolutionView, StepView) {
    (ResolutionView { stage, ..s }, StepView::Ask(q))
}

pub open spec fn fail(s: ResolutionView, e: ProfileResolutionError) -> (ResolutionView, StepView) {
    (ResolutionView { stage: ResolutionStage::Done, ..s }, StepView::Finished(Err(e)))
}

/// Go to the layout at `s.index`: ask whether it is an IME layout, or, after
/// the last one, ask for the loaded layouts again.
pub open spec fn enter_layout(s: ResolutionView) -> (ResolutionView, StepView) {
    if s.index >= s.loaded.len() {
        ask(s, ResolutionStage::FinalLayouts, ProbeRequest::LoadedLayouts)
    } else {
        ask(
            ResolutionView { activated: false, identity: None, retried: false, ..s },
            ResolutionStage::Ime,
            ProbeRequest::IsIme(s.loaded[s.index]),
        )
    }
}

/// Start restoring the original layout: ask which layout is current.
pub open spec fn begin_restore(s: ResolutionView) -> (ResolutionView, StepView) {
    ask(s, ResolutionStage::RestorePrevious, ProbeRequest::CurrentLayout)
}

/// One step of a resolution: given its state and the probe's answer, the
/// next state and what it asks or returns. The loaded layouts are checked
/// and kept in increasing order; the original layout must be loaded; each
/// non-IME layout is activated only while the original is current, kept
/// only when the activation reports the original as previous and the
/// layout as current, named while it stays current, and followed by a
/// restore of the original that must report the layout before it, report
/// that layout as previous, and leave the original current (one retry,
/// whose outcome is a restore failure either way). At the end the loaded
/// layouts must not have changed and the original must be current.
pub open spec fn resolution_next(s: ResolutionView, a: AnswerView, t: ResolutionView, out: StepView) -> bool {
    match (s.stage, a) {
        (ResolutionStage::Begin, _) => (t, out) == ask(s, ResolutionStage::Loaded, ProbeRequest::LoadedLayouts),
        (ResolutionStage::Loaded, AnswerView::Layouts(None)) => (t, out) == fail(s, ProfileResolutionError::Unavailable),
        (ResolutionStage::Loaded, AnswerView::Layouts(Some(l))) => if !layout_list_ok(l) {
            (t, out) == fail(s, ProfileResolutionError::InvalidLayoutList)
        } else {
            &&& strictly_sorted(t.loaded)
            &&& t.loaded.to_set() == l.to_set()
            &&& t.loaded.len() == l.len()
            &&& t == ResolutionView { stage: ResolutionStage::Original, loaded: t.loaded, ..s }
            &&& out == StepView::Ask(ProbeRequest::CurrentLayout)
        },
        (ResolutionStage::Original, AnswerView::Layout(None)) => (t, out) == fail(s, ProfileResolutionError::Unavailable),
        (ResolutionStage::Original, AnswerView::Layout(Some(o))) => if !s.loaded.contains(o) {
            (t, out) == fail(s, ProfileResolutionError::LayoutListChanged)
        } else {
            (t, out) == enter_layout(ResolutionView { original: o, index: 0, ..s })
        },
        (ResolutionStage::Ime, AnswerView::Ime(ime)) => if ime {
            (t, out) == enter_layout(ResolutionView { index: s.index + 1, ..s })
        } else {
            (t, out) == ask(s, ResolutionStage::PreActivation, ProbeRequest::CurrentLayout)
        },
        (ResolutionStage::PreActivation, AnswerView::Layout(c)) => if c != Some(s.original) {
            (t, out) == fail(s, ProfileResolutionError::ActivationFailed)
        } else {
            (t, out) == ask(s, ResolutionStage::Activation, ProbeRequest::ActivateLayout(current_target(s)))
        },
        (ResolutionStage::Activation, AnswerView::Layout(previous)) => if previous != Some(s.original) {
            (t, out) == begin_restore(ResolutionView { activated: false, identity: None, ..s })
        } else {
            (t, out) == ask(s, ResolutionStage::ActivatedCurrent, ProbeRequest::CurrentLayout)
        },
        (ResolutionStage::ActivatedCurrent, AnswerView::Layout(c)) => if c == Some(current_target(s)) {
            (t, out) == ask(ResolutionView { activated: true, ..s }, ResolutionStage::Name, ProbeRequest::CurrentLayoutName)
        } else {
            (t, out) == begin_restore(ResolutionView { activated: false, identity: None, ..s })
        },
        (ResolutionStage::Name, AnswerView::Name(None)) => (t, out) == begin_restore(ResolutionView { identity: None, ..s }),
        (ResolutionStage::Name, AnswerView::Name(Some(n))) => (t, out) == ask(
            ResolutionView { name: n, ..s },
            ResolutionStage::NameCurrent,
            ProbeRequest::CurrentLayout,
        ),
        (ResolutionStage::NameCurrent, AnswerView::Layout(c)) => (t, out) == begin_restore(
            ResolutionView {
                identity: if c == Some(current_target(s)) {
                    name_profile(current_target(s), s.name)
                } else {
                    None
                },
                ..s
            },
        ),
        (ResolutionStage::RestorePrevious, AnswerView::Layout(p)) => (t, out) == ask(
            ResolutionView { restore_previous: p, ..s },
            ResolutionStage::RestoreActivation,
            ProbeRequest::ActivateLayout(s.original),
        ),
        (ResolutionStage::RestoreActivation, AnswerView::Layout(p)) => (t, out) == ask(
            ResolutionView { restore_activated: p, ..s },
            ResolutionStage::RestoreAfter,
            ProbeRequest::CurrentLayout,
        ),
        (ResolutionStage::RestoreAfter, AnswerView::Layout(after)) => if s.retried {
            (t, out) == fail(s, ProfileResolutionError::RestoreFailed)
        } else if !restore_confirmed(s.restore_previous, s.restore_activated, after, s.original) {
            (t, out) == begin_restore(ResolutionView { retried: true, ..s })
        } else if !s.activated {
            (t, out) == fail(s, ProfileResolutionError::ActivationFailed)
        } else {
            match s.identity {
                None => (t, out) == fail(s, ProfileResolutionError::IdentityUnavailable),
                Some(p) => (t, out) == enter_layout(
                    ResolutionView { profiles: s.profiles.push((current_target(s), p)), index: s.index + 1, ..s },
                ),
            }
        },
        (ResolutionStage::FinalLayouts, AnswerView::Layouts(None)) => (t, out) == fail(s, ProfileResolutionError::Unavailable),
        (ResolutionStage::FinalLayouts, AnswerView::Layouts(Some(l))) => if !layout_list_ok(l) {
            (t, out) == fail(s, ProfileResolutionError::InvalidLayoutList)
        } else if !(l.to_set() == s.loaded.to_set() && l.len() == s.loaded.len()) {
            (t, out) == fail(s, ProfileResolutionError::LayoutListChanged)
        } else {
            (t, out) == ask(s, ResolutionStage::FinalCurrent, ProbeRequest::CurrentLayout)
        },
        (ResolutionStage::FinalCurrent, AnswerView::Layout(c)) => if c != Some(s.original) {
            (t, out) == fail(s, ProfileResolutionError::RestoreFailed)
        } else {
            (t, out) == (
                ResolutionView { stage: ResolutionStage::Done, ..s },
                StepView::Finished(Ok(ResolvedView { loaded: s.loaded, profiles: s.profiles })),
            )
        },
        _ => (t, out) == fail(s, ProfileResolutionError::Unavailable),
    }
}

/// How one step moves through the layouts: the only layouts it ever
/// activates are the layout being identified, right after the original was
/// confirmed current, and the original itself; it moves on to the next
/// layout only past an IME layout or after the original was restored and
/// confirmed; and a layout is bound only at that point, to the identity
/// read while it was current.
pub proof fn lemma_step_order(s: ResolutionView, a: AnswerView, t: ResolutionView, out: StepView)
    requires
        resolution_wf(s),
        resolution_next(s, a, t, out),
    ensures
        out matches StepView::Ask(ProbeRequest::ActivateLayout(l)) ==> (l == s.original && (s.stage is RestorePrevious))
            || (l == current_target(s) && s.stage is PreActivation && a == AnswerView::Layout(Some(s.original))),
        t.index == s.index || t.index == s.index + 1 || (s.stage is Original && t.index == 0),
        t.index == s.index + 1 ==> (s.stage is Ime && a == AnswerView::Ime(true)) || (s.stage is RestoreAfter
            && (a matches AnswerView::Layout(after) && restore_confirmed(
            s.restore_previous,
            s.restore_activated,
            after,
            s.original,
        )) && s.activated && s.identity is Some),
        t.profiles.len() > s.profiles.len() ==> t.profiles == s.profiles.push((current_target(s), s.identity->0)),
        t.profiles.len() <= s.profiles.len() ==> t.profiles == s.profiles,
{
}

/// One non-IME layout with a faithful probe (activation makes the layout
/// current and reports the one before, the name is that of the current
/// layout): the requests are, in order, the current layout, activation of
/// the layout, the current layout, its name, the current layout, the
/// current layout, activation of the original, and the current layout;
/// afterwards the layout is bound to the profile its name spells, or, when
/// the name spells none, the resolution fails with `IdentityUnavailable`
/// after the original was restored.
pub proof fn lemma_faithful_layout(
    s: ResolutionView,
    n: Seq<u16>,
    t: Seq<ResolutionView>,
    out: Seq<StepView>,
)
    requires
        resolution_wf(s),
        s.stage is Ime,
        t.len() == 9,
        out.len() == 9,
        resolution_next(s, AnswerView::Ime(false), t[0], out[0]),
        resolution_next(t[0], AnswerView::Layout(Some(s.original)), t[1], out[1]),
        resolution_next(t[1], AnswerView::Layout(Some(s.original)), t[2], out[2]),
        resolution_next(t[2], AnswerView::Layout(Some(current_target(s))), t[3], out[3]),
        resolution_next(t[3], AnswerView::Name(Some(n)), t[4], out[4]),
        resolution_next(t[4], AnswerView::Layout(Some(current_target(s))), t[5], out[5]),
        resolution_next(t[5], AnswerView::Layout(Some(current_target(s))), t[6], out[6]),
        resolution_next(t[6], AnswerView::Layout(Some(current_target(s))), t[7], out[7]),
        resolution_next(t[7], AnswerView::Layout(Some(s.original)), t[8], out[8]),
    ensures
        out[0] == StepView::Ask(ProbeRequest::CurrentLayout),
        out[1] == StepView::Ask(ProbeRequest::ActivateLayout(current_target(s))),
        out[2] == StepView::Ask(ProbeRequest::CurrentLayout),
        out[3] == StepView::Ask(ProbeRequest::CurrentLayoutName),
        out[4] == StepView::Ask(ProbeRequest::CurrentLayout),
        out[5] == StepView::Ask(ProbeRequest::CurrentLayout),
        out[6] == StepView::Ask(ProbeRequest::ActivateLayout(s.original)),
        out[7] == StepView::Ask(ProbeRequest::CurrentLayout),
        name_profile(current_target(s), n) matches Some(p) ==> t[8].profiles == s.profiles.push(
            (current_target(s), p),
        ) && t[8].index == s.index + 1 && t[8].original == s.original && t[8].loaded == s.loaded,
        name_profile(current_target(s), n) is None ==> out[8] == StepView::Finished(
            Err(ProfileResolutionError::IdentityUnavailable),
        ),
{
}

/// The start of a run with a faithful probe: the loaded layouts are asked
/// for first, then the current layout; when the list is valid and holds
/// the current layout, the first layout in increasing order is examined
/// next, nothing bound yet.
pub proof fn lemma_faithful_start(
    s: ResolutionView,
    loaded: Seq<usize>,
    original: usize,
    t: Seq<ResolutionView>,
    out: Seq<StepView>,
)
    requires
        resolution_start(s),
        layout_list_ok(loaded),
        loaded.contains(original),
        t.len() == 3,
        out.len() == 3,
        resolution_next(s, AnswerView::Started, t[0], out[0]),
        resolution_next(t[0], AnswerView::Layouts(Some(loaded)), t[1], out[1]),
        resolution_next(t[1], AnswerView::Layout(Some(original)), t[2], out[2]),
    ensures
        out[0] == StepView::Ask(ProbeRequest::LoadedLayouts),
        out[1] == StepView::Ask(ProbeRequest::CurrentLayout),
        strictly_sorted(t[2].loaded),
        t[2].loaded.to_set() == loaded.to_set(),
        t[2].original == original,
        t[2].index == 0,
        t[2].profiles.len() == 0,
        out[2] == StepView::Ask(ProbeRequest::IsIme(t[2].loaded[0])),
{
    assert(loaded.to_set().contains(original));
    assert(t[1].loaded.to_set().contains(original));
}

/// The end of a run with a faithful probe: after the last layout the
/// loaded layouts are asked for again and then the current layout; when
/// the list is unchanged and the original is current, the resolution
/// returns the layouts and the bindings made.
pub proof fn lemma_faithful_end(
    s: ResolutionView,
    again: Seq<usize>,
    t: Seq<ResolutionView>,
    out: Seq<StepView>,
)
    requires
        resolution_wf(s),
        s.stage is FinalLayouts,
        layout_list_ok(again),
        again.to_set() == s.loaded.to_set(),
        again.len() == s.loaded.len(),
        t.len() == 2,
        out.len() == 2,
        resolution_next(s, AnswerView::Layouts(Some(again)), t[0], out[0]),
        resolution_next(t[0], AnswerView::Layout(Some(s.original)), t[1], out[1]),
    ensures
        out[0] == StepView::Ask(ProbeRequest::CurrentLayout),
        out[1] == StepView::Finished(Ok(ResolvedView { loaded: s.loaded, profiles: s.profiles })),
{
}

/// An IME layout is never activated: the resolution moves on to the next
/// layout with the bindings unchanged.
pub proof fn lemma_ime_skipped(s: ResolutionView, t: ResolutionView, out: StepView)
    requires
        resolution_wf(s),
        s.stage is Ime,
        resolution_next(s, AnswerView::Ime(true), t, out),
    ensures
        t.index == s.index + 1,
        t.profiles == s.profiles,
        !(out matches StepView::Ask(ProbeRequest::ActivateLayout(_))),
{
}

impl ProfileResolution {
    /// A resolution that has not asked anything yet.
    pub fn new() -> (r: ProfileResolution)
        ensures
            r@.stage is Begin,
            r@.profiles.len() == 0,
            r@.index == 0,
            resolution_wf(r@),
    {
        let r = ProfileResolution {
            stage: ResolutionStage::Begin,
            loaded: Vec::new(),
            original: 0,
            index: 0,
            profiles: Vec::new(),
            activated: false,
            identity: None,
            name: [0u16; 9],
            restore_previous: None,
            restore_activated: None,
            retried: false,
        };
        assert(keys_of(r.profiles@) =~= Seq::<usize>::empty());
        r
    }

    fn ask_for(&mut self, stage: ResolutionStage, q: ProbeRequest) -> (r: ResolutionStep)
        ensures
            (final(self)@, r@) == ask(old(self)@, stage, q),
    {
        self.stage = stage;
        ResolutionStep::Ask(q)
    }

    fn fail_with(&mut self, e: ProfileResolutionError) -> (r: ResolutionStep)
        ensures
            (final(self)@, r@) == fail(old(self)@, e),
    {
        self.stage = ResolutionStage::Done;
        ResolutionStep::Finished(Err(e))
    }

    fn enter_layout_exec(&mut self) -> (r: ResolutionStep)
        requires
            old(self)@.index <= old(self)@.loaded.len(),
        ensures
            (final(self)@, r@) == enter_layout(old(self)@),
    {
        if self.index >= self.loaded.len() {
            self.ask_for(ResolutionStage::FinalLayouts, ProbeRequest::LoadedLayouts)
        } else {
            self.activated = false;
            self.identity = None;
            self.retried = false;
            let layout = self.loaded[self.index];
            self.ask_for(ResolutionStage::Ime, ProbeRequest::IsIme(layout))
        }
    }

    /// Advance with the probe's answer to the last request.
    #[verifier::rlimit(80)]
    #[verifier::spinoff_prover]
    pub fn step(&mut self, answer: ProbeAnswer) -> (r: ResolutionStep)
        requires
            resolution_wf(old(self)@),
        ensures
            resolution_next(old(self)@, answer@, final(self)@, r@),
            resolution_wf(final(self)@),
            r is Ask ==> remaining_requests(final(self)@) < remaining_requests(old(self)@),
    {
        let ghost s = self@;
        let ghost av = answer@;
        match (self.stage, answer) {
            (ResolutionStage::Begin, _) => self.ask_for(ResolutionStage::Loaded, ProbeRequest::LoadedLayouts),
            (ResolutionStage::Loaded, ProbeAnswer::Layouts(l)) => {
                match checked_layouts(l) {
                    Err(e) => self.fail_with(e),
                    Ok(v) => {
                        proof {
                            let lw = match av {
                                AnswerView::Layouts(Some(x)) => x,
                                _ => Seq::<usize>::empty(),
                            };
                            assert forall|k: int| 0 <= k < v@.len() implies #[trigger] v@[k] > 1 by {
                                assert(v@.to_set().contains(v@[k]));
                                assert(lw.to_set().contains(v@[k]));
                                let j = choose|j: int| 0 <= j < lw.len() && lw[j] == v@[k];
                            }
                        }
                        self.loaded = v;
                        self.ask_for(ResolutionStage::Original, ProbeRequest::CurrentLayout)
                    },
                }
            },
            (ResolutionStage::Original, ProbeAnswer::Layout(o)) => match o {
                None => self.fail_with(ProfileResolutionError::Unavailable),
                Some(o) => {
                    if !contains_usize(&self.loaded, o) {
                        self.fail_with(ProfileResolutionError::LayoutListChanged)
                    } else {
                        self.original = o;
                        self.index = 0;
                        self.enter_layout_exec()
                    }
                },
            },
            (ResolutionStage::Ime, ProbeAnswer::Ime(ime)) => {
                if ime {
                    self.index = self.index + 1;
                    proof {
                        let sv = self@;
                        assert forall|k: int| 0 <= k < sv.profiles.len() implies exists|j: int|
                            0 <= j < sv.index && sv.loaded[j] == #[trigger] sv.profiles[k].0 by {
                            let j = choose|j: int| 0 <= j < s.index && s.loaded[j] == s.profiles[k].0;
                            assert(sv.loaded[j] == sv.profiles[k].0);
                        }
                    }
                    self.enter_layout_exec()
                } else {
                    self.ask_for(ResolutionStage::PreActivation, ProbeRequest::CurrentLayout)
                }
            },
            (ResolutionStage::PreActivation, ProbeAnswer::Layout(c)) => {
                if !same_opt(c, Some(self.original)) {
                    self.fail_with(ProfileResolutionError::ActivationFailed)
                } else {
                    let layout = self.loaded[self.index];
                    self.ask_for(ResolutionStage::Activation, ProbeRequest::ActivateLayout(layout))
                }
            },
            (ResolutionStage::Activation, ProbeAnswer::Layout(previous)) => {
                if !same_opt(previous, Some(self.original)) {
                    self.activated = false;
                    self.identity = None;
                    self.ask_for(ResolutionStage::RestorePrevious, ProbeRequest::CurrentLayout)
                } else {
                    self.ask_for(ResolutionStage::ActivatedCurrent, ProbeRequest::CurrentLayout)
                }
            },
            (ResolutionStage::ActivatedCurrent, ProbeAnswer::Layout(c)) => {
                let layout = self.loaded[self.index];
                if same_opt(c, Some(layout)) {
                    self.activated = true;
                    self.ask_for(ResolutionStage::Name, ProbeRequest::CurrentLayoutName)
                } else {
                    self.activated = false;
                    self.identity = None;
                    self.ask_for(ResolutionStage::RestorePrevious, ProbeRequest::CurrentLayout)
                }
            },
            (ResolutionStage::Name, ProbeAnswer::Name(n)) => match n {
                None => {
                    self.identity = None;
                    self.ask_for(ResolutionStage::RestorePrevious, ProbeRequest::CurrentLayout)
                },
                Some(n) => {
                    self.name = n;
                    self.ask_for(ResolutionStage::NameCurrent, ProbeRequest::CurrentLayout)
                },
            },
            (ResolutionStage::NameCurrent, ProbeAnswer::Layout(c)) => {
                let layout = self.loaded[self.index];
                self.identity = if same_opt(c, Some(layout)) {
                    profile_from_name(layout, self.name)
                } else {
                    None
                };
                self.ask_for(ResolutionStage::RestorePrevious, ProbeRequest::CurrentLayout)
            },
            (ResolutionStage::RestorePrevious, ProbeAnswer::Layout(p)) => {
                self.restore_previous = p;
                let original = self.original;
                self.ask_for(ResolutionStage::RestoreActivation, ProbeRequest::ActivateLayout(original))
            },
            (ResolutionStage::RestoreActivation, ProbeAnswer::Layout(p)) => {
                self.restore_activated = p;
                self.ask_for(ResolutionStage::RestoreAfter, ProbeRequest::CurrentLayout)
            },
            (ResolutionStage::RestoreAfter, ProbeAnswer::Layout(after)) => {
                if self.retried {
                    self.fail_with(ProfileResolutionError::RestoreFailed)
                } else if !confirm_restore(self.restore_previous, self.restore_activated, after, self.original) {
                    self.retried = true;
                    self.ask_for(ResolutionStage::RestorePrevious, ProbeRequest::CurrentLayout)
                } else if !self.activated {
                    self.fail_with(ProfileResolutionError::ActivationFailed)
                } else {
                    match self.identity {
                        None => self.fail_with(ProfileResolutionError::IdentityUnavailable),
                        Some(p) => {
                            let layout = self.loaded[self.index];
                            let ghost before = self.profiles@;
                            self.profiles.push((layout, p));
                            proof {
                                let sv = self@;
                                assert(keys_of(sv.profiles) =~= keys_of(before).push(layout));
                                assert forall|a: int, b: int|
                                    0 <= a < b < keys_of(sv.profiles).len() implies #[trigger] keys_of(sv.profiles)[a]
                                    < #[trigger] keys_of(sv.profiles)[b] by {
                                    if b < before.len() {
                                        assert(keys_of(before)[a] < keys_of(before)[b]);
                                    } else {
                                        let j = choose|j: int| 0 <= j < s.index && s.loaded[j] == before[a].0;
                                        assert(s.loaded[j] < s.loaded[s.index]);
                                    }
                                }
                                assert forall|k: int| 0 <= k < sv.profiles.len() implies exists|j: int|
                                    0 <= j < s.index + 1 && s.loaded[j] == #[trigger] sv.profiles[k].0 by {
                                    if k < before.len() {
                                        let j = choose|j: int| 0 <= j < s.index && s.loaded[j] == before[k].0;
                                        assert(sv.profiles[k] == before[k]);
                                    } else {
                                        assert(s.loaded[s.index] == sv.profiles[k].0);
                                    }
                                }
                                assert forall|k: int| 0 <= k < sv.profiles.len() implies (#[trigger] sv.profiles[k]).1.lang_id
                                    == (sv.profiles[k].0 % 0x10000) as u16 && sv.profiles[k].1.layout_id != 0 by {
                                    if k < before.len() {
                                        assert(sv.profiles[k] == before[k]);
                                    } else {
                                        assert(sv.profiles[k] == (layout, p));
                                    }
                                }
                            }
                            self.index = self.index + 1;
                            self.enter_layout_exec()
                        },
                    }
                }
            },
            (ResolutionStage::FinalLayouts, ProbeAnswer::Layouts(l)) => {
                match checked_layouts(l) {
                    Err(e) => self.fail_with(e),
                    Ok(again) => {
                        proof {
                            let lw = match av {
                                AnswerView::Layouts(Some(x)) => x,
                                _ => Seq::<usize>::empty(),
                            };
                            if lw.to_set() == s.loaded.to_set() && lw.len() == s.loaded.len() {
                                lemma_sorted_same_set(again@, s.loaded);
                            }
                        }
                        if !same_layouts(&again, &self.loaded) {
                            self.fail_with(ProfileResolutionError::LayoutListChanged)
                        } else {
                            self.ask_for(ResolutionStage::FinalCurrent, ProbeRequest::CurrentLayout)
                        }
                    },
                }
            },
            (ResolutionStage::FinalCurrent, ProbeAnswer::Layout(c)) => {
                if !same_opt(c, Some(self.original)) {
                    self.fail_with(ProfileResolutionError::RestoreFailed)
                } else {
                    self.stage = ResolutionStage::Done;
                    let loaded = copy_slice(self.loaded.as_slice());
                    let profiles = copy_slice(self.profiles.as_slice());
                    ResolutionStep::Finished(Ok(ResolvedKeyboardProfiles { loaded, profiles }))
                }
            },
            _ => self.fail_with(ProfileResolutionError::Unavailable),
        }
    }
}

/// A resolution that has not asked anything yet.
pub open spec fn resolution_start(s: ResolutionView) -> bool {
    s.stage is Begin && s.profiles.len() == 0 && s.index == 0
}

/// The result of a resolution as the step function reports it.
pub open spec fn outcome_view(r: Result<ResolvedKeyboardProfiles, ProfileResolutionError>) -> StepView {
    match r {
        Ok(v) => StepView::Finished(Ok(v@)),
        Err(e) => StepView::Finished(Err(e)),
    }
}

/// A run of the step function: from a fresh resolution, each answer takes
/// `states[i]` to `states[i + 1]` with output `outs[i]`, and every output
/// but the last is a request.
pub open spec fn resolution_run(answers: Seq<AnswerView>, states: Seq<ResolutionView>, outs: Seq<StepView>) -> bool {
    &&& states.len() == answers.len() + 1
    &&& outs.len() == answers.len()
    &&& resolution_start(states[0])
    &&& forall|i: int|
        0 <= i < answers.len() ==> #[trigger] resolution_next(states[i], answers[i], states[i + 1], outs[i])
    &&& forall|i: int| 0 <= i < outs.len() - 1 ==> #[trigger] outs[i] is Ask
}

/// All-or-nothing resolution through `probe`: the requests are exactly
/// those that `ProfileResolution::step` makes, each answered by the probe,
/// until it finishes, and the result is the one the step function gives
/// for those answers. IME layouts stay in the inventory without a binding;
/// every other layout is activated once, identified by its exact name, and
/// the original layout restored and confirmed before the next. Whatever the
/// probe reports, a resolution that is returned lists one to 64 distinct
/// loaded layouts, none of them 0 or 1, in increasing order, and binds only
/// loaded layouts, each to a profile of its own language with a non-zero
/// layout identifier.
pub fn resolve_keyboard_profiles<P: KeyboardProfileProbe>(probe: &mut P) -> (r: Result<ResolvedKeyboardProfiles, ProfileResolutionError>)
    ensures
        exists|answers: Seq<AnswerView>, states: Seq<ResolutionView>, outs: Seq<StepView>|
            #[trigger] resolution_run(answers, states, outs) && answers.len() > 0 && answers[0] == AnswerView::Started
                && outs.last() == outcome_view(r),
        r is Ok ==> resolved_wf(r->Ok_0@) && 1 <= r->Ok_0@.loaded.len() <= MAX_LOADED_KEYBOARD_LAYOUTS
            && forall|k: int| 0 <= k < r->Ok_0@.loaded.len() ==> #[trigger] r->Ok_0@.loaded[k] > 1,
        r is Ok ==> named_bindings(r->Ok_0@.profiles),
{
    let mut resolution = ProfileResolution::new();
    let mut answer = ProbeAnswer::Started;
    let ghost mut answers: Seq<AnswerView> = Seq::empty();
    let ghost mut states: Seq<ResolutionView> = seq![resolution@];
    let ghost mut outs: Seq<StepView> = Seq::empty();
    loop
        invariant
            resolution_wf(resolution@),
            resolution_run(answers, states, outs),
            states.last() == resolution@,
            answers.len() == 0 ==> answer@ == AnswerView::Started,
            answers.len() > 0 ==> answers[0] == AnswerView::Started && outs.last() is Ask,
        decreases remaining_requests(resolution@),
    {
        let ghost before = resolution@;
        let ghost given = answer@;
        let step = resolution.step(answer);
        proof {
            let n = answers.len() as int;
            let answers2 = answers.push(given);
            let states2 = states.push(resolution@);
            let outs2 = outs.push(step@);
            assert forall|i: int| 0 <= i < answers2.len() implies #[trigger] resolution_next(
                states2[i],
                answers2[i],
                states2[i + 1],
                outs2[i],
            ) by {
                if i < n {
                    assert(resolution_next(states[i], answers[i], states[i + 1], outs[i]));
                }
            }
            assert forall|i: int| 0 <= i < outs2.len() - 1 implies #[trigger] outs2[i] is Ask by {
                if i < n - 1 {
                    assert(outs[i] is Ask);
                }
            }
            answers = answers2;
            states = states2;
            outs = outs2;
        }
        match step {
            ResolutionStep::Ask(request) => {
                answer = match request {
                    ProbeRequest::LoadedLayouts => ProbeAnswer::Layouts(probe.loaded_layouts()),
                    ProbeRequest::CurrentLayout => ProbeAnswer::Layout(probe.current_layout()),
                    ProbeRequest::IsIme(layout) => ProbeAnswer::Ime(probe.is_ime(layout)),
                    ProbeRequest::ActivateLayout(layout) => ProbeAnswer::Layout(probe.activate_layout(layout)),
                    ProbeRequest::CurrentLayoutName => ProbeAnswer::Name(probe.current_layout_name()),
                };
            },
            ResolutionStep::Finished(result) => {
                proof {
                    assert(outs.last() == outcome_view(result));
                    assert(resolution_run(answers, states, outs));
                    if result is Ok {
                        assert(before.stage is FinalCurrent);
                        let v = result->Ok_0@;
                        assert forall|i: int| 0 <= i < v.profiles.len() implies v.loaded.contains(#[trigger] v.profiles[i].0) by {
                            let j = choose|j: int| 0 <= j < before.index && before.loaded[j] == v.profiles[i].0;
                        }
                    }
                }
                return result;
            },
        }
    }
}

} // verus!
