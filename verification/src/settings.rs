//! Persistent, non-secret user preferences in a line-based `key=value` text.

use vstd::prelude::*;

use crate::pack_id::{
    lemma_canonical_shape, tag_char, supported_key,
    key_name_chars, modifiers_text_chars, canonical_tag, from_parts_spec, key_name_spec, lower_all, lower_char, modifiers_text_spec,
    valid_hotkey, Hotkey, Language, PackId, VK_PAUSE,
};
use crate::text::{lemma_text_le_props, text_le, text_le_chars, is_ws, decimal, decimal_chars, chars_equal, chars_of, join, join_chars, slice_to_vec, split, split_chars, string_of, trim, trim_chars, views};
use crate::user_lexicon::first_index_of;

verus! {

/// Why a settings text was refused.
#[derive(Debug, Clone, Copy, PartialEq, Eq)]
pub enum SettingsErrorKind {
    MissingPair,
    ConflictingPackSelection,
    InvalidBoolean,
    TooManyPacks,
    InvalidPackId,
    InvalidHotkey,
}

/// A refused settings text: the 1-based line and a fixed message that never
/// repeats the offending value.
#[derive(Debug, Clone, PartialEq, Eq)]
pub struct SettingsError {
    pub line: usize,
    pub message: &'static str,
    pub kind: SettingsErrorKind,
}

impl SettingsError {
    /// `line N: message`, the text shown for the error; it never holds the
    /// offending value.
    pub fn describe(&self) -> (r: String)
        ensures
            r@ == seq!['l', 'i', 'n', 'e', ' '] + decimal(self.line as nat) + seq![':', ' '] + self.message@,
    {
        let mut out: Vec<char> = vec!['l', 'i', 'n', 'e', ' '];
        let digits = decimal_chars(self.line);
        let msg = chars_of(self.message);
        let ghost head = out@;
        let mut i: usize = 0;
        while i < digits.len()
            invariant
                i <= digits@.len(),
                out@ == head + digits@.take(i as int),
            decreases digits.len() - i,
        {
            out.push(digits[i]);
            assert(digits@.take(i + 1) == digits@.take(i as int).push(digits@[i as int]));
            i = i + 1;
        }
        assert(digits@.take(digits@.len() as int) == digits@);
        out.push(':');
        out.push(' ');
        let ghost mid = out@;
        let mut j: usize = 0;
        while j < msg.len()
            invariant
                j <= msg@.len(),
                out@ == mid + msg@.take(j as int),
            decreases msg.len() - j,
        {
            out.push(msg[j]);
            assert(msg@.take(j + 1) == msg@.take(j as int).push(msg@[j as int]));
            j = j + 1;
        }
        assert(msg@.take(msg@.len() as int) == msg@);
        assert(out@ =~= seq!['l', 'i', 'n', 'e', ' '] + decimal(self.line as nat) + seq![':', ' '] + self.message@);
        string_of(&out)
    }
}

/// The persisted preferences.
#[derive(Debug, Clone, PartialEq, Eq)]
pub struct Settings {
    pub automatic_conversion_on_startup: bool,
    pub pause_break_undo: bool,
    pub offer_word_exclusion_after_undo: bool,
    pub offer_dictionary_after_forced_conversion: bool,
    pub force_hotkey_virtual_key: u16,
    pub force_hotkey_modifiers: u8,
    pub recheck_first_word_after_erasing: bool,
    pub physical_fallback_for_unsupported_apps: bool,
    pub single_letter_words: bool,
    /// Explicitly permit manual conversion in verified terminals when only the
    /// focused field's UIA inspection is unavailable.
    pub manual_terminal_uia_fallback: bool,
    pub diagnostics_enabled: bool,
    pub suppress_after_backspace: bool,
    pub suppress_after_delete: bool,
    pub suppress_after_left: bool,
    pub suppress_after_right: bool,
    pub suppress_after_up: bool,
    pub suppress_after_down: bool,
    pub suppress_after_home_end: bool,
    pub suppress_after_manual_layout_change: bool,
    /// Selected pack identifiers, each once, in increasing order of spelling.
    /// Selections survive disabled or missing data and unsupported adapters.
    pub enabled_input_packs: Vec<PackId>,
}

/// The mathematical content of a `Settings` value.
pub struct SettingsView {
    pub flags: FlagsView,
    pub hotkey_key: u16,
    pub hotkey_modifiers: u8,
    pub packs: Seq<Seq<char>>,
}

pub open spec fn pack_views(v: Seq<PackId>) -> Seq<Seq<char>> {
    v.map_values(|p: PackId| p@)
}

pub open spec fn key_packs() -> Seq<char> {
    seq!['e', 'n', 'a', 'b', 'l', 'e', 'd', '_', 'i', 'n', 'p', 'u', 't', '_', 'p', 'a', 'c', 'k', 's']
}

pub open spec fn key_hotkey_key() -> Seq<char> {
    seq!['f', 'o', 'r', 'c', 'e', '_', 'h', 'o', 't', 'k', 'e', 'y', '_', 'k', 'e', 'y']
}

pub open spec fn key_hotkey_modifiers() -> Seq<char> {
    seq!['f', 'o', 'r', 'c', 'e', '_', 'h', 'o', 't', 'k', 'e', 'y', '_', 'm', 'o', 'd', 'i', 'f', 'i', 'e', 'r', 's']
}

/// The pack that a legacy `enable_*` key toggles.
pub open spec fn legacy_tag(k: Seq<char>) -> Option<Seq<char>> {
    if k == seq!['e', 'n', 'a', 'b', 'l', 'e', '_', 'e', 'n', 'g', 'l', 'i', 's', 'h'] {
        Some(crate::pack_id::tag_en_us())
    } else if k == seq!['e', 'n', 'a', 'b', 'l', 'e', '_', 'r', 'u', 's', 's', 'i', 'a', 'n'] {
        Some(crate::pack_id::tag_ru_ru())
    } else if k == seq!['e', 'n', 'a', 'b', 'l', 'e', '_', 'e', 's', 't', 'o', 'n', 'i', 'a', 'n'] {
        Some(crate::pack_id::tag_et_ee())
    } else {
        None
    }
}

/// `1`, `true`, `yes`, `on` and `0`, `false`, `no`, `off`, in any ASCII
/// case and with white space around them.
pub open spec fn parse_bool_spec(value: Seq<char>) -> Option<bool> {
    let t = lower_all(trim(value));
    if t == seq!['1'] || t == seq!['t', 'r', 'u', 'e'] || t == seq!['y', 'e', 's'] || t == seq![
        'o',
        'n',
    ] {
        Some(true)
    } else if t == seq!['0'] || t == seq!['f', 'a', 'l', 's', 'e'] || t == seq!['n', 'o'] || t
        == seq!['o', 'f', 'f'] {
        Some(false)
    } else {
        None
    }
}

/// Pack identifiers in strictly increasing order of their spelling.
pub open spec fn strictly_ordered(packs: Seq<Seq<char>>) -> bool {
    forall|i: int, j: int|
        0 <= i < j < packs.len() ==> text_le(#[trigger] packs[i], #[trigger] packs[j]) && packs[i] != packs[j]
}

/// `tag` put into its place in `packs`: before the first identifier that it
/// does not follow, unless it is already there.
pub open spec fn add_in_order(packs: Seq<Seq<char>>, tag: Seq<char>) -> Seq<Seq<char>>
    decreases packs.len(),
{
    if packs.len() == 0 {
        seq![tag]
    } else if packs[0] == tag {
        packs
    } else if text_le(tag, packs[0]) {
        seq![tag] + packs
    } else {
        seq![packs[0]] + add_in_order(packs.drop_first(), tag)
    }
}

/// Adding an identifier keeps the selection in order, and adds exactly
/// that identifier.
proof fn lemma_add_in_order_ordered(packs: Seq<Seq<char>>, tag: Seq<char>)
    requires
        strictly_ordered(packs),
    ensures
        strictly_ordered(add_in_order(packs, tag)),
        forall|x: Seq<char>| #[trigger] add_in_order(packs, tag).contains(x) == (packs.contains(x) || x == tag),
    decreases packs.len(),
{
    let r = add_in_order(packs, tag);
    if packs.len() == 0 {
        assert forall|x: Seq<char>| #[trigger] r.contains(x) == (packs.contains(x) || x == tag) by {
            if r.contains(x) {
                assert(r[0] == x);
            }
            if x == tag {
                assert(r[0] == x);
            }
        }
    } else if packs[0] == tag {
        assert forall|x: Seq<char>| #[trigger] r.contains(x) == (packs.contains(x) || x == tag) by {
            if x == tag {
                assert(packs[0] == x);
            }
        }
    } else if text_le(tag, packs[0]) {
        assert(r =~= seq![tag] + packs);
        assert forall|i: int, j: int| 0 <= i < j < r.len() implies text_le(#[trigger] r[i], #[trigger] r[j]) && r[i] != r[j] by {
            if i > 0 {
                assert(r[i] == packs[i - 1] && r[j] == packs[j - 1]);
            } else {
                assert(r[j] == packs[j - 1]);
                if j > 1 {
                    assert(text_le(packs[0], packs[j - 1]) && packs[0] != packs[j - 1]);
                    lemma_text_le_props(tag, packs[0], packs[j - 1]);
                    lemma_text_le_props(packs[0], tag, tag);
                }
            }
        }
        assert forall|x: Seq<char>| #[trigger] r.contains(x) == (packs.contains(x) || x == tag) by {
            if r.contains(x) {
                let k = choose|k: int| 0 <= k < r.len() && r[k] == x;
                if k > 0 {
                    assert(packs[k - 1] == x);
                }
            }
            if packs.contains(x) {
                let k = choose|k: int| 0 <= k < packs.len() && packs[k] == x;
                assert(r[k + 1] == x);
            }
            if x == tag {
                assert(r[0] == x);
            }
        }
    } else {
        let rest = packs.drop_first();
        assert forall|i: int, j: int| 0 <= i < j < rest.len() implies text_le(#[trigger] rest[i], #[trigger] rest[j]) && rest[i] != rest[j] by {
            assert(rest[i] == packs[i + 1] && rest[j] == packs[j + 1]);
        }
        lemma_add_in_order_ordered(rest, tag);
        let tail = add_in_order(rest, tag);
        assert(r == seq![packs[0]] + tail);
        lemma_text_le_props(packs[0], tag, tag);
        assert forall|k: int| 0 <= k < tail.len() implies text_le(packs[0], #[trigger] tail[k]) && packs[0] != tail[k] by {
            assert(tail.contains(tail[k]));
            if tail[k] != tag {
                assert(rest.contains(tail[k]));
                let m = choose|m: int| 0 <= m < rest.len() && rest[m] == tail[k];
                assert(packs[m + 1] == tail[k]);
            }
        }
        assert forall|i: int, j: int| 0 <= i < j < r.len() implies text_le(#[trigger] r[i], #[trigger] r[j]) && r[i] != r[j] by {
            if i > 0 {
                assert(r[i] == tail[i - 1] && r[j] == tail[j - 1]);
            } else {
                assert(r[j] == tail[j - 1]);
            }
        }
        assert forall|x: Seq<char>| #[trigger] r.contains(x) == (packs.contains(x) || x == tag) by {
            if r.contains(x) {
                let k = choose|k: int| 0 <= k < r.len() && r[k] == x;
                if k > 0 {
                    assert(tail[k - 1] == x);
                    assert(tail.contains(x));
                    if rest.contains(x) {
                        let m = choose|m: int| 0 <= m < rest.len() && rest[m] == x;
                        assert(packs[m + 1] == x);
                    }
                } else {
                    assert(packs[0] == x);
                }
            }
            if packs.contains(x) {
                let k = choose|k: int| 0 <= k < packs.len() && packs[k] == x;
                if k > 0 {
                    assert(rest[k - 1] == x);
                    assert(tail.contains(x));
                    let m = choose|m: int| 0 <= m < tail.len() && tail[m] == x;
                    assert(r[m + 1] == x);
                } else {
                    assert(r[0] == x);
                }
            }
            if x == tag {
                assert(tail.contains(x));
                let m = choose|m: int| 0 <= m < tail.len() && tail[m] == x;
                assert(r[m + 1] == x);
            }
        }
    }
}

/// Removing identifiers keeps the selection in order.
proof fn lemma_filter_ordered(packs: Seq<Seq<char>>, tag: Seq<char>)
    requires
        strictly_ordered(packs),
    ensures
        strictly_ordered(packs.filter(not_tag(tag))),
    decreases packs.len(),
{
    reveal(Seq::filter);
    if packs.len() > 0 {
        let init = packs.drop_last();
        assert forall|i: int, j: int| 0 <= i < j < init.len() implies text_le(#[trigger] init[i], #[trigger] init[j]) && init[i] != init[j] by {
            assert(init[i] == packs[i] && init[j] == packs[j]);
        }
        lemma_filter_ordered(init, tag);
        let f = init.filter(not_tag(tag));
        let last = packs.last();
        if not_tag(tag)(last) {
            let r = f.push(last);
            assert forall|i: int, j: int| 0 <= i < j < r.len() implies text_le(#[trigger] r[i], #[trigger] r[j]) && r[i] != r[j] by {
                if j == f.len() {
                    assert(r[i] == f[i]);
                    assert(f.contains(f[i]));
                    init.lemma_filter_contains_rev(not_tag(tag), f[i]);
                    let m = choose|m: int| 0 <= m < init.len() && init[m] == f[i];
                    assert(packs[m] == f[i] && packs[packs.len() - 1] == last);
                } else {
                    assert(r[i] == f[i] && r[j] == f[j]);
                }
            }
        }
    }
}

/// A selection in strictly increasing order holds each identifier once.
proof fn lemma_ordered_distinct(packs: Seq<Seq<char>>)
    requires
        strictly_ordered(packs),
    ensures
        packs.no_duplicates(),
{
    assert forall|i: int, j: int| 0 <= i < packs.len() && 0 <= j < packs.len() && i != j implies packs[i] != packs[j] by {
        if i < j {
            assert(text_le(packs[i], packs[j]) && packs[i] != packs[j]);
        } else {
            assert(text_le(packs[j], packs[i]) && packs[j] != packs[i]);
        }
    }
}

/// Where `add_in_order` puts `tag`: at the first identifier that `tag`
/// does not strictly follow.
proof fn lemma_add_in_order_at(packs: Seq<Seq<char>>, tag: Seq<char>, p: int)
    requires
        0 <= p <= packs.len(),
        forall|k: int| 0 <= k < p ==> #[trigger] packs[k] != tag && !text_le(tag, packs[k]),
        p < packs.len() ==> packs[p] == tag || text_le(tag, packs[p]),
    ensures
        add_in_order(packs, tag) == (if p < packs.len() && packs[p] == tag {
            packs
        } else {
            packs.insert(p, tag)
        }),
    decreases p,
{
    if p == 0 {
        if packs.len() == 0 {
            assert(packs.insert(0, tag) =~= seq![tag]);
        } else if packs[0] != tag {
            assert(packs.insert(0, tag) =~= seq![tag] + packs);
        }
    } else {
        let rest = packs.drop_first();
        assert forall|k: int| 0 <= k < p - 1 implies #[trigger] rest[k] != tag && !text_le(tag, rest[k]) by {
            assert(rest[k] == packs[k + 1]);
        }
        lemma_add_in_order_at(rest, tag, p - 1);
        assert(packs[0] != tag && !text_le(tag, packs[0]));
        if p < packs.len() && packs[p] == tag {
            assert(seq![packs[0]] + rest =~= packs);
        } else {
            assert(seq![packs[0]] + rest.insert(p - 1, tag) =~= packs.insert(p, tag));
        }
    }
}

pub open spec fn not_tag(tag: Seq<char>) -> spec_fn(Seq<char>) -> bool {
    |t: Seq<char>| t != tag
}

pub open spec fn set_pack(packs: Seq<Seq<char>>, tag: Seq<char>, enabled: bool) -> Seq<Seq<char>> {
    if enabled {
        add_in_order(packs, tag)
    } else {
        packs.filter(not_tag(tag))
    }
}

/// Reading a comma-separated list: at most 64 entries, each a pack
/// identifier; repeated identifiers count once, and the selection is kept
/// in order of spelling.
pub open spec fn fold_packs(pieces: Seq<Seq<char>>) -> Result<Seq<Seq<char>>, SettingsErrorKind>
    decreases pieces.len(),
{
    if pieces.len() == 0 {
        Ok(Seq::<Seq<char>>::empty())
    } else {
        match fold_packs(pieces.drop_last()) {
            Err(e) => Err(e),
            Ok(acc) => if pieces.len() - 1 >= 64 {
                Err(SettingsErrorKind::TooManyPacks)
            } else {
                match canonical_tag(trim(pieces.last())) {
                    None => Err(SettingsErrorKind::InvalidPackId),
                    Some(tag) => Ok(add_in_order(acc, tag)),
                }
            },
        }
    }
}

/// The pack selection that `value` spells; empty text selects nothing.
pub open spec fn parse_packs_spec(value: Seq<char>) -> Result<Seq<Seq<char>>, SettingsErrorKind> {
    let t = trim(value);
    if t.len() == 0 {
        Ok(Seq::<Seq<char>>::empty())
    } else {
        fold_packs(split(t, ','))
    }
}

/// Lines of a text as `str::lines` gives them (a carriage return before the
/// newline stays on the line; lines are trimmed before use).
pub open spec fn text_lines(s: Seq<char>) -> Seq<Seq<char>> {
    let p = split(s, '\n');
    if p.last().len() == 0 {
        p.drop_last()
    } else {
        p
    }
}

/// Parsing state after some lines.
pub struct ParseState {
    pub view: SettingsView,
    pub hotkey_key: Option<Seq<char>>,
    pub hotkey_modifiers: Option<Seq<char>>,
    pub hotkey_line: int,
    pub pack_seen: bool,
    pub legacy_seen: bool,
}

pub open spec fn with_flags(v: SettingsView, flags: FlagsView) -> SettingsView {
    SettingsView { flags, ..v }
}

pub open spec fn with_packs(v: SettingsView, packs: Seq<Seq<char>>) -> SettingsView {
    SettingsView { packs, ..v }
}

pub open spec fn step_packs(st: ParseState, index: int, value: Seq<char>, strict: bool) -> Result<
    ParseState,
    (int, SettingsErrorKind),
> {
    if strict && (st.pack_seen || st.legacy_seen) {
        Err((index + 1, SettingsErrorKind::ConflictingPackSelection))
    } else {
        match parse_packs_spec(value) {
            Ok(sel) => Ok(ParseState { view: with_packs(st.view, sel), pack_seen: true, ..st }),
            Err(k) => if strict {
                Err((index + 1, k))
            } else {
                Ok(st)
            },
        }
    }
}

pub open spec fn step_legacy(st: ParseState, index: int, tag: Seq<char>, value: Seq<char>, strict: bool) -> Result<
    ParseState,
    (int, SettingsErrorKind),
> {
    if strict && st.pack_seen {
        Err((index + 1, SettingsErrorKind::ConflictingPackSelection))
    } else {
        let st2 = ParseState { legacy_seen: true, ..st };
        match parse_bool_spec(value) {
            Some(v) => Ok(
                ParseState { view: with_packs(st2.view, set_pack(st2.view.packs, tag, v)), ..st2 },
            ),
            None => if strict {
                Err((index + 1, SettingsErrorKind::InvalidBoolean))
            } else {
                Ok(st2)
            },
        }
    }
}

pub open spec fn step_flag(st: ParseState, index: int, i: int, value: Seq<char>, strict: bool) -> Result<
    ParseState,
    (int, SettingsErrorKind),
> {
    match parse_bool_spec(value) {
        Some(v) => Ok(ParseState { view: with_flags(st.view, flag_set(st.view.flags, i, v)), ..st }),
        None => if strict {
            Err((index + 1, SettingsErrorKind::InvalidBoolean))
        } else {
            Ok(st)
        },
    }
}

/// One `key=value` pair.
pub open spec fn step_pair(st: ParseState, index: int, key: Seq<char>, value: Seq<char>, strict: bool) -> Result<
    ParseState,
    (int, SettingsErrorKind),
> {
    if key == key_packs() {
        step_packs(st, index, value, strict)
    } else if legacy_tag(key) is Some {
        step_legacy(st, index, legacy_tag(key)->0, value, strict)
    } else if key == key_hotkey_key() {
        Ok(ParseState { hotkey_key: Some(trim(value)), hotkey_line: index + 1, ..st })
    } else if key == key_hotkey_modifiers() {
        Ok(ParseState { hotkey_modifiers: Some(trim(value)), hotkey_line: index + 1, ..st })
    } else if flag_index(key) < 0 {
        Ok(st)
    } else {
        step_flag(st, index, flag_index(key), value, strict)
    }
}

/// One line of the settings text. In tolerant mode (`strict` false) a
/// malformed line is skipped; in strict mode it is refused, but unknown keys
/// are always skipped.
pub open spec fn step(st: ParseState, index: int, raw: Seq<char>, strict: bool) -> Result<
    ParseState,
    (int, SettingsErrorKind),
> {
    let line = trim(raw);
    if line.len() == 0 || line[0] == '#' {
        Ok(st)
    } else {
        let e = first_index_of(line, '=');
        if e < 0 {
            if strict {
                Err((index + 1, SettingsErrorKind::MissingPair))
            } else {
                Ok(st)
            }
        } else {
            step_pair(st, index, trim(line.take(e)), line.skip(e + 1), strict)
        }
    }
}

/// All lines in order.
pub open spec fn fold_lines(lines: Seq<Seq<char>>, strict: bool) -> Result<ParseState, (int, SettingsErrorKind)>
    decreases lines.len(),
{
    if lines.len() == 0 {
        Ok(
            ParseState {
                view: default_view(),
                hotkey_key: None,
                hotkey_modifiers: None,
                hotkey_line: 1,
                pack_seen: false,
                legacy_seen: false,
            },
        )
    } else {
        match fold_lines(lines.drop_last(), strict) {
            Err(e) => Err(e),
            Ok(st) => step(st, lines.len() - 1, lines.last(), strict),
        }
    }
}

/// The hotkey a view yields: its stored key and modifiers when they form a
/// valid hotkey, otherwise the default Pause/Break.
pub open spec fn current_hotkey(v: SettingsView) -> Hotkey {
    if valid_hotkey(v.hotkey_key, v.hotkey_modifiers) {
        Hotkey { virtual_key: v.hotkey_key, modifiers: v.hotkey_modifiers }
    } else {
        Hotkey { virtual_key: VK_PAUSE, modifiers: 0 }
    }
}

/// Applying the hotkey lines: a missing half is taken from the current
/// hotkey.
pub open spec fn finish(st: ParseState, strict: bool) -> Result<SettingsView, (int, SettingsErrorKind)> {
    if st.hotkey_key is None && st.hotkey_modifiers is None {
        Ok(st.view)
    } else {
        let cur = current_hotkey(st.view);
        let key = match st.hotkey_key {
            Some(k) => k,
            None => key_name_spec(cur.virtual_key),
        };
        let mods = match st.hotkey_modifiers {
            Some(m) => m,
            None => modifiers_text_spec(cur.modifiers),
        };
        match from_parts_spec(key, mods) {
            Ok(h) => Ok(
                SettingsView { hotkey_key: h.virtual_key, hotkey_modifiers: h.modifiers, ..st.view },
            ),
            Err(_) => if strict {
                Err((st.hotkey_line, SettingsErrorKind::InvalidHotkey))
            } else {
                Ok(st.view)
            },
        }
    }
}

/// What parsing `text` gives.
pub open spec fn parse_settings(text: Seq<char>, strict: bool) -> Result<SettingsView, (int, SettingsErrorKind)> {
    match fold_lines(text_lines(text), strict) {
        Err(e) => Err(e),
        Ok(st) => finish(st, strict),
    }
}

pub open spec fn default_view() -> SettingsView {
    SettingsView {
        flags: default_flags(),
        hotkey_key: VK_PAUSE,
        hotkey_modifiers: 0,
        packs: seq![crate::pack_id::tag_en_us(), crate::pack_id::tag_et_ee(), crate::pack_id::tag_ru_ru()],
    }
}

/// The boolean settings.
pub struct FlagsView {
    pub automatic_conversion_on_startup: bool,
    pub pause_break_undo: bool,
    pub offer_word_exclusion_after_undo: bool,
    pub offer_dictionary_after_forced_conversion: bool,
    pub recheck_first_word_after_erasing: bool,
    pub physical_fallback_for_unsupported_apps: bool,
    pub single_letter_words: bool,
    pub manual_terminal_uia_fallback: bool,
    pub diagnostics_enabled: bool,
    pub suppress_after_backspace: bool,
    pub suppress_after_delete: bool,
    pub suppress_after_left: bool,
    pub suppress_after_right: bool,
    pub suppress_after_up: bool,
    pub suppress_after_down: bool,
    pub suppress_after_home_end: bool,
    pub suppress_after_manual_layout_change: bool,
}

/// The boolean setting at `i`.
pub open spec fn flag_get(f: FlagsView, i: int) -> bool {
    if i == 0 {
        f.automatic_conversion_on_startup
    } else if i == 1 {
        f.pause_break_undo
    } else if i == 2 {
        f.offer_word_exclusion_after_undo
    } else if i == 3 {
        f.offer_dictionary_after_forced_conversion
    } else if i == 4 {
        f.recheck_first_word_after_erasing
    } else if i == 5 {
        f.physical_fallback_for_unsupported_apps
    } else if i == 6 {
        f.single_letter_words
    } else if i == 7 {
        f.manual_terminal_uia_fallback
    } else if i == 8 {
        f.diagnostics_enabled
    } else if i == 9 {
        f.suppress_after_backspace
    } else if i == 10 {
        f.suppress_after_delete
    } else if i == 11 {
        f.suppress_after_left
    } else if i == 12 {
        f.suppress_after_right
    } else if i == 13 {
        f.suppress_after_up
    } else if i == 14 {
        f.suppress_after_down
    } else if i == 15 {
        f.suppress_after_home_end
    } else {
        f.suppress_after_manual_layout_change
    }
}

/// `f` with the boolean setting at `i` replaced by `v`.
pub open spec fn flag_set(f: FlagsView, i: int, v: bool) -> FlagsView {
    if i == 0 {
        FlagsView { automatic_conversion_on_startup: v, ..f }
    } else if i == 1 {
        FlagsView { pause_break_undo: v, ..f }
    } else if i == 2 {
        FlagsView { offer_word_exclusion_after_undo: v, ..f }
    } else if i == 3 {
        FlagsView { offer_dictionary_after_forced_conversion: v, ..f }
    } else if i == 4 {
        FlagsView { recheck_first_word_after_erasing: v, ..f }
    } else if i == 5 {
        FlagsView { physical_fallback_for_unsupported_apps: v, ..f }
    } else if i == 6 {
        FlagsView { single_letter_words: v, ..f }
    } else if i == 7 {
        FlagsView { manual_terminal_uia_fallback: v, ..f }
    } else if i == 8 {
        FlagsView { diagnostics_enabled: v, ..f }
    } else if i == 9 {
        FlagsView { suppress_after_backspace: v, ..f }
    } else if i == 10 {
        FlagsView { suppress_after_delete: v, ..f }
    } else if i == 11 {
        FlagsView { suppress_after_left: v, ..f }
    } else if i == 12 {
        FlagsView { suppress_after_right: v, ..f }
    } else if i == 13 {
        FlagsView { suppress_after_up: v, ..f }
    } else if i == 14 {
        FlagsView { suppress_after_down: v, ..f }
    } else if i == 15 {
        FlagsView { suppress_after_home_end: v, ..f }
    } else {
        FlagsView { suppress_after_manual_layout_change: v, ..f }
    }
}

/// The name of the boolean setting at `i`.
pub open spec fn flag_key(i: int) -> Seq<char> {
    if i == 0 {
        seq!['a', 'u', 't', 'o', 'm', 'a', 't', 'i', 'c', '_', 'c', 'o', 'n', 'v', 'e', 'r', 's', 'i', 'o', 'n', '_', 'o', 'n', '_', 's', 't', 'a', 'r', 't', 'u', 'p']
    } else if i == 1 {
        seq!['p', 'a', 'u', 's', 'e', '_', 'b', 'r', 'e', 'a', 'k', '_', 'u', 'n', 'd', 'o']
    } else if i == 2 {
        seq!['o', 'f', 'f', 'e', 'r', '_', 'w', 'o', 'r', 'd', '_', 'e', 'x', 'c', 'l', 'u', 's', 'i', 'o', 'n', '_', 'a', 'f', 't', 'e', 'r', '_', 'u', 'n', 'd', 'o']
    } else if i == 3 {
        seq!['o', 'f', 'f', 'e', 'r', '_', 'd', 'i', 'c', 't', 'i', 'o', 'n', 'a', 'r', 'y', '_', 'a', 'f', 't', 'e', 'r', '_', 'f', 'o', 'r', 'c', 'e', 'd', '_', 'c', 'o', 'n', 'v', 'e', 'r', 's', 'i', 'o', 'n']
    } else if i == 4 {
        seq!['r', 'e', 'c', 'h', 'e', 'c', 'k', '_', 'f', 'i', 'r', 's', 't', '_', 'w', 'o', 'r', 'd', '_', 'a', 'f', 't', 'e', 'r', '_', 'e', 'r', 'a', 's', 'i', 'n', 'g']
    } else if i == 5 {
        seq!['p', 'h', 'y', 's', 'i', 'c', 'a', 'l', '_', 'f', 'a', 'l', 'l', 'b', 'a', 'c', 'k', '_', 'f', 'o', 'r', '_', 'u', 'n', 's', 'u', 'p', 'p', 'o', 'r', 't', 'e', 'd', '_', 'a', 'p', 'p', 's']
    } else if i == 6 {
        seq!['s', 'i', 'n', 'g', 'l', 'e', '_', 'l', 'e', 't', 't', 'e', 'r', '_', 'w', 'o', 'r', 'd', 's']
    } else if i == 7 {
        seq!['m', 'a', 'n', 'u', 'a', 'l', '_', 't', 'e', 'r', 'm', 'i', 'n', 'a', 'l', '_', 'u', 'i', 'a', '_', 'f', 'a', 'l', 'l', 'b', 'a', 'c', 'k']
    } else if i == 8 {
        seq!['d', 'i', 'a', 'g', 'n', 'o', 's', 't', 'i', 'c', 's', '_', 'e', 'n', 'a', 'b', 'l', 'e', 'd']
    } else if i == 9 {
        seq!['s', 'u', 'p', 'p', 'r', 'e', 's', 's', '_', 'a', 'f', 't', 'e', 'r', '_', 'b', 'a', 'c', 'k', 's', 'p', 'a', 'c', 'e']
    } else if i == 10 {
        seq!['s', 'u', 'p', 'p', 'r', 'e', 's', 's', '_', 'a', 'f', 't', 'e', 'r', '_', 'd', 'e', 'l', 'e', 't', 'e']
    } else if i == 11 {
        seq!['s', 'u', 'p', 'p', 'r', 'e', 's', 's', '_', 'a', 'f', 't', 'e', 'r', '_', 'l', 'e', 'f', 't']
    } else if i == 12 {
        seq!['s', 'u', 'p', 'p', 'r', 'e', 's', 's', '_', 'a', 'f', 't', 'e', 'r', '_', 'r', 'i', 'g', 'h', 't']
    } else if i == 13 {
        seq!['s', 'u', 'p', 'p', 'r', 'e', 's', 's', '_', 'a', 'f', 't', 'e', 'r', '_', 'u', 'p']
    } else if i == 14 {
        seq!['s', 'u', 'p', 'p', 'r', 'e', 's', 's', '_', 'a', 'f', 't', 'e', 'r', '_', 'd', 'o', 'w', 'n']
    } else if i == 15 {
        seq!['s', 'u', 'p', 'p', 'r', 'e', 's', 's', '_', 'a', 'f', 't', 'e', 'r', '_', 'h', 'o', 'm', 'e', '_', 'e', 'n', 'd']
    } else {
        seq!['s', 'u', 'p', 'p', 'r', 'e', 's', 's', '_', 'a', 'f', 't', 'e', 'r', '_', 'm', 'a', 'n', 'u', 'a', 'l', '_', 'l', 'a', 'y', 'o', 'u', 't', '_', 'c', 'h', 'a', 'n', 'g', 'e']
    }
}

/// The index of the boolean setting named `k`, or -1.
pub open spec fn flag_index(k: Seq<char>) -> int {
    if k == flag_key(0) {
        0
    } else if k == flag_key(1) {
        1
    } else if k == flag_key(2) {
        2
    } else if k == flag_key(3) {
        3
    } else if k == flag_key(4) {
        4
    } else if k == flag_key(5) {
        5
    } else if k == flag_key(6) {
        6
    } else if k == flag_key(7) {
        7
    } else if k == flag_key(8) {
        8
    } else if k == flag_key(9) {
        9
    } else if k == flag_key(10) {
        10
    } else if k == flag_key(11) {
        11
    } else if k == flag_key(12) {
        12
    } else if k == flag_key(13) {
        13
    } else if k == flag_key(14) {
        14
    } else if k == flag_key(15) {
        15
    } else if k == flag_key(16) {
        16
    } else {
        -1
    }
}

pub open spec fn default_flags() -> FlagsView {
    FlagsView {
        automatic_conversion_on_startup: true,
        pause_break_undo: true,
        offer_word_exclusion_after_undo: true,
        offer_dictionary_after_forced_conversion: true,
        recheck_first_word_after_erasing: true,
        physical_fallback_for_unsupported_apps: true,
        single_letter_words: false,
        manual_terminal_uia_fallback: false,
        diagnostics_enabled: false,
        suppress_after_backspace: true,
        suppress_after_delete: true,
        suppress_after_left: true,
        suppress_after_right: true,
        suppress_after_up: true,
        suppress_after_down: true,
        suppress_after_home_end: true,
        suppress_after_manual_layout_change: true,
    }
}

fn flag_index_exec(k: &Vec<char>) -> (r: Option<usize>)
    ensures
        match r {
            Some(i) => i < 17 && flag_index(k@) == i,
            None => flag_index(k@) == -1,
        },
{
    let lit = vec!['a', 'u', 't', 'o', 'm', 'a', 't', 'i', 'c', '_', 'c', 'o', 'n', 'v', 'e', 'r', 's', 'i', 'o', 'n', '_', 'o', 'n', '_', 's', 't', 'a', 'r', 't', 'u', 'p'];
    assert(lit@ =~= flag_key(0));
    if chars_equal(k, &lit) {
        return Some(0);
    }
    let lit = vec!['p', 'a', 'u', 's', 'e', '_', 'b', 'r', 'e', 'a', 'k', '_', 'u', 'n', 'd', 'o'];
    assert(lit@ =~= flag_key(1));
    if chars_equal(k, &lit) {
        return Some(1);
    }
    let lit = vec!['o', 'f', 'f', 'e', 'r', '_', 'w', 'o', 'r', 'd', '_', 'e', 'x', 'c', 'l', 'u', 's', 'i', 'o', 'n', '_', 'a', 'f', 't', 'e', 'r', '_', 'u', 'n', 'd', 'o'];
    assert(lit@ =~= flag_key(2));
    if chars_equal(k, &lit) {
        return Some(2);
    }
    let lit = vec!['o', 'f', 'f', 'e', 'r', '_', 'd', 'i', 'c', 't', 'i', 'o', 'n', 'a', 'r', 'y', '_', 'a', 'f', 't', 'e', 'r', '_', 'f', 'o', 'r', 'c', 'e', 'd', '_', 'c', 'o', 'n', 'v', 'e', 'r', 's', 'i', 'o', 'n'];
    assert(lit@ =~= flag_key(3));
    if chars_equal(k, &lit) {
        return Some(3);
    }
    let lit = vec!['r', 'e', 'c', 'h', 'e', 'c', 'k', '_', 'f', 'i', 'r', 's', 't', '_', 'w', 'o', 'r', 'd', '_', 'a', 'f', 't', 'e', 'r', '_', 'e', 'r', 'a', 's', 'i', 'n', 'g'];
    assert(lit@ =~= flag_key(4));
    if chars_equal(k, &lit) {
        return Some(4);
    }
    let lit = vec!['p', 'h', 'y', 's', 'i', 'c', 'a', 'l', '_', 'f', 'a', 'l', 'l', 'b', 'a', 'c', 'k', '_', 'f', 'o', 'r', '_', 'u', 'n', 's', 'u', 'p', 'p', 'o', 'r', 't', 'e', 'd', '_', 'a', 'p', 'p', 's'];
    assert(lit@ =~= flag_key(5));
    if chars_equal(k, &lit) {
        return Some(5);
    }
    let lit = vec!['s', 'i', 'n', 'g', 'l', 'e', '_', 'l', 'e', 't', 't', 'e', 'r', '_', 'w', 'o', 'r', 'd', 's'];
    assert(lit@ =~= flag_key(6));
    if chars_equal(k, &lit) {
        return Some(6);
    }
    let lit = vec!['m', 'a', 'n', 'u', 'a', 'l', '_', 't', 'e', 'r', 'm', 'i', 'n', 'a', 'l', '_', 'u', 'i', 'a', '_', 'f', 'a', 'l', 'l', 'b', 'a', 'c', 'k'];
    assert(lit@ =~= flag_key(7));
    if chars_equal(k, &lit) {
        return Some(7);
    }
    let lit = vec!['d', 'i', 'a', 'g', 'n', 'o', 's', 't', 'i', 'c', 's', '_', 'e', 'n', 'a', 'b', 'l', 'e', 'd'];
    assert(lit@ =~= flag_key(8));
    if chars_equal(k, &lit) {
        return Some(8);
    }
    let lit = vec!['s', 'u', 'p', 'p', 'r', 'e', 's', 's', '_', 'a', 'f', 't', 'e', 'r', '_', 'b', 'a', 'c', 'k', 's', 'p', 'a', 'c', 'e'];
    assert(lit@ =~= flag_key(9));
    if chars_equal(k, &lit) {
        return Some(9);
    }
    let lit = vec!['s', 'u', 'p', 'p', 'r', 'e', 's', 's', '_', 'a', 'f', 't', 'e', 'r', '_', 'd', 'e', 'l', 'e', 't', 'e'];
    assert(lit@ =~= flag_key(10));
    if chars_equal(k, &lit) {
        return Some(10);
    }
    let lit = vec!['s', 'u', 'p', 'p', 'r', 'e', 's', 's', '_', 'a', 'f', 't', 'e', 'r', '_', 'l', 'e', 'f', 't'];
    assert(lit@ =~= flag_key(11));
    if chars_equal(k, &lit) {
        return Some(11);
    }
    let lit = vec!['s', 'u', 'p', 'p', 'r', 'e', 's', 's', '_', 'a', 'f', 't', 'e', 'r', '_', 'r', 'i', 'g', 'h', 't'];
    assert(lit@ =~= flag_key(12));
    if chars_equal(k, &lit) {
        return Some(12);
    }
    let lit = vec!['s', 'u', 'p', 'p', 'r', 'e', 's', 's', '_', 'a', 'f', 't', 'e', 'r', '_', 'u', 'p'];
    assert(lit@ =~= flag_key(13));
    if chars_equal(k, &lit) {
        return Some(13);
    }
    let lit = vec!['s', 'u', 'p', 'p', 'r', 'e', 's', 's', '_', 'a', 'f', 't', 'e', 'r', '_', 'd', 'o', 'w', 'n'];
    assert(lit@ =~= flag_key(14));
    if chars_equal(k, &lit) {
        return Some(14);
    }
    let lit = vec!['s', 'u', 'p', 'p', 'r', 'e', 's', 's', '_', 'a', 'f', 't', 'e', 'r', '_', 'h', 'o', 'm', 'e', '_', 'e', 'n', 'd'];
    assert(lit@ =~= flag_key(15));
    if chars_equal(k, &lit) {
        return Some(15);
    }
    let lit = vec!['s', 'u', 'p', 'p', 'r', 'e', 's', 's', '_', 'a', 'f', 't', 'e', 'r', '_', 'm', 'a', 'n', 'u', 'a', 'l', '_', 'l', 'a', 'y', 'o', 'u', 't', '_', 'c', 'h', 'a', 'n', 'g', 'e'];
    assert(lit@ =~= flag_key(16));
    if chars_equal(k, &lit) {
        return Some(16);
    }
    None
}

impl Settings {
    /// The boolean settings.
    pub open spec fn flags(&self) -> FlagsView {
        FlagsView {
            automatic_conversion_on_startup: self.automatic_conversion_on_startup,
            pause_break_undo: self.pause_break_undo,
            offer_word_exclusion_after_undo: self.offer_word_exclusion_after_undo,
            offer_dictionary_after_forced_conversion: self.offer_dictionary_after_forced_conversion,
            recheck_first_word_after_erasing: self.recheck_first_word_after_erasing,
            physical_fallback_for_unsupported_apps: self.physical_fallback_for_unsupported_apps,
            single_letter_words: self.single_letter_words,
            manual_terminal_uia_fallback: self.manual_terminal_uia_fallback,
            diagnostics_enabled: self.diagnostics_enabled,
            suppress_after_backspace: self.suppress_after_backspace,
            suppress_after_delete: self.suppress_after_delete,
            suppress_after_left: self.suppress_after_left,
            suppress_after_right: self.suppress_after_right,
            suppress_after_up: self.suppress_after_up,
            suppress_after_down: self.suppress_after_down,
            suppress_after_home_end: self.suppress_after_home_end,
            suppress_after_manual_layout_change: self.suppress_after_manual_layout_change,
        }
    }

    fn set_flag(&mut self, i: usize, v: bool)
        requires
            i < 17,
        ensures
            final(self).flags() == flag_set(old(self).flags(), i as int, v),
            final(self).force_hotkey_virtual_key == old(self).force_hotkey_virtual_key,
            final(self).force_hotkey_modifiers == old(self).force_hotkey_modifiers,
            final(self).enabled_input_packs == old(self).enabled_input_packs,
    {
        if i == 0 {
            self.automatic_conversion_on_startup = v;
            assert(self.flags() == flag_set(old(self).flags(), 0, v));
        } else if i == 1 {
            self.pause_break_undo = v;
            assert(self.flags() == flag_set(old(self).flags(), 1, v));
        } else if i == 2 {
            self.offer_word_exclusion_after_undo = v;
            assert(self.flags() == flag_set(old(self).flags(), 2, v));
        } else if i == 3 {
            self.offer_dictionary_after_forced_conversion = v;
            assert(self.flags() == flag_set(old(self).flags(), 3, v));
        } else if i == 4 {
            self.recheck_first_word_after_erasing = v;
            assert(self.flags() == flag_set(old(self).flags(), 4, v));
        } else if i == 5 {
            self.physical_fallback_for_unsupported_apps = v;
            assert(self.flags() == flag_set(old(self).flags(), 5, v));
        } else if i == 6 {
            self.single_letter_words = v;
            assert(self.flags() == flag_set(old(self).flags(), 6, v));
        } else if i == 7 {
            self.manual_terminal_uia_fallback = v;
            assert(self.flags() == flag_set(old(self).flags(), 7, v));
        } else if i == 8 {
            self.diagnostics_enabled = v;
            assert(self.flags() == flag_set(old(self).flags(), 8, v));
        } else if i == 9 {
            self.suppress_after_backspace = v;
            assert(self.flags() == flag_set(old(self).flags(), 9, v));
        } else if i == 10 {
            self.suppress_after_delete = v;
            assert(self.flags() == flag_set(old(self).flags(), 10, v));
        } else if i == 11 {
            self.suppress_after_left = v;
            assert(self.flags() == flag_set(old(self).flags(), 11, v));
        } else if i == 12 {
            self.suppress_after_right = v;
            assert(self.flags() == flag_set(old(self).flags(), 12, v));
        } else if i == 13 {
            self.suppress_after_up = v;
            assert(self.flags() == flag_set(old(self).flags(), 13, v));
        } else if i == 14 {
            self.suppress_after_down = v;
            assert(self.flags() == flag_set(old(self).flags(), 14, v));
        } else if i == 15 {
            self.suppress_after_home_end = v;
            assert(self.flags() == flag_set(old(self).flags(), 15, v));
        } else {
            self.suppress_after_manual_layout_change = v;
            assert(self.flags() == flag_set(old(self).flags(), 16, v));
        }
    }
}

pub open spec fn bool_text(b: bool) -> Seq<char> {
    if b {
        seq!['t', 'r', 'u', 'e']
    } else {
        seq!['f', 'a', 'l', 's', 'e']
    }
}

pub open spec fn kv(key: Seq<char>, value: Seq<char>) -> Seq<char> {
    key + seq!['='] + value
}

pub open spec fn header_line() -> Seq<char> {
    seq!['#', ' ', 'A', 'u', 't', 'o', 'K', 'e', 'y', 'b', 'o', 'a', 'r', 'd', 'L', 'a', 'y', 'o', 't', ' ', 's', 'e', 't', 't', 'i', 'n', 'g', 's', ' ', 'v', '2']
}

/// The lines that `to_text` writes, in order.
pub open spec fn settings_lines(v: SettingsView) -> Seq<Seq<char>> {
    let cur = current_hotkey(v);
    seq![
        header_line(),
        kv(flag_key(0), bool_text(flag_get(v.flags, 0))),
        kv(flag_key(1), bool_text(flag_get(v.flags, 1))),
        kv(flag_key(2), bool_text(flag_get(v.flags, 2))),
        kv(flag_key(3), bool_text(flag_get(v.flags, 3))),
        kv(key_hotkey_key(), key_name_spec(cur.virtual_key)),
        kv(key_hotkey_modifiers(), modifiers_text_spec(cur.modifiers)),
        kv(flag_key(4), bool_text(flag_get(v.flags, 4))),
        kv(flag_key(5), bool_text(flag_get(v.flags, 5))),
        kv(flag_key(6), bool_text(flag_get(v.flags, 6))),
        kv(flag_key(7), bool_text(flag_get(v.flags, 7))),
        kv(flag_key(8), bool_text(flag_get(v.flags, 8))),
        kv(flag_key(9), bool_text(flag_get(v.flags, 9))),
        kv(flag_key(10), bool_text(flag_get(v.flags, 10))),
        kv(flag_key(11), bool_text(flag_get(v.flags, 11))),
        kv(flag_key(12), bool_text(flag_get(v.flags, 12))),
        kv(flag_key(13), bool_text(flag_get(v.flags, 13))),
        kv(flag_key(14), bool_text(flag_get(v.flags, 14))),
        kv(flag_key(15), bool_text(flag_get(v.flags, 15))),
        kv(flag_key(16), bool_text(flag_get(v.flags, 16))),
        kv(key_packs(), join(v.packs, ',')),
    ]
}

/// The text that `to_text` writes.
pub open spec fn settings_text(v: SettingsView) -> Seq<char> {
    join(settings_lines(v), '\n') + seq!['\n']
}

impl View for Settings {
    type V = SettingsView;

    open spec fn view(&self) -> SettingsView {
        SettingsView {
            flags: self.flags(),
            hotkey_key: self.force_hotkey_virtual_key,
            hotkey_modifiers: self.force_hotkey_modifiers,
            packs: pack_views(self.enabled_input_packs@),
        }
    }
}

/// The fixed message of each kind of settings error.
pub open spec fn error_message(kind: SettingsErrorKind) -> Seq<char> {
    match kind {
        SettingsErrorKind::MissingPair => "expected a settings key=value pair"@,
        SettingsErrorKind::ConflictingPackSelection => "conflicting input pack selection settings"@,
        SettingsErrorKind::InvalidBoolean => "invalid boolean setting"@,
        SettingsErrorKind::TooManyPacks => "too many input pack selections"@,
        SettingsErrorKind::InvalidPackId => "invalid input pack ID"@,
        SettingsErrorKind::InvalidHotkey => "invalid force hotkey"@,
    }
}

fn message_for(kind: SettingsErrorKind) -> (r: &'static str)
    ensures
        r@ == error_message(kind),
{
    match kind {
        SettingsErrorKind::MissingPair => "expected a settings key=value pair",
        SettingsErrorKind::ConflictingPackSelection => "conflicting input pack selection settings",
        SettingsErrorKind::InvalidBoolean => "invalid boolean setting",
        SettingsErrorKind::TooManyPacks => "too many input pack selections",
        SettingsErrorKind::InvalidPackId => "invalid input pack ID",
        SettingsErrorKind::InvalidHotkey => "invalid force hotkey",
    }
}

fn lower_vec(s: &Vec<char>) -> (r: Vec<char>)
    ensures
        r@ == lower_all(s@),
{
    let mut r: Vec<char> = Vec::new();
    let mut i: usize = 0;
    while i < s.len()
        invariant
            i <= s@.len(),
            r@ == lower_all(s@.subrange(0, i as int)),
        decreases s.len() - i,
    {
        r.push(crate::pack_id::ascii_lower(s[i]));
        i = i + 1;
        assert(r@ =~= lower_all(s@.subrange(0, i as int)));
    }
    assert(s@.subrange(0, s@.len() as int) == s@);
    r
}

fn parse_bool(value: &[char]) -> (r: Option<bool>)
    ensures
        r == parse_bool_spec(value@),
{
    let t = lower_vec(&trim_chars(value));
    let a = vec!['1'];
    let b = vec!['t', 'r', 'u', 'e'];
    let c = vec!['y', 'e', 's'];
    let d = vec!['o', 'n'];
    let e = vec!['0'];
    let f = vec!['f', 'a', 'l', 's', 'e'];
    let g = vec!['n', 'o'];
    let h = vec!['o', 'f', 'f'];
    assert(a@ =~= seq!['1']);
    assert(b@ =~= seq!['t', 'r', 'u', 'e']);
    assert(c@ =~= seq!['y', 'e', 's']);
    assert(d@ =~= seq!['o', 'n']);
    assert(e@ =~= seq!['0']);
    assert(f@ =~= seq!['f', 'a', 'l', 's', 'e']);
    assert(g@ =~= seq!['n', 'o']);
    assert(h@ =~= seq!['o', 'f', 'f']);
    let yes = chars_equal(&t, &a) || chars_equal(&t, &b) || chars_equal(&t, &c) || chars_equal(&t, &d);
    let no = chars_equal(&t, &e) || chars_equal(&t, &f) || chars_equal(&t, &g) || chars_equal(&t, &h);
    if yes {
        Some(true)
    } else if no {
        Some(false)
    } else {
        None
    }
}

fn put_packs(dst: &mut Vec<PackId>, src: Vec<PackId>)
    ensures
        final(dst)@ == src@,
{
    *dst = src;
}

fn contains_pack(packs: &Vec<PackId>, id: &PackId) -> (r: bool)
    ensures
        r == pack_views(packs@).contains(id@),
{
    let mut i: usize = 0;
    while i < packs.len()
        invariant
            i <= packs@.len(),
            forall|k: int| 0 <= k < i ==> packs@[k]@ != id@,
        decreases packs.len() - i,
    {
        if packs[i].same(id) {
            assert(pack_views(packs@)[i as int] == id@);
            return true;
        }
        i = i + 1;
    }
    assert(!pack_views(packs@).contains(id@)) by {
        if pack_views(packs@).contains(id@) {
            let k = choose|k: int| 0 <= k < pack_views(packs@).len() && pack_views(packs@)[k] == id@;
            assert(packs@[k]@ == id@);
        }
    }
    false
}

fn add_pack(packs: &mut Vec<PackId>, id: PackId)
    ensures
        pack_views(final(packs)@) == add_in_order(pack_views(old(packs)@), id@),
        (id.valid() && forall|k: int| 0 <= k < old(packs)@.len() ==> (#[trigger] old(packs)@[k]).valid())
            ==> (forall|k: int| 0 <= k < final(packs)@.len() ==> (#[trigger] final(packs)@[k]).valid()),
{
    let ghost views0 = pack_views(packs@);
    let tag = id.tag_chars();
    let mut p: usize = 0;
    while p < packs.len() && !packs[p].same(&id) && !text_le_chars(&tag, &packs[p].tag_chars())
        invariant
            p <= packs@.len(),
            views0 == pack_views(packs@),
            tag@ == id@,
            forall|k: int| 0 <= k < p ==> #[trigger] views0[k] != id@ && !text_le(id@, views0[k]),
        decreases packs.len() - p,
    {
        p = p + 1;
    }
    proof {
        if p < packs.len() {
            assert(views0[p as int] == packs@[p as int]@);
        }
        lemma_add_in_order_at(views0, id@, p as int);
    }
    if p < packs.len() && packs[p].same(&id) {
        return;
    }
    let ghost before = packs@;
    packs.insert(p, id);
    assert(pack_views(packs@) =~= views0.insert(p as int, id@));
    assert forall|k: int| 0 <= k < packs@.len() && k != p implies #[trigger] packs@[k] == before[if k < p { k } else { k - 1 }] by {}
}

fn remove_pack(packs: &mut Vec<PackId>, id: &PackId)
    ensures
        pack_views(final(packs)@) == pack_views(old(packs)@).filter(not_tag(id@)),
        (forall|k: int| 0 <= k < old(packs)@.len() ==> (#[trigger] old(packs)@[k]).valid())
            ==> (forall|k: int| 0 <= k < final(packs)@.len() ==> (#[trigger] final(packs)@[k]).valid()),
{
    let mut kept: Vec<PackId> = Vec::new();
    let ghost all = pack_views(packs@);
    let ghost orig = packs@;
    let ghost allvalid = forall|k: int| 0 <= k < orig.len() ==> (#[trigger] orig[k]).valid();
    let mut i: usize = 0;
    while i < packs.len()
        invariant
            i <= packs@.len(),
            packs@ == orig,
            all == pack_views(packs@),
            allvalid == (forall|k: int| 0 <= k < orig.len() ==> (#[trigger] orig[k]).valid()),
            pack_views(kept@) == all.subrange(0, i as int).filter(not_tag(id@)),
            allvalid ==> forall|k: int| 0 <= k < kept@.len() ==> (#[trigger] kept@[k]).valid(),
        decreases packs.len() - i,
    {
        let ghost pre = all.subrange(0, i as int);
        let ghost next = all.subrange(0, i + 1);
        assert(next.drop_last() == pre);
        assert(next.last() == packs@[i as int]@);
        let ghost kb = kept@;
        if !packs[i].same(id) {
            kept.push(packs[i].duplicate());
            assert(pack_views(kept@) =~= pack_views(kb).push(packs@[i as int]@));
            assert(next.filter(not_tag(id@)) == pre.filter(not_tag(id@)).push(packs@[i as int]@)) by {
                reveal(Seq::filter);
            }
            proof {
                if allvalid {
                    assert forall|k: int| 0 <= k < kept@.len() implies (#[trigger] kept@[k]).valid() by {
                        if k < kb.len() {
                            assert(kb[k] == kept@[k]);
                        } else {
                            assert(orig[i as int] == kept@[k]);
                        }
                    }
                }
            }
        } else {
            assert(next.filter(not_tag(id@)) == pre.filter(not_tag(id@))) by {
                reveal(Seq::filter);
            }
        }
        i = i + 1;
    }
    assert(all.subrange(0, packs@.len() as int) == all);
    *packs = kept;
}

fn parse_pack_selection(value: &[char]) -> (r: Result<Vec<PackId>, SettingsErrorKind>)
    ensures
        match r {
            Ok(v) => parse_packs_spec(value@) == Ok::<Seq<Seq<char>>, SettingsErrorKind>(
                pack_views(v@),
            ) && forall|k: int| 0 <= k < v@.len() ==> (#[trigger] v@[k]).valid() && strictly_ordered(pack_views(v@)),
            Err(k) => parse_packs_spec(value@) == Err::<Seq<Seq<char>>, SettingsErrorKind>(k),
        },
{
    let t = trim_chars(value);
    let mut selection: Vec<PackId> = Vec::new();
    if t.len() == 0 {
        assert(pack_views(selection@) =~= Seq::<Seq<char>>::empty());
        return Ok(selection);
    }
    let pieces = split_chars(&t, ',');
    let ghost ps = views(pieces@);
    let mut i: usize = 0;
    assert(pack_views(selection@) =~= Seq::<Seq<char>>::empty());
    assert(ps.subrange(0, 0) =~= Seq::<Seq<char>>::empty());
    while i < pieces.len()
        invariant
            i <= pieces@.len(),
            ps == views(pieces@),
            ps == split(t@, ','),
            t@ == trim(value@),
            t@.len() > 0,
            fold_packs(ps.subrange(0, i as int)) == Ok::<Seq<Seq<char>>, SettingsErrorKind>(
                pack_views(selection@),
            ),
            forall|k: int| 0 <= k < selection@.len() ==> (#[trigger] selection@[k]).valid(),
            strictly_ordered(pack_views(selection@)),
        decreases pieces.len() - i,
    {
        let ghost pre = ps.subrange(0, i as int);
        let ghost next = ps.subrange(0, i + 1);
        assert(next.drop_last() == pre);
        assert(next.last() == pieces@[i as int]@);
        if i >= 64 {
            proof {
                lemma_fold_packs_err_extends(ps, i as int + 1);
            }
            return Err(SettingsErrorKind::TooManyPacks);
        }
        let id = match PackId::parse_chars(&trim_chars(&pieces[i])) {
            Ok(id) => id,
            Err(_) => {
                proof {
                    lemma_fold_packs_err_extends(ps, i as int + 1);
                }
                return Err(SettingsErrorKind::InvalidPackId);
            },
        };
        let ghost sb = selection@;
        proof {
            lemma_add_in_order_ordered(pack_views(sb), id@);
        }
        add_pack(&mut selection, id);
        assert forall|k: int| 0 <= k < selection@.len() implies (#[trigger] selection@[k]).valid() by {
            if selection@[k] != id {
                let j = choose|j: int| 0 <= j < sb.len() && sb[j] == selection@[k];
            }
        }
        i = i + 1;
    }
    assert(ps.subrange(0, ps.len() as int) == ps);
    Ok(selection)
}

proof fn lemma_fold_packs_err_extends(ps: Seq<Seq<char>>, j: int)
    requires
        0 <= j <= ps.len(),
        fold_packs(ps.subrange(0, j)) is Err,
    ensures
        fold_packs(ps) == fold_packs(ps.subrange(0, j)),
    decreases ps.len() - j,
{
    if j < ps.len() {
        assert(ps.subrange(0, j + 1).drop_last() == ps.subrange(0, j));
        lemma_fold_packs_err_extends(ps, j + 1);
    } else {
        assert(ps.subrange(0, j) == ps);
    }
}

pub(crate) fn text_lines_exec(text: &[char]) -> (r: Vec<Vec<char>>)
    ensures
        views(r@) == text_lines(text@),
{
    let mut parts = split_chars(text, '\n');
    proof {
        crate::text::lemma_split_nonempty(text@, '\n');
    }
    let n = parts.len();
    if parts[n - 1].len() == 0 {
        let ghost before = views(parts@);
        parts.pop();
        assert(views(parts@) =~= before.drop_last());
    }
    parts
}

/// Executable parsing state.
struct ParseExec {
    settings: Settings,
    hotkey_key: Option<Vec<char>>,
    hotkey_modifiers: Option<Vec<char>>,
    hotkey_line: usize,
    pack_seen: bool,
    legacy_seen: bool,
}

pub open spec fn opt_view(o: Option<Vec<char>>) -> Option<Seq<char>> {
    match o {
        Some(v) => Some(v@),
        None => None,
    }
}

impl ParseExec {
    spec fn state(&self) -> ParseState {
        ParseState {
            view: self.settings@,
            hotkey_key: opt_view(self.hotkey_key),
            hotkey_modifiers: opt_view(self.hotkey_modifiers),
            hotkey_line: self.hotkey_line as int,
            pack_seen: self.pack_seen,
            legacy_seen: self.legacy_seen,
        }
    }
}

fn legacy_pack(key: &Vec<char>) -> (r: Option<PackId>)
    ensures
        match r {
            Some(p) => legacy_tag(key@) == Some(p@) && p.valid(),
            None => legacy_tag(key@) is None,
        },
{
    if chars_equal(key, &vec!['e', 'n', 'a', 'b', 'l', 'e', '_', 'e', 'n', 'g', 'l', 'i', 's', 'h']) {
        Some(PackId::English)
    } else if chars_equal(key, &vec!['e', 'n', 'a', 'b', 'l', 'e', '_', 'r', 'u', 's', 's', 'i', 'a', 'n']) {
        Some(PackId::Russian)
    } else if chars_equal(key, &vec!['e', 'n', 'a', 'b', 'l', 'e', '_', 'e', 's', 't', 'o', 'n', 'i', 'a', 'n']) {
        Some(PackId::Estonian)
    } else {
        None
    }
}

fn step_packs_exec(st: &mut ParseExec, index: usize, value: &Vec<char>, strict: bool) -> (r: Result<(), SettingsErrorKind>)
    requires
        index < usize::MAX,
        old(st).settings.wf(),
    ensures
        final(st).settings.wf(),
        match r {
            Ok(()) => step_packs(old(st).state(), index as int, value@, strict) == Ok::<
                ParseState,
                (int, SettingsErrorKind),
            >(final(st).state()),
            Err(k) => step_packs(old(st).state(), index as int, value@, strict) == Err::<
                ParseState,
                (int, SettingsErrorKind),
            >((index as int + 1, k)),
        },
{
    if strict && (st.pack_seen || st.legacy_seen) {
        return Err(SettingsErrorKind::ConflictingPackSelection);
    }
    match parse_pack_selection(value) {
        Ok(sel) => {
            st.settings.replace_packs(sel);
            st.pack_seen = true;
            Ok(())
        },
        Err(k) => {
            if strict {
                Err(k)
            } else {
                Ok(())
            }
        },
    }
}

fn step_legacy_exec(st: &mut ParseExec, index: usize, id: PackId, value: &Vec<char>, strict: bool) -> (r: Result<(), SettingsErrorKind>)
    requires
        index < usize::MAX,
        old(st).settings.wf(),
        id.valid(),
    ensures
        final(st).settings.wf(),
        match r {
            Ok(()) => step_legacy(old(st).state(), index as int, id@, value@, strict) == Ok::<
                ParseState,
                (int, SettingsErrorKind),
            >(final(st).state()),
            Err(k) => step_legacy(old(st).state(), index as int, id@, value@, strict) == Err::<
                ParseState,
                (int, SettingsErrorKind),
            >((index as int + 1, k)),
        },
{
    if strict && st.pack_seen {
        return Err(SettingsErrorKind::ConflictingPackSelection);
    }
    st.legacy_seen = true;
    match parse_bool(value) {
        Some(v) => {
            st.settings.set_pack_enabled(id, v);
            Ok(())
        },
        None => {
            if strict {
                Err(SettingsErrorKind::InvalidBoolean)
            } else {
                Ok(())
            }
        },
    }
}

fn step_flag_exec(st: &mut ParseExec, index: usize, i: usize, value: &Vec<char>, strict: bool) -> (r: Result<(), SettingsErrorKind>)
    requires
        index < usize::MAX,
        i < 17,
        old(st).settings.wf(),
    ensures
        final(st).settings.wf(),
        match r {
            Ok(()) => step_flag(old(st).state(), index as int, i as int, value@, strict) == Ok::<
                ParseState,
                (int, SettingsErrorKind),
            >(final(st).state()),
            Err(k) => step_flag(old(st).state(), index as int, i as int, value@, strict) == Err::<
                ParseState,
                (int, SettingsErrorKind),
            >((index as int + 1, k)),
        },
{
    match parse_bool(value) {
        Some(v) => {
            st.settings.set_flag(i, v);
            Ok(())
        },
        None => {
            if strict {
                Err(SettingsErrorKind::InvalidBoolean)
            } else {
                Ok(())
            }
        },
    }
}

fn step_pair_exec(st: &mut ParseExec, index: usize, key: &Vec<char>, value: &Vec<char>, strict: bool) -> (r: Result<(), SettingsErrorKind>)
    requires
        index < usize::MAX,
        old(st).settings.wf(),
    ensures
        final(st).settings.wf(),
        match r {
            Ok(()) => step_pair(old(st).state(), index as int, key@, value@, strict) == Ok::<
                ParseState,
                (int, SettingsErrorKind),
            >(final(st).state()),
            Err(k) => step_pair(old(st).state(), index as int, key@, value@, strict) == Err::<
                ParseState,
                (int, SettingsErrorKind),
            >((index as int + 1, k)),
        },
{
    let lit_packs = vec!['e', 'n', 'a', 'b', 'l', 'e', 'd', '_', 'i', 'n', 'p', 'u', 't', '_', 'p', 'a', 'c', 'k', 's'];
    assert(lit_packs@ =~= key_packs());
    if chars_equal(key, &lit_packs) {
        return step_packs_exec(st, index, value, strict);
    }
    match legacy_pack(key) {
        Some(id) => {
            return step_legacy_exec(st, index, id, value, strict);
        },
        None => {},
    }
    let lit_key = vec!['f', 'o', 'r', 'c', 'e', '_', 'h', 'o', 't', 'k', 'e', 'y', '_', 'k', 'e', 'y'];
    assert(lit_key@ =~= key_hotkey_key());
    if chars_equal(key, &lit_key) {
        st.hotkey_key = Some(trim_chars(value));
        st.hotkey_line = index + 1;
        return Ok(());
    }
    let lit_mods = vec!['f', 'o', 'r', 'c', 'e', '_', 'h', 'o', 't', 'k', 'e', 'y', '_', 'm', 'o', 'd', 'i', 'f', 'i', 'e', 'r', 's'];
    assert(lit_mods@ =~= key_hotkey_modifiers());
    if chars_equal(key, &lit_mods) {
        st.hotkey_modifiers = Some(trim_chars(value));
        st.hotkey_line = index + 1;
        return Ok(());
    }
    match flag_index_exec(key) {
        None => Ok(()),
        Some(i) => step_flag_exec(st, index, i, value, strict),
    }
}

fn step_exec(st: &mut ParseExec, index: usize, raw: &Vec<char>, strict: bool) -> (r: Result<(), SettingsErrorKind>)
    requires
        index < usize::MAX,
        old(st).settings.wf(),
    ensures
        final(st).settings.wf(),
        match r {
            Ok(()) => step(old(st).state(), index as int, raw@, strict) == Ok::<
                ParseState,
                (int, SettingsErrorKind),
            >(final(st).state()),
            Err(k) => step(old(st).state(), index as int, raw@, strict) == Err::<
                ParseState,
                (int, SettingsErrorKind),
            >((index as int + 1, k)),
        },
{
    let line = trim_chars(raw);
    if line.len() == 0 || line[0] == '#' {
        return Ok(());
    }
    let e = match crate::user_lexicon::index_of(&line, '=') {
        Some(e) => e,
        None => {
            if strict {
                return Err(SettingsErrorKind::MissingPair);
            }
            return Ok(());
        },
    };
    let key = trim_chars(&slice_to_vec(&line, 0, e));
    let value = slice_to_vec(&line, e + 1, line.len());
    assert(line@.take(e as int) == line@.subrange(0, e as int));
    assert(line@.skip(e + 1) == line@.subrange(e + 1, line@.len() as int));
    step_pair_exec(st, index, &key, &value, strict)
}

fn flag_key_exec(i: usize) -> (r: Vec<char>)
    requires
        i < 17,
    ensures
        r@ == flag_key(i as int),
{
    if i == 0 {
        let v = vec!['a', 'u', 't', 'o', 'm', 'a', 't', 'i', 'c', '_', 'c', 'o', 'n', 'v', 'e', 'r', 's', 'i', 'o', 'n', '_', 'o', 'n', '_', 's', 't', 'a', 'r', 't', 'u', 'p'];
        assert(v@ =~= flag_key(0));
        v
    } else if i == 1 {
        let v = vec!['p', 'a', 'u', 's', 'e', '_', 'b', 'r', 'e', 'a', 'k', '_', 'u', 'n', 'd', 'o'];
        assert(v@ =~= flag_key(1));
        v
    } else if i == 2 {
        let v = vec!['o', 'f', 'f', 'e', 'r', '_', 'w', 'o', 'r', 'd', '_', 'e', 'x', 'c', 'l', 'u', 's', 'i', 'o', 'n', '_', 'a', 'f', 't', 'e', 'r', '_', 'u', 'n', 'd', 'o'];
        assert(v@ =~= flag_key(2));
        v
    } else if i == 3 {
        let v = vec!['o', 'f', 'f', 'e', 'r', '_', 'd', 'i', 'c', 't', 'i', 'o', 'n', 'a', 'r', 'y', '_', 'a', 'f', 't', 'e', 'r', '_', 'f', 'o', 'r', 'c', 'e', 'd', '_', 'c', 'o', 'n', 'v', 'e', 'r', 's', 'i', 'o', 'n'];
        assert(v@ =~= flag_key(3));
        v
    } else if i == 4 {
        let v = vec!['r', 'e', 'c', 'h', 'e', 'c', 'k', '_', 'f', 'i', 'r', 's', 't', '_', 'w', 'o', 'r', 'd', '_', 'a', 'f', 't', 'e', 'r', '_', 'e', 'r', 'a', 's', 'i', 'n', 'g'];
        assert(v@ =~= flag_key(4));
        v
    } else if i == 5 {
        let v = vec!['p', 'h', 'y', 's', 'i', 'c', 'a', 'l', '_', 'f', 'a', 'l', 'l', 'b', 'a', 'c', 'k', '_', 'f', 'o', 'r', '_', 'u', 'n', 's', 'u', 'p', 'p', 'o', 'r', 't', 'e', 'd', '_', 'a', 'p', 'p', 's'];
        assert(v@ =~= flag_key(5));
        v
    } else if i == 6 {
        let v = vec!['s', 'i', 'n', 'g', 'l', 'e', '_', 'l', 'e', 't', 't', 'e', 'r', '_', 'w', 'o', 'r', 'd', 's'];
        assert(v@ =~= flag_key(6));
        v
    } else if i == 7 {
        let v = vec!['m', 'a', 'n', 'u', 'a', 'l', '_', 't', 'e', 'r', 'm', 'i', 'n', 'a', 'l', '_', 'u', 'i', 'a', '_', 'f', 'a', 'l', 'l', 'b', 'a', 'c', 'k'];
        assert(v@ =~= flag_key(7));
        v
    } else if i == 8 {
        let v = vec!['d', 'i', 'a', 'g', 'n', 'o', 's', 't', 'i', 'c', 's', '_', 'e', 'n', 'a', 'b', 'l', 'e', 'd'];
        assert(v@ =~= flag_key(8));
        v
    } else if i == 9 {
        let v = vec!['s', 'u', 'p', 'p', 'r', 'e', 's', 's', '_', 'a', 'f', 't', 'e', 'r', '_', 'b', 'a', 'c', 'k', 's', 'p', 'a', 'c', 'e'];
        assert(v@ =~= flag_key(9));
        v
    } else if i == 10 {
        let v = vec!['s', 'u', 'p', 'p', 'r', 'e', 's', 's', '_', 'a', 'f', 't', 'e', 'r', '_', 'd', 'e', 'l', 'e', 't', 'e'];
        assert(v@ =~= flag_key(10));
        v
    } else if i == 11 {
        let v = vec!['s', 'u', 'p', 'p', 'r', 'e', 's', 's', '_', 'a', 'f', 't', 'e', 'r', '_', 'l', 'e', 'f', 't'];
        assert(v@ =~= flag_key(11));
        v
    } else if i == 12 {
        let v = vec!['s', 'u', 'p', 'p', 'r', 'e', 's', 's', '_', 'a', 'f', 't', 'e', 'r', '_', 'r', 'i', 'g', 'h', 't'];
        assert(v@ =~= flag_key(12));
        v
    } else if i == 13 {
        let v = vec!['s', 'u', 'p', 'p', 'r', 'e', 's', 's', '_', 'a', 'f', 't', 'e', 'r', '_', 'u', 'p'];
        assert(v@ =~= flag_key(13));
        v
    } else if i == 14 {
        let v = vec!['s', 'u', 'p', 'p', 'r', 'e', 's', 's', '_', 'a', 'f', 't', 'e', 'r', '_', 'd', 'o', 'w', 'n'];
        assert(v@ =~= flag_key(14));
        v
    } else if i == 15 {
        let v = vec!['s', 'u', 'p', 'p', 'r', 'e', 's', 's', '_', 'a', 'f', 't', 'e', 'r', '_', 'h', 'o', 'm', 'e', '_', 'e', 'n', 'd'];
        assert(v@ =~= flag_key(15));
        v
    } else {
        let v = vec!['s', 'u', 'p', 'p', 'r', 'e', 's', 's', '_', 'a', 'f', 't', 'e', 'r', '_', 'm', 'a', 'n', 'u', 'a', 'l', '_', 'l', 'a', 'y', 'o', 'u', 't', '_', 'c', 'h', 'a', 'n', 'g', 'e'];
        assert(v@ =~= flag_key(16));
        v
    }
}

impl Settings {
    fn get_flag(&self, i: usize) -> (r: bool)
        requires
            i < 17,
        ensures
            r == flag_get(self.flags(), i as int),
    {
        if i == 0 {
            self.automatic_conversion_on_startup
        } else if i == 1 {
            self.pause_break_undo
        } else if i == 2 {
            self.offer_word_exclusion_after_undo
        } else if i == 3 {
            self.offer_dictionary_after_forced_conversion
        } else if i == 4 {
            self.recheck_first_word_after_erasing
        } else if i == 5 {
            self.physical_fallback_for_unsupported_apps
        } else if i == 6 {
            self.single_letter_words
        } else if i == 7 {
            self.manual_terminal_uia_fallback
        } else if i == 8 {
            self.diagnostics_enabled
        } else if i == 9 {
            self.suppress_after_backspace
        } else if i == 10 {
            self.suppress_after_delete
        } else if i == 11 {
            self.suppress_after_left
        } else if i == 12 {
            self.suppress_after_right
        } else if i == 13 {
            self.suppress_after_up
        } else if i == 14 {
            self.suppress_after_down
        } else if i == 15 {
            self.suppress_after_home_end
        } else {
            self.suppress_after_manual_layout_change
        }
    }
}

fn bool_text_exec(b: bool) -> (r: Vec<char>)
    ensures
        r@ == bool_text(b),
{
    if b {
        let v = vec!['t', 'r', 'u', 'e'];
        assert(v@ =~= bool_text(true));
        v
    } else {
        let v = vec!['f', 'a', 'l', 's', 'e'];
        assert(v@ =~= bool_text(false));
        v
    }
}

fn kv_exec(key: Vec<char>, value: &[char]) -> (r: Vec<char>)
    ensures
        r@ == kv(key@, value@),
{
    let mut r = key;
    let ghost k = r@;
    r.push('=');
    let mut i: usize = 0;
    while i < value.len()
        invariant
            i <= value@.len(),
            r@ == k + seq!['='] + value@.take(i as int),
        decreases value.len() - i,
    {
        r.push(value[i]);
        assert(value@.take(i + 1) == value@.take(i as int).push(value@[i as int]));
        i = i + 1;
    }
    assert(value@.take(value@.len() as int) == value@);
    r
}

fn pack_tags(packs: &Vec<PackId>) -> (r: Vec<Vec<char>>)
    ensures
        views(r@) == pack_views(packs@),
{
    let mut r: Vec<Vec<char>> = Vec::new();
    let mut i: usize = 0;
    while i < packs.len()
        invariant
            i <= packs@.len(),
            views(r@) == pack_views(packs@).take(i as int),
        decreases packs.len() - i,
    {
        let ghost before = r@;
        r.push(packs[i].tag_chars());
        assert(views(r@) =~= views(before).push(packs@[i as int]@));
        assert(pack_views(packs@).take(i + 1) =~= pack_views(packs@).take(i as int).push(packs@[i as int]@));
        i = i + 1;
    }
    assert(pack_views(packs@).take(packs@.len() as int) =~= pack_views(packs@));
    r
}

impl Settings {
    fn flag_line(&self, i: usize) -> (r: Vec<char>)
        requires
            i < 17,
        ensures
            r@ == kv(flag_key(i as int), bool_text(flag_get(self.flags(), i as int))),
    {
        kv_exec(flag_key_exec(i), &bool_text_exec(self.get_flag(i)))
    }

    /// The settings as text, one `key=value` line each, which parsing gives
    /// back.
    pub fn to_text(&self) -> (r: String)
        ensures
            r@ == settings_text(self@),
    {
        let ghost v = self@;
        let ghost want = settings_lines(v);
        let mut lines: Vec<Vec<char>> = Vec::new();
        let header = vec!['#', ' ', 'A', 'u', 't', 'o', 'K', 'e', 'y', 'b', 'o', 'a', 'r', 'd', 'L', 'a', 'y', 'o', 't', ' ', 's', 'e', 't', 't', 'i', 'n', 'g', 's', ' ', 'v', '2'];
        assert(header@ =~= header_line());
        lines.push(header);
        let mut i: usize = 0;
        while i < 4
            invariant
                i <= 4,
                v == self@,
                want == settings_lines(v),
                views(lines@) =~= want.take(i + 1),
            decreases 4 - i,
        {
            let ghost before = views(lines@);
            lines.push(self.flag_line(i));
            assert(views(lines@) =~= before.push(want[i + 1]));
            assert(want.take(i + 2) =~= want.take(i + 1).push(want[i + 1]));
            i = i + 1;
        }
        let current = self.force_hotkey();
        let ghost before = views(lines@);
        lines.push(kv_exec(
            vec!['f', 'o', 'r', 'c', 'e', '_', 'h', 'o', 't', 'k', 'e', 'y', '_', 'k', 'e', 'y'],
            &key_name_chars(current.virtual_key),
        ));
        assert(views(lines@) =~= want.take(6));
        lines.push(kv_exec(
            vec!['f', 'o', 'r', 'c', 'e', '_', 'h', 'o', 't', 'k', 'e', 'y', '_', 'm', 'o', 'd', 'i', 'f', 'i', 'e', 'r', 's'],
            &modifiers_text_chars(current.modifiers),
        ));
        assert(views(lines@) =~= want.take(7));
        while i < 17
            invariant
                4 <= i <= 17,
                v == self@,
                want == settings_lines(v),
                views(lines@) =~= want.take(i + 3),
            decreases 17 - i,
        {
            let ghost before = views(lines@);
            lines.push(self.flag_line(i));
            assert(views(lines@) =~= before.push(want[i + 3]));
            assert(want.take(i + 4) =~= want.take(i + 3).push(want[i + 3]));
            i = i + 1;
        }
        let tags = pack_tags(&self.enabled_input_packs);
        let joined = join_chars(&tags, ',');
        let key = vec!['e', 'n', 'a', 'b', 'l', 'e', 'd', '_', 'i', 'n', 'p', 'u', 't', '_', 'p', 'a', 'c', 'k', 's'];
        assert(key@ =~= key_packs());
        assert(joined@ == join(v.packs, ','));
        let ghost before = views(lines@);
        lines.push(kv_exec(key, &joined));
        assert(views(lines@) =~= before.push(want[20]));
        assert(want.take(21) =~= want);
        assert(views(lines@) == want);
        let mut text = join_chars(&lines, '\n');
        let ghost body = text@;
        assert(body == join(want, '\n'));
        text.push('\n');
        assert(text@ =~= body + seq!['\n']);
        string_of(&text)
    }
}

impl Default for Settings {
    fn default() -> (r: Settings)
        ensures
            r@ == default_view(),
            r.wf(),
    {
        let r = Settings {
            automatic_conversion_on_startup: true,
            pause_break_undo: true,
            offer_word_exclusion_after_undo: true,
            offer_dictionary_after_forced_conversion: true,
            force_hotkey_virtual_key: VK_PAUSE,
            force_hotkey_modifiers: 0,
            recheck_first_word_after_erasing: true,
            physical_fallback_for_unsupported_apps: true,
            single_letter_words: false,
            manual_terminal_uia_fallback: false,
            diagnostics_enabled: false,
            suppress_after_backspace: true,
            suppress_after_delete: true,
            suppress_after_left: true,
            suppress_after_right: true,
            suppress_after_up: true,
            suppress_after_down: true,
            suppress_after_home_end: true,
            suppress_after_manual_layout_change: true,
            enabled_input_packs: vec![PackId::English, PackId::Estonian, PackId::Russian],
        };
        assert(pack_views(r.enabled_input_packs@) =~= default_view().packs);
        assert(r@ =~= default_view());
        assert(pack_views(r.enabled_input_packs@).no_duplicates()) by {
            assert(crate::pack_id::tag_en_us() != crate::pack_id::tag_ru_ru());
            assert(crate::pack_id::tag_en_us() != crate::pack_id::tag_et_ee());
            assert(crate::pack_id::tag_ru_ru() != crate::pack_id::tag_et_ee());
        }
        proof {
            lemma_default_ordered();
        }
        r
    }
}

impl Settings {
    /// Every selected pack is a canonical identifier.
    pub open spec fn packs_valid(&self) -> bool {
        forall|k: int| 0 <= k < self.enabled_input_packs@.len() ==> (#[trigger] self.enabled_input_packs@[k]).valid()
    }

    /// Canonical selected packs, each once, and a valid hotkey: what parsing
    /// produces.
    pub open spec fn wf(&self) -> bool {
        &&& self.packs_valid()
        &&& pack_views(self.enabled_input_packs@).no_duplicates()
        &&& strictly_ordered(pack_views(self.enabled_input_packs@))
        &&& valid_hotkey(self.force_hotkey_virtual_key, self.force_hotkey_modifiers)
    }

    /// Tolerant parsing: malformed lines and values are skipped, so this
    /// never fails.
    pub fn from_text(text: &str) -> (r: Settings)
        ensures
            parse_settings(text@, false) == Ok::<SettingsView, (int, SettingsErrorKind)>(r@),
            r.wf(),
    {
        proof {
            lemma_tolerant_never_fails(text@);
        }
        match Self::parse_text(text, false) {
            Ok(s) => s,
            Err(_) => Settings::default(),
        }
    }

    /// Reject malformed known values without rejecting forward-compatible
    /// keys.
    pub fn try_from_text(text: &str) -> (r: Result<Settings, SettingsError>)
        ensures
            r matches Ok(s) ==> s.wf(),
            match r {
                Ok(s) => parse_settings(text@, true) == Ok::<SettingsView, (int, SettingsErrorKind)>(s@),
                Err(e) => parse_settings(text@, true) == Err::<SettingsView, (int, SettingsErrorKind)>((e.line as int, e.kind))
                    && e.message@ == error_message(e.kind),
            },
    {
        Self::parse_text(text, true)
    }

    fn parse_text(text: &str, strict: bool) -> (r: Result<Settings, SettingsError>)
        ensures
            r matches Ok(s) ==> s.wf(),
            match r {
                Ok(s) => parse_settings(text@, strict) == Ok::<SettingsView, (int, SettingsErrorKind)>(s@),
                Err(e) => parse_settings(text@, strict) == Err::<SettingsView, (int, SettingsErrorKind)>((e.line as int, e.kind))
                    && e.message@ == error_message(e.kind),
            },
    {
        let chars = chars_of(text);
        let lines = text_lines_exec(&chars);
        let ghost ls = views(lines@);
        let mut st = ParseExec {
            settings: Settings::default(),
            hotkey_key: None,
            hotkey_modifiers: None,
            hotkey_line: 1,
            pack_seen: false,
            legacy_seen: false,
        };
        assert(fold_lines(ls.subrange(0, 0), strict) == Ok::<ParseState, (int, SettingsErrorKind)>(st.state()));
        let mut i: usize = 0;
        while i < lines.len()
            invariant
                i <= lines@.len(),
                ls == views(lines@),
                ls == text_lines(text@),
                st.settings.wf(),
                fold_lines(ls.subrange(0, i as int), strict) == Ok::<ParseState, (int, SettingsErrorKind)>(st.state()),
            decreases lines.len() - i,
        {
            assert(ls.subrange(0, i + 1).drop_last() == ls.subrange(0, i as int));
            assert(ls.subrange(0, i + 1).last() == lines@[i as int]@);
            match step_exec(&mut st, i, &lines[i], strict) {
                Ok(()) => {},
                Err(k) => {
                    proof {
                        lemma_fold_lines_err_extends(ls, i as int + 1, strict);
                    }
                    return Err(SettingsError { line: i + 1, message: message_for(k), kind: k });
                },
            }
            i = i + 1;
        }
        assert(ls.subrange(0, ls.len() as int) == ls);
        Self::finish_exec(st, strict)
    }

    fn finish_exec(st: ParseExec, strict: bool) -> (r: Result<Settings, SettingsError>)
        requires
            st.settings.wf(),
        ensures
            r matches Ok(s) ==> s.wf(),
            match r {
                Ok(s) => finish(st.state(), strict) == Ok::<SettingsView, (int, SettingsErrorKind)>(s@),
                Err(e) => finish(st.state(), strict) == Err::<SettingsView, (int, SettingsErrorKind)>((e.line as int, e.kind))
                    && e.message@ == error_message(e.kind),
            },
    {
        let ParseExec { settings, hotkey_key, hotkey_modifiers, hotkey_line, pack_seen, legacy_seen } = st;
        let mut settings = settings;
        if hotkey_key.is_none() && hotkey_modifiers.is_none() {
            return Ok(settings);
        }
        let current = settings.force_hotkey();
        let key = match hotkey_key {
            Some(k) => string_of(&k),
            None => current.key_name(),
        };
        let mods = match hotkey_modifiers {
            Some(m) => string_of(&m),
            None => current.modifiers_text(),
        };
        match Hotkey::from_parts(key.as_str(), mods.as_str()) {
            Ok(h) => {
                settings.store_hotkey(h);
                Ok(settings)
            },
            Err(_) => {
                if strict {
                    Err(SettingsError {
                        line: hotkey_line,
                        message: message_for(SettingsErrorKind::InvalidHotkey),
                        kind: SettingsErrorKind::InvalidHotkey,
                    })
                } else {
                    Ok(settings)
                }
            },
        }
    }

    /// Whether `language` is selected.
    pub fn language_enabled(&self, language: Language) -> (r: bool)
        ensures
            r == self@.packs.contains(language@),
    {
        contains_pack(&self.enabled_input_packs, &language)
    }

    /// Select or deselect a pack.
    pub fn set_pack_enabled(&mut self, id: PackId, enabled: bool)
        requires
            old(self).packs_valid(),
            id.valid(),
        ensures
            final(self).packs_valid(),
            final(self)@ == with_packs(old(self)@, set_pack(old(self)@.packs, id@, enabled)),
            old(self).wf() ==> final(self).wf(),
    {
        let ghost before = pack_views(self.enabled_input_packs@);
        if enabled {
            add_pack(&mut self.enabled_input_packs, id);
        } else {
            remove_pack(&mut self.enabled_input_packs, &id);
        }
        assert(self.flags() == old(self).flags());
        proof {
            if old(self).wf() {
                if enabled {
                    lemma_add_in_order_ordered(before, id@);
                } else {
                    lemma_filter_ordered(before, id@);
                }
                lemma_ordered_distinct(pack_views(self.enabled_input_packs@));
            }
        }

    }

    fn replace_packs(&mut self, sel: Vec<PackId>)
        requires
            forall|k: int| 0 <= k < sel@.len() ==> (#[trigger] sel@[k]).valid(),
        ensures
            final(self).packs_valid(),
            old(self).wf() && strictly_ordered(pack_views(sel@)) ==> final(self).wf(),
            final(self).flags() == old(self).flags(),
            final(self).enabled_input_packs@ == sel@,
            final(self).force_hotkey_virtual_key == old(self).force_hotkey_virtual_key,
            final(self).force_hotkey_modifiers == old(self).force_hotkey_modifiers,
    {
        put_packs(&mut self.enabled_input_packs, sel);
        assert(self.flags() == old(self).flags());
    }

    fn store_hotkey(&mut self, h: Hotkey)
        requires
            old(self).packs_valid(),
        ensures
            final(self).packs_valid(),
            old(self).wf() && h.valid() ==> final(self).wf(),
            final(self).flags() == old(self).flags(),
            final(self).enabled_input_packs@ == old(self).enabled_input_packs@,
            final(self).force_hotkey_virtual_key == h.virtual_key,
            final(self).force_hotkey_modifiers == h.modifiers,
    {
        self.force_hotkey_virtual_key = h.virtual_key;
        self.force_hotkey_modifiers = h.modifiers;
        assert(self.flags() == old(self).flags());
    }

    /// The configured hotkey, or Pause/Break when the stored fields do not
    /// form a valid one.
    pub fn force_hotkey(&self) -> (r: Hotkey)
        ensures
            r == current_hotkey(self@),
            r.valid(),
    {
        match Hotkey::new(self.force_hotkey_virtual_key, self.force_hotkey_modifiers) {
            Some(h) => h,
            None => Hotkey::default(),
        }
    }
}

proof fn lemma_fold_lines_err_extends(ls: Seq<Seq<char>>, j: int, strict: bool)
    requires
        0 <= j <= ls.len(),
        fold_lines(ls.subrange(0, j), strict) is Err,
    ensures
        fold_lines(ls, strict) == fold_lines(ls.subrange(0, j), strict),
    decreases ls.len() - j,
{
    if j < ls.len() {
        assert(ls.subrange(0, j + 1).drop_last() == ls.subrange(0, j));
        lemma_fold_lines_err_extends(ls, j + 1, strict);
    } else {
        assert(ls.subrange(0, j) == ls);
    }
}

proof fn lemma_fold_lines_tolerant(ls: Seq<Seq<char>>)
    ensures
        fold_lines(ls, false) is Ok,
    decreases ls.len(),
{
    if ls.len() > 0 {
        lemma_fold_lines_tolerant(ls.drop_last());
    }
}

/// Tolerant parsing accepts every text.
pub proof fn lemma_tolerant_never_fails(text: Seq<char>)
    ensures
        parse_settings(text, false) is Ok,
{
    lemma_fold_lines_tolerant(text_lines(text));
}

/// A key as settings write it: not empty, no comment marker, no white
/// space at either end, no `=` and no line break.
pub open spec fn key_shape(k: Seq<char>) -> bool {
    &&& k.len() > 0
    &&& k[0] != '#'
    &&& !is_ws(k[0])
    &&& !is_ws(k.last())
    &&& forall|j: int| 0 <= j < k.len() ==> #[trigger] k[j] != '=' && k[j] != '\n'
}

/// A value as settings write it: no white space at either end and no line
/// break.
pub open spec fn value_shape(v: Seq<char>) -> bool {
    &&& v.len() > 0 ==> !is_ws(v[0]) && !is_ws(v.last())
    &&& forall|j: int| 0 <= j < v.len() ==> #[trigger] v[j] != '\n'
}

proof fn lemma_first_eq(k: Seq<char>, v: Seq<char>)
    requires
        forall|j: int| 0 <= j < k.len() ==> #[trigger] k[j] != '=',
    ensures
        first_index_of(k + seq!['='] + v, '=') == k.len(),
    decreases k.len(),
{
    let s = k + seq!['='] + v;
    if k.len() == 0 {
        assert(s[0] == '=');
    } else {
        assert(s[0] == k[0]);
        let k2 = k.drop_first();
        assert forall|j: int| 0 <= j < k2.len() implies #[trigger] k2[j] != '=' by {
            assert(k2[j] == k[j + 1]);
        }
        lemma_first_eq(k2, v);
        assert(s.drop_first() =~= k2 + seq!['='] + v);
    }
}

/// A written `key=value` line is read as that key and value.
proof fn lemma_step_kv(st: ParseState, index: int, key: Seq<char>, value: Seq<char>, strict: bool)
    requires
        key_shape(key),
        value_shape(value),
    ensures
        step(st, index, kv(key, value), strict) == step_pair(st, index, key, value, strict),
        forall|j: int| 0 <= j < kv(key, value).len() ==> #[trigger] kv(key, value)[j] != '\n',
{
    let line = kv(key, value);
    assert(line[0] == key[0]);
    if value.len() > 0 {
        assert(line.last() == value.last());
    } else {
        assert(line.last() == '=');
    }
    crate::text::lemma_trim_plain(line);
    lemma_first_eq(key, value);
    assert(line.take(key.len() as int) =~= key);
    crate::text::lemma_trim_plain(key);
    assert(line.skip(key.len() as int + 1) =~= value);
    assert forall|j: int| 0 <= j < line.len() implies #[trigger] line[j] != '\n' by {
        if j < key.len() {
            assert(line[j] == key[j]);
        } else if j > key.len() {
            assert(line[j] == value[j - key.len() - 1]);
        }
    }
}

proof fn lemma_parse_bool_text(b: bool)
    ensures
        parse_bool_spec(bool_text(b)) == Some(b),
{
    let t = bool_text(b);
    crate::text::lemma_trim_plain(t);
    assert(lower_all(t) =~= t);
}

/// The flag whose line is at `line` in the written text.
pub open spec fn flag_of_line(line: int) -> Option<int> {
    if 1 <= line <= 4 {
        Some(line - 1)
    } else if 7 <= line <= 19 {
        Some(line - 3)
    } else {
        None
    }
}

/// The flags after reading the first `k` written lines of `target`.
pub open spec fn flags_after(target: FlagsView, k: nat) -> FlagsView
    decreases k,
{
    if k == 0 {
        default_flags()
    } else {
        let prev = flags_after(target, (k - 1) as nat);
        match flag_of_line(k - 1) {
            Some(i) => flag_set(prev, i, flag_get(target, i)),
            None => prev,
        }
    }
}

/// The parsing state after the first `k` written lines of `v`.
pub open spec fn state_after(v: SettingsView, k: nat) -> ParseState {
    let cur = current_hotkey(v);
    ParseState {
        view: SettingsView {
            flags: flags_after(v.flags, k),
            hotkey_key: VK_PAUSE,
            hotkey_modifiers: 0,
            packs: if k > 20 {
                v.packs
            } else {
                default_view().packs
            },
        },
        hotkey_key: if k > 5 {
            Some(key_name_spec(cur.virtual_key))
        } else {
            None
        },
        hotkey_modifiers: if k > 6 {
            Some(modifiers_text_spec(cur.modifiers))
        } else {
            None
        },
        hotkey_line: if k > 6 {
            7
        } else if k > 5 {
            6
        } else {
            1
        },
        pack_seen: k > 20,
        legacy_seen: false,
    }
}

/// What the written text can hold and read back: a valid hotkey and at
/// most 64 distinct canonical pack identifiers in order of spelling.
pub open spec fn writable(v: SettingsView) -> bool {
    &&& valid_hotkey(v.hotkey_key, v.hotkey_modifiers)
    &&& v.packs.len() <= 64
    &&& v.packs.no_duplicates()
    &&& strictly_ordered(v.packs)
    &&& forall|i: int| 0 <= i < v.packs.len() ==> canonical_tag(#[trigger] v.packs[i]) == Some(v.packs[i])
}

proof fn lemma_flag_line(st: ParseState, index: int, i: int, b: bool, strict: bool)
    requires
        0 <= i < 17,
    ensures
        step(st, index, kv(flag_key(i), bool_text(b)), strict) == Ok::<ParseState, (int, SettingsErrorKind)>(
            ParseState { view: with_flags(st.view, flag_set(st.view.flags, i, b)), ..st },
        ),
        forall|j: int| 0 <= j < kv(flag_key(i), bool_text(b)).len() ==> #[trigger] kv(flag_key(i), bool_text(b))[j] != '\n',
{
    lemma_flag_key(i);
    lemma_step_kv(st, index, flag_key(i), bool_text(b), strict);
    lemma_parse_bool_text(b);
}

proof fn lemma_flag_key(i: int)
    requires
        0 <= i < 17,
    ensures
        key_shape(flag_key(i)),
        flag_key(i) != key_packs(),
        legacy_tag(flag_key(i)) is None,
        flag_key(i) != key_hotkey_key(),
        flag_key(i) != key_hotkey_modifiers(),
        flag_index(flag_key(i)) == i,
{
    if i == 0 {
        assert(flag_index(flag_key(0)) == 0);
    } else if i == 1 {
        assert(flag_index(flag_key(1)) == 1);
    } else if i == 2 {
        assert(flag_index(flag_key(2)) == 2);
    } else if i == 3 {
        assert(flag_index(flag_key(3)) == 3);
    } else if i == 4 {
        assert(flag_index(flag_key(4)) == 4);
    } else if i == 5 {
        assert(flag_index(flag_key(5)) == 5);
    } else if i == 6 {
        assert(flag_index(flag_key(6)) == 6);
    } else if i == 7 {
        assert(flag_index(flag_key(7)) == 7);
    } else if i == 8 {
        assert(flag_index(flag_key(8)) == 8);
    } else if i == 9 {
        assert(flag_index(flag_key(9)) == 9);
    } else if i == 10 {
        assert(flag_index(flag_key(10)) == 10);
    } else if i == 11 {
        assert(flag_index(flag_key(11)) == 11);
    } else if i == 12 {
        assert(flag_index(flag_key(12)) == 12);
    } else if i == 13 {
        assert(flag_index(flag_key(13)) == 13);
    } else if i == 14 {
        assert(flag_index(flag_key(14)) == 14);
    } else if i == 15 {
        assert(flag_index(flag_key(15)) == 15);
    } else {
        assert(flag_index(flag_key(16)) == 16);
    }
}

proof fn lemma_key_name_shape(vk: u16)
    requires
        supported_key(vk),
    ensures
        value_shape(key_name_spec(vk)),
{
    let n = key_name_spec(vk);
    if vk != VK_PAUSE && !((0x41 <= vk <= 0x5a) || (0x30 <= vk <= 0x39)) {
        let d = crate::pack_id::decimal(vk - 0x6f);
        assert(n == seq!['F'] + d);
        assert forall|j: int| 0 <= j < n.len() implies #[trigger] n[j] != '\n' by {
            if j > 0 {
                assert(n[j] == d[j - 1]);
            }
        }
    }
}

proof fn lemma_modifiers_shape(m: u8)
    requires
        m < 16,
    ensures
        value_shape(modifiers_text_spec(m)),
{
    if m != 0 {
        let ts = crate::pack_id::mod_tokens(m);
        let letter_or_plus = |c: char| ('a' <= c && c <= 'z') || ('A' <= c && c <= 'Z') || c == '+';
        assert(m & 1u8 != 0 || m & 2u8 != 0 || m & 4u8 != 0 || m & 8u8 != 0) by (bit_vector)
            requires
                m < 16,
                m != 0,
        ;
        assert forall|i: int, k: int| 0 <= i < ts.len() && 0 <= k < ts[i].len() implies letter_or_plus(#[trigger] ts[i][k]) by {
            let t = ts[i];
            assert(t == crate::pack_id::mod_token(1) || t == crate::pack_id::mod_token(2) || t
                == crate::pack_id::mod_token(4) || t == crate::pack_id::mod_token(8));
        }
        crate::text::lemma_join_chars(ts, '+', letter_or_plus);
        assert(ts.len() >= 1);
        assert(ts.last().len() >= 1 && ('a' <= ts.last().last() && ts.last().last() <= 'z')) by {
            let t = ts[ts.len() - 1];
            assert(t == crate::pack_id::mod_token(1) || t == crate::pack_id::mod_token(2) || t
                == crate::pack_id::mod_token(4) || t == crate::pack_id::mod_token(8));
        }
        assert(ts[0].len() >= 1 && ('A' <= ts[0][0] && ts[0][0] <= 'Z')) by {
            let t = ts[0];
            assert(t == crate::pack_id::mod_token(1) || t == crate::pack_id::mod_token(2) || t
                == crate::pack_id::mod_token(4) || t == crate::pack_id::mod_token(8));
        }
        crate::text::lemma_join_last(ts, '+');
        crate::text::lemma_join_head(ts, '+');
        let j = join(ts, '+');
        assert forall|k: int| 0 <= k < j.len() implies #[trigger] j[k] != '\n' by {
            assert(letter_or_plus(j[k]));
        }
    }
}

/// The written pack list: canonical identifiers joined by commas.
proof fn lemma_pack_list_shape(packs: Seq<Seq<char>>)
    requires
        forall|i: int| 0 <= i < packs.len() ==> canonical_tag(#[trigger] packs[i]) == Some(packs[i]),
    ensures
        value_shape(join(packs, ',')),
        forall|k: int| 0 <= k < join(packs, ',').len() ==> #[trigger] join(packs, ',')[k] != ',' ==> tag_char(join(packs, ',')[k]),
        forall|i: int, k: int| 0 <= i < packs.len() && 0 <= k < packs[i].len() ==> tag_char(#[trigger] packs[i][k]),
{
    let ok = |c: char| tag_char(c) || c == ',';
    assert forall|i: int, k: int| 0 <= i < packs.len() && 0 <= k < packs[i].len() implies tag_char(#[trigger] packs[i][k]) by {
        lemma_canonical_shape(packs[i]);
    }
    assert forall|i: int, k: int| 0 <= i < packs.len() && 0 <= k < packs[i].len() implies ok(#[trigger] packs[i][k]) by {
        assert(tag_char(packs[i][k]));
    }
    crate::text::lemma_join_chars(packs, ',', ok);
    let j = join(packs, ',');
    assert forall|k: int| 0 <= k < j.len() implies #[trigger] j[k] != '\n' by {
        assert(ok(j[k]));
    }
    assert forall|k: int| 0 <= k < j.len() implies #[trigger] j[k] != ',' ==> tag_char(j[k]) by {
        assert(ok(j[k]));
    }
    if packs.len() > 0 {
        lemma_canonical_shape(packs[0]);
        lemma_canonical_shape(packs[packs.len() - 1]);
        assert(packs.last() == packs[packs.len() - 1]);
        crate::text::lemma_join_last(packs, ',');
        crate::text::lemma_join_head(packs, ',');
    }
}

/// Reading the written pack list gives back the list.
proof fn lemma_pack_list_roundtrip(packs: Seq<Seq<char>>)
    requires
        packs.len() <= 64,
        packs.no_duplicates(),
        strictly_ordered(packs),
        forall|i: int| 0 <= i < packs.len() ==> canonical_tag(#[trigger] packs[i]) == Some(packs[i]),
    ensures
        parse_packs_spec(join(packs, ',')) == Ok::<Seq<Seq<char>>, SettingsErrorKind>(packs),
{
    lemma_pack_list_shape(packs);
    let j = join(packs, ',');
    crate::text::lemma_trim_plain(j);
    if packs.len() == 0 {
        assert(j.len() == 0);
        assert(packs =~= Seq::<Seq<char>>::empty());
    } else {
        assert(j.len() > 0) by {
            lemma_canonical_shape(packs[0]);
            crate::text::lemma_join_head(packs, ',');
        }
        assert forall|i: int| 0 <= i < packs.len() implies !(#[trigger] packs[i]).contains(',') by {
            if packs[i].contains(',') {
                let k = choose|k: int| 0 <= k < packs[i].len() && packs[i][k] == ',';
                assert(tag_char(packs[i][k]));
            }
        }
        crate::text::lemma_split_join(packs, ',');
        lemma_fold_packs_canonical(packs, packs.len() as int);
        assert(packs.take(packs.len() as int) =~= packs);
        assert(trim(j) == j);
        assert(split(trim(j), ',') == packs);
    }
}

proof fn lemma_fold_packs_canonical(packs: Seq<Seq<char>>, n: int)
    requires
        0 <= n <= packs.len(),
        packs.len() <= 64,
        packs.no_duplicates(),
        strictly_ordered(packs),
        forall|i: int| 0 <= i < packs.len() ==> canonical_tag(#[trigger] packs[i]) == Some(packs[i]),
        forall|i: int, k: int| 0 <= i < packs.len() && 0 <= k < packs[i].len() ==> tag_char(#[trigger] packs[i][k]),
    ensures
        fold_packs(packs.take(n)) == Ok::<Seq<Seq<char>>, SettingsErrorKind>(packs.take(n)),
    decreases n,
{
    if n == 0 {
        assert(packs.take(0) =~= Seq::<Seq<char>>::empty());
    } else {
        lemma_fold_packs_canonical(packs, n - 1);
        let t = packs.take(n);
        assert(t.drop_last() =~= packs.take(n - 1));
        assert(t.last() == packs[n - 1]);
        let p = packs[n - 1];
        lemma_canonical_shape(p);
        assert(!is_ws(p[0]) && !is_ws(p.last())) by {
            assert(tag_char(p[0]));
            assert(p.last() == p[p.len() - 1]);
            assert(tag_char(p[p.len() - 1]));
        }
        crate::text::lemma_trim_plain(p);
        assert(!packs.take(n - 1).contains(p)) by {
            if packs.take(n - 1).contains(p) {
                let pre = packs.take(n - 1);
                let k = choose|k: int| 0 <= k < pre.len() && #[trigger] pre[k] == p;
                assert(packs[k] == packs[n - 1]);
            }
        }
        let pre = packs.take(n - 1);
        assert forall|k: int| 0 <= k < pre.len() implies #[trigger] pre[k] != p && !text_le(p, pre[k]) by {
            assert(pre[k] == packs[k]);
            assert(text_le(packs[k], packs[n - 1]) && packs[k] != packs[n - 1]);
            lemma_text_le_props(packs[k], p, p);
        }
        lemma_add_in_order_at(pre, p, pre.len() as int);
        assert(pre.insert(pre.len() as int, p) =~= pre.push(p));
        assert(packs.take(n - 1).push(p) =~= t);
    }
}

/// The default selection is in order of spelling.
proof fn lemma_default_ordered()
    ensures
        strictly_ordered(default_view().packs),
{
    let en = crate::pack_id::tag_en_us();
    let et = crate::pack_id::tag_et_ee();
    let ru = crate::pack_id::tag_ru_ru();
    assert(en.drop_first() =~= seq!['n', '-', 'U', 'S']);
    assert(et.drop_first() =~= seq!['t', '-', 'E', 'E']);
    assert(text_le(en.drop_first(), et.drop_first()));
    assert(text_le(en, et));
    assert(text_le(en, ru));
    assert(text_le(et, ru));
    assert(en != et && en != ru && et != ru) by {
        assert(en[1] != et[1] && en[0] != ru[0] && et[0] != ru[0]);
    }
}

proof fn lemma_written_lines(v: SettingsView)
    requires
        writable(v),
    ensures
        text_lines(settings_text(v)) == settings_lines(v),
{
    let ls = settings_lines(v);
    assert forall|k: int| 0 <= k < ls.len() implies !(#[trigger] ls[k]).contains('\n') by {
        assert(forall|j: int| 0 <= j < ls[k].len() ==> #[trigger] ls[k][j] != '\n') by {
            lemma_line_step(v, k, false);
        }
    }
    crate::text::lemma_split_join(ls, '\n');
    let body = join(ls, '\n');
    let text = body + seq!['\n'];
    assert(text.drop_last() =~= body);
    assert(split(text, '\n') == split(body, '\n').push(Seq::<char>::empty()));
    assert(split(text, '\n').drop_last() =~= ls);
}

proof fn lemma_fold_take(ls: Seq<Seq<char>>, k: int, strict: bool)
    requires
        0 <= k < ls.len(),
    ensures
        fold_lines(ls.take(k + 1), strict) == (match fold_lines(ls.take(k), strict) {
            Err(e) => Err(e),
            Ok(st) => step(st, k, ls[k], strict),
        }),
{
    assert(ls.take(k + 1).drop_last() =~= ls.take(k));
    assert(ls.take(k + 1).last() == ls[k]);
}

/// Each written line moves the parse to the next expected state.
proof fn lemma_line_step(v: SettingsView, k: int, strict: bool)
    requires
        writable(v),
        0 <= k < 21,
    ensures
        step(state_after(v, k as nat), k, settings_lines(v)[k], strict) == Ok::<ParseState, (int, SettingsErrorKind)>(
            state_after(v, (k + 1) as nat),
        ),
        forall|j: int| 0 <= j < settings_lines(v)[k].len() ==> #[trigger] settings_lines(v)[k][j] != '\n',
{
    if k == 0 {
        lemma_header_line(v, strict);
    } else if k == 5 {
        lemma_hotkey_key_line(v, strict);
    } else if k == 6 {
        lemma_hotkey_modifiers_line(v, strict);
    } else if k == 20 {
        lemma_packs_line(v, strict);
    } else {
        lemma_flag_written_line(v, k, strict);
    }
}

#[verifier::spinoff_prover]
proof fn lemma_header_line(v: SettingsView, strict: bool)
    ensures
        step(state_after(v, 0), 0, settings_lines(v)[0], strict) == Ok::<ParseState, (int, SettingsErrorKind)>(
            state_after(v, 1),
        ),
        forall|j: int| 0 <= j < settings_lines(v)[0].len() ==> #[trigger] settings_lines(v)[0][j] != '\n',
{
    let h = header_line();
    crate::text::lemma_trim_plain(h);
    assert(settings_lines(v)[0] == h);
    assert(flags_after(v.flags, 1) == flags_after(v.flags, 0));
}

#[verifier::spinoff_prover]
proof fn lemma_hotkey_key_line(v: SettingsView, strict: bool)
    requires
        writable(v),
    ensures
        step(state_after(v, 5), 5, settings_lines(v)[5], strict) == Ok::<ParseState, (int, SettingsErrorKind)>(
            state_after(v, 6),
        ),
        forall|j: int| 0 <= j < settings_lines(v)[5].len() ==> #[trigger] settings_lines(v)[5][j] != '\n',
{
    let cur = current_hotkey(v);
    let st = state_after(v, 5);
    assert(settings_lines(v)[5] == kv(key_hotkey_key(), key_name_spec(cur.virtual_key)));
    lemma_key_name_shape(cur.virtual_key);
    lemma_step_kv(st, 5, key_hotkey_key(), key_name_spec(cur.virtual_key), strict);
    crate::text::lemma_trim_plain(key_name_spec(cur.virtual_key));
    assert(flags_after(v.flags, 6) == flags_after(v.flags, 5));
}

#[verifier::spinoff_prover]
proof fn lemma_hotkey_modifiers_line(v: SettingsView, strict: bool)
    requires
        writable(v),
    ensures
        step(state_after(v, 6), 6, settings_lines(v)[6], strict) == Ok::<ParseState, (int, SettingsErrorKind)>(
            state_after(v, 7),
        ),
        forall|j: int| 0 <= j < settings_lines(v)[6].len() ==> #[trigger] settings_lines(v)[6][j] != '\n',
{
    let cur = current_hotkey(v);
    let st = state_after(v, 6);
    assert(settings_lines(v)[6] == kv(key_hotkey_modifiers(), modifiers_text_spec(cur.modifiers)));
    lemma_modifiers_shape(cur.modifiers);
    lemma_step_kv(st, 6, key_hotkey_modifiers(), modifiers_text_spec(cur.modifiers), strict);
    crate::text::lemma_trim_plain(modifiers_text_spec(cur.modifiers));
    assert(flags_after(v.flags, 7) == flags_after(v.flags, 6));
}

#[verifier::spinoff_prover]
proof fn lemma_packs_line(v: SettingsView, strict: bool)
    requires
        writable(v),
    ensures
        step(state_after(v, 20), 20, settings_lines(v)[20], strict) == Ok::<ParseState, (int, SettingsErrorKind)>(
            state_after(v, 21),
        ),
        forall|j: int| 0 <= j < settings_lines(v)[20].len() ==> #[trigger] settings_lines(v)[20][j] != '\n',
{
    let st = state_after(v, 20);
    assert(settings_lines(v)[20] == kv(key_packs(), join(v.packs, ',')));
    lemma_pack_list_shape(v.packs);
    lemma_step_kv(st, 20, key_packs(), join(v.packs, ','), strict);
    lemma_pack_list_roundtrip(v.packs);
    assert(flags_after(v.flags, 21) == flags_after(v.flags, 20));
}

#[verifier::spinoff_prover]
proof fn lemma_flag_written_line(v: SettingsView, k: int, strict: bool)
    requires
        (1 <= k <= 4) || (7 <= k <= 19),
    ensures
        step(state_after(v, k as nat), k, settings_lines(v)[k], strict) == Ok::<ParseState, (int, SettingsErrorKind)>(
            state_after(v, (k + 1) as nat),
        ),
        forall|j: int| 0 <= j < settings_lines(v)[k].len() ==> #[trigger] settings_lines(v)[k][j] != '\n',
{
    let i = flag_of_line(k)->0;
    let b = flag_get(v.flags, i);
    let st = state_after(v, k as nat);
    lemma_flag_line_text(v, k);
    lemma_flag_line(st, k, i, b, strict);
    lemma_flag_state_step(v, k);
}

proof fn lemma_flag_state_step(v: SettingsView, k: int)
    requires
        (1 <= k <= 4) || (7 <= k <= 19),
    ensures
        ({
            let i = flag_of_line(k)->0;
            let st = state_after(v, k as nat);
            (ParseState {
                view: with_flags(st.view, flag_set(st.view.flags, i, flag_get(v.flags, i))),
                ..st
            }) == state_after(v, (k + 1) as nat)
        }),
{
    assert(flags_after(v.flags, (k + 1) as nat) == flag_set(
        flags_after(v.flags, k as nat),
        flag_of_line(k)->0,
        flag_get(v.flags, flag_of_line(k)->0),
    ));
}

#[verifier::spinoff_prover]
proof fn lemma_flag_line_text(v: SettingsView, k: int)
    requires
        (1 <= k <= 4) || (7 <= k <= 19),
    ensures
        settings_lines(v)[k] == kv(flag_key(flag_of_line(k)->0), bool_text(flag_get(v.flags, flag_of_line(k)->0))),
{
    let ls = settings_lines(v);
    if k <= 4 {
        assert(ls[1] == kv(flag_key(0), bool_text(flag_get(v.flags, 0))));
        assert(ls[2] == kv(flag_key(1), bool_text(flag_get(v.flags, 1))));
        assert(ls[3] == kv(flag_key(2), bool_text(flag_get(v.flags, 2))));
        assert(ls[4] == kv(flag_key(3), bool_text(flag_get(v.flags, 3))));
    } else if k <= 12 {
        assert(ls[7] == kv(flag_key(4), bool_text(flag_get(v.flags, 4))));
        assert(ls[8] == kv(flag_key(5), bool_text(flag_get(v.flags, 5))));
        assert(ls[9] == kv(flag_key(6), bool_text(flag_get(v.flags, 6))));
        assert(ls[10] == kv(flag_key(7), bool_text(flag_get(v.flags, 7))));
        assert(ls[11] == kv(flag_key(8), bool_text(flag_get(v.flags, 8))));
        assert(ls[12] == kv(flag_key(9), bool_text(flag_get(v.flags, 9))));
    } else {
        assert(ls[13] == kv(flag_key(10), bool_text(flag_get(v.flags, 10))));
        assert(ls[14] == kv(flag_key(11), bool_text(flag_get(v.flags, 11))));
        assert(ls[15] == kv(flag_key(12), bool_text(flag_get(v.flags, 12))));
        assert(ls[16] == kv(flag_key(13), bool_text(flag_get(v.flags, 13))));
        assert(ls[17] == kv(flag_key(14), bool_text(flag_get(v.flags, 14))));
        assert(ls[18] == kv(flag_key(15), bool_text(flag_get(v.flags, 15))));
        assert(ls[19] == kv(flag_key(16), bool_text(flag_get(v.flags, 16))));
    }
}

proof fn lemma_fold_prefix(v: SettingsView, k: int, strict: bool)
    requires
        writable(v),
        0 <= k <= 21,
    ensures
        fold_lines(settings_lines(v).take(k), strict) == Ok::<ParseState, (int, SettingsErrorKind)>(state_after(v, k as nat)),
    decreases k,
{
    let ls = settings_lines(v);
    if k == 0 {
        assert(ls.take(0) =~= Seq::<Seq<char>>::empty());
    } else {
        lemma_fold_prefix(v, k - 1, strict);
        lemma_fold_take(ls, k - 1, strict);
        lemma_line_step(v, k - 1, strict);
    }
}

proof fn lemma_flags_after_all(target: FlagsView)
    ensures
        flags_after(target, 21) == target,
{
    reveal_with_fuel(flags_after, 22);
}

/// Reading back what `to_text` writes gives the same settings, in both
/// parsing modes, for every value that the text can hold: a valid hotkey
/// and at most 64 distinct canonical pack identifiers.
pub proof fn lemma_text_roundtrip(v: SettingsView, strict: bool)
    requires
        writable(v),
    ensures
        parse_settings(settings_text(v), strict) == Ok::<SettingsView, (int, SettingsErrorKind)>(v),
{
    lemma_written_lines(v);
    let ls = settings_lines(v);
    lemma_fold_prefix(v, 21, strict);
    assert(ls.take(21) =~= ls);
    let st = state_after(v, 21);
    let cur = current_hotkey(v);
    crate::pack_id::lemma_hotkey_roundtrip(cur);
    lemma_flags_after_all(v.flags);
    assert(finish(st, strict) == Ok::<SettingsView, (int, SettingsErrorKind)>(v));
}

/// Well-formed settings with at most 64 selected packs are what the text
/// can hold, so `lemma_text_roundtrip` applies to them.
pub proof fn lemma_wf_writable(s: Settings)
    requires
        s.wf(),
        s.enabled_input_packs@.len() <= 64,
    ensures
        writable(s@),
{
    let v = s@;
    assert forall|i: int| 0 <= i < v.packs.len() implies canonical_tag(#[trigger] v.packs[i]) == Some(v.packs[i]) by {
        let p = s.enabled_input_packs@[i];
        assert(p.valid());
        crate::pack_id::lemma_valid_is_canonical(p);
    }
}

proof fn lemma_strict_step_agrees(st: ParseState, index: int, raw: Seq<char>)
    requires
        step(st, index, raw, true) is Ok,
    ensures
        step(st, index, raw, false) == step(st, index, raw, true),
{
}

proof fn lemma_strict_fold_agrees(lines: Seq<Seq<char>>)
    requires
        fold_lines(lines, true) is Ok,
    ensures
        fold_lines(lines, false) == fold_lines(lines, true),
    decreases lines.len(),
{
    if lines.len() > 0 {
        lemma_strict_fold_agrees(lines.drop_last());
        let st = fold_lines(lines.drop_last(), true)->Ok_0;
        lemma_strict_step_agrees(st, lines.len() - 1, lines.last());
    }
}

/// The strict parser only adds refusals: text that it accepts reads the
/// same in tolerant mode.
pub proof fn lemma_strict_agrees_with_tolerant(text: Seq<char>)
    requires
        parse_settings(text, true) is Ok,
    ensures
        parse_settings(text, false) == parse_settings(text, true),
{
    lemma_strict_fold_agrees(text_lines(text));
}

/// A single boolean line read on its own: the defaults with that one
/// setting replaced (with `lemma_flag_names`, the field named by the key).
pub proof fn lemma_parse_single_flag(i: int, b: bool, strict: bool)
    requires
        0 <= i < 17,
    ensures
        parse_settings(kv(flag_key(i), bool_text(b)), strict) == Ok::<SettingsView, (int, SettingsErrorKind)>(
            with_flags(default_view(), flag_set(default_flags(), i, b)),
        ),
{
    let line = kv(flag_key(i), bool_text(b));
    let st0 = ParseState {
        view: default_view(),
        hotkey_key: None,
        hotkey_modifiers: None,
        hotkey_line: 1,
        pack_seen: false,
        legacy_seen: false,
    };
    lemma_flag_line(st0, 0, i, b, strict);
    assert(!line.contains('\n')) by {
        if line.contains('\n') {
            let j = choose|j: int| 0 <= j < line.len() && line[j] == '\n';
            assert(line[j] != '\n');
        }
    }
    crate::text::lemma_split_join(seq![line], '\n');
    assert(join(seq![line], '\n') == line);
    assert(line.len() > 0) by {
        assert(kv(flag_key(i), bool_text(b))[flag_key(i).len() as int] == '=');
    }
    assert(text_lines(line) =~= seq![line]);
    assert(seq![line].drop_last() =~= Seq::<Seq<char>>::empty());
    assert(fold_lines(Seq::<Seq<char>>::empty(), strict) == Ok::<ParseState, (int, SettingsErrorKind)>(st0));
    assert(seq![line].last() == line);
    assert(fold_lines(seq![line], strict) == step(st0, 0, line, strict));
}

/// Each boolean setting is read and replaced under its own name: the key
/// `k` stands for the field called `k`, and no other.
pub proof fn lemma_flag_names(f: FlagsView, v: bool)
    ensures
        flag_get(f, flag_index("automatic_conversion_on_startup"@)) == f.automatic_conversion_on_startup,
        flag_get(f, flag_index("pause_break_undo"@)) == f.pause_break_undo,
        flag_get(f, flag_index("offer_word_exclusion_after_undo"@)) == f.offer_word_exclusion_after_undo,
        flag_get(f, flag_index("offer_dictionary_after_forced_conversion"@)) == f.offer_dictionary_after_forced_conversion,
        flag_get(f, flag_index("recheck_first_word_after_erasing"@)) == f.recheck_first_word_after_erasing,
        flag_get(f, flag_index("physical_fallback_for_unsupported_apps"@)) == f.physical_fallback_for_unsupported_apps,
        flag_get(f, flag_index("single_letter_words"@)) == f.single_letter_words,
        flag_get(f, flag_index("manual_terminal_uia_fallback"@)) == f.manual_terminal_uia_fallback,
        flag_get(f, flag_index("diagnostics_enabled"@)) == f.diagnostics_enabled,
        flag_get(f, flag_index("suppress_after_backspace"@)) == f.suppress_after_backspace,
        flag_get(f, flag_index("suppress_after_delete"@)) == f.suppress_after_delete,
        flag_get(f, flag_index("suppress_after_left"@)) == f.suppress_after_left,
        flag_get(f, flag_index("suppress_after_right"@)) == f.suppress_after_right,
        flag_get(f, flag_index("suppress_after_up"@)) == f.suppress_after_up,
        flag_get(f, flag_index("suppress_after_down"@)) == f.suppress_after_down,
        flag_get(f, flag_index("suppress_after_home_end"@)) == f.suppress_after_home_end,
        flag_get(f, flag_index("suppress_after_manual_layout_change"@)) == f.suppress_after_manual_layout_change,
        flag_set(f, flag_index("automatic_conversion_on_startup"@), v) == (FlagsView { automatic_conversion_on_startup: v, ..f }),
        flag_set(f, flag_index("pause_break_undo"@), v) == (FlagsView { pause_break_undo: v, ..f }),
        flag_set(f, flag_index("offer_word_exclusion_after_undo"@), v) == (FlagsView { offer_word_exclusion_after_undo: v, ..f }),
        flag_set(f, flag_index("offer_dictionary_after_forced_conversion"@), v) == (FlagsView { offer_dictionary_after_forced_conversion: v, ..f }),
        flag_set(f, flag_index("recheck_first_word_after_erasing"@), v) == (FlagsView { recheck_first_word_after_erasing: v, ..f }),
        flag_set(f, flag_index("physical_fallback_for_unsupported_apps"@), v) == (FlagsView { physical_fallback_for_unsupported_apps: v, ..f }),
        flag_set(f, flag_index("single_letter_words"@), v) == (FlagsView { single_letter_words: v, ..f }),
        flag_set(f, flag_index("manual_terminal_uia_fallback"@), v) == (FlagsView { manual_terminal_uia_fallback: v, ..f }),
        flag_set(f, flag_index("diagnostics_enabled"@), v) == (FlagsView { diagnostics_enabled: v, ..f }),
        flag_set(f, flag_index("suppress_after_backspace"@), v) == (FlagsView { suppress_after_backspace: v, ..f }),
        flag_set(f, flag_index("suppress_after_delete"@), v) == (FlagsView { suppress_after_delete: v, ..f }),
        flag_set(f, flag_index("suppress_after_left"@), v) == (FlagsView { suppress_after_left: v, ..f }),
        flag_set(f, flag_index("suppress_after_right"@), v) == (FlagsView { suppress_after_right: v, ..f }),
        flag_set(f, flag_index("suppress_after_up"@), v) == (FlagsView { suppress_after_up: v, ..f }),
        flag_set(f, flag_index("suppress_after_down"@), v) == (FlagsView { suppress_after_down: v, ..f }),
        flag_set(f, flag_index("suppress_after_home_end"@), v) == (FlagsView { suppress_after_home_end: v, ..f }),
        flag_set(f, flag_index("suppress_after_manual_layout_change"@), v) == (FlagsView { suppress_after_manual_layout_change: v, ..f }),
{
    reveal_strlit("automatic_conversion_on_startup");
    assert("automatic_conversion_on_startup"@ =~= flag_key(0));
    lemma_flag_key(0);
    reveal_strlit("pause_break_undo");
    assert("pause_break_undo"@ =~= flag_key(1));
    lemma_flag_key(1);
    reveal_strlit("offer_word_exclusion_after_undo");
    assert("offer_word_exclusion_after_undo"@ =~= flag_key(2));
    lemma_flag_key(2);
    reveal_strlit("offer_dictionary_after_forced_conversion");
    assert("offer_dictionary_after_forced_conversion"@ =~= flag_key(3));
    lemma_flag_key(3);
    reveal_strlit("recheck_first_word_after_erasing");
    assert("recheck_first_word_after_erasing"@ =~= flag_key(4));
    lemma_flag_key(4);
    reveal_strlit("physical_fallback_for_unsupported_apps");
    assert("physical_fallback_for_unsupported_apps"@ =~= flag_key(5));
    lemma_flag_key(5);
    reveal_strlit("single_letter_words");
    assert("single_letter_words"@ =~= flag_key(6));
    lemma_flag_key(6);
    reveal_strlit("manual_terminal_uia_fallback");
    assert("manual_terminal_uia_fallback"@ =~= flag_key(7));
    lemma_flag_key(7);
    reveal_strlit("diagnostics_enabled");
    assert("diagnostics_enabled"@ =~= flag_key(8));
    lemma_flag_key(8);
    reveal_strlit("suppress_after_backspace");
    assert("suppress_after_backspace"@ =~= flag_key(9));
    lemma_flag_key(9);
    reveal_strlit("suppress_after_delete");
    assert("suppress_after_delete"@ =~= flag_key(10));
    lemma_flag_key(10);
    reveal_strlit("suppress_after_left");
    assert("suppress_after_left"@ =~= flag_key(11));
    lemma_flag_key(11);
    reveal_strlit("suppress_after_right");
    assert("suppress_after_right"@ =~= flag_key(12));
    lemma_flag_key(12);
    reveal_strlit("suppress_after_up");
    assert("suppress_after_up"@ =~= flag_key(13));
    lemma_flag_key(13);
    reveal_strlit("suppress_after_down");
    assert("suppress_after_down"@ =~= flag_key(14));
    lemma_flag_key(14);
    reveal_strlit("suppress_after_home_end");
    assert("suppress_after_home_end"@ =~= flag_key(15));
    lemma_flag_key(15);
    reveal_strlit("suppress_after_manual_layout_change");
    assert("suppress_after_manual_layout_change"@ =~= flag_key(16));
    lemma_flag_key(16);
}

/// Reading the single line `k=false`, for any boolean setting `k`, gives
/// the default settings with exactly the field named `k` turned off.
/// The text writes each boolean setting under its own name.
#[verifier::rlimit(100)]
#[verifier::spinoff_prover]
pub proof fn lemma_written_flag_names(v: SettingsView)
    ensures
        settings_lines(v)[1] == kv("automatic_conversion_on_startup"@, bool_text(v.flags.automatic_conversion_on_startup)),
        settings_lines(v)[2] == kv("pause_break_undo"@, bool_text(v.flags.pause_break_undo)),
        settings_lines(v)[3] == kv("offer_word_exclusion_after_undo"@, bool_text(v.flags.offer_word_exclusion_after_undo)),
        settings_lines(v)[4] == kv("offer_dictionary_after_forced_conversion"@, bool_text(v.flags.offer_dictionary_after_forced_conversion)),
        settings_lines(v)[7] == kv("recheck_first_word_after_erasing"@, bool_text(v.flags.recheck_first_word_after_erasing)),
        settings_lines(v)[8] == kv("physical_fallback_for_unsupported_apps"@, bool_text(v.flags.physical_fallback_for_unsupported_apps)),
        settings_lines(v)[9] == kv("single_letter_words"@, bool_text(v.flags.single_letter_words)),
        settings_lines(v)[10] == kv("manual_terminal_uia_fallback"@, bool_text(v.flags.manual_terminal_uia_fallback)),
        settings_lines(v)[11] == kv("diagnostics_enabled"@, bool_text(v.flags.diagnostics_enabled)),
        settings_lines(v)[12] == kv("suppress_after_backspace"@, bool_text(v.flags.suppress_after_backspace)),
        settings_lines(v)[13] == kv("suppress_after_delete"@, bool_text(v.flags.suppress_after_delete)),
        settings_lines(v)[14] == kv("suppress_after_left"@, bool_text(v.flags.suppress_after_left)),
        settings_lines(v)[15] == kv("suppress_after_right"@, bool_text(v.flags.suppress_after_right)),
        settings_lines(v)[16] == kv("suppress_after_up"@, bool_text(v.flags.suppress_after_up)),
        settings_lines(v)[17] == kv("suppress_after_down"@, bool_text(v.flags.suppress_after_down)),
        settings_lines(v)[18] == kv("suppress_after_home_end"@, bool_text(v.flags.suppress_after_home_end)),
        settings_lines(v)[19] == kv("suppress_after_manual_layout_change"@, bool_text(v.flags.suppress_after_manual_layout_change)),
{
    let ls = settings_lines(v);
    assert(ls[1] == kv("automatic_conversion_on_startup"@, bool_text(v.flags.automatic_conversion_on_startup))) by {
        reveal_strlit("automatic_conversion_on_startup");
        assert("automatic_conversion_on_startup"@ =~= flag_key(0));
    }
    assert(ls[2] == kv("pause_break_undo"@, bool_text(v.flags.pause_break_undo))) by {
        reveal_strlit("pause_break_undo");
        assert("pause_break_undo"@ =~= flag_key(1));
    }
    assert(ls[3] == kv("offer_word_exclusion_after_undo"@, bool_text(v.flags.offer_word_exclusion_after_undo))) by {
        reveal_strlit("offer_word_exclusion_after_undo");
        assert("offer_word_exclusion_after_undo"@ =~= flag_key(2));
    }
    assert(ls[4] == kv("offer_dictionary_after_forced_conversion"@, bool_text(v.flags.offer_dictionary_after_forced_conversion))) by {
        reveal_strlit("offer_dictionary_after_forced_conversion");
        assert("offer_dictionary_after_forced_conversion"@ =~= flag_key(3));
    }
    assert(ls[7] == kv("recheck_first_word_after_erasing"@, bool_text(v.flags.recheck_first_word_after_erasing))) by {
        reveal_strlit("recheck_first_word_after_erasing");
        assert("recheck_first_word_after_erasing"@ =~= flag_key(4));
    }
    assert(ls[8] == kv("physical_fallback_for_unsupported_apps"@, bool_text(v.flags.physical_fallback_for_unsupported_apps))) by {
        reveal_strlit("physical_fallback_for_unsupported_apps");
        assert("physical_fallback_for_unsupported_apps"@ =~= flag_key(5));
    }
    assert(ls[9] == kv("single_letter_words"@, bool_text(v.flags.single_letter_words))) by {
        reveal_strlit("single_letter_words");
        assert("single_letter_words"@ =~= flag_key(6));
    }
    assert(ls[10] == kv("manual_terminal_uia_fallback"@, bool_text(v.flags.manual_terminal_uia_fallback))) by {
        reveal_strlit("manual_terminal_uia_fallback");
        assert("manual_terminal_uia_fallback"@ =~= flag_key(7));
    }
    assert(ls[11] == kv("diagnostics_enabled"@, bool_text(v.flags.diagnostics_enabled))) by {
        reveal_strlit("diagnostics_enabled");
        assert("diagnostics_enabled"@ =~= flag_key(8));
    }
    assert(ls[12] == kv("suppress_after_backspace"@, bool_text(v.flags.suppress_after_backspace))) by {
        reveal_strlit("suppress_after_backspace");
        assert("suppress_after_backspace"@ =~= flag_key(9));
    }
    assert(ls[13] == kv("suppress_after_delete"@, bool_text(v.flags.suppress_after_delete))) by {
        reveal_strlit("suppress_after_delete");
        assert("suppress_after_delete"@ =~= flag_key(10));
    }
    assert(ls[14] == kv("suppress_after_left"@, bool_text(v.flags.suppress_after_left))) by {
        reveal_strlit("suppress_after_left");
        assert("suppress_after_left"@ =~= flag_key(11));
    }
    assert(ls[15] == kv("suppress_after_right"@, bool_text(v.flags.suppress_after_right))) by {
        reveal_strlit("suppress_after_right");
        assert("suppress_after_right"@ =~= flag_key(12));
    }
    assert(ls[16] == kv("suppress_after_up"@, bool_text(v.flags.suppress_after_up))) by {
        reveal_strlit("suppress_after_up");
        assert("suppress_after_up"@ =~= flag_key(13));
    }
    assert(ls[17] == kv("suppress_after_down"@, bool_text(v.flags.suppress_after_down))) by {
        reveal_strlit("suppress_after_down");
        assert("suppress_after_down"@ =~= flag_key(14));
    }
    assert(ls[18] == kv("suppress_after_home_end"@, bool_text(v.flags.suppress_after_home_end))) by {
        reveal_strlit("suppress_after_home_end");
        assert("suppress_after_home_end"@ =~= flag_key(15));
    }
    assert(ls[19] == kv("suppress_after_manual_layout_change"@, bool_text(v.flags.suppress_after_manual_layout_change))) by {
        reveal_strlit("suppress_after_manual_layout_change");
        assert("suppress_after_manual_layout_change"@ =~= flag_key(16));
    }
}

} // verus!
