//! Synthetic keyboard input of a correction: the plan of a physical replay
//! (erase the typed word, retype it key by key under the target layout),
//! the replay of edges held by the correction gate, and the dispatch of a
//! plan either as one batch or step by step. The platform adapter turns each
//! `KeyInput` into a system input record and sends it.

use vstd::prelude::*;

use crate::agent::{
    RawKeyEvent, CORRECTION_GATE_CAPACITY, DRAINED_EVENT_MARKER, INJECTED_EVENT_MARKER, VK_BACK, VK_LCONTROL, VK_LSHIFT,
    VK_SPACE, WM_KEYDOWN, WM_KEYUP, WM_SYSKEYDOWN, WM_SYSKEYUP,
};

verus! {

/// The key is identified by its scan code, not its virtual key.
pub const KEYEVENTF_SCANCODE: u32 = 0x0008;

/// The scan code has the extended (0xE0) prefix.
pub const KEYEVENTF_EXTENDEDKEY: u32 = 0x0001;

/// A key release.
pub const KEYEVENTF_KEYUP: u32 = 0x0002;

/// The key whose edges fence a gate drain.
pub const VK_F24: u16 = 0x87;

/// Longest word a physical replay erases or retypes.
pub const MAX_REPLAY_KEYS: usize = 128;

/// One synthetic keyboard input.
#[derive(Debug, Clone, Copy, PartialEq, Eq, Structural)]
pub struct KeyInput {
    pub virtual_key: u16,
    pub scan_code: u16,
    pub flags: u32,
    pub marker: u64,
}

/// A physical key to retype, read from a buffered key edge.
#[derive(Debug, Clone, Copy, PartialEq, Eq, Structural)]
pub struct ReplayKey {
    pub scan_code: u16,
    pub shift: bool,
    pub caps_lock: bool,
    pub extended: bool,
}

pub open spec fn input(virtual_key: u16, scan_code: u16, flags: u32) -> KeyInput {
    KeyInput { virtual_key, scan_code, flags, marker: INJECTED_EVENT_MARKER }
}

/// An input that this process marks as its own injection.
pub fn key_input(virtual_key: u16, scan_code: u16, flags: u32) -> (r: KeyInput)
    ensures
        r == input(virtual_key, scan_code, flags),
{
    KeyInput { virtual_key, scan_code, flags, marker: INJECTED_EVENT_MARKER }
}

/// The key of a buffered edge with the shift state at that time; an edge
/// without a 16-bit, non-zero scan code cannot be replayed.
pub fn replay_key_from_event(event: RawKeyEvent, shift: bool) -> (r: Option<ReplayKey>)
    ensures
        r == (if event.scan_code == 0 || event.scan_code > 0xffff {
            None
        } else {
            Some(
                ReplayKey {
                    scan_code: event.scan_code as u16,
                    shift,
                    caps_lock: event.caps_lock,
                    extended: event.extended,
                },
            )
        }),
{
    if event.scan_code == 0 || event.scan_code > 0xffff {
        return None;
    }
    Some(
        ReplayKey {
            scan_code: event.scan_code as u16,
            shift,
            caps_lock: event.caps_lock,
            extended: event.extended,
        },
    )
}

/// The scan-code flags of a key: with the extended prefix when it has one.
pub open spec fn scan_flags(extended: bool) -> u32 {
    if extended {
        KEYEVENTF_SCANCODE | KEYEVENTF_EXTENDEDKEY
    } else {
        KEYEVENTF_SCANCODE
    }
}

/// One Backspace press and release.
pub open spec fn erase_step() -> Seq<KeyInput> {
    seq![input(VK_BACK, 0, 0), input(VK_BACK, 0, KEYEVENTF_KEYUP)]
}

/// Retyping one key: press and release by scan code, inside a left Shift
/// press when the key was shifted.
pub open spec fn key_step(key: ReplayKey) -> Seq<KeyInput> {
    let press = seq![
        input(0, key.scan_code, scan_flags(key.extended)),
        input(0, key.scan_code, scan_flags(key.extended) | KEYEVENTF_KEYUP),
    ];
    if key.shift {
        seq![input(VK_LSHIFT, 0, 0)] + press + seq![input(VK_LSHIFT, 0, KEYEVENTF_KEYUP)]
    } else {
        press
    }
}

/// The Space that ends the retyped word.
pub open spec fn space_step() -> Seq<KeyInput> {
    seq![input(VK_SPACE, 0, 0), input(VK_SPACE, 0, KEYEVENTF_KEYUP)]
}

/// The logical steps of a replay: the erasures, one step per key, then the
/// delimiter when there is one.
pub open spec fn replay_steps(erase: nat, keys: Seq<ReplayKey>, delimiter: bool) -> Seq<Seq<KeyInput>> {
    Seq::new(erase, |i: int| erase_step()) + keys.map_values(|k: ReplayKey| key_step(k)) + (if delimiter {
        seq![space_step()]
    } else {
        Seq::<Seq<KeyInput>>::empty()
    })
}

/// All inputs of the steps, in order.
pub open spec fn flatten(steps: Seq<Seq<KeyInput>>) -> Seq<KeyInput>
    decreases steps.len(),
{
    if steps.len() == 0 {
        Seq::<KeyInput>::empty()
    } else {
        flatten(steps.drop_last()) + steps.last()
    }
}

/// Where each step ends in the flattened inputs.
pub open spec fn step_ends(steps: Seq<Seq<KeyInput>>) -> Seq<int>
    decreases steps.len(),
{
    if steps.len() == 0 {
        Seq::<int>::empty()
    } else {
        step_ends(steps.drop_last()).push(flatten(steps).len() as int)
    }
}

/// A replay: the inputs and the end of each logical step in them.
#[derive(Debug, Clone, PartialEq, Eq)]
pub struct PhysicalReplayPlan {
    pub inputs: Vec<KeyInput>,
    pub step_ends: Vec<usize>,
}

pub open spec fn usize_ints(v: Seq<usize>) -> Seq<int> {
    v.map_values(|x: usize| x as int)
}

/// The plan that lays `steps` out one after another.
pub open spec fn plan_of(plan: PhysicalReplayPlan, steps: Seq<Seq<KeyInput>>) -> bool {
    plan.inputs@ == flatten(steps) && usize_ints(plan.step_ends@) == step_ends(steps)
}

proof fn lemma_step_len(key: ReplayKey)
    ensures
        2 <= key_step(key).len() <= 4,
{
}

fn push_step(plan: &mut PhysicalReplayPlan, step: &[KeyInput], Ghost(steps): Ghost<Seq<Seq<KeyInput>>>)
    requires
        plan_of(*old(plan), steps),
        old(plan).inputs@.len() + step@.len() <= usize::MAX,
    ensures
        plan_of(*final(plan), steps.push(step@)),
        final(plan).inputs@.len() == old(plan).inputs@.len() + step@.len(),
{
    let ghost before = plan.inputs@;
    let mut i: usize = 0;
    while i < step.len()
        invariant
            i <= step@.len(),
            plan.inputs@ == before + step@.take(i as int),
            before.len() + step@.len() <= usize::MAX,
            usize_ints(plan.step_ends@) == step_ends(steps),
        decreases step.len() - i,
    {
        plan.inputs.push(step[i]);
        assert(step@.take(i + 1) =~= step@.take(i as int).push(step@[i as int]));
        i = i + 1;
    }
    assert(step@.take(step@.len() as int) =~= step@);
    let end = plan.inputs.len();
    plan.step_ends.push(end);
    proof {
        let s2 = steps.push(step@);
        assert(s2.drop_last() =~= steps);
        assert(flatten(s2) == flatten(steps) + step@);
        assert(usize_ints(plan.step_ends@) =~= step_ends(steps).push(end as int));
    }
}

fn erase_step_exec() -> (r: Vec<KeyInput>)
    ensures
        r@ == erase_step(),
{
    let r = vec![key_input(VK_BACK, 0, 0), key_input(VK_BACK, 0, KEYEVENTF_KEYUP)];
    assert(r@ =~= erase_step());
    r
}

fn key_step_exec(key: ReplayKey) -> (r: Vec<KeyInput>)
    ensures
        r@ == key_step(key),
{
    let flags: u32 = if key.extended {
        KEYEVENTF_SCANCODE | KEYEVENTF_EXTENDEDKEY
    } else {
        KEYEVENTF_SCANCODE
    };
    let down = key_input(0, key.scan_code, flags);
    let up = key_input(0, key.scan_code, flags | KEYEVENTF_KEYUP);
    if key.shift {
        let r = vec![key_input(VK_LSHIFT, 0, 0), down, up, key_input(VK_LSHIFT, 0, KEYEVENTF_KEYUP)];
        assert(r@ =~= key_step(key));
        r
    } else {
        let r = vec![down, up];
        assert(r@ =~= key_step(key));
        r
    }
}

fn space_step_exec() -> (r: Vec<KeyInput>)
    ensures
        r@ == space_step(),
{
    let r = vec![key_input(VK_SPACE, 0, 0), key_input(VK_SPACE, 0, KEYEVENTF_KEYUP)];
    assert(r@ =~= space_step());
    r
}

/// The replay that erases `erase_characters` characters, retypes `replay_keys`
/// and, with a Space delimiter, presses Space. Refused when a count exceeds
/// `MAX_REPLAY_KEYS`, when there is no key, or for another delimiter.
pub fn build_physical_replay_plan(erase_characters: usize, replay_keys: &[ReplayKey], delimiter: Option<char>) -> (r:
    Option<PhysicalReplayPlan>)
    ensures
        r is None <==> (erase_characters > MAX_REPLAY_KEYS || replay_keys@.len() == 0 || replay_keys@.len()
            > MAX_REPLAY_KEYS || (delimiter is Some && delimiter != Some(' '))),
        r matches Some(plan) ==> plan_of(plan, replay_steps(erase_characters as nat, replay_keys@, delimiter is Some)),
{
    if erase_characters > MAX_REPLAY_KEYS || replay_keys.len() == 0 || replay_keys.len() > MAX_REPLAY_KEYS {
        return None;
    }
    let with_space = match delimiter {
        Some(c) => {
            if c != ' ' {
                return None;
            }
            true
        },
        None => false,
    };
    let ghost all = replay_steps(erase_characters as nat, replay_keys@, with_space);
    let ghost erases = Seq::new(erase_characters as nat, |i: int| erase_step());
    let ghost keyed = replay_keys@.map_values(|k: ReplayKey| key_step(k));
    let mut plan = PhysicalReplayPlan { inputs: Vec::new(), step_ends: Vec::new() };
    assert(usize_ints(plan.step_ends@) =~= step_ends(Seq::<Seq<KeyInput>>::empty()));
    assert(erases.take(0) =~= Seq::<Seq<KeyInput>>::empty());
    let mut i: usize = 0;
    while i < erase_characters
        invariant
            i <= erase_characters <= MAX_REPLAY_KEYS,
            erases == Seq::new(erase_characters as nat, |i: int| erase_step()),
            plan_of(plan, erases.take(i as int)),
            plan.inputs@.len() == 2 * i,
        decreases erase_characters - i,
    {
        let step = erase_step_exec();
        push_step(&mut plan, &step, Ghost(erases.take(i as int)));
        assert(erases.take(i + 1) =~= erases.take(i as int).push(step@));
        i = i + 1;
    }
    assert(erases.take(erase_characters as int) =~= erases);
    let mut j: usize = 0;
    assert(erases + keyed.take(0) =~= erases);
    while j < replay_keys.len()
        invariant
            j <= replay_keys@.len() <= MAX_REPLAY_KEYS,
            erase_characters <= MAX_REPLAY_KEYS,
            keyed == replay_keys@.map_values(|k: ReplayKey| key_step(k)),
            erases.len() == erase_characters,
            plan_of(plan, erases + keyed.take(j as int)),
            plan.inputs@.len() <= 2 * erase_characters + 4 * j,
        decreases replay_keys.len() - j,
    {
        let step = key_step_exec(replay_keys[j]);
        proof {
            lemma_step_len(replay_keys@[j as int]);
        }
        push_step(&mut plan, &step, Ghost(erases + keyed.take(j as int)));
        assert(erases + keyed.take(j + 1) =~= (erases + keyed.take(j as int)).push(step@));
        j = j + 1;
    }
    assert(keyed.take(replay_keys@.len() as int) =~= keyed);
    if with_space {
        let step = space_step_exec();
        push_step(&mut plan, &step, Ghost(erases + keyed));
        assert((erases + keyed).push(space_step()) =~= all);
    } else {
        assert(erases + keyed =~= all);
    }
    Some(plan)
}

proof fn lemma_step_ends_increase(steps: Seq<Seq<KeyInput>>)
    requires
        forall|i: int| 0 <= i < steps.len() ==> (#[trigger] steps[i]).len() > 0,
    ensures
        step_ends(steps).len() == steps.len(),
        steps.len() > 0 ==> step_ends(steps).last() == flatten(steps).len(),
        forall|i: int, j: int|
            0 <= i < j < steps.len() ==> 0 < #[trigger] step_ends(steps)[i] < #[trigger] step_ends(steps)[j] <= flatten(
                steps,
            ).len(),
        forall|i: int| 0 <= i < steps.len() ==> 0 < #[trigger] step_ends(steps)[i] <= flatten(steps).len(),
    decreases steps.len(),
{
    if steps.len() > 0 {
        let init = steps.drop_last();
        assert forall|i: int| 0 <= i < init.len() implies (#[trigger] init[i]).len() > 0 by {
            assert(init[i] == steps[i]);
        }
        lemma_step_ends_increase(init);
        assert(steps.last().len() > 0);
    }
}

/// Every plan that `build_physical_replay_plan` makes can be sent step by
/// step: each step ends after the previous one and the last ends with the
/// inputs.
pub proof fn lemma_replay_plan_steps_are_well_formed(erase: nat, keys: Seq<ReplayKey>, delimiter: bool)
    ensures
        ({
            let steps = replay_steps(erase, keys, delimiter);
            let ends = step_ends(steps);
            &&& ends.len() == steps.len()
            &&& steps.len() > 0 ==> ends.last() == flatten(steps).len()
            &&& forall|i: int, j: int| 0 <= i < j < ends.len() ==> 0 < #[trigger] ends[i] < #[trigger] ends[j]
            &&& forall|i: int| 0 <= i < ends.len() ==> #[trigger] ends[i] <= flatten(steps).len()
        }),
{
    let steps = replay_steps(erase, keys, delimiter);
    assert forall|i: int| 0 <= i < steps.len() implies (#[trigger] steps[i]).len() > 0 by {
        if i >= erase && i < erase + keys.len() {
            lemma_step_len(keys[i - erase]);
        }
    }
    lemma_step_ends_increase(steps);
}

/// The held edges as inputs with `marker`, in order: a key up or down edge
/// by scan code when it has one, else by virtual key. Refused when an edge
/// is no key edge or its codes do not fit 16 bits.
pub open spec fn raw_inputs(held: Seq<RawKeyEvent>, marker: u64) -> Option<Seq<KeyInput>>
    decreases held.len(),
{
    if held.len() == 0 {
        Some(Seq::<KeyInput>::empty())
    } else {
        match (raw_inputs(held.drop_last(), marker), raw_input(held.last(), marker)) {
            (Some(init), Some(last)) => Some(init.push(last)),
            _ => None,
        }
    }
}

pub open spec fn is_up(message: u32) -> bool {
    message == WM_KEYUP || message == WM_SYSKEYUP
}

pub open spec fn is_down(message: u32) -> bool {
    message == WM_KEYDOWN || message == WM_SYSKEYDOWN
}

/// One held edge as an input.
pub open spec fn raw_input(event: RawKeyEvent, marker: u64) -> Option<KeyInput> {
    let base: u32 = if event.scan_code == 0 {
        0
    } else {
        KEYEVENTF_SCANCODE
    };
    let extended: u32 = if event.extended {
        base | KEYEVENTF_EXTENDEDKEY
    } else {
        base
    };
    if !is_up(event.message) && !is_down(event.message) {
        None
    } else if event.scan_code > 0xffff || (event.scan_code == 0 && event.virtual_key > 0xffff) {
        None
    } else {
        Some(
            KeyInput {
                virtual_key: if event.scan_code == 0 {
                    event.virtual_key as u16
                } else {
                    0
                },
                scan_code: event.scan_code as u16,
                flags: if is_up(event.message) {
                    extended | KEYEVENTF_KEYUP
                } else {
                    extended
                },
                marker,
            },
        )
    }
}

fn raw_input_exec(event: RawKeyEvent, marker: u64) -> (r: Option<KeyInput>)
    ensures
        r == raw_input(event, marker),
{
    let mut flags: u32 = if event.scan_code == 0 {
        0
    } else {
        KEYEVENTF_SCANCODE
    };
    if event.extended {
        flags = flags | KEYEVENTF_EXTENDEDKEY;
    }
    let up = event.message == WM_KEYUP || event.message == WM_SYSKEYUP;
    let down = event.message == WM_KEYDOWN || event.message == WM_SYSKEYDOWN;
    if up {
        flags = flags | KEYEVENTF_KEYUP;
    } else if !down {
        return None;
    }
    if event.scan_code > 0xffff || (event.scan_code == 0 && event.virtual_key > 0xffff) {
        return None;
    }
    let virtual_key: u16 = if event.scan_code == 0 {
        event.virtual_key as u16
    } else {
        0
    };
    Some(KeyInput { virtual_key, scan_code: event.scan_code as u16, flags, marker })
}

/// The held edges replayed as inputs marked with `marker`.
pub fn build_raw_replay_inputs(held: &[RawKeyEvent], marker: u64) -> (r: Option<Vec<KeyInput>>)
    ensures
        match r {
            Some(v) => raw_inputs(held@, marker) == Some(v@),
            None => raw_inputs(held@, marker) is None,
        },
{
    let mut out: Vec<KeyInput> = Vec::new();
    let mut i: usize = 0;
    assert(held@.take(0) =~= Seq::<RawKeyEvent>::empty());
    while i < held.len()
        invariant
            i <= held@.len(),
            raw_inputs(held@.take(i as int), marker) == Some(out@),
        decreases held.len() - i,
    {
        assert(held@.take(i + 1).drop_last() =~= held@.take(i as int));
        match raw_input_exec(held[i], marker) {
            Some(k) => out.push(k),
            None => {
                proof {
                    lemma_raw_inputs_none(held@, i as int + 1, marker);
                }
                return None;
            },
        }
        i = i + 1;
    }
    assert(held@.take(held@.len() as int) =~= held@);
    Some(out)
}

proof fn lemma_raw_inputs_none(held: Seq<RawKeyEvent>, j: int, marker: u64)
    requires
        0 <= j <= held.len(),
        raw_inputs(held.take(j), marker) is None,
    ensures
        raw_inputs(held, marker) is None,
    decreases held.len() - j,
{
    if j < held.len() {
        assert(held.take(j + 1).drop_last() =~= held.take(j));
        lemma_raw_inputs_none(held, j + 1, marker);
    } else {
        assert(held.take(j) =~= held);
    }
}

/// The fence that ends a gate drain: F24 pressed and released with the
/// gate's marker.
pub open spec fn fence_inputs(fence_marker: u64) -> Seq<KeyInput> {
    seq![
        KeyInput { virtual_key: VK_F24, scan_code: 0, flags: 0, marker: fence_marker },
        KeyInput { virtual_key: VK_F24, scan_code: 0, flags: KEYEVENTF_KEYUP, marker: fence_marker },
    ]
}

/// The drain of the correction gate: the held edges marked as drained, then
/// the fence. Refused beyond the correction gate's capacity or without a fence marker.
pub fn build_held_replay_inputs(held: &[RawKeyEvent], fence_marker: u64) -> (r: Option<Vec<KeyInput>>)
    ensures
        match r {
            Some(v) => held@.len() <= CORRECTION_GATE_CAPACITY && fence_marker != 0 && (raw_inputs(
                held@,
                DRAINED_EVENT_MARKER,
            ) matches Some(replayed) && v@ == replayed + fence_inputs(fence_marker)),
            None => held@.len() > CORRECTION_GATE_CAPACITY || fence_marker == 0 || raw_inputs(
                held@,
                DRAINED_EVENT_MARKER,
            ) is None,
        },
{
    if held.len() > CORRECTION_GATE_CAPACITY || fence_marker == 0 {
        return None;
    }
    let mut inputs = match build_raw_replay_inputs(held, DRAINED_EVENT_MARKER) {
        Some(v) => v,
        None => return None,
    };
    let ghost replayed = inputs@;
    inputs.push(KeyInput { virtual_key: VK_F24, scan_code: 0, flags: 0, marker: fence_marker });
    inputs.push(KeyInput { virtual_key: VK_F24, scan_code: 0, flags: KEYEVENTF_KEYUP, marker: fence_marker });
    assert(inputs@ =~= replayed + fence_inputs(fence_marker));
    Some(inputs)
}

/// The identity of a physical key for balancing edges.
pub open spec fn edge_key(event: RawKeyEvent) -> (u32, u32, bool) {
    (event.virtual_key, event.scan_code, event.extended)
}

/// The keys left pressed after `held`, one per key, each as its latest
/// press, ordered by key.
pub open spec fn pressed_keys(held: Seq<RawKeyEvent>) -> Seq<RawKeyEvent>
    decreases held.len(),
{
    if held.len() == 0 {
        Seq::<RawKeyEvent>::empty()
    } else {
        let rest = pressed_keys(held.drop_last());
        let e = held.last();
        let without = rest.filter(|x: RawKeyEvent| edge_key(x) != edge_key(e));
        if is_down(e.message) {
            insert_by_key(without, e)
        } else {
            without
        }
    }
}

/// Whether key `a` sorts before key `b`.
pub open spec fn key_less(a: (u32, u32, bool), b: (u32, u32, bool)) -> bool {
    a.0 < b.0 || (a.0 == b.0 && (a.1 < b.1 || (a.1 == b.1 && !a.2 && b.2)))
}

/// `e` inserted into `s` before the first entry whose key sorts after it.
pub open spec fn insert_by_key(s: Seq<RawKeyEvent>, e: RawKeyEvent) -> Seq<RawKeyEvent>
    decreases s.len(),
{
    if s.len() == 0 {
        seq![e]
    } else if key_less(edge_key(e), edge_key(s[0])) {
        seq![e] + s
    } else {
        seq![s[0]] + insert_by_key(s.drop_first(), e)
    }
}

/// The release of a pressed key's edge.
pub open spec fn released(event: RawKeyEvent) -> RawKeyEvent {
    RawKeyEvent { message: WM_KEYUP, ..event }
}

fn edge_key_less(a: RawKeyEvent, b: RawKeyEvent) -> (r: bool)
    ensures
        r == key_less(edge_key(a), edge_key(b)),
{
    a.virtual_key < b.virtual_key || (a.virtual_key == b.virtual_key && (a.scan_code < b.scan_code || (
    a.scan_code == b.scan_code && !a.extended && b.extended)))
}

fn same_edge_key(a: RawKeyEvent, b: RawKeyEvent) -> (r: bool)
    ensures
        r == (edge_key(a) == edge_key(b)),
{
    a.virtual_key == b.virtual_key && a.scan_code == b.scan_code && a.extended == b.extended
}

fn insert_by_key_exec(s: &Vec<RawKeyEvent>, e: RawKeyEvent) -> (r: Vec<RawKeyEvent>)
    ensures
        r@ == insert_by_key(s@, e),
{
    let mut p: usize = 0;
    assert(s@.take(0) + insert_by_key(s@.skip(0), e) =~= insert_by_key(s@, e)) by {
        assert(s@.skip(0) =~= s@);
    }
    while p < s.len() && !edge_key_less(e, s[p])
        invariant
            p <= s@.len(),
            insert_by_key(s@, e) == s@.take(p as int) + insert_by_key(s@.skip(p as int), e),
        decreases s.len() - p,
    {
        proof {
            let t = s@.skip(p as int);
            assert(t.drop_first() =~= s@.skip(p + 1));
            assert(s@.take(p + 1) =~= s@.take(p as int) + seq![t[0]]);
            assert(s@.take(p as int) + (seq![t[0]] + insert_by_key(t.drop_first(), e)) =~= s@.take(p + 1)
                + insert_by_key(s@.skip(p + 1), e));
        }
        p = p + 1;
    }
    let mut out: Vec<RawKeyEvent> = Vec::new();
    let mut i: usize = 0;
    while i < p
        invariant
            i <= p <= s@.len(),
            out@ == s@.take(i as int),
        decreases p - i,
    {
        out.push(s[i]);
        assert(s@.take(i + 1) =~= s@.take(i as int).push(s@[i as int]));
        i = i + 1;
    }
    out.push(e);
    let mut k: usize = p;
    proof {
        let t = s@.skip(p as int);
        if p < s@.len() {
            assert(key_less(edge_key(e), edge_key(t[0])));
        }
        assert(insert_by_key(t, e) =~= seq![e] + t);
    }
    while k < s.len()
        invariant
            p <= k <= s@.len(),
            out@ == s@.take(p as int) + seq![e] + s@.subrange(p as int, k as int),
        decreases s.len() - k,
    {
        out.push(s[k]);
        assert(s@.subrange(p as int, k + 1) =~= s@.subrange(p as int, k as int).push(s@[k as int]));
        k = k + 1;
    }
    assert(s@.subrange(p as int, s@.len() as int) =~= s@.skip(p as int));
    out
}

fn without_key(s: &Vec<RawKeyEvent>, e: RawKeyEvent) -> (r: Vec<RawKeyEvent>)
    ensures
        r@ == s@.filter(|x: RawKeyEvent| edge_key(x) != edge_key(e)),
{
    let ghost f = |x: RawKeyEvent| edge_key(x) != edge_key(e);
    let mut out: Vec<RawKeyEvent> = Vec::new();
    let mut i: usize = 0;
    assert(s@.take(0).filter(f) =~= Seq::<RawKeyEvent>::empty());
    while i < s.len()
        invariant
            i <= s@.len(),
            f == (|x: RawKeyEvent| edge_key(x) != edge_key(e)),
            out@ == s@.take(i as int).filter(f),
        decreases s.len() - i,
    {
        let ghost before = s@.take(i as int);
        assert(s@.take(i + 1).drop_last() =~= before);
        reveal_with_fuel(Seq::filter, 1);
        if !same_edge_key(s[i], e) {
            out.push(s[i]);
        }
        assert(out@ =~= s@.take(i + 1).filter(f));
        i = i + 1;
    }
    assert(s@.take(s@.len() as int) =~= s@);
    out
}

/// The keys still pressed at the end of `held`.
fn pressed_keys_exec(held: &[RawKeyEvent]) -> (r: Vec<RawKeyEvent>)
    ensures
        r@ == pressed_keys(held@),
{
    let mut down: Vec<RawKeyEvent> = Vec::new();
    let mut i: usize = 0;
    assert(held@.take(0) =~= Seq::<RawKeyEvent>::empty());
    while i < held.len()
        invariant
            i <= held@.len(),
            down@ == pressed_keys(held@.take(i as int)),
        decreases held.len() - i,
    {
        assert(held@.take(i + 1).drop_last() =~= held@.take(i as int));
        let e = held[i];
        let rest = without_key(&down, e);
        if e.message == WM_KEYDOWN || e.message == WM_SYSKEYDOWN {
            down = insert_by_key_exec(&rest, e);
        } else {
            down = rest;
        }
        i = i + 1;
    }
    assert(held@.take(held@.len() as int) =~= held@);
    down
}

/// What a recovery sends: the held edges as injected input, then a release
/// of each key that they leave pressed, ordered by key.
pub open spec fn recovery_inputs(held: Seq<RawKeyEvent>) -> Option<Seq<KeyInput>> {
    match (raw_inputs(held, INJECTED_EVENT_MARKER), raw_inputs(
        pressed_keys(held).map_values(|e: RawKeyEvent| released(e)),
        INJECTED_EVENT_MARKER,
    )) {
        (Some(a), Some(b)) => Some(a + b),
        _ => None,
    }
}

/// Restore held input after a cancelled gate, balancing every press that has
/// no later release, so that no modifier stays latched. Refused when nothing
/// is held or more than the correction gate can hold twice over, plus one.
pub fn build_recovery_inputs(held: &[RawKeyEvent]) -> (r: Option<Vec<KeyInput>>)
    ensures
        match r {
            Some(v) => 0 < held@.len() <= 2 * CORRECTION_GATE_CAPACITY + 1 && recovery_inputs(held@) == Some(v@),
            None => held@.len() == 0 || held@.len() > 2 * CORRECTION_GATE_CAPACITY + 1 || recovery_inputs(held@) is None,
        },
{
    if held.len() == 0 || held.len() > CORRECTION_GATE_CAPACITY * 2 + 1 {
        return None;
    }
    let mut inputs = match build_raw_replay_inputs(held, INJECTED_EVENT_MARKER) {
        Some(v) => v,
        None => return None,
    };
    let down = pressed_keys_exec(held);
    let mut releases: Vec<RawKeyEvent> = Vec::new();
    let mut i: usize = 0;
    while i < down.len()
        invariant
            i <= down@.len(),
            releases@ == down@.take(i as int).map_values(|e: RawKeyEvent| released(e)),
        decreases down.len() - i,
    {
        releases.push(RawKeyEvent { message: WM_KEYUP, ..down[i] });
        assert(down@.take(i + 1).map_values(|e: RawKeyEvent| released(e)) =~= down@.take(i as int).map_values(
            |e: RawKeyEvent| released(e),
        ).push(released(down@[i as int])));
        i = i + 1;
    }
    assert(down@.take(down@.len() as int) =~= down@);
    let balance = match build_raw_replay_inputs(&releases, INJECTED_EVENT_MARKER) {
        Some(v) => v,
        None => return None,
    };
    let ghost first = inputs@;
    let mut j: usize = 0;
    while j < balance.len()
        invariant
            j <= balance@.len(),
            inputs@ == first + balance@.take(j as int),
        decreases balance.len() - j,
    {
        inputs.push(balance[j]);
        assert(balance@.take(j + 1) =~= balance@.take(j as int).push(balance@[j as int]));
        j = j + 1;
    }
    assert(balance@.take(balance@.len() as int) =~= balance@);
    Some(inputs)
}


/// How a plan is sent: all at once, or one logical step at a time with a
/// pause between steps.
#[derive(Debug, Clone, Copy, PartialEq, Eq, Structural)]
pub enum PhysicalReplayMode {
    Batch,
    Paced,
}

/// The outcome of sending a plan. `Cancelled` means nothing was sent.
#[derive(Debug, Clone, Copy, PartialEq, Eq, Structural)]
pub enum ReplayAttempt {
    Applied,
    Cancelled,
    Failed,
}

#[derive(Debug, Clone, Copy, PartialEq, Eq, Structural)]
pub enum DispatchStage {
    Start,
    InitialGuard,
    StepGuard,
    Sending,
    Pacing,
    Done,
}

/// Where the dispatch of a plan stands: the current step and where it
/// starts in the inputs.
#[derive(Debug, Clone, Copy, PartialEq, Eq, Structural)]
pub struct ReplayDispatch {
    pub mode: PhysicalReplayMode,
    pub stage: DispatchStage,
    pub step: usize,
    pub start: usize,
}

/// What the adapter reports back.
#[derive(Debug, Clone, Copy, PartialEq, Eq, Structural)]
pub enum DispatchEvent {
    Started,
    GuardChecked(bool),
    Sent(bool),
    Paced,
}

/// What the adapter does next: check that the target is still the same,
/// send `inputs[start..end]`, pause, or stop with an outcome.
#[derive(Debug, Clone, Copy, PartialEq, Eq, Structural)]
pub enum DispatchAction {
    CheckGuard,
    Send(usize, usize),
    Pace,
    Finish(ReplayAttempt),
}

pub open spec fn done(state: ReplayDispatch, outcome: ReplayAttempt) -> (ReplayDispatch, DispatchAction) {
    (ReplayDispatch { stage: DispatchStage::Done, ..state }, DispatchAction::Finish(outcome))
}

/// Begin step `step` at `start`: fail on an end that does not advance or
/// lies past the inputs, else check the guard.
pub open spec fn enter_step(ends: Seq<usize>, len: nat, state: ReplayDispatch, step: usize, start: usize) -> (
    ReplayDispatch,
    DispatchAction,
) {
    let s = ReplayDispatch { step, start, ..state };
    if step >= ends.len() || ends[step as int] <= start || ends[step as int] > len {
        done(s, ReplayAttempt::Failed)
    } else {
        (ReplayDispatch { stage: DispatchStage::StepGuard, ..s }, DispatchAction::CheckGuard)
    }
}

/// One decision of the dispatch of a plan with `len` inputs and step ends
/// `ends`.
pub open spec fn dispatch_next(ends: Seq<usize>, len: nat, state: ReplayDispatch, event: DispatchEvent) -> (
    ReplayDispatch,
    DispatchAction,
) {
    match (state.stage, event) {
        (DispatchStage::Start, DispatchEvent::Started) => if len == 0 || ends.len() == 0 || ends.last() != len {
            done(state, ReplayAttempt::Failed)
        } else {
            (ReplayDispatch { stage: DispatchStage::InitialGuard, ..state }, DispatchAction::CheckGuard)
        },
        (DispatchStage::InitialGuard, DispatchEvent::GuardChecked(ok)) => if !ok {
            done(state, ReplayAttempt::Cancelled)
        } else if state.mode is Batch {
            (ReplayDispatch { stage: DispatchStage::Sending, ..state }, DispatchAction::Send(0, len as usize))
        } else {
            enter_step(ends, len, state, 0, 0)
        },
        (DispatchStage::StepGuard, DispatchEvent::GuardChecked(ok)) => if state.step >= ends.len() {
            done(state, ReplayAttempt::Failed)
        } else if !ok {
            done(state, if state.start == 0 {
                ReplayAttempt::Cancelled
            } else {
                ReplayAttempt::Failed
            })
        } else {
            (
                ReplayDispatch { stage: DispatchStage::Sending, ..state },
                DispatchAction::Send(state.start, ends[state.step as int]),
            )
        },
        (DispatchStage::Sending, DispatchEvent::Sent(ok)) => if !ok {
            done(state, ReplayAttempt::Failed)
        } else if state.mode is Batch {
            done(state, ReplayAttempt::Applied)
        } else if state.step >= ends.len() {
            done(state, ReplayAttempt::Failed)
        } else {
            let s = ReplayDispatch { start: ends[state.step as int], ..state };
            if state.step + 1 < ends.len() {
                (ReplayDispatch { stage: DispatchStage::Pacing, ..s }, DispatchAction::Pace)
            } else {
                done(s, ReplayAttempt::Applied)
            }
        },
        (DispatchStage::Pacing, DispatchEvent::Paced) => if state.step >= ends.len() {
            done(state, ReplayAttempt::Failed)
        } else {
            enter_step(ends, len, state, (state.step + 1) as usize, state.start)
        },
        _ => done(state, ReplayAttempt::Failed),
    }
}

impl ReplayDispatch {
    /// A dispatch that has not started.
    pub fn new(mode: PhysicalReplayMode) -> (r: ReplayDispatch)
        ensures
            r == (ReplayDispatch { mode, stage: DispatchStage::Start, step: 0, start: 0 }),
    {
        ReplayDispatch { mode, stage: DispatchStage::Start, step: 0, start: 0 }
    }
}

fn enter_step_exec(plan: &PhysicalReplayPlan, state: ReplayDispatch, step: usize, start: usize) -> (r: (
    ReplayDispatch,
    DispatchAction,
))
    ensures
        r == enter_step(plan.step_ends@, plan.inputs@.len(), state, step, start),
{
    let s = ReplayDispatch { step, start, ..state };
    if step >= plan.step_ends.len() || plan.step_ends[step] <= start || plan.step_ends[step] > plan.inputs.len() {
        (ReplayDispatch { stage: DispatchStage::Done, ..s }, DispatchAction::Finish(ReplayAttempt::Failed))
    } else {
        (ReplayDispatch { stage: DispatchStage::StepGuard, ..s }, DispatchAction::CheckGuard)
    }
}

/// The next decision in sending `plan`, given what the adapter reports.
/// Its first event is `Started`; it ends with a `Finish` action.
pub fn dispatch_next_step(plan: &PhysicalReplayPlan, state: ReplayDispatch, event: DispatchEvent) -> (r: (
    ReplayDispatch,
    DispatchAction,
))
    ensures
        r == dispatch_next(plan.step_ends@, plan.inputs@.len(), state, event),
{
    let failed = (ReplayDispatch { stage: DispatchStage::Done, ..state }, DispatchAction::Finish(ReplayAttempt::Failed));
    match (state.stage, event) {
        (DispatchStage::Start, DispatchEvent::Started) => {
            let n = plan.step_ends.len();
            if plan.inputs.len() == 0 || n == 0 || plan.step_ends[n - 1] != plan.inputs.len() {
                failed
            } else {
                (ReplayDispatch { stage: DispatchStage::InitialGuard, ..state }, DispatchAction::CheckGuard)
            }
        },
        (DispatchStage::InitialGuard, DispatchEvent::GuardChecked(ok)) => {
            if !ok {
                (ReplayDispatch { stage: DispatchStage::Done, ..state }, DispatchAction::Finish(ReplayAttempt::Cancelled))
            } else {
                match state.mode {
                    PhysicalReplayMode::Batch => (
                        ReplayDispatch { stage: DispatchStage::Sending, ..state },
                        DispatchAction::Send(0, plan.inputs.len()),
                    ),
                    PhysicalReplayMode::Paced => enter_step_exec(plan, state, 0, 0),
                }
            }
        },
        (DispatchStage::StepGuard, DispatchEvent::GuardChecked(ok)) => {
            if state.step >= plan.step_ends.len() {
                failed
            } else if !ok {
                let outcome = if state.start == 0 {
                    ReplayAttempt::Cancelled
                } else {
                    ReplayAttempt::Failed
                };
                (ReplayDispatch { stage: DispatchStage::Done, ..state }, DispatchAction::Finish(outcome))
            } else {
                (
                    ReplayDispatch { stage: DispatchStage::Sending, ..state },
                    DispatchAction::Send(state.start, plan.step_ends[state.step]),
                )
            }
        },
        (DispatchStage::Sending, DispatchEvent::Sent(ok)) => {
            if !ok {
                failed
            } else {
                match state.mode {
                    PhysicalReplayMode::Batch => (
                        ReplayDispatch { stage: DispatchStage::Done, ..state },
                        DispatchAction::Finish(ReplayAttempt::Applied),
                    ),
                    PhysicalReplayMode::Paced => {
                        if state.step < plan.step_ends.len() {
                            let s = ReplayDispatch { start: plan.step_ends[state.step], ..state };
                            if state.step + 1 < plan.step_ends.len() {
                                (ReplayDispatch { stage: DispatchStage::Pacing, ..s }, DispatchAction::Pace)
                            } else {
                                (
                                    ReplayDispatch { stage: DispatchStage::Done, ..s },
                                    DispatchAction::Finish(ReplayAttempt::Applied),
                                )
                            }
                        } else {
                            failed
                        }
                    },
                }
            }
        },
        (DispatchStage::Pacing, DispatchEvent::Paced) => {
            if state.step < plan.step_ends.len() {
                enter_step_exec(plan, state, state.step + 1, state.start)
            } else {
                failed
            }
        },
        _ => failed,
    }
}

/// Step ends that a dispatch can follow: at least one step, each ending
/// after the previous one, the last at the end of the inputs.
pub open spec fn ends_well_formed(ends: Seq<usize>, len: nat) -> bool {
    &&& ends.len() > 0
    &&& ends.last() == len
    &&& 0 < ends[0]
    &&& forall|i: int, j: int| 0 <= i < j < ends.len() ==> ends[i] < ends[j]
}

/// The reply of an adapter to which every guard check and send succeeds.
pub open spec fn all_succeed(action: DispatchAction) -> DispatchEvent {
    match action {
        DispatchAction::CheckGuard => DispatchEvent::GuardChecked(true),
        DispatchAction::Send(_, _) => DispatchEvent::Sent(true),
        DispatchAction::Pace => DispatchEvent::Paced,
        DispatchAction::Finish(_) => DispatchEvent::Started,
    }
}

/// The actions of a dispatch fed `event` in `state`, to which every later
/// guard check and send succeeds, up to `fuel` actions.
pub open spec fn dispatch_trace(ends: Seq<usize>, len: nat, state: ReplayDispatch, event: DispatchEvent, fuel: nat) -> Seq<
    DispatchAction,
>
    decreases fuel,
{
    if fuel == 0 {
        Seq::<DispatchAction>::empty()
    } else {
        let (next, action) = dispatch_next(ends, len, state, event);
        if action is Finish {
            seq![action]
        } else {
            seq![action] + dispatch_trace(ends, len, next, all_succeed(action), (fuel - 1) as nat)
        }
    }
}

/// Where step `k` starts.
pub open spec fn step_start(ends: Seq<usize>, k: int) -> usize {
    if k == 0 {
        0
    } else {
        ends[k - 1]
    }
}

/// What a paced dispatch does from the send of step `k` on when everything
/// succeeds: send the step, then pause and check again before the next.
pub open spec fn paced_tail(ends: Seq<usize>, k: int) -> Seq<DispatchAction>
    decreases ends.len() - k,
{
    if k < 0 || k >= ends.len() {
        Seq::<DispatchAction>::empty()
    } else {
        seq![DispatchAction::Send(step_start(ends, k), ends[k])] + if k + 1 < ends.len() {
            seq![DispatchAction::Pace, DispatchAction::CheckGuard] + paced_tail(ends, k + 1)
        } else {
            seq![DispatchAction::Finish(ReplayAttempt::Applied)]
        }
    }
}

proof fn lemma_paced_tail(ends: Seq<usize>, len: nat, state: ReplayDispatch, k: int, fuel: nat)
    requires
        ends_well_formed(ends, len),
        ends.len() <= usize::MAX,
        0 <= k < ends.len(),
        state.mode is Paced,
        state.stage is StepGuard,
        state.step == k,
        state.start == step_start(ends, k),
        fuel >= 3 * (ends.len() - k),
    ensures
        dispatch_trace(ends, len, state, DispatchEvent::GuardChecked(true), fuel) == paced_tail(ends, k),
    decreases ends.len() - k,
{
    let n = ends.len();
    let (s1, a1) = dispatch_next(ends, len, state, DispatchEvent::GuardChecked(true));
    assert(a1 == DispatchAction::Send(step_start(ends, k), ends[k]));
    assert(all_succeed(a1) == DispatchEvent::Sent(true));
    let (s2, a2) = dispatch_next(ends, len, s1, DispatchEvent::Sent(true));
    assert(dispatch_trace(ends, len, state, DispatchEvent::GuardChecked(true), fuel) == seq![a1] + dispatch_trace(
        ends,
        len,
        s1,
        DispatchEvent::Sent(true),
        (fuel - 1) as nat,
    ));
    if k + 1 < n {
        assert(a2 == DispatchAction::Pace);
        assert(s2.stage is Pacing && s2.step == k && s2.start == ends[k] && s2.mode is Paced);
        let (s3, a3) = dispatch_next(ends, len, s2, DispatchEvent::Paced);
        assert(ends[k] < ends[k + 1]);
        assert(ends[k + 1] <= len) by {
            if k + 1 < n - 1 {
                assert(ends[k + 1] < ends[n - 1]);
            }
        }
        assert((s2.step + 1) as usize == k + 1);
        assert(a3 == DispatchAction::CheckGuard);
        assert(s3.stage is StepGuard && s3.step == k + 1 && s3.start == step_start(ends, k + 1) && s3.mode is Paced);
        lemma_paced_tail(ends, len, s3, k + 1, (fuel - 3) as nat);
        assert(dispatch_trace(ends, len, s1, DispatchEvent::Sent(true), (fuel - 1) as nat) == seq![a2]
            + dispatch_trace(ends, len, s2, DispatchEvent::Paced, (fuel - 2) as nat));
        assert(dispatch_trace(ends, len, s2, DispatchEvent::Paced, (fuel - 2) as nat) == seq![a3] + dispatch_trace(
            ends,
            len,
            s3,
            DispatchEvent::GuardChecked(true),
            (fuel - 3) as nat,
        ));
        assert(dispatch_trace(ends, len, state, DispatchEvent::GuardChecked(true), fuel) =~= paced_tail(ends, k));
    } else {
        assert(a2 == DispatchAction::Finish(ReplayAttempt::Applied));
        assert(dispatch_trace(ends, len, s1, DispatchEvent::Sent(true), (fuel - 1) as nat) == seq![a2]);
        assert(dispatch_trace(ends, len, state, DispatchEvent::GuardChecked(true), fuel) =~= paced_tail(ends, k));
    }
}

/// When every guard check and send succeeds, a paced dispatch of a plan
/// with well-formed steps checks the guard, then sends each step exactly
/// once and in order, pausing and checking again between steps, and ends
/// applied; a batch dispatch sends all inputs at once.
pub proof fn lemma_successful_dispatch_sends_each_step_once(ends: Seq<usize>, len: nat)
    requires
        ends_well_formed(ends, len),
        ends.len() <= usize::MAX,
        len <= usize::MAX,
    ensures
        dispatch_trace(
            ends,
            len,
            ReplayDispatch { mode: PhysicalReplayMode::Paced, stage: DispatchStage::Start, step: 0, start: 0 },
            DispatchEvent::Started,
            3 * ends.len() + 2,
        ) == seq![DispatchAction::CheckGuard, DispatchAction::CheckGuard] + paced_tail(ends, 0),
        dispatch_trace(
            ends,
            len,
            ReplayDispatch { mode: PhysicalReplayMode::Batch, stage: DispatchStage::Start, step: 0, start: 0 },
            DispatchEvent::Started,
            3,
        ) == seq![DispatchAction::CheckGuard, DispatchAction::Send(0, len as usize), DispatchAction::Finish(ReplayAttempt::Applied)],
{
    let fuel = 3 * ends.len() + 2;
    let start = ReplayDispatch { mode: PhysicalReplayMode::Paced, stage: DispatchStage::Start, step: 0, start: 0 };
    let (s1, a1) = dispatch_next(ends, len, start, DispatchEvent::Started);
    assert(a1 == DispatchAction::CheckGuard);
    let (s2, a2) = dispatch_next(ends, len, s1, DispatchEvent::GuardChecked(true));
    assert(ends[0] <= len) by {
        if ends.len() > 1 {
            assert(ends[0] < ends[ends.len() - 1]);
        }
    }
    assert(a2 == DispatchAction::CheckGuard);
    lemma_paced_tail(ends, len, s2, 0, 3 * ends.len());
    assert(dispatch_trace(ends, len, start, DispatchEvent::Started, fuel as nat) == seq![a1] + dispatch_trace(
        ends,
        len,
        s1,
        DispatchEvent::GuardChecked(true),
        (fuel - 1) as nat,
    ));
    assert(dispatch_trace(ends, len, s1, DispatchEvent::GuardChecked(true), (fuel - 1) as nat) == seq![a2]
        + dispatch_trace(ends, len, s2, DispatchEvent::GuardChecked(true), (fuel - 2) as nat));
    assert(dispatch_trace(ends, len, start, DispatchEvent::Started, fuel as nat) =~= seq![
        DispatchAction::CheckGuard,
        DispatchAction::CheckGuard,
    ] + paced_tail(ends, 0));
    let batch = ReplayDispatch { mode: PhysicalReplayMode::Batch, stage: DispatchStage::Start, step: 0, start: 0 };
    let (b1, c1) = dispatch_next(ends, len, batch, DispatchEvent::Started);
    let (b2, c2) = dispatch_next(ends, len, b1, DispatchEvent::GuardChecked(true));
    let (b3, c3) = dispatch_next(ends, len, b2, DispatchEvent::Sent(true));
    assert(c1 == DispatchAction::CheckGuard);
    assert(c2 == DispatchAction::Send(0, len as usize));
    assert(c3 == DispatchAction::Finish(ReplayAttempt::Applied));
    assert(dispatch_trace(ends, len, b2, DispatchEvent::Sent(true), 1) == seq![c3]);
    assert(dispatch_trace(ends, len, b1, DispatchEvent::GuardChecked(true), 2) == seq![c2] + seq![c3]);
    assert(dispatch_trace(ends, len, batch, DispatchEvent::Started, 3) =~= seq![
        DispatchAction::CheckGuard,
        DispatchAction::Send(0, len as usize),
        DispatchAction::Finish(ReplayAttempt::Applied),
    ]);
}

/// Every plan that `build_physical_replay_plan` returns has step ends that a
/// dispatch follows to the end.
pub proof fn lemma_built_plans_are_dispatchable(plan: PhysicalReplayPlan, erase: nat, keys: Seq<ReplayKey>, delimiter: bool)
    requires
        keys.len() > 0,
        plan_of(plan, replay_steps(erase, keys, delimiter)),
    ensures
        ends_well_formed(plan.step_ends@, plan.inputs@.len()),
{
    let steps = replay_steps(erase, keys, delimiter);
    lemma_replay_plan_steps_are_well_formed(erase, keys, delimiter);
    let ends = plan.step_ends@;
    assert(usize_ints(ends) == step_ends(steps));
    assert(steps.len() >= keys.len());
    assert(ends.len() == steps.len());
    assert forall|i: int| 0 <= i < ends.len() implies ends[i] as int == #[trigger] step_ends(steps)[i] by {
        assert(usize_ints(ends)[i] == ends[i] as int);
    }
    assert(ends[0] as int == step_ends(steps)[0]);
    assert(ends.last() as int == step_ends(steps)[ends.len() - 1]);
    assert forall|i: int, j: int| 0 <= i < j < ends.len() implies ends[i] < ends[j] by {
        assert(ends[i] as int == step_ends(steps)[i]);
        assert(ends[j] as int == step_ends(steps)[j]);
    }
}

/// The V key.
pub const VK_V_KEY: u16 = 0x56;

/// The paste chord: left Ctrl pressed, V pressed and released, Ctrl
/// released, every input marked as injected.
pub open spec fn paste_chord() -> Seq<KeyInput> {
    seq![
        input(VK_LCONTROL, 0, 0),
        input(VK_V_KEY, 0, 0),
        input(VK_V_KEY, 0, KEYEVENTF_KEYUP),
        input(VK_LCONTROL, 0, KEYEVENTF_KEYUP),
    ]
}

/// The inputs that paste the clipboard.
pub fn build_paste_inputs() -> (r: [KeyInput; 4])
    ensures
        r@ == paste_chord(),
{
    let r = [
        key_input(VK_LCONTROL, 0, 0),
        key_input(VK_V_KEY, 0, 0),
        key_input(VK_V_KEY, 0, KEYEVENTF_KEYUP),
        key_input(VK_LCONTROL, 0, KEYEVENTF_KEYUP),
    ];
    assert(r@ =~= paste_chord());
    r
}

} // verus!
