use autokeyboardlayot_core::profile_resolver::{
    resolve_keyboard_profiles, KeyboardProfileProbe, ProbeAnswer, ProbeRequest, ProfileResolution,
    ProfileResolutionError, ProfileSnapshotCache, ResolutionStep, ResolvedKeyboardProfiles, WindowsKeyboardProfile,
};

const US: usize = 0x04090409;
const VARIANT: usize = 0xf0020409;
const IME: usize = 0xe0010411;

struct Fake {
    loaded: Vec<usize>,
    current: usize,
    activated: Vec<usize>,
    ime: bool,
    activation_fails: bool,
    restore_fails: bool,
    wrong_restore_previous: bool,
    name_fails: bool,
    name_override: Option<[u16; 9]>,
    switch_during_name: bool,
    wrong_handle: bool,
    changed: bool,
    reads: usize,
}

impl Default for Fake {
    fn default() -> Self {
        Self {
            loaded: vec![US, VARIANT, IME],
            current: US,
            activated: Vec::new(),
            ime: true,
            activation_fails: false,
            restore_fails: false,
            wrong_restore_previous: false,
            name_fails: false,
            name_override: None,
            switch_during_name: false,
            wrong_handle: false,
            changed: false,
            reads: 0,
        }
    }
}

impl KeyboardProfileProbe for Fake {
    fn loaded_layouts(&mut self) -> Option<Vec<usize>> {
        self.reads += 1;
        let mut result = self.loaded.clone();
        if self.changed && self.reads > 1 {
            result.pop();
        }
        Some(result)
    }
    fn current_layout(&mut self) -> Option<usize> {
        Some(self.current)
    }
    fn is_ime(&mut self, layout: usize) -> bool {
        self.ime && layout == IME
    }
    fn activate_layout(&mut self, layout: usize) -> Option<usize> {
        self.activated.push(layout);
        if self.restore_fails && layout == US && self.current != US {
            return None;
        }
        let old = self.current;
        if self.activation_fails && layout == VARIANT {
            self.current = VARIANT;
            return None;
        }
        if !(self.wrong_handle && layout == VARIANT) {
            self.current = layout;
        }
        if self.wrong_restore_previous && layout == US && old != US {
            return Some(IME);
        }
        Some(old)
    }
    fn current_layout_name(&mut self) -> Option<[u16; 9]> {
        if self.name_fails && self.current == VARIANT {
            return None;
        }
        if self.switch_during_name && self.current == VARIANT {
            self.current = US;
        }
        if let Some(name) = self.name_override {
            return Some(name);
        }
        let text = if self.current == VARIANT {
            "00020409"
        } else if self.current == 0x04190419 {
            "00000419"
        } else {
            "00000409"
        };
        let mut name = [0; 9];
        for (slot, byte) in name.iter_mut().zip(text.bytes()) {
            *slot = u16::from(byte);
        }
        Some(name)
    }
}

#[test]
fn resolves_exact_names_restores_each_probe_and_never_activates_ime_targets() {
    let mut fake = Fake::default();
    let resolved = resolve_keyboard_profiles(&mut fake).unwrap();
    assert_eq!(resolved.profile(US).unwrap().to_text(), "0409:00000409");
    assert_eq!(resolved.profile(VARIANT).unwrap().to_text(), "0409:00020409");
    assert!(resolved.profile(IME).is_none());
    assert_eq!(resolved.loaded_layouts().len(), 3);
    assert_eq!(fake.current, US);
    assert_eq!(fake.activated, [US, US, VARIANT, US]);
    assert_eq!(
        resolved.unique_layout(WindowsKeyboardProfile::parse("0409:00020409").unwrap()),
        Some(VARIANT)
    );
    assert!(resolved.unique_layout(WindowsKeyboardProfile::parse("0809:00000409").unwrap()).is_none());
}

#[test]
fn activation_and_identity_failures_restore_without_returning_partial_data() {
    for (kind, expected) in [
        (0, ProfileResolutionError::ActivationFailed),
        (1, ProfileResolutionError::IdentityUnavailable),
        (2, ProfileResolutionError::ActivationFailed),
    ] {
        let mut fake = Fake {
            activation_fails: kind == 0,
            name_fails: kind == 1,
            wrong_handle: kind == 2,
            ..Default::default()
        };
        assert_eq!(resolve_keyboard_profiles(&mut fake), Err(expected));
        assert_eq!(fake.current, US);
        assert_eq!(fake.activated.last(), Some(&US));
    }
}

#[test]
fn restoration_or_inventory_races_reject_the_whole_snapshot() {
    let mut fake = Fake { restore_fails: true, ..Default::default() };
    assert_eq!(resolve_keyboard_profiles(&mut fake), Err(ProfileResolutionError::RestoreFailed));
    assert_eq!(&fake.activated[fake.activated.len() - 2..], [US, US]);
    let mut fake = Fake { changed: true, ..Default::default() };
    assert_eq!(resolve_keyboard_profiles(&mut fake), Err(ProfileResolutionError::LayoutListChanged));
    assert_eq!(fake.current, US);
    let mut fake = Fake { wrong_restore_previous: true, ..Default::default() };
    assert_eq!(resolve_keyboard_profiles(&mut fake), Err(ProfileResolutionError::RestoreFailed));
    assert_eq!(fake.current, US);
}

#[test]
fn invalid_and_excessive_lists_never_activate_anything() {
    for loaded in [vec![], vec![0], vec![1], vec![US, US], vec![US; 65]] {
        let mut fake = Fake { loaded, ..Default::default() };
        assert_eq!(resolve_keyboard_profiles(&mut fake), Err(ProfileResolutionError::InvalidLayoutList));
        assert!(fake.activated.is_empty());
    }
    let mut fake = Fake { current: 0x9999, ..Default::default() };
    assert_eq!(resolve_keyboard_profiles(&mut fake), Err(ProfileResolutionError::LayoutListChanged));
    assert!(fake.activated.is_empty());
}

#[test]
fn malformed_names_and_context_change_during_name_lookup_reject_identity() {
    for name in [
        [0; 9],
        [b'0' as u16; 9],
        [u16::MAX; 9],
        [0xd800, 48, 48, 48, 48, 48, 48, 48, 0],
        [48, 48, 48, 48, 48, 48, 48, 48, 0],
    ] {
        let mut fake = Fake { name_override: Some(name), ..Default::default() };
        assert_eq!(resolve_keyboard_profiles(&mut fake), Err(ProfileResolutionError::IdentityUnavailable));
        assert_eq!(fake.current, US);
        assert_eq!(fake.activated.last(), Some(&US));
    }
    let mut fake = Fake { switch_during_name: true, ..Default::default() };
    assert_eq!(resolve_keyboard_profiles(&mut fake), Err(ProfileResolutionError::IdentityUnavailable));
    assert_eq!(fake.current, US);
}

#[test]
fn cache_refresh_preserves_generation_but_loss_and_change_invalidate_it() {
    let now: u64 = 50_000;
    let ttl: u64 = 2_000;
    let snapshot = resolve_keyboard_profiles(&mut Fake::default()).unwrap();
    let mut cache = ProfileSnapshotCache::default();
    assert!(cache.current(now, ttl).is_none());
    assert!(!cache.invalidate());
    assert!(cache.accept(snapshot.clone(), now, ttl));
    let generation = cache.generation();
    assert!(!cache.accept(snapshot.clone(), now + 1_000, ttl));
    assert_eq!(cache.generation(), generation);
    assert!(cache.current(now, ttl).is_none());
    assert!(cache.current(now + 2_000, ttl).is_some());
    assert!(cache.expire(now + 3_000, ttl));
    assert_eq!(cache.generation(), generation + 1);
    assert!(!cache.expire(now + 4_000, ttl));
    assert!(cache.accept(snapshot.clone(), now + 4_000, ttl));
    let mut changed = snapshot;
    changed.remove_profile(VARIANT);
    assert!(cache.accept(changed.clone(), now + 4_000, ttl));
    assert_eq!(cache.generation(), generation + 3);
    assert!(cache.invalidate());
    assert!(cache.current(now + 4_000, ttl).is_none());
    assert!(cache.accept(changed.clone(), now + 5_000, ttl));
    let generation = cache.generation();
    assert!(!cache.accept(changed, now + 7_000, ttl));
    assert_eq!(cache.generation(), generation);
}

#[test]
fn duplicate_exact_identity_does_not_choose_an_arbitrary_handle() {
    let profile = WindowsKeyboardProfile::parse("0409:00000409").unwrap();
    let resolved = ResolvedKeyboardProfiles::from_parts(&[US, VARIANT], &[(US, profile), (VARIANT, profile)]).unwrap();
    assert!(resolved.unique_layout(profile).is_none());
    assert_eq!(resolved.profile(US), Some(profile));
}

#[test]
fn profile_text_is_exact_and_case_insensitive_on_input() {
    let p = WindowsKeyboardProfile::parse("0419:0001041f").unwrap();
    assert_eq!(p.to_text(), "0419:0001041F");
    assert_eq!(p.lang_id, 0x0419);
    assert_eq!(p.layout_id, 0x0001041f);
    for bad in ["0419-00000419", "419:00000419", "0419:0000041", "0419:0000041G", "0409:00000000", ""] {
        assert!(WindowsKeyboardProfile::parse(bad).is_err(), "{bad}");
    }
    assert_eq!(ProfileResolutionError::RestoreFailed.describe(), "profile_resolution_RestoreFailed");
}

#[test]
fn from_parts_refuses_unordered_or_unloaded_bindings() {
    let profile = WindowsKeyboardProfile::parse("0409:00000409").unwrap();
    assert!(ResolvedKeyboardProfiles::from_parts(&[VARIANT, US], &[]).is_none());
    assert!(ResolvedKeyboardProfiles::from_parts(&[US], &[(VARIANT, profile)]).is_none());
    assert!(ResolvedKeyboardProfiles::from_parts(&[US, VARIANT], &[(VARIANT, profile), (US, profile)]).is_none());
    let ok = ResolvedKeyboardProfiles::from_parts(&[US, VARIANT], &[(US, profile)]).unwrap();
    assert_eq!(ok.unique_layout(profile), Some(US));
    assert_eq!(ok.loaded_layouts(), vec![US, VARIANT]);
}

fn name_of(text: &str) -> [u16; 9] {
    let mut name = [0u16; 9];
    for (slot, unit) in name.iter_mut().zip(text.encode_utf16()) {
        *slot = unit;
    }
    name
}

fn ask(r: &mut ProfileResolution, answer: ProbeAnswer) -> ProbeRequest {
    match r.step(answer) {
        ResolutionStep::Ask(q) => q,
        other => panic!("unexpected {other:?}"),
    }
}

#[test]
fn step_machine_asks_in_order_and_restores_after_each_layout() {
    let mut r = ProfileResolution::new();
    assert_eq!(ask(&mut r, ProbeAnswer::Started), ProbeRequest::LoadedLayouts);
    assert_eq!(ask(&mut r, ProbeAnswer::Layouts(Some(vec![VARIANT, US]))), ProbeRequest::CurrentLayout);
    assert_eq!(ask(&mut r, ProbeAnswer::Layout(Some(VARIANT))), ProbeRequest::IsIme(US));
    assert_eq!(ask(&mut r, ProbeAnswer::Ime(false)), ProbeRequest::CurrentLayout);
    assert_eq!(ask(&mut r, ProbeAnswer::Layout(Some(VARIANT))), ProbeRequest::ActivateLayout(US));
    assert_eq!(ask(&mut r, ProbeAnswer::Layout(Some(VARIANT))), ProbeRequest::CurrentLayout);
    assert_eq!(ask(&mut r, ProbeAnswer::Layout(Some(US))), ProbeRequest::CurrentLayoutName);
    assert_eq!(ask(&mut r, ProbeAnswer::Name(Some(name_of("00000409")))), ProbeRequest::CurrentLayout);
    assert_eq!(ask(&mut r, ProbeAnswer::Layout(Some(US))), ProbeRequest::CurrentLayout);
    assert_eq!(ask(&mut r, ProbeAnswer::Layout(Some(US))), ProbeRequest::ActivateLayout(VARIANT));
    assert_eq!(ask(&mut r, ProbeAnswer::Layout(Some(US))), ProbeRequest::CurrentLayout);
    assert_eq!(ask(&mut r, ProbeAnswer::Layout(Some(VARIANT))), ProbeRequest::IsIme(VARIANT));
    assert_eq!(ask(&mut r, ProbeAnswer::Ime(true)), ProbeRequest::LoadedLayouts);
    assert_eq!(ask(&mut r, ProbeAnswer::Layouts(Some(vec![US, VARIANT]))), ProbeRequest::CurrentLayout);
    match r.step(ProbeAnswer::Layout(Some(VARIANT))) {
        ResolutionStep::Finished(Ok(resolved)) => {
            assert_eq!(resolved.loaded_layouts(), vec![US, VARIANT]);
            assert_eq!(resolved.profile(US).unwrap().to_text(), "0409:00000409");
            assert!(resolved.profile(VARIANT).is_none());
        },
        other => panic!("unexpected {other:?}"),
    }
}

#[test]
fn step_machine_refuses_bad_lists_before_any_activation() {
    for list in [None, Some(vec![]), Some(vec![US, US]), Some(vec![1, US])] {
        let mut r = ProfileResolution::new();
        assert_eq!(ask(&mut r, ProbeAnswer::Started), ProbeRequest::LoadedLayouts);
        let expected = if list.is_none() {
            ProfileResolutionError::Unavailable
        } else {
            ProfileResolutionError::InvalidLayoutList
        };
        assert_eq!(r.step(ProbeAnswer::Layouts(list)), ResolutionStep::Finished(Err(expected)));
    }
    let mut r = ProfileResolution::new();
    ask(&mut r, ProbeAnswer::Started);
    ask(&mut r, ProbeAnswer::Layouts(Some(vec![US])));
    assert_eq!(
        r.step(ProbeAnswer::Layout(Some(VARIANT))),
        ResolutionStep::Finished(Err(ProfileResolutionError::LayoutListChanged))
    );
}

#[test]
fn step_machine_reports_identity_failure_only_after_restoring() {
    let mut r = ProfileResolution::new();
    ask(&mut r, ProbeAnswer::Started);
    ask(&mut r, ProbeAnswer::Layouts(Some(vec![US, VARIANT])));
    assert_eq!(ask(&mut r, ProbeAnswer::Layout(Some(US))), ProbeRequest::IsIme(US));
    ask(&mut r, ProbeAnswer::Ime(false));
    assert_eq!(ask(&mut r, ProbeAnswer::Layout(Some(US))), ProbeRequest::ActivateLayout(US));
    ask(&mut r, ProbeAnswer::Layout(Some(US)));
    assert_eq!(ask(&mut r, ProbeAnswer::Layout(Some(US))), ProbeRequest::CurrentLayoutName);
    assert_eq!(ask(&mut r, ProbeAnswer::Name(Some(name_of("0000040G")))), ProbeRequest::CurrentLayout);
    assert_eq!(ask(&mut r, ProbeAnswer::Layout(Some(US))), ProbeRequest::CurrentLayout);
    assert_eq!(ask(&mut r, ProbeAnswer::Layout(Some(US))), ProbeRequest::ActivateLayout(US));
    assert_eq!(ask(&mut r, ProbeAnswer::Layout(Some(US))), ProbeRequest::CurrentLayout);
    assert_eq!(
        r.step(ProbeAnswer::Layout(Some(US))),
        ResolutionStep::Finished(Err(ProfileResolutionError::IdentityUnavailable))
    );
}
