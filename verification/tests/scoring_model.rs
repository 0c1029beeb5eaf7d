use autokeyboardlayot_core::scoring_model::{
    admit_document_size, known_format, ModelDocument, ScoringModel, ScoringModelError,
    ScoringPolicy, MAX_DOCUMENT_BYTES,
};

fn strings(values: &[&str]) -> Vec<String> {
    values.iter().map(|value| value.to_string()).collect()
}

fn valid() -> ModelDocument {
    ModelDocument {
        format: 1,
        ranges: vec![('a', 'z')],
        letters: String::new(),
        marks: String::new(),
        vowels: "aeiou".to_string(),
        bigrams: strings(&["ab"]),
        trigrams: strings(&["abc"]),
        rare: strings(&["zz"]),
        policy: ScoringPolicy::legacy(),
    }
}

fn with_marks() -> ModelDocument {
    ModelDocument {
        format: 3,
        ranges: vec![('a', 'z'), ('क', 'क'), ('ক', 'ক')],
        letters: String::new(),
        marks: "\u{0301}\u{0345}\u{093e}\u{09be}\u{064e}\u{20dd}".to_string(),
        vowels: String::new(),
        bigrams: strings(&["a\u{0301}", "क\u{093e}"]),
        trigrams: Vec::new(),
        rare: Vec::new(),
        policy: ScoringPolicy { bigrams: true, trigrams: false, vowels: false, statistical_targets: true },
    }
}

fn sparse() -> ModelDocument {
    ModelDocument {
        format: 4,
        ranges: Vec::new(),
        letters: "a中日本𠀀".to_string(),
        marks: "\u{0301}".to_string(),
        vowels: String::new(),
        bigrams: strings(&["日本"]),
        trigrams: Vec::new(),
        rare: Vec::new(),
        policy: ScoringPolicy { bigrams: true, trigrams: false, vowels: false, statistical_targets: false },
    }
}

fn parse(document: &ModelDocument) -> Result<ScoringModel, ScoringModelError> {
    ScoringModel::from_document(document.format, document.clone())
}

#[test]
fn data_is_owned_and_validated_without_an_input_capability() {
    let model = parse(&valid()).unwrap();
    assert!(model.accepts('b'));
    assert!(!model.accepts('@'));
    assert!(model.is_vowel('a'));
    assert!(!model.is_vowel('b'));
    assert!(model.bigrams().contains(&"ab".to_string()));
    assert!(model.trigrams().contains(&"abc".to_string()));
    assert_eq!(model.rare().to_vec(), vec!["zz".to_string()]);
}

#[test]
fn rejects_malformed_ranges_sequences_versions_and_fields() {
    let cases: Vec<fn(&mut ModelDocument)> = vec![
        |d| d.ranges = vec![],
        |d| d.ranges = vec![('z', 'a')],
        |d| d.ranges = vec![('a', 'm'), ('m', 'z')],
        |d| d.ranges = vec![('A', 'Z')],
        |d| d.ranges = vec![('@', 'z')],
        |d| d.ranges = vec![('\n', 'z')],
        |d| d.vowels = "aa".to_string(),
        |d| d.vowels = "A".to_string(),
        |d| d.vowels = "ё".to_string(),
        |d| d.bigrams = strings(&["ab", "ab"]),
        |d| d.bigrams = strings(&["a"]),
        |d| d.bigrams = strings(&["Aб"]),
        |d| d.trigrams = strings(&["abcd"]),
        |d| d.rare = strings(&[""]),
        |d| d.rare = strings(&["abcdefghi"]),
    ];
    for (index, change) in cases.into_iter().enumerate() {
        let mut document = valid();
        change(&mut document);
        assert_eq!(parse(&document), Err(ScoringModelError::InvalidData), "case {index}");
    }
    let document = valid();
    assert_eq!(
        ScoringModel::from_document(2, document),
        Err(ScoringModelError::InvalidData)
    );
    assert!(!known_format(0));
    assert!(known_format(1));
    assert!(known_format(4));
    assert!(!known_format(5));
}

#[test]
fn ranges_are_sorted_before_they_are_checked() {
    let mut document = valid();
    document.ranges = vec![('x', 'z'), ('a', 'c')];
    document.vowels = "a".to_string();
    document.bigrams = strings(&["ab"]);
    document.trigrams = strings(&["abc"]);
    document.rare = strings(&["zz"]);
    let model = parse(&document).unwrap();
    assert!(model.accepts('y'));
    assert!(!model.accepts('m'));
}

#[test]
fn bounds_bytes_and_rows_before_deduplicating() {
    assert_eq!(admit_document_size(MAX_DOCUMENT_BYTES + 1), Err(ScoringModelError::LimitExceeded));
    assert_eq!(admit_document_size(MAX_DOCUMENT_BYTES), Ok(()));
    let cases: Vec<fn(&mut ModelDocument)> = vec![
        |d| d.ranges = vec![('a', 'a'); 65],
        |d| d.bigrams = vec!["ab".to_string(); 513],
        |d| d.trigrams = vec!["abc".to_string(); 513],
        |d| d.rare = vec!["ab".to_string(); 129],
        |d| d.vowels = "a".repeat(257),
    ];
    for change in cases {
        let mut document = valid();
        change(&mut document);
        assert_eq!(parse(&document), Err(ScoringModelError::LimitExceeded));
    }
}

#[test]
fn explicit_policy_is_versioned_and_requires_consistent_evidence() {
    let mut document = valid();
    document.format = 2;
    assert_eq!(parse(&document).unwrap(), parse(&valid()).unwrap());
    for field in 0..3 {
        let mut invalid = document.clone();
        match field {
            0 => invalid.policy.bigrams = false,
            1 => invalid.policy.trigrams = false,
            _ => invalid.policy.vowels = false,
        }
        assert_eq!(parse(&invalid), Err(ScoringModelError::InvalidData), "{field}");
    }
    document.bigrams = Vec::new();
    document.trigrams = Vec::new();
    document.vowels = String::new();
    document.policy = ScoringPolicy { bigrams: false, trigrams: false, vowels: false, statistical_targets: false };
    let model = parse(&document).unwrap();
    assert!(!model.uses_vowels());
    assert!(!model.uses_bigrams());
    assert!(!model.uses_trigrams());
    assert!(!model.allows_statistical_targets());
    document.policy.statistical_targets = true;
    assert!(parse(&document).is_err());
    document.policy.statistical_targets = false;
    for field in 0..3 {
        let mut invalid = document.clone();
        match field {
            0 => invalid.policy.bigrams = true,
            1 => invalid.policy.trigrams = true,
            _ => invalid.policy.vowels = true,
        }
        assert!(parse(&invalid).is_err(), "empty enabled {field}");
    }
}

#[test]
fn legacy_models_use_every_kind_of_evidence() {
    let model = parse(&valid()).unwrap();
    assert!(model.uses_bigrams());
    assert!(model.uses_trigrams());
    assert!(model.uses_vowels());
    assert!(model.allows_statistical_targets());
}

#[test]
fn explicit_marks_are_versioned_continuations_not_adapter_grants() {
    let mut document = with_marks();
    let model = parse(&document).unwrap();
    for word in ["a\u{0301}", "a\u{0345}", "का", "কা", "a\u{064e}", "a\u{20dd}"] {
        assert!(model.accepts_word(word), "{word}");
        assert!(!model.is_vowel(word.chars().last().unwrap()));
    }
    for word in ["", "\u{0301}", "\u{093e}क", "a\u{0300}", "a\u{200d}", "a b"] {
        assert!(!model.accepts_word(word), "{word}");
    }
    document.vowels = "\u{093e}".to_string();
    document.policy.vowels = true;
    assert!(parse(&document).unwrap().is_vowel('\u{093e}'));
    let mut legacy = valid();
    legacy.ranges = vec![('a', 'z'), ('\u{093e}', '\u{093e}')];
    assert!(parse(&legacy).unwrap().accepts_word("\u{093e}a"));
    let mut modern = with_marks();
    modern.ranges = legacy.ranges.clone();
    assert!(parse(&modern).is_err());
    modern = with_marks();
    modern.marks = String::new();
    modern.bigrams = strings(&["ab"]);
    assert!(parse(&modern).unwrap().accepts_word("abc"));
}

#[test]
fn mark_schema_rejects_nonmarks_duplicates_missing_and_oversized_data() {
    for marks in ["a", "\u{0301}\u{0301}", "\u{200c}", "\u{200d}", "\n", "🦀"] {
        let mut document = with_marks();
        document.marks = marks.to_string();
        assert!(parse(&document).is_err(), "{marks:?}");
    }
    let mut document = with_marks();
    document.marks = "\u{0301}".repeat(513);
    assert_eq!(parse(&document), Err(ScoringModelError::LimitExceeded));
    let mut document = with_marks();
    document.bigrams = strings(&["ab"]);
    let mut marks = String::from("\u{0300}\u{0301}");
    for c in (0x800..=0xffffu32).filter_map(char::from_u32) {
        let is_mark = matches!(
            unicode_general_category::get_general_category(c),
            unicode_general_category::GeneralCategory::NonspacingMark
                | unicode_general_category::GeneralCategory::SpacingMark
                | unicode_general_category::GeneralCategory::EnclosingMark
        );
        if is_mark && c.to_lowercase().eq(std::iter::once(c)) {
            marks.push(c);
        }
        if marks.len() == 1024 {
            break;
        }
    }
    assert_eq!(marks.len(), 1024);
    document.marks = marks.clone();
    assert!(parse(&document).is_ok());
    marks.push('\u{20dd}');
    document.marks = marks;
    assert_eq!(parse(&document), Err(ScoringModelError::LimitExceeded));
    for change in [0, 1] {
        let mut document = with_marks();
        if change == 0 {
            document.bigrams = strings(&["a\u{0300}"]);
        } else {
            document.trigrams = strings(&["ab\u{0301}"]);
        }
        assert!(parse(&document).is_err());
    }
}

#[test]
fn sparse_letters_are_bounded_and_strictly_versioned() {
    let valid = sparse();
    let model = parse(&valid).unwrap();
    assert!(model.accepts_word("日本中𠀀a\u{0301}"));
    assert!(!model.accepts_word("\u{0301}日本"));
    assert!(!model.accepts('未'));
    assert!(!model.allows_statistical_targets());
    for letters in ["", "aa日本", "A日本", "1日本", "\u{0345}日本", "\u{0301}日本"] {
        let mut invalid = valid.clone();
        invalid.letters = letters.to_string();
        assert!(parse(&invalid).is_err(), "{letters:?}");
    }
    let letters: String = "ab"
        .chars()
        .chain((0x4e00..0x4e00 + 10922).map(|n| char::from_u32(n).unwrap()))
        .collect();
    assert_eq!(letters.len(), 32768);
    let mut boundary = valid.clone();
    boundary.letters = letters.clone();
    assert!(parse(&boundary).is_ok());
    boundary.letters = format!("{letters}c");
    assert_eq!(parse(&boundary), Err(ScoringModelError::LimitExceeded));
    assert!(admit_document_size(65536).is_ok());
    assert_eq!(admit_document_size(65537), Err(ScoringModelError::LimitExceeded));
}

#[test]
fn errors_have_stable_diagnostic_names() {
    assert_eq!(ScoringModelError::InvalidData.describe(), "scoring_model_InvalidData");
    assert_eq!(ScoringModelError::LimitExceeded.describe(), "scoring_model_LimitExceeded");
}

#[test]
fn sets_are_kept_in_order_whatever_the_document_order() {
    let mut first = valid();
    first.vowels = "uoiea".to_string();
    first.bigrams = strings(&["zb", "ab", "ba"]);
    first.rare = strings(&["zz", "ab", "abc"]);
    let mut second = valid();
    second.vowels = "aeiou".to_string();
    second.bigrams = strings(&["ab", "ba", "zb"]);
    second.rare = strings(&["ab", "abc", "zz"]);
    let a = parse(&first).unwrap();
    let b = parse(&second).unwrap();
    assert_eq!(a.bigrams().to_vec(), strings(&["ab", "ba", "zb"]));
    assert_eq!(a.rare().to_vec(), strings(&["ab", "abc", "zz"]));
    assert!(a == b);
}
