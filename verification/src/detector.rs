//! Dictionary-backed detection of words typed under the wrong keyboard
//! layout.
//!
//! A word typed while one layout was active is compared with the
//! dictionaries of the enabled packs. A word that is valid in the current
//! layout is never converted. Otherwise the same physical keys are read
//! under another layout, either through the built-in English/Russian key
//! table or through target strings that a platform adapter mapped, and the
//! first reading that a target dictionary knows becomes a candidate.

use vstd::prelude::*;

use crate::pack_id::{Language, PackId};
use crate::privacy::str_views;
use crate::text::{chars_equal, chars_of, string_of, to_lowercase, unicode_lowercase};

verus! {

/// What the platform reports about an input-method composition.
#[derive(Debug, Clone, Copy, PartialEq, Eq)]
pub enum CompositionState {
    Active,
    Inactive,
    Indeterminate,
}

impl CompositionState {
    /// Fail closed: only a known inactive composition lets typing continue.
    pub fn requires_suppression(&self) -> (r: bool)
        ensures
            r == !(*self is Inactive),
    {
        match self {
            CompositionState::Inactive => false,
            _ => true,
        }
    }
}

/// Detector options.
#[derive(Debug, Clone, Copy, PartialEq, Eq)]
pub struct DetectorConfig {
    /// Whether one-letter words may be converted.
    pub single_letter_words: bool,
}

impl Default for DetectorConfig {
    fn default() -> (r: DetectorConfig)
        ensures
            !r.single_letter_words,
    {
        DetectorConfig { single_letter_words: false }
    }
}

/// A proposed conversion of one word.
#[derive(Debug, Clone, PartialEq, Eq)]
pub struct Detection {
    pub source_language: Language,
    pub target_language: Language,
    pub original: String,
    pub replacement: String,
}

/// The content of a `Detection`.
pub struct DetectionView {
    pub source: Seq<char>,
    pub target: Seq<char>,
    pub original: Seq<char>,
    pub replacement: Seq<char>,
}

impl View for Detection {
    type V = DetectionView;

    open spec fn view(&self) -> DetectionView {
        DetectionView {
            source: self.source_language@,
            target: self.target_language@,
            original: self.original@,
            replacement: self.replacement@,
        }
    }
}

/// The keys of the US QWERTY layout and the letters that the same physical
/// keys give under the Russian ЙЦУКЕН layout.
pub open spec fn key_pairs() -> Seq<(char, char)> {
    seq![
        ('q', 'й'), ('w', 'ц'), ('e', 'у'), ('r', 'к'), ('t', 'е'), ('y', 'н'), ('u', 'г'),
        ('i', 'ш'), ('o', 'щ'), ('p', 'з'), ('[', 'х'), (']', 'ъ'), ('a', 'ф'), ('s', 'ы'),
        ('d', 'в'), ('f', 'а'), ('g', 'п'), ('h', 'р'), ('j', 'о'), ('k', 'л'), ('l', 'д'),
        (';', 'ж'), ('\'', 'э'), ('z', 'я'), ('x', 'ч'), ('c', 'с'), ('v', 'м'), ('b', 'и'),
        ('n', 'т'), ('m', 'ь'), (',', 'б'), ('.', 'ю'), ('`', 'ё'),
        ('Q', 'Й'), ('W', 'Ц'), ('E', 'У'), ('R', 'К'), ('T', 'Е'), ('Y', 'Н'), ('U', 'Г'),
        ('I', 'Ш'), ('O', 'Щ'), ('P', 'З'), ('{', 'Х'), ('}', 'Ъ'), ('A', 'Ф'), ('S', 'Ы'),
        ('D', 'В'), ('F', 'А'), ('G', 'П'), ('H', 'Р'), ('J', 'О'), ('K', 'Л'), ('L', 'Д'),
        (':', 'Ж'), ('"', 'Э'), ('Z', 'Я'), ('X', 'Ч'), ('C', 'С'), ('V', 'М'), ('B', 'И'),
        ('N', 'Т'), ('M', 'Ь'), ('<', 'Б'), ('>', 'Ю'), ('~', 'Ё'),
    ]
}

/// The character that key `c` gives in the other layout: from QWERTY to
/// ЙЦУКЕН when `forward`, back otherwise. The first matching pair decides.
pub open spec fn map_key(pairs: Seq<(char, char)>, c: char, forward: bool) -> Option<char>
    decreases pairs.len(),
{
    if pairs.len() == 0 {
        None
    } else {
        let (a, b) = pairs[0];
        if forward && a == c {
            Some(b)
        } else if !forward && b == c {
            Some(a)
        } else {
            map_key(pairs.drop_first(), c, forward)
        }
    }
}

/// `w` read key by key in the other layout, when every key has a reading.
pub open spec fn map_word(w: Seq<char>, forward: bool) -> Option<Seq<char>>
    decreases w.len(),
{
    if w.len() == 0 {
        Some(Seq::<char>::empty())
    } else {
        match (map_word(w.drop_last(), forward), map_key(key_pairs(), w.last(), forward)) {
            (Some(init), Some(c)) => Some(init.push(c)),
            _ => None,
        }
    }
}

pub open spec fn ascii_letter(c: char) -> bool {
    ('a' <= c && c <= 'z') || ('A' <= c && c <= 'Z')
}

/// The letters that Estonian adds to the basic Latin alphabet.
pub open spec fn estonian_letter(c: char) -> bool {
    c == 'õ' || c == 'ä' || c == 'ö' || c == 'ü' || c == 'š' || c == 'ž' || c == 'Õ' || c == 'Ä'
        || c == 'Ö' || c == 'Ü' || c == 'Š' || c == 'Ž'
}

/// Whether `c` can be part of a word typed while `language` is active: a
/// letter of its alphabet or, for English, a key that gives a Russian
/// letter. Packs without a known alphabet accept nothing.
pub open spec fn extends_word(c: char, language: Seq<char>) -> bool {
    if language == PackId::English@ {
        ascii_letter(c) || map_key(key_pairs(), c, true) is Some
    } else if language == PackId::Russian@ {
        map_key(key_pairs(), c, false) is Some
    } else if language == PackId::Estonian@ {
        ascii_letter(c) || estonian_letter(c)
    } else {
        false
    }
}

/// The language whose layout the built-in key table reads a word in, and
/// the direction of that reading.
pub open spec fn partner(language: Seq<char>) -> Option<(Seq<char>, bool)> {
    if language == PackId::English@ {
        Some((PackId::Russian@, true))
    } else if language == PackId::Russian@ {
        Some((PackId::English@, false))
    } else {
        None
    }
}

/// The dictionary of one pack: lower-case words and common short words.
#[derive(Debug, Clone)]
pub struct DictionaryPack {
    language: PackId,
    entries: Vec<Vec<char>>,
}

pub struct PackView {
    pub language: Seq<char>,
    pub entries: Seq<Seq<char>>,
}

impl View for DictionaryPack {
    type V = PackView;

    closed spec fn view(&self) -> PackView {
        PackView { language: self.language@, entries: crate::text::views(self.entries@) }
    }
}

/// The lower-case forms of `words` that have at least `min` characters, in
/// order.
pub open spec fn lower_entries(words: Seq<Seq<char>>, min: nat) -> Seq<Seq<char>>
    decreases words.len(),
{
    if words.len() == 0 {
        Seq::<Seq<char>>::empty()
    } else {
        let rest = lower_entries(words.drop_last(), min);
        let l = unicode_lowercase(words.last());
        if l.len() >= min {
            rest.push(l)
        } else {
            rest
        }
    }
}

fn push_lower_entries(entries: &mut Vec<Vec<char>>, words: &[&str], min: usize)
    ensures
        crate::text::views(final(entries)@) == crate::text::views(old(entries)@) + lower_entries(
            str_views(words@),
            min as nat,
        ),
{
    let ghost start = crate::text::views(entries@);
    let ghost ws = str_views(words@);
    let mut i: usize = 0;
    assert(ws.take(0) =~= Seq::<Seq<char>>::empty());
    assert(start + lower_entries(ws.take(0), min as nat) =~= start);
    while i < words.len()
        invariant
            i <= words@.len(),
            ws == str_views(words@),
            crate::text::views(entries@) == start + lower_entries(ws.take(i as int), min as nat),
        decreases words.len() - i,
    {
        assert(ws.take(i + 1).drop_last() =~= ws.take(i as int));
        assert(ws.take(i + 1).last() == words@[i as int]@);
        let lower = to_lowercase(&chars_of(words[i]));
        if lower.len() >= min {
            let ghost before = crate::text::views(entries@);
            entries.push(lower);
            assert(crate::text::views(entries@) =~= before.push(lower@));
        }
        i = i + 1;
    }
    assert(ws.take(words@.len() as int) =~= ws);
}

impl DictionaryPack {
    /// A pack from its word list and its list of common short words. Words
    /// are kept in lower case; words of fewer than two characters count
    /// only from the short-word list.
    pub fn from_words(language: PackId, words: &[&str], short_words: &[&str]) -> (r: DictionaryPack)
        ensures
            r@.language == language@,
            r@.entries == lower_entries(str_views(words@), 2) + lower_entries(
                str_views(short_words@),
                1,
            ),
    {
        let mut entries: Vec<Vec<char>> = Vec::new();
        assert(crate::text::views(entries@) =~= Seq::<Seq<char>>::empty());
        push_lower_entries(&mut entries, words, 2);
        push_lower_entries(&mut entries, short_words, 1);
        assert(Seq::<Seq<char>>::empty() + lower_entries(str_views(words@), 2) =~= lower_entries(
            str_views(words@),
            2,
        ));
        DictionaryPack { language, entries }
    }

    /// The pack's language.
    pub fn language(&self) -> (r: &PackId)
        ensures
            r@ == self@.language,
    {
        &self.language
    }

    fn knows(&self, word: &[char]) -> (r: bool)
        ensures
            r == self@.entries.contains(word@),
    {
        let mut i: usize = 0;
        while i < self.entries.len()
            invariant
                i <= self.entries@.len(),
                forall|k: int| 0 <= k < i ==> self.entries@[k]@ != word@,
            decreases self.entries.len() - i,
        {
            if chars_equal(&self.entries[i], word) {
                assert(self@.entries[i as int] == word@);
                return true;
            }
            i = i + 1;
        }
        assert(!self@.entries.contains(word@)) by {
            if self@.entries.contains(word@) {
                let k = choose|k: int| 0 <= k < self@.entries.len() && self@.entries[k] == word@;
                assert(self.entries@[k]@ == word@);
            }
        }
        false
    }
}

fn key_table() -> (r: Vec<(char, char)>)
    ensures
        r@ == key_pairs(),
{
    let r = vec![
        ('q', 'й'), ('w', 'ц'), ('e', 'у'), ('r', 'к'), ('t', 'е'), ('y', 'н'), ('u', 'г'),
        ('i', 'ш'), ('o', 'щ'), ('p', 'з'), ('[', 'х'), (']', 'ъ'), ('a', 'ф'), ('s', 'ы'),
        ('d', 'в'), ('f', 'а'), ('g', 'п'), ('h', 'р'), ('j', 'о'), ('k', 'л'), ('l', 'д'),
        (';', 'ж'), ('\'', 'э'), ('z', 'я'), ('x', 'ч'), ('c', 'с'), ('v', 'м'), ('b', 'и'),
        ('n', 'т'), ('m', 'ь'), (',', 'б'), ('.', 'ю'), ('`', 'ё'), ('Q', 'Й'), ('W', 'Ц'),
        ('E', 'У'), ('R', 'К'), ('T', 'Е'), ('Y', 'Н'), ('U', 'Г'), ('I', 'Ш'), ('O', 'Щ'),
        ('P', 'З'), ('{', 'Х'), ('}', 'Ъ'), ('A', 'Ф'), ('S', 'Ы'), ('D', 'В'), ('F', 'А'),
        ('G', 'П'), ('H', 'Р'), ('J', 'О'), ('K', 'Л'), ('L', 'Д'), (':', 'Ж'), ('"', 'Э'),
        ('Z', 'Я'), ('X', 'Ч'), ('C', 'С'), ('V', 'М'), ('B', 'И'), ('N', 'Т'), ('M', 'Ь'),
        ('<', 'Б'), ('>', 'Ю'), ('~', 'Ё'),
    ];
    assert(r@ =~= key_pairs());
    r
}

fn lookup_key(table: &Vec<(char, char)>, c: char, forward: bool) -> (r: Option<char>)
    requires
        table@ == key_pairs(),
    ensures
        r == map_key(key_pairs(), c, forward),
{
    let ghost ps = key_pairs();
    let mut i: usize = 0;
    assert(ps.skip(0) =~= ps);
    while i < table.len()
        invariant
            i <= table@.len(),
            table@ == ps,
            ps == key_pairs(),
            map_key(ps, c, forward) == map_key(ps.skip(i as int), c, forward),
        decreases table.len() - i,
    {
        let (a, b) = table[i];
        assert(ps.skip(i as int)[0] == ps[i as int]);
        assert(ps.skip(i as int).drop_first() =~= ps.skip(i + 1));
        if forward && a == c {
            return Some(b);
        }
        if !forward && b == c {
            return Some(a);
        }
        i = i + 1;
    }
    assert(ps.skip(i as int).len() == 0);
    None
}

/// Reads `word` key by key in the other layout.
fn map_word_exec(word: &[char], forward: bool) -> (r: Option<Vec<char>>)
    ensures
        match r {
            Some(m) => map_word(word@, forward) == Some(m@),
            None => map_word(word@, forward) is None,
        },
{
    let table = key_table();
    let mut out: Vec<char> = Vec::new();
    let mut i: usize = 0;
    assert(word@.take(0) =~= Seq::<char>::empty());
    while i < word.len()
        invariant
            i <= word@.len(),
            table@ == key_pairs(),
            map_word(word@.take(i as int), forward) == Some(out@),
        decreases word.len() - i,
    {
        assert(word@.take(i + 1).drop_last() =~= word@.take(i as int));
        assert(word@.take(i + 1).last() == word@[i as int]);
        match lookup_key(&table, word[i], forward) {
            Some(c) => {
                out.push(c);
            },
            None => {
                proof {
                    lemma_map_word_none_extends(word@, forward, i as int + 1);
                }
                return None;
            },
        }
        i = i + 1;
    }
    assert(word@.take(word@.len() as int) =~= word@);
    Some(out)
}

proof fn lemma_map_word_none_extends(w: Seq<char>, forward: bool, j: int)
    requires
        0 <= j <= w.len(),
        map_word(w.take(j), forward) is None,
    ensures
        map_word(w, forward) is None,
    decreases w.len() - j,
{
    if j < w.len() {
        assert(w.take(j + 1).drop_last() =~= w.take(j));
        lemma_map_word_none_extends(w, forward, j + 1);
    } else {
        assert(w.take(j) =~= w);
    }
}

/// The content of a `Detector`.
pub struct DetectorView {
    pub single_letter_words: bool,
    pub packs: Seq<PackView>,
}

/// Whether a pack for `language` lists `word`.
pub open spec fn knows(d: DetectorView, language: Seq<char>, word: Seq<char>) -> bool {
    exists|i: int|
        0 <= i < d.packs.len() && d.packs[i].language == language && (#[trigger] d.packs[i]).entries.contains(
            word,
        )
}

/// Words of one letter are converted only when the option allows them.
pub open spec fn length_allowed(d: DetectorView, word: Seq<char>) -> bool {
    word.len() >= 2 || (word.len() == 1 && d.single_letter_words)
}

/// A word that the current layout's dictionary knows is never converted.
pub open spec fn vetoed(d: DetectorView, word: Seq<char>, language: Seq<char>) -> bool {
    knows(d, language, unicode_lowercase(word))
}

/// Detection through the built-in key table.
pub open spec fn detect_spec(d: DetectorView, word: Seq<char>, language: Seq<char>) -> Option<DetectionView> {
    if !length_allowed(d, word) || vetoed(d, word, language) {
        None
    } else {
        match partner(language) {
            None => None,
            Some((target, forward)) => match map_word(word, forward) {
                None => None,
                Some(m) => if knows(d, target, unicode_lowercase(m)) {
                    Some(DetectionView { source: language, target, original: word, replacement: m })
                } else {
                    None
                },
            },
        }
    }
}

/// A platform-mapped candidate in another language that its dictionary
/// knows.
pub open spec fn candidate_fits(d: DetectorView, language: Seq<char>, c: (Seq<char>, Seq<char>)) -> bool {
    c.0 != language && knows(d, c.0, unicode_lowercase(c.1))
}

/// The first fitting candidate, restricted to language `only` when given.
pub open spec fn first_fit(
    d: DetectorView,
    language: Seq<char>,
    cs: Seq<(Seq<char>, Seq<char>)>,
    only: Option<Seq<char>>,
) -> Option<int>
    decreases cs.len(),
{
    if cs.len() == 0 {
        None
    } else {
        match first_fit(d, language, cs.drop_last(), only) {
            Some(i) => Some(i),
            None => if candidate_fits(d, language, cs.last()) && (only is None || only == Some(
                cs.last().0,
            )) {
                Some(cs.len() - 1)
            } else {
                None
            },
        }
    }
}

/// The candidate chosen: one in the language of the most recent word when
/// such a candidate fits, otherwise the first that fits.
pub open spec fn context_pick(
    d: DetectorView,
    language: Seq<char>,
    cs: Seq<(Seq<char>, Seq<char>)>,
    previous: Seq<Seq<char>>,
) -> Option<int> {
    let preferred = if previous.len() > 0 {
        first_fit(d, language, cs, Some(previous.last()))
    } else {
        None
    };
    if preferred is Some {
        preferred
    } else {
        first_fit(d, language, cs, None)
    }
}

pub open spec fn detect_in_context_spec(
    d: DetectorView,
    word: Seq<char>,
    language: Seq<char>,
    cs: Seq<(Seq<char>, Seq<char>)>,
    previous: Seq<Seq<char>>,
) -> Option<DetectionView> {
    if !length_allowed(d, word) || vetoed(d, word, language) {
        None
    } else {
        match context_pick(d, language, cs, previous) {
            None => None,
            Some(i) => Some(
                DetectionView { source: language, target: cs[i].0, original: word, replacement: cs[i].1 },
            ),
        }
    }
}

/// The first candidate in another language whose text differs from `word`.
pub open spec fn first_other(language: Seq<char>, word: Seq<char>, cs: Seq<(Seq<char>, Seq<char>)>) -> Option<int>
    decreases cs.len(),
{
    if cs.len() == 0 {
        None
    } else {
        match first_other(language, word, cs.drop_last()) {
            Some(i) => Some(i),
            None => if cs.last().0 != language && cs.last().1 != word {
                Some(cs.len() - 1)
            } else {
                None
            },
        }
    }
}

/// An explicit request: the first fitting candidate, otherwise the first
/// that differs from the word; no veto and no length rule.
pub open spec fn force_spec(
    d: DetectorView,
    word: Seq<char>,
    language: Seq<char>,
    cs: Seq<(Seq<char>, Seq<char>)>,
) -> Option<DetectionView> {
    let pick = if first_fit(d, language, cs, None) is Some {
        first_fit(d, language, cs, None)
    } else {
        first_other(language, word, cs)
    };
    match pick {
        None => None,
        Some(i) => Some(
            DetectionView { source: language, target: cs[i].0, original: word, replacement: cs[i].1 },
        ),
    }
}

pub open spec fn candidate_views(cs: Seq<(Language, String)>) -> Seq<(Seq<char>, Seq<char>)> {
    cs.map_values(|c: (Language, String)| (c.0@, c.1@))
}

pub open spec fn language_views(ls: Seq<Language>) -> Seq<Seq<char>> {
    ls.map_values(|l: Language| l@)
}

/// Word lookup and layout readings over a set of dictionary packs.
#[derive(Debug, Clone)]
pub struct Detector {
    config: DetectorConfig,
    packs: Vec<DictionaryPack>,
}

impl View for Detector {
    type V = DetectorView;

    closed spec fn view(&self) -> DetectorView {
        DetectorView {
            single_letter_words: self.config.single_letter_words,
            packs: self.packs@.map_values(|p: DictionaryPack| p@),
        }
    }
}

impl Detector {
    /// A detector over `packs`, searched in order.
    pub fn new(config: DetectorConfig, packs: Vec<DictionaryPack>) -> (r: Detector)
        ensures
            r@.single_letter_words == config.single_letter_words,
            r@.packs == packs@.map_values(|p: DictionaryPack| p@),
    {
        Detector { config, packs }
    }

    /// Whether a pack for `language` is loaded.
    pub fn has_language(&self, language: &Language) -> (r: bool)
        ensures
            r == exists|i: int| 0 <= i < self@.packs.len() && (#[trigger] self@.packs[i]).language == language@,
    {
        let mut i: usize = 0;
        while i < self.packs.len()
            invariant
                i <= self.packs@.len(),
                forall|k: int| 0 <= k < i ==> (#[trigger] self@.packs[k]).language != language@,
            decreases self.packs.len() - i,
        {
            if self.packs[i].language().same(language) {
                assert(self@.packs[i as int].language == language@);
                return true;
            }
            i = i + 1;
        }
        false
    }

    fn knows_word(&self, language: &Language, word: &[char]) -> (r: bool)
        ensures
            r == knows(self@, language@, word@),
    {
        let mut i: usize = 0;
        while i < self.packs.len()
            invariant
                i <= self.packs@.len(),
                forall|k: int|
                    0 <= k < i ==> !((#[trigger] self@.packs[k]).language == language@
                        && self@.packs[k].entries.contains(word@)),
            decreases self.packs.len() - i,
        {
            assert(self@.packs[i as int] == self.packs@[i as int]@);
            if self.packs[i].language().same(language) && self.packs[i].knows(word) {
                return true;
            }
            i = i + 1;
        }
        false
    }

    fn knows_lower(&self, language: &Language, word: &[char]) -> (r: bool)
        ensures
            r == knows(self@, language@, unicode_lowercase(word@)),
    {
        self.knows_word(language, &to_lowercase(word))
    }

    /// Whether `c` can continue a word typed while `language` is active.
    pub fn can_extend_word(&self, c: char, language: Language) -> (r: bool)
        ensures
            r == extends_word(c, language@),
    {
        if language.same(&PackId::English) {
            ascii_letter_exec(c) || lookup_key(&key_table(), c, true).is_some()
        } else if language.same(&PackId::Russian) {
            lookup_key(&key_table(), c, false).is_some()
        } else if language.same(&PackId::Estonian) {
            ascii_letter_exec(c) || c == 'õ' || c == 'ä' || c == 'ö' || c == 'ü' || c == 'š'
                || c == 'ž' || c == 'Õ' || c == 'Ä' || c == 'Ö' || c == 'Ü' || c == 'Š' || c == 'Ž'
        } else {
            false
        }
    }

    fn length_ok(&self, word: &[char]) -> (r: bool)
        ensures
            r == length_allowed(self@, word@),
    {
        word.len() >= 2 || (word.len() == 1 && self.config.single_letter_words)
    }

    /// Detection of `word`, typed while `language` was active, through the
    /// built-in key table.
    pub fn detect(&self, word: &[char], language: Language) -> (r: Option<Detection>)
        ensures
            match r {
                Some(d) => detect_spec(self@, word@, language@) == Some(d@),
                None => detect_spec(self@, word@, language@) is None,
            },
    {
        if !self.length_ok(word) || self.knows_lower(&language, word) {
            return None;
        }
        let (target, forward) = if language.same(&PackId::English) {
            (PackId::Russian, true)
        } else if language.same(&PackId::Russian) {
            (PackId::English, false)
        } else {
            return None;
        };
        let mapped = match map_word_exec(word, forward) {
            Some(m) => m,
            None => return None,
        };
        if !self.knows_lower(&target, &mapped) {
            return None;
        }
        Some(Detection {
            source_language: language,
            target_language: target,
            original: string_of(word),
            replacement: string_of(&mapped),
        })
    }

    fn first_fit_exec(
        &self,
        language: &Language,
        candidates: &[(Language, String)],
        only: Option<&Language>,
    ) -> (r: Option<usize>)
        ensures
            match r {
                Some(i) => i < candidates@.len() && first_fit(
                    self@,
                    language@,
                    candidate_views(candidates@),
                    match only { Some(l) => Some(l@), None => None },
                ) == Some(i as int),
                None => first_fit(
                    self@,
                    language@,
                    candidate_views(candidates@),
                    match only { Some(l) => Some(l@), None => None },
                ) is None,
            },
    {
        let ghost cs = candidate_views(candidates@);
        let ghost o: Option<Seq<char>> = match only { Some(l) => Some(l@), None => None };
        let mut i: usize = 0;
        assert(cs.take(0) =~= Seq::<(Seq<char>, Seq<char>)>::empty());
        while i < candidates.len()
            invariant
                i <= candidates@.len(),
                cs == candidate_views(candidates@),
                o == (match only { Some(l) => Some(l@), None => None::<Seq<char>> }),
                first_fit(self@, language@, cs.take(i as int), o) is None,
            decreases candidates.len() - i,
        {
            assert(cs.take(i + 1).drop_last() =~= cs.take(i as int));
            assert(cs.take(i + 1).last() == cs[i as int]);
            let (l, text) = &candidates[i];
            let allowed = match only {
                Some(x) => x.same(l),
                None => true,
            };
            if allowed && !l.same(language) && self.knows_lower(l, &chars_of(text.as_str())) {
                proof {
                    lemma_first_fit_prefix(self@, language@, cs, o, i as int + 1);
                }
                return Some(i);
            }
            i = i + 1;
        }
        assert(cs.take(i as int) =~= cs);
        None
    }

    fn first_other_exec(&self, language: &Language, word: &[char], candidates: &[(Language, String)]) -> (r: Option<usize>)
        ensures
            match r {
                Some(i) => i < candidates@.len() && first_other(language@, word@, candidate_views(candidates@)) == Some(i as int),
                None => first_other(language@, word@, candidate_views(candidates@)) is None,
            },
    {
        let ghost cs = candidate_views(candidates@);
        let mut i: usize = 0;
        assert(cs.take(0) =~= Seq::<(Seq<char>, Seq<char>)>::empty());
        while i < candidates.len()
            invariant
                i <= candidates@.len(),
                cs == candidate_views(candidates@),
                first_other(language@, word@, cs.take(i as int)) is None,
            decreases candidates.len() - i,
        {
            assert(cs.take(i + 1).drop_last() =~= cs.take(i as int));
            assert(cs.take(i + 1).last() == cs[i as int]);
            let (l, text) = &candidates[i];
            if !l.same(language) && !chars_equal(&chars_of(text.as_str()), word) {
                proof {
                    lemma_first_other_prefix(language@, word@, cs, i as int + 1);
                }
                return Some(i);
            }
            i = i + 1;
        }
        assert(cs.take(i as int) =~= cs);
        None
    }

    /// Detection among target strings that a platform adapter mapped from
    /// the same physical keys, preferring the language of the most recent
    /// word.
    pub fn detect_mapped_candidates_in_context(
        &self,
        word: &[char],
        language: Language,
        candidates: &[(Language, String)],
        previous: &[Language],
    ) -> (r: Option<Detection>)
        ensures
            match r {
                Some(d) => detect_in_context_spec(
                    self@,
                    word@,
                    language@,
                    candidate_views(candidates@),
                    language_views(previous@),
                ) == Some(d@),
                None => detect_in_context_spec(
                    self@,
                    word@,
                    language@,
                    candidate_views(candidates@),
                    language_views(previous@),
                ) is None,
            },
    {
        if !self.length_ok(word) || self.knows_lower(&language, word) {
            return None;
        }
        let mut pick: Option<usize> = None;
        if previous.len() > 0 {
            pick = self.first_fit_exec(&language, candidates, Some(&previous[previous.len() - 1]));
        }
        if pick.is_none() {
            pick = self.first_fit_exec(&language, candidates, None);
        }
        match pick {
            None => None,
            Some(i) => Some(Detection {
                source_language: language,
                target_language: candidates[i].0.duplicate(),
                original: string_of(word),
                replacement: candidates[i].1.clone(),
            }),
        }
    }

    /// An explicit conversion of `word` among platform-mapped targets.
    pub fn force_mapped_candidates(&self, word: &[char], language: Language, candidates: &[(Language, String)]) -> (r: Option<Detection>)
        ensures
            match r {
                Some(d) => force_spec(self@, word@, language@, candidate_views(candidates@)) == Some(d@),
                None => force_spec(self@, word@, language@, candidate_views(candidates@)) is None,
            },
    {
        let pick = match self.first_fit_exec(&language, candidates, None) {
            Some(i) => Some(i),
            None => self.first_other_exec(&language, word, candidates),
        };
        match pick {
            None => None,
            Some(i) => Some(Detection {
                source_language: language,
                target_language: candidates[i].0.duplicate(),
                original: string_of(word),
                replacement: candidates[i].1.clone(),
            }),
        }
    }
}

fn ascii_letter_exec(c: char) -> (r: bool)
    ensures
        r == ascii_letter(c),
{
    ('a' <= c && c <= 'z') || ('A' <= c && c <= 'Z')
}

proof fn lemma_first_fit_prefix(
    d: DetectorView,
    language: Seq<char>,
    cs: Seq<(Seq<char>, Seq<char>)>,
    only: Option<Seq<char>>,
    j: int,
)
    requires
        0 <= j <= cs.len(),
        first_fit(d, language, cs.take(j), only) is Some,
    ensures
        first_fit(d, language, cs, only) == first_fit(d, language, cs.take(j), only),
    decreases cs.len() - j,
{
    if j < cs.len() {
        assert(cs.take(j + 1).drop_last() =~= cs.take(j));
        lemma_first_fit_prefix(d, language, cs, only, j + 1);
    } else {
        assert(cs.take(j) =~= cs);
    }
}

proof fn lemma_first_other_prefix(language: Seq<char>, word: Seq<char>, cs: Seq<(Seq<char>, Seq<char>)>, j: int)
    requires
        0 <= j <= cs.len(),
        first_other(language, word, cs.take(j)) is Some,
    ensures
        first_other(language, word, cs) == first_other(language, word, cs.take(j)),
    decreases cs.len() - j,
{
    if j < cs.len() {
        assert(cs.take(j + 1).drop_last() =~= cs.take(j));
        lemma_first_other_prefix(language, word, cs, j + 1);
    } else {
        assert(cs.take(j) =~= cs);
    }
}

/// A word that the dictionary of the active layout knows is never
/// converted automatically, whether by the key table or by platform-mapped
/// candidates; nor is a one-letter word unless the option allows it.
pub proof fn lemma_valid_words_are_never_converted(
    d: DetectorView,
    word: Seq<char>,
    language: Seq<char>,
    cs: Seq<(Seq<char>, Seq<char>)>,
    previous: Seq<Seq<char>>,
)
    requires
        knows(d, language, unicode_lowercase(word)) || (word.len() == 1 && !d.single_letter_words),
    ensures
        detect_spec(d, word, language) is None,
        detect_in_context_spec(d, word, language, cs, previous) is None,
{
}

/// Every detection converts to another language and keeps the typed word as
/// its original.
pub proof fn lemma_detections_change_language(
    d: DetectorView,
    word: Seq<char>,
    language: Seq<char>,
    cs: Seq<(Seq<char>, Seq<char>)>,
    previous: Seq<Seq<char>>,
)
    ensures
        detect_spec(d, word, language) matches Some(r) ==> r.source == language && r.target != language
            && r.original == word,
        detect_in_context_spec(d, word, language, cs, previous) matches Some(r) ==> r.source == language
            && r.target != language && r.original == word,
{
    if detect_in_context_spec(d, word, language, cs, previous) is Some {
        if previous.len() > 0 && first_fit(d, language, cs, Some(previous.last())) is Some {
            lemma_first_fit_fits(d, language, cs, Some(previous.last()));
        } else {
            lemma_first_fit_fits(d, language, cs, None);
        }
    }
}

proof fn lemma_first_fit_fits(d: DetectorView, language: Seq<char>, cs: Seq<(Seq<char>, Seq<char>)>, only: Option<Seq<char>>)
    ensures
        first_fit(d, language, cs, only) matches Some(i) ==> 0 <= i < cs.len() && candidate_fits(d, language, cs[i]),
    decreases cs.len(),
{
    if cs.len() > 0 {
        lemma_first_fit_fits(d, language, cs.drop_last(), only);
    }
}

} // verus!
