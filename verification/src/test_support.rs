//! Small multilingual fixture dictionaries for exercising the detector and
//! the input session: English, Russian and Estonian packs with a handful of
//! words each.

use vstd::prelude::*;

use crate::detector::{lower_entries, Detector, DetectorConfig, DictionaryPack, PackView};
use crate::pack_id::PackId;
use crate::privacy::str_views;

verus! {

/// The English fixture words of two letters or more.
pub open spec fn english_words() -> Seq<Seq<char>> {
    seq![
        "hello"@, "world"@, "word"@, "the"@, "and"@, "tree"@, "test"@, "layout"@, "keyboard"@, "typing"@,
    ]
}

/// The English fixture's short words.
pub open spec fn english_short_words() -> Seq<Seq<char>> {
    seq!["a"@, "i"@, "to"@, "of"@, "in"@, "is"@, "it"@]
}

/// The Russian fixture words of two letters or more.
pub open spec fn russian_words() -> Seq<Seq<char>> {
    seq!["привет"@, "переключение"@, "работает"@, "мир"@, "слово"@, "клавиатура"@, "раскладка"@]
}

/// The Russian fixture's short words.
pub open spec fn russian_short_words() -> Seq<Seq<char>> {
    seq!["не"@, "и"@, "в"@, "на"@, "я"@, "он"@]
}

/// The Estonian fixture words of two letters or more.
pub open spec fn estonian_words() -> Seq<Seq<char>> {
    seq!["tere"@, "maailm"@, "sõna"@, "klaviatuur"@, "paigutus"@]
}

/// The Estonian fixture's short words.
pub open spec fn estonian_short_words() -> Seq<Seq<char>> {
    seq!["ja"@, "on"@, "ei"@, "ma"@]
}

/// The pack `DictionaryPack::from_words` builds from a fixture's lists.
pub open spec fn fixture_pack(language: Seq<char>, words: Seq<Seq<char>>, short_words: Seq<Seq<char>>) -> PackView {
    PackView { language, entries: lower_entries(words, 2) + lower_entries(short_words, 1) }
}

/// The three fixture packs, in order.
pub open spec fn fixture_packs() -> Seq<PackView> {
    seq![
        fixture_pack(PackId::English@, english_words(), english_short_words()),
        fixture_pack(PackId::Russian@, russian_words(), russian_short_words()),
        fixture_pack(PackId::Estonian@, estonian_words(), estonian_short_words()),
    ]
}

fn english_pack() -> (r: DictionaryPack)
    ensures
        r@ == fixture_pack(PackId::English@, english_words(), english_short_words()),
{
    let words: [&str; 10] = ["hello", "world", "word", "the", "and", "tree", "test", "layout", "keyboard", "typing"];
    let short: [&str; 7] = ["a", "i", "to", "of", "in", "is", "it"];
    assert(str_views(words@) =~= english_words());
    assert(str_views(short@) =~= english_short_words());
    DictionaryPack::from_words(PackId::English, &words, &short)
}

fn russian_pack() -> (r: DictionaryPack)
    ensures
        r@ == fixture_pack(PackId::Russian@, russian_words(), russian_short_words()),
{
    let words: [&str; 7] = ["привет", "переключение", "работает", "мир", "слово", "клавиатура", "раскладка"];
    let short: [&str; 6] = ["не", "и", "в", "на", "я", "он"];
    assert(str_views(words@) =~= russian_words());
    assert(str_views(short@) =~= russian_short_words());
    DictionaryPack::from_words(PackId::Russian, &words, &short)
}

fn estonian_pack() -> (r: DictionaryPack)
    ensures
        r@ == fixture_pack(PackId::Estonian@, estonian_words(), estonian_short_words()),
{
    let words: [&str; 5] = ["tere", "maailm", "sõna", "klaviatuur", "paigutus"];
    let short: [&str; 4] = ["ja", "on", "ei", "ma"];
    assert(str_views(words@) =~= estonian_words());
    assert(str_views(short@) =~= estonian_short_words());
    DictionaryPack::from_words(PackId::Estonian, &words, &short)
}

/// A detector over the English, Russian and Estonian fixtures, in that
/// order, with the given options.
pub fn configured_detector(config: DetectorConfig) -> (r: Detector)
    ensures
        r@.single_letter_words == config.single_letter_words,
        r@.packs == fixture_packs(),
{
    let packs = vec![english_pack(), russian_pack(), estonian_pack()];
    let r = Detector::new(config, packs);
    assert(r@.packs =~= fixture_packs());
    r
}

/// The fixture detector with default options.
pub fn detector() -> (r: Detector)
    ensures
        !r@.single_letter_words,
        r@.packs == fixture_packs(),
{
    configured_detector(DetectorConfig { single_letter_words: false })
}

} // verus!
