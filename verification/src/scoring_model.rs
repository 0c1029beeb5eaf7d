//! Bounded, immutable scoring data of a language pack: the character
//! repertoire and optional linguistic evidence. A document is parsed
//! elsewhere; this module validates it and answers repertoire questions.

use vstd::prelude::*;
use vstd::relations::{sorted_by, total_ordering};

use crate::text::{char_from_u32, chars_of, lemma_text_le_props, scalar, text_le, text_le_chars, text_leq, to_lowercase, unicode_lowercase};

verus! {

/// Which optional evidence a model uses. Disabling a feature removes both
/// its bonus and its penalty; it never grants input support.
#[derive(Debug, Clone, Copy, PartialEq, Eq)]
pub struct ScoringPolicy {
    pub bigrams: bool,
    pub trigrams: bool,
    pub vowels: bool,
    pub statistical_targets: bool,
}

impl ScoringPolicy {
    /// The policy of format 1 documents: everything on.
    pub fn legacy() -> (r: ScoringPolicy)
        ensures
            r == (ScoringPolicy { bigrams: true, trigrams: true, vowels: true, statistical_targets: true }),
    {
        ScoringPolicy { bigrams: true, trigrams: true, vowels: true, statistical_targets: true }
    }
}

#[derive(Debug, Clone, Copy, PartialEq, Eq)]
pub enum ScoringModelError {
    InvalidData,
    LimitExceeded,
}

impl ScoringModelError {
    /// The diagnostic name of the error.
    pub fn describe(&self) -> (r: &'static str)
        ensures
            r@ == match *self {
                ScoringModelError::InvalidData => "scoring_model_InvalidData"@,
                ScoringModelError::LimitExceeded => "scoring_model_LimitExceeded"@,
            },
    {
        match self {
            ScoringModelError::InvalidData => "scoring_model_InvalidData",
            ScoringModelError::LimitExceeded => "scoring_model_LimitExceeded",
        }
    }
}

/// The largest scoring document, in bytes.
pub const MAX_DOCUMENT_BYTES: usize = 65536;

/// A document longer than `MAX_DOCUMENT_BYTES` is refused before parsing.
pub fn admit_document_size(byte_len: usize) -> (r: Result<(), ScoringModelError>)
    ensures
        r is Err <==> byte_len > MAX_DOCUMENT_BYTES,
        r is Err ==> r == Err::<(), ScoringModelError>(ScoringModelError::LimitExceeded),
{
    if byte_len > MAX_DOCUMENT_BYTES {
        Err(ScoringModelError::LimitExceeded)
    } else {
        Ok(())
    }
}

/// Formats 1 to 4 are known; a document of any other format is invalid.
pub fn known_format(format: u32) -> (r: bool)
    ensures
        r == (1 <= format <= 4),
{
    1 <= format && format <= 4
}

/// A parsed scoring document of any format: format 1 has the legacy policy
/// and no letters or marks, format 4 has letters and no ranges.
#[derive(Debug, Clone)]
pub struct ModelDocument {
    pub format: u32,
    pub ranges: Vec<(char, char)>,
    pub letters: String,
    pub marks: String,
    pub vowels: String,
    pub bigrams: Vec<String>,
    pub trigrams: Vec<String>,
    pub rare: Vec<String>,
    pub policy: ScoringPolicy,
}

pub struct DocView {
    pub format: u32,
    pub ranges: Seq<(char, char)>,
    pub letters: Seq<char>,
    pub marks: Seq<char>,
    pub vowels: Seq<char>,
    pub bigrams: Seq<Seq<char>>,
    pub trigrams: Seq<Seq<char>>,
    pub rare: Seq<Seq<char>>,
    pub policy: ScoringPolicy,
}

pub open spec fn string_views(v: Seq<String>) -> Seq<Seq<char>> {
    v.map_values(|s: String| s@)
}

impl View for ModelDocument {
    type V = DocView;

    open spec fn view(&self) -> DocView {
        DocView {
            format: self.format,
            ranges: self.ranges@,
            letters: self.letters@,
            marks: self.marks@,
            vowels: self.vowels@,
            bigrams: string_views(self.bigrams@),
            trigrams: string_views(self.trigrams@),
            rare: string_views(self.rare@),
            policy: self.policy,
        }
    }
}

/// Whether `char::is_alphabetic` holds of `c` (the Unicode `Alphabetic`
/// property).
pub uninterp spec fn unicode_alphabetic(c: char) -> bool;

/// Calls `char::is_alphabetic`; its result is named by `unicode_alphabetic`.
#[verifier::external_body]
fn is_alphabetic(c: char) -> (r: bool)
    ensures
        r == unicode_alphabetic(c),
{
    c.is_alphabetic()
}

/// The general category of `c` as `unicode_general_category` gives it, by
/// the variant's position in the declaration of `GeneralCategory`
/// (`ClosePunctuation` is 0, `UppercaseLetter` is 29).
pub uninterp spec fn general_category(c: char) -> u8;

/// Calls `unicode_general_category::get_general_category`; the variant's
/// position is named by `general_category`.
#[verifier::external_body]
fn general_category_code(c: char) -> (r: u8)
    ensures
        r == general_category(c),
        r < 30,
{
    unicode_general_category::get_general_category(c) as u8
}

/// The positions of `EnclosingMark` (`Me`), `NonspacingMark` (`Mn`) and
/// `SpacingMark` (`Mc`).
pub open spec fn mark_code(code: u8) -> bool {
    code == 6 || code == 16 || code == 25
}

/// Whether the general category of `c` is a combining mark: `Mn`, `Mc` or
/// `Me`.
pub open spec fn mark_category(c: char) -> bool {
    mark_code(general_category(c))
}

fn is_mark(c: char) -> (r: bool)
    ensures
        r == mark_category(c),
{
    let code = general_category_code(c);
    code == 6 || code == 16 || code == 25
}

/// Lower case maps `c` to itself alone.
pub open spec fn lower_fixed(c: char) -> bool {
    unicode_lowercase(seq![c]) == seq![c]
}

fn is_lower_fixed(c: char) -> (r: bool)
    ensures
        r == lower_fixed(c),
{
    let v = vec![c];
    let l = to_lowercase(&v);
    assert(v@ =~= seq![c]);
    l.len() == 1 && l[0] == c && {
        assert(l@ =~= seq![c]);
        true
    }
}

/// The UTF-8 length of a character, as `char::len_utf8` gives it.
pub open spec fn utf8_width(c: char) -> nat {
    if (c as u32) < 0x80 {
        1
    } else if (c as u32) < 0x800 {
        2
    } else if (c as u32) < 0x10000 {
        3
    } else {
        4
    }
}

/// The UTF-8 length of a text, as `str::len` gives it.
pub open spec fn utf8_len(s: Seq<char>) -> nat
    decreases s.len(),
{
    if s.len() == 0 {
        0
    } else {
        utf8_len(s.drop_last()) + utf8_width(s.last())
    }
}

/// Whether the UTF-8 length of `s` exceeds `limit`.
fn utf8_len_exceeds(s: &[char], limit: usize) -> (r: bool)
    ensures
        r == (utf8_len(s@) > limit),
{
    let mut total: usize = 0;
    let mut i: usize = 0;
    assert(s@.take(0) =~= Seq::<char>::empty());
    while i < s.len()
        invariant
            i <= s@.len(),
            total == utf8_len(s@.take(i as int)),
            total <= limit,
        decreases s.len() - i,
    {
        assert(s@.take(i + 1).drop_last() =~= s@.take(i as int));
        let c = s[i];
        let u = c as u32;
        let w: usize = if u < 0x80 {
            1
        } else if u < 0x800 {
            2
        } else if u < 0x10000 {
            3
        } else {
            4
        };
        if w > limit - total {
            proof {
                lemma_utf8_len_grows(s@, i as int + 1);
            }
            return true;
        }
        total = total + w;
        i = i + 1;
    }
    assert(s@.take(s@.len() as int) =~= s@);
    false
}

proof fn lemma_utf8_len_grows(s: Seq<char>, j: int)
    requires
        0 <= j <= s.len(),
    ensures
        utf8_len(s.take(j)) <= utf8_len(s),
    decreases s.len() - j,
{
    if j < s.len() {
        assert(s.take(j + 1).drop_last() =~= s.take(j));
        lemma_utf8_len_grows(s, j + 1);
    } else {
        assert(s.take(j) =~= s);
    }
}

/// A letter of a sparse repertoire: alphabetic, not a mark, lower case.
pub open spec fn letter_ok(c: char) -> bool {
    unicode_alphabetic(c) && !mark_category(c) && lower_fixed(c)
}

/// An explicit continuation mark: a mark in lower case.
pub open spec fn mark_ok(c: char) -> bool {
    mark_category(c) && lower_fixed(c)
}

/// A character of a range: alphabetic and lower case; format 3 also
/// refuses marks in ranges.
pub open spec fn range_char_ok(c: char, format: u32) -> bool {
    unicode_alphabetic(c) && lower_fixed(c) && !(format == 3 && mark_category(c))
}

pub open spec fn range_chars_ok(start: char, end: char, format: u32) -> bool {
    forall|c: char| start <= c <= end ==> #[trigger] range_char_ok(c, format)
}

/// Pairs ordered by start, then end.
pub open spec fn range_leq() -> spec_fn((char, char), (char, char)) -> bool {
    |a: (char, char), b: (char, char)| a.0 < b.0 || (a.0 == b.0 && a.1 <= b.1)
}

/// Sorted ranges in order: each non-empty and after the previous one, at
/// most 65536 characters together, and each character acceptable.
pub open spec fn ranges_check(rs: Seq<(char, char)>, format: u32, i: int, total: int, prev: Option<char>) -> Result<(), ScoringModelError>
    decreases rs.len() - i,
{
    if i < 0 || i >= rs.len() {
        Ok(())
    } else {
        let (s, e) = rs[i];
        if s > e || (prev is Some && s <= prev->0) {
            Err(ScoringModelError::InvalidData)
        } else if total + (e as u32 - s as u32 + 1) > 65536 {
            Err(ScoringModelError::LimitExceeded)
        } else if !range_chars_ok(s, e, format) {
            Err(ScoringModelError::InvalidData)
        } else {
            ranges_check(rs, format, i + 1, total + (e as u32 - s as u32 + 1), Some(e))
        }
    }
}

/// Whether a model with this repertoire accepts `c`.
pub open spec fn repertoire_accepts(letters: Seq<char>, marks: Seq<char>, ranges: Seq<(char, char)>, c: char) -> bool {
    marks.contains(c) || letters.contains(c) || exists|i: int|
        0 <= i < ranges.len() && (#[trigger] ranges[i]).0 <= c && c <= ranges[i].1
}

/// A list of n-grams or rare sequences: each of `min..=max` characters, in
/// lower case, accepted, and each once.
pub open spec fn list_ok(
    list: Seq<Seq<char>>,
    min: nat,
    max: nat,
    letters: Seq<char>,
    marks: Seq<char>,
    ranges: Seq<(char, char)>,
) -> bool {
    &&& list.no_duplicates()
    &&& forall|k: int|
        0 <= k < list.len() ==> min <= (#[trigger] list[k]).len() <= max && unicode_lowercase(list[k])
            == list[k] && forall|j: int|
            0 <= j < list[k].len() ==> repertoire_accepts(letters, marks, ranges, #[trigger] list[k][j])
}

/// The policy contradicts the data, or asks for statistical targets without
/// any n-gram evidence.
pub open spec fn policy_inconsistent(d: DocView) -> bool {
    let p = d.policy;
    (!p.bigrams && d.bigrams.len() > 0) || (!p.trigrams && d.trigrams.len() > 0) || (!p.vowels
        && d.vowels.len() > 0) || (p.bigrams && d.bigrams.len() == 0) || (p.trigrams && d.trigrams.len()
        == 0) || (p.vowels && d.vowels.len() == 0) || (p.statistical_targets && !p.bigrams
        && !p.trigrams)
}

pub open spec fn over_limits(d: DocView) -> bool {
    d.ranges.len() > 64 || utf8_len(d.letters) > 32 * 1024 || utf8_len(d.marks) > 1024 || utf8_len(
        d.vowels,
    ) > 256 || d.bigrams.len() > 512 || d.trigrams.len() > 512 || d.rare.len() > 128
}

pub open spec fn vowels_bad(d: DocView, ranges: Seq<(char, char)>) -> bool {
    (exists|k: int| 0 <= k < d.vowels.len() && !repertoire_accepts(d.letters, d.marks, ranges, #[trigger] d.vowels[k]))
        || unicode_lowercase(d.vowels) != d.vowels
}

/// What validating a document with the given header format gives: the
/// first failing check, in order, or the model's sorted ranges.
pub open spec fn validate(header: u32, d: DocView) -> Result<Seq<(char, char)>, ScoringModelError> {
    let sorted = d.ranges.sort_by(range_leq());
    if d.format != header || (d.ranges.len() == 0 && d.letters.len() == 0) {
        Err(ScoringModelError::InvalidData)
    } else if header >= 2 && policy_inconsistent(d) {
        Err(ScoringModelError::InvalidData)
    } else if over_limits(d) {
        Err(ScoringModelError::LimitExceeded)
    } else if !d.letters.no_duplicates() || exists|k: int| 0 <= k < d.letters.len() && !letter_ok(#[trigger] d.letters[k]) {
        Err(ScoringModelError::InvalidData)
    } else if !d.marks.no_duplicates() || exists|k: int| 0 <= k < d.marks.len() && !mark_ok(#[trigger] d.marks[k]) {
        Err(ScoringModelError::InvalidData)
    } else if ranges_check(sorted, header, 0, 0, None) is Err {
        Err(ranges_check(sorted, header, 0, 0, None)->Err_0)
    } else if vowels_bad(d, sorted) {
        Err(ScoringModelError::InvalidData)
    } else if !list_ok(d.bigrams, 2, 2, d.letters, d.marks, sorted) || !list_ok(d.trigrams, 3, 3, d.letters, d.marks, sorted)
        || !list_ok(d.rare, 2, 8, d.letters, d.marks, sorted) {
        Err(ScoringModelError::InvalidData)
    } else if !d.vowels.no_duplicates() {
        Err(ScoringModelError::InvalidData)
    } else {
        Ok(sorted)
    }
}

/// Validated scoring data. Repertoire queries take a lower-case scalar.
#[derive(Debug, Clone, PartialEq, Eq)]
pub struct ScoringModel {
    ranges: Vec<(char, char)>,
    letters: Vec<char>,
    marks: Vec<char>,
    vowels: Vec<char>,
    bigrams: Vec<String>,
    trigrams: Vec<String>,
    rare: Vec<String>,
    policy: ScoringPolicy,
}

pub struct ModelView {
    pub ranges: Seq<(char, char)>,
    pub letters: Seq<char>,
    pub marks: Seq<char>,
    pub vowels: Seq<char>,
    pub bigrams: Seq<Seq<char>>,
    pub trigrams: Seq<Seq<char>>,
    pub rare: Seq<Seq<char>>,
    pub policy: ScoringPolicy,
}

impl View for ScoringModel {
    type V = ModelView;

    closed spec fn view(&self) -> ModelView {
        ModelView {
            ranges: self.ranges@,
            letters: self.letters@,
            marks: self.marks@,
            vowels: self.vowels@,
            bigrams: string_views(self.bigrams@),
            trigrams: string_views(self.trigrams@),
            rare: string_views(self.rare@),
            policy: self.policy,
        }
    }
}

fn distinct_chars(v: &[char]) -> (r: bool)
    ensures
        r == v@.no_duplicates(),
{
    let mut i: usize = 0;
    while i < v.len()
        invariant
            i <= v@.len(),
            forall|a: int, b: int| 0 <= a < b < v@.len() && a < i ==> v@[a] != v@[b],
        decreases v.len() - i,
    {
        let mut j: usize = i + 1;
        while j < v.len()
            invariant
                i < v@.len(),
                i + 1 <= j <= v@.len(),
                forall|a: int, b: int| 0 <= a < b < v@.len() && a < i ==> v@[a] != v@[b],
                forall|b: int| i < b < j ==> v@[i as int] != v@[b],
            decreases v.len() - j,
        {
            if v[i] == v[j] {
                return false;
            }
            j = j + 1;
        }
        i = i + 1;
    }
    true
}

fn distinct_strings(v: &[String]) -> (r: bool)
    ensures
        r == string_views(v@).no_duplicates(),
{
    let ghost sv = string_views(v@);
    let mut i: usize = 0;
    while i < v.len()
        invariant
            i <= v@.len(),
            sv == string_views(v@),
            forall|a: int, b: int| 0 <= a < b < sv.len() && a < i ==> sv[a] != sv[b],
        decreases v.len() - i,
    {
        let mut j: usize = i + 1;
        while j < v.len()
            invariant
                i < v@.len(),
                i + 1 <= j <= v@.len(),
                sv == string_views(v@),
                forall|a: int, b: int| 0 <= a < b < sv.len() && a < i ==> sv[a] != sv[b],
                forall|b: int| i < b < j ==> sv[i as int] != sv[b],
            decreases v.len() - j,
        {
            if crate::text::chars_equal(&chars_of(v[i].as_str()), &chars_of(v[j].as_str())) {
                assert(sv[i as int] == v@[i as int]@ && sv[j as int] == v@[j as int]@);
                return false;
            }
            j = j + 1;
        }
        i = i + 1;
    }
    true
}

fn all_letters_ok(v: &[char]) -> (r: bool)
    ensures
        r == forall|k: int| 0 <= k < v@.len() ==> letter_ok(#[trigger] v@[k]),
{
    let mut i: usize = 0;
    while i < v.len()
        invariant
            i <= v@.len(),
            forall|k: int| 0 <= k < i ==> letter_ok(#[trigger] v@[k]),
        decreases v.len() - i,
    {
        let c = v[i];
        if !(is_alphabetic(c) && !is_mark(c) && is_lower_fixed(c)) {
            assert(!letter_ok(v@[i as int]));
            return false;
        }
        i = i + 1;
    }
    true
}

fn all_marks_ok(v: &[char]) -> (r: bool)
    ensures
        r == forall|k: int| 0 <= k < v@.len() ==> mark_ok(#[trigger] v@[k]),
{
    let mut i: usize = 0;
    while i < v.len()
        invariant
            i <= v@.len(),
            forall|k: int| 0 <= k < i ==> mark_ok(#[trigger] v@[k]),
        decreases v.len() - i,
    {
        let c = v[i];
        if !(is_mark(c) && is_lower_fixed(c)) {
            assert(!mark_ok(v@[i as int]));
            return false;
        }
        i = i + 1;
    }
    true
}

proof fn lemma_range_leq_total()
    ensures
        total_ordering(range_leq()),
{
    let ghost leq = range_leq();
    assert forall|a: (char, char), b: (char, char)| #[trigger] leq(a, b) && #[trigger] leq(b, a) implies a == b by {
        assert(a.0 == b.0 && a.1 == b.1);
    }
}

fn leq_pair(a: (char, char), b: (char, char)) -> (r: bool)
    ensures
        r == (range_leq())(a, b),
{
    a.0 < b.0 || (a.0 == b.0 && a.1 <= b.1)
}

/// The ranges sorted by start, then end, as `sort_unstable` orders them.
fn sort_ranges(v: &Vec<(char, char)>) -> (r: Vec<(char, char)>)
    ensures
        r@ == v@.sort_by(range_leq()),
{
    let ghost leq = range_leq();
    let mut out: Vec<(char, char)> = Vec::new();
    let mut i: usize = 0;
    proof {
        lemma_range_leq_total();
    }
    assert(v@.take(0) =~= Seq::<(char, char)>::empty());
    while i < v.len()
        invariant
            i <= v@.len(),
            leq == range_leq(),
            total_ordering(leq),
            sorted_by(out@, leq),
            out@.to_multiset() == v@.take(i as int).to_multiset(),
        decreases v.len() - i,
    {
        let x = v[i];
        let mut p: usize = 0;
        while p < out.len() && leq_pair(out[p], x)
            invariant
                p <= out@.len(),
                leq == range_leq(),
                forall|k: int| 0 <= k < p ==> leq(#[trigger] out@[k], x),
            decreases out.len() - p,
        {
            p = p + 1;
        }
        let ghost before = out@;
        out.insert(p, x);
        proof {
            assert(out@ == before.insert(p as int, x));
            vstd::seq_lib::to_multiset_insert(before, p as int, x);
            assert(v@.take(i + 1) =~= v@.take(i as int).push(x));
            vstd::seq_lib::to_multiset_build(v@.take(i as int), x);
            assert forall|a: int, b: int| 0 <= a < b < out@.len() implies #[trigger] leq(out@[a], out@[b]) by {
                if b < p {
                    assert(out@[a] == before[a] && out@[b] == before[b]);
                } else if b == p {
                    assert(out@[a] == before[a]);
                } else if a < p {
                    assert(out@[a] == before[a] && out@[b] == before[b - 1]);
                    assert(leq(before[a], x));
                    assert(!leq(before[p as int], x));
                    assert(leq(x, before[p as int]));
                    assert(leq(before[p as int], before[b - 1]) || p as int == b - 1);
                } else if a == p {
                    assert(out@[b] == before[b - 1]);
                    assert(!leq(before[p as int], x));
                    assert(leq(x, before[p as int]));
                    assert(leq(before[p as int], before[b - 1]) || p as int == b - 1);
                } else {
                    assert(out@[a] == before[a - 1] && out@[b] == before[b - 1]);
                }
            }
        }
        i = i + 1;
    }
    proof {
        assert(v@.take(v@.len() as int) =~= v@);
        v@.lemma_sort_by_ensures(leq);
        vstd::seq_lib::lemma_sorted_unique(out@, v@.sort_by(leq), leq);
    }
    out
}


/// Characters by code point, as `char`'s order is.
pub open spec fn char_leq() -> spec_fn(char, char) -> bool {
    |a: char, b: char| a <= b
}

proof fn lemma_orders_total()
    ensures
        total_ordering(char_leq()),
        total_ordering(text_leq()),
{
    let t = text_leq();
    assert forall|x: Seq<char>| #[trigger] t(x, x) by {
        lemma_text_le_props(x, x, x);
    }
    assert forall|x: Seq<char>, y: Seq<char>| #[trigger] t(x, y) && #[trigger] t(y, x) implies x == y by {
        lemma_text_le_props(x, y, y);
    }
    assert forall|x: Seq<char>, y: Seq<char>, z: Seq<char>| #[trigger] t(x, y) && #[trigger] t(y, z) implies t(x, z) by {
        lemma_text_le_props(x, y, z);
    }
    assert forall|x: Seq<char>, y: Seq<char>| #[trigger] t(x, y) || #[trigger] t(y, x) by {
        lemma_text_le_props(x, y, y);
    }
}

fn text_le_exec(a: &String, b: &String) -> (r: bool)
    ensures
        r == text_le(a@, b@),
{
    text_le_chars(&chars_of(a.as_str()), &chars_of(b.as_str()))
}

/// Sorting keeps the elements, and keeps them distinct.
proof fn lemma_sorted_elements<A>(s: Seq<A>, leq: spec_fn(A, A) -> bool)
    requires
        total_ordering(leq),
    ensures
        forall|x: A| #[trigger] s.sort_by(leq).contains(x) <==> s.contains(x),
        s.sort_by(leq).len() == s.len(),
        s.no_duplicates() ==> s.sort_by(leq).no_duplicates(),
{
    broadcast use vstd::seq_lib::group_to_multiset_ensures;

    s.lemma_sort_by_ensures(leq);
    let t = s.sort_by(leq);
    assert forall|x: A| #[trigger] t.contains(x) <==> s.contains(x) by {
        assert(t.to_multiset().count(x) == s.to_multiset().count(x));
    }
    assert(t.len() == s.len()) by {
        assert(t.to_multiset().len() == s.to_multiset().len());
    }
    if s.no_duplicates() {
        s.lemma_multiset_has_no_duplicates();
        t.lemma_multiset_has_no_duplicates_conv();
    }
}

/// What every validated model holds: its vowels are in its repertoire;
/// its bigrams have two characters, its trigrams three and its rare
/// sequences two to eight, each distinct, in lower case and in the
/// repertoire.
pub open spec fn model_consistent(m: ModelView) -> bool {
    &&& forall|k: int| 0 <= k < m.vowels.len() ==> repertoire_accepts(m.letters, m.marks, m.ranges, #[trigger] m.vowels[k])
    &&& list_ok(m.bigrams, 2, 2, m.letters, m.marks, m.ranges)
    &&& list_ok(m.trigrams, 3, 3, m.letters, m.marks, m.ranges)
    &&& list_ok(m.rare, 2, 8, m.letters, m.marks, m.ranges)
}

/// An explicit policy names exactly the evidence present, and statistical
/// targets need n-grams.
pub open spec fn policy_matches(m: ModelView) -> bool {
    &&& m.policy.bigrams == (m.bigrams.len() > 0)
    &&& m.policy.trigrams == (m.trigrams.len() > 0)
    &&& m.policy.vowels == (m.vowels.len() > 0)
    &&& m.policy.statistical_targets ==> m.policy.bigrams || m.policy.trigrams
}

proof fn lemma_accepts_sorted(d: DocView, ranges: Seq<(char, char)>, c: char)
    requires
        total_ordering(char_leq()),
    ensures
        repertoire_accepts(d.letters.sort_by(char_leq()), d.marks.sort_by(char_leq()), ranges, c)
            == repertoire_accepts(d.letters, d.marks, ranges, c),
{
    lemma_sorted_elements(d.letters, char_leq());
    lemma_sorted_elements(d.marks, char_leq());
    assert(d.letters.sort_by(char_leq()).contains(c) == d.letters.contains(c));
    assert(d.marks.sort_by(char_leq()).contains(c) == d.marks.contains(c));
}

proof fn lemma_list_sorted(d: DocView, ranges: Seq<(char, char)>, list: Seq<Seq<char>>, min: nat, max: nat)
    requires
        total_ordering(char_leq()),
        total_ordering(text_leq()),
        list_ok(list, min, max, d.letters, d.marks, ranges),
    ensures
        list_ok(
            list.sort_by(text_leq()),
            min,
            max,
            d.letters.sort_by(char_leq()),
            d.marks.sort_by(char_leq()),
            ranges,
        ),
{
    let t = list.sort_by(text_leq());
    lemma_sorted_elements(list, text_leq());
    assert forall|k: int| 0 <= k < t.len() implies min <= (#[trigger] t[k]).len() <= max && unicode_lowercase(t[k])
        == t[k] && forall|j: int|
        0 <= j < t[k].len() ==> repertoire_accepts(
            d.letters.sort_by(char_leq()),
            d.marks.sort_by(char_leq()),
            ranges,
            #[trigger] t[k][j],
        ) by {
        assert(t.contains(t[k]));
        let i = choose|i: int| 0 <= i < list.len() && list[i] == t[k];
        assert forall|j: int| 0 <= j < t[k].len() implies repertoire_accepts(
            d.letters.sort_by(char_leq()),
            d.marks.sort_by(char_leq()),
            ranges,
            #[trigger] t[k][j],
        ) by {
            assert(repertoire_accepts(d.letters, d.marks, ranges, list[i][j]));
            lemma_accepts_sorted(d, ranges, t[k][j]);
        }
    }
}

/// A document that validates gives a consistent model, and for formats 2
/// and later one whose policy matches its evidence.
pub proof fn lemma_validated_model(header: u32, d: DocView, ranges: Seq<(char, char)>)
    requires
        validate(header, d) == Ok::<Seq<(char, char)>, ScoringModelError>(ranges),
    ensures
        ({
            let m = ModelView {
                ranges,
                letters: d.letters.sort_by(char_leq()),
                marks: d.marks.sort_by(char_leq()),
                vowels: d.vowels.sort_by(char_leq()),
                bigrams: d.bigrams.sort_by(text_leq()),
                trigrams: d.trigrams.sort_by(text_leq()),
                rare: d.rare.sort_by(text_leq()),
                policy: d.policy,
            };
            &&& model_consistent(m)
            &&& header >= 2 ==> policy_matches(m)
        }),
{
    lemma_orders_total();
    let vs = d.vowels.sort_by(char_leq());
    lemma_sorted_elements(d.vowels, char_leq());
    lemma_sorted_elements(d.bigrams, text_leq());
    lemma_sorted_elements(d.trigrams, text_leq());
    assert forall|k: int| 0 <= k < vs.len() implies repertoire_accepts(
        d.letters.sort_by(char_leq()),
        d.marks.sort_by(char_leq()),
        ranges,
        #[trigger] vs[k],
    ) by {
        assert(vs.contains(vs[k]));
        let i = choose|i: int| 0 <= i < d.vowels.len() && d.vowels[i] == vs[k];
        assert(repertoire_accepts(d.letters, d.marks, ranges, d.vowels[i]));
        lemma_accepts_sorted(d, ranges, vs[k]);
    }
    lemma_list_sorted(d, ranges, d.bigrams, 2, 2);
    lemma_list_sorted(d, ranges, d.trigrams, 3, 3);
    lemma_list_sorted(d, ranges, d.rare, 2, 8);
    lemma_sorted_elements(d.rare, text_leq());
}

/// The characters in increasing order.
fn sort_chars(v: &Vec<char>) -> (r: Vec<char>)
    ensures
        r@ == v@.sort_by(char_leq()),
{
    let ghost leq = char_leq();
    let mut out: Vec<char> = Vec::new();
    let mut i: usize = 0;
    proof {
        lemma_orders_total();
    }
    assert(v@.take(0) =~= Seq::<char>::empty());
    while i < v.len()
        invariant
            i <= v@.len(),
            leq == char_leq(),
            total_ordering(leq),
            sorted_by(out@, leq),
            out@.to_multiset() == v@.take(i as int).to_multiset(),
        decreases v.len() - i,
    {
        let x = v[i];
        let mut p: usize = 0;
        while p < out.len() && out[p] <= x
            invariant
                p <= out@.len(),
                leq == char_leq(),
                forall|k: int| 0 <= k < p ==> leq(#[trigger] out@[k], x),
            decreases out.len() - p,
        {
            p = p + 1;
        }
        let ghost before = out@;
        out.insert(p, x);
        proof {
            assert(out@ == before.insert(p as int, x));
            vstd::seq_lib::to_multiset_insert(before, p as int, x);
            assert(v@.take(i + 1) =~= v@.take(i as int).push(x));
            vstd::seq_lib::to_multiset_build(v@.take(i as int), x);
            assert forall|a: int, b: int| 0 <= a < b < out@.len() implies #[trigger] leq(out@[a], out@[b]) by {
                if b < p {
                    assert(out@[a] == before[a] && out@[b] == before[b]);
                } else if b == p {
                    assert(out@[a] == before[a]);
                } else if a < p {
                    assert(out@[a] == before[a] && out@[b] == before[b - 1]);
                    assert(leq(before[a], x));
                    assert(leq(before[p as int], before[b - 1]) || p as int == b - 1);
                } else if a == p {
                    assert(out@[b] == before[b - 1]);
                    assert(leq(before[p as int], before[b - 1]) || p as int == b - 1);
                } else {
                    assert(out@[a] == before[a - 1] && out@[b] == before[b - 1]);
                }
            }
        }
        i = i + 1;
    }
    proof {
        assert(v@.take(v@.len() as int) =~= v@);
        v@.lemma_sort_by_ensures(leq);
        vstd::seq_lib::lemma_sorted_unique(out@, v@.sort_by(leq), leq);
    }
    out
}

/// The strings in increasing lexicographic order.
fn sort_strings(v: Vec<String>) -> (r: Vec<String>)
    ensures
        string_views(r@) == string_views(v@).sort_by(text_leq()),
{
    let ghost leq = text_leq();
    let ghost sv = string_views(v@);
    let mut out: Vec<String> = Vec::new();
    let mut i: usize = 0;
    proof {
        lemma_orders_total();
    }
    assert(sv.take(0) =~= Seq::<Seq<char>>::empty());
    assert(string_views(out@) =~= Seq::<Seq<char>>::empty());
    while i < v.len()
        invariant
            i <= v@.len(),
            sv == string_views(v@),
            leq == text_leq(),
            total_ordering(leq),
            sorted_by(string_views(out@), leq),
            string_views(out@).to_multiset() == sv.take(i as int).to_multiset(),
        decreases v.len() - i,
    {
        let x = v[i].clone();
        assert(x@ == sv[i as int]);
        let mut p: usize = 0;
        while p < out.len() && text_le_exec(&out[p], &x)
            invariant
                p <= out@.len(),
                leq == text_leq(),
                forall|k: int| 0 <= k < p ==> leq(#[trigger] string_views(out@)[k], x@),
            decreases out.len() - p,
        {
            p = p + 1;
        }
        let ghost before = string_views(out@);
        let ghost xv = x@;
        out.insert(p, x);
        proof {
            assert(string_views(out@) =~= before.insert(p as int, xv));
            vstd::seq_lib::to_multiset_insert(before, p as int, xv);
            assert(sv.take(i + 1) =~= sv.take(i as int).push(xv));
            vstd::seq_lib::to_multiset_build(sv.take(i as int), xv);
            let ov = string_views(out@);
            assert forall|a: int, b: int| 0 <= a < b < ov.len() implies #[trigger] leq(ov[a], ov[b]) by {
                if b < p {
                    assert(ov[a] == before[a] && ov[b] == before[b]);
                } else if b == p {
                    assert(ov[a] == before[a]);
                } else if a < p {
                    assert(ov[a] == before[a] && ov[b] == before[b - 1]);
                    assert(leq(before[a], xv));
                    assert(!leq(before[p as int], xv));
                    assert(leq(xv, before[p as int]));
                    assert(leq(before[p as int], before[b - 1]) || p as int == b - 1);
                } else if a == p {
                    assert(ov[b] == before[b - 1]);
                    assert(!leq(before[p as int], xv));
                    assert(leq(xv, before[p as int]));
                    assert(leq(before[p as int], before[b - 1]) || p as int == b - 1);
                } else {
                    assert(ov[a] == before[a - 1] && ov[b] == before[b - 1]);
                }
            }
        }
        i = i + 1;
    }
    proof {
        assert(sv.take(sv.len() as int) =~= sv);
        sv.lemma_sort_by_ensures(leq);
        vstd::seq_lib::lemma_sorted_unique(string_views(out@), sv.sort_by(leq), leq);
    }
    out
}

fn range_char_ok_exec(c: char, format: u32) -> (r: bool)
    ensures
        r == range_char_ok(c, format),
{
    is_alphabetic(c) && is_lower_fixed(c) && !(format == 3 && is_mark(c))
}

/// Characters are ordered by their scalar values.
proof fn lemma_char_order(a: char, b: char)
    ensures
        (a <= b) == ((a as u32) <= (b as u32)),
        (a == b) == ((a as u32) == (b as u32)),
        scalar(a as u32),
        scalar(b as u32),
{
}

/// Every character between `start` and `end` passes the range check.
fn range_chars_ok_exec(start: char, end: char, format: u32) -> (r: bool)
    requires
        start <= end,
    ensures
        r == range_chars_ok(start, end, format),
{
    let last: u32 = end as u32;
    let mut u: u32 = start as u32;
    proof {
        lemma_char_order(start, end);
        assert forall|c: char| start <= c && (c as u32) < u implies #[trigger] range_char_ok(c, format) by {
            lemma_char_order(start, c);
        }
    }
    while u <= last
        invariant
            start as u32 <= u,
            last == end as u32,
            u <= last + 1,
            forall|c: char| start <= c && (c as u32) < u ==> #[trigger] range_char_ok(c, format),
        decreases last + 1 - u,
    {
        match char_from_u32(u) {
            Some(c) => {
                if !range_char_ok_exec(c, format) {
                    proof {
                        lemma_char_order(start, c);
                        lemma_char_order(c, end);
                    }
                    assert(start <= c <= end);
                    return false;
                }
                proof {
                    assert forall|d: char| start <= d && (d as u32) < u + 1 implies #[trigger] range_char_ok(d, format) by {
                        lemma_char_order(d, c);
                    }
                }
            },
            None => {
                proof {
                    assert forall|d: char| start <= d && (d as u32) < u + 1 implies #[trigger] range_char_ok(d, format) by {
                        lemma_char_order(d, d);
                    }
                }
            },
        }
        u = u + 1;
    }
    proof {
        assert forall|c: char| start <= c <= end implies #[trigger] range_char_ok(c, format) by {
            lemma_char_order(c, end);
        }
    }
    true
}

/// Check sorted ranges in order.
fn check_ranges(rs: &Vec<(char, char)>, format: u32) -> (r: Result<(), ScoringModelError>)
    ensures
        r == ranges_check(rs@, format, 0, 0, None),
{
    let mut total: u32 = 0;
    let mut prev: Option<char> = None;
    let mut i: usize = 0;
    while i < rs.len()
        invariant
            i <= rs@.len(),
            total <= 65536,
            ranges_check(rs@, format, 0, 0, None) == ranges_check(rs@, format, i as int, total as int, prev),
        decreases rs.len() - i,
    {
        let (s, e) = rs[i];
        let out_of_order = match prev {
            Some(p) => s <= p,
            None => false,
        };
        if s > e || out_of_order {
            return Err(ScoringModelError::InvalidData);
        }
        proof {
            lemma_char_order(s, e);
        }
        let width: u32 = (e as u32) - (s as u32) + 1;
        if width > 65536 - total {
            return Err(ScoringModelError::LimitExceeded);
        }
        if !range_chars_ok_exec(s, e, format) {
            return Err(ScoringModelError::InvalidData);
        }
        total = total + width;
        prev = Some(e);
        i = i + 1;
    }
    Ok(())
}

fn accepts_in(letters: &Vec<char>, marks: &Vec<char>, ranges: &Vec<(char, char)>, c: char) -> (r: bool)
    ensures
        r == repertoire_accepts(letters@, marks@, ranges@, c),
{
    if contains_char(marks, c) || contains_char(letters, c) {
        return true;
    }
    let mut i: usize = 0;
    while i < ranges.len()
        invariant
            i <= ranges@.len(),
            forall|k: int| 0 <= k < i ==> !((#[trigger] ranges@[k]).0 <= c && c <= ranges@[k].1),
        decreases ranges.len() - i,
    {
        let (s, e) = ranges[i];
        if s <= c && c <= e {
            return true;
        }
        i = i + 1;
    }
    false
}

fn contains_char(v: &Vec<char>, c: char) -> (r: bool)
    ensures
        r == v@.contains(c),
{
    let mut i: usize = 0;
    while i < v.len()
        invariant
            i <= v@.len(),
            forall|k: int| 0 <= k < i ==> v@[k] != c,
        decreases v.len() - i,
    {
        if v[i] == c {
            assert(v@[i as int] == c);
            return true;
        }
        i = i + 1;
    }
    false
}

fn all_accepted(letters: &Vec<char>, marks: &Vec<char>, ranges: &Vec<(char, char)>, s: &[char]) -> (r: bool)
    ensures
        r == forall|j: int| 0 <= j < s@.len() ==> repertoire_accepts(letters@, marks@, ranges@, #[trigger] s@[j]),
{
    let mut i: usize = 0;
    while i < s.len()
        invariant
            i <= s@.len(),
            forall|j: int| 0 <= j < i ==> repertoire_accepts(letters@, marks@, ranges@, #[trigger] s@[j]),
        decreases s.len() - i,
    {
        if !accepts_in(letters, marks, ranges, s[i]) {
            return false;
        }
        i = i + 1;
    }
    true
}

fn list_ok_exec(
    list: &Vec<String>,
    min: usize,
    max: usize,
    letters: &Vec<char>,
    marks: &Vec<char>,
    ranges: &Vec<(char, char)>,
) -> (r: bool)
    ensures
        r == list_ok(string_views(list@), min as nat, max as nat, letters@, marks@, ranges@),
{
    let ghost sv = string_views(list@);
    let mut i: usize = 0;
    while i < list.len()
        invariant
            i <= list@.len(),
            sv == string_views(list@),
            forall|k: int|
                0 <= k < i ==> min <= (#[trigger] sv[k]).len() <= max && unicode_lowercase(sv[k]) == sv[k]
                    && forall|j: int| 0 <= j < sv[k].len() ==> repertoire_accepts(letters@, marks@, ranges@, #[trigger] sv[k][j]),
        decreases list.len() - i,
    {
        let chars = chars_of(list[i].as_str());
        assert(sv[i as int] == chars@);
        if chars.len() < min || chars.len() > max {
            return false;
        }
        let lower = to_lowercase(&chars);
        if !crate::text::chars_equal(&lower, &chars) {
            return false;
        }
        if !all_accepted(letters, marks, ranges, &chars) {
            return false;
        }
        i = i + 1;
    }
    distinct_strings(list)
}

impl ScoringModel {
    /// Validate a parsed document whose header announced `header_format`.
    pub fn from_document(header_format: u32, document: ModelDocument) -> (r: Result<ScoringModel, ScoringModelError>)
        ensures
            match r {
                Ok(m) => validate(header_format, document@) == Ok::<Seq<(char, char)>, ScoringModelError>(m@.ranges)
                    && m@.letters == document@.letters.sort_by(char_leq()) && m@.marks == document@.marks.sort_by(
                    char_leq(),
                ) && m@.vowels == document@.vowels.sort_by(char_leq()) && m@.bigrams == document@.bigrams.sort_by(
                    text_leq(),
                ) && m@.trigrams == document@.trigrams.sort_by(text_leq()) && m@.rare == document@.rare.sort_by(
                    text_leq(),
                ) && m@.policy == document@.policy && model_consistent(m@) && (header_format >= 2 ==> policy_matches(
                    m@,
                )),
                Err(e) => validate(header_format, document@) == Err::<Seq<(char, char)>, ScoringModelError>(e),
            },
    {
        let ghost d = document@;
        let letters = chars_of(document.letters.as_str());
        let marks = chars_of(document.marks.as_str());
        let vowels = chars_of(document.vowels.as_str());
        let p = document.policy;
        if document.format != header_format || (document.ranges.len() == 0 && letters.len() == 0) {
            return Err(ScoringModelError::InvalidData);
        }
        if header_format >= 2 && ((!p.bigrams && document.bigrams.len() > 0) || (!p.trigrams
            && document.trigrams.len() > 0) || (!p.vowels && vowels.len() > 0) || (p.bigrams
            && document.bigrams.len() == 0) || (p.trigrams && document.trigrams.len() == 0) || (
        p.vowels && vowels.len() == 0) || (p.statistical_targets && !p.bigrams && !p.trigrams)) {
            return Err(ScoringModelError::InvalidData);
        }
        if document.ranges.len() > 64 || utf8_len_exceeds(&letters, 32 * 1024) || utf8_len_exceeds(&marks, 1024)
            || utf8_len_exceeds(&vowels, 256) || document.bigrams.len() > 512 || document.trigrams.len()
            > 512 || document.rare.len() > 128 {
            return Err(ScoringModelError::LimitExceeded);
        }
        if !distinct_chars(&letters) || !all_letters_ok(&letters) {
            return Err(ScoringModelError::InvalidData);
        }
        if !distinct_chars(&marks) || !all_marks_ok(&marks) {
            return Err(ScoringModelError::InvalidData);
        }
        let ranges = sort_ranges(&document.ranges);
        match check_ranges(&ranges, header_format) {
            Err(e) => return Err(e),
            Ok(()) => {},
        }
        let lower_vowels = to_lowercase(&vowels);
        if !all_accepted(&letters, &marks, &ranges, &vowels) || !crate::text::chars_equal(&lower_vowels, &vowels) {
            return Err(ScoringModelError::InvalidData);
        }
        if !list_ok_exec(&document.bigrams, 2, 2, &letters, &marks, &ranges) || !list_ok_exec(
            &document.trigrams,
            3,
            3,
            &letters,
            &marks,
            &ranges,
        ) || !list_ok_exec(&document.rare, 2, 8, &letters, &marks, &ranges) {
            return Err(ScoringModelError::InvalidData);
        }
        if !distinct_chars(&vowels) {
            return Err(ScoringModelError::InvalidData);
        }
        let ModelDocument { format: _, ranges: _, letters: _, marks: _, vowels: _, bigrams, trigrams, rare, policy } =
            document;
        let letters = sort_chars(&letters);
        let marks = sort_chars(&marks);
        let vowels = sort_chars(&vowels);
        let bigrams = sort_strings(bigrams);
        let trigrams = sort_strings(trigrams);
        let rare = sort_strings(rare);
        proof {
            lemma_validated_model(header_format, d, ranges@);
        }
        Ok(ScoringModel { ranges, letters, marks, vowels, bigrams, trigrams, rare, policy })
    }

    /// Whether the repertoire holds `character`, a lower-case scalar.
    pub fn accepts(&self, character: char) -> (r: bool)
        ensures
            r == repertoire_accepts(self@.letters, self@.marks, self@.ranges, character),
    {
        accepts_in(&self.letters, &self.marks, &self.ranges, character)
    }

    /// Whether every character of `word` is in the repertoire and the first
    /// is not a continuation mark.
    pub fn accepts_word(&self, word: &str) -> (r: bool)
        ensures
            r == (word@.len() > 0 && repertoire_accepts(self@.letters, self@.marks, self@.ranges, word@[0])
                && !self@.marks.contains(word@[0]) && forall|j: int|
                1 <= j < word@.len() ==> repertoire_accepts(self@.letters, self@.marks, self@.ranges, #[trigger] word@[j])),
    {
        let chars = chars_of(word);
        if chars.len() == 0 {
            return false;
        }
        if !self.accepts(chars[0]) || contains_char(&self.marks, chars[0]) {
            return false;
        }
        let mut i: usize = 1;
        while i < chars.len()
            invariant
                1 <= i <= chars@.len(),
                chars@ == word@,
                forall|j: int| 1 <= j < i ==> repertoire_accepts(self@.letters, self@.marks, self@.ranges, #[trigger] chars@[j]),
            decreases chars.len() - i,
        {
            if !self.accepts(chars[i]) {
                return false;
            }
            i = i + 1;
        }
        true
    }

    pub fn is_vowel(&self, character: char) -> (r: bool)
        ensures
            r == self@.vowels.contains(character),
    {
        contains_char(&self.vowels, character)
    }

    pub fn uses_bigrams(&self) -> (r: bool)
        ensures
            r == self@.policy.bigrams,
    {
        self.policy.bigrams
    }

    pub fn uses_trigrams(&self) -> (r: bool)
        ensures
            r == self@.policy.trigrams,
    {
        self.policy.trigrams
    }

    pub fn uses_vowels(&self) -> (r: bool)
        ensures
            r == self@.policy.vowels,
    {
        self.policy.vowels
    }

    pub fn allows_statistical_targets(&self) -> (r: bool)
        ensures
            r == self@.policy.statistical_targets,
    {
        self.policy.statistical_targets
    }

    pub fn bigrams(&self) -> (r: &[String])
        ensures
            string_views(r@) == self@.bigrams,
    {
        self.bigrams.as_slice()
    }

    pub fn trigrams(&self) -> (r: &[String])
        ensures
            string_views(r@) == self@.trigrams,
    {
        self.trigrams.as_slice()
    }

    pub fn rare(&self) -> (r: &[String])
        ensures
            string_views(r@) == self@.rare,
    {
        self.rare.as_slice()
    }
}

} // verus!
