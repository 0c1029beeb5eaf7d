//! Small user-managed dictionary and do-not-convert overlays.

use vstd::prelude::*;

use crate::pack_id::{from_id_spec, Language, PackId};
use crate::text::{
    chars_of, is_control, is_ctrl, is_whitespace, is_ws, slice_to_vec, string_of, to_lowercase,
    trim, trim_chars, trim_start, unicode_lowercase,
};

verus! {

/// The stored form of a word: trimmed, 1 to 64 characters, without control
/// or white-space characters, lower-cased.
pub open spec fn normalized_word(word: Seq<char>) -> Option<Seq<char>> {
    let t = trim(word);
    if t.len() == 0 || t.len() > 64 || exists|i: int|
        0 <= i < t.len() && (is_ctrl(#[trigger] t[i]) || is_ws(t[i])) {
        None
    } else {
        Some(unicode_lowercase(t))
    }
}

pub open spec fn first_index_of(s: Seq<char>, c: char) -> int
    decreases s.len(),
{
    if s.len() == 0 {
        -1
    } else if s[0] == c {
        0
    } else {
        let k = first_index_of(s.drop_first(), c);
        if k < 0 {
            -1
        } else {
            k + 1
        }
    }
}

pub open spec fn first_ws_index(s: Seq<char>) -> int
    decreases s.len(),
{
    if s.len() == 0 {
        -1
    } else if is_ws(s[0]) {
        0
    } else {
        let k = first_ws_index(s.drop_first());
        if k < 0 {
            -1
        } else {
            k + 1
        }
    }
}

/// The language text and word text of an entry line: `id: word` (split at
/// the first colon), or exactly two white-space separated tokens.
pub open spec fn entry_parts(line: Seq<char>) -> Option<(Seq<char>, Seq<char>)> {
    let t = trim(line);
    if t.len() == 0 || t[0] == '#' {
        None
    } else {
        let c = first_index_of(t, ':');
        if c >= 0 {
            Some((trim(t.take(c)), trim(t.skip(c + 1))))
        } else {
            let k = first_ws_index(t);
            if k < 0 {
                None
            } else {
                let rest = trim_start(t.skip(k));
                if rest.len() > 0 && first_ws_index(rest) < 0 {
                    Some((t.take(k), rest))
                } else {
                    None
                }
            }
        }
    }
}

/// The pack spelling and raw word of an entry line.
pub open spec fn parsed_entry(line: Seq<char>) -> Option<(Seq<char>, Seq<char>)> {
    match entry_parts(line) {
        None => None,
        Some((l, w)) => match from_id_spec(l) {
            None => None,
            Some(tag) => Some((tag, w)),
        },
    }
}

/// The pack spelling and stored word of an entry line.
pub open spec fn pack_entry(line: Seq<char>) -> Option<(Seq<char>, Seq<char>)> {
    match parsed_entry(line) {
        None => None,
        Some((tag, w)) => match normalized_word(w) {
            None => None,
            Some(n) => Some((tag, n)),
        },
    }
}

/// The line that stores `word` for the pack spelled `tag`.
pub open spec fn formatted_entry(tag: Seq<char>, word: Seq<char>) -> Option<Seq<char>> {
    match normalized_word(word) {
        None => None,
        Some(n) => Some(tag + seq![':', ' '] + n + seq!['\n']),
    }
}

pub fn index_of(s: &[char], c: char) -> (r: Option<usize>)
    ensures
        match r {
            Some(k) => k < s@.len() && first_index_of(s@, c) == k,
            None => first_index_of(s@, c) < 0,
        },
{
    let mut i: usize = 0;
    assert(s@.skip(0) == s@);
    while i < s.len()
        invariant
            i <= s@.len(),
            first_index_of(s@, c) == (if first_index_of(s@.skip(i as int), c) < 0 {
                -1
            } else {
                first_index_of(s@.skip(i as int), c) + i
            }),
        decreases s.len() - i,
    {
        assert(s@.skip(i as int)[0] == s@[i as int]);
        assert(s@.skip(i as int).drop_first() == s@.skip(i + 1));
        if s[i] == c {
            return Some(i);
        }
        i = i + 1;
    }
    assert(s@.skip(i as int).len() == 0);
    None
}

fn ws_index(s: &[char]) -> (r: Option<usize>)
    ensures
        match r {
            Some(k) => k < s@.len() && first_ws_index(s@) == k,
            None => first_ws_index(s@) < 0,
        },
{
    let mut i: usize = 0;
    assert(s@.skip(0) == s@);
    while i < s.len()
        invariant
            i <= s@.len(),
            first_ws_index(s@) == (if first_ws_index(s@.skip(i as int)) < 0 {
                -1
            } else {
                first_ws_index(s@.skip(i as int)) + i
            }),
        decreases s.len() - i,
    {
        assert(s@.skip(i as int)[0] == s@[i as int]);
        assert(s@.skip(i as int).drop_first() == s@.skip(i + 1));
        if is_whitespace(s[i]) {
            return Some(i);
        }
        i = i + 1;
    }
    assert(s@.skip(i as int).len() == 0);
    None
}

fn entry_parts_chars(line: &[char]) -> (r: Option<(Vec<char>, Vec<char>)>)
    ensures
        match r {
            Some((l, w)) => entry_parts(line@) == Some((l@, w@)),
            None => entry_parts(line@) is None,
        },
{
    let t = trim_chars(line);
    if t.len() == 0 || t[0] == '#' {
        return None;
    }
    match index_of(&t, ':') {
        Some(c) => {
            let l = trim_chars(&slice_to_vec(&t, 0, c));
            let w = trim_chars(&slice_to_vec(&t, c + 1, t.len()));
            assert(t@.take(c as int) == t@.subrange(0, c as int));
            assert(t@.skip(c + 1) == t@.subrange(c + 1, t@.len() as int));
            Some((l, w))
        },
        None => {
            match ws_index(&t) {
                None => None,
                Some(k) => {
                    let tail = slice_to_vec(&t, k, t.len());
                    let (a, b) = crate::text::trim_bounds(&tail);
                    let rest = trim_start_chars(&tail);
                    if rest.len() > 0 && ws_index(&rest).is_none() {
                        let l = slice_to_vec(&t, 0, k);
                        assert(t@.take(k as int) == t@.subrange(0, k as int));
                        assert(t@.skip(k as int) == t@.subrange(k as int, t@.len() as int));
                        Some((l, rest))
                    } else {
                        assert(t@.skip(k as int) == t@.subrange(k as int, t@.len() as int));
                        None
                    }
                },
            }
        },
    }
}

proof fn lemma_trim_start_skip(s: Seq<char>, i: int)
    requires
        0 <= i <= s.len(),
        forall|k: int| 0 <= k < i ==> is_ws(#[trigger] s[k]),
    ensures
        trim_start(s) == trim_start(s.subrange(i, s.len() as int)),
    decreases i,
{
    if i > 0 {
        assert(s.drop_first() == s.subrange(1, s.len() as int));
        lemma_trim_start_skip(s.drop_first(), i - 1);
        assert(s.drop_first().subrange(i - 1, s.drop_first().len() as int) == s.subrange(
            i,
            s.len() as int,
        ));
    } else {
        assert(s.subrange(0, s.len() as int) == s);
    }
}

fn trim_start_chars(s: &[char]) -> (r: Vec<char>)
    ensures
        r@ == trim_start(s@),
{
    let mut a: usize = 0;
    while a < s.len() && is_whitespace(s[a])
        invariant
            a <= s@.len(),
            forall|k: int| 0 <= k < a ==> is_ws(#[trigger] s@[k]),
        decreases s.len() - a,
    {
        a = a + 1;
    }
    proof {
        lemma_trim_start_skip(s@, a as int);
        let t = s@.subrange(a as int, s@.len() as int);
        if a < s.len() {
            assert(t[0] == s@[a as int]);
        }
    }
    slice_to_vec(s, a, s.len())
}

fn normalize_word(word: &[char]) -> (r: Option<Vec<char>>)
    ensures
        match r {
            Some(n) => normalized_word(word@) == Some(n@),
            None => normalized_word(word@) is None,
        },
{
    let t = trim_chars(word);
    if t.len() == 0 || t.len() > 64 {
        return None;
    }
    let mut i: usize = 0;
    while i < t.len()
        invariant
            i <= t@.len(),
            t@ == trim(word@),
            forall|k: int| 0 <= k < i ==> !is_ctrl(#[trigger] t@[k]) && !is_ws(t@[k]),
        decreases t.len() - i,
    {
        if is_control(t[i]) || is_whitespace(t[i]) {
            assert(is_ctrl(t@[i as int]) || is_ws(t@[i as int]));
            assert(exists|j: int|
                0 <= j < t@.len() && (is_ctrl(#[trigger] t@[j]) || is_ws(t@[j])));
            return None;
        }
        i = i + 1;
    }
    Some(to_lowercase(&t))
}

fn parsed_entry_chars(line: &[char]) -> (r: Option<(PackId, Vec<char>)>)
    ensures
        match r {
            Some((p, w)) => parsed_entry(line@) == Some((p@, w@)) && p.valid(),
            None => parsed_entry(line@) is None,
        },
{
    let (l, w) = match entry_parts_chars(line) {
        Some(parts) => parts,
        None => return None,
    };
    match PackId::from_id(string_of(&l).as_str()) {
        Some(p) => Some((p, w)),
        None => None,
    }
}

/// A set of (pack, word) pairs.
#[derive(Debug, Clone, Default, PartialEq, Eq)]
pub struct UserLexicon {
    words: Vec<(PackId, String)>,
}

pub open spec fn entry_views(v: Seq<(PackId, String)>) -> Seq<(Seq<char>, Seq<char>)> {
    v.map_values(|e: (PackId, String)| (e.0@, e.1@))
}

/// The entries that `lines` contribute.
pub open spec fn lines_entries(lines: Seq<Seq<char>>) -> Set<(Seq<char>, Seq<char>)> {
    Set::new(
        |e: (Seq<char>, Seq<char>)|
            exists|i: int|
                0 <= i < lines.len() && match pack_entry(#[trigger] lines[i]) {
                    Some((tag, w)) => normalized_word(w) == Some(e.1) && e.0 == tag,
                    None => false,
                },
    )
}

impl UserLexicon {
    pub closed spec fn entries(&self) -> Seq<(Seq<char>, Seq<char>)> {
        entry_views(self.words@)
    }

    /// The (pack spelling, stored word) pairs.
    pub open spec fn entry_set(&self) -> Set<(Seq<char>, Seq<char>)> {
        self.entries().to_set()
    }

    pub open spec fn wf(&self) -> bool {
        self.entries().no_duplicates()
    }

    pub fn new() -> (r: UserLexicon)
        ensures
            r.wf(),
            r.entry_set() == Set::<(Seq<char>, Seq<char>)>::empty(),
    {
        let r = UserLexicon { words: Vec::new() };
        assert(r.entry_set() =~= Set::<(Seq<char>, Seq<char>)>::empty());
        r
    }

    /// The lexicon holding the entries of `lines`; comments, unknown pack
    /// identifiers and malformed entries are skipped.
    pub fn from_lines(lines: &[&str]) -> (r: UserLexicon)
        ensures
            r.wf(),
            r.entry_set() == lines_entries(lines@.map_values(|l: &str| l@)),
    {
        let mut char_lines: Vec<Vec<char>> = Vec::new();
        let mut i: usize = 0;
        while i < lines.len()
            invariant
                i <= lines@.len(),
                crate::text::views(char_lines@) == lines@.take(i as int).map_values(|l: &str| l@),
            decreases lines.len() - i,
        {
            let ghost before = char_lines@;
            let line = chars_of(lines[i]);
            char_lines.push(line);
            assert(char_lines@ == before.push(line));
            assert(crate::text::views(char_lines@) =~= crate::text::views(before).push(line@));
            assert(lines@.take(i + 1) =~= lines@.take(i as int).push(lines@[i as int]));
            assert(crate::text::views(char_lines@) =~= lines@.take(i + 1).map_values(|l: &str| l@));
            i = i + 1;
        }
        assert(lines@.take(lines@.len() as int) =~= lines@);
        Self::from_char_lines(&char_lines)
    }

    /// The lexicon holding the entries of the given lines of characters.
    pub(crate) fn from_char_lines(lines: &Vec<Vec<char>>) -> (r: UserLexicon)
        ensures
            r.wf(),
            r.entry_set() == lines_entries(crate::text::views(lines@)),
    {
        let mut lexicon = UserLexicon::new();
        let ghost ls = crate::text::views(lines@);
        let mut i: usize = 0;
        while i < lines.len()
            invariant
                i <= lines@.len(),
                ls == crate::text::views(lines@),
                lexicon.wf(),
                lexicon.entry_set() == lines_entries(ls.subrange(0, i as int)),
            decreases lines.len() - i,
        {
            let ghost pre = ls.subrange(0, i as int);
            let ghost next = ls.subrange(0, i + 1);
            let ghost before = lexicon.entry_set();
            assert(next[i as int] == lines@[i as int]@);
            let entry = Self::normalize_pack_entry_chars(lines[i].as_slice());
            match entry {
                Some((id, word)) => {
                    let _ = lexicon.insert_pack_chars(id, &word);
                },
                None => {},
            }
            assert(lexicon.entry_set() =~= lines_entries(next)) by {
                assert forall|e: (Seq<char>, Seq<char>)|
                    lines_entries(next).contains(e) implies lexicon.entry_set().contains(e) by {
                    let j = choose|j: int|
                        0 <= j < next.len() && match pack_entry(#[trigger] next[j]) {
                            Some((tag, w)) => normalized_word(w) == Some(e.1) && e.0 == tag,
                            None => false,
                        };
                    if j < i {
                        assert(pre[j] == next[j]);
                        assert(lines_entries(pre).contains(e));
                    }
                }
                assert forall|e: (Seq<char>, Seq<char>)|
                    lexicon.entry_set().contains(e) implies lines_entries(next).contains(e) by {
                    if before.contains(e) {
                        let j = choose|j: int|
                            0 <= j < pre.len() && match pack_entry(#[trigger] pre[j]) {
                                Some((tag, w)) => normalized_word(w) == Some(e.1) && e.0 == tag,
                                None => false,
                            };
                        assert(pre[j] == next[j]);
                    } else {
                        assert(pack_entry(next[i as int]) is Some);
                    }
                }
            }
            i = i + 1;
        }
        assert(ls.subrange(0, lines@.len() as int) == ls);
        lexicon
    }

    fn find(&self, tag: &Vec<char>, word: &Vec<char>) -> (r: bool)
        ensures
            r == self.entries().contains((tag@, word@)),
    {
        let w = string_of(word);
        let mut i: usize = 0;
        while i < self.words.len()
            invariant
                i <= self.words@.len(),
                self.entries().len() == self.words@.len(),
                w@ == word@,
                forall|k: int| 0 <= k < i ==> self.entries()[k] != (tag@, word@),
            decreases self.words.len() - i,
        {
            let ghost e = self.entries()[i as int];
            assert(e == (self.words@[i as int].0@, self.words@[i as int].1@));
            if crate::text::chars_equal(&self.words[i].0.tag_chars(), tag) && self.words[i].1
                == w {
                return true;
            }
            i = i + 1;
        }
        false
    }

    /// Whether `word`, lower-cased, is stored for `language`.
    pub fn contains(&self, language: Language, word: &str) -> (r: bool)
        ensures
            r == self.entry_set().contains((language@, unicode_lowercase(word@))),
    {
        self.contains_pack(&language, word)
    }

    /// Whether `word`, lower-cased, is stored for the pack `id`.
    pub fn contains_pack(&self, id: &PackId, word: &str) -> (r: bool)
        ensures
            r == self.entry_set().contains((id@, unicode_lowercase(word@))),
    {
        let lowered = to_lowercase(&chars_of(word));
        self.find(&id.tag_chars(), &lowered)
    }

    /// Store `word` for `language`; true when it was not stored before.
    pub fn insert(&mut self, language: Language, word: &str) -> (r: bool)
        requires
            old(self).wf(),
        ensures
            final(self).wf(),
            insert_post(old(self).entry_set(), final(self).entry_set(), language@, word@, r),
    {
        self.insert_pack(language, word)
    }

    /// Store `word` for the pack `id`; true when it was not stored before.
    pub fn insert_pack(&mut self, id: PackId, word: &str) -> (r: bool)
        requires
            old(self).wf(),
        ensures
            final(self).wf(),
            insert_post(old(self).entry_set(), final(self).entry_set(), id@, word@, r),
    {
        self.insert_pack_chars(id, &chars_of(word))
    }

    fn insert_pack_chars(&mut self, id: PackId, word: &[char]) -> (r: bool)
        requires
            old(self).wf(),
        ensures
            final(self).wf(),
            insert_post(old(self).entry_set(), final(self).entry_set(), id@, word@, r),
    {
        let w = match normalize_word(word) {
            Some(w) => w,
            None => return false,
        };
        let tag = id.tag_chars();
        if self.find(&tag, &w) {
            assert(self.entry_set().insert((id@, w@)) =~= self.entry_set());
            return false;
        }
        let ghost before = self.entries();
        self.words.push((id, string_of(&w)));
        assert(self.entries() =~= before.push((tag@, w@)));
        proof {
            assert(self.entries().no_duplicates()) by {
                assert forall|a: int, b: int|
                    0 <= a < self.entries().len() && 0 <= b < self.entries().len() && a
                        != b implies self.entries()[a] != self.entries()[b] by {
                    if a < before.len() && b < before.len() {
                    } else if a == before.len() {
                        assert(before[b] == self.entries()[b]);
                        assert(before.contains(before[b]));
                    } else {
                        assert(before[a] == self.entries()[a]);
                        assert(before.contains(before[a]));
                    }
                }
            }
            assert(self.entries().to_set() =~= before.to_set().insert((tag@, w@))) by {
                assert forall|n| self.entries().to_set().contains(n) implies before.to_set().insert(
                    (tag@, w@),
                ).contains(n) by {
                    let j = choose|j: int| 0 <= j < self.entries().len() && self.entries()[j] == n;
                    if j < before.len() {
                        assert(before[j] == n);
                    }
                }
                assert forall|n| before.to_set().insert((tag@, w@)).contains(n) implies self.entries().to_set().contains(n) by {
                    if n == (tag@, w@) {
                        assert(self.entries()[before.len() as int] == n);
                    } else {
                        let j = choose|j: int| 0 <= j < before.len() && before[j] == n;
                        assert(self.entries()[j] == n);
                    }
                }
            }
        }
        true
    }

    /// The number of stored (pack, word) pairs.
    pub fn len(&self) -> (r: usize)
        requires
            self.wf(),
        ensures
            r == self.entry_set().len(),
    {
        proof {
            self.entries().unique_seq_to_set();
        }
        self.words.len()
    }

    pub fn is_empty(&self) -> (r: bool)
        requires
            self.wf(),
        ensures
            r == (self.entry_set().len() == 0),
    {
        proof {
            self.entries().unique_seq_to_set();
        }
        self.words.len() == 0
    }

    /// The line that stores `word` for `language`, such as `en-US: word`.
    pub fn format_entry(language: Language, word: &str) -> (r: Option<String>)
        ensures
            match r {
                Some(s) => formatted_entry(language@, word@) == Some(s@),
                None => formatted_entry(language@, word@) is None,
            },
    {
        Self::format_pack_entry(&language, word)
    }

    /// The pack and stored word of an entry line.
    pub fn normalize_entry(line: &str) -> (r: Option<(Language, String)>)
        ensures
            match r {
                Some((p, w)) => pack_entry(line@) == Some((p@, w@)) && p.valid(),
                None => pack_entry(line@) is None,
            },
    {
        Self::normalize_pack_entry(line)
    }

    /// The pack and stored word of an entry line. Persistent overlays are not
    /// filtered by installed or enabled packs.
    pub fn normalize_pack_entry(line: &str) -> (r: Option<(PackId, String)>)
        ensures
            match r {
                Some((p, w)) => pack_entry(line@) == Some((p@, w@)) && p.valid(),
                None => pack_entry(line@) is None,
            },
    {
        match Self::normalize_pack_entry_chars(&chars_of(line)) {
            Some((p, w)) => Some((p, string_of(&w))),
            None => None,
        }
    }

    fn normalize_pack_entry_chars(line: &[char]) -> (r: Option<(PackId, Vec<char>)>)
        ensures
            match r {
                Some((p, w)) => pack_entry(line@) == Some((p@, w@)) && p.valid(),
                None => pack_entry(line@) is None,
            },
    {
        let (id, word) = match parsed_entry_chars(line) {
            Some(e) => e,
            None => return None,
        };
        match normalize_word(&word) {
            Some(w) => Some((id, w)),
            None => None,
        }
    }

    /// The line that stores `word` for the pack `id`.
    pub fn format_pack_entry(id: &PackId, word: &str) -> (r: Option<String>)
        ensures
            match r {
                Some(s) => formatted_entry(id@, word@) == Some(s@),
                None => formatted_entry(id@, word@) is None,
            },
    {
        let w = match normalize_word(&chars_of(word)) {
            Some(w) => w,
            None => return None,
        };
        let mut out = id.tag_chars();
        out.push(':');
        out.push(' ');
        let ghost head = out@;
        let mut i: usize = 0;
        while i < w.len()
            invariant
                i <= w@.len(),
                out@ == head + w@.subrange(0, i as int),
            decreases w.len() - i,
        {
            out.push(w[i]);
            i = i + 1;
            assert(out@ =~= head + w@.subrange(0, i as int));
        }
        out.push('\n');
        assert(w@.subrange(0, w@.len() as int) == w@);
        assert(out@ =~= id@ + seq![':', ' '] + w@ + seq!['\n']);
        Some(string_of(&out))
    }
}

/// What inserting `word` for `tag` does: nothing when the word cannot be
/// stored, otherwise its stored form is added; the result tells whether the
/// set grew.
pub open spec fn insert_post(
    before: Set<(Seq<char>, Seq<char>)>,
    after: Set<(Seq<char>, Seq<char>)>,
    tag: Seq<char>,
    word: Seq<char>,
    r: bool,
) -> bool {
    match normalized_word(word) {
        None => after == before && !r,
        Some(n) => after == before.insert((tag, n)) && r == !before.contains((tag, n)),
    }
}

} // verus!
