//! Language-pack identifiers and the configurable force-conversion hotkey.

use vstd::prelude::*;

use crate::text::{chars_of, join, join_chars, split, split_chars, string_of, views};

verus! {

pub open spec fn ascii_alpha(c: char) -> bool {
    ('a' <= c && c <= 'z') || ('A' <= c && c <= 'Z')
}

pub open spec fn ascii_digit(c: char) -> bool {
    '0' <= c && c <= '9'
}

pub open spec fn ascii_alnum(c: char) -> bool {
    ascii_alpha(c) || ascii_digit(c)
}

pub open spec fn lower_char(c: char) -> char {
    if 'A' <= c && c <= 'Z' {
        ((c as u32) + 32) as char
    } else {
        c
    }
}

pub open spec fn upper_char(c: char) -> char {
    if 'a' <= c && c <= 'z' {
        ((c as u32) - 32) as char
    } else {
        c
    }
}

pub open spec fn all_alpha(s: Seq<char>) -> bool {
    forall|i: int| 0 <= i < s.len() ==> ascii_alpha(#[trigger] s[i])
}

pub open spec fn all_alnum(s: Seq<char>) -> bool {
    forall|i: int| 0 <= i < s.len() ==> ascii_alnum(#[trigger] s[i])
}

pub open spec fn lower_all(s: Seq<char>) -> Seq<char> {
    s.map_values(|c: char| lower_char(c))
}

pub open spec fn upper_all(s: Seq<char>) -> Seq<char> {
    s.map_values(|c: char| upper_char(c))
}

/// Canonical case of the subtag at `index`: the language subtag in lower
/// case, a two-letter region in upper case, a four-letter script in title
/// case, everything else in lower case.
pub open spec fn canon_subtag(sub: Seq<char>, index: int) -> Seq<char> {
    if index == 0 {
        lower_all(sub)
    } else if sub.len() == 2 && all_alpha(sub) {
        upper_all(sub)
    } else if sub.len() == 4 && all_alpha(sub) {
        seq![upper_char(sub[0])] + lower_all(sub.drop_first())
    } else {
        lower_all(sub)
    }
}

/// A tag is one language subtag of two or three ASCII letters followed by at
/// most seven further subtags of one to eight ASCII letters or digits,
/// separated by `-`.
pub open spec fn valid_subtags(parts: Seq<Seq<char>>) -> bool {
    &&& 1 <= parts.len() <= 8
    &&& 2 <= parts[0].len() <= 3
    &&& all_alpha(parts[0])
    &&& forall|i: int|
        1 <= i < parts.len() ==> 1 <= (#[trigger] parts[i]).len() <= 8 && all_alnum(parts[i])
}

pub open spec fn canon_parts(parts: Seq<Seq<char>>) -> Seq<Seq<char>> {
    Seq::new(parts.len(), |i: int| canon_subtag(parts[i], i))
}

/// The canonical spelling of `s` as a pack identifier, if it is one.
pub closed spec fn canonical_tag(s: Seq<char>) -> Option<Seq<char>> {
    let parts = split(s, '-');
    if valid_subtags(parts) {
        Some(join(canon_parts(parts), '-'))
    } else {
        None
    }
}

pub open spec fn tag_en_us() -> Seq<char> {
    seq!['e', 'n', '-', 'U', 'S']
}

pub open spec fn tag_ru_ru() -> Seq<char> {
    seq!['r', 'u', '-', 'R', 'U']
}

pub open spec fn tag_et_ee() -> Seq<char> {
    seq!['e', 't', '-', 'E', 'E']
}

pub open spec fn tag_ja_jp() -> Seq<char> {
    seq!['j', 'a', '-', 'J', 'P']
}

pub open spec fn is_builtin_tag(t: Seq<char>) -> bool {
    t == tag_en_us() || t == tag_ru_ru() || t == tag_et_ee() || t == tag_ja_jp()
}

/// A pack identifier other than the four built-in packs.
#[derive(Debug, Clone, PartialEq, Eq, Hash)]
pub struct CustomTag {
    tag: String,
}

impl CustomTag {
    /// The identifier's spelling.
    pub closed spec fn spelling(&self) -> Seq<char> {
        self.tag@
    }
}

/// A validated, canonical language-pack identifier such as `en-US`.
#[derive(Debug, Clone, PartialEq, Eq, Hash)]
pub enum PackId {
    English,
    Russian,
    Estonian,
    Japanese,
    Custom(CustomTag),
}

/// Languages are identified by their pack.
pub type Language = PackId;

/// The text was not a pack identifier.
#[derive(Debug, Clone, Copy, PartialEq, Eq)]
pub struct InvalidPackId;

impl View for PackId {
    type V = Seq<char>;

    open spec fn view(&self) -> Seq<char> {
        match self {
            PackId::English => tag_en_us(),
            PackId::Russian => tag_ru_ru(),
            PackId::Estonian => tag_et_ee(),
            PackId::Japanese => tag_ja_jp(),
            PackId::Custom(t) => t.spelling(),
        }
    }
}

impl PackId {
    /// Built from a canonical spelling by `parse`: custom identifiers are never
    /// spellings of a built-in pack.
    pub open spec fn valid(&self) -> bool {
        match self {
            PackId::Custom(t) => canonical_tag(t.spelling()) == Some(t.spelling()) && !is_builtin_tag(
                t.spelling(),
            ),
            _ => true,
        }
    }

    /// Parse an identifier, accepting any ASCII case and returning its
    /// canonical form.
    pub fn parse(text: &str) -> (r: Result<PackId, InvalidPackId>)
        ensures
            match r {
                Ok(p) => canonical_tag(text@) == Some(p@) && p.valid(),
                Err(_) => canonical_tag(text@) is None,
            },
    {
        let chars = chars_of(text);
        Self::parse_chars(&chars)
    }

    pub fn parse_chars(chars: &[char]) -> (r: Result<PackId, InvalidPackId>)
        ensures
            match r {
                Ok(p) => canonical_tag(chars@) == Some(p@) && p.valid(),
                Err(_) => canonical_tag(chars@) is None,
            },
    {
        let parts = split_chars(chars, '-');
        let ghost ps = views(parts@);
        if parts.len() < 1 || parts.len() > 8 {
            return Err(InvalidPackId);
        }
        let mut canon: Vec<Vec<char>> = Vec::new();
        let mut i: usize = 0;
        while i < parts.len()
            invariant
                1 <= parts@.len() <= 8,
                ps == views(parts@),
                ps == split(chars@, '-'),
                i <= parts@.len(),
                views(canon@) == canon_parts(ps).subrange(0, i as int),
                i > 0 ==> 2 <= ps[0].len() <= 3 && all_alpha(ps[0]),
                forall|k: int| 1 <= k < i ==> 1 <= (#[trigger] ps[k]).len() <= 8 && all_alnum(ps[k]),
            decreases parts.len() - i,
        {
            let part = &parts[i];
            assert(part@ == ps[i as int]);
            let n = part.len();
            if i == 0 {
                if n < 2 || n > 3 || !all_ascii_alpha(part) {
                    return Err(InvalidPackId);
                }
            } else {
                if n < 1 || n > 8 || !all_ascii_alnum(part) {
                    assert(!(1 <= ps[i as int].len() <= 8 && all_alnum(ps[i as int])));
                    assert(!valid_subtags(ps));
                    return Err(InvalidPackId);
                }
            }
            let c = canonical_subtag(part, i);
            let ghost before = canon@;
            canon.push(c);
            assert(views(canon@) =~= canon_parts(ps).subrange(0, i + 1)) by {
                assert(views(canon@) == views(before).push(c@));
            }
            i = i + 1;
        }
        assert(canon_parts(ps).subrange(0, parts@.len() as int) == canon_parts(ps));
        assert(valid_subtags(ps));
        let tag = join_chars(&canon, '-');
        assert(canonical_tag(chars@) == Some(tag@));
        proof {
            lemma_canonical_is_fixed(chars@);
        }
        Ok(Self::from_canonical(&tag))
    }

    /// The pack whose canonical spelling is `tag`.
    fn from_canonical(tag: &Vec<char>) -> (r: PackId)
        requires
            canonical_tag(tag@) == Some(tag@),
        ensures
            r@ == tag@,
            r.valid(),
    {
        if crate::text::chars_equal(tag, &vec!['e', 'n', '-', 'U', 'S']) {
            PackId::English
        } else if crate::text::chars_equal(tag, &vec!['r', 'u', '-', 'R', 'U']) {
            PackId::Russian
        } else if crate::text::chars_equal(tag, &vec!['e', 't', '-', 'E', 'E']) {
            PackId::Estonian
        } else if crate::text::chars_equal(tag, &vec!['j', 'a', '-', 'J', 'P']) {
            PackId::Japanese
        } else {
            PackId::Custom(CustomTag { tag: string_of(tag) })
        }
    }

    /// The canonical spelling, such as `en-US`.
    pub fn id(&self) -> (r: String)
        ensures
            r@ == self@,
    {
        string_of(&self.tag_chars())
    }

    /// The canonical spelling as characters.
    pub fn tag_chars(&self) -> (r: Vec<char>)
        ensures
            r@ == self@,
    {
        match self {
            PackId::English => vec!['e', 'n', '-', 'U', 'S'],
            PackId::Russian => vec!['r', 'u', '-', 'R', 'U'],
            PackId::Estonian => vec!['e', 't', '-', 'E', 'E'],
            PackId::Japanese => vec!['j', 'a', '-', 'J', 'P'],
            PackId::Custom(t) => chars_of(t.tag.as_str()),
        }
    }

    /// Identifiers are equal exactly when their spellings are.
    pub fn same(&self, other: &PackId) -> (r: bool)
        ensures
            r == (self@ == other@),
    {
        crate::text::chars_equal(&self.tag_chars(), &other.tag_chars())
    }

    /// A copy with the same spelling.
    pub fn duplicate(&self) -> (r: PackId)
        ensures
            r == *self,
    {
        match self {
            PackId::English => PackId::English,
            PackId::Russian => PackId::Russian,
            PackId::Estonian => PackId::Estonian,
            PackId::Japanese => PackId::Japanese,
            PackId::Custom(t) => PackId::Custom(CustomTag { tag: t.tag.clone() }),
        }
    }

    /// Like `parse`, but also accepts the bare language codes `en`, `ru`,
    /// `et` and `ja` (any ASCII case) as the built-in packs.
    pub fn from_id(text: &str) -> (r: Option<PackId>)
        ensures
            match r {
                Some(p) => from_id_spec(text@) == Some(p@) && p.valid(),
                None => from_id_spec(text@) is None,
            },
    {
        match Self::parse(text) {
            Err(_) => None,
            Ok(p) => {
                let t = p.tag_chars();
                if crate::text::chars_equal(&t, &vec!['e', 'n']) {
                    Some(PackId::English)
                } else if crate::text::chars_equal(&t, &vec!['r', 'u']) {
                    Some(PackId::Russian)
                } else if crate::text::chars_equal(&t, &vec!['e', 't']) {
                    Some(PackId::Estonian)
                } else if crate::text::chars_equal(&t, &vec!['j', 'a']) {
                    Some(PackId::Japanese)
                } else {
                    Some(p)
                }
            },
        }
    }
}

/// The canonical spelling `from_id` gives for `s`, if any.
pub open spec fn from_id_spec(s: Seq<char>) -> Option<Seq<char>> {
    match canonical_tag(s) {
        None => None,
        Some(t) => Some(
            if t == seq!['e', 'n'] {
                tag_en_us()
            } else if t == seq!['r', 'u'] {
                tag_ru_ru()
            } else if t == seq!['e', 't'] {
                tag_et_ee()
            } else if t == seq!['j', 'a'] {
                tag_ja_jp()
            } else {
                t
            },
        ),
    }
}

fn all_ascii_alpha(s: &Vec<char>) -> (r: bool)
    ensures
        r == all_alpha(s@),
{
    let mut i: usize = 0;
    while i < s.len()
        invariant
            i <= s@.len(),
            forall|k: int| 0 <= k < i ==> ascii_alpha(#[trigger] s@[k]),
        decreases s.len() - i,
    {
        let c = s[i];
        if !(('a' <= c && c <= 'z') || ('A' <= c && c <= 'Z')) {
            return false;
        }
        i = i + 1;
    }
    true
}

fn all_ascii_alnum(s: &Vec<char>) -> (r: bool)
    ensures
        r == all_alnum(s@),
{
    let mut i: usize = 0;
    while i < s.len()
        invariant
            i <= s@.len(),
            forall|k: int| 0 <= k < i ==> ascii_alnum(#[trigger] s@[k]),
        decreases s.len() - i,
    {
        let c = s[i];
        if !(('a' <= c && c <= 'z') || ('A' <= c && c <= 'Z') || ('0' <= c && c <= '9')) {
            return false;
        }
        i = i + 1;
    }
    true
}

pub fn ascii_lower(c: char) -> (r: char)
    ensures
        r == lower_char(c),
{
    if 'A' <= c && c <= 'Z' {
        (((c as u32) + 32) as u8) as char
    } else {
        c
    }
}

pub fn ascii_upper(c: char) -> (r: char)
    ensures
        r == upper_char(c),
{
    if 'a' <= c && c <= 'z' {
        (((c as u32) - 32) as u8) as char
    } else {
        c
    }
}

fn map_lower(s: &Vec<char>, from: usize) -> (r: Vec<char>)
    requires
        from <= s@.len(),
    ensures
        r@ == lower_all(s@.subrange(from as int, s@.len() as int)),
{
    let mut r: Vec<char> = Vec::new();
    let mut i = from;
    while i < s.len()
        invariant
            from <= i <= s@.len(),
            r@ == lower_all(s@.subrange(from as int, i as int)),
        decreases s.len() - i,
    {
        r.push(ascii_lower(s[i]));
        i = i + 1;
        assert(r@ =~= lower_all(s@.subrange(from as int, i as int)));
    }
    r
}

fn map_upper(s: &Vec<char>) -> (r: Vec<char>)
    ensures
        r@ == upper_all(s@),
{
    let mut r: Vec<char> = Vec::new();
    let mut i: usize = 0;
    while i < s.len()
        invariant
            i <= s@.len(),
            r@ == upper_all(s@.subrange(0, i as int)),
        decreases s.len() - i,
    {
        r.push(ascii_upper(s[i]));
        i = i + 1;
        assert(r@ =~= upper_all(s@.subrange(0, i as int)));
    }
    assert(s@.subrange(0, s@.len() as int) == s@);
    r
}

fn canonical_subtag(sub: &Vec<char>, index: usize) -> (r: Vec<char>)
    ensures
        r@ == canon_subtag(sub@, index as int),
{
    assert(sub@.subrange(0, sub@.len() as int) == sub@);
    if index == 0 {
        map_lower(sub, 0)
    } else if sub.len() == 2 && all_ascii_alpha(sub) {
        map_upper(sub)
    } else if sub.len() == 4 && all_ascii_alpha(sub) {
        let mut r = vec![ascii_upper(sub[0])];
        let rest = map_lower(sub, 1);
        let mut i: usize = 0;
        while i < rest.len()
            invariant
                i <= rest@.len(),
                r@ == seq![upper_char(sub@[0])] + rest@.subrange(0, i as int),
            decreases rest.len() - i,
        {
            r.push(rest[i]);
            i = i + 1;
            assert(r@ =~= seq![upper_char(sub@[0])] + rest@.subrange(0, i as int));
        }
        assert(rest@.subrange(0, rest@.len() as int) == rest@);
        assert(sub@.drop_first() == sub@.subrange(1, sub@.len() as int));
        r
    } else {
        map_lower(sub, 0)
    }
}

proof fn lemma_lower_idem(s: Seq<char>)
    ensures
        lower_all(lower_all(s)) == lower_all(s),
        all_alpha(s) ==> all_alpha(lower_all(s)),
        all_alnum(s) ==> all_alnum(lower_all(s)),
{
    assert(lower_all(lower_all(s)) =~= lower_all(s));
}

/// A language and region tag such as `en-US`, already in canonical case,
/// is its own canonical spelling.
proof fn lemma_region_tag_canonical(a: char, b: char, c: char, d: char)
    requires
        'a' <= a <= 'z',
        'a' <= b <= 'z',
        'A' <= c <= 'Z',
        'A' <= d <= 'Z',
    ensures
        canonical_tag(seq![a, b, '-', c, d]) == Some(seq![a, b, '-', c, d]),
{
    let t = seq![a, b, '-', c, d];
    let lang = seq![a, b];
    let region = seq![c, d];
    assert(t.take(1).drop_last() =~= Seq::<char>::empty());
    assert(split(Seq::<char>::empty(), '-') == seq![Seq::<char>::empty()]);
    assert(Seq::<char>::empty().push(a) =~= seq![a]);
    assert(split(t.take(1), '-') =~~= seq![seq![a]]);
    assert(t.take(2).drop_last() =~= t.take(1));
    assert(seq![a].push(b) =~= lang);
    assert(split(t.take(2), '-') =~~= seq![lang]);
    assert(t.take(3).drop_last() =~= t.take(2));
    assert(split(t.take(3), '-') =~= seq![lang, Seq::<char>::empty()]);
    assert(t.take(4).drop_last() =~= t.take(3));
    assert(Seq::<char>::empty().push(c) =~= seq![c]);
    assert(split(t.take(4), '-') =~~= seq![lang, seq![c]]);
    assert(t.drop_last() =~= t.take(4));
    let parts = split(t, '-');
    assert(seq![c].push(d) =~= region);
    assert(parts =~~= seq![lang, region]);
    assert(valid_subtags(parts));
    assert(lower_all(lang) =~= lang);
    assert(upper_all(region) =~= region);
    let cp = canon_parts(parts);
    assert(cp =~= seq![lang, region]);
    assert(cp.drop_last() =~= seq![lang]);
    assert(join(seq![lang], '-') == lang);
    assert(join(cp, '-') == join(cp.drop_last(), '-') + seq!['-'] + cp.last());
    assert(lang + seq!['-'] + region =~= t);
    assert(join(cp, '-') =~= t);
}

/// Every valid pack identifier is spelled canonically.
pub proof fn lemma_valid_is_canonical(p: PackId)
    requires
        p.valid(),
    ensures
        canonical_tag(p@) == Some(p@),
{
    match p {
        PackId::English => lemma_region_tag_canonical('e', 'n', 'U', 'S'),
        PackId::Russian => lemma_region_tag_canonical('r', 'u', 'R', 'U'),
        PackId::Estonian => lemma_region_tag_canonical('e', 't', 'E', 'E'),
        PackId::Japanese => lemma_region_tag_canonical('j', 'a', 'J', 'P'),
        PackId::Custom(_) => {},
    }
}

/// Canonical spellings are their own canonical form.
pub proof fn lemma_canonical_is_fixed(s: Seq<char>)
    requires
        canonical_tag(s) is Some,
    ensures
        canonical_tag(canonical_tag(s)->0) == canonical_tag(s),
{
    let parts = split(s, '-');
    let cp = canon_parts(parts);
    assert forall|i: int| 0 <= i < cp.len() implies !(#[trigger] cp[i]).contains('-') by {
        if cp[i].contains('-') {
            let k = choose|k: int| 0 <= k < cp[i].len() && cp[i][k] == '-';
            if i == 0 {
                assert(ascii_alpha(parts[0][k]));
            } else if parts[i].len() == 4 && all_alpha(parts[i]) && k > 0 {
                assert(ascii_alpha(parts[i][k]));
            } else {
                assert(ascii_alnum(parts[i][k]));
            }
        }
    }
    crate::text::lemma_split_join(cp, '-');
    let t = join(cp, '-');
    assert(split(t, '-') == cp);
    assert forall|i: int| 0 <= i < cp.len() implies #[trigger] canon_subtag(cp[i], i) == cp[i] && (
    i == 0 ==> 2 <= cp[i].len() <= 3 && all_alpha(cp[i])) && (i > 0 ==> 1 <= cp[i].len() <= 8
        && all_alnum(cp[i])) by {
        let p = parts[i];
        lemma_lower_idem(p);
        if i == 0 {
            assert(all_alpha(lower_all(p)));
        } else if p.len() == 2 && all_alpha(p) {
            assert(all_alpha(cp[i]));
            assert(upper_all(upper_all(p)) =~= upper_all(p));
        } else if p.len() == 4 && all_alpha(p) {
            assert(all_alpha(cp[i]));
            let q = cp[i];
            assert(q.drop_first() =~= lower_all(p.drop_first()));
            assert(lower_all(q.drop_first()) =~= q.drop_first());
            assert(canon_subtag(q, i) =~= q);
        } else {
            assert(all_alnum(cp[i]));
            if cp[i].len() == 2 && all_alpha(cp[i]) {
                assert(all_alpha(p)) by {
                    assert forall|k: int| 0 <= k < p.len() implies ascii_alpha(#[trigger] p[k]) by {
                        assert(ascii_alpha(cp[i][k]));
                    }
                }
            }
            if cp[i].len() == 4 && all_alpha(cp[i]) {
                assert(all_alpha(p)) by {
                    assert forall|k: int| 0 <= k < p.len() implies ascii_alpha(#[trigger] p[k]) by {
                        assert(ascii_alpha(cp[i][k]));
                    }
                }
            }
        }
    }
    assert(canon_parts(cp) =~= cp);
}

/// A character of a canonical identifier: an ASCII letter or digit, or `-`.
pub open spec fn tag_char(c: char) -> bool {
    ascii_alnum(c) || c == '-'
}

/// Canonical identifiers are made of ASCII letters, digits and `-`, and
/// begin and end with a letter or digit.
pub proof fn lemma_canonical_shape(s: Seq<char>)
    requires
        canonical_tag(s) is Some,
    ensures
        canonical_tag(s)->0.len() >= 2,
        forall|k: int| 0 <= k < canonical_tag(s)->0.len() ==> tag_char(#[trigger] canonical_tag(s)->0[k]),
        ascii_alnum(canonical_tag(s)->0[0]),
        ascii_alnum(canonical_tag(s)->0.last()),
{
    let parts = split(s, '-');
    let cp = canon_parts(parts);
    assert forall|i: int| 0 <= i < cp.len() implies (#[trigger] cp[i]).len() >= 1 && all_alnum(cp[i])
        && (i == 0 ==> cp[i].len() >= 2) by {
        let p = parts[i];
        lemma_lower_idem(p);
        if i == 0 {
            assert(all_alpha(lower_all(p)));
        } else if p.len() == 2 && all_alpha(p) {
            assert(all_alpha(cp[i]));
        } else if p.len() == 4 && all_alpha(p) {
            assert(all_alpha(cp[i]));
        } else {
            assert(all_alnum(cp[i]));
        }
    }
    let ok = |c: char| tag_char(c);
    assert forall|i: int, k: int| 0 <= i < cp.len() && 0 <= k < cp[i].len() implies ok(#[trigger] cp[i][k]) by {
        assert(all_alnum(cp[i]));
    }
    crate::text::lemma_join_chars(cp, '-', ok);
    let t = join(cp, '-');
    crate::text::lemma_join_head(cp, '-');
    assert(cp.last() == cp[cp.len() - 1]);
    crate::text::lemma_join_last(cp, '-');
    assert(ascii_alnum(cp[0][0]));
    assert(ascii_alnum(cp.last().last())) by {
        assert(cp.last().last() == cp[cp.len() - 1][cp[cp.len() - 1].len() - 1]);
    }
    assert(t.len() >= cp[0].len()) by {
        lemma_join_len(cp, '-');
    }
}

proof fn lemma_join_len(parts: Seq<Seq<char>>, sep: char)
    requires
        parts.len() >= 1,
    ensures
        join(parts, sep).len() >= parts[0].len(),
    decreases parts.len(),
{
    if parts.len() > 1 {
        lemma_join_len(parts.drop_last(), sep);
    }
}

// ---------------------------------------------------------------------------
// Hotkeys
// ---------------------------------------------------------------------------

pub const HOTKEY_MOD_CONTROL: u8 = 1;

pub const HOTKEY_MOD_ALT: u8 = 2;

pub const HOTKEY_MOD_SHIFT: u8 = 4;

pub const HOTKEY_MOD_WIN: u8 = 8;

/// Windows virtual-key code of Pause/Break.
pub const VK_PAUSE: u16 = 0x13;

/// Windows virtual-key code that Ctrl+Pause produces.
pub const VK_CANCEL: u16 = 0x03;

/// A trigger key and the modifiers that must be held with it.
#[derive(Debug, Clone, Copy, PartialEq, Eq)]
pub struct Hotkey {
    pub virtual_key: u16,
    pub modifiers: u8,
}

/// Supported trigger keys: Pause, A–Z, 0–9 and F1–F24.
pub open spec fn supported_key(vk: u16) -> bool {
    vk == VK_PAUSE || (0x41 <= vk <= 0x5a) || (0x30 <= vk <= 0x39) || (0x70 <= vk <= 0x87)
}

/// Letter and digit keys type text, so they need Ctrl, Alt or Win.
pub open spec fn needs_shortcut_modifier(vk: u16) -> bool {
    (0x41 <= vk <= 0x5a) || (0x30 <= vk <= 0x39)
}

pub open spec fn valid_hotkey(vk: u16, modifiers: u8) -> bool {
    &&& supported_key(vk)
    &&& modifiers < 16
    &&& needs_shortcut_modifier(vk) ==> (modifiers & 11u8) != 0
}

pub open spec fn decimal(n: int) -> Seq<char>
    recommends
        1 <= n <= 99,
{
    if n < 10 {
        seq![((n + 48) as u32) as char]
    } else {
        seq![(((n / 10) + 48) as u32) as char, (((n % 10) + 48) as u32) as char]
    }
}

/// The key's name as settings store it.
pub open spec fn key_name_spec(vk: u16) -> Seq<char> {
    if vk == VK_PAUSE {
        seq!['P', 'a', 'u', 's', 'e']
    } else if (0x41 <= vk <= 0x5a) || (0x30 <= vk <= 0x39) {
        seq![(vk as u32) as char]
    } else {
        seq!['F'] + decimal(vk - 0x6f)
    }
}

pub open spec fn mod_token(bit: u8) -> Seq<char> {
    if bit == HOTKEY_MOD_CONTROL {
        seq!['C', 't', 'r', 'l']
    } else if bit == HOTKEY_MOD_ALT {
        seq!['A', 'l', 't']
    } else if bit == HOTKEY_MOD_SHIFT {
        seq!['S', 'h', 'i', 'f', 't']
    } else {
        seq!['W', 'i', 'n']
    }
}

/// The tokens of the held modifiers, in the order Ctrl, Alt, Shift, Win.
pub open spec fn mod_tokens(m: u8) -> Seq<Seq<char>> {
    let a = if m & 1u8 != 0 { seq![mod_token(1)] } else { Seq::<Seq<char>>::empty() };
    let b = if m & 2u8 != 0 { seq![mod_token(2)] } else { Seq::<Seq<char>>::empty() };
    let c = if m & 4u8 != 0 { seq![mod_token(4)] } else { Seq::<Seq<char>>::empty() };
    let d = if m & 8u8 != 0 { seq![mod_token(8)] } else { Seq::<Seq<char>>::empty() };
    a + b + c + d
}

/// `None`, or the held modifiers joined by `+`.
pub open spec fn modifiers_text_spec(m: u8) -> Seq<char> {
    if m == 0 {
        seq!['N', 'o', 'n', 'e']
    } else {
        join(mod_tokens(m), '+')
    }
}

/// The key code that `name` spells, if it is a supported key name.
pub open spec fn parse_key_spec(name: Seq<char>) -> Option<u16> {
    if name == seq!['P', 'a', 'u', 's', 'e'] {
        Some(VK_PAUSE)
    } else if name.len() == 1 && (('A' <= name[0] && name[0] <= 'Z') || ('0' <= name[0]
        && name[0] <= '9')) {
        Some((name[0] as u32) as u16)
    } else if name.len() == 2 && name[0] == 'F' && '1' <= name[1] && name[1] <= '9' {
        Some((0x6f + (name[1] as u32 - 48)) as u16)
    } else if name.len() == 3 && name[0] == 'F' && '1' <= name[1] && name[1] <= '2' && '0'
        <= name[2] && name[2] <= '9' && ((name[1] as u32 - 48) * 10 + (name[2] as u32 - 48))
        <= 24 {
        Some((0x6f + (name[1] as u32 - 48) * 10 + (name[2] as u32 - 48)) as u16)
    } else {
        None
    }
}

pub open spec fn token_bit(t: Seq<char>) -> Option<u8> {
    if t == mod_token(1) {
        Some(1u8)
    } else if t == mod_token(2) {
        Some(2u8)
    } else if t == mod_token(4) {
        Some(4u8)
    } else if t == mod_token(8) {
        Some(8u8)
    } else {
        None
    }
}

/// Folding the tokens of a modifier list; `None` on an unknown or repeated
/// token.
pub open spec fn fold_tokens(tokens: Seq<Seq<char>>) -> Option<u8>
    decreases tokens.len(),
{
    if tokens.len() == 0 {
        Some(0u8)
    } else {
        match (fold_tokens(tokens.drop_last()), token_bit(tokens.last())) {
            (Some(m), Some(b)) => if m & b == 0 {
                Some(m | b)
            } else {
                None
            },
            _ => None,
        }
    }
}

/// The modifier mask that `text` spells: `None` (the word) for no modifier,
/// or distinct tokens among Ctrl, Alt, Shift, Win joined by `+`, in any order.
pub open spec fn parse_modifiers_spec(text: Seq<char>) -> Option<u8> {
    if text == seq!['N', 'o', 'n', 'e'] {
        Some(0u8)
    } else {
        fold_tokens(split(text, '+'))
    }
}

/// The reasons a hotkey cannot be built.
#[derive(Debug, Clone, Copy, PartialEq, Eq)]
pub enum HotkeyError {
    UnknownKey,
    UnknownModifiers,
    Unsupported,
}

impl Default for Hotkey {
    fn default() -> (r: Hotkey)
        ensures
            r.virtual_key == VK_PAUSE,
            r.modifiers == 0,
    {
        Hotkey { virtual_key: VK_PAUSE, modifiers: 0 }
    }
}

impl Hotkey {
    pub open spec fn valid(&self) -> bool {
        valid_hotkey(self.virtual_key, self.modifiers)
    }

    /// The hotkey, when `virtual_key` is supported and the modifiers allow it.
    pub fn new(virtual_key: u16, modifiers: u8) -> (r: Option<Hotkey>)
        ensures
            r == (if valid_hotkey(virtual_key, modifiers) {
                Some(Hotkey { virtual_key, modifiers })
            } else {
                None
            }),
    {
        let supported = virtual_key == VK_PAUSE || (0x41 <= virtual_key && virtual_key <= 0x5a)
            || (0x30 <= virtual_key && virtual_key <= 0x39) || (0x70 <= virtual_key
            && virtual_key <= 0x87);
        let typing = (0x41 <= virtual_key && virtual_key <= 0x5a) || (0x30 <= virtual_key
            && virtual_key <= 0x39);
        if supported && modifiers < 16 && (!typing || (modifiers & 11u8) != 0) {
            Some(Hotkey { virtual_key, modifiers })
        } else {
            None
        }
    }

    /// Whether a key event with `virtual_key` is this hotkey's trigger key
    /// (Ctrl+Pause arrives as Cancel).
    pub fn matches_key(&self, virtual_key: u16) -> (r: bool)
        ensures
            r == (virtual_key == self.virtual_key || (self.virtual_key == VK_PAUSE && virtual_key
                == VK_CANCEL)),
    {
        virtual_key == self.virtual_key || (self.virtual_key == VK_PAUSE && virtual_key
            == VK_CANCEL)
    }

    /// The stored key name, such as `Pause`, `A` or `F12`.
    pub fn key_name(&self) -> (r: String)
        requires
            self.valid(),
        ensures
            r@ == key_name_spec(self.virtual_key),
    {
        string_of(&key_name_chars(self.virtual_key))
    }

    /// `None`, or the held modifiers such as `Ctrl+Shift`.
    pub fn modifiers_text(&self) -> (r: String)
        requires
            self.modifiers < 16,
        ensures
            r@ == modifiers_text_spec(self.modifiers),
    {
        string_of(&modifiers_text_chars(self.modifiers))
    }

    /// The name shown to users, such as `Pause/Break` or `Ctrl+Shift+F12`.
    pub fn display_name(&self) -> (r: String)
        requires
            self.valid(),
        ensures
            r@ == display_name_spec(self.virtual_key, self.modifiers),
    {
        let mut parts = modifier_token_vec(self.modifiers);
        let key = if self.virtual_key == VK_PAUSE {
            vec!['P', 'a', 'u', 's', 'e', '/', 'B', 'r', 'e', 'a', 'k']
        } else {
            key_name_chars(self.virtual_key)
        };
        let ghost before = views(parts@);
        parts.push(key);
        assert(views(parts@) == before.push(display_key_spec(self.virtual_key)));
        string_of(&join_chars(&parts, '+'))
    }

    /// Build a hotkey from stored key and modifier names.
    pub fn from_parts(key: &str, modifiers: &str) -> (r: Result<Hotkey, HotkeyError>)
        ensures
            r == from_parts_spec(key@, modifiers@),
    {
        let vk = match parse_key_name(&chars_of(key)) {
            Some(vk) => vk,
            None => return Err(HotkeyError::UnknownKey),
        };
        let m = match parse_modifier_names(&chars_of(modifiers)) {
            Some(m) => m,
            None => return Err(HotkeyError::UnknownModifiers),
        };
        match Hotkey::new(vk, m) {
            Some(h) => Ok(h),
            None => Err(HotkeyError::Unsupported),
        }
    }
}

pub open spec fn display_key_spec(vk: u16) -> Seq<char> {
    if vk == VK_PAUSE {
        seq!['P', 'a', 'u', 's', 'e', '/', 'B', 'r', 'e', 'a', 'k']
    } else {
        key_name_spec(vk)
    }
}

pub open spec fn display_name_spec(vk: u16, m: u8) -> Seq<char> {
    join(mod_tokens(m).push(display_key_spec(vk)), '+')
}

pub open spec fn from_parts_spec(key: Seq<char>, modifiers: Seq<char>) -> Result<Hotkey, HotkeyError> {
    match parse_key_spec(key) {
        None => Err(HotkeyError::UnknownKey),
        Some(vk) => match parse_modifiers_spec(modifiers) {
            None => Err(HotkeyError::UnknownModifiers),
            Some(m) => if valid_hotkey(vk, m) {
                Ok(Hotkey { virtual_key: vk, modifiers: m })
            } else {
                Err(HotkeyError::Unsupported)
            },
        },
    }
}

pub(crate) fn key_name_chars(vk: u16) -> (r: Vec<char>)
    requires
        supported_key(vk),
    ensures
        r@ == key_name_spec(vk),
{
    if vk == VK_PAUSE {
        vec!['P', 'a', 'u', 's', 'e']
    } else if (0x41 <= vk && vk <= 0x5a) || (0x30 <= vk && vk <= 0x39) {
        let c = char_from_ascii(vk as u8);
        vec![c]
    } else {
        let n = vk - 0x6f;
        if n < 10 {
            vec!['F', char_from_ascii((n + 48) as u8)]
        } else {
            vec!['F', char_from_ascii((n / 10 + 48) as u8), char_from_ascii((n % 10 + 48) as u8)]
        }
    }
}

fn char_from_ascii(b: u8) -> (c: char)
    requires
        b < 128,
    ensures
        c as u32 == b as u32,
{
    b as char
}

fn modifier_token_vec(m: u8) -> (r: Vec<Vec<char>>)
    ensures
        views(r@) == mod_tokens(m),
{
    let mut r: Vec<Vec<char>> = Vec::new();
    if m & 1u8 != 0 {
        r.push(vec!['C', 't', 'r', 'l']);
    }
    let ghost a = views(r@);
    if m & 2u8 != 0 {
        r.push(vec!['A', 'l', 't']);
    }
    let ghost b = views(r@);
    if m & 4u8 != 0 {
        r.push(vec!['S', 'h', 'i', 'f', 't']);
    }
    let ghost c = views(r@);
    if m & 8u8 != 0 {
        r.push(vec!['W', 'i', 'n']);
    }
    assert(views(r@) =~= mod_tokens(m));
    r
}

pub(crate) fn modifiers_text_chars(m: u8) -> (r: Vec<char>)
    ensures
        r@ == modifiers_text_spec(m),
{
    if m == 0 {
        vec!['N', 'o', 'n', 'e']
    } else {
        join_chars(&modifier_token_vec(m), '+')
    }
}

fn parse_key_name(name: &Vec<char>) -> (r: Option<u16>)
    ensures
        r == parse_key_spec(name@),
{
    if crate::text::chars_equal(name, &vec!['P', 'a', 'u', 's', 'e']) {
        return Some(VK_PAUSE);
    }
    if name.len() == 1 && (('A' <= name[0] && name[0] <= 'Z') || ('0' <= name[0] && name[0]
        <= '9')) {
        return Some((name[0] as u32) as u16);
    }
    if name.len() == 2 && name[0] == 'F' && '1' <= name[1] && name[1] <= '9' {
        return Some((0x6f + (name[1] as u32 - 48)) as u16);
    }
    if name.len() == 3 && name[0] == 'F' && '1' <= name[1] && name[1] <= '2' && '0' <= name[2]
        && name[2] <= '9' && ((name[1] as u32 - 48) * 10 + (name[2] as u32 - 48)) <= 24 {
        return Some((0x6f + (name[1] as u32 - 48) * 10 + (name[2] as u32 - 48)) as u16);
    }
    None
}

fn token_to_bit(t: &Vec<char>) -> (r: Option<u8>)
    ensures
        r == token_bit(t@),
{
    if crate::text::chars_equal(t, &vec!['C', 't', 'r', 'l']) {
        Some(1u8)
    } else if crate::text::chars_equal(t, &vec!['A', 'l', 't']) {
        Some(2u8)
    } else if crate::text::chars_equal(t, &vec!['S', 'h', 'i', 'f', 't']) {
        Some(4u8)
    } else if crate::text::chars_equal(t, &vec!['W', 'i', 'n']) {
        Some(8u8)
    } else {
        None
    }
}

proof fn lemma_fold_none_extends(ts: Seq<Seq<char>>, j: int)
    requires
        0 <= j <= ts.len(),
        fold_tokens(ts.subrange(0, j)) is None,
    ensures
        fold_tokens(ts) is None,
    decreases ts.len() - j,
{
    if j < ts.len() {
        assert(ts.subrange(0, j + 1).drop_last() == ts.subrange(0, j));
        lemma_fold_none_extends(ts, j + 1);
    } else {
        assert(ts.subrange(0, j) == ts);
    }
}

fn parse_modifier_names(text: &Vec<char>) -> (r: Option<u8>)
    ensures
        r == parse_modifiers_spec(text@),
{
    if crate::text::chars_equal(text, &vec!['N', 'o', 'n', 'e']) {
        return Some(0u8);
    }
    let tokens = split_chars(text, '+');
    let ghost ts = views(tokens@);
    let mut m: u8 = 0;
    let mut i: usize = 0;
    while i < tokens.len()
        invariant
            ts == views(tokens@),
            ts == split(text@, '+'),
            text@ != seq!['N', 'o', 'n', 'e'],
            i <= tokens@.len(),
            fold_tokens(ts.subrange(0, i as int)) == Some(m),
            m < 16,
        decreases tokens.len() - i,
    {
        assert(ts.subrange(0, i + 1).drop_last() == ts.subrange(0, i as int));
        assert(ts.subrange(0, i + 1).last() == tokens@[i as int]@);
        let b = match token_to_bit(&tokens[i]) {
            Some(b) => b,
            None => {
                proof {
                    lemma_fold_none_extends(ts, i as int + 1);
                }
                return None;
            },
        };
        if m & b != 0 {
            proof {
                lemma_fold_none_extends(ts, i as int + 1);
            }
            return None;
        }
        assert((m | b) < 16) by (bit_vector)
            requires
                m < 16,
                b == 1 || b == 2 || b == 4 || b == 8,
        ;
        m = m | b;
        i = i + 1;
    }
    assert(ts.subrange(0, ts.len() as int) == ts);
    Some(m)
}

} // verus!

verus! {

proof fn lemma_token_bits()
    ensures
        token_bit(mod_token(1)) == Some(1u8),
        token_bit(mod_token(2)) == Some(2u8),
        token_bit(mod_token(4)) == Some(4u8),
        token_bit(mod_token(8)) == Some(8u8),
        !mod_token(1).contains('+'),
        !mod_token(2).contains('+'),
        !mod_token(4).contains('+'),
        !mod_token(8).contains('+'),
{
    assert(mod_token(2) != mod_token(1)) by {
        assert(mod_token(2).len() != mod_token(1).len());
    }
    assert(mod_token(4) != mod_token(1)) by {
        assert(mod_token(4).len() != mod_token(1).len());
    }
    assert(mod_token(4) != mod_token(2)) by {
        assert(mod_token(4).len() != mod_token(2).len());
    }
    assert(mod_token(8) != mod_token(1)) by {
        assert(mod_token(8).len() != mod_token(1).len());
    }
    assert(mod_token(8) != mod_token(2)) by {
        assert(mod_token(8)[0] != mod_token(2)[0]);
    }
    assert(mod_token(8) != mod_token(4)) by {
        assert(mod_token(8).len() != mod_token(4).len());
    }
    assert(!mod_token(1).contains('+')) by {
        if mod_token(1).contains('+') {
            let k = choose|k: int| 0 <= k < mod_token(1).len() && mod_token(1)[k] == '+';
        }
    }
    assert(!mod_token(2).contains('+')) by {
        if mod_token(2).contains('+') {
            let k = choose|k: int| 0 <= k < mod_token(2).len() && mod_token(2)[k] == '+';
        }
    }
    assert(!mod_token(4).contains('+')) by {
        if mod_token(4).contains('+') {
            let k = choose|k: int| 0 <= k < mod_token(4).len() && mod_token(4)[k] == '+';
        }
    }
    assert(!mod_token(8).contains('+')) by {
        if mod_token(8).contains('+') {
            let k = choose|k: int| 0 <= k < mod_token(8).len() && mod_token(8)[k] == '+';
        }
    }
}

proof fn lemma_fold_push(tokens: Seq<Seq<char>>, x: u8, b: u8)
    requires
        fold_tokens(tokens) == Some(x),
        token_bit(mod_token(b)) == Some(b),
        x & b == 0,
    ensures
        fold_tokens(tokens.push(mod_token(b))) == Some(x | b),
{
    assert(tokens.push(mod_token(b)).drop_last() == tokens);
}

/// Parsing the modifier text of a mask gives back the mask.
pub proof fn lemma_modifiers_roundtrip(m: u8)
    requires
        m < 16,
    ensures
        parse_modifiers_spec(modifiers_text_spec(m)) == Some(m),
{
    if m != 0 {
        lemma_token_bits();
        let e = Seq::<Seq<char>>::empty();
        let a = if m & 1u8 != 0 { seq![mod_token(1)] } else { e };
        let b = if m & 2u8 != 0 { seq![mod_token(2)] } else { e };
        let c = if m & 4u8 != 0 { seq![mod_token(4)] } else { e };
        let d = if m & 8u8 != 0 { seq![mod_token(8)] } else { e };
        assert(mod_tokens(m) == a + b + c + d);
        assert(fold_tokens(e) == Some(0u8));
        assert(fold_tokens(a) == Some(m & 1u8)) by {
            if m & 1u8 != 0 {
                assert(e.push(mod_token(1)) == a);
                assert(0u8 & 1u8 == 0u8 && 0u8 | 1u8 == 1u8) by (bit_vector);
                lemma_fold_push(e, 0u8, 1u8);
                assert(m & 1u8 != 0 ==> m & 1u8 == 1u8) by (bit_vector);
            } else {
                assert(a == e);
            }
        }
        assert(fold_tokens(a + b) == Some(m & 3u8)) by {
            if m & 2u8 != 0 {
                assert((a + b) == a.push(mod_token(2)));
                assert((m & 1u8) & 2u8 == 0 && (m & 1u8) | 2u8 == m & 3u8) by (bit_vector)
                    requires
                        m & 2u8 != 0,
                ;
                lemma_fold_push(a, m & 1u8, 2u8);
            } else {
                assert(a + b == a);
                assert(m & 1u8 == m & 3u8) by (bit_vector)
                    requires
                        m & 2u8 == 0,
                ;
            }
        }
        assert(fold_tokens(a + b + c) == Some(m & 7u8)) by {
            if m & 4u8 != 0 {
                assert((a + b + c) == (a + b).push(mod_token(4)));
                assert((m & 3u8) & 4u8 == 0 && (m & 3u8) | 4u8 == m & 7u8) by (bit_vector)
                    requires
                        m & 4u8 != 0,
                ;
                lemma_fold_push(a + b, m & 3u8, 4u8);
            } else {
                assert(a + b + c == a + b);
                assert(m & 3u8 == m & 7u8) by (bit_vector)
                    requires
                        m & 4u8 == 0,
                ;
            }
        }
        assert(fold_tokens(a + b + c + d) == Some(m)) by {
            if m & 8u8 != 0 {
                assert((a + b + c + d) == (a + b + c).push(mod_token(8)));
                assert((m & 7u8) & 8u8 == 0 && (m & 7u8) | 8u8 == m) by (bit_vector)
                    requires
                        m & 8u8 != 0,
                        m < 16,
                ;
                lemma_fold_push(a + b + c, m & 7u8, 8u8);
            } else {
                assert(a + b + c + d == a + b + c);
                assert(m & 7u8 == m) by (bit_vector)
                    requires
                        m & 8u8 == 0,
                        m < 16,
                ;
            }
        }
        let ts = mod_tokens(m);
        assert(ts.len() >= 1) by {
            assert(m != 0 && m < 16 ==> (m & 1u8 != 0 || m & 2u8 != 0 || m & 4u8 != 0 || m & 8u8
                != 0)) by (bit_vector);
        }
        assert forall|i: int| 0 <= i < ts.len() implies !(#[trigger] ts[i]).contains('+') by {
            assert(ts[i] == mod_token(1) || ts[i] == mod_token(2) || ts[i] == mod_token(4)
                || ts[i] == mod_token(8));
        }
        crate::text::lemma_split_join(ts, '+');
        lemma_join_first(ts, '+');
        assert(ts[0][0] != 'N');
        assert(modifiers_text_spec(m) != seq!['N', 'o', 'n', 'e']);
    }
}

/// A join starts with the first character of its first piece.
pub proof fn lemma_join_first(parts: Seq<Seq<char>>, sep: char)
    requires
        parts.len() >= 1,
        parts[0].len() >= 1,
    ensures
        join(parts, sep).len() >= 1,
        join(parts, sep)[0] == parts[0][0],
    decreases parts.len(),
{
    if parts.len() > 1 {
        lemma_join_first(parts.drop_last(), sep);
    }
}

/// Parsing the stored key name of a supported key gives back the key.
pub proof fn lemma_key_roundtrip(vk: u16)
    requires
        supported_key(vk),
    ensures
        parse_key_spec(key_name_spec(vk)) == Some(vk),
{
    let name = key_name_spec(vk);
    if vk == VK_PAUSE {
    } else if (0x41 <= vk <= 0x5a) || (0x30 <= vk <= 0x39) {
        assert(name.len() == 1);
        assert(name != seq!['P', 'a', 'u', 's', 'e']);
    } else {
        let n = vk - 0x6f;
        assert(name != seq!['P', 'a', 'u', 's', 'e']) by {
            assert(name[0] == 'F');
        }
        if n < 10 {
            assert(name.len() == 2);
        } else {
            assert(name.len() == 3);
        }
    }
}

/// Stored names of a valid hotkey build the same hotkey again.
pub proof fn lemma_hotkey_roundtrip(h: Hotkey)
    requires
        h.valid(),
    ensures
        from_parts_spec(key_name_spec(h.virtual_key), modifiers_text_spec(h.modifiers)) == Ok::<
            Hotkey,
            HotkeyError,
        >(h),
{
    lemma_key_roundtrip(h.virtual_key);
    lemma_modifiers_roundtrip(h.modifiers);
}

} // verus!
