//! Privacy policy shared by platform adapters and settings code.

use vstd::prelude::*;

use crate::text::{chars_of, is_ws, slice_to_vec, string_of, to_lowercase, trim, trim_chars, unicode_lowercase};

verus! {

/// Reasons why the current input context must not be buffered or converted.
#[derive(Debug, Clone, Copy, PartialEq, Eq)]
pub enum PrivacyBlockReason {
    PasswordField,
    ExcludedProcess,
    ElevatedProcess,
    InspectionUnavailable,
}

/// `s` without leading occurrences of `q`.
pub open spec fn strip_start(s: Seq<char>, q: char) -> Seq<char>
    decreases s.len(),
{
    if s.len() > 0 && s[0] == q {
        strip_start(s.drop_first(), q)
    } else {
        s
    }
}

/// `s` without trailing occurrences of `q`.
pub open spec fn strip_end(s: Seq<char>, q: char) -> Seq<char>
    decreases s.len(),
{
    if s.len() > 0 && s.last() == q {
        strip_end(s.drop_last(), q)
    } else {
        s
    }
}

/// `str::trim_matches` with a single character.
pub open spec fn strip_both(s: Seq<char>, q: char) -> Seq<char> {
    strip_end(strip_start(s, q), q)
}

pub open spec fn is_path_separator(c: char) -> bool {
    c == '/' || c == '\\'
}

/// The text after the last `/` or `\`, or all of `s` when there is none.
pub open spec fn last_component(s: Seq<char>) -> Seq<char>
    decreases s.len(),
{
    if s.len() == 0 {
        s
    } else if is_path_separator(s.last()) {
        Seq::<char>::empty()
    } else {
        last_component(s.drop_last()).push(s.last())
    }
}

/// The normalized executable name of a path or name: quotes and white space
/// around it removed, the last path component, lower-cased; `None` when that
/// component is empty.
pub open spec fn executable_name(s: Seq<char>) -> Option<Seq<char>> {
    let name = trim(last_component(strip_both(trim(s), '"')));
    if name.len() == 0 {
        None
    } else {
        Some(unicode_lowercase(name))
    }
}

proof fn lemma_strip_end_append(s: Seq<char>, q: char)
    ensures
        strip_end(s + seq![q], q) == strip_end(s, q),
{
    assert((s + seq![q]).drop_last() =~= s);
}

proof fn lemma_strip_start_append(s: Seq<char>, q: char)
    ensures
        strip_start(s + seq![q], q) == (if strip_start(s, q).len() == 0 {
            Seq::<char>::empty()
        } else {
            strip_start(s, q) + seq![q]
        }),
    decreases s.len(),
{
    if s.len() == 0 {
        assert(s + seq![q] =~= seq![q]);
        assert(seq![q].drop_first() =~= Seq::<char>::empty());
        assert(strip_start(Seq::<char>::empty(), q) == Seq::<char>::empty());
        assert(strip_start(s, q) == s);
    } else if s[0] == q {
        assert((s + seq![q])[0] == q);
        assert((s + seq![q]).drop_first() =~= s.drop_first() + seq![q]);
        lemma_strip_start_append(s.drop_first(), q);
    } else {
        assert((s + seq![q])[0] == s[0]);
    }
}

proof fn lemma_strip_end_empty(q: char)
    ensures
        strip_end(Seq::<char>::empty(), q) == Seq::<char>::empty(),
{
}

/// Double quotes around a path or name, as a copied path has them, do not
/// change the executable name it gives.
pub proof fn lemma_quotes_do_not_matter(p: Seq<char>)
    requires
        trim(p) == p,
    ensures
        executable_name(seq!['"'] + p + seq!['"']) == executable_name(p),
{
    let q = seq!['"'] + p + seq!['"'];
    assert(q[0] == '"' && q.last() == '"');
    crate::text::lemma_trim_plain(q);
    assert(q.drop_first() =~= p + seq!['"']);
    assert(strip_start(q, '"') == strip_start(p + seq!['"'], '"'));
    lemma_strip_start_append(p, '"');
    if strip_start(p, '"').len() == 0 {
        lemma_strip_end_empty('"');
        assert(strip_end(strip_start(p, '"'), '"') =~= Seq::<char>::empty());
    } else {
        lemma_strip_end_append(strip_start(p, '"'), '"');
    }
    assert(strip_both(trim(q), '"') == strip_both(trim(p), '"'));
}

proof fn lemma_trim_start_prefix(y: Seq<char>, t: Seq<char>)
    requires
        t.len() > 0,
        !is_ws(t[0]),
    ensures
        crate::text::trim_start(y + t) == crate::text::trim_start(y) + t,
    decreases y.len(),
{
    if y.len() == 0 {
        assert(y + t =~= t);
        assert(crate::text::trim_start(y) + t =~= t);
    } else if is_ws(y[0]) {
        assert((y + t)[0] == y[0]);
        assert((y + t).drop_first() =~= y.drop_first() + t);
        lemma_trim_start_prefix(y.drop_first(), t);
    } else {
        assert((y + t)[0] == y[0]);
    }
}

proof fn lemma_strip_start_prefix(y: Seq<char>, t: Seq<char>, q: char)
    requires
        t.len() > 0,
        t[0] != q,
    ensures
        strip_start(y + t, q) == strip_start(y, q) + t,
    decreases y.len(),
{
    if y.len() == 0 {
        assert(y + t =~= t);
        assert(strip_start(y, q) + t =~= t);
    } else if y[0] == q {
        assert((y + t)[0] == y[0]);
        assert((y + t).drop_first() =~= y.drop_first() + t);
        lemma_strip_start_prefix(y.drop_first(), t, q);
    } else {
        assert((y + t)[0] == y[0]);
    }
}

proof fn lemma_last_component_after(z: Seq<char>, sep: char, b: Seq<char>)
    requires
        is_path_separator(sep),
        forall|k: int| 0 <= k < b.len() ==> !is_path_separator(#[trigger] b[k]),
    ensures
        last_component(z + seq![sep] + b) == b,
    decreases b.len(),
{
    let x = z + seq![sep] + b;
    if b.len() == 0 {
        assert(x.last() == sep);
        assert(b =~= Seq::<char>::empty());
    } else {
        assert(x.last() == b.last());
        assert(x.drop_last() =~= z + seq![sep] + b.drop_last());
        lemma_last_component_after(z, sep, b.drop_last());
        assert(b.drop_last().push(b.last()) =~= b);
    }
}

proof fn lemma_trim_start_append_space(s: Seq<char>)
    ensures
        crate::text::trim_start(s + seq![' ']) == (if crate::text::trim_start(s).len() == 0 {
            Seq::<char>::empty()
        } else {
            crate::text::trim_start(s) + seq![' ']
        }),
    decreases s.len(),
{
    if s.len() == 0 {
        assert(s + seq![' '] =~= seq![' ']);
        assert(seq![' '].drop_first() =~= Seq::<char>::empty());
        assert(crate::text::trim_start(Seq::<char>::empty()) == Seq::<char>::empty());
        assert(crate::text::trim_start(s) == s);
    } else if is_ws(s[0]) {
        assert((s + seq![' '])[0] == s[0]);
        assert((s + seq![' ']).drop_first() =~= s.drop_first() + seq![' ']);
        lemma_trim_start_append_space(s.drop_first());
    } else {
        assert((s + seq![' '])[0] == s[0]);
    }
}

/// White space around a path or name does not change the executable name.
pub proof fn lemma_spaces_do_not_matter(p: Seq<char>)
    ensures
        executable_name(seq![' '] + p + seq![' ']) == executable_name(p),
{
    let q = seq![' '] + p + seq![' '];
    assert(q[0] == ' ');
    assert(q.drop_first() =~= p + seq![' ']);
    lemma_trim_start_append_space(p);
    let ts = crate::text::trim_start(p);
    if ts.len() == 0 {
        assert(crate::text::trim_end(Seq::<char>::empty()) == Seq::<char>::empty());
    } else {
        assert((ts + seq![' ']).drop_last() =~= ts);
        assert((ts + seq![' ']).last() == ' ');
    }
    assert(trim(q) == trim(p));
}

/// The executable name of a path is its last component: whatever comes
/// before the last `/` or `\`, only the component after it is kept, in
/// lower case.
pub proof fn lemma_name_is_last_component(a: Seq<char>, sep: char, b: Seq<char>)
    requires
        is_path_separator(sep),
        b.len() > 0,
        !is_ws(b[0]),
        !is_ws(b.last()),
        b.last() != '"',
        forall|k: int| 0 <= k < b.len() ==> !is_path_separator(#[trigger] b[k]),
    ensures
        executable_name(a + seq![sep] + b) == Some(unicode_lowercase(b)),
{
    let t = seq![sep] + b;
    let p = a + seq![sep] + b;
    assert(p =~= a + t);
    assert(t[0] == sep && t.last() == b.last());
    lemma_trim_start_prefix(a, t);
    let ts = crate::text::trim_start(a) + t;
    assert(ts.last() == b.last());
    assert(crate::text::trim_end(ts) == ts);
    lemma_strip_start_prefix(crate::text::trim_start(a), t, '"');
    let ss = strip_start(crate::text::trim_start(a), '"') + t;
    assert(ss.last() == b.last());
    assert(strip_end(ss, '"') == ss);
    assert(ss =~= strip_start(crate::text::trim_start(a), '"') + seq![sep] + b);
    lemma_last_component_after(strip_start(crate::text::trim_start(a), '"'), sep, b);
    crate::text::lemma_trim_plain(b);
}

/// A bare executable name is its own name, in lower case.
pub proof fn lemma_bare_name(b: Seq<char>)
    requires
        b.len() > 0,
        !is_ws(b[0]),
        !is_ws(b.last()),
        b[0] != '"',
        b.last() != '"',
        forall|k: int| 0 <= k < b.len() ==> !is_path_separator(#[trigger] b[k]),
    ensures
        executable_name(b) == Some(unicode_lowercase(b)),
{
    crate::text::lemma_trim_plain(b);
    assert(strip_start(b, '"') == b);
    assert(strip_end(b, '"') == b);
    lemma_last_component_plain(b);
}

proof fn lemma_last_component_plain(b: Seq<char>)
    requires
        forall|k: int| 0 <= k < b.len() ==> !is_path_separator(#[trigger] b[k]),
    ensures
        last_component(b) == b,
    decreases b.len(),
{
    if b.len() > 0 {
        assert(b.last() == b[b.len() - 1]);
        lemma_last_component_plain(b.drop_last());
        assert(b.drop_last().push(b.last()) =~= b);
    }
}

/// The name a configuration line contributes: nothing for blank lines and
/// `#` comments.
pub open spec fn line_entry(line: Seq<char>) -> Option<Seq<char>> {
    let t = trim(line);
    if t.len() == 0 || t[0] == '#' {
        None
    } else {
        executable_name(t)
    }
}

proof fn lemma_strip_start_skip(s: Seq<char>, q: char, i: int)
    requires
        0 <= i <= s.len(),
        forall|k: int| 0 <= k < i ==> #[trigger] s[k] == q,
    ensures
        strip_start(s, q) == strip_start(s.subrange(i, s.len() as int), q),
    decreases i,
{
    if i > 0 {
        assert(s.drop_first() == s.subrange(1, s.len() as int));
        lemma_strip_start_skip(s.drop_first(), q, i - 1);
        assert(s.drop_first().subrange(i - 1, s.drop_first().len() as int) == s.subrange(
            i,
            s.len() as int,
        ));
    } else {
        assert(s.subrange(0, s.len() as int) == s);
    }
}

proof fn lemma_strip_end_cut(s: Seq<char>, q: char, j: int)
    requires
        0 <= j <= s.len(),
        forall|k: int| j <= k < s.len() ==> #[trigger] s[k] == q,
    ensures
        strip_end(s, q) == strip_end(s.subrange(0, j), q),
    decreases s.len() - j,
{
    if j < s.len() {
        assert(s.drop_last() == s.subrange(0, s.len() - 1));
        lemma_strip_end_cut(s.drop_last(), q, j);
        assert(s.drop_last().subrange(0, j) == s.subrange(0, j));
    } else {
        assert(s.subrange(0, j) == s);
    }
}

fn strip_both_chars(s: &[char], q: char) -> (r: Vec<char>)
    ensures
        r@ == strip_both(s@, q),
{
    let n = s.len();
    let mut a: usize = 0;
    while a < n && s[a] == q
        invariant
            a <= n,
            n == s@.len(),
            forall|k: int| 0 <= k < a ==> #[trigger] s@[k] == q,
        decreases n - a,
    {
        a = a + 1;
    }
    proof {
        lemma_strip_start_skip(s@, q, a as int);
        let t = s@.subrange(a as int, n as int);
        if a < n {
            assert(t[0] == s@[a as int]);
        }
        assert(strip_start(t, q) == t);
    }
    let ghost t = s@.subrange(a as int, n as int);
    let mut b: usize = n;
    while b > a && s[b - 1] == q
        invariant
            a <= b <= n,
            n == s@.len(),
            t == s@.subrange(a as int, n as int),
            forall|k: int| b <= k < n ==> #[trigger] s@[k] == q,
        decreases b - a,
    {
        b = b - 1;
    }
    proof {
        let tb = (b - a) as int;
        assert forall|k: int| tb <= k < t.len() implies #[trigger] t[k] == q by {
            assert(t[k] == s@[k + a]);
        }
        lemma_strip_end_cut(t, q, tb);
        let u = t.subrange(0, tb);
        assert(u == s@.subrange(a as int, b as int));
        if tb > 0 {
            assert(u.last() == s@[b - 1]);
        }
        assert(strip_end(u, q) == u);
    }
    slice_to_vec(s, a, b)
}

proof fn lemma_last_component_from(s: Seq<char>, k: int)
    requires
        0 <= k <= s.len(),
        forall|j: int| k <= j < s.len() ==> !is_path_separator(#[trigger] s[j]),
        k == 0 || is_path_separator(s[k - 1]),
    ensures
        last_component(s) == s.subrange(k, s.len() as int),
    decreases s.len(),
{
    if s.len() == 0 {
    } else if k == s.len() {
        assert(s.subrange(k, s.len() as int) =~= Seq::<char>::empty());
    } else {
        assert(!is_path_separator(s[s.len() - 1]));
        let p = s.drop_last();
        if k > 0 {
            assert(p[k - 1] == s[k - 1]);
        }
        lemma_last_component_from(p, k);
        assert(s.subrange(k, s.len() as int) =~= p.subrange(k, p.len() as int).push(s.last()));
    }
}

fn last_component_chars(s: &[char]) -> (r: Vec<char>)
    ensures
        r@ == last_component(s@),
{
    let mut k = s.len();
    while k > 0 && !(s[k - 1] == '/' || s[k - 1] == '\\')
        invariant
            k <= s@.len(),
            forall|j: int| k <= j < s@.len() ==> !is_path_separator(#[trigger] s@[j]),
        decreases k,
    {
        k = k - 1;
    }
    proof {
        lemma_last_component_from(s@, k as int);
    }
    slice_to_vec(s, k, s.len())
}

fn normalize_executable_name(path_or_name: &[char]) -> (r: Option<Vec<char>>)
    ensures
        match r {
            Some(n) => executable_name(path_or_name@) == Some(n@),
            None => executable_name(path_or_name@) is None,
        },
{
    let trimmed = trim_chars(path_or_name);
    let unquoted = strip_both_chars(&trimmed, '"');
    let last = last_component_chars(&unquoted);
    let name = trim_chars(&last);
    if name.len() == 0 {
        None
    } else {
        Some(to_lowercase(&name))
    }
}

fn line_entry_chars(line: &[char]) -> (r: Option<Vec<char>>)
    ensures
        match r {
            Some(n) => line_entry(line@) == Some(n@),
            None => line_entry(line@) is None,
        },
{
    let t = trim_chars(line);
    if t.len() == 0 || t[0] == '#' {
        None
    } else {
        normalize_executable_name(&t)
    }
}

/// The views of a vector of strings.
pub open spec fn string_views(v: Seq<String>) -> Seq<Seq<char>> {
    v.map_values(|s: String| s@)
}

/// Case-insensitive executable-name exclusion policy.
#[derive(Debug, Clone, PartialEq, Eq)]
pub struct ExclusionPolicy {
    executable_names: Vec<String>,
}

/// The names contributed by `lines`, in order.
pub open spec fn line_names(lines: Seq<Seq<char>>) -> Set<Seq<char>> {
    Set::new(|n: Seq<char>| exists|i: int| 0 <= i < lines.len() && line_entry(#[trigger] lines[i]) == Some(n))
}

/// Each line contributes at most one name.
pub proof fn lemma_line_names_bounded(lines: Seq<Seq<char>>)
    ensures
        line_names(lines).finite(),
        line_names(lines).len() <= lines.len(),
    decreases lines.len(),
{
    if lines.len() == 0 {
        assert(line_names(lines) =~= Set::<Seq<char>>::empty());
    } else {
        let init = lines.drop_last();
        lemma_line_names_bounded(init);
        let extra = match line_entry(lines.last()) {
            Some(n) => set![n],
            None => Set::<Seq<char>>::empty(),
        };
        assert(line_names(lines) =~= line_names(init).union(extra)) by {
            assert forall|n: Seq<char>| line_names(lines).contains(n) implies line_names(init).union(extra).contains(n) by {
                let i = choose|i: int| 0 <= i < lines.len() && line_entry(#[trigger] lines[i]) == Some(n);
                if i < lines.len() - 1 {
                    assert(init[i] == lines[i]);
                }
            }
            assert forall|n: Seq<char>| line_names(init).union(extra).contains(n) implies line_names(lines).contains(n) by {
                if line_names(init).contains(n) {
                    let i = choose|i: int| 0 <= i < init.len() && line_entry(#[trigger] init[i]) == Some(n);
                    assert(lines[i] == init[i]);
                } else {
                    assert(line_entry(lines[lines.len() - 1]) == Some(n));
                }
            }
        }
        vstd::set_lib::lemma_len_union(line_names(init), extra);
    }
}

pub open spec fn str_views(lines: Seq<&str>) -> Seq<Seq<char>> {
    lines.map_values(|l: &str| l@)
}

impl ExclusionPolicy {
    /// The excluded executable names, each once.
    pub closed spec fn names(&self) -> Seq<Seq<char>> {
        string_views(self.executable_names@)
    }

    pub open spec fn name_set(&self) -> Set<Seq<char>> {
        self.names().to_set()
    }

    pub open spec fn wf(&self) -> bool {
        self.names().no_duplicates()
    }

    /// The built-in list of password managers and credential prompts.
    pub fn default_policy() -> (r: ExclusionPolicy)
        ensures
            r.wf(),
            r.name_set() == line_names(default_line_views()),
    {
        let lines = default_lines();
        let r = Self::from_lines(&lines);
        r
    }

    /// A policy holding the names that `lines` contribute.
    pub fn from_lines(lines: &[&str]) -> (r: ExclusionPolicy)
        ensures
            r.wf(),
            r.name_set() == line_names(str_views(lines@)),
    {
        let mut policy = ExclusionPolicy { executable_names: Vec::new() };
        assert(policy.name_set() =~= Set::<Seq<char>>::empty());
        policy.extend_lines(lines);
        assert(policy.name_set() =~= line_names(str_views(lines@)));
        policy
    }

    /// Add the names that `lines` contribute.
    pub fn extend_lines(&mut self, lines: &[&str])
        requires
            old(self).wf(),
        ensures
            final(self).wf(),
            final(self).name_set() == old(self).name_set().union(line_names(str_views(lines@))),
            final(self).name_set().len() <= old(self).name_set().len() + lines@.len(),
    {
        proof {
            lemma_line_names_bounded(str_views(lines@));
            old(self).names().unique_seq_to_set();
            vstd::set_lib::lemma_len_union(old(self).name_set(), line_names(str_views(lines@)));
        }
        let mut i: usize = 0;
        while i < lines.len()
            invariant
                i <= lines@.len(),
                self.wf(),
                self.name_set() == old(self).name_set().union(
                    line_names(str_views(lines@).subrange(0, i as int)),
                ),
            decreases lines.len() - i,
        {
            let line = chars_of(lines[i]);
            let ghost before = self.name_set();
            let ghost pre = str_views(lines@).subrange(0, i as int);
            let ghost next = str_views(lines@).subrange(0, i + 1);
            assert(next[i as int] == lines@[i as int]@);
            match line_entry_chars(&line) {
                Some(name) => {
                    self.insert_name(name);
                    assert(line_names(next) =~= line_names(pre).insert(name@)) by {
                        assert forall|n: Seq<char>| line_names(next).contains(n) implies line_names(
                            pre,
                        ).insert(name@).contains(n) by {
                            let j = choose|j: int|
                                0 <= j < next.len() && line_entry(#[trigger] next[j]) == Some(n);
                            if j < i {
                                assert(pre[j] == next[j]);
                            }
                        }
                        assert forall|n: Seq<char>| line_names(pre).insert(name@).contains(
                            n,
                        ) implies line_names(next).contains(n) by {
                            if n == name@ {
                                assert(line_entry(next[i as int]) == Some(n));
                            } else {
                                let j = choose|j: int|
                                    0 <= j < pre.len() && line_entry(#[trigger] pre[j]) == Some(n);
                                assert(pre[j] == next[j]);
                            }
                        }
                    }
                },
                None => {
                    assert(line_names(next) =~= line_names(pre)) by {
                        assert forall|n: Seq<char>| line_names(next).contains(n) implies line_names(
                            pre,
                        ).contains(n) by {
                            let j = choose|j: int|
                                0 <= j < next.len() && line_entry(#[trigger] next[j]) == Some(n);
                            if j < i {
                                assert(pre[j] == next[j]);
                            }
                        }
                        assert forall|n: Seq<char>| line_names(pre).contains(n) implies line_names(
                            next,
                        ).contains(n) by {
                            let j = choose|j: int|
                                0 <= j < pre.len() && line_entry(#[trigger] pre[j]) == Some(n);
                            assert(pre[j] == next[j]);
                        }
                    }
                },
            }
            i = i + 1;
        }
        assert(str_views(lines@).subrange(0, lines@.len() as int) == str_views(lines@));
    }

    fn insert_name(&mut self, name: Vec<char>)
        requires
            old(self).wf(),
        ensures
            final(self).wf(),
            final(self).name_set() == old(self).name_set().insert(name@),
    {
        if self.find(&name) {
            assert(self.name_set().insert(name@) =~= self.name_set());
            return;
        }
        let ghost before = self.names();
        self.executable_names.push(string_of(&name));
        assert(self.names() =~= before.push(name@));
        proof {
            assert(self.names().no_duplicates()) by {
                assert forall|a: int, b: int|
                    0 <= a < self.names().len() && 0 <= b < self.names().len() && a != b implies self.names()[a]
                    != self.names()[b] by {
                    if a < before.len() && b < before.len() {
                    } else if a == before.len() {
                        assert(before[b] == self.names()[b]);
                        assert(before.contains(before[b]));
                    } else {
                        assert(before[a] == self.names()[a]);
                        assert(before.contains(before[a]));
                    }
                }
            }
            assert(self.names().to_set() =~= before.to_set().insert(name@)) by {
                assert forall|n: Seq<char>| self.names().to_set().contains(n) implies before.to_set().insert(name@).contains(n) by {
                    let j = choose|j: int| 0 <= j < self.names().len() && self.names()[j] == n;
                    if j < before.len() {
                        assert(before[j] == n);
                    }
                }
                assert forall|n: Seq<char>| before.to_set().insert(name@).contains(n) implies self.names().to_set().contains(n) by {
                    if n == name@ {
                        assert(self.names()[before.len() as int] == n);
                    } else {
                        let j = choose|j: int| 0 <= j < before.len() && before[j] == n;
                        assert(self.names()[j] == n);
                    }
                }
            }
        }
    }

    fn find(&self, name: &Vec<char>) -> (r: bool)
        ensures
            r == self.names().contains(name@),
    {
        let target = string_of(name);
        let mut i: usize = 0;
        while i < self.executable_names.len()
            invariant
                i <= self.names().len(),
                self.names().len() == self.executable_names@.len(),
                target@ == name@,
                forall|k: int| 0 <= k < i ==> self.names()[k] != name@,
            decreases self.executable_names.len() - i,
        {
            if self.executable_names[i] == target {
                assert(self.names()[i as int] == name@);
                return true;
            }
            assert(self.names()[i as int] == self.executable_names@[i as int]@);
            i = i + 1;
        }
        false
    }

    /// Whether the executable that `path_or_name` names is excluded.
    pub fn is_excluded(&self, path_or_name: &str) -> (r: bool)
        ensures
            r == match executable_name(path_or_name@) {
                Some(n) => self.name_set().contains(n),
                None => false,
            },
    {
        match normalize_executable_name(&chars_of(path_or_name)) {
            Some(n) => self.find(&n),
            None => false,
        }
    }

    /// The number of distinct excluded names.
    pub fn len(&self) -> (r: usize)
        requires
            self.wf(),
        ensures
            r == self.name_set().len(),
    {
        proof {
            self.names().unique_seq_to_set();
        }
        self.executable_names.len()
    }

    pub fn is_empty(&self) -> (r: bool)
        requires
            self.wf(),
        ensures
            r == (self.name_set().len() == 0),
    {
        proof {
            self.names().unique_seq_to_set();
        }
        self.executable_names.len() == 0
    }

    /// The normalized form in which a path or name is stored.
    pub fn normalize_entry(path_or_name: &str) -> (r: Option<String>)
        ensures
            match r {
                Some(n) => executable_name(path_or_name@) == Some(n@),
                None => executable_name(path_or_name@) is None,
            },
    {
        match normalize_executable_name(&chars_of(path_or_name)) {
            Some(n) => Some(string_of(&n)),
            None => None,
        }
    }
}

/// The built-in exclusion lines, as characters.
pub open spec fn default_line_views() -> Seq<Seq<char>> {
    seq![
        seq!['1', 'P', 'a', 's', 's', 'w', 'o', 'r', 'd', '.', 'e', 'x', 'e'],
        seq!['A', 'u', 't', 'o', 'K', 'e', 'y', 'b', 'o', 'a', 'r', 'd', 'L', 'a', 'y', 'o', 't', '.', 'e', 'x', 'e'],
        seq!['B', 'i', 't', 'w', 'a', 'r', 'd', 'e', 'n', '.', 'e', 'x', 'e'],
        seq!['C', 'o', 'n', 's', 'e', 'n', 't', '.', 'e', 'x', 'e'],
        seq!['C', 'r', 'e', 'd', 'e', 'n', 't', 'i', 'a', 'l', 'U', 'I', 'B', 'r', 'o', 'k', 'e', 'r', '.', 'e', 'x', 'e'],
        seq!['K', 'e', 'e', 'P', 'a', 's', 's', '.', 'e', 'x', 'e'],
        seq!['K', 'e', 'e', 'P', 'a', 's', 's', 'X', 'C', '.', 'e', 'x', 'e'],
        seq!['L', 'o', 'g', 'o', 'n', 'U', 'I', '.', 'e', 'x', 'e'],
    ]
}

/// The built-in exclusion lines.
pub fn default_lines() -> (r: Vec<&'static str>)
    ensures
        str_views(r@) == default_line_views(),
{
    proof {
        reveal_strlit("1Password.exe");
        reveal_strlit("AutoKeyboardLayot.exe");
        reveal_strlit("Bitwarden.exe");
        reveal_strlit("Consent.exe");
        reveal_strlit("CredentialUIBroker.exe");
        reveal_strlit("KeePass.exe");
        reveal_strlit("KeePassXC.exe");
        reveal_strlit("LogonUI.exe");
    }
    let r =     vec![
        "1Password.exe",
        "AutoKeyboardLayot.exe",
        "Bitwarden.exe",
        "Consent.exe",
        "CredentialUIBroker.exe",
        "KeePass.exe",
        "KeePassXC.exe",
        "LogonUI.exe",
    ];
    assert(r@[0]@ =~= seq!['1', 'P', 'a', 's', 's', 'w', 'o', 'r', 'd', '.', 'e', 'x', 'e']);
    assert(r@[1]@ =~= seq!['A', 'u', 't', 'o', 'K', 'e', 'y', 'b', 'o', 'a', 'r', 'd', 'L', 'a', 'y', 'o', 't', '.', 'e', 'x', 'e']);
    assert(r@[2]@ =~= seq!['B', 'i', 't', 'w', 'a', 'r', 'd', 'e', 'n', '.', 'e', 'x', 'e']);
    assert(r@[3]@ =~= seq!['C', 'o', 'n', 's', 'e', 'n', 't', '.', 'e', 'x', 'e']);
    assert(r@[4]@ =~= seq!['C', 'r', 'e', 'd', 'e', 'n', 't', 'i', 'a', 'l', 'U', 'I', 'B', 'r', 'o', 'k', 'e', 'r', '.', 'e', 'x', 'e']);
    assert(r@[5]@ =~= seq!['K', 'e', 'e', 'P', 'a', 's', 's', '.', 'e', 'x', 'e']);
    assert(r@[6]@ =~= seq!['K', 'e', 'e', 'P', 'a', 's', 's', 'X', 'C', '.', 'e', 'x', 'e']);
    assert(r@[7]@ =~= seq!['L', 'o', 'g', 'o', 'n', 'U', 'I', '.', 'e', 'x', 'e']);
    assert(str_views(r@) =~= default_line_views());
    r
}

impl Default for ExclusionPolicy {
    fn default() -> (r: ExclusionPolicy)
        ensures
            r.wf(),
            r.name_set() == line_names(default_line_views()),
    {
        Self::default_policy()
    }
}

} // verus!
