//! Directory listing navigation: the order of entries, hidden names, and
//! which entry is selected.

use vstd::prelude::*;
use crate::search::{match_starts, SearchPattern};
use crate::text::chars_of;

verus! {

/// The selection in a listing: the parent-directory row, or an entry.
#[derive(Clone, Copy, Debug, PartialEq, Eq, Structural)]
pub enum Pick {
    Up,
    Entry(usize),
}

/// What entering the selection asks for.
#[derive(Debug, PartialEq, Eq)]
pub enum Enter {
    /// Go to the parent directory.
    Back,
    /// Open this entry: change into it if it is a directory, else open it.
    Open(String),
}

/// A name that starts with a dot is hidden.
pub open spec fn hidden(name: Seq<char>) -> bool {
    name.len() > 0 && name[0] == '.'
}

pub fn is_hidden(name: &str) -> (r: bool)
    ensures
        r == hidden(name@),
{
    name.unicode_len() > 0 && name.get_char(0) == '.'
}

/// The names that a listing shows, in order: when hiding, names that are
/// not hidden only.
pub open spec fn shown(names: Seq<Seq<char>>, hide: bool) -> Seq<Seq<char>>
    decreases names.len(),
{
    if names.len() == 0 {
        Seq::empty()
    } else {
        let rest = shown(names.drop_last(), hide);
        if hide && hidden(names.last()) {
            rest
        } else {
            rest.push(names.last())
        }
    }
}

pub open spec fn names_view(v: Seq<String>) -> Seq<Seq<char>> {
    Seq::new(v.len(), |i: int| v[i]@)
}

fn keep_shown(names: &Vec<String>, hide: bool, out: &mut Vec<String>)
    ensures
        names_view(final(out)@) == names_view(old(out)@) + shown(names_view(names@), hide),
{
    let mut i: usize = 0;
    while i < names.len()
        invariant
            i <= names@.len(),
            names_view(out@) == names_view(old(out)@) + shown(
                names_view(names@).subrange(0, i as int),
                hide,
            ),
        decreases names@.len() - i,
    {
        let ghost pre = names_view(names@).subrange(0, i as int);
        proof {
            let next = names_view(names@).subrange(0, i as int + 1);
            assert(next.drop_last() =~= pre);
            assert(next.last() == names@[i as int]@);
            assert(shown(next, hide) == if hide && hidden(names@[i as int]@) {
                shown(pre, hide)
            } else {
                shown(pre, hide).push(names@[i as int]@)
            });
        }
        if !(hide && is_hidden(names[i].as_str())) {
            let ghost before = names_view(out@);
            out.push(names[i].clone());
            proof {
                assert(names_view(out@) =~= before.push(names@[i as int]@));
                assert(names_view(out@) =~= names_view(old(out)@) + shown(
                    names_view(names@).subrange(0, i as int + 1),
                    hide,
                ));
            }
        }
        i = i + 1;
    }
    proof {
        assert(names_view(names@).subrange(0, names@.len() as int) =~= names_view(names@));
    }
}

/// Name order: character by character, a prefix first.
pub open spec fn name_lt(a: Seq<char>, b: Seq<char>) -> bool
    decreases a.len(),
{
    if a.len() == 0 {
        b.len() > 0
    } else if b.len() == 0 {
        false
    } else if a[0] != b[0] {
        a[0] < b[0]
    } else {
        name_lt(a.drop_first(), b.drop_first())
    }
}

/// Names in strictly increasing order, so without repeats.
pub open spec fn ordered(s: Seq<Seq<char>>) -> bool {
    forall|i: int, j: int| 0 <= i < j < s.len() ==> name_lt(s[i], s[j])
}

/// `s` lists the names of `names` in order, each once.
pub open spec fn listing(s: Seq<Seq<char>>, names: Seq<Seq<char>>) -> bool {
    &&& ordered(s)
    &&& forall|x: Seq<char>| s.contains(x) <==> names.contains(x)
}

proof fn lemma_name_lt_trans(a: Seq<char>, b: Seq<char>, c: Seq<char>)
    requires
        name_lt(a, b),
        name_lt(b, c),
    ensures
        name_lt(a, c),
    decreases a.len(),
{
    if a.len() > 0 && b.len() > 0 && c.len() > 0 && a[0] == b[0] && b[0] == c[0] {
        lemma_name_lt_trans(a.drop_first(), b.drop_first(), c.drop_first());
    }
}

proof fn lemma_name_lt_total(a: Seq<char>, b: Seq<char>)
    requires
        a != b,
        !name_lt(a, b),
    ensures
        name_lt(b, a),
    decreases a.len(),
{
    if a.len() == 0 {
        assert(b.len() == 0);
        assert(a =~= b);
    } else if b.len() > 0 && a[0] == b[0] {
        if a.drop_first() == b.drop_first() {
            assert(a =~= seq![a[0]] + a.drop_first());
            assert(b =~= seq![b[0]] + b.drop_first());
        }
        lemma_name_lt_total(a.drop_first(), b.drop_first());
    }
}

fn less(a: &Vec<char>, b: &Vec<char>) -> (r: bool)
    ensures
        r == name_lt(a@, b@),
{
    let mut i: usize = 0;
    proof {
        assert(a@.subrange(0, a@.len() as int) =~= a@);
        assert(b@.subrange(0, b@.len() as int) =~= b@);
    }
    while i < a.len() && i < b.len() && a[i] == b[i]
        invariant
            i <= a@.len(),
            i <= b@.len(),
            name_lt(a@, b@) == name_lt(
                a@.subrange(i as int, a@.len() as int),
                b@.subrange(i as int, b@.len() as int),
            ),
        decreases a@.len() - i,
    {
        proof {
            assert(a@.subrange(i as int, a@.len() as int).drop_first() =~= a@.subrange(i as int + 1, a@.len() as int));
            assert(b@.subrange(i as int, b@.len() as int).drop_first() =~= b@.subrange(i as int + 1, b@.len() as int));
        }
        i = i + 1;
    }
    if i == a.len() {
        i < b.len()
    } else if i == b.len() {
        false
    } else {
        a[i] < b[i]
    }
}

/// Adds `name` to an ordered listing unless it is there already.
fn insert_name(out: &mut Vec<String>, name: &String)
    requires
        ordered(names_view(old(out)@)),
    ensures
        ordered(names_view(final(out)@)),
        forall|x: Seq<char>| names_view(final(out)@).contains(x) <==> (names_view(old(out)@).contains(x) || x == name@),
{
    let key = chars_of(name.as_str());
    let ghost o = names_view(out@);
    let mut p: usize = 0;
    while p < out.len() && less(&chars_of(out[p].as_str()), &key)
        invariant
            o == names_view(out@),
            p <= out@.len(),
            key@ == name@,
            forall|j: int| 0 <= j < p ==> name_lt(o[j], name@),
        decreases out@.len() - p,
    {
        p = p + 1;
    }
    if p < out.len() && out[p] == *name {
        proof {
            assert(o[p as int] == name@);
        }
        return;
    }
    proof {
        if p < o.len() {
            assert(o[p as int] != name@);
            lemma_name_lt_total(o[p as int], name@);
        }
    }
    out.insert(p, name.clone());
    proof {
        let n = names_view(out@);
        assert(n =~= o.insert(p as int, name@));
        assert forall|i: int, j: int| 0 <= i < j < n.len() implies name_lt(n[i], n[j]) by {
            if j < p {
            } else if j == p {
            } else if i < p {
                assert(n[j] == o[j - 1]);
                if j - 1 > p {
                    lemma_name_lt_trans(name@, o[p as int], o[j - 1]);
                }
                lemma_name_lt_trans(o[i], name@, o[j - 1]);
            } else if i == p {
                assert(n[j] == o[j - 1]);
                if j - 1 > p {
                    lemma_name_lt_trans(name@, o[p as int], o[j - 1]);
                }
            } else {
                assert(n[i] == o[i - 1]);
                assert(n[j] == o[j - 1]);
            }
        }
        assert forall|x: Seq<char>| n.contains(x) <==> (o.contains(x) || x == name@) by {
            if o.contains(x) {
                let k = choose|k: int| 0 <= k < o.len() && o[k] == x;
                if k < p {
                    assert(n[k] == x);
                } else {
                    assert(n[k + 1] == x);
                }
            }
            if x == name@ {
                assert(n[p as int] == x);
            }
            if n.contains(x) {
                let k = choose|k: int| 0 <= k < n.len() && n[k] == x;
                if k < p {
                    assert(o[k] == x);
                } else if k > p {
                    assert(o[k - 1] == x);
                }
            }
        }
    }
}

/// The names of `v` in order, each once.
fn sort_names(v: &Vec<String>) -> (r: Vec<String>)
    ensures
        listing(names_view(r@), names_view(v@)),
{
    let mut out: Vec<String> = Vec::new();
    let mut i: usize = 0;
    while i < v.len()
        invariant
            i <= v@.len(),
            ordered(names_view(out@)),
            forall|x: Seq<char>| names_view(out@).contains(x) <==> names_view(v@).subrange(0, i as int).contains(x),
        decreases v@.len() - i,
    {
        insert_name(&mut out, &v[i]);
        proof {
            let before = names_view(v@).subrange(0, i as int);
            let after = names_view(v@).subrange(0, i as int + 1);
            assert(after =~= before.push(v@[i as int]@));
            assert forall|x: Seq<char>| after.contains(x) <==> (before.contains(x) || x == v@[i as int]@) by {
                if before.contains(x) {
                    let k = choose|k: int| 0 <= k < before.len() && before[k] == x;
                    assert(after[k] == x);
                }
                if x == v@[i as int]@ {
                    assert(after[i as int] == x);
                }
                if after.contains(x) {
                    let k = choose|k: int| 0 <= k < after.len() && after[k] == x;
                    if k < i {
                        assert(before[k] == x);
                    }
                }
            }
        }
        i = i + 1;
    }
    proof {
        assert(names_view(v@).subrange(0, v@.len() as int) =~= names_view(v@));
    }
    out
}

/// A directory's listing: the directories, then the files, each in name
/// order without repeats, and without hidden names when `hide` is set.
pub fn arrange(dirs: &Vec<String>, files: &Vec<String>, hide: bool) -> (r: Vec<String>)
    ensures
        exists|k: int|
            0 <= k <= r@.len() && listing(
                names_view(r@).subrange(0, k),
                shown(names_view(dirs@), hide),
            ) && listing(
                names_view(r@).subrange(k, r@.len() as int),
                shown(names_view(files@), hide),
            ),
{
    let mut d: Vec<String> = Vec::new();
    keep_shown(dirs, hide, &mut d);
    let mut f: Vec<String> = Vec::new();
    keep_shown(files, hide, &mut f);
    let mut out = sort_names(&d);
    let k = out.len();
    let mut rest = sort_names(&f);
    let ghost a = names_view(out@);
    let ghost b = names_view(rest@);
    out.append(&mut rest);
    proof {
        assert(names_view(Seq::<String>::empty()) =~= Seq::<Seq<char>>::empty());
        assert(names_view(d@) =~= shown(names_view(dirs@), hide));
        assert(names_view(f@) =~= shown(names_view(files@), hide));
        assert(names_view(out@).subrange(0, k as int) =~= a);
        assert(names_view(out@).subrange(k as int, out@.len() as int) =~= b);
    }
    out
}

/// The selection a listing starts with: its first entry, or the parent row
/// when it is empty.
pub open spec fn first_pick(n: nat) -> Pick {
    if n == 0 {
        Pick::Up
    } else {
        Pick::Entry(0)
    }
}

/// Whether the pattern matches somewhere in `name`.
pub open spec fn name_matches(pattern: Seq<char>, name: Seq<char>) -> bool {
    match_starts(pattern, name).len() > 0
}

/// The last index in `lo..hi` whose name the pattern matches.
pub open spec fn last_match_in(pattern: Seq<char>, names: Seq<Seq<char>>, lo: int, hi: int) -> Option<
    int,
>
    decreases hi - lo,
{
    if hi <= lo {
        None
    } else if name_matches(pattern, names[hi - 1]) {
        Some(hi - 1)
    } else {
        last_match_in(pattern, names, lo, hi - 1)
    }
}

/// The first index in `lo..hi` whose name the pattern matches.
pub open spec fn first_match_in(pattern: Seq<char>, names: Seq<Seq<char>>, lo: int, hi: int) -> Option<
    int,
>
    decreases hi - lo,
{
    if hi <= lo {
        None
    } else if name_matches(pattern, names[lo]) {
        Some(lo)
    } else {
        first_match_in(pattern, names, lo + 1, hi)
    }
}

/// The index that the selection stands for: 0 for the parent row.
pub open spec fn pick_index(p: Pick) -> int {
    match p {
        Pick::Up => 0,
        Pick::Entry(i) => i as int,
    }
}

/// A directory listing with a selection.
pub struct FileBrowser {
    path: String,
    entries: Vec<String>,
    cursor: Pick,
    pattern: Option<SearchPattern>,
}

impl FileBrowser {
    pub closed spec fn path_view(&self) -> Seq<char> {
        self.path@
    }

    pub closed spec fn entries_view(&self) -> Seq<Seq<char>> {
        names_view(self.entries@)
    }

    pub closed spec fn pick(&self) -> Pick {
        self.cursor
    }

    pub closed spec fn pattern_view(&self) -> Option<Seq<char>> {
        match self.pattern {
            Some(p) => Some(p@),
            None => None,
        }
    }

    /// The selection is the parent row or an existing entry.
    pub open spec fn wf(&self) -> bool {
        match self.pick() {
            Pick::Up => true,
            Pick::Entry(i) => i < self.entries_view().len(),
        }
    }

    /// A listing of `path` with the given entries, the first one selected.
    pub fn new(path: &str, entries: Vec<String>) -> (r: FileBrowser)
        ensures
            r.wf(),
            r.path_view() == path@,
            r.entries_view() == names_view(entries@),
            r.pick() == first_pick(entries@.len()),
            r.pattern_view() is None,
    {
        let cursor = if entries.len() == 0 {
            Pick::Up
        } else {
            Pick::Entry(0)
        };
        FileBrowser { path: path.to_string(), entries, cursor, pattern: None }
    }

    pub fn path(&self) -> (r: &String)
        ensures
            r@ == self.path_view(),
    {
        &self.path
    }

    pub fn entries(&self) -> (r: &Vec<String>)
        ensures
            names_view(r@) == self.entries_view(),
    {
        &self.entries
    }

    pub fn cursor(&self) -> (r: Pick)
        ensures
            r == self.pick(),
    {
        self.cursor
    }

    /// Shows `path` with new entries, the first one selected.
    pub fn cd(&mut self, path: &str, entries: Vec<String>)
        ensures
            final(self).wf(),
            final(self).path_view() == path@,
            final(self).entries_view() == names_view(entries@),
            final(self).pick() == first_pick(entries@.len()),
            final(self).pattern_view() == old(self).pattern_view(),
    {
        self.path = path.to_string();
        self.cursor = if entries.len() == 0 {
            Pick::Up
        } else {
            Pick::Entry(0)
        };
        self.entries = entries;
    }

    /// Installs the pattern that the name searches look for.
    pub fn set_pattern(&mut self, pattern: Option<SearchPattern>)
        requires
            old(self).wf(),
        ensures
            final(self).wf(),
            final(self).pattern_view() == (match pattern {
                Some(p) => Some(p@),
                None => None,
            }),
            final(self).path_view() == old(self).path_view(),
            final(self).entries_view() == old(self).entries_view(),
            final(self).pick() == old(self).pick(),
    {
        self.pattern = pattern;
    }

    /// Selects the last entry from the selection on whose name the pattern
    /// matches; nothing changes without a pattern or a match.
    pub fn search_forward(&mut self)
        requires
            old(self).wf(),
        ensures
            final(self).wf(),
            final(self).path_view() == old(self).path_view(),
            final(self).entries_view() == old(self).entries_view(),
            final(self).pattern_view() == old(self).pattern_view(),
            final(self).pick() == (match old(self).pattern_view() {
                Some(p) => match last_match_in(
                    p,
                    old(self).entries_view(),
                    pick_index(old(self).pick()),
                    old(self).entries_view().len() as int,
                ) {
                    Some(i) => Pick::Entry(i as usize),
                    None => old(self).pick(),
                },
                None => old(self).pick(),
            }),
    {
        let p = match &self.pattern {
            Some(p) => p,
            None => {
                return;
            },
        };
        let lo: usize = match self.cursor {
            Pick::Up => 0,
            Pick::Entry(i) => i,
        };
        let mut i: usize = self.entries.len();
        while i > lo
            invariant
                lo <= i <= self.entries@.len(),
                self.pattern == Some(*p),
                self.path == old(self).path,
                self.entries == old(self).entries,
                self.cursor == old(self).cursor,
                self.pattern == old(self).pattern,
                old(self).wf(),
                lo == pick_index(old(self).pick()),
                last_match_in(p@, self.entries_view(), lo as int, self.entries@.len() as int)
                    == last_match_in(p@, self.entries_view(), lo as int, i as int),
            decreases i,
        {
            let starts = p.starts_in(self.entries[i - 1].as_str());
            proof {
                assert(self.entries_view()[i - 1] == self.entries@[i - 1]@);
            }
            if starts.len() > 0 {
                self.cursor = Pick::Entry(i - 1);
                return;
            }
            i = i - 1;
        }
    }

    /// Selects the first entry before the selection on whose name the
    /// pattern matches; nothing changes without a pattern or a match.
    pub fn search_backwards(&mut self)
        requires
            old(self).wf(),
        ensures
            final(self).wf(),
            final(self).path_view() == old(self).path_view(),
            final(self).entries_view() == old(self).entries_view(),
            final(self).pattern_view() == old(self).pattern_view(),
            final(self).pick() == (match old(self).pattern_view() {
                Some(p) => match first_match_in(p, old(self).entries_view(), 0, pick_index(old(self).pick())) {
                    Some(i) => Pick::Entry(i as usize),
                    None => old(self).pick(),
                },
                None => old(self).pick(),
            }),
    {
        let p = match &self.pattern {
            Some(p) => p,
            None => {
                return;
            },
        };
        let hi: usize = match self.cursor {
            Pick::Up => 0,
            Pick::Entry(i) => i,
        };
        let mut i: usize = 0;
        while i < hi
            invariant
                i <= hi,
                hi <= self.entries@.len(),
                self.pattern == Some(*p),
                self.path == old(self).path,
                self.entries == old(self).entries,
                self.cursor == old(self).cursor,
                self.pattern == old(self).pattern,
                old(self).wf(),
                hi == pick_index(old(self).pick()),
                first_match_in(p@, self.entries_view(), 0, hi as int) == first_match_in(
                    p@,
                    self.entries_view(),
                    i as int,
                    hi as int,
                ),
            decreases hi - i,
        {
            let starts = p.starts_in(self.entries[i].as_str());
            proof {
                assert(self.entries_view()[i as int] == self.entries@[i as int]@);
            }
            if starts.len() > 0 {
                self.cursor = Pick::Entry(i);
                return;
            }
            i = i + 1;
        }
    }

    /// Selects the entry above, or the parent row from the first entry.
    pub fn move_up(&mut self)
        requires
            old(self).wf(),
        ensures
            final(self).wf(),
            final(self).path_view() == old(self).path_view(),
            final(self).entries_view() == old(self).entries_view(),
            final(self).pattern_view() == old(self).pattern_view(),
            final(self).pick() == (match old(self).pick() {
                Pick::Entry(i) => if i == 0 {
                    Pick::Up
                } else {
                    Pick::Entry((i - 1) as usize)
                },
                Pick::Up => Pick::Up,
            }),
    {
        match self.cursor {
            Pick::Entry(i) => {
                if i == 0 {
                    self.cursor = Pick::Up;
                } else {
                    self.cursor = Pick::Entry(i - 1);
                }
            },
            Pick::Up => {},
        }
    }

    /// Selects the entry below, if there is one.
    pub fn move_down(&mut self)
        requires
            old(self).wf(),
        ensures
            final(self).wf(),
            final(self).path_view() == old(self).path_view(),
            final(self).entries_view() == old(self).entries_view(),
            final(self).pattern_view() == old(self).pattern_view(),
            final(self).pick() == (match old(self).pick() {
                Pick::Entry(i) => if i + 1 < old(self).entries_view().len() {
                    Pick::Entry((i + 1) as usize)
                } else {
                    Pick::Entry(i)
                },
                Pick::Up => first_pick(old(self).entries_view().len()),
            }),
    {
        match self.cursor {
            Pick::Entry(i) => {
                let n = self.entries.len();
                proof {
                    assert(i < self.entries_view().len());
                }
                if i + 1 < n {
                    self.cursor = Pick::Entry(i + 1);
                }
            },
            Pick::Up => {
                if self.entries.len() > 0 {
                    self.cursor = Pick::Entry(0);
                }
            },
        }
    }

    /// Selects the first entry named `name`; nothing changes when there is
    /// none.
    pub fn select(&mut self, name: &str)
        requires
            old(self).wf(),
        ensures
            final(self).wf(),
            final(self).path_view() == old(self).path_view(),
            final(self).entries_view() == old(self).entries_view(),
            final(self).pattern_view() == old(self).pattern_view(),
            match final(self).pick() {
                Pick::Entry(i) => (old(self).entries_view().contains(name@) && i < old(self).entries_view().len()
                    && old(self).entries_view()[i as int] == name@ && forall|j: int|
                    0 <= j < i ==> old(self).entries_view()[j] != name@) || (!old(self).entries_view().contains(name@)
                    && final(self).pick() == old(self).pick()),
                Pick::Up => !old(self).entries_view().contains(name@) && final(self).pick() == old(self).pick(),
            },
    {
        let target = name.to_string();
        let mut i: usize = 0;
        while i < self.entries.len()
            invariant
                target@ == name@,
                self.wf(),
                self.path == old(self).path,
                self.entries == old(self).entries,
                self.cursor == old(self).cursor,
                self.pattern == old(self).pattern,
                i <= self.entries@.len(),
                forall|j: int| 0 <= j < i ==> self.entries_view()[j] != name@,
            decreases self.entries@.len() - i,
        {
            if self.entries[i] == target {
                proof {
                    assert(self.entries_view()[i as int] == name@);
                }
                self.cursor = Pick::Entry(i);
                return;
            }
            i = i + 1;
        }
        proof {
            assert(!self.entries_view().contains(name@));
        }
    }

    /// What entering the selection asks for: the parent row goes back, an
    /// entry is opened.
    pub fn enter(&self) -> (r: Enter)
        requires
            self.wf(),
        ensures
            match self.pick() {
                Pick::Up => r == Enter::Back,
                Pick::Entry(i) => match r {
                    Enter::Open(name) => name@ == self.entries_view()[i as int],
                    Enter::Back => false,
                },
            },
    {
        match self.cursor {
            Pick::Up => Enter::Back,
            Pick::Entry(i) => Enter::Open(self.entries[i].clone()),
        }
    }
}

} // verus!
