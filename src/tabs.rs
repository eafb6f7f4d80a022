//! The open buffers as tabs: ids in the order they were opened, the current
//! one, and what kind of buffer a file gets.

use vstd::prelude::*;
use crate::text::chars_of;

verus! {

/// What the main area shows.
#[derive(Clone, Copy, Debug, PartialEq, Eq, Structural)]
pub enum Pane {
    Browser,
    Buffer,
    Term,
}

/// How a file is opened, by its extension.
#[derive(Clone, Copy, Debug, PartialEq, Eq, Structural)]
pub enum Kind {
    Text,
    Image,
    Model,
    Music,
    /// Handed to the system's default program.
    External,
}

pub open spec fn kind_of(ext: Seq<char>) -> Kind {
    if ext == seq!['p', 'n', 'g'] || ext == seq!['j', 'p', 'g'] {
        Kind::Image
    } else if ext == seq!['g', 'l', 'b'] || ext == seq!['o', 'b', 'j'] {
        Kind::Model
    } else if ext == seq!['m', 'p', '3'] || ext == seq!['o', 'g', 'g'] || ext == seq!['w', 'a', 'v'] {
        Kind::Music
    } else if ext == seq!['b', 'l', 'e', 'n', 'd'] || ext == seq!['a', 's', 'e'] || ext == seq![
        'p',
        'd',
        'f',
    ] || ext == seq!['a', 'p', 'p'] || ext == seq!['m', 'p', '4'] {
        Kind::External
    } else {
        Kind::Text
    }
}

fn is3(e: &Vec<char>, a: char, b: char, c: char) -> (r: bool)
    ensures
        r == (e@ == seq![a, b, c]),
{
    let r = e.len() == 3 && e[0] == a && e[1] == b && e[2] == c;
    proof {
        if r {
            assert(e@ =~= seq![a, b, c]);
        } else if e@.len() == 3 {
            assert(e@[0] != a || e@[1] != b || e@[2] != c);
            assert(seq![a, b, c][0] == a && seq![a, b, c][1] == b && seq![a, b, c][2] == c);
        }
    }
    r
}

fn is_blend(e: &Vec<char>) -> (r: bool)
    ensures
        r == (e@ == seq!['b', 'l', 'e', 'n', 'd']),
{
    let r = e.len() == 5 && e[0] == 'b' && e[1] == 'l' && e[2] == 'e' && e[3] == 'n' && e[4]
        == 'd';
    proof {
        let w = seq!['b', 'l', 'e', 'n', 'd'];
        if r {
            assert(e@ =~= w);
        } else if e@.len() == 5 {
            assert(w[0] == 'b' && w[1] == 'l' && w[2] == 'e' && w[3] == 'n' && w[4] == 'd');
            assert(e@[0] != w[0] || e@[1] != w[1] || e@[2] != w[2] || e@[3] != w[3] || e@[4]
                != w[4]);
        }
    }
    r
}

/// The kind of buffer that a file with extension `ext` opens in.
pub fn kind_for_extension(ext: &str) -> (r: Kind)
    ensures
        r == kind_of(ext@),
{
    let e = chars_of(ext);
    if is3(&e, 'p', 'n', 'g') || is3(&e, 'j', 'p', 'g') {
        Kind::Image
    } else if is3(&e, 'g', 'l', 'b') || is3(&e, 'o', 'b', 'j') {
        Kind::Model
    } else if is3(&e, 'm', 'p', '3') || is3(&e, 'o', 'g', 'g') || is3(&e, 'w', 'a', 'v') {
        Kind::Music
    } else if is_blend(&e) || is3(&e, 'a', 's', 'e') || is3(&e, 'p', 'd', 'f') || is3(
        &e,
        'a',
        'p',
        'p',
    ) || is3(&e, 'm', 'p', '4') {
        Kind::External
    } else {
        Kind::Text
    }
}

pub open spec fn increasing(s: Seq<usize>) -> bool {
    forall|i: int, j: int| 0 <= i < j < s.len() ==> s[i] < s[j]
}

/// The ids of the open buffers, oldest first, and the current one.
pub struct Tabs {
    ids: Vec<usize>,
    cur: Option<usize>,
    next_id: usize,
    pane: Pane,
}

impl Tabs {
    pub closed spec fn ids_view(&self) -> Seq<usize> {
        self.ids@
    }

    pub closed spec fn current(&self) -> Option<usize> {
        self.cur
    }

    pub closed spec fn next(&self) -> nat {
        self.next_id as nat
    }

    pub closed spec fn shown(&self) -> Pane {
        self.pane
    }

    /// Ids are increasing and below the next id to give out; the current id
    /// is open.
    pub open spec fn wf(&self) -> bool {
        &&& increasing(self.ids_view())
        &&& forall|i: int| 0 <= i < self.ids_view().len() ==> self.ids_view()[i] < self.next()
        &&& match self.current() {
            Some(id) => self.ids_view().contains(id),
            None => true,
        }
    }

    pub fn new() -> (r: Tabs)
        ensures
            r.wf(),
            r.ids_view().len() == 0,
            r.current() is None,
            r.shown() == Pane::Browser,
    {
        Tabs { ids: Vec::new(), cur: None, next_id: 0, pane: Pane::Browser }
    }

    pub fn pane(&self) -> (r: Pane)
        ensures
            r == self.shown(),
    {
        self.pane
    }

    pub fn set_pane(&mut self, v: Pane)
        ensures
            final(self).shown() == v,
            final(self).ids_view() == old(self).ids_view(),
            final(self).current() == old(self).current(),
            final(self).next() == old(self).next(),
    {
        self.pane = v;
    }

    pub fn current_id(&self) -> (r: Option<usize>)
        ensures
            r == self.current(),
    {
        self.cur
    }

    pub fn ids(&self) -> (r: &Vec<usize>)
        ensures
            r@ == self.ids_view(),
    {
        &self.ids
    }

    /// Position of `id` among the open ids.
    pub fn position(&self, id: usize) -> (r: Option<usize>)
        requires
            self.wf(),
        ensures
            match r {
                Some(n) => n < self.ids_view().len() && self.ids_view()[n as int] == id,
                None => !self.ids_view().contains(id),
            },
    {
        let mut i: usize = 0;
        while i < self.ids.len()
            invariant
                i <= self.ids@.len(),
                forall|j: int| 0 <= j < i ==> self.ids@[j] != id,
            decreases self.ids@.len() - i,
        {
            if self.ids[i] == id {
                return Some(i);
            }
            i = i + 1;
        }
        None
    }

    /// Shows the `n`-th open buffer, if there is one.
    pub fn to_nth(&mut self, n: usize)
        requires
            old(self).wf(),
        ensures
            final(self).wf(),
            final(self).ids_view() == old(self).ids_view(),
            final(self).next() == old(self).next(),
            n < old(self).ids_view().len() ==> final(self).current() == Some(old(self).ids_view()[n as int])
                && final(self).shown() == Pane::Buffer,
            n >= old(self).ids_view().len() ==> final(self).current() == old(self).current()
                && final(self).shown() == old(self).shown(),
    {
        if n < self.ids.len() {
            self.cur = Some(self.ids[n]);
            self.pane = Pane::Buffer;
        }
    }

    /// Opens a new buffer id and shows it.
    pub fn add(&mut self) -> (r: usize)
        requires
            old(self).wf(),
            old(self).next() < usize::MAX,
        ensures
            final(self).wf(),
            r == old(self).next(),
            final(self).ids_view() == old(self).ids_view().push(r),
            final(self).current() == Some(r),
            final(self).next() == old(self).next() + 1,
            final(self).shown() == Pane::Buffer,
    {
        let id = self.next_id;
        self.ids.push(id);
        self.next_id = id + 1;
        self.cur = Some(id);
        self.pane = Pane::Buffer;
        proof {
            assert(self.ids@.contains(id)) by {
                assert(self.ids@[self.ids@.len() - 1] == id);
            }
        }
        id
    }

    /// Shows the previous buffer, wrapping to the last; with none current,
    /// the last one becomes current.
    pub fn to_prev(&mut self)
        requires
            old(self).wf(),
        ensures
            final(self).wf(),
            old(self).current() is Some ==> final(self).shown() == Pane::Buffer,
            old(self).current() is None ==> final(self).shown() == old(self).shown(),
            final(self).ids_view() == old(self).ids_view(),
            final(self).next() == old(self).next(),
            old(self).ids_view().len() > 0 ==> final(self).current() == Some(
                old(self).ids_view()[match old(self).current() {
                    Some(id) => {
                        let n = choose|n: int| 0 <= n < old(self).ids_view().len() && old(self).ids_view()[n] == id;
                        if n > 0 { n - 1 } else { old(self).ids_view().len() - 1 }
                    },
                    None => old(self).ids_view().len() - 1,
                }],
            ),
            old(self).ids_view().len() == 0 ==> final(self).current() is None,
    {
        match self.cur {
            Some(id) => {
                match self.position(id) {
                    Some(n) => {
                        proof {
                            lemma_unique_position(self.ids@, id, n as int);
                        }
                        if n > 0 {
                            self.to_nth(n - 1);
                        } else {
                            self.to_nth(self.ids.len() - 1);
                        }
                    },
                    None => {},
                }
            },
            None => {
                if self.ids.len() > 0 {
                    self.cur = Some(self.ids[self.ids.len() - 1]);
                    proof {
                        assert(self.ids@.contains(self.ids@[self.ids@.len() - 1]));
                    }
                }
            },
        }
    }

    /// Shows the next buffer, wrapping to the first; with none current, the
    /// first one becomes current.
    pub fn to_next(&mut self)
        requires
            old(self).wf(),
        ensures
            final(self).wf(),
            old(self).current() is Some ==> final(self).shown() == Pane::Buffer,
            old(self).current() is None ==> final(self).shown() == old(self).shown(),
            final(self).ids_view() == old(self).ids_view(),
            final(self).next() == old(self).next(),
            old(self).ids_view().len() > 0 ==> final(self).current() == Some(
                old(self).ids_view()[match old(self).current() {
                    Some(id) => {
                        let n = choose|n: int| 0 <= n < old(self).ids_view().len() && old(self).ids_view()[n] == id;
                        if n + 1 < old(self).ids_view().len() { n + 1 } else { 0 }
                    },
                    None => 0,
                }],
            ),
            old(self).ids_view().len() == 0 ==> final(self).current() is None,
    {
        match self.cur {
            Some(id) => {
                match self.position(id) {
                    Some(n) => {
                        proof {
                            lemma_unique_position(self.ids@, id, n as int);
                        }
                        let len = self.ids.len();
                        if n + 1 < len {
                            self.to_nth(n + 1);
                        } else {
                            self.to_nth(0);
                        }
                    },
                    None => {},
                }
            },
            None => {
                if self.ids.len() > 0 {
                    self.cur = Some(self.ids[0]);
                    proof {
                        assert(self.ids@.contains(self.ids@[0]));
                    }
                }
            },
        }
    }

    /// Closes buffer `id` unless it may not be closed. Closing the current
    /// buffer shows its left neighbour, or else its right one; with no
    /// buffer left none is current and the browser shows. Returns whether
    /// the id was closed.
    pub fn close(&mut self, id: usize, closable: bool) -> (r: bool)
        requires
            old(self).wf(),
        ensures
            final(self).wf(),
            final(self).next() == old(self).next(),
            r == (closable && old(self).ids_view().contains(id)),
            r ==> final(self).ids_view() == old(self).ids_view().remove(
                choose|n: int| 0 <= n < old(self).ids_view().len() && old(self).ids_view()[n] == id,
            ),
            !r ==> final(self).ids_view() == old(self).ids_view() && final(self).current() == old(self).current(),
            r && old(self).current() == Some(id) ==> final(self).current() == ({
                let s = old(self).ids_view();
                let n = choose|n: int| 0 <= n < s.len() && s[n] == id;
                if n > 0 {
                    Some(s[n - 1])
                } else if n + 1 < s.len() {
                    Some(s[n + 1])
                } else {
                    None
                }
            }),
            r && old(self).current() != Some(id) ==> final(self).current() == old(self).current(),
            r && final(self).ids_view().len() == 0 && old(self).shown() == Pane::Buffer ==> final(self).shown()
                == Pane::Browser,
            !(r && final(self).ids_view().len() == 0 && old(self).shown() == Pane::Buffer) ==> final(self).shown()
                == old(self).shown(),
    {
        let pos = self.position(id);
        let n = match pos {
            Some(n) => n,
            None => {
                return false;
            },
        };
        if !closable {
            return false;
        }
        proof {
            lemma_unique_position(self.ids@, id, n as int);
        }
        let len = self.ids.len();
        let new_cur = if self.cur == Some(id) {
            if n > 0 {
                Some(self.ids[n - 1])
            } else if n + 1 < len {
                Some(self.ids[n + 1])
            } else {
                None
            }
        } else {
            self.cur
        };
        let ghost before = self.ids@;
        proof {
            match new_cur {
                Some(c) => {
                    if self.cur == Some(id) {
                        if n > 0 {
                            assert(before[n - 1] < before[n as int]);
                            assert(before.contains(c));
                        } else {
                            assert(before[n as int] < before[n + 1]);
                            assert(before.contains(c));
                        }
                    }
                },
                None => {},
            }
        }
        self.ids.remove(n);
        self.cur = new_cur;
        proof {
            lemma_remove_keeps(before, n as int, self.next_id as nat, new_cur, id);
        }
        if self.pane == Pane::Buffer && self.ids.len() == 0 {
            self.pane = Pane::Browser;
        }
        true
    }
}

/// Removing an id keeps the ids increasing and below the bound, and keeps
/// every other id.
proof fn lemma_remove_keeps(s: Seq<usize>, n: int, bound: nat, keep: Option<usize>, id: usize)
    requires
        increasing(s),
        forall|i: int| 0 <= i < s.len() ==> s[i] < bound,
        0 <= n < s.len(),
        s[n] == id,
        match keep {
            Some(c) => s.contains(c) && c != id,
            None => true,
        },
    ensures
        increasing(s.remove(n)),
        forall|i: int| 0 <= i < s.remove(n).len() ==> s.remove(n)[i] < bound,
        match keep {
            Some(c) => s.remove(n).contains(c),
            None => true,
        },
{
    let r = s.remove(n);
    assert forall|i: int, j: int| 0 <= i < j < r.len() implies r[i] < r[j] by {
        let bi = if i < n { i } else { i + 1 };
        let bj = if j < n { j } else { j + 1 };
        assert(r[i] == s[bi]);
        assert(r[j] == s[bj]);
    }
    assert forall|i: int| 0 <= i < r.len() implies r[i] < bound by {
        let bi = if i < n { i } else { i + 1 };
        assert(r[i] == s[bi]);
    }
    match keep {
        Some(c) => {
            let k = choose|k: int| 0 <= k < s.len() && s[k] == c;
            if k < n {
                assert(r[k] == c);
            } else {
                assert(k != n);
                assert(r[k - 1] == c);
            }
        },
        None => {},
    }
}

/// In increasing ids an id stands at one position only.
pub proof fn lemma_unique_position(s: Seq<usize>, id: usize, n: int)
    requires
        increasing(s),
        0 <= n < s.len(),
        s[n] == id,
    ensures
        forall|m: int| 0 <= m < s.len() && s[m] == id ==> m == n,
        (choose|m: int| 0 <= m < s.len() && s[m] == id) == n,
{
    assert forall|m: int| 0 <= m < s.len() && s[m] == id implies m == n by {
        if m < n {
            assert(s[m] < s[n]);
        } else if m > n {
            assert(s[n] < s[m]);
        }
    }
}

} // verus!
