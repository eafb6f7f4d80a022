//! The editing session that is kept between runs, the user's settings, and
//! saved bookmarks.

use vstd::prelude::*;
use std::collections::BTreeMap;
use crate::editor::{join_vec_lines, lines_view, split_lines};
use crate::model::{join_lines, text_lines};
use crate::laws::{lemma_split_after_newline, lemma_split_join};
use crate::text::{chars_of, push_char, string_of};

verus! {

/// The directory that was open and the files that had buffers.
pub struct Session {
    pub path: String,
    pub bufs: Vec<String>,
}

/// The names that a session stores: the directory, then each file.
pub open spec fn session_lines(path: Seq<char>, bufs: Seq<Seq<char>>) -> Seq<Seq<char>> {
    seq![path] + bufs
}

/// How one character of a name is stored: a backslash and a line break are
/// written as two-character escapes.
pub open spec fn escape_char(c: char) -> Seq<char> {
    if c == '\\' {
        seq!['\\', '\\']
    } else if c == '\n' {
        seq!['\\', 'n']
    } else {
        seq![c]
    }
}

/// A name as it is stored.
pub open spec fn escape(s: Seq<char>) -> Seq<char>
    decreases s.len(),
{
    if s.len() == 0 {
        Seq::empty()
    } else {
        escape(s.drop_last()) + escape_char(s.last())
    }
}

/// A stored name read back: `\n` is a line break, a backslash keeps the
/// character after it, and a final lone backslash stands for itself.
pub open spec fn unescape(t: Seq<char>) -> Seq<char>
    decreases t.len(),
{
    if t.len() == 0 {
        Seq::empty()
    } else if t[0] == '\\' && t.len() >= 2 {
        seq![
            if t[1] == 'n' {
                '\n'
            } else {
                t[1]
            },
        ] + unescape(t.subrange(2, t.len() as int))
    } else {
        seq![t[0]] + unescape(t.drop_first())
    }
}

/// The stored text: each name escaped and ended by a line break.
pub open spec fn session_text(path: Seq<char>, bufs: Seq<Seq<char>>) -> Seq<char> {
    let ls = session_lines(path, bufs);
    join_lines(Seq::new(ls.len(), |i: int| escape(ls[i]))) + seq!['\n']
}

/// The names that a stored text holds, one per line.
pub open spec fn stored_names(t: Seq<char>) -> Seq<Seq<char>> {
    Seq::new(text_lines(t).len(), |i: int| unescape(text_lines(t)[i]))
}

fn escape_into(out: &mut Vec<char>, s: &str)
    ensures
        final(out)@ == old(out)@ + escape(s@),
{
    let v = chars_of(s);
    let mut i: usize = 0;
    proof {
        assert(v@.subrange(0, 0) =~= Seq::<char>::empty());
        assert(old(out)@ + escape(Seq::<char>::empty()) =~= old(out)@);
    }
    while i < v.len()
        invariant
            v@ == s@,
            i <= v@.len(),
            out@ == old(out)@ + escape(v@.subrange(0, i as int)),
        decreases v@.len() - i,
    {
        let c = v[i];
        if c == '\\' {
            out.push('\\');
            out.push('\\');
        } else if c == '\n' {
            out.push('\\');
            out.push('n');
        } else {
            out.push(c);
        }
        proof {
            let next = v@.subrange(0, i as int + 1);
            assert(next.drop_last() =~= v@.subrange(0, i as int));
            assert(next.last() == c);
            assert(out@ =~= old(out)@ + escape(next));
        }
        i = i + 1;
    }
    proof {
        assert(v@.subrange(0, v@.len() as int) =~= s@);
    }
}

fn unescape_chars(t: &Vec<char>) -> (r: String)
    ensures
        r@ == unescape(t@),
{
    let mut out: Vec<char> = Vec::new();
    let mut i: usize = 0;
    proof {
        assert(t@.subrange(0, t@.len() as int) =~= t@);
    }
    while i < t.len()
        invariant
            i <= t@.len(),
            unescape(t@) == out@ + unescape(t@.subrange(i as int, t@.len() as int)),
        decreases t@.len() - i,
    {
        let ghost rest = t@.subrange(i as int, t@.len() as int);
        if t[i] == '\\' && i + 1 < t.len() {
            let c = if t[i + 1] == 'n' {
                '\n'
            } else {
                t[i + 1]
            };
            out.push(c);
            proof {
                assert(rest.subrange(2, rest.len() as int) =~= t@.subrange(i as int + 2, t@.len() as int));
                assert(out@ + unescape(t@.subrange(i as int + 2, t@.len() as int)) =~= out@.drop_last() + (
                seq![c] + unescape(rest.subrange(2, rest.len() as int))));
            }
            i = i + 2;
        } else {
            out.push(t[i]);
            proof {
                assert(rest.drop_first() =~= t@.subrange(i as int + 1, t@.len() as int));
                assert(out@ + unescape(t@.subrange(i as int + 1, t@.len() as int)) =~= out@.drop_last() + (
                seq![rest[0]] + unescape(rest.drop_first())));
            }
            i = i + 1;
        }
    }
    proof {
        assert(t@.subrange(i as int, t@.len() as int) =~= Seq::<char>::empty());
        assert(out@ + Seq::<char>::empty() =~= out@);
    }
    string_of(&out)
}

impl Session {
    pub closed spec fn bufs_view(&self) -> Seq<Seq<char>> {
        Seq::new(self.bufs@.len(), |i: int| self.bufs@[i]@)
    }

    /// Reads a stored session: the first line is the directory, each
    /// further line a file.
    pub fn load(text: &str) -> (r: Session)
        ensures
            session_lines(r.path@, r.bufs_view()) == stored_names(text@),
    {
        let lines = split_lines(text);
        let path = unescape_chars(&lines[0]);
        let mut bufs: Vec<String> = Vec::new();
        let mut i: usize = 1;
        while i < lines.len()
            invariant
                1 <= i <= lines@.len(),
                bufs@.len() == i - 1,
                forall|j: int| 0 <= j < bufs@.len() ==> (#[trigger] bufs@[j])@ == unescape(lines@[j + 1]@),
            decreases lines@.len() - i,
        {
            bufs.push(unescape_chars(&lines[i]));
            i = i + 1;
        }
        let r = Session { path, bufs };
        proof {
            assert forall|j: int| 0 <= j < lines@.len() implies #[trigger] session_lines(r.path@, r.bufs_view())[j]
                == stored_names(text@)[j] by {
                assert(lines_view(lines@)[j] == lines@[j]@);
                if j > 0 {
                    assert(r.bufs_view()[j - 1] == bufs@[j - 1]@);
                }
            }
            assert(session_lines(r.path@, r.bufs_view()) =~= stored_names(text@));
        }
        r
    }

    /// The text that stores the session.
    pub fn save(&self) -> (r: String)
        ensures
            r@ == session_text(self.path@, self.bufs_view()),
    {
        let ghost ls = session_lines(self.path@, self.bufs_view());
        let mut lines: Vec<Vec<char>> = Vec::new();
        let mut first: Vec<char> = Vec::new();
        escape_into(&mut first, self.path.as_str());
        lines.push(first);
        let mut i: usize = 0;
        while i < self.bufs.len()
            invariant
                ls == session_lines(self.path@, self.bufs_view()),
                i <= self.bufs@.len(),
                lines@.len() == i + 1,
                forall|j: int| 0 <= j <= i ==> (#[trigger] lines@[j])@ == escape(ls[j]),
            decreases self.bufs@.len() - i,
        {
            let mut e: Vec<char> = Vec::new();
            escape_into(&mut e, self.bufs[i].as_str());
            proof {
                assert(ls[i + 1] == self.bufs@[i as int]@);
                assert(e@ =~= escape(ls[i + 1]));
            }
            lines.push(e);
            i = i + 1;
        }
        proof {
            assert(lines_view(lines@) =~= Seq::new(ls.len(), |k: int| escape(ls[k])));
        }
        let mut out = join_vec_lines(&lines);
        push_char(&mut out, '\n');
        out
    }
}

proof fn lemma_escape_no_break(s: Seq<char>)
    ensures
        !escape(s).contains('\n'),
    decreases s.len(),
{
    if s.len() > 0 {
        lemma_escape_no_break(s.drop_last());
        let e = escape(s);
        if e.contains('\n') {
            let j = choose|j: int| 0 <= j < e.len() && e[j] == '\n';
            let front = escape(s.drop_last());
            if j < front.len() {
                assert(front[j] == '\n');
            }
        }
    }
}

proof fn lemma_unescape_escape(s: Seq<char>, u: Seq<char>)
    ensures
        unescape(escape(s) + u) == s + unescape(u),
    decreases s.len(),
{
    if s.len() == 0 {
        assert(escape(s) + u =~= u);
        assert(s + unescape(u) =~= unescape(u));
    } else {
        let c = s.last();
        let ec = escape_char(c);
        lemma_unescape_escape(s.drop_last(), ec + u);
        assert(escape(s) + u =~= escape(s.drop_last()) + (ec + u));
        let t = ec + u;
        if c == '\\' {
            assert(t.subrange(2, t.len() as int) =~= u);
        } else if c == '\n' {
            assert(t.subrange(2, t.len() as int) =~= u);
        } else {
            assert(t.drop_first() =~= u);
        }
        assert(unescape(t) == seq![c] + unescape(u));
        assert(s.drop_last() + (seq![c] + unescape(u)) =~= s + unescape(u));
    }
}

/// Saving and loading a session give it back: the stored text reads back as
/// exactly the directory and files that were stored, whatever their names.
pub proof fn law_session_round_trip(path: Seq<char>, bufs: Seq<Seq<char>>)
    ensures
        forall|p: Seq<char>, b: Seq<Seq<char>>|
            #[trigger] session_lines(p, b) == stored_names(session_text(path, bufs)) ==> p == path
                && b == bufs,
{
    let ls = session_lines(path, bufs);
    let es = Seq::new(ls.len(), |i: int| escape(ls[i]));
    assert forall|i: int| 0 <= i < es.len() implies !(#[trigger] es[i]).contains('\n') by {
        lemma_escape_no_break(ls[i]);
    }
    lemma_split_join(es);
    lemma_split_after_newline(join_lines(es), Seq::empty());
    assert(join_lines(es) + seq!['\n'] =~= join_lines(es) + seq!['\n'] + Seq::<char>::empty());
    assert(text_lines(session_text(path, bufs)) =~= es);
    assert forall|i: int| 0 <= i < ls.len() implies #[trigger] stored_names(session_text(path, bufs))[i]
        == ls[i] by {
        lemma_unescape_escape(ls[i], Seq::empty());
        assert(escape(ls[i]) + Seq::<char>::empty() =~= escape(ls[i]));
        assert(ls[i] + unescape(Seq::<char>::empty()) =~= ls[i]);
    }
    assert(stored_names(session_text(path, bufs)) =~= ls);
    assert forall|p: Seq<char>, b: Seq<Seq<char>>|
        #[trigger] session_lines(p, b) == stored_names(session_text(path, bufs)) implies p == path
        && b == bufs by {
        assert(session_lines(p, b)[0] == p);
        assert(session_lines(p, b).drop_first() =~= b);
        assert(ls.drop_first() =~= bufs);
    }
}

/// The user's settings: window size and bookmarked directories, each
/// optional.
pub struct Conf {
    pub width: Option<i32>,
    pub height: Option<i32>,
    pub bookmarks: Option<Vec<String>>,
}

impl Default for Conf {
    fn default() -> (r: Conf)
        ensures
            r.width is None,
            r.height is None,
            r.bookmarks is None,
    {
        Conf { width: None, height: None, bookmarks: None }
    }
}

/// A saved directory and numbered bookmarks.
pub struct SaveData {
    pub path: String,
    pub bookmarks: BTreeMap<usize, String>,
}

} // verus!
