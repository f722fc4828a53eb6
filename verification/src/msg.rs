//! The language/message store: a flat key→text table with a
//! delimited text format.  A line beginning with `:` opens a named
//! entry, a line consisting solely of `.` closes and commits the
//! accumulated text, and every other line — empty lines included —
//! appends itself verbatim, plus a newline, to the open entry.

use vstd::prelude::*;

verus! {

use crate::text::{str_eq, copy_str, first_idx, lemma_first_idx_props};
use vstd::string::StrSliceExecFns;
use vstd::string::StringExecFns;

/// Keys are pairwise distinct.
pub open spec fn msgs_wf(m: Seq<(Seq<char>, Seq<char>)>) -> bool {
    forall|i: int, j: int| 0 <= i < j < m.len() ==> m[i].0 != m[j].0
}

/// Some entry carries the key.
pub open spec fn has_key(m: Seq<(Seq<char>, Seq<char>)>, k: Seq<char>) -> bool {
    exists|i: int| 0 <= i < m.len() && m[i].0 == k
}

/// The index of the entry carrying the key; meaningful under
/// [`msgs_wf`], where it is unique.
pub open spec fn key_idx(m: Seq<(Seq<char>, Seq<char>)>, k: Seq<char>) -> int {
    choose|i: int| 0 <= i < m.len() && m[i].0 == k
}

/// Insert or replace: an existing key keeps its place, a new key is
/// appended.
pub open spec fn set_model(m: Seq<(Seq<char>, Seq<char>)>, k: Seq<char>, v: Seq<char>) -> Seq<
    (Seq<char>, Seq<char>),
> {
    if has_key(m, k) {
        m.update(key_idx(m, k), (k, v))
    } else {
        m.push((k, v))
    }
}

/// The text stored under the key, if any.
pub open spec fn get_model(m: Seq<(Seq<char>, Seq<char>)>, k: Seq<char>) -> Option<Seq<char>> {
    if has_key(m, k) {
        Some(m[key_idx(m, k)].1)
    } else {
        None
    }
}

/// Split text into lines: each `\n` ends a line, and a final segment
/// without one is a line of its own; an empty final segment is not.
pub open spec fn split_acc(s: Seq<char>, cur: Seq<char>) -> Seq<Seq<char>>
    decreases s.len(),
{
    if s.len() == 0 {
        if cur.len() == 0 {
            Seq::empty()
        } else {
            seq![cur]
        }
    } else if s.first() == '\n' {
        seq![cur] + split_acc(s.drop_first(), Seq::empty())
    } else {
        split_acc(s.drop_first(), cur.push(s.first()))
    }
}

/// The lines of a text.
pub open spec fn lines_of(s: Seq<char>) -> Seq<Seq<char>> {
    split_acc(s, Seq::empty())
}

/// One step of the loader's state machine against one line.  The
/// state is the table and the open entry — its name and its
/// accumulated text — if one is open.
///
/// A line beginning with `:` opens a fresh entry named by the rest
/// of the line, discarding any entry still open.  A line consisting
/// solely of `.` closes the open entry and commits its accumulated
/// text — empty text included; with no entry open it does nothing.
/// Every other line — empty lines included — appends itself plus a
/// newline to the open entry, and is dropped when none is open.
pub open spec fn msg_step(
    m: Seq<(Seq<char>, Seq<char>)>,
    open: Option<(Seq<char>, Seq<char>)>,
    line: Seq<char>,
) -> (Seq<(Seq<char>, Seq<char>)>, Option<(Seq<char>, Seq<char>)>) {
    if line.len() > 0 && line[0] == ':' {
        (m, Some((line.skip(1), Seq::empty())))
    } else if line.len() == 1 && line[0] == '.' {
        match open {
            Some(e) => (set_model(m, e.0, e.1), None),
            None => (m, None),
        }
    } else {
        match open {
            Some(e) => (m, Some((e.0, e.1 + line + seq!['\n']))),
            None => (m, None),
        }
    }
}

/// Folding the loader's state machine over a stream of lines.
pub open spec fn msg_fold(
    m: Seq<(Seq<char>, Seq<char>)>,
    open: Option<(Seq<char>, Seq<char>)>,
    lines: Seq<Seq<char>>,
) -> (Seq<(Seq<char>, Seq<char>)>, Option<(Seq<char>, Seq<char>)>)
    decreases lines.len(),
{
    if lines.len() == 0 {
        (m, open)
    } else {
        let st = msg_step(m, open, lines.first());
        msg_fold(st.0, st.1, lines.drop_first())
    }
}

/// What loading a text into a table yields: the fold over its lines,
/// starting with no open entry.  An entry still open at the end of
/// the text is discarded.
pub open spec fn load_model(m: Seq<(Seq<char>, Seq<char>)>, text: Seq<char>) -> Seq<
    (Seq<char>, Seq<char>),
> {
    msg_fold(m, None, lines_of(text)).0
}

/// One entry's textual shape: `:name`, the text (which carries its
/// own final newline), and the closing `.` line.
pub open spec fn render_entry(name: Seq<char>, value: Seq<char>) -> Seq<char> {
    seq![':'] + name + seq!['\n'] + value + seq!['.', '\n']
}

/// The whole table's textual shape, entry by entry in table order.
pub open spec fn render(m: Seq<(Seq<char>, Seq<char>)>) -> Seq<char>
    decreases m.len(),
{
    if m.len() == 0 {
        Seq::empty()
    } else {
        render_entry(m.first().0, m.first().1) + render(m.drop_first())
    }
}

/// Rendering one more entry appends its shape.
pub proof fn lemma_render_snoc(m: Seq<(Seq<char>, Seq<char>)>, e: (Seq<char>, Seq<char>))
    ensures
        render(m.push(e)) == render(m) + render_entry(e.0, e.1),
    decreases m.len(),
{
    if m.len() == 0 {
        assert(m.push(e).first() == e);
        assert(m.push(e).drop_first() =~= m);
        assert(render(m.push(e)) =~= render(m) + render_entry(e.0, e.1));
    } else {
        assert(m.push(e).first() == m.first());
        assert(m.push(e).drop_first() =~= m.drop_first().push(e));
        lemma_render_snoc(m.drop_first(), e);
        assert(render_entry(m.first().0, m.first().1) + (render(m.drop_first()) + render_entry(
            e.0,
            e.1,
        )) =~= (render_entry(m.first().0, m.first().1) + render(m.drop_first())) + render_entry(
            e.0,
            e.1,
        ));
    }
}

/// The flat key→text string table.
#[derive(Debug)]
pub struct Messages {
    pub entries: Vec<(String, String)>,
}

impl View for Messages {
    type V = Seq<(Seq<char>, Seq<char>)>;

    open spec fn view(&self) -> Seq<(Seq<char>, Seq<char>)> {
        self.entries@.map_values(|e: (String, String)| (e.0@, e.1@))
    }
}

impl Messages {
    /// Keys are pairwise distinct.
    pub open spec fn wf(&self) -> bool {
        msgs_wf(self@)
    }

    /// An empty table.
    pub fn new() -> (r: Messages)
        ensures
            r@ == Seq::<(Seq<char>, Seq<char>)>::empty(),
            r.wf(),
    {
        let r = Messages { entries: Vec::new() };
        proof {
            assert(r@ =~= Seq::<(Seq<char>, Seq<char>)>::empty());
        }
        r
    }

    /// The index of the entry carrying `key`, or `None`.
    fn find_key(&self, key: &str) -> (r: Option<usize>)
        ensures
            match r {
                Some(i) => i < self@.len() && self@[i as int].0 == key@,
                None => !has_key(self@, key@),
            },
    {
        let n = self.entries.len();
        let mut i: usize = 0;
        while i < n
            invariant
                i <= n == self@.len(),
                self@ == self.entries@.map_values(|e: (String, String)| (e.0@, e.1@)),
                forall|q: int| 0 <= q < i ==> self@[q].0 != key@,
            decreases n - i,
        {
            if str_eq(self.entries[i].0.as_str(), key) {
                return Some(i);
            }
            i = i + 1;
        }
        None
    }

    /// Insert or replace the text stored under `name`.
    pub fn set(&mut self, name: &String, value: &String)
        requires
            old(self).wf(),
        ensures
            final(self).wf(),
            final(self)@ == set_model(old(self)@, name@, value@),
    {
        let ghost m0 = self@;
        match self.find_key(name.as_str()) {
            Some(i) => {
                proof {
                    assert(has_key(m0, name@));
                    assert(m0[key_idx(m0, name@)].0 == name@);
                    assert(key_idx(m0, name@) == i as int);
                }
                let e = &mut self.entries[i];
                e.0 = name.clone();
                e.1 = value.clone();
                proof {
                    assert(self@ =~= m0.update(i as int, (name@, value@)));
                }
            },
            None => {
                self.entries.push((name.clone(), value.clone()));
                proof {
                    assert(self@ =~= m0.push((name@, value@)));
                }
            },
        }
    }

    /// The text stored under `key`, if any.
    pub fn get(&self, key: &String) -> (r: Option<&String>)
        requires
            self.wf(),
        ensures
            match r {
                Some(v) => get_model(self@, key@) == Some(v@),
                None => get_model(self@, key@) is None,
            },
    {
        match self.find_key(key.as_str()) {
            Some(i) => {
                proof {
                    assert(has_key(self@, key@));
                    assert(self@[key_idx(self@, key@)].0 == key@);
                    assert(key_idx(self@, key@) == i as int);
                }
                Some(&self.entries[i].1)
            },
            None => None,
        }
    }

    /// Load a language text into the table, per [`load_model`]:
    /// existing entries stay unless the text overwrites them.
    pub fn load_text(&mut self, text: &str)
        requires
            old(self).wf(),
        ensures
            final(self).wf(),
            final(self)@ == load_model(old(self)@, text@),
    {
        let ghost m0 = self@;
        let lines = split_to_lines(text);
        let ghost lm = lines_of(text@);
        let n = lines.len();
        let mut name: String = String::new();
        let mut message: String = String::new();
        let mut open: bool = false;
        let mut i: usize = 0;
        proof {
            assert(lm.take(0) =~= Seq::<Seq<char>>::empty());
        }
        while i < n
            invariant
                i <= n == lm.len(),
                lm == lines.deep_view(),
                self.wf(),
                ({
                    let st = msg_fold(m0, None, lm.take(i as int));
                    &&& self@ == st.0
                    &&& match st.1 {
                        Some(e) => open && name@ == e.0 && message@ == e.1,
                        None => !open,
                    }
                }),
            decreases n - i,
        {
            let ghost pre = msg_fold(m0, None, lm.take(i as int));
            proof {
                assert(lm[i as int] == lines@[i as int]@);
                lemma_msg_fold_snoc(m0, None, lm.take(i as int), lm[i as int]);
                assert(lm.take(i as int).push(lm[i as int]) =~= lm.take(i as int + 1));
            }
            let line = &lines[i];
            let ln = line.as_str().unicode_len();
            if ln > 0 && line.as_str().get_char(0) == ':' {
                name = copy_str(line.as_str().substring_char(1, ln));
                message = String::new();
                open = true;
                proof {
                    assert(name@ =~= lm[i as int].skip(1));
                }
            } else if ln == 1 && line.as_str().get_char(0) == '.' {
                if open {
                    self.set(&name, &message);
                    name = String::new();
                    message = String::new();
                    open = false;
                }
            } else {
                if open {
                    message.append(line.as_str());
                    message.append("\n");
                    proof {
                        reveal_strlit("\n");
                        assert(message@ =~= (pre.1->0).1 + lm[i as int] + seq!['\n']);
                    }
                }
            }
            i = i + 1;
        }
        proof {
            assert(lm.take(i as int) =~= lm);
        }
    }

    /// The table's textual shape, per [`render`]: `:name`, the text,
    /// and a closing `.` line, for each entry in order.
    pub fn save_text(&self) -> (r: String)
        ensures
            r@ == render(self@),
    {
        let ghost m = self@;
        let mut out = String::new();
        let n = self.entries.len();
        let mut i: usize = 0;
        proof {
            assert(m.take(0) =~= Seq::<(Seq<char>, Seq<char>)>::empty());
        }
        while i < n
            invariant
                i <= n == m.len(),
                m == self@,
                self@ == self.entries@.map_values(|e: (String, String)| (e.0@, e.1@)),
                out@ == render(m.take(i as int)),
            decreases n - i,
        {
            proof {
                lemma_render_snoc(m.take(i as int), m[i as int]);
                assert(m.take(i as int).push(m[i as int]) =~= m.take(i as int + 1));
            }
            out.append(":");
            out.append(self.entries[i].0.as_str());
            out.append("\n");
            out.append(self.entries[i].1.as_str());
            out.append(".\n");
            proof {
                reveal_strlit(":");
                reveal_strlit("\n");
                reveal_strlit(".\n");
                assert(out@ =~= render(m.take(i as int)) + render_entry(
                    m[i as int].0,
                    m[i as int].1,
                ));
            }
            i = i + 1;
        }
        proof {
            assert(m.take(i as int) =~= m);
        }
        out
    }
}

/// Folding one more line folds the prefix, then the line.
pub proof fn lemma_msg_fold_snoc(
    m: Seq<(Seq<char>, Seq<char>)>,
    open: Option<(Seq<char>, Seq<char>)>,
    lines: Seq<Seq<char>>,
    x: Seq<char>,
)
    ensures
        ({
            let p = msg_fold(m, open, lines);
            msg_fold(m, open, lines.push(x)) == msg_step(p.0, p.1, x)
        }),
    decreases lines.len(),
{
    if lines.len() == 0 {
        assert(lines.push(x).drop_first() =~= Seq::<Seq<char>>::empty());
        assert(lines.push(x).first() == x);
        let st = msg_step(m, open, x);
        assert(msg_fold(st.0, st.1, lines.push(x).drop_first()) == (st.0, st.1));
    } else {
        assert(lines.push(x).first() == lines.first());
        assert(lines.push(x).drop_first() =~= lines.drop_first().push(x));
        let st0 = msg_step(m, open, lines.first());
        lemma_msg_fold_snoc(st0.0, st0.1, lines.drop_first(), x);
    }
}

/// The lines of a text, as owned strings.
pub fn split_to_lines(text: &str) -> (r: Vec<String>)
    ensures
        r.deep_view() == lines_of(text@),
{
    let n = text.unicode_len();
    let mut out: Vec<String> = Vec::new();
    let mut start: usize = 0;
    let mut i: usize = 0;
    proof {
        assert(text@.skip(0) =~= text@);
        assert(text@.subrange(0, 0) =~= Seq::<char>::empty());
        assert(out.deep_view() =~= Seq::<Seq<char>>::empty());
    }
    while i < n
        invariant
            start <= i <= n == text@.len(),
            lines_of(text@) == out.deep_view() + split_acc(
                text@.skip(i as int),
                text@.subrange(start as int, i as int),
            ),
        decreases n - i,
    {
        let c = text.get_char(i);
        proof {
            assert(text@.skip(i as int).first() == text@[i as int]);
            assert(text@.skip(i as int).drop_first() =~= text@.skip(i as int + 1));
        }
        if c == '\n' {
            let seg = copy_str(text.substring_char(start, i));
            out.push(seg);
            proof {
                assert(out.deep_view() =~= out.deep_view().take(out.deep_view().len() - 1).push(
                    text@.subrange(start as int, i as int),
                ));
                assert(split_acc(
                    text@.skip(i as int),
                    text@.subrange(start as int, i as int),
                ) =~= seq![text@.subrange(start as int, i as int)] + split_acc(
                    text@.skip(i as int + 1),
                    Seq::<char>::empty(),
                ));
                assert(text@.subrange(i as int + 1, i as int + 1) =~= Seq::<char>::empty());
                assert(lines_of(text@) =~= out.deep_view() + split_acc(
                    text@.skip(i as int + 1),
                    text@.subrange(i as int + 1, i as int + 1),
                ));
            }
            start = i + 1;
        } else {
            proof {
                assert(text@.subrange(start as int, i as int).push(text@[i as int]) =~= text@
                    .subrange(start as int, i as int + 1));
            }
        }
        i = i + 1;
    }
    proof {
        assert(text@.skip(i as int) =~= Seq::<char>::empty());
    }
    if start < n {
        let seg = copy_str(text.substring_char(start, n));
        out.push(seg);
        proof {
            assert(split_acc(Seq::<char>::empty(), text@.subrange(start as int, n as int))
                =~= seq![text@.subrange(start as int, n as int)]);
            assert(out.deep_view() =~= out.deep_view().take(out.deep_view().len() - 1).push(
                text@.subrange(start as int, n as int),
            ));
            assert(lines_of(text@) =~= out.deep_view());
        }
    } else {
        proof {
            assert(text@.subrange(start as int, n as int) =~= Seq::<char>::empty());
            assert(split_acc(Seq::<char>::empty(), Seq::<char>::empty()) =~= Seq::<
                Seq<char>,
            >::empty());
            assert(lines_of(text@) =~= out.deep_view());
        }
    }
    out
}

/// An entry name the text format can carry: no newline.
pub open spec fn name_ok(n: Seq<char>) -> bool {
    forall|q: int| 0 <= q < n.len() ==> n[q] != '\n'
}

/// An entry text the format can carry and the loader rebuilds: it is
/// empty or newline-terminated (the loader only ever accumulates
/// whole lines), and no line of it opens with `:` or is exactly `.`.
pub open spec fn value_ok(v: Seq<char>) -> bool {
    &&& v.len() == 0 || v.last() == '\n'
    &&& forall|q: int|
        0 <= q < v.len() && (q == 0 || v[q - 1] == '\n') ==> ((#[trigger] v[q]) != ':' && !(v[q]
            == '.' && (q + 1 == v.len() || v[q + 1] == '\n')))
}

/// Splitting a text that ends with a newline, then more text, splits
/// each part on its own.
proof fn lemma_split_concat(a: Seq<char>, b: Seq<char>, cur: Seq<char>)
    requires
        a.len() > 0,
        a.last() == '\n',
    ensures
        split_acc(a + b, cur) == split_acc(a, cur) + split_acc(b, Seq::empty()),
    decreases a.len(),
{
    assert((a + b).len() == a.len() + b.len());
    assert((a + b).first() == a.first());
    assert((a + b).drop_first() =~= a.drop_first() + b);
    if a.first() == '\n' {
        if a.len() == 1 {
            assert(a.drop_first() =~= Seq::<char>::empty());
            assert(a.drop_first() + b =~= b);
            assert(split_acc(a, cur) =~= seq![cur]);
            assert(split_acc(a + b, cur) =~= seq![cur] + split_acc(b, Seq::empty()));
            assert(split_acc(a, cur) + split_acc(b, Seq::empty()) =~= seq![cur] + split_acc(
                b,
                Seq::empty(),
            ));
        } else {
            assert(a.drop_first().last() == a.last());
            lemma_split_concat(a.drop_first(), b, Seq::empty());
            assert(seq![cur] + (split_acc(a.drop_first(), Seq::empty()) + split_acc(
                b,
                Seq::empty(),
            )) =~= (seq![cur] + split_acc(a.drop_first(), Seq::empty())) + split_acc(
                b,
                Seq::empty(),
            ));
        }
    } else {
        assert(a.len() >= 2);
        assert(a.drop_first().last() == a.last());
        lemma_split_concat(a.drop_first(), b, cur.push(a.first()));
    }
}

/// A newline-free segment plus its newline splits into that one
/// line.
proof fn lemma_split_single(seg: Seq<char>, cur: Seq<char>)
    requires
        forall|q: int| 0 <= q < seg.len() ==> seg[q] != '\n',
    ensures
        split_acc(seg + seq!['\n'], cur) == seq![cur + seg],
    decreases seg.len(),
{
    let s = seg + seq!['\n'];
    if seg.len() == 0 {
        assert(s.first() == '\n');
        assert(s.drop_first() =~= Seq::<char>::empty());
        assert(split_acc(s.drop_first(), Seq::<char>::empty()) =~= Seq::<Seq<char>>::empty());
        assert(split_acc(s, cur) =~= seq![cur] + split_acc(s.drop_first(), Seq::<char>::empty()));
        assert(split_acc(s, cur) =~= seq![cur]);
        assert(cur + seg =~= cur);
        assert(split_acc(s, cur) == seq![cur + seg]);
    } else {
        assert(s.first() == seg[0]);
        assert(s.first() != '\n');
        assert(s.drop_first() =~= seg.drop_first() + seq!['\n']);
        lemma_split_single(seg.drop_first(), cur.push(seg[0]));
        assert(cur.push(seg[0]) + seg.drop_first() =~= cur + seg);
    }
}

/// Folding over a concatenation of line streams folds each in turn.
proof fn lemma_msg_fold_concat(
    m: Seq<(Seq<char>, Seq<char>)>,
    open: Option<(Seq<char>, Seq<char>)>,
    l1: Seq<Seq<char>>,
    l2: Seq<Seq<char>>,
)
    ensures
        ({
            let p = msg_fold(m, open, l1);
            msg_fold(m, open, l1 + l2) == msg_fold(p.0, p.1, l2)
        }),
    decreases l1.len(),
{
    if l1.len() == 0 {
        assert(l1 + l2 =~= l2);
    } else {
        assert((l1 + l2).first() == l1.first());
        assert((l1 + l2).drop_first() =~= l1.drop_first() + l2);
        let st = msg_step(m, open, l1.first());
        lemma_msg_fold_concat(st.0, st.1, l1.drop_first(), l2);
    }
}

/// The first line of a non-empty well-formed entry text, and the
/// split of its lines around it.
proof fn lemma_value_first_line(v: Seq<char>)
    requires
        value_ok(v),
        v.len() > 0,
    ensures
        ({
            let k = first_idx(v, '\n', 0);
            &&& 0 <= k < v.len()
            &&& v[k] == '\n'
            &&& v.take(k + 1) == v.take(k) + seq!['\n']
            &&& lines_of(v) == seq![v.take(k)] + lines_of(v.skip(k + 1))
            &&& v.take(k).len() == k
            &&& v == v.take(k + 1) + v.skip(k + 1)
        }),
{
    let k = first_idx(v, '\n', 0);
    lemma_first_idx_props(v, '\n', 0);
    assert(v[v.len() - 1] == '\n');
    assert(k != -1);
    let head = v.take(k + 1);
    let tail = v.skip(k + 1);
    assert(head.len() > 0 && head.last() == v[k]);
    assert(v =~= head + tail);
    lemma_split_concat(head, tail, Seq::empty());
    assert(head =~= v.take(k) + seq!['\n']);
    assert(forall|q: int| 0 <= q < v.take(k).len() ==> v.take(k)[q] != '\n');
    lemma_split_single(v.take(k), Seq::empty());
    assert(Seq::<char>::empty() + v.take(k) =~= v.take(k));
    assert(lines_of(v) =~= seq![v.take(k)] + lines_of(tail));
}

/// What follows the first line of a well-formed entry text is well
/// formed itself.
proof fn lemma_value_tail_ok(v: Seq<char>)
    requires
        value_ok(v),
        v.len() > 0,
    ensures
        value_ok(v.skip(first_idx(v, '\n', 0) + 1)),
{
    let k = first_idx(v, '\n', 0);
    lemma_first_idx_props(v, '\n', 0);
    assert(v[v.len() - 1] == '\n');
    assert(k != -1);
    let tail = v.skip(k + 1);
    if tail.len() > 0 {
        assert(tail.last() == v.last());
    }
    assert forall|q: int|
        0 <= q < tail.len() && (q == 0 || tail[q - 1] == '\n') implies ((#[trigger] tail[q])
        != ':' && !(tail[q] == '.' && (q + 1 == tail.len() || tail[q + 1] == '\n'))) by {
        assert(tail[q] == v[k + 1 + q]);
        if q == 0 {
            assert(v[k] == '\n');
        } else {
            assert(tail[q - 1] == v[k + q]);
        }
        if q + 1 < tail.len() {
            assert(tail[q + 1] == v[k + 1 + q + 1]);
        }
    }
}

/// Folding the loader over the lines of a well-formed entry text
/// appends that text to the open entry, and nothing else.
#[verifier::rlimit(100)]
#[verifier::spinoff_prover]
proof fn lemma_fold_value(
    m: Seq<(Seq<char>, Seq<char>)>,
    name: Seq<char>,
    acc: Seq<char>,
    v: Seq<char>,
)
    requires
        value_ok(v),
    ensures
        msg_fold(m, Some((name, acc)), lines_of(v)) == (m, Some((name, acc + v))),
    decreases v.len(),
{
    if v.len() == 0 {
        assert(lines_of(v) =~= Seq::<Seq<char>>::empty());
        assert(acc + v =~= acc);
    } else {
        let k = first_idx(v, '\n', 0);
        lemma_value_first_line(v);
        let line = v.take(k);
        let tail = v.skip(k + 1);
        // the first line is body text: it does not open with `:` and
        // is not the bare terminator
        if line.len() > 0 {
            assert(line[0] == v[0]);
            assert(v[0] != ':');
            if line.len() == 1 && line[0] == '.' {
                assert(v[0] == '.' && v[1] == '\n');
            }
        }
        let st = msg_step(m, Some((name, acc)), line);
        assert(st == (m, Some::<(Seq<char>, Seq<char>)>((name, acc + line + seq!['\n']))));
        assert((seq![line] + lines_of(tail)).first() == line);
        assert((seq![line] + lines_of(tail)).drop_first() =~= lines_of(tail));
        assert(acc + line + seq!['\n'] =~= acc + v.take(k + 1));
        lemma_value_tail_ok(v);
        lemma_fold_value(m, name, acc + v.take(k + 1), tail);
        assert(msg_fold(m, Some((name, acc)), lines_of(v)) == (
            m,
            Some::<(Seq<char>, Seq<char>)>((name, (acc + v.take(k + 1)) + tail)),
        ));
        assert((acc + v.take(k + 1)) + tail =~= acc + v);
    }
}

/// Folding the loader over one rendered entry, from any state,
/// commits exactly that entry and leaves none open.
#[verifier::rlimit(60)]
proof fn lemma_fold_entry(
    m: Seq<(Seq<char>, Seq<char>)>,
    open0: Option<(Seq<char>, Seq<char>)>,
    k: Seq<char>,
    v: Seq<char>,
)
    requires
        name_ok(k),
        value_ok(v),
    ensures
        msg_fold(m, open0, lines_of(render_entry(k, v))) == (
            set_model(m, k, v),
            None::<(Seq<char>, Seq<char>)>,
        ),
{
    let a1 = seq![':'] + k + seq!['\n'];
    let a2 = seq!['.', '\n'];
    assert(render_entry(k, v) =~= a1 + (v + a2));
    assert(a1.last() == '\n');
    lemma_split_concat(a1, v + a2, Seq::empty());
    if v.len() == 0 {
        assert(v + a2 =~= a2);
        assert(lines_of(v) =~= Seq::<Seq<char>>::empty());
        assert(lines_of(v + a2) =~= lines_of(v) + lines_of(a2));
    } else {
        assert(v.last() == '\n');
        lemma_split_concat(v, a2, Seq::empty());
        assert(lines_of(v + a2) =~= lines_of(v) + lines_of(a2));
    }
    assert(a1 =~= (seq![':'] + k) + seq!['\n']);
    assert(forall|q: int| 0 <= q < (seq![':'] + k).len() ==> (seq![':'] + k)[q] != '\n');
    lemma_split_single(seq![':'] + k, Seq::empty());
    assert(Seq::<char>::empty() + (seq![':'] + k) =~= seq![':'] + k);
    assert(a2 =~= seq!['.'] + seq!['\n']);
    assert(forall|q: int| 0 <= q < seq!['.'].len() ==> seq!['.'][q] != '\n');
    lemma_split_single(seq!['.'], Seq::empty());
    assert(Seq::<char>::empty() + seq!['.'] =~= seq!['.']);
    assert(lines_of(render_entry(k, v)) =~= seq![seq![':'] + k] + (lines_of(v) + seq![seq!['.']]));
    // step 1: the `:` line opens the entry afresh
    let l0 = seq![':'] + k;
    assert(l0.len() > 0 && l0[0] == ':');
    let st0 = msg_step(m, open0, l0);
    assert(l0.skip(1) =~= k);
    assert(st0 == (m, Some::<(Seq<char>, Seq<char>)>((k, Seq::<char>::empty()))));
    let big = seq![l0] + (lines_of(v) + seq![seq!['.']]);
    assert(big.first() == l0);
    assert(big.drop_first() =~= lines_of(v) + seq![seq!['.']]);
    // steps 2..: the text lines accumulate the text
    lemma_msg_fold_concat(m, Some((k, Seq::empty())), lines_of(v), seq![seq!['.']]);
    lemma_fold_value(m, k, Seq::empty(), v);
    assert(Seq::<char>::empty() + v =~= v);
    // last step: the bare `.` line commits, empty text included
    let ld = seq!['.'];
    assert(ld.len() == 1 && ld[0] == '.');
    let std = msg_step(m, Some((k, v)), ld);
    assert(std == (set_model(m, k, v), None::<(Seq<char>, Seq<char>)>));
    assert(seq![seq!['.']].first() == ld);
    assert(seq![seq!['.']].drop_first() =~= Seq::<Seq<char>>::empty());
    assert(msg_fold(std.0, std.1, seq![seq!['.']].drop_first()) == std);
    assert(msg_fold(m, Some((k, v)), seq![seq!['.']]) == std);
    assert(msg_fold(m, Some((k, Seq::empty())), lines_of(v) + seq![seq!['.']]) == std);
    assert(msg_fold(m, open0, big) == msg_fold(st0.0, st0.1, big.drop_first()));
    assert(msg_fold(m, open0, lines_of(render_entry(k, v))) == std);
}

/// Loading a rendered table into an accumulated table appends every
/// entry, in order.
#[verifier::rlimit(60)]
proof fn lemma_load_render(m_acc: Seq<(Seq<char>, Seq<char>)>, m: Seq<(Seq<char>, Seq<char>)>)
    requires
        forall|i: int, j: int| 0 <= i < j < m.len() ==> m[i].0 != m[j].0,
        forall|i: int| 0 <= i < m.len() ==> !has_key(m_acc, (#[trigger] m[i]).0),
        forall|i: int| 0 <= i < m.len() ==> name_ok((#[trigger] m[i]).0) && value_ok(m[i].1),
    ensures
        msg_fold(m_acc, None, lines_of(render(m))) == (
            m_acc + m,
            None::<(Seq<char>, Seq<char>)>,
        ),
    decreases m.len(),
{
    if m.len() == 0 {
        assert(render(m) == Seq::<char>::empty());
        assert(lines_of(render(m)) =~= Seq::<Seq<char>>::empty());
        assert(m_acc + m =~= m_acc);
    } else {
        let e = m.first();
        let rest = m.drop_first();
        assert(e == m[0]);
        assert(name_ok(e.0) && value_ok(e.1));
        assert(render(m) == render_entry(e.0, e.1) + render(rest));
        assert(render_entry(e.0, e.1).last() == '\n');
        assert(render_entry(e.0, e.1).len() > 0);
        lemma_split_concat(render_entry(e.0, e.1), render(rest), Seq::empty());
        lemma_msg_fold_concat(
            m_acc,
            None,
            lines_of(render_entry(e.0, e.1)),
            lines_of(render(rest)),
        );
        lemma_fold_entry(m_acc, None, e.0, e.1);
        assert(!has_key(m_acc, e.0));
        assert(set_model(m_acc, e.0, e.1) == m_acc.push(e));
        assert forall|i: int| 0 <= i < rest.len() implies !has_key(
            m_acc.push(e),
            (#[trigger] rest[i]).0,
        ) by {
            assert(rest[i] == m[i + 1]);
            if has_key(m_acc.push(e), rest[i].0) {
                let w = key_idx(m_acc.push(e), rest[i].0);
                assert(m_acc.push(e)[w].0 == rest[i].0);
                if w < m_acc.len() {
                    assert(has_key(m_acc, m[i + 1].0));
                } else {
                    assert(m[0].0 == m[i + 1].0);
                }
            }
        }
        assert forall|i: int, j: int| 0 <= i < j < rest.len() implies rest[i].0 != rest[j].0 by {
            assert(rest[i] == m[i + 1] && rest[j] == m[j + 1]);
        }
        assert forall|i: int| 0 <= i < rest.len() implies name_ok((#[trigger] rest[i]).0)
            && value_ok(rest[i].1) by {
            assert(rest[i] == m[i + 1]);
        }
        lemma_load_render(m_acc.push(e), rest);
        assert(m_acc.push(e) + rest =~= m_acc + m);
    }
}

/// Round trip: saving the table and loading the text into an empty
/// table yields the table saved, entry for entry, whenever every
/// name is newline-free and every text is one the format can carry
/// (empty or newline-terminated, no line opening with `:`, no line
/// exactly `.`).
pub proof fn lemma_save_load_roundtrip(m: Seq<(Seq<char>, Seq<char>)>)
    requires
        msgs_wf(m),
        forall|i: int| 0 <= i < m.len() ==> name_ok((#[trigger] m[i]).0) && value_ok(m[i].1),
    ensures
        load_model(Seq::empty(), render(m)) == m,
{
    let empty_acc = Seq::<(Seq<char>, Seq<char>)>::empty();
    assert forall|i: int| 0 <= i < m.len() implies !has_key(empty_acc, (#[trigger] m[i]).0) by {}
    lemma_load_render(empty_acc, m);
    assert(empty_acc + m =~= m);
}

} // verus!
