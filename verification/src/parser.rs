//! The config-file parser: a state machine over the lines of a
//! line-oriented configuration file, carrying the current section
//! between lines.  Each line is classified by its first character —
//! comment, section header, or content — and content is either raw
//! passthrough (for a lines section) or a `key=value` assignment
//! applied to the store.  Per-line failures are reported and never
//! abort the parse.

use vstd::prelude::*;

verus! {

use crate::value::SetError;
use crate::text::{copy_str, count_char, first_idx};
use crate::store::{
    Config, SectionModel, set_value_model, append_line_model, is_lines_model, store_wf,
};
use vstd::string::StrSliceExecFns;
use vstd::string::StringExecFns;

/// A per-line, recoverable parse diagnostic.
#[derive(Clone, Copy, Debug, PartialEq, Eq, Structural)]
pub enum LineDiag {
    /// A section header without its closing bracket.
    MalformedHeader,
    /// A content line without exactly one `=`.
    MalformedAssignment,
    /// The assignment names no property of the current section.
    UnknownProperty,
    /// The value failed integer coercion.
    BadInt,
    /// The value failed floating-point coercion.
    BadDouble,
}

/// The diagnostic reported for a failed typed set.
pub open spec fn diag_of_set_error(e: SetError) -> LineDiag {
    match e {
        SetError::UnknownProperty => LineDiag::UnknownProperty,
        SetError::BadInt => LineDiag::BadInt,
        SetError::BadDouble => LineDiag::BadDouble,
    }
}

/// A comment or blank line: empty, or opening with `%`, `#` or a
/// space.
pub open spec fn is_comment(line: Seq<char>) -> bool {
    line.len() == 0 || line[0] == '%' || line[0] == '#' || line[0] == ' '
}

/// A section-header line: one opening with `[`.
pub open spec fn is_header(line: Seq<char>) -> bool {
    line.len() > 0 && line[0] == '['
}

/// One step of the parser: what feeding `line` does to the store,
/// the current section, and the diagnostic stream.
pub open spec fn feed_model(m: Seq<SectionModel>, cs: Seq<char>, line: Seq<char>) -> (
    Seq<SectionModel>,
    Seq<char>,
    Option<LineDiag>,
) {
    if is_comment(line) {
        (m, cs, None)
    } else if is_header(line) {
        let ci = first_idx(line, ']', 1);
        if ci >= 0 {
            (m, line.subrange(1, ci), None)
        } else {
            (m, cs, Some(LineDiag::MalformedHeader))
        }
    } else if is_lines_model(m, cs) {
        (append_line_model(m, cs, line).0, cs, None)
    } else if count_char(line, '=') == 1 {
        let eq = first_idx(line, '=', 0);
        let r = set_value_model(m, cs, line.take(eq), line.skip(eq + 1));
        (
            r.0,
            cs,
            match r.1 {
                Ok(u) => None,
                Err(e) => Some(diag_of_set_error(e)),
            },
        )
    } else {
        (m, cs, Some(LineDiag::MalformedAssignment))
    }
}

/// The diagnostics of one step, as a (zero- or one-element) stream.
pub open spec fn diag_seq(d: Option<LineDiag>) -> Seq<LineDiag> {
    match d {
        None => Seq::empty(),
        Some(x) => seq![x],
    }
}

/// Feeding a whole file, line by line, from a given store and
/// current section: the final store, the final current section, and
/// every diagnostic in order.
pub open spec fn parse_model(m: Seq<SectionModel>, cs: Seq<char>, lines: Seq<Seq<char>>) -> (
    Seq<SectionModel>,
    Seq<char>,
    Seq<LineDiag>,
)
    decreases lines.len(),
{
    if lines.len() == 0 {
        (m, cs, Seq::empty())
    } else {
        let st = feed_model(m, cs, lines.first());
        let rest = parse_model(st.0, st.1, lines.drop_first());
        (rest.0, rest.1, diag_seq(st.2) + rest.2)
    }
}

/// Feeding one more line after a prefix feeds the prefix, then the
/// line.
pub proof fn lemma_parse_snoc(
    m: Seq<SectionModel>,
    cs: Seq<char>,
    lines: Seq<Seq<char>>,
    x: Seq<char>,
)
    ensures
        ({
            let p = parse_model(m, cs, lines);
            let st = feed_model(p.0, p.1, x);
            parse_model(m, cs, lines.push(x)) == (st.0, st.1, p.2 + diag_seq(st.2))
        }),
    decreases lines.len(),
{
    let p = parse_model(m, cs, lines);
    let st = feed_model(p.0, p.1, x);
    if lines.len() == 0 {
        assert(lines.push(x).drop_first() =~= Seq::<Seq<char>>::empty());
        assert(lines.push(x).first() == x);
        assert(parse_model(m, cs, lines) == (m, cs, Seq::<LineDiag>::empty()));
        assert(parse_model(st.0, st.1, lines.push(x).drop_first()) == (
            st.0,
            st.1,
            Seq::<LineDiag>::empty(),
        ));
        assert(parse_model(m, cs, lines.push(x)).2 =~= diag_seq(st.2));
        assert(p.2 + diag_seq(st.2) =~= diag_seq(st.2));
    } else {
        let st0 = feed_model(m, cs, lines.first());
        assert(lines.push(x).first() == lines.first());
        assert(lines.push(x).drop_first() =~= lines.drop_first().push(x));
        lemma_parse_snoc(st0.0, st0.1, lines.drop_first(), x);
        let pr = parse_model(st0.0, st0.1, lines.drop_first());
        assert(diag_seq(st0.2) + (pr.2 + diag_seq(st.2)) =~= (diag_seq(st0.2) + pr.2) + diag_seq(
            st.2,
        ));
    }
}

/// The first index at or after `from` where `c` occurs.
fn find_char(s: &str, from: usize, c: char) -> (r: Option<usize>)
    requires
        from <= s@.len(),
    ensures
        match r {
            Some(i) => from <= i < s@.len() && s@[i as int] == c && first_idx(s@, c, from as int)
                == i as int,
            None => first_idx(s@, c, from as int) == -1 && forall|q: int|
                from <= q < s@.len() ==> s@[q] != c,
        },
{
    let n = s.unicode_len();
    let mut i: usize = from;
    while i < n
        invariant
            from <= i <= n == s@.len(),
            first_idx(s@, c, from as int) == first_idx(s@, c, i as int),
            forall|q: int| from <= q < i ==> s@[q] != c,
        decreases n - i,
    {
        let ch = s.get_char(i);
        if ch == c {
            return Some(i);
        }
        i = i + 1;
    }
    None
}

/// How many times `c` occurs in `s`.
fn count_char_exec(s: &str, c: char) -> (r: usize)
    ensures
        r as int == count_char(s@, c),
{
    let n = s.unicode_len();
    let mut i: usize = 0;
    let mut cnt: usize = 0;
    while i < n
        invariant
            i <= n == s@.len(),
            cnt <= i,
            cnt as int == count_char(s@.take(i as int), c),
        decreases n - i,
    {
        let ch = s.get_char(i);
        proof {
            assert(s@.take(i as int + 1).drop_last() =~= s@.take(i as int));
            assert(s@.take(i as int + 1).last() == s@[i as int]);
        }
        if ch == c {
            cnt = cnt + 1;
        }
        i = i + 1;
    }
    proof {
        assert(s@.take(i as int) =~= s@);
    }
    cnt
}

/// A positive count means an occurrence exists.
proof fn lemma_count_pos_exists(s: Seq<char>, c: char)
    requires
        count_char(s, c) > 0,
    ensures
        exists|q: int| 0 <= q < s.len() && s[q] == c,
    decreases s.len(),
{
    if s.last() == c {
        assert(s[s.len() - 1] == c);
    } else {
        lemma_count_pos_exists(s.drop_last(), c);
        let q = choose|q: int| 0 <= q < s.drop_last().len() && s.drop_last()[q] == c;
        assert(s[q] == c);
    }
}

/// The config-file parser's state between lines: the current
/// section, initially empty.
#[derive(Debug)]
pub struct Parser {
    pub current_section: String,
}

impl Parser {
    /// A parser at the start of a file: no section is current yet.
    pub fn new() -> (r: Parser)
        ensures
            r.current_section@ == Seq::<char>::empty(),
    {
        Parser { current_section: String::new() }
    }

    /// Feed one line, per [`feed_model`]: classify it, update the
    /// current section or the store, and report at most one
    /// diagnostic.  No outcome aborts anything: the parser is always
    /// ready for the next line.
    pub fn feed_line(&mut self, store: &mut Config, line: &str) -> (r: Option<LineDiag>)
        requires
            old(store).wf(),
        ensures
            final(store).wf(),
            (final(store)@, final(self).current_section@, r) == feed_model(
                old(store)@,
                old(self).current_section@,
                line@,
            ),
    {
        let n = line.unicode_len();
        if n == 0 {
            return None;
        }
        let c0 = line.get_char(0);
        if c0 == '%' || c0 == '#' || c0 == ' ' {
            return None;
        }
        if c0 == '[' {
            match find_char(line, 1, ']') {
                Some(ci) => {
                    let sec = line.substring_char(1, ci);
                    self.current_section = copy_str(sec);
                    return None;
                },
                None => {
                    return Some(LineDiag::MalformedHeader);
                },
            }
        }
        if store.is_lines_section(self.current_section.as_str()) {
            let ok = store.append_line(self.current_section.as_str(), line);
            return None;
        }
        let cnt = count_char_exec(line, '=');
        if cnt != 1 {
            return Some(LineDiag::MalformedAssignment);
        }
        let eq = match find_char(line, 0, '=') {
            Some(i) => i,
            None => {
                proof {
                    lemma_count_pos_exists(line@, '=');
                }
                // a single occurrence cannot be missing
                proof {
                    assert(false);
                }
                return Some(LineDiag::MalformedAssignment);
            },
        };
        let name = line.substring_char(0, eq);
        let value = line.substring_char(eq + 1, n);
        proof {
            assert(name@ =~= line@.take(eq as int));
            assert(value@ =~= line@.skip(eq as int + 1));
        }
        match store.set_value(self.current_section.as_str(), name, value) {
            Ok(u) => None,
            Err(SetError::UnknownProperty) => Some(LineDiag::UnknownProperty),
            Err(SetError::BadInt) => Some(LineDiag::BadInt),
            Err(SetError::BadDouble) => Some(LineDiag::BadDouble),
        }
    }
}

/// Parse a whole configuration file, given as its lines, against the
/// store, starting with no current section: every line is fed in
/// order, per-line diagnostics are collected, and the parse always
/// reaches the end of the file.
pub fn parse_lines(store: &mut Config, lines: &Vec<String>) -> (diags: Vec<LineDiag>)
    requires
        old(store).wf(),
    ensures
        final(store).wf(),
        final(store)@ == parse_model(old(store)@, Seq::<char>::empty(), lines.deep_view()).0,
        diags@ == parse_model(old(store)@, Seq::<char>::empty(), lines.deep_view()).2,
{
    let ghost m0 = store@;
    let ghost lm = lines.deep_view();
    let mut parser = Parser::new();
    let mut diags: Vec<LineDiag> = Vec::new();
    let n = lines.len();
    let mut i: usize = 0;
    proof {
        assert(lm.take(0) =~= Seq::<Seq<char>>::empty());
        assert(lines.deep_view().len() == lines@.len());
    }
    while i < n
        invariant
            i <= n == lm.len(),
            lm == lines.deep_view(),
            store.wf(),
            (store@, parser.current_section@, diags@) == parse_model(
                m0,
                Seq::<char>::empty(),
                lm.take(i as int),
            ),
        decreases n - i,
    {
        let ghost pre = parse_model(m0, Seq::<char>::empty(), lm.take(i as int));
        proof {
            assert(lm[i as int] == lines@[i as int]@);
            lemma_parse_snoc(m0, Seq::<char>::empty(), lm.take(i as int), lm[i as int]);
            assert(lm.take(i as int).push(lm[i as int]) =~= lm.take(i as int + 1));
        }
        let d = parser.feed_line(store, lines[i].as_str());
        match d {
            Some(x) => {
                diags.push(x);
                proof {
                    assert(diags@ =~= pre.2 + diag_seq(d));
                }
            },
            None => {
                proof {
                    assert(diags@ =~= pre.2 + diag_seq(d));
                }
            },
        }
        i = i + 1;
    }
    proof {
        assert(lm.take(i as int) =~= lm);
    }
    diags
}

} // verus!
