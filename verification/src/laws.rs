//! The store's global laws: tag immutability under typed sets, and
//! idempotence of parsing.

use vstd::prelude::*;

verus! {

use crate::value::{ValueModel, tag_of, coerce};
use crate::store::{
    SectionModel, SectionBodyModel, PropModel, store_wf, has_section, section_idx, has_prop,
    prop_idx, set_value_model, append_line_model, is_lines_model, props_wf,
};
use crate::parser::{feed_model, parse_model, is_comment, is_header};
use crate::text::{count_char, first_idx};

/// The properties of one section, where it holds properties.
pub open spec fn sec_props(s: SectionModel) -> Seq<PropModel> {
    s.body->Props_0
}

/// The current value of the property cell `(si, pi)`.
pub open spec fn cell(m: Seq<SectionModel>, si: int, pi: int) -> ValueModel {
    sec_props(m[si])[pi].current
}

/// The cell `(si, pi)` exists: a properties section and a property
/// index within it.
pub open spec fn cell_ok(m: Seq<SectionModel>, si: int, pi: int) -> bool {
    &&& 0 <= si < m.len()
    &&& m[si].body matches SectionBodyModel::Props(_)
    &&& 0 <= pi < sec_props(m[si]).len()
}

/// Two property lists of the same typing: identical in everything
/// but the current payload, whose tag still agrees.
pub open spec fn props_same_typing(p1: Seq<PropModel>, p2: Seq<PropModel>) -> bool {
    &&& p1.len() == p2.len()
    &&& forall|j: int| 0 <= j < p1.len() ==> {
        &&& (#[trigger] p2[j]).name == p1[j].name
        &&& p2[j].default == p1[j].default
        &&& p2[j].allowed == p1[j].allowed
        &&& p2[j].min == p1[j].min
        &&& p2[j].max == p1[j].max
        &&& p2[j].changeable == p1[j].changeable
        &&& p2[j].help == p1[j].help
        &&& tag_of(p2[j].current) == tag_of(p1[j].current)
    }
}

/// Two stores of the same typing: the same sections with the same
/// names and kinds, and properties of the same typing; every current
/// value keeps its tag.  Lines contents are left free.
pub open spec fn same_typing(m1: Seq<SectionModel>, m2: Seq<SectionModel>) -> bool {
    &&& m1.len() == m2.len()
    &&& forall|i: int| 0 <= i < m1.len() ==> (#[trigger] m2[i]).name == m1[i].name
    &&& forall|i: int| 0 <= i < m1.len() ==> match ((#[trigger] m1[i]).body, m2[i].body) {
        (SectionBodyModel::Props(p1), SectionBodyModel::Props(p2)) => props_same_typing(p1, p2),
        (SectionBodyModel::Lines(l1), SectionBodyModel::Lines(l2)) => true,
        _ => false,
    }
}

/// Two stores of the same shape: the same typing, and the same lines
/// contents.
pub open spec fn same_shape(m1: Seq<SectionModel>, m2: Seq<SectionModel>) -> bool {
    &&& same_typing(m1, m2)
    &&& forall|i: int| 0 <= i < m1.len() ==> match ((#[trigger] m1[i]).body, m2[i].body) {
        (SectionBodyModel::Lines(l1), SectionBodyModel::Lines(l2)) => l1 == l2,
        _ => true,
    }
}

pub proof fn lemma_same_typing_refl(m: Seq<SectionModel>)
    ensures
        same_typing(m, m),
        same_shape(m, m),
{
}

pub proof fn lemma_same_typing_trans(
    a: Seq<SectionModel>,
    b: Seq<SectionModel>,
    c: Seq<SectionModel>,
)
    requires
        same_typing(a, b),
        same_typing(b, c),
    ensures
        same_typing(a, c),
{
    assert forall|i: int| 0 <= i < a.len() implies match ((#[trigger] a[i]).body, c[i].body) {
        (SectionBodyModel::Props(p1), SectionBodyModel::Props(p2)) => props_same_typing(p1, p2),
        (SectionBodyModel::Lines(l1), SectionBodyModel::Lines(l2)) => true,
        _ => false,
    } by {
        assert(c[i].name == b[i].name);
    }
}

/// A typed set keeps the typing: every property of every section
/// keeps its name, its metadata, and its value's tag.  This is tag
/// immutability: no sequence of sets can change a value's tag.
pub proof fn lemma_set_value_same_typing(
    m: Seq<SectionModel>,
    sec: Seq<char>,
    key: Seq<char>,
    text: Seq<char>,
)
    ensures
        same_typing(m, set_value_model(m, sec, key, text).0),
{
    let m2 = set_value_model(m, sec, key, text).0;
    if has_section(m, sec) {
        let si = section_idx(m, sec);
        match m[si].body {
            SectionBodyModel::Lines(_) => {},
            SectionBodyModel::Props(ps) => {
                if has_prop(ps, key) {
                    let pi = prop_idx(ps, key);
                    match coerce(ps[pi].current, text) {
                        Err(_) => {},
                        Ok(v) => {
                            assert(tag_of(v) == tag_of(ps[pi].current));
                            assert(props_same_typing(ps, sec_props(m2[si])));
                        },
                    }
                }
            },
        }
    }
}

/// A sequence of typed sets, each a `(section, key, text)` triple,
/// applied in order.
pub open spec fn apply_sets(
    m: Seq<SectionModel>,
    ops: Seq<(Seq<char>, Seq<char>, Seq<char>)>,
) -> Seq<SectionModel>
    decreases ops.len(),
{
    if ops.len() == 0 {
        m
    } else {
        apply_sets(
            set_value_model(m, ops.first().0, ops.first().1, ops.first().2).0,
            ops.drop_first(),
        )
    }
}

/// After any sequence of typed sets, every property's value still
/// carries the tag it was constructed with.
pub proof fn lemma_sets_same_typing(
    m: Seq<SectionModel>,
    ops: Seq<(Seq<char>, Seq<char>, Seq<char>)>,
)
    ensures
        same_typing(m, apply_sets(m, ops)),
    decreases ops.len(),
{
    if ops.len() == 0 {
    } else {
        let m1 = set_value_model(m, ops.first().0, ops.first().1, ops.first().2).0;
        lemma_set_value_same_typing(m, ops.first().0, ops.first().1, ops.first().2);
        lemma_sets_same_typing(m1, ops.drop_first());
        lemma_same_typing_trans(m, m1, apply_sets(m1, ops.drop_first()));
    }
}

/// Appending a raw line to a lines section keeps the typing.
pub proof fn lemma_append_line_same_typing(m: Seq<SectionModel>, sec: Seq<char>, line: Seq<char>)
    ensures
        same_typing(m, append_line_model(m, sec, line).0),
{
}

/// One parser step keeps the typing.
pub proof fn lemma_feed_same_typing(m: Seq<SectionModel>, cs: Seq<char>, line: Seq<char>)
    ensures
        same_typing(m, feed_model(m, cs, line).0),
{
    if is_comment(line) {
    } else if is_header(line) {
    } else if is_lines_model(m, cs) {
        lemma_append_line_same_typing(m, cs, line);
    } else if count_char(line, '=') == 1 {
        let eq = first_idx(line, '=', 0);
        lemma_set_value_same_typing(m, cs, line.take(eq), line.skip(eq + 1));
    }
}

/// A whole parse keeps the typing: whatever a configuration file
/// holds, every property keeps its name, its metadata, and its
/// value's tag.
pub proof fn lemma_parse_same_typing(m: Seq<SectionModel>, cs: Seq<char>, lines: Seq<Seq<char>>)
    ensures
        same_typing(m, parse_model(m, cs, lines).0),
    decreases lines.len(),
{
    if lines.len() == 0 {
    } else {
        let st = feed_model(m, cs, lines.first());
        lemma_feed_same_typing(m, cs, lines.first());
        lemma_parse_same_typing(st.0, st.1, lines.drop_first());
        lemma_same_typing_trans(m, st.0, parse_model(st.0, st.1, lines.drop_first()).0);
    }
}

pub proof fn lemma_same_shape_symm(a: Seq<SectionModel>, b: Seq<SectionModel>)
    requires
        same_shape(a, b),
    ensures
        same_shape(b, a),
{
    assert forall|i: int| 0 <= i < b.len() implies (#[trigger] a[i]).name == b[i].name by {}
}

pub proof fn lemma_same_shape_trans(
    a: Seq<SectionModel>,
    b: Seq<SectionModel>,
    c: Seq<SectionModel>,
)
    requires
        same_shape(a, b),
        same_shape(b, c),
    ensures
        same_shape(a, c),
{
    lemma_same_typing_trans(a, b, c);
}

/// Stores of the same shape have the same cells.
pub proof fn lemma_same_shape_cell_ok(a: Seq<SectionModel>, b: Seq<SectionModel>)
    requires
        same_typing(a, b),
    ensures
        forall|si: int, pi: int| cell_ok(a, si, pi) == cell_ok(b, si, pi),
{
    assert forall|si: int, pi: int| cell_ok(a, si, pi) == cell_ok(b, si, pi) by {
        if 0 <= si < a.len() {
            assert(a[si].name == a[si].name);
        }
    }
}

/// A typed set keeps the store well formed.
pub proof fn lemma_set_value_wf(m: Seq<SectionModel>, sec: Seq<char>, key: Seq<char>, text: Seq<char>)
    requires
        store_wf(m),
    ensures
        store_wf(set_value_model(m, sec, key, text).0),
{
    let m2 = set_value_model(m, sec, key, text).0;
    lemma_set_value_same_typing(m, sec, key, text);
    if has_section(m, sec) {
        let si = section_idx(m, sec);
        match m[si].body {
            SectionBodyModel::Lines(_) => {},
            SectionBodyModel::Props(ps) => {
                if has_prop(ps, key) {
                    let pi = prop_idx(ps, key);
                    match coerce(ps[pi].current, text) {
                        Err(_) => {},
                        Ok(v) => {
                            assert(tag_of(v) == tag_of(ps[pi].current));
                            let ps2 = sec_props(m2[si]);
                            assert(props_wf(ps));
                            assert forall|j: int| 0 <= j < ps2.len() implies crate::store::prop_wf(
                                #[trigger] ps2[j],
                            ) by {
                                assert(crate::store::prop_wf(ps[j]));
                            }
                            assert(props_wf(ps2));
                        },
                    }
                }
            },
        }
    }
}

/// Coercion depends only on the tag of the target, never on its
/// payload.
pub proof fn lemma_coerce_same_tag(c1: ValueModel, c2: ValueModel, text: Seq<char>)
    requires
        tag_of(c1) == tag_of(c2),
    ensures
        coerce(c1, text) == coerce(c2, text),
{
}

/// A typed set on two stores of the same shape: the same cell gets
/// the same new value in both, or neither store changes a cell.
pub proof fn lemma_set_same(
    m1: Seq<SectionModel>,
    m2: Seq<SectionModel>,
    sec: Seq<char>,
    key: Seq<char>,
    text: Seq<char>,
)
    requires
        store_wf(m1),
        store_wf(m2),
        same_shape(m1, m2),
    ensures
        ({
            let r1 = set_value_model(m1, sec, key, text).0;
            let r2 = set_value_model(m2, sec, key, text).0;
            &&& store_wf(r1)
            &&& store_wf(r2)
            &&& same_shape(r1, m1)
            &&& same_shape(r2, m2)
            &&& same_shape(r1, r2)
            &&& forall|si: int, pi: int|
                cell_ok(m1, si, pi) ==> ((cell(r1, si, pi) == cell(r2, si, pi)) || (cell(
                    r1,
                    si,
                    pi,
                ) == cell(m1, si, pi) && cell(r2, si, pi) == cell(m2, si, pi)))
        }),
{
    let r1 = set_value_model(m1, sec, key, text).0;
    let r2 = set_value_model(m2, sec, key, text).0;
    lemma_set_value_wf(m1, sec, key, text);
    lemma_set_value_wf(m2, sec, key, text);
    lemma_set_value_same_typing(m1, sec, key, text);
    lemma_set_value_same_typing(m2, sec, key, text);
    // the two lookups agree
    if has_section(m1, sec) {
        let si1 = section_idx(m1, sec);
        assert(m2[si1].name == sec);
        assert(has_section(m2, sec));
    }
    if has_section(m2, sec) {
        let si2 = section_idx(m2, sec);
        assert(m1[si2].name == m2[si2].name);
        assert(has_section(m1, sec));
    }
    if !has_section(m1, sec) {
        assert(r1 == m1 && r2 == m2);
    } else {
        let si1 = section_idx(m1, sec);
        let si2 = section_idx(m2, sec);
        assert(m1[si1].name == sec && m2[si2].name == sec);
        assert(m1[si2].name == sec);
        if si1 != si2 {
            assert(false);
        }
        let si = si1;
        match (m1[si].body, m2[si].body) {
            (SectionBodyModel::Lines(_), SectionBodyModel::Lines(_)) => {
                assert(r1 == m1 && r2 == m2);
            },
            (SectionBodyModel::Props(p1), SectionBodyModel::Props(p2)) => {
                assert(props_same_typing(p1, p2));
                if has_prop(p1, key) {
                    let q = prop_idx(p1, key);
                    assert(p2[q].name == key);
                    assert(has_prop(p2, key));
                }
                if has_prop(p2, key) {
                    let q = prop_idx(p2, key);
                    assert(p1[q].name == p2[q].name);
                    assert(has_prop(p1, key));
                }
                if !has_prop(p1, key) {
                    assert(r1 == m1 && r2 == m2);
                } else {
                    let pi1 = prop_idx(p1, key);
                    let pi2 = prop_idx(p2, key);
                    assert(p1[pi1].name == key && p2[pi2].name == key);
                    assert(p1[pi2].name == key);
                    assert(props_wf(p1));
                    if pi1 != pi2 {
                        assert(false);
                    }
                    let pi = pi1;
                    lemma_coerce_same_tag(p1[pi].current, p2[pi].current, text);
                    match coerce(p1[pi].current, text) {
                        Err(_) => {
                            assert(r1 == m1 && r2 == m2);
                        },
                        Ok(v) => {
                            assert forall|xi: int, xj: int| cell_ok(m1, xi, xj) implies ((cell(
                                r1,
                                xi,
                                xj,
                            ) == cell(r2, xi, xj)) || (cell(r1, xi, xj) == cell(m1, xi, xj) && cell(
                                r2,
                                xi,
                                xj,
                            ) == cell(m2, xi, xj))) by {
                                if xi == si && xj == pi {
                                    assert(cell(r1, xi, xj) == v && cell(r2, xi, xj) == v);
                                } else if xi == si {
                                    assert(cell(r1, xi, xj) == cell(m1, xi, xj));
                                    assert(cell(r2, xi, xj) == cell(m2, xi, xj));
                                } else {
                                    assert(r1[xi] == m1[xi] && r2[xi] == m2[xi]);
                                }
                            }
                        },
                    }
                }
            },
            _ => {},
        }
    }
}

/// A parser step that appends raw passthrough content to a lines
/// section.
pub open spec fn is_append_step(m: Seq<SectionModel>, cs: Seq<char>, line: Seq<char>) -> bool {
    !is_comment(line) && !is_header(line) && is_lines_model(m, cs)
}

/// No line of the file lands in a lines section.
pub open spec fn no_appends(m: Seq<SectionModel>, cs: Seq<char>, lines: Seq<Seq<char>>) -> bool
    decreases lines.len(),
{
    if lines.len() == 0 {
        true
    } else {
        let st = feed_model(m, cs, lines.first());
        !is_append_step(m, cs, lines.first()) && no_appends(st.0, st.1, lines.drop_first())
    }
}

/// Whether a section is a lines section is a matter of shape alone.
pub proof fn lemma_is_lines_same(m1: Seq<SectionModel>, m2: Seq<SectionModel>, cs: Seq<char>)
    requires
        store_wf(m1),
        store_wf(m2),
        same_typing(m1, m2),
    ensures
        is_lines_model(m1, cs) == is_lines_model(m2, cs),
{
    if has_section(m1, cs) {
        let si1 = section_idx(m1, cs);
        assert(m2[si1].name == cs);
        assert(has_section(m2, cs));
    }
    if has_section(m2, cs) {
        let si2 = section_idx(m2, cs);
        assert(m1[si2].name == m2[si2].name);
        assert(has_section(m1, cs));
    }
    if has_section(m1, cs) {
        let si1 = section_idx(m1, cs);
        let si2 = section_idx(m2, cs);
        assert(m1[si1].name == cs && m2[si2].name == cs);
        assert(m1[si2].name == cs);
        if si1 != si2 {
            assert(false);
        }
    }
}

/// One non-append parser step on two stores of the same shape: the
/// same new current section, and the cell discipline of
/// [`lemma_set_same`].
pub proof fn lemma_feed_same(
    m1: Seq<SectionModel>,
    m2: Seq<SectionModel>,
    cs: Seq<char>,
    line: Seq<char>,
)
    requires
        store_wf(m1),
        store_wf(m2),
        same_shape(m1, m2),
        !is_append_step(m1, cs, line),
    ensures
        ({
            let s1 = feed_model(m1, cs, line);
            let s2 = feed_model(m2, cs, line);
            &&& !is_append_step(m2, cs, line)
            &&& s1.1 == s2.1
            &&& store_wf(s1.0)
            &&& store_wf(s2.0)
            &&& same_shape(s1.0, m1)
            &&& same_shape(s2.0, m2)
            &&& same_shape(s1.0, s2.0)
            &&& forall|si: int, pi: int|
                cell_ok(m1, si, pi) ==> ((cell(s1.0, si, pi) == cell(s2.0, si, pi)) || (cell(
                    s1.0,
                    si,
                    pi,
                ) == cell(m1, si, pi) && cell(s2.0, si, pi) == cell(m2, si, pi)))
        }),
{
    lemma_is_lines_same(m1, m2, cs);
    lemma_same_typing_refl(m1);
    lemma_same_typing_refl(m2);
    if is_comment(line) {
    } else if is_header(line) {
    } else if count_char(line, '=') == 1 {
        let eq = first_idx(line, '=', 0);
        lemma_set_same(m1, m2, cs, line.take(eq), line.skip(eq + 1));
    }
}

/// Whether a file makes appends is a matter of shape alone.
pub proof fn lemma_no_appends_same(
    m1: Seq<SectionModel>,
    m2: Seq<SectionModel>,
    cs: Seq<char>,
    lines: Seq<Seq<char>>,
)
    requires
        store_wf(m1),
        store_wf(m2),
        same_shape(m1, m2),
        no_appends(m1, cs, lines),
    ensures
        no_appends(m2, cs, lines),
    decreases lines.len(),
{
    if lines.len() > 0 {
        lemma_feed_same(m1, m2, cs, lines.first());
        let s1 = feed_model(m1, cs, lines.first());
        let s2 = feed_model(m2, cs, lines.first());
        lemma_no_appends_same(s1.0, s2.0, s1.1, lines.drop_first());
    }
}

/// A whole non-append parse on two stores of the same shape: each
/// cell is either written to the same value in both, or untouched in
/// both.
pub proof fn lemma_parse_cells(
    m1: Seq<SectionModel>,
    m2: Seq<SectionModel>,
    cs: Seq<char>,
    lines: Seq<Seq<char>>,
)
    requires
        store_wf(m1),
        store_wf(m2),
        same_shape(m1, m2),
        no_appends(m1, cs, lines),
    ensures
        ({
            let p1 = parse_model(m1, cs, lines);
            let p2 = parse_model(m2, cs, lines);
            &&& p1.1 == p2.1
            &&& store_wf(p1.0)
            &&& store_wf(p2.0)
            &&& same_shape(p1.0, m1)
            &&& same_shape(p2.0, m2)
            &&& same_shape(p1.0, p2.0)
            &&& forall|si: int, pi: int|
                cell_ok(m1, si, pi) ==> ((cell(p1.0, si, pi) == cell(p2.0, si, pi)) || (cell(
                    p1.0,
                    si,
                    pi,
                ) == cell(m1, si, pi) && cell(p2.0, si, pi) == cell(m2, si, pi)))
        }),
    decreases lines.len(),
{
    let p1 = parse_model(m1, cs, lines);
    let p2 = parse_model(m2, cs, lines);
    if lines.len() == 0 {
        lemma_same_typing_refl(m1);
        lemma_same_typing_refl(m2);
    } else {
        let s1 = feed_model(m1, cs, lines.first());
        let s2 = feed_model(m2, cs, lines.first());
        lemma_feed_same(m1, m2, cs, lines.first());
        lemma_parse_cells(s1.0, s2.0, s1.1, lines.drop_first());
        let q1 = parse_model(s1.0, s1.1, lines.drop_first());
        let q2 = parse_model(s2.0, s2.1, lines.drop_first());
        lemma_same_shape_trans(q1.0, s1.0, m1);
        lemma_same_shape_trans(q2.0, s2.0, m2);
        lemma_same_shape_cell_ok(m1, s1.0);
        assert forall|si: int, pi: int| cell_ok(m1, si, pi) implies ((cell(p1.0, si, pi) == cell(
            p2.0,
            si,
            pi,
        )) || (cell(p1.0, si, pi) == cell(m1, si, pi) && cell(p2.0, si, pi) == cell(
            m2,
            si,
            pi,
        ))) by {
            assert(cell_ok(s1.0, si, pi));
            if cell(q1.0, si, pi) == cell(q2.0, si, pi) {
            } else {
                assert(cell(q1.0, si, pi) == cell(s1.0, si, pi) && cell(q2.0, si, pi) == cell(
                    s2.0,
                    si,
                    pi,
                ));
            }
        }
    }
}

/// Stores of the same shape with equal cells are equal.
pub proof fn lemma_shape_cells_eq(a: Seq<SectionModel>, b: Seq<SectionModel>)
    requires
        same_shape(a, b),
        forall|si: int, pi: int| cell_ok(a, si, pi) ==> cell(a, si, pi) == cell(b, si, pi),
    ensures
        a == b,
{
    assert forall|i: int| 0 <= i < a.len() implies a[i] == b[i] by {
        assert(b[i].name == a[i].name);
        match (a[i].body, b[i].body) {
            (SectionBodyModel::Props(p1), SectionBodyModel::Props(p2)) => {
                assert(props_same_typing(p1, p2));
                assert forall|j: int| 0 <= j < p1.len() implies p1[j] == p2[j] by {
                    assert(cell_ok(a, i, j));
                    assert(cell(a, i, j) == cell(b, i, j));
                    assert(p1[j] =~~= p2[j]);
                }
                assert(p1 =~~= p2);
                assert(a[i] =~~= b[i]);
            },
            (SectionBodyModel::Lines(l1), SectionBodyModel::Lines(l2)) => {
                assert(l1 == l2);
                assert(a[i] =~~= b[i]);
            },
            _ => {},
        }
    }
    assert(a =~= b);
}

/// Parsing is idempotent: parsing the same file twice yields the
/// same final store state as parsing it once, for any file none of
/// whose lines lands in a raw-lines section.  (A line appended to a
/// lines section accumulates, so such files are excluded.)
pub proof fn lemma_parse_idempotent(m: Seq<SectionModel>, cs: Seq<char>, lines: Seq<Seq<char>>)
    requires
        store_wf(m),
        no_appends(m, cs, lines),
    ensures
        parse_model(parse_model(m, cs, lines).0, cs, lines).0 == parse_model(m, cs, lines).0,
{
    let a = parse_model(m, cs, lines).0;
    lemma_same_typing_refl(m);
    lemma_parse_cells(m, m, cs, lines);
    // a has the shape of m, so the file makes no appends from a either
    lemma_no_appends_same(m, a, cs, lines);
    lemma_parse_cells(a, m, cs, lines);
    let p1 = parse_model(a, cs, lines);
    let p2 = parse_model(m, cs, lines);
    lemma_same_shape_cell_ok(a, m);
    assert forall|si: int, pi: int| cell_ok(p1.0, si, pi) implies cell(p1.0, si, pi) == cell(
        a,
        si,
        pi,
    ) by {
        lemma_same_shape_cell_ok(p1.0, a);
        assert(cell_ok(a, si, pi));
        if cell(p1.0, si, pi) == cell(p2.0, si, pi) {
            assert(p2.0 == a);
        } else {
            assert(cell(p1.0, si, pi) == cell(a, si, pi));
        }
    }
    lemma_shape_cells_eq(p1.0, a);
}

} // verus!
