//! The configuration store: an ordered sequence of sections, each
//! holding typed properties or opaque passthrough lines, with
//! lookup by qualified name and in-place typed mutation.

use vstd::prelude::*;

verus! {

use crate::value::{
    PropertyValue, ValueModel, tag_of, Changeable, SetError, coerce, coerce_result_model,
    coerce_value,
};
use crate::text::str_eq;

/// The mathematical model of a property.
#[verifier::ext_equal]
pub struct PropModel {
    pub name: Seq<char>,
    pub default: ValueModel,
    pub current: ValueModel,
    pub allowed: Seq<Seq<char>>,
    pub min: int,
    pub max: int,
    pub changeable: Changeable,
    pub help: Seq<char>,
}

/// The mathematical model of a section body.
#[verifier::ext_equal]
pub enum SectionBodyModel {
    Props(Seq<PropModel>),
    Lines(Seq<Seq<char>>),
}

/// The mathematical model of a section.
#[verifier::ext_equal]
pub struct SectionModel {
    pub name: Seq<char>,
    pub body: SectionBodyModel,
}

/// A single named, typed configuration value: its default, its
/// current value (always of the same tag), an optional allowed-value
/// enumeration, advisory numeric bounds, a mutability class and help
/// text.
#[derive(Debug)]
pub struct Property {
    pub name: String,
    pub default_value: PropertyValue,
    pub current_value: PropertyValue,
    pub allowed_values: Vec<String>,
    pub min: i64,
    pub max: i64,
    pub changeable: Changeable,
    pub help_text: String,
}

impl View for Property {
    type V = PropModel;

    open spec fn view(&self) -> PropModel {
        PropModel {
            name: self.name@,
            default: self.default_value@,
            current: self.current_value@,
            allowed: self.allowed_values.deep_view(),
            min: self.min as int,
            max: self.max as int,
            changeable: self.changeable,
            help: self.help_text@,
        }
    }
}

/// Whether a section holds typed properties or opaque raw lines.
#[derive(Clone, Copy, Debug, PartialEq, Eq, Structural)]
pub enum SectionKind {
    Props,
    Lines,
}

/// A named group of properties, or an opaque passthrough block of raw
/// lines.  Exactly one of `properties` and `lines` is in use,
/// according to `kind`; the other stays empty.
#[derive(Debug)]
pub struct Section {
    pub name: String,
    pub kind: SectionKind,
    pub properties: Vec<Property>,
    pub lines: Vec<String>,
}

impl View for Section {
    type V = SectionModel;

    open spec fn view(&self) -> SectionModel {
        SectionModel {
            name: self.name@,
            body: if self.kind == SectionKind::Props {
                SectionBodyModel::Props(self.properties@.map_values(|p: Property| p@))
            } else {
                SectionBodyModel::Lines(self.lines.deep_view())
            },
        }
    }
}

/// The configuration store: the realized sections built from a
/// schema, in encounter order.
#[derive(Debug)]
pub struct Config {
    pub sections: Vec<Section>,
}

impl View for Config {
    type V = Seq<SectionModel>;

    open spec fn view(&self) -> Seq<SectionModel> {
        self.sections@.map_values(|s: Section| s@)
    }
}

/// A property is well formed when its current value carries the same
/// tag as its default.
pub open spec fn prop_wf(p: PropModel) -> bool {
    tag_of(p.current) == tag_of(p.default)
}

/// Properties of one section: well formed, with pairwise distinct
/// names.
pub open spec fn props_wf(ps: Seq<PropModel>) -> bool {
    &&& forall|i: int| 0 <= i < ps.len() ==> prop_wf(#[trigger] ps[i])
    &&& forall|i: int, j: int| 0 <= i < j < ps.len() ==> ps[i].name != ps[j].name
}

pub open spec fn section_wf(s: SectionModel) -> bool {
    match s.body {
        SectionBodyModel::Props(ps) => props_wf(ps),
        SectionBodyModel::Lines(_) => true,
    }
}

/// A store is well formed when sections carry pairwise distinct names
/// and each is well formed.
pub open spec fn store_wf(m: Seq<SectionModel>) -> bool {
    &&& forall|i: int| 0 <= i < m.len() ==> section_wf(#[trigger] m[i])
    &&& forall|i: int, j: int| 0 <= i < j < m.len() ==> m[i].name != m[j].name
}

/// Some section of `m` carries the name.
pub open spec fn has_section(m: Seq<SectionModel>, name: Seq<char>) -> bool {
    exists|i: int| 0 <= i < m.len() && m[i].name == name
}

/// The index of the section carrying the name; meaningful under
/// [`store_wf`], where it is unique.
pub open spec fn section_idx(m: Seq<SectionModel>, name: Seq<char>) -> int {
    choose|i: int| 0 <= i < m.len() && m[i].name == name
}

/// Some property of `ps` carries the name.
pub open spec fn has_prop(ps: Seq<PropModel>, name: Seq<char>) -> bool {
    exists|i: int| 0 <= i < ps.len() && ps[i].name == name
}

/// The index of the property carrying the name; meaningful under
/// [`props_wf`], where it is unique.
pub open spec fn prop_idx(ps: Seq<PropModel>, name: Seq<char>) -> int {
    choose|i: int| 0 <= i < ps.len() && ps[i].name == name
}

/// The current value of the property `section.key`, if the section
/// exists, holds properties, and one of them carries the key.
pub open spec fn find_model(m: Seq<SectionModel>, sec: Seq<char>, key: Seq<char>) -> Option<
    ValueModel,
> {
    if has_section(m, sec) {
        match m[section_idx(m, sec)].body {
            SectionBodyModel::Props(ps) => if has_prop(ps, key) {
                Some(ps[prop_idx(ps, key)].current)
            } else {
                None
            },
            SectionBodyModel::Lines(_) => None,
        }
    } else {
        None
    }
}

/// One typed set: coerce `text` into the existing tag of the property
/// `sec.key` and replace its payload, or leave the store untouched
/// and report why.  Success and the new store are both functions of
/// the old store and the three texts.
pub open spec fn set_value_model(
    m: Seq<SectionModel>,
    sec: Seq<char>,
    key: Seq<char>,
    text: Seq<char>,
) -> (Seq<SectionModel>, Result<(), SetError>) {
    if !has_section(m, sec) {
        (m, Err(SetError::UnknownProperty))
    } else {
        let si = section_idx(m, sec);
        match m[si].body {
            SectionBodyModel::Lines(_) => (m, Err(SetError::UnknownProperty)),
            SectionBodyModel::Props(ps) => if !has_prop(ps, key) {
                (m, Err(SetError::UnknownProperty))
            } else {
                let pi = prop_idx(ps, key);
                match coerce(ps[pi].current, text) {
                    Err(e) => (m, Err(e)),
                    Ok(v) => {
                        let p2 = PropModel {
                            current: v,
                            name: ps[pi].name,
                            default: ps[pi].default,
                            allowed: ps[pi].allowed,
                            min: ps[pi].min,
                            max: ps[pi].max,
                            changeable: ps[pi].changeable,
                            help: ps[pi].help,
                        };
                        let s2 = SectionModel {
                            name: m[si].name,
                            body: SectionBodyModel::Props(ps.update(pi, p2)),
                        };
                        (m.update(si, s2), Ok(()))
                    },
                }
            },
        }
    }
}

/// Append one raw line to the section `sec`, when it exists and holds
/// raw lines; otherwise leave the store untouched.
pub open spec fn append_line_model(m: Seq<SectionModel>, sec: Seq<char>, line: Seq<char>) -> (
    Seq<SectionModel>,
    bool,
) {
    if !has_section(m, sec) {
        (m, false)
    } else {
        let si = section_idx(m, sec);
        match m[si].body {
            SectionBodyModel::Props(_) => (m, false),
            SectionBodyModel::Lines(ls) => {
                let s2 = SectionModel {
                    name: m[si].name,
                    body: SectionBodyModel::Lines(ls.push(line)),
                };
                (m.update(si, s2), true)
            },
        }
    }
}

/// The advisory bounds verdict on a property: an integer value is in
/// range when the bounds are unconstrained (both zero) or the value
/// lies between them; any other tag is always in range.  Out-of-range
/// writes are accepted by [`set_value_model`]; this query is how a
/// caller runs its own validation pass.
pub open spec fn prop_in_range(p: PropModel) -> bool {
    match p.current {
        ValueModel::Int(v) => (p.min == 0 && p.max == 0) || (p.min <= v && v <= p.max),
        _ => true,
    }
}

/// The bounds verdict on the property `sec.key`, if it exists.
pub open spec fn check_range_model(m: Seq<SectionModel>, sec: Seq<char>, key: Seq<char>) -> Option<
    bool,
> {
    if has_section(m, sec) {
        match m[section_idx(m, sec)].body {
            SectionBodyModel::Props(ps) => if has_prop(ps, key) {
                Some(prop_in_range(ps[prop_idx(ps, key)]))
            } else {
                None
            },
            SectionBodyModel::Lines(_) => None,
        }
    } else {
        None
    }
}

/// The mutability class of the property `sec.key`, if it exists.
pub open spec fn changeable_model(m: Seq<SectionModel>, sec: Seq<char>, key: Seq<char>) -> Option<
    Changeable,
> {
    if has_section(m, sec) {
        match m[section_idx(m, sec)].body {
            SectionBodyModel::Props(ps) => if has_prop(ps, key) {
                Some(ps[prop_idx(ps, key)].changeable)
            } else {
                None
            },
            SectionBodyModel::Lines(_) => None,
        }
    } else {
        None
    }
}

impl Property {
    /// The advisory bounds verdict, per [`prop_in_range`].
    pub fn in_range(&self) -> (r: bool)
        ensures
            r == prop_in_range(self@),
    {
        match &self.current_value {
            PropertyValue::Int(v) => (self.min == 0 && self.max == 0) || (self.min <= *v && *v
                <= self.max),
            _ => true,
        }
    }
}

/// The section `sec` exists and holds raw passthrough lines.
pub open spec fn is_lines_model(m: Seq<SectionModel>, sec: Seq<char>) -> bool {
    has_section(m, sec) && m[section_idx(m, sec)].body matches SectionBodyModel::Lines(_)
}

impl Config {
    /// The store's validity: distinct section names, distinct
    /// property names per section, and every current value of the
    /// same tag as its default.
    pub open spec fn wf(&self) -> bool {
        store_wf(self@)
    }

    /// An empty store.
    pub fn empty() -> (r: Config)
        ensures
            r@ == Seq::<SectionModel>::empty(),
            r.wf(),
    {
        let r = Config { sections: Vec::new() };
        proof {
            assert(r@ =~= Seq::<SectionModel>::empty());
        }
        r
    }

    /// The index of the section carrying `name`, or `None`.
    fn find_section(&self, name: &str) -> (r: Option<usize>)
        ensures
            match r {
                Some(i) => i < self@.len() && self@[i as int].name == name@,
                None => !has_section(self@, name@),
            },
    {
        let n = self.sections.len();
        let mut i: usize = 0;
        while i < n
            invariant
                i <= n == self@.len(),
                self@ == self.sections@.map_values(|s: Section| s@),
                forall|q: int| 0 <= q < i ==> self@[q].name != name@,
            decreases n - i,
        {
            if str_eq(self.sections[i].name.as_str(), name) {
                return Some(i);
            }
            i = i + 1;
        }
        None
    }

    /// The index of the property carrying `name` in section `si`, or
    /// `None`.  Only meaningful for a properties section.
    fn find_prop(&self, si: usize, name: &str) -> (r: Option<usize>)
        requires
            si < self@.len(),
        ensures
            match r {
                Some(i) => i < self.sections@[si as int].properties@.len()
                    && self.sections@[si as int].properties@[i as int]@.name == name@,
                None => forall|q: int|
                    0 <= q < self.sections@[si as int].properties@.len()
                        ==> (#[trigger] self.sections@[si as int].properties@[q])@.name != name@,
            },
    {
        let sec = &self.sections[si];
        let n = sec.properties.len();
        let mut i: usize = 0;
        while i < n
            invariant
                i <= n == sec.properties@.len(),
                sec == self.sections@[si as int],
                forall|q: int| 0 <= q < i ==> (#[trigger] sec.properties@[q])@.name != name@,
            decreases n - i,
        {
            if str_eq(sec.properties[i].name.as_str(), name) {
                return Some(i);
            }
            i = i + 1;
        }
        None
    }

    /// The indices of the property `section_name.property_name`, or
    /// `None` when the section is absent, holds raw lines, or lacks
    /// the property.
    fn locate(&self, section_name: &str, property_name: &str) -> (r: Option<(usize, usize)>)
        requires
            self.wf(),
        ensures
            match r {
                Some(ip) => {
                    &&& has_section(self@, section_name@)
                    &&& (ip.0 as int) < self@.len()
                    &&& section_idx(self@, section_name@) == ip.0 as int
                    &&& self@[ip.0 as int].body matches SectionBodyModel::Props(ps) && has_prop(
                        ps,
                        property_name@,
                    ) && prop_idx(ps, property_name@) == ip.1 as int && (ip.1 as int) < ps.len()
                        && ps[ip.1 as int] == self.sections@[ip.0 as int].properties@[ip.1 as int]@
                },
                None => {
                    &&& find_model(self@, section_name@, property_name@) is None
                    &&& check_range_model(self@, section_name@, property_name@) is None
                    &&& changeable_model(self@, section_name@, property_name@) is None
                },
            },
    {
        let si = match self.find_section(section_name) {
            Some(i) => i,
            None => {
                return None;
            },
        };
        proof {
            assert(has_section(self@, section_name@));
            assert(self@[section_idx(self@, section_name@)].name == section_name@);
            assert(section_idx(self@, section_name@) == si as int);
        }
        if matches!(self.sections[si].kind, SectionKind::Lines) {
            return None;
        }
        let ghost ps = self@[si as int].body->Props_0;
        proof {
            assert(ps == self.sections@[si as int].properties@.map_values(|p: Property| p@));
        }
        let pi = match self.find_prop(si, property_name) {
            Some(i) => i,
            None => {
                proof {
                    assert(forall|q: int| 0 <= q < ps.len() ==> ps[q].name != property_name@);
                }
                return None;
            },
        };
        proof {
            assert(ps[pi as int].name == property_name@);
            assert(has_prop(ps, property_name@));
            assert(ps[prop_idx(ps, property_name@)].name == property_name@);
            assert(prop_idx(ps, property_name@) == pi as int);
        }
        Some((si, pi))
    }

    /// Look up the current value of `section_name.property_name`.
    /// Absence — of the section, of the property, or because the
    /// section holds raw lines — is a normal, recoverable outcome.
    pub fn find(&self, section_name: &str, property_name: &str) -> (r: Option<&PropertyValue>)
        requires
            self.wf(),
        ensures
            match r {
                Some(v) => find_model(self@, section_name@, property_name@) == Some(v@),
                None => find_model(self@, section_name@, property_name@) is None,
            },
    {
        match self.locate(section_name, property_name) {
            Some((si, pi)) => Some(&self.sections[si].properties[pi].current_value),
            None => None,
        }
    }

    /// Coerce `textual_value` into the existing tag of the property
    /// `section_name.property_name` and replace its payload.  On
    /// failure the prior value is untouched and the reason reported:
    /// the property is unknown, or the text cannot be coerced to the
    /// property's tag.
    pub fn set_value(&mut self, section_name: &str, property_name: &str, textual_value: &str) -> (r:
        Result<(), SetError>)
        requires
            old(self).wf(),
        ensures
            final(self).wf(),
            final(self)@ == set_value_model(
                old(self)@,
                section_name@,
                property_name@,
                textual_value@,
            ).0,
            r == set_value_model(old(self)@, section_name@, property_name@, textual_value@).1,
    {
        let ghost m0 = self@;
        let (si, pi) = match self.locate(section_name, property_name) {
            Some(ip) => ip,
            None => {
                return Err(SetError::UnknownProperty);
            },
        };
        let ghost ps = m0[si as int].body->Props_0;
        proof {
            assert(ps == self.sections@[si as int].properties@.map_values(|p: Property| p@));
        }
        let new_value = match coerce_value(
            &self.sections[si].properties[pi].current_value,
            textual_value,
        ) {
            Ok(v) => v,
            Err(e) => {
                return Err(e);
            },
        };
        let sec = &mut self.sections[si];
        let prop = &mut sec.properties[pi];
        prop.current_value = new_value;
        proof {
            let spec_pair = set_value_model(m0, section_name@, property_name@, textual_value@);
            assert(self.sections@[si as int].properties@ == old(
                self,
            ).sections@[si as int].properties@.update(pi as int, *prop));
            assert(self.sections@[si as int].properties@.map_values(|p: Property| p@) =~= ps.update(
                pi as int,
                prop@,
            ));
            assert(self@ =~= m0.update(si as int, self.sections@[si as int]@));
            assert(self@ =~~= spec_pair.0);
            assert(store_wf(self@));
        }
        Ok(())
    }

    /// The advisory bounds verdict on `section_name.property_name`,
    /// or `None` when no such property exists.  The store accepts
    /// out-of-range integer writes; this query flags them.
    pub fn check_range(&self, section_name: &str, property_name: &str) -> (r: Option<bool>)
        requires
            self.wf(),
        ensures
            r == check_range_model(self@, section_name@, property_name@),
    {
        match self.locate(section_name, property_name) {
            Some((si, pi)) => Some(self.sections[si].properties[pi].in_range()),
            None => None,
        }
    }

    /// The mutability class of `section_name.property_name`, or
    /// `None` when no such property exists.  Enforcement is the
    /// caller's concern; the store only answers.
    pub fn get_changeable(&self, section_name: &str, property_name: &str) -> (r: Option<Changeable>)
        requires
            self.wf(),
        ensures
            r == changeable_model(self@, section_name@, property_name@),
    {
        match self.locate(section_name, property_name) {
            Some((si, pi)) => Some(self.sections[si].properties[pi].changeable),
            None => None,
        }
    }

    /// Whether section `section_name` exists and holds raw
    /// passthrough lines.
    pub fn is_lines_section(&self, section_name: &str) -> (r: bool)
        requires
            self.wf(),
        ensures
            r == is_lines_model(self@, section_name@),
    {
        match self.find_section(section_name) {
            Some(si) => {
                proof {
                    assert(has_section(self@, section_name@));
                    assert(self@[section_idx(self@, section_name@)].name == section_name@);
                    assert(section_idx(self@, section_name@) == si as int);
                }
                matches!(self.sections[si].kind, SectionKind::Lines)
            },
            None => false,
        }
    }

    /// Append one raw line, verbatim, to the lines section
    /// `section_name`.  Returns `false`, leaving the store untouched,
    /// when no such lines section exists.
    pub fn append_line(&mut self, section_name: &str, line: &str) -> (r: bool)
        requires
            old(self).wf(),
        ensures
            final(self).wf(),
            final(self)@ == append_line_model(old(self)@, section_name@, line@).0,
            r == append_line_model(old(self)@, section_name@, line@).1,
    {
        let ghost m0 = self@;
        let si = match self.find_section(section_name) {
            Some(i) => i,
            None => {
                return false;
            },
        };
        proof {
            assert(has_section(m0, section_name@));
            assert(m0[section_idx(m0, section_name@)].name == section_name@);
            assert(section_idx(m0, section_name@) == si as int);
        }
        if matches!(self.sections[si].kind, SectionKind::Props) {
            return false;
        }
        let sec = &mut self.sections[si];
        sec.lines.push(crate::text::copy_str(line));
        proof {
            let spec_pair = append_line_model(m0, section_name@, line@);
            assert(self.sections@[si as int].lines.deep_view() =~= m0[si as int].body->Lines_0.push(
                line@,
            ));
            assert(self@ =~= m0.update(si as int, self.sections@[si as int]@));
            assert(self@ =~~= spec_pair.0);
            assert(store_wf(self@));
        }
        true
    }
}

} // verus!
