//! The schema loader: from a declarative schema document — sections,
//! typed property definitions, defaults, constraints, mutability
//! classes, and a shared named value-list table — build the realized
//! configuration store, or fail.  The document is read once and
//! discarded; it is not retained.

use vstd::prelude::*;

verus! {

use crate::value::{PropertyValue, ValueModel, Changeable};
use crate::num::{is_double_lit, is_double};
use crate::text::{str_eq, copy_str, copy_strings};
use crate::store::{
    PropModel, SectionModel, SectionBodyModel, Property, Section, SectionKind, Config, has_prop,
    has_section, props_wf, store_wf,
};
use vstd::string::StringExecFns;

/// A scalar field of a schema document: absent, text, an integer, or
/// a boolean.
#[derive(Debug)]
pub enum DocScalar {
    Absent,
    Text(String),
    Int(i64),
    Flag(bool),
}

/// The model of a scalar field.
pub enum DocScalarModel {
    Absent,
    Text(Seq<char>),
    Int(int),
    Flag(bool),
}

impl View for DocScalar {
    type V = DocScalarModel;

    open spec fn view(&self) -> DocScalarModel {
        match self {
            DocScalar::Absent => DocScalarModel::Absent,
            DocScalar::Text(s) => DocScalarModel::Text(s@),
            DocScalar::Int(i) => DocScalarModel::Int(*i as int),
            DocScalar::Flag(b) => DocScalarModel::Flag(*b),
        }
    }
}

/// A property's `values` field: absent, an inline list, or a
/// reference to a shared named value list.
#[derive(Debug)]
pub enum DocValues {
    Absent,
    Inline(Vec<String>),
    Named(String),
}

/// The model of a `values` field.
pub enum DocValuesModel {
    Absent,
    Inline(Seq<Seq<char>>),
    Named(Seq<char>),
}

impl View for DocValues {
    type V = DocValuesModel;

    open spec fn view(&self) -> DocValuesModel {
        match self {
            DocValues::Absent => DocValuesModel::Absent,
            DocValues::Inline(v) => DocValuesModel::Inline(v.deep_view()),
            DocValues::Named(s) => DocValuesModel::Named(s@),
        }
    }
}

/// A property's numeric bounds: absent, a min/max field pair, or the
/// earlier array convention `[min, max]`.
#[derive(Debug)]
pub enum DocBounds {
    Absent,
    MinMax(i64, i64),
    Pair(Vec<i64>),
}

/// The model of a bounds field.
pub enum DocBoundsModel {
    Absent,
    MinMax(int, int),
    Pair(Seq<int>),
}

impl View for DocBounds {
    type V = DocBoundsModel;

    open spec fn view(&self) -> DocBoundsModel {
        match self {
            DocBounds::Absent => DocBoundsModel::Absent,
            DocBounds::MinMax(a, b) => DocBoundsModel::MinMax(*a as int, *b as int),
            DocBounds::Pair(v) => DocBoundsModel::Pair(v@.map_values(|x: i64| x as int)),
        }
    }
}

/// One property definition of a schema document.
#[derive(Debug)]
pub struct DocProperty {
    pub name: String,
    pub ptype: String,
    pub default: DocScalar,
    pub changeable: Option<String>,
    pub values: DocValues,
    pub bounds: DocBounds,
    pub help: Option<String>,
}

/// The model of a property definition.
pub struct DocPropModel {
    pub name: Seq<char>,
    pub ptype: Seq<char>,
    pub default: DocScalarModel,
    pub changeable: Option<Seq<char>>,
    pub values: DocValuesModel,
    pub bounds: DocBoundsModel,
    pub help: Option<Seq<char>>,
}

impl View for DocProperty {
    type V = DocPropModel;

    open spec fn view(&self) -> DocPropModel {
        DocPropModel {
            name: self.name@,
            ptype: self.ptype@,
            default: self.default@,
            changeable: match &self.changeable {
                Some(s) => Some(s@),
                None => None,
            },
            values: self.values@,
            bounds: self.bounds@,
            help: match &self.help {
                Some(s) => Some(s@),
                None => None,
            },
        }
    }
}

/// One section entry of a schema document.
#[derive(Debug)]
pub struct DocSection {
    pub name: String,
    pub stype: String,
    pub properties: Vec<DocProperty>,
}

/// The model of a section entry.
pub struct DocSectionModel {
    pub name: Seq<char>,
    pub stype: Seq<char>,
    pub properties: Seq<DocPropModel>,
}

impl View for DocSection {
    type V = DocSectionModel;

    open spec fn view(&self) -> DocSectionModel {
        DocSectionModel {
            name: self.name@,
            stype: self.stype@,
            properties: self.properties@.map_values(|p: DocProperty| p@),
        }
    }
}

/// A shared named value list.
#[derive(Debug)]
pub struct ValueList {
    pub name: String,
    pub items: Vec<String>,
}

/// A schema document: section entries plus the shared value-list
/// table.  Transient and input-only.
#[derive(Debug)]
pub struct SchemaDoc {
    pub sections: Vec<DocSection>,
    pub value_lists: Vec<ValueList>,
}

/// The model of a schema document.
pub struct DocModel {
    pub sections: Seq<DocSectionModel>,
    pub value_lists: Seq<(Seq<char>, Seq<Seq<char>>)>,
}

impl View for SchemaDoc {
    type V = DocModel;

    open spec fn view(&self) -> DocModel {
        DocModel {
            sections: self.sections@.map_values(|s: DocSection| s@),
            value_lists: self.value_lists@.map_values(
                |l: ValueList| (l.name@, l.items.deep_view()),
            ),
        }
    }
}

/// Why a schema document could not be loaded.  All of these are
/// fatal: the schema itself is malformed, a startup-time condition.
#[derive(Clone, Copy, Debug, PartialEq, Eq, Structural)]
pub enum SchemaError {
    /// A section entry's `type` is neither `property` nor `line`.
    UnknownSectionType,
    /// A property entry's `type` names no known value kind.
    UnknownPropertyType,
    /// A property entry lacks its required `help` field.
    MissingHelp,
    /// A property's default does not fit its declared type.
    BadDefault,
    /// A bounds array does not hold exactly two integers.
    BadBounds,
    /// A `values` reference names no shared value list.
    UnknownValueList,
    /// Two sections, or two properties of one section, share a name.
    DuplicateName,
}

/// The mutability class named by a `changeable` field; absent or
/// unrecognized text defaults to `Always`.
pub open spec fn parse_changeable(c: Option<Seq<char>>) -> Changeable {
    match c {
        None => Changeable::Always,
        Some(t) => if t == "only_at_start"@ {
            Changeable::OnlyAtStart
        } else if t == "when_idle"@ {
            Changeable::WhenIdle
        } else {
            Changeable::Always
        },
    }
}

/// The first shared value list carrying `name`, if any.
pub open spec fn lookup_list_from(
    vls: Seq<(Seq<char>, Seq<Seq<char>>)>,
    name: Seq<char>,
    i: int,
) -> Option<Seq<Seq<char>>>
    decreases vls.len() - i,
{
    if i < 0 || i >= vls.len() {
        None
    } else if vls[i].0 == name {
        Some(vls[i].1)
    } else {
        lookup_list_from(vls, name, i + 1)
    }
}

/// Resolution of a property's `values` field: inline lists are copied,
/// references are looked up in the shared table, absence leaves the
/// enumeration unconstrained.
pub open spec fn resolve_values(
    vls: Seq<(Seq<char>, Seq<Seq<char>>)>,
    v: DocValuesModel,
) -> Result<Seq<Seq<char>>, SchemaError> {
    match v {
        DocValuesModel::Absent => Ok(Seq::empty()),
        DocValuesModel::Inline(items) => Ok(items),
        DocValuesModel::Named(n) => match lookup_list_from(vls, n, 0) {
            Some(l) => Ok(l),
            None => Err(SchemaError::UnknownValueList),
        },
    }
}

/// Resolution of an integer property's bounds, honouring both the
/// min/max field convention and the `[min, max]` array convention;
/// absence means unconstrained (both zero).
pub open spec fn resolve_bounds(b: DocBoundsModel) -> Result<(int, int), SchemaError> {
    match b {
        DocBoundsModel::Absent => Ok((0int, 0int)),
        DocBoundsModel::MinMax(a, b) => Ok((a, b)),
        DocBoundsModel::Pair(l) => if l.len() == 2 {
            Ok((l[0], l[1]))
        } else {
            Err(SchemaError::BadBounds)
        },
    }
}

/// The default value a property definition establishes: the declared
/// type picks the tag, the `default` field the payload.  A missing
/// default leaves the value `Null`; a default of the wrong shape, or
/// an unknown type string, is fatal.
pub open spec fn build_value(ptype: Seq<char>, default: DocScalarModel) -> Result<
    ValueModel,
    SchemaError,
> {
    if ptype == "path"@ {
        match default {
            DocScalarModel::Absent => Ok(ValueModel::Null),
            DocScalarModel::Text(t) => Ok(ValueModel::Path(t)),
            _ => Err(SchemaError::BadDefault),
        }
    } else if ptype == "string"@ || ptype == "multi"@ {
        match default {
            DocScalarModel::Absent => Ok(ValueModel::Null),
            DocScalarModel::Text(t) => Ok(ValueModel::Str(t)),
            _ => Err(SchemaError::BadDefault),
        }
    } else if ptype == "int"@ {
        match default {
            DocScalarModel::Absent => Ok(ValueModel::Null),
            DocScalarModel::Int(v) => Ok(ValueModel::Int(v)),
            _ => Err(SchemaError::BadDefault),
        }
    } else if ptype == "bool"@ {
        match default {
            DocScalarModel::Absent => Ok(ValueModel::Null),
            DocScalarModel::Flag(b) => Ok(ValueModel::Bool(b)),
            _ => Err(SchemaError::BadDefault),
        }
    } else if ptype == "hex"@ {
        match default {
            DocScalarModel::Absent => Ok(ValueModel::Null),
            DocScalarModel::Text(t) => Ok(ValueModel::Hex(t)),
            _ => Err(SchemaError::BadDefault),
        }
    } else if ptype == "double"@ {
        match default {
            DocScalarModel::Absent => Ok(ValueModel::Null),
            DocScalarModel::Text(t) => if is_double_lit(t) {
                Ok(ValueModel::Double(t))
            } else {
                Err(SchemaError::BadDefault)
            },
            _ => Err(SchemaError::BadDefault),
        }
    } else {
        Err(SchemaError::UnknownPropertyType)
    }
}

/// One fully resolved property from its definition.  Its current
/// value starts equal to its default.
pub open spec fn build_prop(
    vls: Seq<(Seq<char>, Seq<Seq<char>>)>,
    p: DocPropModel,
) -> Result<PropModel, SchemaError> {
    if p.help is None {
        Err(SchemaError::MissingHelp)
    } else {
        match build_value(p.ptype, p.default) {
            Err(e) => Err(e),
            Ok(v) => match resolve_values(vls, p.values) {
                Err(e) => Err(e),
                Ok(av) => match (if p.ptype == "int"@ {
                    resolve_bounds(p.bounds)
                } else {
                    Ok((0int, 0int))
                }) {
                    Err(e) => Err(e),
                    Ok(bounds) => Ok(
                        PropModel {
                            name: p.name,
                            default: v,
                            current: v,
                            allowed: av,
                            min: bounds.0,
                            max: bounds.1,
                            changeable: parse_changeable(p.changeable),
                            help: p.help->0,
                        },
                    ),
                },
            },
        }
    }
}

/// The resolved properties of a `property`-typed section, in entry
/// order; a repeated property name is fatal.
pub open spec fn build_props(
    vls: Seq<(Seq<char>, Seq<Seq<char>>)>,
    ps: Seq<DocPropModel>,
) -> Result<Seq<PropModel>, SchemaError>
    decreases ps.len(),
{
    if ps.len() == 0 {
        Ok(Seq::empty())
    } else {
        match build_props(vls, ps.drop_last()) {
            Err(e) => Err(e),
            Ok(acc) => match build_prop(vls, ps.last()) {
                Err(e) => Err(e),
                Ok(p) => if has_prop(acc, p.name) {
                    Err(SchemaError::DuplicateName)
                } else {
                    Ok(acc.push(p))
                },
            },
        }
    }
}

/// One realized section from its entry: `property` builds typed
/// properties, `line` an empty passthrough block, anything else is
/// fatal.
pub open spec fn build_section(
    vls: Seq<(Seq<char>, Seq<Seq<char>>)>,
    s: DocSectionModel,
) -> Result<SectionModel, SchemaError> {
    if s.stype == "property"@ {
        match build_props(vls, s.properties) {
            Err(e) => Err(e),
            Ok(ps) => Ok(SectionModel { name: s.name, body: SectionBodyModel::Props(ps) }),
        }
    } else if s.stype == "line"@ {
        Ok(SectionModel { name: s.name, body: SectionBodyModel::Lines(Seq::empty()) })
    } else {
        Err(SchemaError::UnknownSectionType)
    }
}

/// The realized store from a schema document: every section built in
/// order, with repeated section names fatal.
pub open spec fn build_sections(
    vls: Seq<(Seq<char>, Seq<Seq<char>>)>,
    ss: Seq<DocSectionModel>,
) -> Result<Seq<SectionModel>, SchemaError>
    decreases ss.len(),
{
    if ss.len() == 0 {
        Ok(Seq::empty())
    } else {
        match build_sections(vls, ss.drop_last()) {
            Err(e) => Err(e),
            Ok(acc) => match build_section(vls, ss.last()) {
                Err(e) => Err(e),
                Ok(s) => if has_section(acc, s.name) {
                    Err(SchemaError::DuplicateName)
                } else {
                    Ok(acc.push(s))
                },
            },
        }
    }
}

/// What loading a schema document yields.
pub open spec fn build_model(doc: DocModel) -> Result<Seq<SectionModel>, SchemaError> {
    build_sections(doc.value_lists, doc.sections)
}

/// The index into the shared table of the first value list carrying
/// `name`, or `None`.
fn find_list(doc: &SchemaDoc, name: &str) -> (r: Option<usize>)
    ensures
        match r {
            Some(i) => i < doc@.value_lists.len() && lookup_list_from(doc@.value_lists, name@, 0)
                == Some(doc@.value_lists[i as int].1),
            None => lookup_list_from(doc@.value_lists, name@, 0) is None,
        },
{
    let ghost vls = doc@.value_lists;
    let n = doc.value_lists.len();
    let mut i: usize = 0;
    while i < n
        invariant
            i <= n == vls.len(),
            vls == doc@.value_lists,
            lookup_list_from(vls, name@, 0) == lookup_list_from(vls, name@, i as int),
        decreases n - i,
    {
        if str_eq(doc.value_lists[i].name.as_str(), name) {
            proof {
                assert(vls[i as int].0 == name@);
            }
            return Some(i);
        }
        proof {
            assert(vls[i as int].0 != name@);
        }
        i = i + 1;
    }
    None
}

/// Whether any built property carries `name`.
fn props_contain(ps: &Vec<Property>, name: &str) -> (r: bool)
    ensures
        r == has_prop(ps@.map_values(|p: Property| p@), name@),
{
    let ghost m = ps@.map_values(|p: Property| p@);
    let n = ps.len();
    let mut i: usize = 0;
    while i < n
        invariant
            i <= n == m.len(),
            m == ps@.map_values(|p: Property| p@),
            forall|q: int| 0 <= q < i ==> m[q].name != name@,
        decreases n - i,
    {
        if str_eq(ps[i].name.as_str(), name) {
            proof {
                assert(m[i as int].name == name@);
            }
            return true;
        }
        i = i + 1;
    }
    false
}

/// Whether any built section carries `name`.
fn sections_contain(ss: &Vec<Section>, name: &str) -> (r: bool)
    ensures
        r == has_section(ss@.map_values(|s: Section| s@), name@),
{
    let ghost m = ss@.map_values(|s: Section| s@);
    let n = ss.len();
    let mut i: usize = 0;
    while i < n
        invariant
            i <= n == m.len(),
            m == ss@.map_values(|s: Section| s@),
            forall|q: int| 0 <= q < i ==> m[q].name != name@,
        decreases n - i,
    {
        if str_eq(ss[i].name.as_str(), name) {
            proof {
                assert(m[i as int].name == name@);
            }
            return true;
        }
        i = i + 1;
    }
    false
}

/// The default value established by a declared type and a `default`
/// field, per [`build_value`].
fn build_value_exec(ptype: &str, default: &DocScalar) -> (r: Result<PropertyValue, SchemaError>)
    ensures
        match r {
            Ok(v) => build_value(ptype@, default@) == Ok::<ValueModel, SchemaError>(v@),
            Err(e) => build_value(ptype@, default@) == Err::<ValueModel, SchemaError>(e),
        },
{
    if str_eq(ptype, "path") {
        match default {
            DocScalar::Absent => Ok(PropertyValue::Null),
            DocScalar::Text(t) => Ok(PropertyValue::Path(copy_str(t.as_str()))),
            _ => Err(SchemaError::BadDefault),
        }
    } else if str_eq(ptype, "string") || str_eq(ptype, "multi") {
        match default {
            DocScalar::Absent => Ok(PropertyValue::Null),
            DocScalar::Text(t) => Ok(PropertyValue::Str(copy_str(t.as_str()))),
            _ => Err(SchemaError::BadDefault),
        }
    } else if str_eq(ptype, "int") {
        match default {
            DocScalar::Absent => Ok(PropertyValue::Null),
            DocScalar::Int(v) => Ok(PropertyValue::Int(*v)),
            _ => Err(SchemaError::BadDefault),
        }
    } else if str_eq(ptype, "bool") {
        match default {
            DocScalar::Absent => Ok(PropertyValue::Null),
            DocScalar::Flag(b) => Ok(PropertyValue::Bool(*b)),
            _ => Err(SchemaError::BadDefault),
        }
    } else if str_eq(ptype, "hex") {
        match default {
            DocScalar::Absent => Ok(PropertyValue::Null),
            DocScalar::Text(t) => Ok(PropertyValue::Hex(copy_str(t.as_str()))),
            _ => Err(SchemaError::BadDefault),
        }
    } else if str_eq(ptype, "double") {
        match default {
            DocScalar::Absent => Ok(PropertyValue::Null),
            DocScalar::Text(t) => if is_double(t.as_str()) {
                Ok(PropertyValue::Double(copy_str(t.as_str())))
            } else {
                Err(SchemaError::BadDefault)
            },
            _ => Err(SchemaError::BadDefault),
        }
    } else {
        Err(SchemaError::UnknownPropertyType)
    }
}

/// One fully resolved property from its definition, per
/// [`build_prop`].
fn build_prop_exec(doc: &SchemaDoc, p: &DocProperty) -> (r: Result<Property, SchemaError>)
    ensures
        match r {
            Ok(prop) => build_prop(doc@.value_lists, p@) == Ok::<PropModel, SchemaError>(prop@),
            Err(e) => build_prop(doc@.value_lists, p@) == Err::<PropModel, SchemaError>(e),
        },
{
    let help: &String = match &p.help {
        Some(h) => h,
        None => {
            return Err(SchemaError::MissingHelp);
        },
    };
    let value = match build_value_exec(p.ptype.as_str(), &p.default) {
        Ok(v) => v,
        Err(e) => {
            return Err(e);
        },
    };
    let allowed: Vec<String> = match &p.values {
        DocValues::Absent => Vec::new(),
        DocValues::Inline(v) => copy_strings(v),
        DocValues::Named(n) => match find_list(doc, n.as_str()) {
            Some(i) => copy_strings(&doc.value_lists[i].items),
            None => {
                return Err(SchemaError::UnknownValueList);
            },
        },
    };
    let bounds: (i64, i64) = if str_eq(p.ptype.as_str(), "int") {
        match &p.bounds {
            DocBounds::Absent => (0, 0),
            DocBounds::MinMax(a, b) => (*a, *b),
            DocBounds::Pair(v) => if v.len() == 2 {
                (v[0], v[1])
            } else {
                return Err(SchemaError::BadBounds);
            },
        }
    } else {
        (0, 0)
    };
    let changeable: Changeable = match &p.changeable {
        None => Changeable::Always,
        Some(c) => if str_eq(c.as_str(), "only_at_start") {
            Changeable::OnlyAtStart
        } else if str_eq(c.as_str(), "when_idle") {
            Changeable::WhenIdle
        } else {
            Changeable::Always
        },
    };
    let prop = Property {
        name: copy_str(p.name.as_str()),
        default_value: value.duplicate(),
        current_value: value,
        allowed_values: allowed,
        min: bounds.0,
        max: bounds.1,
        changeable,
        help_text: copy_str(help.as_str()),
    };
    proof {
        let spec_r = build_prop(doc@.value_lists, p@);
        assert(spec_r is Ok);
        assert(prop@ =~~= spec_r->Ok_0);
    }
    Ok(prop)
}

impl Config {
    /// Build the realized store from a schema document, or fail with
    /// the first fatal condition encountered, per [`build_model`].
    pub fn from_schema(doc: &SchemaDoc) -> (r: Result<Config, SchemaError>)
        ensures
            match r {
                Ok(c) => build_model(doc@) == Ok::<Seq<SectionModel>, SchemaError>(c@) && c.wf(),
                Err(e) => build_model(doc@) == Err::<Seq<SectionModel>, SchemaError>(e),
            },
    {
        let ghost vls = doc@.value_lists;
        let ghost ss = doc@.sections;
        let n = doc.sections.len();
        let mut out: Vec<Section> = Vec::new();
        proof {
            assert(ss.take(0) =~= Seq::<DocSectionModel>::empty());
            assert(out@.map_values(|s: Section| s@) =~= Seq::<SectionModel>::empty());
        }
        let mut i: usize = 0;
        while i < n
            invariant
                i <= n == ss.len(),
                vls == doc@.value_lists,
                ss == doc@.sections,
                build_sections(vls, ss.take(i as int)) == Ok::<Seq<SectionModel>, SchemaError>(
                    out@.map_values(|s: Section| s@),
                ),
                store_wf(out@.map_values(|s: Section| s@)),
            decreases n - i,
        {
            let ghost acc = out@.map_values(|s: Section| s@);
            let entry = &doc.sections[i];
            proof {
                assert(entry@ == ss[i as int]);
                assert(ss.take(i as int + 1).drop_last() =~= ss.take(i as int));
                assert(ss.take(i as int + 1).last() == ss[i as int]);
            }
            let built: Section = if str_eq(entry.stype.as_str(), "property") {
                let ghost dps = entry@.properties;
                let pn = entry.properties.len();
                let mut props: Vec<Property> = Vec::new();
                proof {
                    assert(dps.take(0) =~= Seq::<DocPropModel>::empty());
                    assert(props@.map_values(|p: Property| p@) =~= Seq::<PropModel>::empty());
                }
                let mut j: usize = 0;
                while j < pn
                    invariant
                        j <= pn == dps.len(),
                        vls == doc@.value_lists,
                        dps == entry@.properties,
                        (i as int) < ss.len(),
                        entry@ == ss[i as int],
                        ss == doc@.sections,
                        build_sections(vls, ss.take(i as int)) == Ok::<
                            Seq<SectionModel>,
                            SchemaError,
                        >(out@.map_values(|s: Section| s@)),
                        entry@.stype == "property"@,
                        build_props(vls, dps.take(j as int)) == Ok::<Seq<PropModel>, SchemaError>(
                            props@.map_values(|p: Property| p@),
                        ),
                        props_wf(props@.map_values(|p: Property| p@)),
                    decreases pn - j,
                {
                    let ghost pacc = props@.map_values(|p: Property| p@);
                    proof {
                        assert(entry.properties[j as int]@ == dps[j as int]);
                        assert(dps.take(j as int + 1).drop_last() =~= dps.take(j as int));
                        assert(dps.take(j as int + 1).last() == dps[j as int]);
                    }
                    let prop = match build_prop_exec(doc, &entry.properties[j]) {
                        Ok(p) => p,
                        Err(e) => {
                            proof {
                                assert(build_props(vls, dps.take(j as int + 1)) == Err::<
                                    Seq<PropModel>,
                                    SchemaError,
                                >(e));
                                lemma_build_props_prefix_err(vls, dps, j as int + 1);
                                assert(build_section(vls, ss[i as int]) == Err::<
                                    SectionModel,
                                    SchemaError,
                                >(e));
                                assert(ss.take(i as int + 1).drop_last() =~= ss.take(i as int));
                                assert(ss.take(i as int + 1).last() == ss[i as int]);
                                lemma_build_sections_prefix_err(vls, ss, i as int + 1);
                            }
                            return Err(e);
                        },
                    };
                    if props_contain(&props, prop.name.as_str()) {
                        proof {
                            assert(build_props(vls, dps.take(j as int + 1)) == Err::<
                                Seq<PropModel>,
                                SchemaError,
                            >(SchemaError::DuplicateName));
                            lemma_build_props_prefix_err(vls, dps, j as int + 1);
                            assert(build_section(vls, ss[i as int]) == Err::<
                                SectionModel,
                                SchemaError,
                            >(SchemaError::DuplicateName));
                            assert(ss.take(i as int + 1).drop_last() =~= ss.take(i as int));
                            assert(ss.take(i as int + 1).last() == ss[i as int]);
                            lemma_build_sections_prefix_err(vls, ss, i as int + 1);
                        }
                        return Err(SchemaError::DuplicateName);
                    }
                    props.push(prop);
                    proof {
                        assert(props@.map_values(|p: Property| p@) =~= pacc.push(
                            props@.last()@,
                        ));
                    }
                    j = j + 1;
                }
                proof {
                    assert(dps.take(j as int) =~= dps);
                }
                Section {
                    name: copy_str(entry.name.as_str()),
                    kind: SectionKind::Props,
                    properties: props,
                    lines: Vec::new(),
                }
            } else if str_eq(entry.stype.as_str(), "line") {
                Section {
                    name: copy_str(entry.name.as_str()),
                    kind: SectionKind::Lines,
                    properties: Vec::new(),
                    lines: Vec::new(),
                }
            } else {
                proof {
                    assert(build_section(vls, ss[i as int]) == Err::<SectionModel, SchemaError>(
                        SchemaError::UnknownSectionType,
                    ));
                    assert(ss.take(i as int + 1).drop_last() =~= ss.take(i as int));
                    assert(ss.take(i as int + 1).last() == ss[i as int]);
                    lemma_build_sections_prefix_err(vls, ss, i as int + 1);
                }
                return Err(SchemaError::UnknownSectionType);
            };
            proof {
                assert(build_section(vls, ss[i as int]) matches Ok(sm) && sm =~~= built@);
            }
            if sections_contain(&out, built.name.as_str()) {
                proof {
                    assert(build_sections(vls, ss.take(i as int + 1)) == Err::<
                        Seq<SectionModel>,
                        SchemaError,
                    >(SchemaError::DuplicateName));
                    lemma_build_sections_prefix_err(vls, ss, i as int + 1);
                }
                return Err(SchemaError::DuplicateName);
            }
            out.push(built);
            proof {
                assert(out@.map_values(|s: Section| s@) =~= acc.push(out@.last()@));
            }
            i = i + 1;
        }
        proof {
            assert(ss.take(i as int) =~= ss);
        }
        Ok(Config { sections: out })
    }
}

/// A failed prefix fails the whole property build.
proof fn lemma_build_props_prefix_err(
    vls: Seq<(Seq<char>, Seq<Seq<char>>)>,
    ps: Seq<DocPropModel>,
    j: int,
)
    requires
        0 <= j <= ps.len(),
        build_props(vls, ps.take(j)) is Err,
    ensures
        build_props(vls, ps) == build_props(vls, ps.take(j)),
    decreases ps.len() - j,
{
    if j < ps.len() {
        assert(ps.take(j + 1).drop_last() =~= ps.take(j));
        lemma_build_props_prefix_err(vls, ps, j + 1);
    } else {
        assert(ps.take(j) =~= ps);
    }
}

/// A failed prefix fails the whole section build.
proof fn lemma_build_sections_prefix_err(
    vls: Seq<(Seq<char>, Seq<Seq<char>>)>,
    ss: Seq<DocSectionModel>,
    i: int,
)
    requires
        0 <= i <= ss.len(),
        build_sections(vls, ss.take(i)) is Err,
    ensures
        build_sections(vls, ss) == build_sections(vls, ss.take(i)),
    decreases ss.len() - i,
{
    if i < ss.len() {
        assert(ss.take(i + 1).drop_last() =~= ss.take(i));
        lemma_build_sections_prefix_err(vls, ss, i + 1);
    } else {
        assert(ss.take(i) =~= ss);
    }
}

} // verus!
