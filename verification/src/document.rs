//! Documents: the elements of a document as values, held against the
//! models of their types.

use crate::common::{
    attribute_value, bool_of_bytes, content_run, from_utf8_lossy, parse_bool_bytes,
    read_attribute_value, read_content_run, utf8_lossy, SdkError, SdkErrorView, XmlAttribute,
    XmlEvent,
};
use crate::context::GenContext;
use crate::deserializer::{enum_from_bytes, facet_of};
use crate::models::OpenXmlSchemaEnum;
use crate::numbers::{check_decimal, integer_of, is_decimal, read_integer};
use crate::open_xml_schema::{ContentKind, Field, NumberKind, ValueKind};
use crate::symbols::TypeRef;
use crate::xmlns::{opt_view, pairs_view};
use vstd::prelude::*;
use vstd::utf8::encode_utf8;

verus! {

/// A value of an attribute or of the text content of a leaf.
#[derive(Debug)]
pub enum Scalar {
    Text(String),
    Boolean(bool),
    /// An integer of one of the integer kinds.
    Integer(i128),
    /// A number with a fraction, kept as it is written.
    Decimal(String),
    /// The facet of an enumeration at the given place.
    Facet(usize),
}

/// The mathematical value of a [`Scalar`].
pub enum ScalarView {
    Text(Seq<char>),
    Boolean(bool),
    Integer(int),
    Decimal(Seq<char>),
    Facet(int),
}

impl View for Scalar {
    type V = ScalarView;

    open spec fn view(&self) -> ScalarView {
        match self {
            Scalar::Text(s) => ScalarView::Text(s@),
            Scalar::Boolean(b) => ScalarView::Boolean(*b),
            Scalar::Integer(n) => ScalarView::Integer(*n as int),
            Scalar::Decimal(s) => ScalarView::Decimal(s@),
            Scalar::Facet(i) => ScalarView::Facet(*i as int),
        }
    }
}

pub open spec fn opt_scalar_view(s: Option<Scalar>) -> Option<ScalarView> {
    match s {
        Some(x) => Some(x@),
        None => None,
    }
}

/// What a field of an element holds. The values of an element stand in
/// the order of the fields of its type's model.
#[derive(Debug)]
pub enum FieldValue {
    Xmlns(Option<String>),
    XmlnsMap(Vec<(String, String)>),
    McIgnorable(Option<String>),
    Attribute(Option<Scalar>),
    XmlContent(Option<Scalar>),
    /// The elements of a child field: none or one where the child occurs
    /// at most once, any number where it repeats.
    Child(Vec<Element>),
    /// The children of a type whose children are a list of its union.
    Children(Vec<ChildElement>),
}

/// One child in a list of children: the variant and the element.
#[derive(Debug)]
pub struct ChildElement {
    pub variant: usize,
    pub element: Element,
}

/// An element of a document.
#[derive(Debug)]
pub struct Element {
    pub at: TypeRef,
    pub values: Vec<FieldValue>,
}

/// The mathematical value of a [`FieldValue`].
pub enum FieldValueView {
    Xmlns(Option<Seq<char>>),
    XmlnsMap(Seq<(Seq<char>, Seq<char>)>),
    McIgnorable(Option<Seq<char>>),
    Attribute(Option<ScalarView>),
    XmlContent(Option<ScalarView>),
    Child(Seq<ElementView>),
    Children(Seq<(int, ElementView)>),
}

/// The mathematical value of an [`Element`].
pub struct ElementView {
    pub at: TypeRef,
    pub values: Seq<FieldValueView>,
}

/// The value of an element.
pub open spec fn element_view(e: Element) -> ElementView
    decreases e,
{
    ElementView { at: e.at, values: values_view(e.values@, e.values@.len() as int) }
}

/// The values of the first `n` fields of an element.
pub open spec fn values_view(values: Seq<FieldValue>, n: int) -> Seq<FieldValueView>
    decreases values, n,
{
    if n <= 0 || n > values.len() {
        Seq::empty()
    } else {
        values_view(values, n - 1).push(value_view(values[n - 1]))
    }
}

/// The value of a field.
pub open spec fn value_view(v: FieldValue) -> FieldValueView
    decreases v,
{
    match v {
        FieldValue::Xmlns(x) => FieldValueView::Xmlns(opt_view(x)),
        FieldValue::XmlnsMap(m) => FieldValueView::XmlnsMap(pairs_view(m@)),
        FieldValue::McIgnorable(x) => FieldValueView::McIgnorable(opt_view(x)),
        FieldValue::Attribute(s) => FieldValueView::Attribute(opt_scalar_view(s)),
        FieldValue::XmlContent(s) => FieldValueView::XmlContent(opt_scalar_view(s)),
        FieldValue::Child(es) => FieldValueView::Child(elements_view(es@, es@.len() as int)),
        FieldValue::Children(cs) => FieldValueView::Children(children_view(cs@, cs@.len() as int)),
    }
}

/// The values of the first `n` elements of a list.
pub open spec fn elements_view(es: Seq<Element>, n: int) -> Seq<ElementView>
    decreases es, n,
{
    if n <= 0 || n > es.len() {
        Seq::empty()
    } else {
        elements_view(es, n - 1).push(element_view(es[n - 1]))
    }
}

/// The values of the first `n` children of a list.
pub open spec fn children_view(cs: Seq<ChildElement>, n: int) -> Seq<(int, ElementView)>
    decreases cs, n,
{
    if n <= 0 || n > cs.len() {
        Seq::empty()
    } else {
        children_view(cs, n - 1).push((cs[n - 1].variant as int, element_view(cs[n - 1].element)))
    }
}

impl View for Element {
    type V = ElementView;

    open spec fn view(&self) -> ElementView {
        element_view(*self)
    }
}

impl View for FieldValue {
    type V = FieldValueView;

    open spec fn view(&self) -> FieldValueView {
        value_view(*self)
    }
}

/// The values of a list of fields.
pub open spec fn all_values_view(values: Seq<FieldValue>) -> Seq<FieldValueView> {
    values_view(values, values.len() as int)
}

pub proof fn lemma_values_view(values: Seq<FieldValue>, n: int)
    requires
        0 <= n <= values.len(),
    ensures
        values_view(values, n).len() == n,
        forall|i: int| 0 <= i < n ==> #[trigger] values_view(values, n)[i] == value_view(values[i]),
    decreases n,
{
    if n > 0 {
        lemma_values_view(values, n - 1);
    }
}

pub proof fn lemma_elements_view(es: Seq<Element>, n: int)
    requires
        0 <= n <= es.len(),
    ensures
        elements_view(es, n).len() == n,
        forall|i: int| 0 <= i < n ==> #[trigger] elements_view(es, n)[i] == element_view(es[i]),
    decreases n,
{
    if n > 0 {
        lemma_elements_view(es, n - 1);
    }
}

pub proof fn lemma_children_view(cs: Seq<ChildElement>, n: int)
    requires
        0 <= n <= cs.len(),
    ensures
        children_view(cs, n).len() == n,
        forall|i: int|
            0 <= i < n ==> #[trigger] children_view(cs, n)[i] == (
                cs[i].variant as int,
                element_view(cs[i].element),
            ),
    decreases n,
{
    if n > 0 {
        lemma_children_view(cs, n - 1);
    }
}

/// The value of a list of fields changes at one place when one field
/// changes.
pub proof fn lemma_values_view_update(values: Seq<FieldValue>, k: int, v: FieldValue)
    requires
        0 <= k < values.len(),
    ensures
        all_values_view(values.update(k, v)) == all_values_view(values).update(k, value_view(v)),
{
    lemma_values_view(values, values.len() as int);
    lemma_values_view(values.update(k, v), values.len() as int);
    assert(all_values_view(values.update(k, v)) =~= all_values_view(values).update(
        k,
        value_view(v),
    ));
}

pub proof fn lemma_values_view_push(values: Seq<FieldValue>, v: FieldValue)
    ensures
        all_values_view(values.push(v)) == all_values_view(values).push(value_view(v)),
{
    lemma_values_view(values, values.len() as int);
    lemma_values_view(values.push(v), values.len() as int + 1);
    assert(all_values_view(values.push(v)) =~= all_values_view(values).push(value_view(v)));
}

pub proof fn lemma_elements_view_push(es: Seq<Element>, e: Element)
    ensures
        elements_view(es.push(e), es.len() as int + 1) == elements_view(es, es.len() as int).push(
            element_view(e),
        ),
{
    lemma_elements_view(es, es.len() as int);
    lemma_elements_view(es.push(e), es.len() as int + 1);
    assert(elements_view(es.push(e), es.len() as int + 1) =~= elements_view(es, es.len() as int).push(
        element_view(e),
    ));
}

pub proof fn lemma_children_view_push(cs: Seq<ChildElement>, c: ChildElement)
    ensures
        children_view(cs.push(c), cs.len() as int + 1) == children_view(cs, cs.len() as int).push(
            (c.variant as int, element_view(c.element)),
        ),
{
    lemma_children_view(cs, cs.len() as int);
    lemma_children_view(cs.push(c), cs.len() as int + 1);
    assert(children_view(cs.push(c), cs.len() as int + 1) =~= children_view(cs, cs.len() as int).push(
        (c.variant as int, element_view(c.element)),
    ));
}

/// The value that a field holds before anything is read.
pub open spec fn initial_value(f: Field) -> FieldValueView {
    match f {
        Field::Xmlns => FieldValueView::Xmlns(None),
        Field::XmlnsMap => FieldValueView::XmlnsMap(Seq::empty()),
        Field::McIgnorable => FieldValueView::McIgnorable(None),
        Field::Attribute { inherited, index, kind, required } => FieldValueView::Attribute(None),
        Field::XmlContent { kind } => FieldValueView::XmlContent(None),
        Field::Child { item, child, target, occurrence } => FieldValueView::Child(Seq::empty()),
        Field::Children => FieldValueView::Children(Seq::empty()),
    }
}

/// The values of an element before anything is read.
pub open spec fn initial_values(fields: Seq<Field>) -> Seq<FieldValueView> {
    fields.map_values(|f: Field| initial_value(f))
}

pub fn make_initial_values(fields: &Vec<Field>) -> (values: Vec<FieldValue>)
    ensures
        all_values_view(values@) == initial_values(fields@),
        values@.len() == fields@.len(),
{
    let mut values: Vec<FieldValue> = Vec::new();
    let mut k: usize = 0;
    assert(all_values_view(values@) =~= initial_values(fields@).take(0));
    while k < fields.len()
        invariant
            k <= fields@.len(),
            values@.len() == k,
            all_values_view(values@) == initial_values(fields@).take(k as int),
        decreases fields@.len() - k,
    {
        let v = match &fields[k] {
            Field::Xmlns => FieldValue::Xmlns(None),
            Field::XmlnsMap => FieldValue::XmlnsMap(Vec::new()),
            Field::McIgnorable => FieldValue::McIgnorable(None),
            Field::Attribute { inherited, index, kind, required } => FieldValue::Attribute(None),
            Field::XmlContent { kind } => FieldValue::XmlContent(None),
            Field::Child { item, child, target, occurrence } => FieldValue::Child(Vec::new()),
            Field::Children => FieldValue::Children(Vec::new()),
        };
        proof {
            lemma_values_view_push(values@, v);
            assert(value_view(v) == initial_value(fields@[k as int])) by {
                match v {
                    FieldValue::XmlnsMap(m) => {
                        assert(pairs_view(m@) =~= Seq::empty());
                    },
                    FieldValue::Child(es) => {},
                    FieldValue::Children(cs) => {},
                    _ => {},
                }
            }
            assert(initial_values(fields@).take(k + 1) =~= initial_values(fields@).take(
                k as int,
            ).push(initial_value(fields@[k as int])));
        }
        values.push(v);
        k += 1;
    }
    assert(initial_values(fields@).take(k as int) =~= initial_values(fields@));
    values
}

/// The least and the greatest number of a kind of integers; a kind of
/// numbers with a fraction has none.
pub open spec fn number_range(kind: NumberKind) -> Option<(int, int)> {
    match kind {
        NumberKind::Byte => Some((0, 0xff)),
        NumberKind::Int16 => Some((-0x8000, 0x7fff)),
        NumberKind::Int32 => Some((-0x8000_0000, 0x7fff_ffff)),
        NumberKind::Int64 => Some((-0x8000_0000_0000_0000, 0x7fff_ffff_ffff_ffff)),
        NumberKind::UInt16 => Some((0, 0xffff)),
        NumberKind::UInt32 => Some((0, 0xffff_ffff)),
        NumberKind::UInt64 => Some((0, 0xffff_ffff_ffff_ffff)),
        NumberKind::Double => None,
        NumberKind::Single => None,
    }
}

/// The number that a text stands for in a kind of numbers: an integer
/// must be one of its kind, and a number with a fraction must be written
/// as one, else the error carries the text; a number with a fraction is
/// kept as it is written.
pub open spec fn number_scalar(kind: NumberKind, text: Seq<char>) -> Result<
    ScalarView,
    SdkErrorView,
> {
    match number_range(kind) {
        None => if is_decimal(text) {
            Ok(ScalarView::Decimal(text))
        } else {
            Err(SdkErrorView::ParseFloatError(text))
        },
        Some(range) => match integer_of(text, range.0 < 0, range.0, range.1) {
            Some(v) => Ok(ScalarView::Integer(v)),
            None => Err(SdkErrorView::ParseIntError(text)),
        },
    }
}

pub fn read_number(kind: NumberKind, text: String) -> (r: Result<Scalar, SdkError>)
    ensures
        match r {
            Ok(s) => number_scalar(kind, text@) == Ok::<ScalarView, SdkErrorView>(s@),
            Err(e) => number_scalar(kind, text@) == Err::<ScalarView, SdkErrorView>(e@),
        },
{
    let range: Option<(i128, i128)> = match kind {
        NumberKind::Byte => Some((0, 0xff)),
        NumberKind::Int16 => Some((-0x8000, 0x7fff)),
        NumberKind::Int32 => Some((-0x8000_0000, 0x7fff_ffff)),
        NumberKind::Int64 => Some((-0x8000_0000_0000_0000, 0x7fff_ffff_ffff_ffff)),
        NumberKind::UInt16 => Some((0, 0xffff)),
        NumberKind::UInt32 => Some((0, 0xffff_ffff)),
        NumberKind::UInt64 => Some((0, 0xffff_ffff_ffff_ffff)),
        NumberKind::Double => None,
        NumberKind::Single => None,
    };
    match range {
        None => if check_decimal(text.as_str()) {
            Ok(Scalar::Decimal(text))
        } else {
            Err(SdkError::ParseFloatError(text))
        },
        Some((min, max)) => match read_integer(text.as_str(), min < 0, min, max) {
            Some(v) => Ok(Scalar::Integer(v)),
            None => Err(SdkError::ParseIntError(text)),
        },
    }
}

impl GenContext {
    /// The enumeration at a place, if there is one.
    pub open spec fn enum_at(&self, at: TypeRef) -> Option<OpenXmlSchemaEnum> {
        if at.schema < self.schemas@.len() && at.index
            < self.schemas@[at.schema as int].enums@.len() {
            Some(self.schemas@[at.schema as int].enums@[at.index as int])
        } else {
            None
        }
    }

    pub fn find_enum_at(&self, at: TypeRef) -> (r: Option<&OpenXmlSchemaEnum>)
        ensures
            match r {
                Some(e) => self.enum_at(at) == Some(*e),
                None => self.enum_at(at) is None,
            },
    {
        if at.schema < self.schemas.len() && at.index < self.schemas[at.schema].enums.len() {
            Some(&self.schemas[at.schema].enums[at.index])
        } else {
            None
        }
    }

    /// The facet that raw bytes name in the enumeration at a place. Bytes
    /// that name none are an error that carries them; so is a place where
    /// no enumeration is.
    pub open spec fn facet_scalar(&self, at: TypeRef, raw: Seq<u8>) -> Result<
        ScalarView,
        SdkErrorView,
    > {
        match self.enum_at(at) {
            None => Err(SdkErrorView::CommonError(utf8_lossy(raw))),
            Some(e) => match facet_of(e, raw, 0) {
                Some(i) => Ok(ScalarView::Facet(i)),
                None => Err(SdkErrorView::CommonError(utf8_lossy(raw))),
            },
        }
    }

    pub fn read_facet(&self, at: TypeRef, raw: &[u8]) -> (r: Result<Scalar, SdkError>)
        ensures
            match r {
                Ok(s) => self.facet_scalar(at, raw@) == Ok::<ScalarView, SdkErrorView>(s@),
                Err(e) => self.facet_scalar(at, raw@) == Err::<ScalarView, SdkErrorView>(e@),
            },
    {
        match self.find_enum_at(at) {
            None => Err(SdkError::CommonError(from_utf8_lossy(raw))),
            Some(e) => match enum_from_bytes(e, raw) {
                Ok(i) => Ok(Scalar::Facet(i)),
                Err(x) => Err(x),
            },
        }
    }

    /// The value of an attribute of a kind: a text is the value decoded
    /// and unescaped; a truth value and a facet are read from the raw
    /// bytes; a number is read from the value decoded and unescaped.
    pub open spec fn attribute_scalar(&self, kind: ValueKind, a: XmlAttribute) -> Result<
        ScalarView,
        SdkErrorView,
    > {
        match kind {
            ValueKind::Text => match attribute_value(a) {
                Ok(v) => Ok(ScalarView::Text(v)),
                Err(e) => Err(e),
            },
            ValueKind::Boolean => match bool_of_bytes(a.value@) {
                Some(b) => Ok(ScalarView::Boolean(b)),
                None => Err(SdkErrorView::CommonError(utf8_lossy(a.value@))),
            },
            ValueKind::Number(n) => match attribute_value(a) {
                Ok(v) => number_scalar(n, v),
                Err(e) => Err(e),
            },
            ValueKind::Enumeration(at) => self.facet_scalar(at, a.value@),
        }
    }

    pub fn read_scalar(&self, kind: ValueKind, a: &XmlAttribute) -> (r: Result<Scalar, SdkError>)
        ensures
            match r {
                Ok(s) => self.attribute_scalar(kind, *a) == Ok::<ScalarView, SdkErrorView>(s@),
                Err(e) => self.attribute_scalar(kind, *a) == Err::<ScalarView, SdkErrorView>(e@),
            },
    {
        match kind {
            ValueKind::Text => match read_attribute_value(a) {
                Ok(v) => Ok(Scalar::Text(v)),
                Err(e) => Err(e),
            },
            ValueKind::Boolean => match parse_bool_bytes(a.value.as_slice()) {
                Ok(b) => Ok(Scalar::Boolean(b)),
                Err(e) => Err(e),
            },
            ValueKind::Number(n) => match read_attribute_value(a) {
                Ok(v) => read_number(n, v),
                Err(e) => Err(e),
            },
            ValueKind::Enumeration(at) => self.read_facet(at, a.value.as_slice()),
        }
    }

    /// The value of the text content of a leaf: the text that the pieces
    /// from `pos` on stand for; for an enumeration, the facet that this
    /// text names.
    pub open spec fn content_scalar(&self, kind: ContentKind, events: Seq<XmlEvent>, pos: int)
        -> Result<ScalarView, SdkErrorView> {
        match content_run(events, pos) {
            Err(e) => Err(e),
            Ok(text) => match kind {
                ContentKind::Enumeration(at) => self.facet_scalar(at, encode_utf8(text)),
                ContentKind::Scalar => Ok(ScalarView::Text(text)),
            },
        }
    }

    pub fn read_content(&self, kind: ContentKind, events: &Vec<XmlEvent>, pos: usize) -> (r: Result<
        Scalar,
        SdkError,
    >)
        ensures
            match r {
                Ok(s) => self.content_scalar(kind, events@, pos as int) == Ok::<
                    ScalarView,
                    SdkErrorView,
                >(s@),
                Err(e) => self.content_scalar(kind, events@, pos as int) == Err::<
                    ScalarView,
                    SdkErrorView,
                >(e@),
            },
    {
        match read_content_run(events, pos) {
            Err(e) => Err(e),
            Ok(text) => match kind {
                ContentKind::Enumeration(at) => self.read_facet(at, text.as_str().as_bytes()),
                ContentKind::Scalar => Ok(Scalar::Text(text)),
            },
        }
    }
}

} // verus!
