//! Writing an element as text, by the model of its type.

use crate::common::{
    as_escaped_xml_attribute, attribute_value, bool_of_bytes, content_run, element_text, escape,
    is_piece, reference_text, text_value, to_xml_string, xml_attribute, xml_escaped, SdkErrorView,
    XmlAttribute, XmlEvent,
};
use crate::context::GenContext;
use crate::deserializer::{
    attribute_target, field_has_key, first_field_with_key, has_xmlns, lemma_facet_round_trip,
    AttributeTarget, TypeDeserializer,
};
use crate::document::{
    all_values_view, children_view, elements_view, lemma_children_view, lemma_elements_view,
    lemma_values_view, number_range, value_view, ChildElement, Element, ElementView, FieldValue,
    FieldValueView, Scalar, ScalarView,
};
use crate::models::{local_tag_of, prefixed_tag_of, OpenXmlSchemaTypeAttribute};
use crate::numbers::{integer_text, is_decimal, lemma_integer_round_trip, write_integer, LIMIT};
use crate::open_xml_schema::{ContentKind, Field, ValueKind};
use crate::parse::{attribute_of, attribute_step, plan_of, Codec, Plan, TypePlan};
use crate::symbols::TypeRef;
use crate::text::trim_one_prefix;
use crate::xmlns::{write_xmlns_attributes, xmlns_text, XmlnsView};
use vstd::prelude::*;
use vstd::string::StringExecFns;
use vstd::utf8::encode_utf8;

verus! {

impl GenContext {
    /// The text of a scalar: a text and a number with a fraction as they
    /// are, a truth value as `true` or `false`, an integer in decimal
    /// digits, a facet as its value in the enumeration that it belongs
    /// to.
    pub open spec fn scalar_text(&self, of: Option<TypeRef>, s: ScalarView) -> Seq<char> {
        match s {
            ScalarView::Text(t) => t,
            ScalarView::Decimal(t) => t,
            ScalarView::Boolean(b) => if b {
                "true"@
            } else {
                "false"@
            },
            ScalarView::Integer(n) => if -LIMIT <= n <= LIMIT {
                integer_text(n)
            } else {
                Seq::empty()
            },
            ScalarView::Facet(i) => match of {
                Some(at) => match self.enum_at(at) {
                    Some(e) => if 0 <= i < e.facets@.len() {
                        e.facets@[i].value@
                    } else {
                        Seq::empty()
                    },
                    None => Seq::empty(),
                },
                None => Seq::empty(),
            },
        }
    }

    pub fn write_scalar(&self, of: Option<TypeRef>, s: &Scalar) -> (r: String)
        ensures
            r@ == self.scalar_text(of, s@),
    {
        match s {
            Scalar::Text(t) => t.clone(),
            Scalar::Decimal(t) => t.clone(),
            Scalar::Boolean(b) => {
                if *b {
                    String::from_str("true")
                } else {
                    String::from_str("false")
                }
            },
            Scalar::Integer(n) => {
                if -LIMIT <= *n && *n <= LIMIT {
                    write_integer(*n)
                } else {
                    String::new()
                }
            },
            Scalar::Facet(i) => {
                match of {
                    Some(at) => match self.find_enum_at(at) {
                        Some(e) => {
                            if *i < e.facets.len() {
                                e.facets[*i].value.clone()
                            } else {
                                String::new()
                            }
                        },
                        None => String::new(),
                    },
                    None => String::new(),
                }
            },
        }
    }
}

/// The enumeration that the values of a kind belong to.
pub open spec fn enum_of_kind(kind: ValueKind) -> Option<TypeRef> {
    match kind {
        ValueKind::Enumeration(at) => Some(at),
        _ => None,
    }
}

/// The enumeration that the content of a kind belongs to.
pub open spec fn enum_of_content(kind: ContentKind) -> Option<TypeRef> {
    match kind {
        ContentKind::Enumeration(at) => Some(at),
        ContentKind::Scalar => None,
    }
}

/// The text of the attribute that a field holds: the attribute is written
/// if it is set, with its value escaped.
pub open spec fn field_attribute_text(ctx: GenContext, plan: Plan, f: Field, v: FieldValueView)
    -> Seq<char> {
    match f {
        Field::Attribute { inherited, index, kind, required } => match v {
            FieldValueView::Attribute(Some(s)) => match attribute_of(plan, inherited, index) {
                Some(a) => xml_attribute(
                    trim_one_prefix(a.q_name@, ':'),
                    xml_escaped(ctx.scalar_text(enum_of_kind(kind), s)),
                ),
                None => Seq::empty(),
            },
            _ => Seq::empty(),
        },
        _ => Seq::empty(),
    }
}

/// The text of the attributes of the first `n` fields, in their order.
pub open spec fn attributes_text(
    ctx: GenContext,
    plan: Plan,
    values: Seq<FieldValueView>,
    n: int,
) -> Seq<char>
    decreases n,
{
    if n <= 0 || n > plan.fields.len() || n > values.len() {
        Seq::empty()
    } else {
        attributes_text(ctx, plan, values, n - 1) + field_attribute_text(
            ctx,
            plan,
            plan.fields[n - 1],
            values[n - 1],
        )
    }
}

/// The namespace declarations that the values of an element hold.
pub open spec fn xmlns_of_values(values: Seq<FieldValueView>) -> XmlnsView {
    XmlnsView {
        xmlns: match values[0] {
            FieldValueView::Xmlns(x) => x,
            _ => None,
        },
        xmlns_map: match values[1] {
            FieldValueView::XmlnsMap(m) => m,
            _ => Seq::empty(),
        },
        mc_ignorable: match values[2] {
            FieldValueView::McIgnorable(x) => x,
            _ => None,
        },
    }
}

/// How many fields of a plan have a value.
pub open spec fn common_len(plan: Plan, values: Seq<FieldValueView>) -> int {
    if plan.fields.len() <= values.len() {
        plan.fields.len() as int
    } else {
        values.len() as int
    }
}

/// What stands in the opening tag of an element behind its name: the
/// attributes of the type in the order of the fields, then, where the
/// type carries them, the namespace declarations.
pub open spec fn tag_attributes_text(
    ctx: GenContext,
    plan: Plan,
    values: Seq<FieldValueView>,
    with_xmlns: bool,
) -> Seq<char> {
    attributes_text(ctx, plan, values, common_len(plan, values)) + (if has_xmlns(plan.fields)
        && values.len() >= 3 {
        xmlns_text(xmlns_of_values(values), with_xmlns)
    } else {
        Seq::empty()
    })
}

/// The text of an element: its tag with or without the prefix, its
/// attributes, and what stands between its tags; the prolog before it if
/// it is asked for. An element whose type has no deserializer has no
/// text.
pub open spec fn element_xml(
    ctx: GenContext,
    ds: Seq<Vec<Option<TypeDeserializer>>>,
    e: ElementView,
    header: bool,
    with_xmlns: bool,
) -> Seq<char>
    decreases e, 0int,
{
    match plan_of(ctx, ds, e.at) {
        None => Seq::empty(),
        Some(plan) => element_text(
            header,
            if with_xmlns {
                prefixed_tag_of(plan.ty.name@)
            } else {
                local_tag_of(plan.ty.name@)
            },
            Some(tag_attributes_text(ctx, plan, e.values, with_xmlns)),
            Some(inner_xml(ctx, ds, plan, e.values, common_len(plan, e.values), with_xmlns)),
        ),
    }
}

/// What the first `n` fields of an element write between its tags: the
/// text content, escaped; the elements of each child field, in the order
/// of the fields; the elements of the list of children, in their order.
pub open spec fn inner_xml(
    ctx: GenContext,
    ds: Seq<Vec<Option<TypeDeserializer>>>,
    plan: Plan,
    values: Seq<FieldValueView>,
    n: int,
    with_xmlns: bool,
) -> Seq<char>
    decreases values, n,
{
    if n <= 0 || n > values.len() || n > plan.fields.len() {
        Seq::empty()
    } else {
        inner_xml(ctx, ds, plan, values, n - 1, with_xmlns) + (match values[n - 1] {
            FieldValueView::XmlContent(Some(s)) => match plan.fields[n - 1] {
                Field::XmlContent { kind } => xml_escaped(ctx.scalar_text(enum_of_content(kind), s)),
                _ => Seq::empty(),
            },
            FieldValueView::Child(es) => elements_xml(ctx, ds, es, es.len() as int, with_xmlns),
            FieldValueView::Children(cs) => children_xml(ctx, ds, cs, cs.len() as int, with_xmlns),
            _ => Seq::empty(),
        })
    }
}

/// The text of the first `n` elements of a list, one after the other.
pub open spec fn elements_xml(
    ctx: GenContext,
    ds: Seq<Vec<Option<TypeDeserializer>>>,
    es: Seq<ElementView>,
    n: int,
    with_xmlns: bool,
) -> Seq<char>
    decreases es, n,
{
    if n <= 0 || n > es.len() {
        Seq::empty()
    } else {
        elements_xml(ctx, ds, es, n - 1, with_xmlns) + element_xml(
            ctx,
            ds,
            es[n - 1],
            false,
            with_xmlns,
        )
    }
}

/// The text of the first `n` children of a list, one after the other.
pub open spec fn children_xml(
    ctx: GenContext,
    ds: Seq<Vec<Option<TypeDeserializer>>>,
    cs: Seq<(int, ElementView)>,
    n: int,
    with_xmlns: bool,
) -> Seq<char>
    decreases cs, n,
{
    if n <= 0 || n > cs.len() {
        Seq::empty()
    } else {
        children_xml(ctx, ds, cs, n - 1, with_xmlns) + element_xml(
            ctx,
            ds,
            cs[n - 1].1,
            false,
            with_xmlns,
        )
    }
}

impl<'a> Codec<'a> {
    fn write_field_attribute(&self, plan: &TypePlan<'a>, f: &Field, v: &FieldValue) -> (r: String)
        ensures
            r@ == field_attribute_text(*self.context, plan.view(), *f, value_view(*v)),
    {
        match f {
            Field::Attribute { inherited, index, kind, required } => {
                match v {
                    FieldValue::Attribute(Some(s)) => {
                        let none: Vec<OpenXmlSchemaTypeAttribute> = Vec::new();
                        let list = if *inherited {
                            match plan.base {
                                Some(b) => &b.attributes,
                                None => &none,
                            }
                        } else {
                            &plan.ty.attributes
                        };
                        if *index < list.len() {
                            let of = match kind {
                                ValueKind::Enumeration(at) => Some(*at),
                                _ => None,
                            };
                            let text = self.context.write_scalar(of, s);
                            as_escaped_xml_attribute(list[*index].as_name_str(), text.as_str())
                        } else {
                            String::new()
                        }
                    },
                    _ => String::new(),
                }
            },
            _ => String::new(),
        }
    }

    /// Writes what stands in the opening tag of an element behind its
    /// name.
    pub fn xml_tag_attributes(
        &self,
        plan: &TypePlan<'a>,
        values: &Vec<FieldValue>,
        with_xmlns: bool,
    ) -> (r: String)
        ensures
            r@ == tag_attributes_text(
                *self.context,
                plan.view(),
                all_values_view(values@),
                with_xmlns,
            ),
    {
        let fields = &plan.deserializer.model.fields;
        let ghost view = all_values_view(values@);
        proof {
            lemma_values_view(values@, values@.len() as int);
        }
        let mut r = String::new();
        let mut k: usize = 0;
        while k < fields.len() && k < values.len()
            invariant
                k <= fields@.len(),
                k <= values@.len(),
                fields@ == plan.view().fields,
                view == all_values_view(values@),
                view.len() == values@.len(),
                forall|i: int|
                    0 <= i < values@.len() ==> #[trigger] view[i] == value_view(values@[i]),
                r@ == attributes_text(*self.context, plan.view(), view, k as int),
            decreases fields@.len() - k,
        {
            let a = self.write_field_attribute(plan, &fields[k], &values[k]);
            r.append(a.as_str());
            k += 1;
        }
        let carries = fields.len() >= 3 && fields[0] == Field::Xmlns && fields[1]
            == Field::XmlnsMap && fields[2] == Field::McIgnorable;
        if carries && values.len() >= 3 {
            let none: Vec<(String, String)> = Vec::new();
            assert(crate::xmlns::pairs_view(none@) =~= Seq::empty());
            let no_text: Option<String> = None;
            let xmlns = match &values[0] {
                FieldValue::Xmlns(x) => x,
                _ => &no_text,
            };
            let map = match &values[1] {
                FieldValue::XmlnsMap(m) => m,
                _ => &none,
            };
            let ignorable = match &values[2] {
                FieldValue::McIgnorable(x) => x,
                _ => &no_text,
            };
            let text = write_xmlns_attributes(xmlns, map, ignorable, with_xmlns);
            r.append(text.as_str());
        } else {
            assert(r@ + Seq::<char>::empty() =~= r@);
        }
        r
    }

    /// Writes an element.
    pub fn to_xml_string(&self, e: &Element, header: bool, with_xmlns: bool) -> (r: String)
        ensures
            r@ == element_xml(*self.context, self.deserializers@, e@, header, with_xmlns),
        decreases e, 0int,
    {
        match self.find_plan(e.at) {
            None => String::new(),
            Some(plan) => {
                proof {
                    lemma_values_view(e.values@, e.values@.len() as int);
                }
                let attributes = self.xml_tag_attributes(&plan, &e.values, with_xmlns);
                let count: usize = if plan.deserializer.model.fields.len() <= e.values.len() {
                    plan.deserializer.model.fields.len()
                } else {
                    e.values.len()
                };
                let inner = self.xml_inner(&plan, &e.values, count, with_xmlns);
                to_xml_string(
                    header,
                    if with_xmlns {
                        plan.prefixed
                    } else {
                        plan.local
                    },
                    Some(attributes.as_str()),
                    Some(inner.as_str()),
                )
            },
        }
    }

    /// Writes what the first `n` fields of an element write between its
    /// tags.
    pub fn xml_inner(
        &self,
        plan: &TypePlan<'a>,
        values: &Vec<FieldValue>,
        n: usize,
        with_xmlns: bool,
    ) -> (r: String)
        requires
            n <= values@.len(),
        ensures
            r@ == inner_xml(
                *self.context,
                self.deserializers@,
                plan.view(),
                all_values_view(values@),
                n as int,
                with_xmlns,
            ),
        decreases values, n,
    {
        let fields = &plan.deserializer.model.fields;
        proof {
            lemma_values_view(values@, values@.len() as int);
        }
        if n == 0 || n > fields.len() {
            return String::new();
        }
        let mut r = self.xml_inner(plan, values, n - 1, with_xmlns);
        match &values[n - 1] {
            FieldValue::XmlContent(Some(s)) => {
                match fields[n - 1] {
                    Field::XmlContent { kind } => {
                        let of = match kind {
                            ContentKind::Enumeration(at) => Some(at),
                            ContentKind::Scalar => None,
                        };
                        let text = self.context.write_scalar(of, s);
                        let escaped = escape(text.as_str());
                        r.append(escaped.as_str());
                    },
                    _ => {
                        assert(r@ + Seq::<char>::empty() =~= r@);
                    },
                }
            },
            FieldValue::Child(es) => {
                proof {
                    lemma_elements_view(es@, es@.len() as int);
                }
                let text = self.write_elements(es, es.len(), with_xmlns);
                r.append(text.as_str());
            },
            FieldValue::Children(cs) => {
                proof {
                    lemma_children_view(cs@, cs@.len() as int);
                }
                let text = self.write_children(cs, cs.len(), with_xmlns);
                r.append(text.as_str());
            },
            _ => {
                assert(r@ + Seq::<char>::empty() =~= r@);
            },
        }
        r
    }

    fn write_elements(&self, es: &Vec<Element>, n: usize, with_xmlns: bool) -> (r: String)
        requires
            n <= es@.len(),
        ensures
            r@ == elements_xml(
                *self.context,
                self.deserializers@,
                elements_view(es@, es@.len() as int),
                n as int,
                with_xmlns,
            ),
        decreases es, n,
    {
        proof {
            lemma_elements_view(es@, es@.len() as int);
        }
        if n == 0 {
            return String::new();
        }
        let mut r = self.write_elements(es, n - 1, with_xmlns);
        let text = self.to_xml_string(&es[n - 1], false, with_xmlns);
        r.append(text.as_str());
        r
    }

    fn write_children(&self, cs: &Vec<ChildElement>, n: usize, with_xmlns: bool) -> (r: String)
        requires
            n <= cs@.len(),
        ensures
            r@ == children_xml(
                *self.context,
                self.deserializers@,
                children_view(cs@, cs@.len() as int),
                n as int,
                with_xmlns,
            ),
        decreases cs, n,
    {
        proof {
            lemma_children_view(cs@, cs@.len() as int);
        }
        if n == 0 {
            return String::new();
        }
        let mut r = self.write_children(cs, n - 1, with_xmlns);
        let text = self.to_xml_string(&cs[n - 1].element, false, with_xmlns);
        r.append(text.as_str());
        r
    }
}

impl GenContext {
    /// Whether a scalar is a value of a kind of attributes: a text for a
    /// text, a truth value for a truth value, an integer of the kind, or
    /// a number with a fraction as it is written, for a number, and for an
    /// enumeration a facet of it before which none has the same value.
    pub open spec fn is_value_of(&self, kind: ValueKind, s: ScalarView) -> bool {
        match kind {
            ValueKind::Text => s is Text,
            ValueKind::Boolean => s is Boolean,
            ValueKind::Number(n) => match number_range(n) {
                None => s matches ScalarView::Decimal(t) && is_decimal(t),
                Some(range) => s matches ScalarView::Integer(v) && range.0 <= v <= range.1,
            },
            ValueKind::Enumeration(at) => self.is_first_facet(at, s),
        }
    }

    /// Whether a scalar is a facet of the enumeration at a place before
    /// which no facet has the same value.
    pub open spec fn is_first_facet(&self, at: TypeRef, s: ScalarView) -> bool {
        match self.enum_at(at) {
            Some(e) => s matches ScalarView::Facet(i) && 0 <= i < e.facets@.len() && forall|j: int|
                0 <= j < i ==> encode_utf8((#[trigger] e.facets@[j]).value@) != encode_utf8(
                    e.facets@[i].value@,
                ),
            None => false,
        }
    }

    /// The value of an attribute that is written and read again is the
    /// value that it was, where the tokenizer hands back what was
    /// written: as the raw bytes the text of the value, and the same text
    /// decoded and unescaped.
    pub proof fn lemma_attribute_round_trip(&self, kind: ValueKind, s: ScalarView, a: XmlAttribute)
        requires
            self.is_value_of(kind, s),
            a.value@ == encode_utf8(self.scalar_text(enum_of_kind(kind), s)),
            attribute_value(a) == Ok::<Seq<char>, SdkErrorView>(
                self.scalar_text(enum_of_kind(kind), s),
            ),
        ensures
            self.attribute_scalar(kind, a) == Ok::<ScalarView, SdkErrorView>(s),
    {
        match kind {
            ValueKind::Text => {},
            ValueKind::Boolean => {
                lemma_truth_values_differ();
            },
            ValueKind::Number(n) => {
                match number_range(n) {
                    None => {},
                    Some(range) => {
                        lemma_integer_round_trip(s->Integer_0, range.0, range.1);
                    },
                }
            },
            ValueKind::Enumeration(at) => {
                lemma_facet_round_trip(self.enum_at(at)->Some_0, s->Facet_0, 0);
            },
        }
    }

    /// The text content of a leaf that is written and read again is the
    /// content that it was, where the tokenizer hands back what was
    /// written, in pieces.
    pub proof fn lemma_content_round_trip(
        &self,
        kind: ContentKind,
        s: ScalarView,
        events: Seq<XmlEvent>,
        at: int,
    )
        requires
            is_written_content(*self, kind, s, events, at),
        ensures
            self.content_scalar(kind, events, at) == Ok::<ScalarView, SdkErrorView>(s),
    {
        let text = self.scalar_text(enum_of_content(kind), s);
        lemma_pieces_are_read(text, 0, events, at);
        assert(text.skip(0) =~= text);
        match kind {
            ContentKind::Enumeration(e) => {
                lemma_facet_round_trip(self.enum_at(e)->Some_0, s->Facet_0, 0);
            },
            ContentKind::Scalar => {},
        }
    }
}

/// Whether a character is written as a reference: the five characters
/// that are escaped.
pub open spec fn is_special(c: char) -> bool {
    c == '<' || c == '>' || c == '&' || c == '\'' || c == '"'
}

/// Where the run of characters that are written as they are, beginning
/// at `from`, ends.
pub open spec fn plain_run_end(text: Seq<char>, from: int) -> int
    decreases text.len() - from,
{
    if 0 <= from < text.len() && !is_special(text[from]) {
        plain_run_end(text, from + 1)
    } else {
        from
    }
}

/// How many pieces the text from `from` on is handed out as: one
/// reference for each character that is escaped, and one text for each
/// run of other characters between them.
pub open spec fn piece_count(text: Seq<char>, from: int) -> int
    decreases text.len() - from,
{
    if from < 0 || from >= text.len() {
        0
    } else if is_special(text[from]) {
        1 + piece_count(text, from + 1)
    } else if from < plain_run_end(text, from) <= text.len() {
        1 + piece_count(text, plain_run_end(text, from))
    } else {
        0
    }
}

/// Whether the events from `at` on are the pieces that the text from
/// `from` on is handed out as: a reference that stands for the
/// character, for each character that is escaped, and a text that decodes
/// to the run, for each run of other characters.
pub open spec fn pieces_spell(text: Seq<char>, from: int, events: Seq<XmlEvent>, at: int) -> bool
    decreases text.len() - from,
{
    if from < 0 || from >= text.len() {
        true
    } else if is_special(text[from]) {
        &&& 0 <= at < events.len()
        &&& events[at] matches XmlEvent::Reference(r) && reference_text(r) == Ok::<
            Seq<char>,
            SdkErrorView,
        >(seq![text[from]])
        &&& pieces_spell(text, from + 1, events, at + 1)
    } else if from < plain_run_end(text, from) <= text.len() {
        &&& 0 <= at < events.len()
        &&& events[at] matches XmlEvent::Text(t) && text_value(t) == Ok::<Seq<char>, SdkErrorView>(
            text.subrange(from, plain_run_end(text, from)),
        )
        &&& pieces_spell(text, plain_run_end(text, from), events, at + 1)
    } else {
        true
    }
}

/// A text is handed out as no fewer than no pieces.
pub proof fn lemma_piece_count(text: Seq<char>, from: int)
    ensures
        0 <= piece_count(text, from),
    decreases text.len() - from,
{
    if 0 <= from < text.len() {
        if is_special(text[from]) {
            lemma_piece_count(text, from + 1);
        } else if from < plain_run_end(text, from) <= text.len() {
            lemma_piece_count(text, plain_run_end(text, from));
        }
    }
}

/// A run of characters ends within the text, behind its first character.
pub proof fn lemma_plain_run_end(text: Seq<char>, from: int)
    requires
        0 <= from <= text.len(),
    ensures
        from <= plain_run_end(text, from) <= text.len(),
        from < text.len() && !is_special(text[from]) ==> from < plain_run_end(text, from),
    decreases text.len() - from,
{
    if from < text.len() && !is_special(text[from]) {
        lemma_plain_run_end(text, from + 1);
    }
}

/// A text is handed out as at least one piece, unless it is empty, and
/// each of the events that it is handed out as is a piece.
pub proof fn lemma_pieces(text: Seq<char>, from: int, events: Seq<XmlEvent>, at: int)
    requires
        0 <= from <= text.len(),
        pieces_spell(text, from, events, at),
    ensures
        0 <= piece_count(text, from),
        from < text.len() ==> 0 < piece_count(text, from),
        forall|q: int| at <= q < at + piece_count(text, from) ==> is_piece(#[trigger] events[q]),
        from < text.len() ==> 0 <= at && at + piece_count(text, from) <= events.len(),
    decreases text.len() - from,
{
    if from < text.len() {
        lemma_plain_run_end(text, from);
        if is_special(text[from]) {
            lemma_pieces(text, from + 1, events, at + 1);
        } else {
            lemma_pieces(text, plain_run_end(text, from), events, at + 1);
        }
    }
}

/// The pieces that a text is handed out as stand for the text, where no
/// further piece follows them.
pub proof fn lemma_pieces_are_read(text: Seq<char>, from: int, events: Seq<XmlEvent>, at: int)
    requires
        0 <= from <= text.len(),
        0 <= at,
        pieces_spell(text, from, events, at),
        at + piece_count(text, from) < events.len() ==> !is_piece(
            events[at + piece_count(text, from)],
        ),
    ensures
        content_run(events, at) == Ok::<Seq<char>, SdkErrorView>(text.skip(from)),
    decreases text.len() - from,
{
    if from < text.len() {
        lemma_plain_run_end(text, from);
        lemma_pieces(text, from, events, at);
        if is_special(text[from]) {
            lemma_pieces(text, from + 1, events, at + 1);
            lemma_pieces_are_read(text, from + 1, events, at + 1);
            assert(seq![text[from]] + text.skip(from + 1) =~= text.skip(from));
        } else {
            let end = plain_run_end(text, from);
            lemma_pieces(text, end, events, at + 1);
            lemma_pieces_are_read(text, end, events, at + 1);
            assert(text.subrange(from, end) + text.skip(end) =~= text.skip(from));
        }
    } else {
        assert(text.skip(from) =~= Seq::<char>::empty());
    }
}

/// Whether the events from `at` on are what the content `s` of a leaf is
/// written as: the content is a value of the kind of the leaf, its text
/// is not empty, the events are the pieces that the text is handed out
/// as, and no further piece follows them.
pub open spec fn is_written_content(
    ctx: GenContext,
    kind: ContentKind,
    s: ScalarView,
    events: Seq<XmlEvent>,
    at: int,
) -> bool {
    let text = ctx.scalar_text(enum_of_content(kind), s);
    &&& match kind {
        ContentKind::Enumeration(e) => ctx.is_first_facet(e, s),
        ContentKind::Scalar => s is Text,
    }
    &&& text.len() > 0
    &&& 0 <= at
    &&& pieces_spell(text, 0, events, at)
    &&& at + piece_count(text, 0) < events.len() ==> !is_piece(events[at + piece_count(text, 0)])
}

/// The first field with a key is the field at `k`, where that field has
/// the key and none before it has.
proof fn lemma_first_field_with_key(
    fields: Seq<Field>,
    own: Seq<OpenXmlSchemaTypeAttribute>,
    inherited: Seq<OpenXmlSchemaTypeAttribute>,
    key: Seq<u8>,
    k: int,
    from: int,
)
    requires
        0 <= from <= k < fields.len(),
        field_has_key(fields[k], own, inherited, key),
        forall|j: int| 0 <= j < k ==> !field_has_key(#[trigger] fields[j], own, inherited, key),
    ensures
        first_field_with_key(fields, own, inherited, key, from) == Some(k),
    decreases k - from,
{
    if from < k {
        lemma_first_field_with_key(fields, own, inherited, key, k, from + 1);
    }
}

/// Whether an attribute of a tag is what the field at `k`, which holds
/// `s`, is written as, and stands for no field before it: its key is the
/// name of the attribute of the field, its raw bytes are the text of the
/// value, and the same text is its value decoded and unescaped.
pub open spec fn is_written_attribute(
    ctx: GenContext,
    plan: Plan,
    k: int,
    s: ScalarView,
    a: XmlAttribute,
) -> bool {
    &&& 0 <= k < plan.fields.len()
    &&& k <= usize::MAX
    &&& plan.fields[k] matches Field::Attribute { inherited, index, kind, required }
        && attribute_of(plan, inherited, index) matches Some(d) && a.key@ == encode_utf8(
        trim_one_prefix(d.q_name@, ':'),
    ) && ctx.is_value_of(kind, s) && a.value@ == encode_utf8(
        ctx.scalar_text(enum_of_kind(kind), s),
    ) && attribute_value(a) == Ok::<Seq<char>, SdkErrorView>(
        ctx.scalar_text(enum_of_kind(kind), s),
    )
    &&& forall|j: int|
        0 <= j < k ==> !field_has_key(
            #[trigger] plan.fields[j],
            plan.ty.attributes@,
            plan.inherited,
            a.key@,
        )
}

/// An attribute of a type that is written and read again sets its field
/// to the value that it had, where no field before it has the same name
/// and the tokenizer hands back what was written.
pub proof fn lemma_written_attribute_is_read(
    ctx: GenContext,
    plan: Plan,
    values: Seq<FieldValueView>,
    k: int,
    s: ScalarView,
    a: XmlAttribute,
)
    requires
        is_written_attribute(ctx, plan, k, s, a),
    ensures
        attribute_step(ctx, plan, values, Ok(a)) == Ok::<Seq<FieldValueView>, SdkErrorView>(
            values.update(k, FieldValueView::Attribute(Some(s))),
        ),
{
    lemma_first_field_with_key(plan.fields, plan.ty.attributes@, plan.inherited, a.key@, k, 0);
    assert(attribute_target(plan.fields, plan.ty.attributes@, plan.inherited, a.key@)
        == AttributeTarget::Field(k as usize));
    match plan.fields[k] {
        Field::Attribute { inherited, index, kind, required } => {
            ctx.lemma_attribute_round_trip(kind, s, a);
        },
        _ => {},
    }
}

/// The bytes of `true` stand for truth and those of `false` for
/// falsehood.
pub proof fn lemma_truth_values_differ()
    ensures
        bool_of_bytes(encode_utf8("true"@)) == Some(true),
        bool_of_bytes(encode_utf8("false"@)) == Some(false),
{
    reveal_strlit("true");
    reveal_strlit("false");
    reveal_strlit("1");
    reveal_strlit("True");
    reveal_strlit("TRUE");
    reveal_strlit("t");
    reveal_strlit("Yes");
    reveal_strlit("YES");
    reveal_strlit("yes");
    reveal_strlit("y");
    lemma_texts_differ("false"@, "true"@);
    lemma_texts_differ("false"@, "1"@);
    lemma_texts_differ("false"@, "True"@);
    lemma_texts_differ("false"@, "TRUE"@);
    lemma_texts_differ("false"@, "t"@);
    lemma_texts_differ("false"@, "Yes"@);
    lemma_texts_differ("false"@, "YES"@);
    lemma_texts_differ("false"@, "yes"@);
    lemma_texts_differ("false"@, "y"@);
}

/// Two texts that differ have different bytes.
pub proof fn lemma_texts_differ(a: Seq<char>, b: Seq<char>)
    requires
        a != b,
    ensures
        encode_utf8(a) != encode_utf8(b),
{
    vstd::utf8::encode_utf8_decode_utf8(a);
    vstd::utf8::encode_utf8_decode_utf8(b);
}

} // verus!
