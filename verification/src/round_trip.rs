//! Reading what was written: the events that an element is written as
//! are read back as that element.
//!
//! The events of a text are the tokenizer's word, so the law is stated
//! over events: [`spells`] says which events an element is written as,
//! and [`lemma_written_element_is_read`] shows that the parser makes the
//! element of them again. [`lemma_round_trip`] states the same of the
//! text that an element is written as, with what it asks of the
//! tokenizer as its premise.

use crate::common::{
    attribute_value, is_piece, lemma_try_fold_next, next_start, opening_tag, tag_matches, try_fold,
    utf8_lossy, xml_events, SdkErrorView, StartTag, XmlAttribute, XmlEvent,
};
use crate::context::GenContext;
use crate::deserializer::{
    attribute_target, dispatched, has_xmlns, AttributeTarget, TypeDeserializer,
};
use crate::document::{initial_value, initial_values, ElementView, FieldValueView};
use crate::emit::{
    element_xml, enum_of_content, is_written_attribute, is_written_content, lemma_piece_count,
    lemma_pieces, lemma_written_attribute_is_read, piece_count, xmlns_of_values,
};
use crate::models::{local_tag_of, prefixed_tag_of, Occurrence};
use crate::open_xml_schema::Field;
use crate::parse::{
    arm_target, attribute_step, attribute_stepper, content_field, content_target, missing_required,
    parsed, parsed_children, parsed_element, plan_of, stored, values_of_tag, with_content, Plan,
};
use crate::xmlns::{map_index, map_insert, xmlns_prefix, XmlnsView};
use vstd::prelude::*;
use vstd::utf8::encode_utf8;

verus! {

/// Whether a field is filled by what stands between the tags of an
/// element: its text content or its children.
pub open spec fn is_inner_field(f: Field) -> bool {
    f is XmlContent || f is Child || f is Children
}

/// The values of an element where the first `n` fields and the fields
/// that the opening tag fills are set and the other fields are as they
/// are before anything is read.
pub open spec fn values_up_to(fields: Seq<Field>, values: Seq<FieldValueView>, n: int) -> Seq<
    FieldValueView,
> {
    Seq::new(
        values.len(),
        |i: int|
            if i < n || !is_inner_field(fields[i]) {
                values[i]
            } else {
                initial_value(fields[i])
            },
    )
}

/// The values that the opening tag of an element sets.
pub open spec fn tag_values(fields: Seq<Field>, values: Seq<FieldValueView>) -> Seq<
    FieldValueView,
> {
    values_up_to(fields, values, 0)
}

/// How many events an element is written as: one self-closing tag where
/// nothing stands between its tags, else the opening tag, what stands
/// between the tags, and the closing tag.
pub open spec fn span(ctx: GenContext, ds: Seq<Vec<Option<TypeDeserializer>>>, x: ElementView)
    -> int
    decreases x, 0int,
{
    match plan_of(ctx, ds, x.at) {
        None => 1,
        Some(plan) => if x.values == tag_values(plan.fields, x.values) {
            1
        } else {
            2 + inner_span(ctx, ds, plan.fields, x.values, x.values.len() as int)
        },
    }
}

/// How many events the first `n` fields of an element are written as
/// between its tags: the pieces of the content, and the events of each
/// child.
pub open spec fn inner_span(
    ctx: GenContext,
    ds: Seq<Vec<Option<TypeDeserializer>>>,
    fields: Seq<Field>,
    values: Seq<FieldValueView>,
    n: int,
) -> int
    decreases values, n,
{
    if n <= 0 || n > values.len() {
        0
    } else {
        inner_span(ctx, ds, fields, values, n - 1) + (match values[n - 1] {
            FieldValueView::XmlContent(Some(s)) => match fields[n - 1] {
                Field::XmlContent { kind } => piece_count(
                    ctx.scalar_text(enum_of_content(kind), s),
                    0,
                ),
                _ => 0,
            },
            FieldValueView::Child(es) => elements_span(ctx, ds, es, es.len() as int),
            FieldValueView::Children(cs) => children_span(ctx, ds, cs, cs.len() as int),
            _ => 0,
        })
    }
}

/// How many events the first `m` elements of a list are written as.
pub open spec fn elements_span(
    ctx: GenContext,
    ds: Seq<Vec<Option<TypeDeserializer>>>,
    es: Seq<ElementView>,
    m: int,
) -> int
    decreases es, m,
{
    if m <= 0 || m > es.len() {
        0
    } else {
        elements_span(ctx, ds, es, m - 1) + span(ctx, ds, es[m - 1])
    }
}

/// How many events the first `m` children of a list are written as.
pub open spec fn children_span(
    ctx: GenContext,
    ds: Seq<Vec<Option<TypeDeserializer>>>,
    cs: Seq<(int, ElementView)>,
    m: int,
) -> int
    decreases cs, m,
{
    if m <= 0 || m > cs.len() {
        0
    } else {
        children_span(ctx, ds, cs, m - 1) + span(ctx, ds, cs[m - 1].1)
    }
}

/// Whether the events from `pos` on are what an element is written as,
/// the element being a value of its type:
/// - the element has a value for each field of its type, of the kind of
///   the field, and no required field is unset;
/// - the event at `pos` is a tag with the name of the type, with or
///   without the prefix, and the attributes of the tag are what the
///   values that the tag sets are written as;
/// - the tag closes itself exactly if nothing stands between the tags;
///   else what the fields hold follows, in the order of the fields, and
///   then the closing tag.
pub open spec fn spells(
    ctx: GenContext,
    ds: Seq<Vec<Option<TypeDeserializer>>>,
    x: ElementView,
    events: Seq<XmlEvent>,
    pos: int,
) -> bool
    decreases x, 0int,
{
    match plan_of(ctx, ds, x.at) {
        None => false,
        Some(plan) => {
            &&& x.values.len() == plan.fields.len()
            &&& 0 <= pos < events.len()
            &&& pos + span(ctx, ds, x) <= events.len()
            &&& opening_tag(events[pos]) matches Some(tag) && tag_matches(
                tag.name@,
                encode_utf8(prefixed_tag_of(plan.ty.name@)),
                encode_utf8(local_tag_of(plan.ty.name@)),
            ) && tag_spells(ctx, plan, x.values, tag.attributes@)
            &&& missing_required(plan, x.values) is None
            &&& if x.values == tag_values(plan.fields, x.values) {
                events[pos] is Empty
            } else {
                let end = pos + 1 + inner_span(
                    ctx,
                    ds,
                    plan.fields,
                    x.values,
                    x.values.len() as int,
                );
                &&& events[pos] is Start
                &&& inner_spells(ctx, ds, plan, x.values, x.values.len() as int, events, pos + 1)
                &&& events[end] matches XmlEvent::End(name) && tag_matches(
                    name@,
                    encode_utf8(prefixed_tag_of(plan.ty.name@)),
                    encode_utf8(local_tag_of(plan.ty.name@)),
                )
            }
        },
    }
}

/// Whether the events from `pos` on are what the first `n` fields of an
/// element are written as between its tags. The content is the pieces
/// that its text is handed out as. Each child is an element of the type of its
/// field or variant, and its tag is dispatched to that field or variant;
/// a field of a child that does not repeat holds at most one element.
pub open spec fn inner_spells(
    ctx: GenContext,
    ds: Seq<Vec<Option<TypeDeserializer>>>,
    plan: Plan,
    values: Seq<FieldValueView>,
    n: int,
    events: Seq<XmlEvent>,
    pos: int,
) -> bool
    decreases values, n,
{
    if n <= 0 || n > values.len() || n > plan.fields.len() {
        true
    } else {
        let at = pos + inner_span(ctx, ds, plan.fields, values, n - 1);
        &&& inner_spells(ctx, ds, plan, values, n - 1, events, pos)
        &&& match values[n - 1] {
            FieldValueView::XmlContent(None) => plan.fields[n - 1] is XmlContent,
            FieldValueView::XmlContent(Some(s)) => {
                &&& plan.fields[n - 1] matches Field::XmlContent { kind }
                &&& content_field(plan.fields, 0) == Some(n - 1)
                &&& is_written_content(ctx, kind, s, events, at)
            },
            FieldValueView::Child(es) => {
                &&& plan.fields[n - 1] matches Field::Child { item, child, target, occurrence }
                &&& occurrence != Occurrence::Repeated ==> es.len() <= 1
                &&& elements_spell(ctx, ds, plan, n - 1, es, es.len() as int, events, at)
            },
            FieldValueView::Children(cs) => {
                &&& plan.fields[n - 1] is Children
                &&& children_spell(ctx, ds, plan, n - 1, cs, cs.len() as int, events, at)
            },
            FieldValueView::Xmlns(_) => plan.fields[n - 1] is Xmlns,
            FieldValueView::XmlnsMap(_) => plan.fields[n - 1] is XmlnsMap,
            FieldValueView::McIgnorable(_) => plan.fields[n - 1] is McIgnorable,
            FieldValueView::Attribute(_) => plan.fields[n - 1] is Attribute,
        }
    }
}

/// Whether the events from `pos` on are what the first `m` elements of
/// the child field at `f` are written as.
pub open spec fn elements_spell(
    ctx: GenContext,
    ds: Seq<Vec<Option<TypeDeserializer>>>,
    plan: Plan,
    f: int,
    es: Seq<ElementView>,
    m: int,
    events: Seq<XmlEvent>,
    pos: int,
) -> bool
    decreases es, m,
{
    if m <= 0 || m > es.len() {
        true
    } else {
        let at = pos + elements_span(ctx, ds, es, m - 1);
        &&& elements_spell(ctx, ds, plan, f, es, m - 1, events, pos)
        &&& spells(ctx, ds, es[m - 1], events, at)
        &&& child_goes_to(plan, events[at], f, false, es[m - 1])
    }
}

/// Whether the events from `pos` on are what the first `m` children of
/// the list of children at `f` are written as.
pub open spec fn children_spell(
    ctx: GenContext,
    ds: Seq<Vec<Option<TypeDeserializer>>>,
    plan: Plan,
    f: int,
    cs: Seq<(int, ElementView)>,
    m: int,
    events: Seq<XmlEvent>,
    pos: int,
) -> bool
    decreases cs, m,
{
    if m <= 0 || m > cs.len() {
        true
    } else {
        let at = pos + children_span(ctx, ds, cs, m - 1);
        &&& children_spell(ctx, ds, plan, f, cs, m - 1, events, pos)
        &&& spells(ctx, ds, cs[m - 1].1, events, at)
        &&& child_goes_to(plan, events[at], f, true, cs[m - 1].1)
        &&& variant_of(plan, events[at]) == Some(cs[m - 1].0)
    }
}

/// The arm that takes the tag of an event.
pub open spec fn variant_of(plan: Plan, event: XmlEvent) -> Option<int> {
    match opening_tag(event) {
        Some(tag) => match dispatched(
            plan.owner.children@,
            plan.arms,
            plan.ty.class_name@,
            tag.name@,
        ) {
            Ok(Some(k)) => Some(k),
            _ => None,
        },
        None => None,
    }
}

/// Whether the tag of an event is dispatched to the field at `f`, as a
/// child of the type of the element `e`.
pub open spec fn child_goes_to(plan: Plan, event: XmlEvent, f: int, union: bool, e: ElementView)
    -> bool {
    match variant_of(plan, event) {
        Some(k) => arm_target(plan, k) matches Some(t) && t.field == f && t.target == e.at
            && t.union == union,
        None => false,
    }
}

/// How many of the first `n` fields are attributes that are set.
pub open spec fn attribute_count(values: Seq<FieldValueView>, n: int) -> int
    decreases n,
{
    if n <= 0 || n > values.len() {
        0
    } else {
        attribute_count(values, n - 1) + (match values[n - 1] {
            FieldValueView::Attribute(Some(s)) => 1int,
            _ => 0int,
        })
    }
}

/// Whether a field holds a namespace declaration.
pub open spec fn is_xmlns_field(f: Field) -> bool {
    f is Xmlns || f is XmlnsMap || f is McIgnorable
}

/// Whether the attributes of a tag begin with what the attributes of the
/// first `n` fields are written as: one attribute for each that is set,
/// in the order of the fields.
pub open spec fn attributes_spell(
    ctx: GenContext,
    plan: Plan,
    values: Seq<FieldValueView>,
    n: int,
    items: Seq<Result<XmlAttribute, String>>,
) -> bool
    decreases n,
{
    if n <= 0 || n > values.len() || n > plan.fields.len() {
        true
    } else {
        &&& attributes_spell(ctx, plan, values, n - 1, items)
        &&& plan.fields[n - 1] is Attribute <==> values[n - 1] is Attribute
        &&& match values[n - 1] {
            FieldValueView::Attribute(Some(s)) => {
                let j = attribute_count(values, n - 1);
                &&& j < items.len()
                &&& items[j] matches Ok(a) && is_written_attribute(ctx, plan, n - 1, s, a)
            },
            _ => true,
        }
    }
}

/// The key of an attribute that declares a namespace, as the parser of a
/// type takes it.
pub open spec fn key_target(plan: Plan, item: Result<XmlAttribute, String>) -> Option<
    AttributeTarget,
> {
    match item {
        Ok(a) => Some(
            attribute_target(plan.fields, plan.ty.attributes@, plan.inherited, a.key@),
        ),
        Err(_) => None,
    }
}

/// The value of an attribute, decoded and unescaped.
pub open spec fn item_value(item: Result<XmlAttribute, String>) -> Option<Seq<char>> {
    match item {
        Ok(a) => match attribute_value(a) {
            Ok(v) => Some(v),
            Err(_) => None,
        },
        Err(_) => None,
    }
}

/// The prefix that an attribute declares a namespace for.
pub open spec fn item_prefix(item: Result<XmlAttribute, String>) -> Option<Seq<char>> {
    match item {
        Ok(a) => Some(utf8_lossy(a.key@.skip(xmlns_prefix().len() as int))),
        Err(_) => None,
    }
}

/// Whether the attributes of a tag from `from` on are what the
/// namespace declarations are written as: the default namespace if
/// there is one, the prefixed namespaces in their order, no prefix
/// twice, and the ignorable prefixes if there are any. Each is taken by
/// the parser as what it is, and its value is read as it was.
pub open spec fn xmlns_spells(
    plan: Plan,
    v: XmlnsView,
    items: Seq<Result<XmlAttribute, String>>,
    from: int,
) -> bool {
    let first = xmlns_first(v, from);
    let last = first + v.xmlns_map.len();
    &&& 0 <= from
    &&& items.len() == xmlns_end(v, from)
    &&& v.xmlns matches Some(x) ==> is_declaration(plan, items[from], AttributeTarget::Xmlns, x)
    &&& forall|i: int|
        first <= i < last ==> is_namespace(plan, #[trigger] items[i], v.xmlns_map, i - first)
    &&& v.mc_ignorable matches Some(g) ==> is_declaration(
        plan,
        items[last],
        AttributeTarget::McIgnorable,
        g,
    )
}

/// Where the prefixed namespaces begin among the attributes of a tag, the
/// namespace declarations beginning at `from`.
pub open spec fn xmlns_first(v: XmlnsView, from: int) -> int {
    if v.xmlns is Some {
        from + 1
    } else {
        from
    }
}

/// Where the namespace declarations end among the attributes of a tag.
pub open spec fn xmlns_end(v: XmlnsView, from: int) -> int {
    if v.mc_ignorable is Some {
        xmlns_first(v, from) + v.xmlns_map.len() + 1
    } else {
        xmlns_first(v, from) + v.xmlns_map.len()
    }
}

/// Whether the parser takes an attribute as the given declaration, and
/// reads its value as `value`.
pub open spec fn is_declaration(
    plan: Plan,
    item: Result<XmlAttribute, String>,
    target: AttributeTarget,
    value: Seq<char>,
) -> bool {
    key_target(plan, item) == Some(target) && item_value(item) == Some(value)
}

/// Whether the parser takes an attribute as the prefixed namespace at
/// `j` of a map, which has no entry with the same prefix before it.
pub open spec fn is_namespace(
    plan: Plan,
    item: Result<XmlAttribute, String>,
    m: Seq<(Seq<char>, Seq<char>)>,
    j: int,
) -> bool {
    &&& 0 <= j < m.len()
    &&& is_declaration(plan, item, AttributeTarget::Namespace, m[j].1)
    &&& item_prefix(item) == Some(m[j].0)
    &&& map_index(m.take(j), m[j].0) is None
}

/// Whether the attributes of a tag are what the values that the tag
/// sets are written as: the attributes of the type that are set, in the
/// order of the fields, and then, where the type carries them, the
/// namespace declarations. Only a type that carries them has fields for
/// them.
pub open spec fn tag_spells(
    ctx: GenContext,
    plan: Plan,
    values: Seq<FieldValueView>,
    items: Seq<Result<XmlAttribute, String>>,
) -> bool {
    let n = values.len() as int;
    &&& values.len() == plan.fields.len()
    &&& attributes_spell(ctx, plan, values, n, items)
    &&& forall|i: int|
        0 <= i < n && is_xmlns_field(#[trigger] plan.fields[i]) ==> has_xmlns(plan.fields) && i < 3
    &&& if has_xmlns(plan.fields) {
        &&& values[0] is Xmlns
        &&& values[1] is XmlnsMap
        &&& values[2] is McIgnorable
        &&& xmlns_spells(plan, xmlns_of_values(values), items, attribute_count(values, n))
    } else {
        items.len() == attribute_count(values, n)
    }
}

/// The values of an element where the attributes of the first `n` fields
/// are set and all other fields are as they are before anything is read.
pub open spec fn attributes_up_to(fields: Seq<Field>, values: Seq<FieldValueView>, n: int) -> Seq<
    FieldValueView,
> {
    Seq::new(
        values.len(),
        |i: int|
            if i < n && fields[i] is Attribute {
                values[i]
            } else {
                initial_value(fields[i])
            },
    )
}

/// The count of the attributes that are set grows with the fields.
proof fn lemma_attribute_count(values: Seq<FieldValueView>, n: int)
    ensures
        0 <= attribute_count(values, n),
        0 < n <= values.len() ==> attribute_count(values, n - 1) <= attribute_count(values, n),
    decreases n,
{
    if 0 < n <= values.len() {
        lemma_attribute_count(values, n - 1);
    }
}

/// Reading what the attributes of the first `n` fields are written as
/// sets those attributes.
proof fn lemma_attributes_are_read(
    ctx: GenContext,
    plan: Plan,
    values: Seq<FieldValueView>,
    n: int,
    items: Seq<Result<XmlAttribute, String>>,
)
    requires
        values.len() == plan.fields.len(),
        0 <= n <= values.len(),
        attributes_spell(ctx, plan, values, n, items),
    ensures
        attribute_count(values, n) <= items.len(),
        try_fold(
            items.take(attribute_count(values, n)),
            initial_values(plan.fields),
            attribute_stepper(ctx, plan),
        ) == Ok::<Seq<FieldValueView>, SdkErrorView>(attributes_up_to(plan.fields, values, n)),
    decreases n,
{
    let init = initial_values(plan.fields);
    let step = attribute_stepper(ctx, plan);
    lemma_attribute_count(values, n);
    if n == 0 {
        assert(items.take(0) =~= Seq::<Result<XmlAttribute, String>>::empty());
        assert(attributes_up_to(plan.fields, values, 0) =~= init);
    } else {
        lemma_attributes_are_read(ctx, plan, values, n - 1, items);
        lemma_attribute_count(values, n - 1);
        let j = attribute_count(values, n - 1);
        let before = attributes_up_to(plan.fields, values, n - 1);
        let after = attributes_up_to(plan.fields, values, n);
        match values[n - 1] {
            FieldValueView::Attribute(Some(s)) => {
                let a = items[j]->Ok_0;
                lemma_try_fold_next(items, j, init, step);
                lemma_written_attribute_is_read(ctx, plan, before, n - 1, s, a);
                assert(step(before, items[j]) == attribute_step(ctx, plan, before, items[j]));
                assert(before.update(n - 1, FieldValueView::Attribute(Some(s))) =~= after);
            },
            _ => {
                assert(before =~= after);
            },
        }
    }
}

/// One declaration that is read sets its field.
proof fn lemma_declaration_is_read(
    ctx: GenContext,
    plan: Plan,
    w: Seq<FieldValueView>,
    item: Result<XmlAttribute, String>,
    value: Seq<char>,
)
    requires
        w.len() >= 3,
    ensures
        is_declaration(plan, item, AttributeTarget::Xmlns, value) ==> attribute_stepper(ctx, plan)(
            w,
            item,
        ) == Ok::<Seq<FieldValueView>, SdkErrorView>(
            w.update(0, FieldValueView::Xmlns(Some(value))),
        ),
        is_declaration(plan, item, AttributeTarget::McIgnorable, value) ==> attribute_stepper(
            ctx,
            plan,
        )(w, item) == Ok::<Seq<FieldValueView>, SdkErrorView>(
            w.update(2, FieldValueView::McIgnorable(Some(value))),
        ),
{
}

/// One prefixed namespace that is read is added to the map.
proof fn lemma_namespace_is_read(
    ctx: GenContext,
    plan: Plan,
    w: Seq<FieldValueView>,
    item: Result<XmlAttribute, String>,
    m: Seq<(Seq<char>, Seq<char>)>,
    j: int,
)
    requires
        w.len() >= 3,
        is_namespace(plan, item, m, j),
        w[1] == FieldValueView::XmlnsMap(m.take(j)),
    ensures
        attribute_stepper(ctx, plan)(w, item) == Ok::<Seq<FieldValueView>, SdkErrorView>(
            w.update(1, FieldValueView::XmlnsMap(m.take(j + 1))),
        ),
{
    assert(map_insert(m.take(j), m[j].0, m[j].1) =~= m.take(j + 1));
}

/// Reading what the first `j` prefixed namespaces are written as puts
/// them into the map.
proof fn lemma_namespaces_are_read(
    ctx: GenContext,
    plan: Plan,
    m: Seq<(Seq<char>, Seq<char>)>,
    j: int,
    items: Seq<Result<XmlAttribute, String>>,
    first: int,
    before: Seq<FieldValueView>,
)
    requires
        0 <= j <= m.len(),
        0 <= first,
        first + m.len() <= items.len(),
        before.len() >= 3,
        before[1] == FieldValueView::XmlnsMap(Seq::empty()),
        try_fold(items.take(first), initial_values(plan.fields), attribute_stepper(ctx, plan))
            == Ok::<Seq<FieldValueView>, SdkErrorView>(before),
        forall|i: int|
            first <= i < first + m.len() ==> is_namespace(plan, #[trigger] items[i], m, i - first),
    ensures
        try_fold(items.take(first + j), initial_values(plan.fields), attribute_stepper(ctx, plan))
            == Ok::<Seq<FieldValueView>, SdkErrorView>(
            before.update(1, FieldValueView::XmlnsMap(m.take(j))),
        ),
    decreases j,
{
    let init = initial_values(plan.fields);
    let step = attribute_stepper(ctx, plan);
    if j == 0 {
        assert(m.take(0) =~= Seq::<(Seq<char>, Seq<char>)>::empty());
        assert(before.update(1, FieldValueView::XmlnsMap(Seq::empty())) =~= before);
    } else {
        lemma_namespaces_are_read(ctx, plan, m, j - 1, items, first, before);
        let w = before.update(1, FieldValueView::XmlnsMap(m.take(j - 1)));
        let at = first + j - 1;
        lemma_try_fold_next(items, at, init, step);
        assert(is_namespace(plan, items[at], m, at - first));
        lemma_namespace_is_read(ctx, plan, w, items[at], m, j - 1);
        assert(w.update(1, FieldValueView::XmlnsMap(m.take(j))) =~= before.update(
            1,
            FieldValueView::XmlnsMap(m.take(j)),
        ));
    }
}

/// Reading what the namespace declarations are written as, behind the
/// attributes of the type, sets the declarations.
proof fn lemma_xmlns_is_read(
    ctx: GenContext,
    plan: Plan,
    v: XmlnsView,
    items: Seq<Result<XmlAttribute, String>>,
    from: int,
    s0: Seq<FieldValueView>,
)
    requires
        xmlns_spells(plan, v, items, from),
        s0.len() >= 3,
        s0[1] == FieldValueView::XmlnsMap(Seq::empty()),
        try_fold(items.take(from), initial_values(plan.fields), attribute_stepper(ctx, plan))
            == Ok::<Seq<FieldValueView>, SdkErrorView>(s0),
    ensures
        try_fold(items, initial_values(plan.fields), attribute_stepper(ctx, plan)) == Ok::<
            Seq<FieldValueView>,
            SdkErrorView,
        >(with_xmlns(s0, v)),
{
    let init = initial_values(plan.fields);
    let step = attribute_stepper(ctx, plan);
    let first = xmlns_first(v, from);
    let last = first + v.xmlns_map.len();
    let s1 = match v.xmlns {
        Some(x) => s0.update(0, FieldValueView::Xmlns(Some(x))),
        None => s0,
    };
    match v.xmlns {
        Some(x) => {
            lemma_try_fold_next(items, from, init, step);
            lemma_declaration_is_read(ctx, plan, s0, items[from], x);
        },
        None => {},
    }
    assert(try_fold(items.take(first), init, step) == Ok::<Seq<FieldValueView>, SdkErrorView>(s1));
    lemma_namespaces_are_read(ctx, plan, v.xmlns_map, v.xmlns_map.len() as int, items, first, s1);
    assert(v.xmlns_map.take(v.xmlns_map.len() as int) =~= v.xmlns_map);
    let s2 = s1.update(1, FieldValueView::XmlnsMap(v.xmlns_map));
    match v.mc_ignorable {
        Some(g) => {
            lemma_try_fold_next(items, last, init, step);
            lemma_declaration_is_read(ctx, plan, s2, items[last], g);
        },
        None => {},
    }
    assert(items.take(items.len() as int) =~= items);
}

/// Values with the namespace declarations set.
pub open spec fn with_xmlns(s0: Seq<FieldValueView>, v: XmlnsView) -> Seq<FieldValueView> {
    let s1 = match v.xmlns {
        Some(x) => s0.update(0, FieldValueView::Xmlns(Some(x))),
        None => s0,
    };
    let s2 = s1.update(1, FieldValueView::XmlnsMap(v.xmlns_map));
    match v.mc_ignorable {
        Some(g) => s2.update(2, FieldValueView::McIgnorable(Some(g))),
        None => s2,
    }
}

/// The attributes that the values of an element are written as are read
/// as those values.
pub proof fn lemma_written_tag_is_read(
    ctx: GenContext,
    plan: Plan,
    values: Seq<FieldValueView>,
    tag: StartTag,
)
    requires
        tag_spells(ctx, plan, values, tag.attributes@),
    ensures
        values_of_tag(ctx, plan, tag) == Ok::<Seq<FieldValueView>, SdkErrorView>(
            tag_values(plan.fields, values),
        ),
{
    let items = tag.attributes@;
    let n = values.len() as int;
    let c = attribute_count(values, n);
    let s0 = attributes_up_to(plan.fields, values, n);
    let goal = tag_values(plan.fields, values);
    lemma_attributes_are_read(ctx, plan, values, n, items);
    lemma_attribute_count(values, n);
    if has_xmlns(plan.fields) {
        let v = xmlns_of_values(values);
        lemma_xmlns_is_read(ctx, plan, v, items, c, s0);
        assert(with_xmlns(s0, v) =~= goal);
    } else {
        assert(items.take(c) =~= items);
        assert(s0 =~= goal);
    }
}

/// An element is written as at least one event.
proof fn lemma_span_positive(
    ctx: GenContext,
    ds: Seq<Vec<Option<TypeDeserializer>>>,
    x: ElementView,
)
    ensures
        span(ctx, ds, x) >= 1,
    decreases x, 0int,
{
    match plan_of(ctx, ds, x.at) {
        None => {},
        Some(plan) => {
            lemma_inner_span_grows(ctx, ds, plan.fields, x.values, x.values.len() as int);
        },
    }
}

/// What more fields are written as is not less.
proof fn lemma_inner_span_grows(
    ctx: GenContext,
    ds: Seq<Vec<Option<TypeDeserializer>>>,
    fields: Seq<Field>,
    values: Seq<FieldValueView>,
    n: int,
)
    ensures
        0 <= inner_span(ctx, ds, fields, values, n),
        0 < n <= values.len() ==> inner_span(ctx, ds, fields, values, n - 1) <= inner_span(
            ctx,
            ds,
            fields,
            values,
            n,
        ),
    decreases values, n,
{
    if 0 < n <= values.len() {
        lemma_inner_span_grows(ctx, ds, fields, values, n - 1);
        match values[n - 1] {
            FieldValueView::XmlContent(Some(s)) => {
                match fields[n - 1] {
                    Field::XmlContent { kind } => {
                        lemma_piece_count(ctx.scalar_text(enum_of_content(kind), s), 0);
                    },
                    _ => {},
                }
            },
            FieldValueView::Child(es) => {
                lemma_elements_span_grows(ctx, ds, es, es.len() as int);
            },
            FieldValueView::Children(cs) => {
                lemma_children_span_grows(ctx, ds, cs, cs.len() as int);
            },
            _ => {},
        }
    }
}

/// What more elements are written as is more.
proof fn lemma_elements_span_grows(
    ctx: GenContext,
    ds: Seq<Vec<Option<TypeDeserializer>>>,
    es: Seq<ElementView>,
    m: int,
)
    ensures
        0 <= elements_span(ctx, ds, es, m),
        0 < m <= es.len() ==> elements_span(ctx, ds, es, m - 1) < elements_span(ctx, ds, es, m),
    decreases es, m,
{
    if 0 < m <= es.len() {
        lemma_elements_span_grows(ctx, ds, es, m - 1);
        lemma_span_positive(ctx, ds, es[m - 1]);
    }
}

/// What more children are written as is more.
proof fn lemma_children_span_grows(
    ctx: GenContext,
    ds: Seq<Vec<Option<TypeDeserializer>>>,
    cs: Seq<(int, ElementView)>,
    m: int,
)
    ensures
        0 <= children_span(ctx, ds, cs, m),
        0 < m <= cs.len() ==> children_span(ctx, ds, cs, m - 1) < children_span(ctx, ds, cs, m),
    decreases cs, m,
{
    if 0 < m <= cs.len() {
        lemma_children_span_grows(ctx, ds, cs, m - 1);
        lemma_span_positive(ctx, ds, cs[m - 1].1);
    }
}

/// The events that an element is written as are read as that element,
/// from the opening tag on, and the reading ends behind them.
pub proof fn lemma_written_element_is_read(
    ctx: GenContext,
    ds: Seq<Vec<Option<TypeDeserializer>>>,
    x: ElementView,
    events: Seq<XmlEvent>,
    pos: int,
)
    requires
        spells(ctx, ds, x, events, pos),
    ensures
        parsed_element(
            ctx,
            ds,
            x.at,
            opening_tag(events[pos])->Some_0,
            events[pos] is Empty,
            events,
            pos + 1,
        ) == Ok::<(ElementView, int), SdkErrorView>((x, pos + span(ctx, ds, x))),
    decreases x, 0int,
{
    let plan = plan_of(ctx, ds, x.at)->Some_0;
    let n = x.values.len() as int;
    lemma_written_tag_is_read(ctx, plan, x.values, opening_tag(events[pos])->Some_0);
    if x.values == tag_values(plan.fields, x.values) {
    } else {
        let end = pos + 1 + inner_span(ctx, ds, plan.fields, x.values, n);
        lemma_inner_span_grows(ctx, ds, plan.fields, x.values, n);
        lemma_fields_are_read(ctx, ds, x.at, plan, x.values, n, events, pos + 1);
        assert(values_up_to(plan.fields, x.values, n) =~= x.values);
        assert(parsed_children(ctx, ds, x.at, events, end, x.values) == Ok::<
            (Seq<FieldValueView>, int),
            SdkErrorView,
        >((x.values, end + 1)));
    }
}

/// Reading what the first `n` fields of an element are written as sets
/// those fields.
proof fn lemma_fields_are_read(
    ctx: GenContext,
    ds: Seq<Vec<Option<TypeDeserializer>>>,
    at: crate::symbols::TypeRef,
    plan: Plan,
    values: Seq<FieldValueView>,
    n: int,
    events: Seq<XmlEvent>,
    start: int,
)
    requires
        plan_of(ctx, ds, at) == Some(plan),
        values.len() == plan.fields.len(),
        0 <= n <= values.len(),
        0 <= start,
        inner_spells(ctx, ds, plan, values, n, events, start),
        start + inner_span(ctx, ds, plan.fields, values, n) < events.len(),
    ensures
        parsed_children(ctx, ds, at, events, start, values_up_to(plan.fields, values, 0))
            == parsed_children(
            ctx,
            ds,
            at,
            events,
            start + inner_span(ctx, ds, plan.fields, values, n),
            values_up_to(plan.fields, values, n),
        ),
    decreases values, n,
{
    if n > 0 {
        lemma_inner_span_grows(ctx, ds, plan.fields, values, n);
        lemma_inner_span_grows(ctx, ds, plan.fields, values, n - 1);
        lemma_fields_are_read(ctx, ds, at, plan, values, n - 1, events, start);
        let p = start + inner_span(ctx, ds, plan.fields, values, n - 1);
        let before = values_up_to(plan.fields, values, n - 1);
        let after = values_up_to(plan.fields, values, n);
        match values[n - 1] {
            FieldValueView::XmlContent(Some(s)) => {
                match plan.fields[n - 1] {
                    Field::XmlContent { kind } => {
                        let text = ctx.scalar_text(enum_of_content(kind), s);
                        ctx.lemma_content_round_trip(kind, s, events, p);
                        lemma_pieces(text, 0, events, p);
                        assert(is_piece(events[p]));
                        assert(with_content(ctx, plan, before, events, p) == Ok::<
                            Seq<FieldValueView>,
                            SdkErrorView,
                        >(after)) by {
                            assert(before.update(n - 1, FieldValueView::XmlContent(Some(s)))
                                =~= after);
                        }
                        lemma_pieces_are_passed_over(
                            ctx,
                            ds,
                            at,
                            plan,
                            after,
                            events,
                            p + 1,
                            p + piece_count(text, 0),
                        );
                    },
                    _ => {},
                }
            },
            FieldValueView::Child(es) => {
                lemma_elements_are_read(
                    ctx,
                    ds,
                    at,
                    plan,
                    n - 1,
                    es,
                    es.len() as int,
                    events,
                    p,
                    before,
                );
                assert(es.take(es.len() as int) =~= es);
                assert(before.update(n - 1, FieldValueView::Child(es)) =~= after);
            },
            FieldValueView::Children(cs) => {
                lemma_children_are_read(
                    ctx,
                    ds,
                    at,
                    plan,
                    n - 1,
                    cs,
                    cs.len() as int,
                    events,
                    p,
                    before,
                );
                assert(cs.take(cs.len() as int) =~= cs);
                assert(before.update(n - 1, FieldValueView::Children(cs)) =~= after);
            },
            _ => {
                assert(before =~= after);
            },
        }
    }
}

/// Pieces of text are passed over where the content of the element is
/// set or the type has none.
proof fn lemma_pieces_are_passed_over(
    ctx: GenContext,
    ds: Seq<Vec<Option<TypeDeserializer>>>,
    at: crate::symbols::TypeRef,
    plan: Plan,
    values: Seq<FieldValueView>,
    events: Seq<XmlEvent>,
    from: int,
    end: int,
)
    requires
        plan_of(ctx, ds, at) == Some(plan),
        0 <= from <= end < events.len(),
        content_target(plan, values) is None,
        forall|q: int| from <= q < end ==> is_piece(#[trigger] events[q]),
    ensures
        parsed_children(ctx, ds, at, events, from, values) == parsed_children(
            ctx,
            ds,
            at,
            events,
            end,
            values,
        ),
    decreases end - from,
{
    if from < end {
        assert(is_piece(events[from]));
        lemma_pieces_are_passed_over(ctx, ds, at, plan, values, events, from + 1, end);
    }
}

/// Reading what the first `m` elements of a child field are written as
/// puts them into the field.
proof fn lemma_elements_are_read(
    ctx: GenContext,
    ds: Seq<Vec<Option<TypeDeserializer>>>,
    at: crate::symbols::TypeRef,
    plan: Plan,
    f: int,
    es: Seq<ElementView>,
    m: int,
    events: Seq<XmlEvent>,
    p: int,
    before: Seq<FieldValueView>,
)
    requires
        plan_of(ctx, ds, at) == Some(plan),
        0 <= f < plan.fields.len(),
        before.len() == plan.fields.len(),
        plan.fields[f] matches Field::Child { item, child, target, occurrence } && (occurrence
            != Occurrence::Repeated ==> es.len() <= 1),
        before[f] == FieldValueView::Child(Seq::empty()),
        0 <= m <= es.len(),
        0 <= p,
        elements_spell(ctx, ds, plan, f, es, m, events, p),
    ensures
        parsed_children(ctx, ds, at, events, p, before) == parsed_children(
            ctx,
            ds,
            at,
            events,
            p + elements_span(ctx, ds, es, m),
            before.update(f, FieldValueView::Child(es.take(m))),
        ),
    decreases es, m,
{
    if m == 0 {
        assert(es.take(0) =~= Seq::<ElementView>::empty());
        assert(before.update(f, FieldValueView::Child(Seq::empty())) =~= before);
    } else {
        lemma_elements_are_read(ctx, ds, at, plan, f, es, m - 1, events, p, before);
        let q = p + elements_span(ctx, ds, es, m - 1);
        let e = es[m - 1];
        let w = before.update(f, FieldValueView::Child(es.take(m - 1)));
        lemma_elements_span_grows(ctx, ds, es, m - 1);
        lemma_written_element_is_read(ctx, ds, e, events, q);
        lemma_span_positive(ctx, ds, e);
        let k = variant_of(plan, events[q])->Some_0;
        let t = arm_target(plan, k)->Some_0;
        assert(es.take(m) =~= es.take(m - 1).push(e));
        if es.len() <= 1 {
            assert(es.take(m) =~= seq![e]);
        }
        assert(stored(w, t, k, e) =~= before.update(f, FieldValueView::Child(es.take(m))));
    }
}

/// Reading what the first `m` children of a list of children are
/// written as puts them into the list.
proof fn lemma_children_are_read(
    ctx: GenContext,
    ds: Seq<Vec<Option<TypeDeserializer>>>,
    at: crate::symbols::TypeRef,
    plan: Plan,
    f: int,
    cs: Seq<(int, ElementView)>,
    m: int,
    events: Seq<XmlEvent>,
    p: int,
    before: Seq<FieldValueView>,
)
    requires
        plan_of(ctx, ds, at) == Some(plan),
        0 <= f < plan.fields.len(),
        before.len() == plan.fields.len(),
        before[f] == FieldValueView::Children(Seq::empty()),
        0 <= m <= cs.len(),
        0 <= p,
        children_spell(ctx, ds, plan, f, cs, m, events, p),
    ensures
        parsed_children(ctx, ds, at, events, p, before) == parsed_children(
            ctx,
            ds,
            at,
            events,
            p + children_span(ctx, ds, cs, m),
            before.update(f, FieldValueView::Children(cs.take(m))),
        ),
    decreases cs, m,
{
    if m == 0 {
        assert(cs.take(0) =~= Seq::<(int, ElementView)>::empty());
        assert(before.update(f, FieldValueView::Children(Seq::empty())) =~= before);
    } else {
        lemma_children_are_read(ctx, ds, at, plan, f, cs, m - 1, events, p, before);
        let q = p + children_span(ctx, ds, cs, m - 1);
        let e = cs[m - 1].1;
        let w = before.update(f, FieldValueView::Children(cs.take(m - 1)));
        lemma_children_span_grows(ctx, ds, cs, m - 1);
        lemma_written_element_is_read(ctx, ds, e, events, q);
        lemma_span_positive(ctx, ds, e);
        let k = variant_of(plan, events[q])->Some_0;
        let t = arm_target(plan, k)->Some_0;
        assert(cs.take(m) =~= cs.take(m - 1).push((k, e)));
        assert(stored(w, t, k, e) =~= before.update(f, FieldValueView::Children(cs.take(m))));
    }
}

/// Whether an event can stand before the root element of a document:
/// it opens nothing and ends nothing.
pub open spec fn is_prolog(e: XmlEvent) -> bool {
    e is Other || e is Text || e is Reference || e is End
}

/// The opening tag behind a prolog is the next opening tag.
proof fn lemma_next_start_behind_prolog(events: Seq<XmlEvent>, from: int, pos: int)
    requires
        0 <= from <= pos < events.len(),
        opening_tag(events[pos]) is Some,
        forall|i: int| from <= i < pos ==> is_prolog(#[trigger] events[i]),
    ensures
        next_start(events, from) == Ok::<(StartTag, bool, int), SdkErrorView>(
            (opening_tag(events[pos])->Some_0, events[pos] is Empty, pos + 1),
        ),
    decreases pos - from,
{
    if from < pos {
        assert(is_prolog(events[from]));
        lemma_next_start_behind_prolog(events, from + 1, pos);
    }
}

/// A document that is written and read again is the document that it
/// was: where the events from `pos` on are what an element is written
/// as, and only a prolog stands before them, the element is read from
/// the events, and the reading ends behind them.
pub proof fn lemma_written_document_is_read(
    ctx: GenContext,
    ds: Seq<Vec<Option<TypeDeserializer>>>,
    x: ElementView,
    events: Seq<XmlEvent>,
    from: int,
    pos: int,
)
    requires
        0 <= from <= pos,
        forall|i: int| from <= i < pos ==> is_prolog(#[trigger] events[i]),
        spells(ctx, ds, x, events, pos),
    ensures
        parsed(ctx, ds, x.at, events, from, None) == Ok::<(ElementView, int), SdkErrorView>(
            (x, pos + span(ctx, ds, x)),
        ),
{
    lemma_written_element_is_read(ctx, ds, x, events, pos);
    lemma_next_start_behind_prolog(events, from, pos);
}

/// An element that is written as text and read from that text is the
/// element that it was, and written again it is the same text, where the
/// tokenizer hands out for the text, behind at most a prolog, the events
/// that the element is written as.
pub proof fn lemma_round_trip(
    ctx: GenContext,
    ds: Seq<Vec<Option<TypeDeserializer>>>,
    x: ElementView,
    header: bool,
    with_xmlns: bool,
    pos: int,
)
    requires
        0 <= pos,
        forall|i: int|
            0 <= i < pos ==> is_prolog(
                #[trigger] xml_events(element_xml(ctx, ds, x, header, with_xmlns))[i],
            ),
        spells(ctx, ds, x, xml_events(element_xml(ctx, ds, x, header, with_xmlns)), pos),
    ensures
        parsed(
            ctx,
            ds,
            x.at,
            xml_events(element_xml(ctx, ds, x, header, with_xmlns)),
            0,
            None,
        ) matches Ok(p) && p.0 == x && element_xml(ctx, ds, p.0, header, with_xmlns)
            == element_xml(ctx, ds, x, header, with_xmlns),
{
    lemma_written_document_is_read(
        ctx,
        ds,
        x,
        xml_events(element_xml(ctx, ds, x, header, with_xmlns)),
        0,
        pos,
    );
}

} // verus!
