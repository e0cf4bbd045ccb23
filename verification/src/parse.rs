//! Reading an element from the events of a document, by the deserializer
//! of its type.

use crate::common::{
    attribute_value, expect_event_start, expected_start, failure_error, from_utf8_lossy,
    lemma_try_fold_next, lemma_try_fold_stops, matches_tag, opening_tag, read_attribute_value,
    tag_matches, try_fold, utf8_lossy, SdkError, SdkErrorView, StartTag, XmlAttribute, XmlEvent,
};
use crate::context::GenContext;
use crate::deserializer::{
    attribute_target, dispatch_attribute, dispatch_child, dispatched, AttributeTarget, ChildArm,
    TypeDeserializer,
};
use crate::document::{
    all_values_view, elements_view, initial_values, lemma_children_view_push,
    lemma_elements_view_push, lemma_values_view, lemma_values_view_update, make_initial_values,
    value_view, ChildElement, Element, ElementView, FieldValue, FieldValueView,
};
use crate::models::{
    has_local_tag, local_tag_of, prefixed_tag_of, Occurrence, OpenXmlSchemaType,
    OpenXmlSchemaTypeAttribute, OpenXmlSchemaTypeChild,
};
use crate::open_xml_schema::{ContentKind, Field, Variant};
use crate::symbols::TypeRef;
use crate::tables::replace_at;
use crate::text::{bytes_from, split_once, str_split_once, trim_one_prefix};
use crate::xmlns::{insert_namespace, map_insert, xmlns_prefix};
use vstd::prelude::*;
use vstd::utf8::encode_utf8;

verus! {

/// What the parser of a type works with: the type, the type whose child
/// references the arms stand for, the attributes that the type inherits,
/// and the deserializer's fields, variants and arms.
pub struct Plan {
    pub ty: OpenXmlSchemaType,
    pub owner: OpenXmlSchemaType,
    pub inherited: Seq<OpenXmlSchemaTypeAttribute>,
    pub fields: Seq<Field>,
    pub variants: Seq<Variant>,
    pub arms: Seq<ChildArm>,
}

/// The deserializers of all schemas of a context, with the context.
pub struct Codec<'a> {
    pub context: &'a GenContext,
    pub deserializers: &'a Vec<Vec<Option<TypeDeserializer>>>,
}

/// The plan of a type, as the parser holds it.
pub struct TypePlan<'a> {
    pub ty: &'a OpenXmlSchemaType,
    pub owner: &'a OpenXmlSchemaType,
    pub base: Option<&'a OpenXmlSchemaType>,
    pub deserializer: &'a TypeDeserializer,
    /// The tag of the type with its prefix.
    pub prefixed: &'a str,
    /// The local name of the tag of the type.
    pub local: &'a str,
}

impl<'a> TypePlan<'a> {
    pub open spec fn view(&self) -> Plan {
        Plan {
            ty: *self.ty,
            owner: *self.owner,
            inherited: match self.base {
                Some(b) => b.attributes@,
                None => Seq::empty(),
            },
            fields: self.deserializer.model.fields@,
            variants: self.deserializer.model.variants@,
            arms: self.deserializer.arms@,
        }
    }
}

impl GenContext {
    /// The base type that a model names, if it is there.
    pub open spec fn base_of(&self, base: Option<TypeRef>) -> Option<OpenXmlSchemaType> {
        match base {
            Some(at) => if at.schema < self.schemas@.len() && at.index
                < self.schemas@[at.schema as int].types@.len() {
                Some(self.schemas@[at.schema as int].types@[at.index as int])
            } else {
                None
            },
            None => None,
        }
    }

    pub fn find_base_of(&self, base: Option<TypeRef>) -> (r: Option<&OpenXmlSchemaType>)
        ensures
            match r {
                Some(b) => self.base_of(base) == Some(*b),
                None => self.base_of(base) is None,
            },
    {
        match base {
            Some(at) => {
                if at.schema < self.schemas.len() && at.index < self.schemas[at.schema].types.len() {
                    Some(&self.schemas[at.schema].types[at.index])
                } else {
                    None
                }
            },
            None => None,
        }
    }
}

/// The plan of the type at a place: the type must be there, must have a
/// deserializer, and its name must have a tag.
pub open spec fn plan_of(
    ctx: GenContext,
    ds: Seq<Vec<Option<TypeDeserializer>>>,
    at: TypeRef,
) -> Option<Plan> {
    if at.schema < ctx.schemas@.len() && at.schema < ds.len() && at.index
        < ctx.schemas@[at.schema as int].types@.len() && at.index < ds[at.schema as int]@.len() {
        let ty = ctx.schemas@[at.schema as int].types@[at.index as int];
        match ds[at.schema as int]@[at.index as int] {
            Some(d) => if has_local_tag(ty.name@) {
                Some(
                    Plan {
                        ty,
                        owner: ctx.children_owner(ty, d.model@),
                        inherited: match ctx.base_of(d.model.base) {
                            Some(b) => b.attributes@,
                            None => Seq::empty(),
                        },
                        fields: d.model.fields@,
                        variants: d.model.variants@,
                        arms: d.arms@,
                    },
                )
            } else {
                None
            },
            None => None,
        }
    } else {
        None
    }
}

impl<'a> Codec<'a> {
    pub fn find_plan(&self, at: TypeRef) -> (r: Option<TypePlan<'a>>)
        ensures
            match r {
                Some(p) => plan_of(*self.context, self.deserializers@, at) == Some(p.view())
                    && p.prefixed@ == prefixed_tag_of(p.ty.name@) && p.local@ == local_tag_of(
                    p.ty.name@,
                ),
                None => plan_of(*self.context, self.deserializers@, at) is None,
            },
    {
        let ctx = self.context;
        let ds = self.deserializers;
        if at.schema < ctx.schemas.len() && at.schema < ds.len() && at.index
            < ctx.schemas[at.schema].types.len() && at.index < ds[at.schema].len() {
            let ty = &ctx.schemas[at.schema].types[at.index];
            match &ds[at.schema][at.index] {
                Some(d) => {
                    match str_split_once(ty.name.as_str(), '/') {
                        Some((_, prefixed)) => match str_split_once(prefixed, ':') {
                            Some((_, local)) => Some(
                                TypePlan {
                                    ty,
                                    owner: ctx.find_children_owner(ty, &d.model),
                                    base: ctx.find_base_of(d.model.base),
                                    deserializer: d,
                                    prefixed,
                                    local,
                                },
                            ),
                            None => None,
                        },
                        None => None,
                    }
                },
                None => None,
            }
        } else {
            None
        }
    }
}

/// What one attribute of the opening tag does to the values of an
/// element: a malformed attribute stops the reading; an attribute of the
/// type sets its field, read by the kind of the field; the namespace
/// declarations set theirs; any other attribute is passed over.
pub open spec fn attribute_step(
    ctx: GenContext,
    plan: Plan,
    values: Seq<FieldValueView>,
    item: Result<XmlAttribute, String>,
) -> Result<Seq<FieldValueView>, SdkErrorView> {
    match item {
        Err(m) => Err(SdkErrorView::AttrError(m@)),
        Ok(a) => match attribute_target(plan.fields, plan.ty.attributes@, plan.inherited, a.key@) {
            AttributeTarget::Field(k) => match plan.fields[k as int] {
                Field::Attribute { inherited, index, kind, required } => match ctx.attribute_scalar(
                    kind,
                    a,
                ) {
                    Ok(s) => Ok(values.update(k as int, FieldValueView::Attribute(Some(s)))),
                    Err(e) => Err(e),
                },
                _ => Ok(values),
            },
            AttributeTarget::Xmlns => match attribute_value(a) {
                Ok(v) => Ok(values.update(0, FieldValueView::Xmlns(Some(v)))),
                Err(e) => Err(e),
            },
            AttributeTarget::McIgnorable => match attribute_value(a) {
                Ok(v) => Ok(values.update(2, FieldValueView::McIgnorable(Some(v)))),
                Err(e) => Err(e),
            },
            AttributeTarget::Namespace => match attribute_value(a) {
                Ok(v) => match values[1] {
                    FieldValueView::XmlnsMap(m) => Ok(
                        values.update(
                            1,
                            FieldValueView::XmlnsMap(
                                map_insert(
                                    m,
                                    utf8_lossy(a.key@.skip(xmlns_prefix().len() as int)),
                                    v,
                                ),
                            ),
                        ),
                    ),
                    _ => Ok(values),
                },
                Err(e) => Err(e),
            },
            AttributeTarget::Ignored => Ok(values),
        },
    }
}

pub open spec fn attribute_stepper(ctx: GenContext, plan: Plan) -> spec_fn(
    Seq<FieldValueView>,
    Result<XmlAttribute, String>,
) -> Result<Seq<FieldValueView>, SdkErrorView> {
    |values: Seq<FieldValueView>, item: Result<XmlAttribute, String>|
        attribute_step(ctx, plan, values, item)
}

/// The values of an element after its opening tag is read.
pub open spec fn values_of_tag(ctx: GenContext, plan: Plan, tag: StartTag) -> Result<
    Seq<FieldValueView>,
    SdkErrorView,
> {
    try_fold(tag.attributes@, initial_values(plan.fields), attribute_stepper(ctx, plan))
}

impl<'a> Codec<'a> {
    fn read_attribute(&self, plan: &TypePlan<'a>, a: &XmlAttribute, values: &mut Vec<FieldValue>)
        -> (r: Result<(), SdkError>)
        requires
            old(values)@.len() == plan.view().fields.len(),
        ensures
            final(values)@.len() == old(values)@.len(),
            match r {
                Ok(_) => attribute_step(
                    *self.context,
                    plan.view(),
                    all_values_view(old(values)@),
                    Ok(*a),
                ) == Ok::<Seq<FieldValueView>, SdkErrorView>(all_values_view(final(values)@)),
                Err(e) => attribute_step(
                    *self.context,
                    plan.view(),
                    all_values_view(old(values)@),
                    Ok(*a),
                ) == Err::<Seq<FieldValueView>, SdkErrorView>(e@),
            },
    {
        let fields = &plan.deserializer.model.fields;
        let none: Vec<OpenXmlSchemaTypeAttribute> = Vec::new();
        let inherited = match plan.base {
            Some(b) => &b.attributes,
            None => &none,
        };
        assert(inherited@ == plan.view().inherited);
        proof {
            lemma_values_view(values@, values@.len() as int);
        }
        match dispatch_attribute(fields, &plan.ty.attributes, inherited, a.key.as_slice()) {
            AttributeTarget::Field(k) => match fields[k] {
                Field::Attribute { inherited, index, kind, required } => {
                    match self.context.read_scalar(kind, a) {
                        Ok(s) => {
                            let v = FieldValue::Attribute(Some(s));
                            proof {
                                lemma_values_view_update(values@, k as int, v);
                            }
                            values.set(k, v);
                            Ok(())
                        },
                        Err(e) => Err(e),
                    }
                },
                _ => Ok(()),
            },
            AttributeTarget::Xmlns => match read_attribute_value(a) {
                Ok(s) => {
                    let v = FieldValue::Xmlns(Some(s));
                    proof {
                        lemma_values_view_update(values@, 0, v);
                    }
                    values.set(0, v);
                    Ok(())
                },
                Err(e) => Err(e),
            },
            AttributeTarget::McIgnorable => match read_attribute_value(a) {
                Ok(s) => {
                    let v = FieldValue::McIgnorable(Some(s));
                    proof {
                        lemma_values_view_update(values@, 2, v);
                    }
                    values.set(2, v);
                    Ok(())
                },
                Err(e) => Err(e),
            },
            AttributeTarget::Namespace => match read_attribute_value(a) {
                Ok(s) => {
                    let ghost before = values@;
                    let old_value = replace_at(values, 1, FieldValue::Xmlns(None));
                    match old_value {
                        FieldValue::XmlnsMap(m) => {
                            let mut m = m;
                            let prefix = "xmlns:".as_bytes();
                            let rest = bytes_from(a.key.as_slice(), prefix.len());
                            let key = from_utf8_lossy(rest.as_slice());
                            insert_namespace(&mut m, key, s);
                            let v = FieldValue::XmlnsMap(m);
                            proof {
                                lemma_values_view_update(before, 1, v);
                                assert(values@.update(1, v) =~= before.update(1, v));
                            }
                            values.set(1, v);
                            Ok(())
                        },
                        other => {
                            values.set(1, other);
                            assert(values@ =~= before);
                            Ok(())
                        },
                    }
                },
                Err(e) => Err(e),
            },
            AttributeTarget::Ignored => Ok(()),
        }
    }

    /// Reads the attributes of the opening tag of an element.
    pub fn read_attributes(&self, plan: &TypePlan<'a>, tag: &StartTag) -> (r: Result<
        Vec<FieldValue>,
        SdkError,
    >)
        ensures
            match r {
                Ok(values) => values_of_tag(*self.context, plan.view(), *tag) == Ok::<
                    Seq<FieldValueView>,
                    SdkErrorView,
                >(all_values_view(values@)) && values@.len() == plan.view().fields.len(),
                Err(e) => values_of_tag(*self.context, plan.view(), *tag) == Err::<
                    Seq<FieldValueView>,
                    SdkErrorView,
                >(e@),
            },
    {
        let mut values = make_initial_values(&plan.deserializer.model.fields);
        let ghost init = initial_values(plan.view().fields);
        let ghost stepper = attribute_stepper(*self.context, plan.view());
        let ghost items = tag.attributes@;
        let mut i: usize = 0;
        assert(items.take(0) =~= Seq::empty());
        while i < tag.attributes.len()
            invariant
                i <= items.len(),
                items == tag.attributes@,
                init == initial_values(plan.view().fields),
                stepper == attribute_stepper(*self.context, plan.view()),
                values@.len() == plan.view().fields.len(),
                try_fold(items.take(i as int), init, stepper) == Ok::<
                    Seq<FieldValueView>,
                    SdkErrorView,
                >(all_values_view(values@)),
            decreases items.len() - i,
        {
            proof {
                lemma_try_fold_next(items, i as int, init, stepper);
            }
            let step: Result<(), SdkError> = match &tag.attributes[i] {
                Err(m) => Err(SdkError::AttrError(m.clone())),
                Ok(a) => self.read_attribute(plan, a, &mut values),
            };
            match step {
                Err(e) => {
                    proof {
                        lemma_try_fold_stops(items, i + 1, init, stepper);
                    }
                    return Err(e);
                },
                Ok(_) => {},
            }
            i += 1;
        }
        assert(items.take(i as int) =~= items);
        Ok(values)
    }
}

/// Where the child of an arm goes: the field, the type of the child,
/// whether the field is the list of the union, and whether it repeats.
pub struct ArmTarget {
    pub field: int,
    pub target: TypeRef,
    pub union: bool,
    pub repeated: bool,
}

/// The first field, from `from` on, of the child that the particle item
/// at `k` names.
pub open spec fn child_field_of(fields: Seq<Field>, k: int, from: int) -> Option<int>
    decreases fields.len() - from,
{
    if from < 0 || from >= fields.len() {
        None
    } else {
        match fields[from] {
            Field::Child { item, child, target, occurrence } => if item == k {
                Some(from)
            } else {
                child_field_of(fields, k, from + 1)
            },
            _ => child_field_of(fields, k, from + 1),
        }
    }
}

/// The first field, from `from` on, that is the list of the union.
pub open spec fn children_field(fields: Seq<Field>, from: int) -> Option<int>
    decreases fields.len() - from,
{
    if from < 0 || from >= fields.len() {
        None
    } else if fields[from] == Field::Children {
        Some(from)
    } else {
        children_field(fields, from + 1)
    }
}

/// The first field, from `from` on, that is the text content.
pub open spec fn content_field(fields: Seq<Field>, from: int) -> Option<int>
    decreases fields.len() - from,
{
    if from < 0 || from >= fields.len() {
        None
    } else {
        match fields[from] {
            Field::XmlContent { kind } => Some(from),
            _ => content_field(fields, from + 1),
        }
    }
}

/// Where the child of the arm at `k` goes: to the list of the union where
/// the arm is a variant's, else to the field of its particle item.
pub open spec fn arm_target(plan: Plan, k: int) -> Option<ArmTarget> {
    if 0 <= k < plan.variants.len() {
        match children_field(plan.fields, 0) {
            Some(f) => Some(
                ArmTarget { field: f, target: plan.variants[k].target, union: true, repeated: true },
            ),
            None => None,
        }
    } else {
        match child_field_of(plan.fields, k, 0) {
            Some(f) => match plan.fields[f] {
                Field::Child { item, child, target, occurrence } => Some(
                    ArmTarget {
                        field: f,
                        target,
                        union: false,
                        repeated: occurrence == Occurrence::Repeated,
                    },
                ),
                _ => None,
            },
            None => None,
        }
    }
}

/// The values of an element after a child is stored: the list of the
/// union and a repeated child get one more element, any other child is
/// replaced.
pub open spec fn stored(values: Seq<FieldValueView>, t: ArmTarget, k: int, child: ElementView)
    -> Seq<FieldValueView> {
    if 0 <= t.field < values.len() {
        match values[t.field] {
            FieldValueView::Children(cs) => if t.union {
                values.update(t.field, FieldValueView::Children(cs.push((k, child))))
            } else {
                values
            },
            FieldValueView::Child(es) => if t.union {
                values
            } else if t.repeated {
                values.update(t.field, FieldValueView::Child(es.push(child)))
            } else {
                values.update(t.field, FieldValueView::Child(seq![child]))
            },
            _ => values,
        }
    } else {
        values
    }
}

/// The name of the field of a child: its property name, or the tag of
/// the child with its prefix where it has none.
pub open spec fn child_field_name(c: OpenXmlSchemaTypeChild) -> Seq<char> {
    if c.property_name@.len() > 0 {
        c.property_name@
    } else {
        match split_once(c.name@, '/') {
            Some(p) => p.1,
            None => c.name@,
        }
    }
}

/// The name of the first required child, from `from` on, that is not
/// there.
pub open spec fn missing_child(plan: Plan, values: Seq<FieldValueView>, from: int) -> Option<
    Seq<char>,
>
    decreases plan.fields.len() - from,
{
    if from < 0 || from >= plan.fields.len() || from >= values.len() {
        None
    } else {
        match plan.fields[from] {
            Field::Child { item, child, target, occurrence } => if occurrence
                == Occurrence::Required && values[from] == FieldValueView::Child(Seq::empty()) {
                Some(
                    if child < plan.owner.children@.len() {
                        child_field_name(plan.owner.children@[child as int])
                    } else {
                        Seq::empty()
                    },
                )
            } else {
                missing_child(plan, values, from + 1)
            },
            _ => missing_child(plan, values, from + 1),
        }
    }
}

/// The attribute that a field stands for.
pub open spec fn attribute_of(plan: Plan, inherited: bool, index: usize) -> Option<
    OpenXmlSchemaTypeAttribute,
> {
    if inherited {
        if index < plan.inherited.len() {
            Some(plan.inherited[index as int])
        } else {
            None
        }
    } else {
        if index < plan.ty.attributes@.len() {
            Some(plan.ty.attributes@[index as int])
        } else {
            None
        }
    }
}

/// The name of the first required attribute, from `from` on, that is not
/// there.
pub open spec fn missing_attribute(plan: Plan, values: Seq<FieldValueView>, from: int) -> Option<
    Seq<char>,
>
    decreases plan.fields.len() - from,
{
    if from < 0 || from >= plan.fields.len() || from >= values.len() {
        None
    } else {
        match plan.fields[from] {
            Field::Attribute { inherited, index, kind, required } => if required && values[from]
                == FieldValueView::Attribute(None) {
                Some(
                    match attribute_of(plan, inherited, index) {
                        Some(a) => trim_one_prefix(a.q_name@, ':'),
                        None => Seq::empty(),
                    },
                )
            } else {
                missing_attribute(plan, values, from + 1)
            },
            _ => missing_attribute(plan, values, from + 1),
        }
    }
}

/// The name of the first required field that is not set: the required
/// children come first, in the order of the fields, then the required
/// attributes.
pub open spec fn missing_required(plan: Plan, values: Seq<FieldValueView>) -> Option<Seq<char>> {
    match missing_child(plan, values, 0) {
        Some(name) => Some(name),
        None => missing_attribute(plan, values, 0),
    }
}

/// The element of a type that an opening tag starts: the attributes of
/// the tag are read; unless the tag closes itself, the events up to the
/// closing tag are read; then every required field must be set, else the
/// error names the first that is not. The second component is the
/// position behind the element.
pub open spec fn parsed_element(
    ctx: GenContext,
    ds: Seq<Vec<Option<TypeDeserializer>>>,
    at: TypeRef,
    tag: StartTag,
    empty: bool,
    events: Seq<XmlEvent>,
    pos: int,
) -> Result<(ElementView, int), SdkErrorView>
    decreases events.len() - pos, 1int,
{
    match plan_of(ctx, ds, at) {
        None => Err(SdkErrorView::UnknownError),
        Some(plan) => match values_of_tag(ctx, plan, tag) {
            Err(e) => Err(e),
            Ok(values) => match (if empty {
                Ok::<(Seq<FieldValueView>, int), SdkErrorView>((values, pos))
            } else {
                parsed_children(ctx, ds, at, events, pos, values)
            }) {
                Err(e) => Err(e),
                Ok((after, next)) => match missing_required(plan, after) {
                    Some(name) => Err(SdkErrorView::CommonError(name)),
                    None => Ok((ElementView { at, values: after }, next)),
                },
            },
        },
    }
}

/// The values of an element after the events from `pos` up to its closing
/// tag are read. An opening tag is dispatched: the child that it starts
/// is read and stored, a tag that no arm takes is an error, and a type
/// without arms passes it over. The first text, with the references and
/// texts that follow it at once, is the content of a leaf with text. The closing tag of the type, with or without its prefix,
/// ends the reading; the end of the text before it is an error. Any other
/// event is passed over.
pub open spec fn parsed_children(
    ctx: GenContext,
    ds: Seq<Vec<Option<TypeDeserializer>>>,
    at: TypeRef,
    events: Seq<XmlEvent>,
    pos: int,
    values: Seq<FieldValueView>,
) -> Result<(Seq<FieldValueView>, int), SdkErrorView>
    decreases events.len() - pos, 0int,
{
    match plan_of(ctx, ds, at) {
        None => Err(SdkErrorView::UnknownError),
        Some(plan) => if pos < 0 || pos >= events.len() {
            Err(SdkErrorView::UnknownError)
        } else {
            match events[pos] {
                XmlEvent::End(name) => if tag_matches(
                    name@,
                    encode_utf8(prefixed_tag_of(plan.ty.name@)),
                    encode_utf8(local_tag_of(plan.ty.name@)),
                ) {
                    Ok((values, pos + 1))
                } else {
                    parsed_children(ctx, ds, at, events, pos + 1, values)
                },
                XmlEvent::Text(_) => match with_content(ctx, plan, values, events, pos) {
                    Ok(v) => parsed_children(ctx, ds, at, events, pos + 1, v),
                    Err(e) => Err(e),
                },
                XmlEvent::Reference(_) => match with_content(ctx, plan, values, events, pos) {
                    Ok(v) => parsed_children(ctx, ds, at, events, pos + 1, v),
                    Err(e) => Err(e),
                },
                XmlEvent::Eof => Err(SdkErrorView::UnknownError),
                XmlEvent::Failure(m) => Err(failure_error(m)),
                XmlEvent::Other => parsed_children(ctx, ds, at, events, pos + 1, values),
                _ => match dispatched(
                    plan.owner.children@,
                    plan.arms,
                    plan.ty.class_name@,
                    opening_tag(events[pos])->Some_0.name@,
                ) {
                    Err(e) => Err(e),
                    Ok(None) => parsed_children(ctx, ds, at, events, pos + 1, values),
                    Ok(Some(k)) => match arm_target(plan, k) {
                        None => Err(SdkErrorView::UnknownError),
                        Some(t) => match parsed_element(
                            ctx,
                            ds,
                            t.target,
                            opening_tag(events[pos])->Some_0,
                            events[pos] is Empty,
                            events,
                            pos + 1,
                        ) {
                            Err(e) => Err(e),
                            Ok((child, next)) => if next <= pos || next > events.len() {
                                Err(SdkErrorView::UnknownError)
                            } else {
                                parsed_children(
                                    ctx,
                                    ds,
                                    at,
                                    events,
                                    next,
                                    stored(values, t, k, child),
                                )
                            },
                        },
                    },
                },
            }
        },
    }
}

/// The values of an element after a piece of text at `pos` is read: if
/// the type has text content and none is set yet, the content is what
/// the pieces from `pos` on stand for; else nothing changes.
pub open spec fn with_content(
    ctx: GenContext,
    plan: Plan,
    values: Seq<FieldValueView>,
    events: Seq<XmlEvent>,
    pos: int,
) -> Result<Seq<FieldValueView>, SdkErrorView> {
    match content_target(plan, values) {
        Some((k, kind)) => match ctx.content_scalar(kind, events, pos) {
            Ok(s) => Ok(values.update(k, FieldValueView::XmlContent(Some(s)))),
            Err(e) => Err(e),
        },
        None => Ok(values),
    }
}

/// Where the text content of an element goes, if the type has text
/// content and none is set yet: the field and its kind.
pub open spec fn content_target(plan: Plan, values: Seq<FieldValueView>) -> Option<
    (int, ContentKind),
> {
    match content_field(plan.fields, 0) {
        Some(k) => match plan.fields[k] {
            Field::XmlContent { kind } => if k < values.len() && values[k]
                == FieldValueView::XmlContent(None) {
                Some((k, kind))
            } else {
                None
            },
            _ => None,
        },
        None => None,
    }
}

/// The element of a type read from the events of a document: from the
/// opening tag that the caller has already read, or from the next opening
/// tag, which must be the tag of the type, with or without its prefix.
pub open spec fn parsed(
    ctx: GenContext,
    ds: Seq<Vec<Option<TypeDeserializer>>>,
    at: TypeRef,
    events: Seq<XmlEvent>,
    pos: int,
    peeked: Option<(StartTag, bool)>,
) -> Result<(ElementView, int), SdkErrorView> {
    match plan_of(ctx, ds, at) {
        None => Err(SdkErrorView::UnknownError),
        Some(plan) => match expected_start(
            events,
            pos,
            peeked,
            encode_utf8(prefixed_tag_of(plan.ty.name@)),
            encode_utf8(local_tag_of(plan.ty.name@)),
        ) {
            Err(e) => Err(e),
            Ok((tag, empty, next)) => parsed_element(ctx, ds, at, tag, empty, events, next),
        },
    }
}

/// Where the child of an arm goes, as the parser holds it.
pub struct Target {
    pub field: usize,
    pub target: TypeRef,
    pub union: bool,
    pub repeated: bool,
}

impl Target {
    pub open spec fn view(&self) -> ArmTarget {
        ArmTarget {
            field: self.field as int,
            target: self.target,
            union: self.union,
            repeated: self.repeated,
        }
    }
}

fn find_child_field(fields: &Vec<Field>, k: usize) -> (r: Option<usize>)
    ensures
        match r {
            Some(f) => child_field_of(fields@, k as int, 0) == Some(f as int) && f < fields@.len(),
            None => child_field_of(fields@, k as int, 0) is None,
        },
{
    let mut f: usize = 0;
    while f < fields.len()
        invariant
            f <= fields@.len(),
            child_field_of(fields@, k as int, 0) == child_field_of(fields@, k as int, f as int),
        decreases fields@.len() - f,
    {
        match fields[f] {
            Field::Child { item, child, target, occurrence } => {
                if item == k {
                    return Some(f);
                }
            },
            _ => {},
        }
        f += 1;
    }
    None
}

fn find_children_field(fields: &Vec<Field>) -> (r: Option<usize>)
    ensures
        match r {
            Some(f) => children_field(fields@, 0) == Some(f as int) && f < fields@.len(),
            None => children_field(fields@, 0) is None,
        },
{
    let mut f: usize = 0;
    while f < fields.len()
        invariant
            f <= fields@.len(),
            children_field(fields@, 0) == children_field(fields@, f as int),
        decreases fields@.len() - f,
    {
        if fields[f] == Field::Children {
            return Some(f);
        }
        f += 1;
    }
    None
}

fn find_content_field(fields: &Vec<Field>) -> (r: Option<usize>)
    ensures
        match r {
            Some(f) => content_field(fields@, 0) == Some(f as int) && f < fields@.len(),
            None => content_field(fields@, 0) is None,
        },
{
    let mut f: usize = 0;
    while f < fields.len()
        invariant
            f <= fields@.len(),
            content_field(fields@, 0) == content_field(fields@, f as int),
        decreases fields@.len() - f,
    {
        match fields[f] {
            Field::XmlContent { kind } => {
                return Some(f);
            },
            _ => {},
        }
        f += 1;
    }
    None
}

fn find_arm_target(plan: &TypePlan<'_>, k: usize) -> (r: Option<Target>)
    ensures
        match r {
            Some(t) => arm_target(plan.view(), k as int) == Some(t.view()) && t.field
                < plan.view().fields.len(),
            None => arm_target(plan.view(), k as int) is None,
        },
{
    let model = &plan.deserializer.model;
    if k < model.variants.len() {
        match find_children_field(&model.fields) {
            Some(f) => Some(
                Target { field: f, target: model.variants[k].target, union: true, repeated: true },
            ),
            None => None,
        }
    } else {
        match find_child_field(&model.fields, k) {
            Some(f) => match model.fields[f] {
                Field::Child { item, child, target, occurrence } => Some(
                    Target {
                        field: f,
                        target,
                        union: false,
                        repeated: occurrence == Occurrence::Repeated,
                    },
                ),
                _ => None,
            },
            None => None,
        }
    }
}

/// Stores a child in the values of an element.
fn store_child(values: &mut Vec<FieldValue>, t: &Target, k: usize, child: Element)
    requires
        t.field < old(values)@.len(),
    ensures
        final(values)@.len() == old(values)@.len(),
        all_values_view(final(values)@) == stored(
            all_values_view(old(values)@),
            t.view(),
            k as int,
            child@,
        ),
{
    let ghost before = values@;
    proof {
        lemma_values_view(before, before.len() as int);
    }
    let old_value = replace_at(values, t.field, FieldValue::Xmlns(None));
    let new_value = match old_value {
        FieldValue::Children(cs) => {
            if t.union {
                let mut cs = cs;
                proof {
                    lemma_children_view_push(cs@, ChildElement { variant: k, element: child });
                }
                cs.push(ChildElement { variant: k, element: child });
                FieldValue::Children(cs)
            } else {
                FieldValue::Children(cs)
            }
        },
        FieldValue::Child(es) => {
            if t.union {
                FieldValue::Child(es)
            } else if t.repeated {
                let mut es = es;
                proof {
                    lemma_elements_view_push(es@, child);
                }
                es.push(child);
                FieldValue::Child(es)
            } else {
                let mut one: Vec<Element> = Vec::new();
                proof {
                    lemma_elements_view_push(one@, child);
                }
                one.push(child);
                assert(elements_view(one@, 1) =~= seq![child@]);
                FieldValue::Child(one)
            }
        },
        other => other,
    };
    proof {
        lemma_values_view_update(before, t.field as int, new_value);
        assert(values@.update(t.field as int, new_value) =~= before.update(
            t.field as int,
            new_value,
        ));
        assert(before.update(t.field as int, before[t.field as int]) =~= before);
    }
    values.set(t.field, new_value);
}

/// The name of the field of a child.
fn child_name(c: &OpenXmlSchemaTypeChild) -> (r: String)
    ensures
        r@ == child_field_name(*c),
{
    if !c.property_name.as_str().is_empty() {
        c.property_name.clone()
    } else {
        match str_split_once(c.name.as_str(), '/') {
            Some((_, tag)) => tag.to_owned(),
            None => c.name.clone(),
        }
    }
}

fn value_is_unset(v: &FieldValue) -> (r: bool)
    ensures
        r == (value_view(*v) == FieldValueView::Attribute(None)),
{
    match v {
        FieldValue::Attribute(None) => true,
        _ => false,
    }
}

fn value_is_empty_child(v: &FieldValue) -> (r: bool)
    ensures
        r == (value_view(*v) == FieldValueView::Child(Seq::empty())),
{
    match v {
        FieldValue::Child(es) => {
            proof {
                crate::document::lemma_elements_view(es@, es@.len() as int);
            }
            es.len() == 0
        },
        _ => false,
    }
}

fn value_is_unset_content(v: &FieldValue) -> (r: bool)
    ensures
        r == (value_view(*v) == FieldValueView::XmlContent(None)),
{
    match v {
        FieldValue::XmlContent(None) => true,
        _ => false,
    }
}

/// Checks that every required field of an element is set.
fn check_required(plan: &TypePlan<'_>, values: &Vec<FieldValue>) -> (r: Result<(), SdkError>)
    ensures
        match r {
            Ok(_) => missing_required(plan.view(), all_values_view(values@)) is None,
            Err(e) => missing_required(plan.view(), all_values_view(values@)) matches Some(name)
                && e@ == SdkErrorView::CommonError(name),
        },
{
    let fields = &plan.deserializer.model.fields;
    let ghost view = all_values_view(values@);
    proof {
        lemma_values_view(values@, values@.len() as int);
    }
    let mut f: usize = 0;
    while f < fields.len() && f < values.len()
        invariant
            f <= fields@.len(),
            fields@ == plan.view().fields,
            view == all_values_view(values@),
            view.len() == values@.len(),
            forall|i: int| 0 <= i < values@.len() ==> #[trigger] view[i] == value_view(values@[i]),
            missing_child(plan.view(), view, 0) == missing_child(plan.view(), view, f as int),
        decreases fields@.len() - f,
    {
        match fields[f] {
            Field::Child { item, child, target, occurrence } => {
                if occurrence == Occurrence::Required && value_is_empty_child(&values[f]) {
                    if child < plan.owner.children.len() {
                        return Err(SdkError::CommonError(child_name(&plan.owner.children[child])));
                    } else {
                        return Err(SdkError::CommonError(String::new()));
                    }
                }
            },
            _ => {},
        }
        f += 1;
    }
    let none: Vec<OpenXmlSchemaTypeAttribute> = Vec::new();
    let inherited_attributes = match plan.base {
        Some(b) => &b.attributes,
        None => &none,
    };
    let mut g: usize = 0;
    while g < fields.len() && g < values.len()
        invariant
            g <= fields@.len(),
            fields@ == plan.view().fields,
            inherited_attributes@ == plan.view().inherited,
            view == all_values_view(values@),
            view.len() == values@.len(),
            forall|i: int| 0 <= i < values@.len() ==> #[trigger] view[i] == value_view(values@[i]),
            missing_child(plan.view(), view, 0) is None,
            missing_attribute(plan.view(), view, 0) == missing_attribute(
                plan.view(),
                view,
                g as int,
            ),
        decreases fields@.len() - g,
    {
        match fields[g] {
            Field::Attribute { inherited, index, kind, required } => {
                if required && value_is_unset(&values[g]) {
                    let list = if inherited {
                        inherited_attributes
                    } else {
                        &plan.ty.attributes
                    };
                    if index < list.len() {
                        return Err(SdkError::CommonError(list[index].as_name_str().to_owned()));
                    } else {
                        return Err(SdkError::CommonError(String::new()));
                    }
                }
            },
            _ => {},
        }
        g += 1;
    }
    Ok(())
}

impl<'a> Codec<'a> {
    /// Sets the text content of an element, if the type has text content
    /// and none is set yet.
    fn set_content(
        &self,
        plan: &TypePlan<'a>,
        values: &mut Vec<FieldValue>,
        events: &Vec<XmlEvent>,
        pos: usize,
    ) -> (r: Result<(), SdkError>)
        ensures
            final(values)@.len() == old(values)@.len(),
            match with_content(
                *self.context,
                plan.view(),
                all_values_view(old(values)@),
                events@,
                pos as int,
            ) {
                Ok(v) => r is Ok && all_values_view(final(values)@) == v,
                Err(e) => r is Err && r->Err_0@ == e,
            },
    {
        proof {
            lemma_values_view(values@, values@.len() as int);
        }
        match find_content_field(&plan.deserializer.model.fields) {
            Some(k) => match plan.deserializer.model.fields[k] {
                Field::XmlContent { kind } => {
                    if k < values.len() && value_is_unset_content(&values[k]) {
                        match self.context.read_content(kind, events, pos) {
                            Ok(s) => {
                                let v = FieldValue::XmlContent(Some(s));
                                proof {
                                    lemma_values_view_update(values@, k as int, v);
                                }
                                values.set(k, v);
                                Ok(())
                            },
                            Err(e) => Err(e),
                        }
                    } else {
                        Ok(())
                    }
                },
                _ => Ok(()),
            },
            None => Ok(()),
        }
    }

    /// Reads the element of a type that an opening tag starts.
    #[verifier::loop_isolation(false)]
    pub fn parse_element(
        &self,
        at: TypeRef,
        tag: &StartTag,
        empty: bool,
        events: &Vec<XmlEvent>,
        pos: usize,
    ) -> (r: Result<(Element, usize), SdkError>)
        requires
            pos <= events@.len(),
        ensures
            match r {
                Ok((e, next)) => parsed_element(
                    *self.context,
                    self.deserializers@,
                    at,
                    *tag,
                    empty,
                    events@,
                    pos as int,
                ) == Ok::<(ElementView, int), SdkErrorView>((e@, next as int)) && pos <= next
                    <= events@.len(),
                Err(e) => parsed_element(
                    *self.context,
                    self.deserializers@,
                    at,
                    *tag,
                    empty,
                    events@,
                    pos as int,
                ) == Err::<(ElementView, int), SdkErrorView>(e@),
            },
        decreases events@.len() - pos, 1int,
    {
        let ghost ctx = *self.context;
        let ghost ds = self.deserializers@;
        let plan = match self.find_plan(at) {
            Some(p) => p,
            None => {
                return Err(SdkError::UnknownError);
            },
        };
        let mut values = match self.read_attributes(&plan, tag) {
            Ok(v) => v,
            Err(e) => {
                return Err(e);
            },
        };
        let ghost first = all_values_view(values@);
        let mut i: usize = pos;
        let mut done = empty;
        while !done
            invariant
                pos <= i <= events@.len(),
                values@.len() == plan.view().fields.len(),
                empty ==> done && i == pos && all_values_view(values@) == first,
                !empty ==> if done {
                    parsed_children(ctx, ds, at, events@, pos as int, first) == Ok::<
                        (Seq<FieldValueView>, int),
                        SdkErrorView,
                    >((all_values_view(values@), i as int))
                } else {
                    parsed_children(ctx, ds, at, events@, pos as int, first) == parsed_children(
                        ctx,
                        ds,
                        at,
                        events@,
                        i as int,
                        all_values_view(values@),
                    )
                },
            decreases
                    events@.len() - i + if done {
                        0int
                    } else {
                        1int
                    },
        {
            if i >= events.len() {
                return Err(SdkError::UnknownError);
            }
            let mut next: usize = i + 1;
            match &events[i] {
                XmlEvent::End(name) => {
                    if matches_tag(
                        name.as_slice(),
                        plan.prefixed.as_bytes(),
                        plan.local.as_bytes(),
                    ) {
                        done = true;
                    }
                },
                XmlEvent::Text(_) => {
                    match self.set_content(&plan, &mut values, events, i) {
                        Ok(_) => {},
                        Err(e) => {
                            return Err(e);
                        },
                    }
                },
                XmlEvent::Reference(_) => {
                    match self.set_content(&plan, &mut values, events, i) {
                        Ok(_) => {},
                        Err(e) => {
                            return Err(e);
                        },
                    }
                },
                XmlEvent::Eof => {
                    return Err(SdkError::UnknownError);
                },
                XmlEvent::Failure(m) => {
                    return Err(SdkError::QuickXmlError(m.clone()));
                },
                XmlEvent::Other => {},
                XmlEvent::Start(t) => {
                    match self.read_child(&plan, t, false, events, i, &mut values) {
                        Ok(n) => {
                            next = n;
                        },
                        Err(e) => {
                            return Err(e);
                        },
                    }
                },
                XmlEvent::Empty(t) => {
                    match self.read_child(&plan, t, true, events, i, &mut values) {
                        Ok(n) => {
                            next = n;
                        },
                        Err(e) => {
                            return Err(e);
                        },
                    }
                },
            }
            i = next;
        }
        match check_required(&plan, &values) {
            Err(e) => Err(e),
            Ok(_) => Ok((Element { at, values }, i)),
        }
    }

    /// Dispatches the opening tag of a child at `i`, reads the child and
    /// stores it; gives the position behind the child.
    fn read_child(
        &self,
        plan: &TypePlan<'a>,
        t: &StartTag,
        child_empty: bool,
        events: &Vec<XmlEvent>,
        i: usize,
        values: &mut Vec<FieldValue>,
    ) -> (r: Result<usize, SdkError>)
        requires
            i < events@.len(),
            opening_tag(events@[i as int]) == Some(*t),
            child_empty == (events@[i as int] is Empty),
            old(values)@.len() == plan.view().fields.len(),
        ensures
            final(values)@.len() == old(values)@.len(),
            match dispatched(
                plan.view().owner.children@,
                plan.view().arms,
                plan.view().ty.class_name@,
                t.name@,
            ) {
                Err(e) => r is Err && r->Err_0@ == e,
                Ok(None) => r == Ok::<usize, SdkError>((i + 1) as usize) && final(values)@ == old(
                    values,
                )@,
                Ok(Some(k)) => match arm_target(plan.view(), k) {
                    None => r is Err && r->Err_0@ == SdkErrorView::UnknownError,
                    Some(target) => match parsed_element(
                        *self.context,
                        self.deserializers@,
                        target.target,
                        *t,
                        child_empty,
                        events@,
                        i + 1,
                    ) {
                        Err(e) => r is Err && r->Err_0@ == e,
                        Ok((child, next)) => r == Ok::<usize, SdkError>(next as usize) && i < next
                            <= events@.len() && all_values_view(final(values)@) == stored(
                            all_values_view(old(values)@),
                            target,
                            k,
                            child,
                        ),
                    },
                },
            },
        decreases events@.len() - i, 0int,
    {
        let count: usize = events.len();
        assert(i < count);
        match dispatch_child(
            &plan.owner.children,
            &plan.deserializer.arms,
            plan.ty.class_name.as_str(),
            t.name.as_slice(),
        ) {
            Err(e) => Err(e),
            Ok(None) => Ok(i + 1),
            Ok(Some(k)) => match find_arm_target(plan, k) {
                None => Err(SdkError::UnknownError),
                Some(target) => match self.parse_element(target.target, t, child_empty, events, i + 1) {
                    Err(e) => Err(e),
                    Ok((child, next)) => {
                        store_child(values, &target, k, child);
                        Ok(next)
                    },
                },
            },
        }
    }

    /// Reads the element of a type from the events of a document.
    pub fn deserialize_inner(
        &self,
        at: TypeRef,
        events: &Vec<XmlEvent>,
        pos: usize,
        xml_event: Option<(&StartTag, bool)>,
    ) -> (r: Result<(Element, usize), SdkError>)
        requires
            pos <= events@.len(),
        ensures
            match r {
                Ok((e, next)) => parsed(
                    *self.context,
                    self.deserializers@,
                    at,
                    events@,
                    pos as int,
                    match xml_event {
                        Some((t0, e0)) => Some((*t0, e0)),
                        None => None,
                    },
                ) == Ok::<(ElementView, int), SdkErrorView>((e@, next as int)) && pos <= next
                    <= events@.len(),
                Err(e) => parsed(
                    *self.context,
                    self.deserializers@,
                    at,
                    events@,
                    pos as int,
                    match xml_event {
                        Some((t0, e0)) => Some((*t0, e0)),
                        None => None,
                    },
                ) == Err::<(ElementView, int), SdkErrorView>(e@),
            },
    {
        let plan = match self.find_plan(at) {
            Some(p) => p,
            None => {
                return Err(SdkError::UnknownError);
            },
        };
        let (tag, empty, next) = match expect_event_start(
            events,
            pos,
            xml_event,
            plan.prefixed.as_bytes(),
            plan.local.as_bytes(),
        ) {
            Ok(v) => v,
            Err(e) => {
                return Err(e);
            },
        };
        self.parse_element(at, tag, empty, events, next)
    }

    /// Reads the element of a type from a text: the element is read from
    /// the events of the text.
    pub fn from_str(&self, at: TypeRef, text: &str) -> (r: Result<Element, SdkError>)
        ensures
            match r {
                Ok(v) => parsed(
                    *self.context,
                    self.deserializers@,
                    at,
                    crate::common::xml_events(text@),
                    0,
                    None,
                ) matches Ok(p) && p.0 == v@,
                Err(e) => parsed(
                    *self.context,
                    self.deserializers@,
                    at,
                    crate::common::xml_events(text@),
                    0,
                    None,
                ) == Err::<(ElementView, int), SdkErrorView>(e@),
            },
    {
        let events = crate::common::tokenize(text);
        match self.deserialize_inner(at, &events, 0, None) {
            Ok((e, _)) => Ok(e),
            Err(e) => Err(e),
        }
    }
}

} // verus!
