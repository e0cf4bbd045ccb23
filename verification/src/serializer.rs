//! The serializer contract: for each concrete type what it writes between
//! its tags, and the text of an enumeration's facets.

use crate::context::GenContext;
use crate::models::{has_local_tag, OpenXmlSchema, OpenXmlSchemaEnum, OpenXmlSchemaType};
use crate::open_xml_schema::{Field, ModelView, TypeModel};
use crate::sequence::{lemma_try_build_stops, try_build};
use crate::text::str_split_once;
use crate::utils::{missing, BuildError, BuildErrorView};
use vstd::prelude::*;

verus! {

/// What a type writes between its opening and its closing tag.
#[derive(Clone, Copy, Debug, PartialEq, Eq, Structural)]
pub enum Inner {
    /// Nothing: the element closes itself.
    Nothing,
    /// Its text content, escaped.
    Text,
    /// Its child fields in the order of the particle: a required child
    /// always, an optional child if it is there, a repeated child once for
    /// each element of its list.
    Sequence,
    /// The elements of its list of children, in the order of the document.
    Union,
}

/// What a field contributes to the content of an element.
pub open spec fn field_inner(f: Field) -> Inner {
    match f {
        Field::XmlContent { kind } => Inner::Text,
        Field::Child { item, child, target, occurrence } => Inner::Sequence,
        Field::Children => Inner::Union,
        _ => Inner::Nothing,
    }
}

/// What a type with the given fields writes between its tags: what the
/// first field that contributes anything contributes.
pub open spec fn inner_of(fields: Seq<Field>, from: int) -> Inner
    decreases fields.len() - from,
{
    if from < 0 || from >= fields.len() {
        Inner::Nothing
    } else if field_inner(fields[from]) != Inner::Nothing {
        field_inner(fields[from])
    } else {
        inner_of(fields, from + 1)
    }
}

/// The serializer of one type: the model of the type, whose fields give
/// the order of the attributes, and what the type writes between its
/// tags.
#[derive(Debug)]
pub struct TypeSerializer {
    pub model: TypeModel,
    pub inner: Inner,
}

/// The mathematical value of the serializer of a type.
pub struct SerializerView {
    pub model: ModelView,
    pub inner: Inner,
}

impl View for TypeSerializer {
    type V = SerializerView;

    open spec fn view(&self) -> SerializerView {
        SerializerView { model: self.model@, inner: self.inner }
    }
}

pub open spec fn serializer_views(ss: Seq<Option<TypeSerializer>>) -> Seq<Option<SerializerView>> {
    ss.map_values(
        |s: Option<TypeSerializer>|
            match s {
                Some(x) => Some(x@),
                None => None,
            },
    )
}

fn field_to_inner(f: &Field) -> (r: Inner)
    ensures
        r == field_inner(*f),
{
    match f {
        Field::XmlContent { kind } => Inner::Text,
        Field::Child { item, child, target, occurrence } => Inner::Sequence,
        Field::Children => Inner::Union,
        _ => Inner::Nothing,
    }
}

/// What a type with the given fields writes between its tags.
pub fn gen_inner_writer(fields: &Vec<Field>) -> (r: Inner)
    ensures
        r == inner_of(fields@, 0),
{
    let mut k: usize = 0;
    while k < fields.len()
        invariant
            k <= fields@.len(),
            inner_of(fields@, 0) == inner_of(fields@, k as int),
        decreases fields@.len() - k,
    {
        let inner = field_to_inner(&fields[k]);
        if inner != Inner::Nothing {
            return inner;
        }
        k += 1;
    }
    Inner::Nothing
}

/// The text of the facet at `i` of an enumeration: its value.
pub fn enum_to_text(e: &OpenXmlSchemaEnum, i: usize) -> (r: &str)
    requires
        i < e.facets@.len(),
    ensures
        r@ == e.facets@[i as int].value@,
{
    e.facets[i].value.as_str()
}

impl GenContext {
    /// The serializer of a type: the name of the type must have a tag
    /// with a prefix and a local name (else the error carries the name).
    pub open spec fn serializer(&self, schema: OpenXmlSchema, ty: OpenXmlSchemaType) -> Result<
        SerializerView,
        BuildErrorView,
    > {
        if !has_local_tag(ty.name@) {
            Err(BuildErrorView::HashMapExpectedSomeError(ty.name@))
        } else {
            match self.type_model(schema, ty) {
                Err(e) => Err(e),
                Ok(m) => Ok(SerializerView { model: m, inner: inner_of(m.fields, 0) }),
            }
        }
    }

    pub open spec fn serializer_at(&self, schema: OpenXmlSchema, t: int) -> Result<
        Option<SerializerView>,
        BuildErrorView,
    > {
        if schema.types@[t].is_abstract {
            Ok(None)
        } else {
            match self.serializer(schema, schema.types@[t]) {
                Ok(s) => Ok(Some(s)),
                Err(e) => Err(e),
            }
        }
    }

    pub open spec fn serializer_maker(&self, schema: OpenXmlSchema) -> spec_fn(int) -> Result<
        Option<SerializerView>,
        BuildErrorView,
    > {
        |t: int| self.serializer_at(schema, t)
    }

    /// The serializers of a schema: one for each type, in their order.
    pub open spec fn serializers(&self, schema: OpenXmlSchema) -> Result<
        Seq<Option<SerializerView>>,
        BuildErrorView,
    > {
        try_build(schema.types@.len() as int, self.serializer_maker(schema))
    }

    /// The serializer of one type.
    pub fn gen_type_serializer(&self, schema: &OpenXmlSchema, ty: &OpenXmlSchemaType) -> (r:
        Result<TypeSerializer, BuildError>)
        ensures
            match r {
                Ok(s) => self.serializer(*schema, *ty) == Ok::<SerializerView, BuildErrorView>(s@),
                Err(e) => self.serializer(*schema, *ty) == Err::<SerializerView, BuildErrorView>(
                    e@,
                ),
            },
    {
        let tagged = match str_split_once(ty.name.as_str(), '/') {
            Some((_, tag)) => str_split_once(tag, ':').is_some(),
            None => false,
        };
        if !tagged {
            return Err(missing(ty.name.as_str()));
        }
        match self.gen_schema_type(schema, ty) {
            Ok(model) => {
                let inner = gen_inner_writer(&model.fields);
                Ok(TypeSerializer { model, inner })
            },
            Err(e) => Err(e),
        }
    }
}

/// The serializers of a schema.
pub fn gen_serializer(schema: &OpenXmlSchema, gen_context: &GenContext) -> (r: Result<
    Vec<Option<TypeSerializer>>,
    BuildError,
>)
    ensures
        match r {
            Ok(ss) => gen_context.serializers(*schema) == Ok::<
                Seq<Option<SerializerView>>,
                BuildErrorView,
            >(serializer_views(ss@)),
            Err(e) => gen_context.serializers(*schema) == Err::<
                Seq<Option<SerializerView>>,
                BuildErrorView,
            >(e@),
        },
{
    let ghost item = gen_context.serializer_maker(*schema);
    let ghost n = schema.types@.len() as int;
    let mut out: Vec<Option<TypeSerializer>> = Vec::new();
    let mut t: usize = 0;
    assert(serializer_views(out@) =~= Seq::empty());
    while t < schema.types.len()
        invariant
            t <= schema.types@.len(),
            n == schema.types@.len(),
            item == gen_context.serializer_maker(*schema),
            try_build(t as int, item) == Ok::<Seq<Option<SerializerView>>, BuildErrorView>(
                serializer_views(out@),
            ),
        decreases schema.types@.len() - t,
    {
        let ghost before = serializer_views(out@);
        let ty = &schema.types[t];
        if ty.is_abstract {
            out.push(None);
            assert(serializer_views(out@) =~= before.push(None));
        } else {
            match gen_context.gen_type_serializer(schema, ty) {
                Ok(s) => {
                    let ghost v = s@;
                    out.push(Some(s));
                    assert(serializer_views(out@) =~= before.push(Some(v)));
                },
                Err(e) => {
                    proof {
                        assert(try_build(t + 1, item) is Err);
                        lemma_try_build_stops(n, t + 1, item);
                    }
                    return Err(e);
                },
            }
        }
        t += 1;
    }
    Ok(out)
}

} // verus!
