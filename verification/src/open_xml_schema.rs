//! The type model: for each concrete type of a schema its fields, in
//! order, with what each of them holds.

use crate::context::{find_in_schema, schema_enum_names, GenContext, SchemaList};
use crate::models::{
    is_qualified, last_child_named, occurrence_of, owner_of, Occurrence, OpenXmlSchema,
    OpenXmlSchemaEnum, OpenXmlSchemaType, OpenXmlSchemaTypeAttribute, OpenXmlSchemaTypeChild,
    TypedNamespace,
};
use crate::reduce_types::base_name_of;
use crate::sequence::{lemma_try_build_len, lemma_try_build_stops, try_build};
use crate::symbols::TypeRef;
use crate::tables::last_index;
use crate::text::{
    concat, rsplit_once, starts_with, str_rsplit_once, str_split_once, str_trim_end, trim_end,
};
use crate::utils::{missing, BuildError, BuildErrorView};
use vstd::prelude::*;
use vstd::string::StrSliceExecFns;

verus! {

/// The numbers that an attribute can hold.
#[derive(Clone, Copy, Debug, PartialEq, Eq, Structural)]
pub enum NumberKind {
    Byte,
    Int16,
    Int32,
    Int64,
    UInt16,
    UInt32,
    UInt64,
    Double,
    Single,
}

/// How the value of an attribute is kept.
#[derive(Clone, Copy, Debug, PartialEq, Eq, Structural)]
pub enum ValueKind {
    /// As text: lists, and the scalar kinds that are written as they are.
    Text,
    /// As a truth value, read from a fixed vocabulary.
    Boolean,
    /// As a number, read from its text.
    Number(NumberKind),
    /// As a facet of the enumeration at the given place.
    Enumeration(TypeRef),
}

/// How the text content of a leaf element is kept.
#[derive(Clone, Copy, Debug, PartialEq, Eq, Structural)]
pub enum ContentKind {
    /// As a facet of the enumeration at the given place.
    Enumeration(TypeRef),
    /// As the scalar that the first segment of the type's name stands for.
    Scalar,
}

/// One field of a type.
#[derive(Clone, Copy, Debug, PartialEq, Eq, Structural)]
pub enum Field {
    /// The default namespace of a root element.
    Xmlns,
    /// The prefixed namespaces of a root element.
    XmlnsMap,
    /// The ignorable prefixes of a root element.
    McIgnorable,
    /// An attribute: the one at `index` among the type's own attributes,
    /// or among those of its base type if it is inherited.
    Attribute { inherited: bool, index: usize, kind: ValueKind, required: bool },
    /// The text content of a leaf element.
    XmlContent { kind: ContentKind },
    /// A child element with a field of its own: the particle item, the
    /// child reference, the type of the child and how often it occurs.
    Child { item: usize, child: usize, target: TypeRef, occurrence: Occurrence },
    /// The list of all child elements, each a variant of the type's union.
    Children,
}

/// One variant of the union of a type's children: the child reference and
/// the type of the child.
#[derive(Clone, Copy, Debug, PartialEq, Eq, Structural)]
pub struct Variant {
    pub child: usize,
    pub target: TypeRef,
}

/// The model of one type.
#[derive(Debug)]
pub struct TypeModel {
    /// The base type, if the type is derived.
    pub base: Option<TypeRef>,
    /// Whether the child references are those of the base type.
    pub children_of_base: bool,
    pub fields: Vec<Field>,
    pub variants: Vec<Variant>,
}

/// The mathematical value of the model of a type.
pub struct ModelView {
    pub base: Option<TypeRef>,
    pub children_of_base: bool,
    pub fields: Seq<Field>,
    pub variants: Seq<Variant>,
}

impl View for TypeModel {
    type V = ModelView;

    open spec fn view(&self) -> ModelView {
        ModelView {
            base: self.base,
            children_of_base: self.children_of_base,
            fields: self.fields@,
            variants: self.variants@,
        }
    }
}

/// The model of an enumeration: how many facets it has, one variant for
/// each in their order, and which of them is the default value, which is
/// the first.
#[derive(Clone, Copy, Debug, PartialEq, Eq, Structural)]
pub struct EnumModel {
    pub facets: usize,
    pub default_facet: usize,
}

/// The model of an enumeration with the given number of facets, which is
/// not zero: the first facet is the default.
pub open spec fn enum_model_of(facets: int) -> EnumModel {
    EnumModel { facets: facets as usize, default_facet: 0 }
}

/// The model of a schema: for each of its types the model of the type, or
/// nothing where the type is abstract; and the models of its
/// enumerations.
#[derive(Debug)]
pub struct SchemaModel {
    pub types: Vec<Option<TypeModel>>,
    pub enums: Vec<EnumModel>,
}

/// The mathematical value of the model of a schema.
pub struct SchemaModelView {
    pub types: Seq<Option<ModelView>>,
    pub enums: Seq<EnumModel>,
}

pub open spec fn model_views(models: Seq<Option<TypeModel>>) -> Seq<Option<ModelView>> {
    models.map_values(
        |m: Option<TypeModel>|
            match m {
                Some(x) => Some(x@),
                None => None,
            },
    )
}

impl View for SchemaModel {
    type V = SchemaModelView;

    open spec fn view(&self) -> SchemaModelView {
        SchemaModelView { types: model_views(self.types@), enums: self.enums@ }
    }
}

/// The base classes of the types that have child elements.
pub open spec fn is_composite_class(base_class: Seq<char>) -> bool {
    base_class == "OpenXmlCompositeElement"@ || base_class == "CustomXmlElement"@ || base_class
        == "OpenXmlPartRootElement"@ || base_class == "SdtElement"@
}

/// Whether a type with child elements carries the namespace declarations:
/// it is bound to a part, or is the root element of one, or belongs to
/// one of the two drawing namespaces.
pub open spec fn carries_xmlns(ty: OpenXmlSchemaType, schema: OpenXmlSchema) -> bool {
    ty.part@.len() > 0 || ty.base_class@ == "OpenXmlPartRootElement"@ || schema.target_namespace@
        == "http://schemas.openxmlformats.org/drawingml/2006/main"@ || schema.target_namespace@
        == "http://schemas.openxmlformats.org/drawingml/2006/picture"@
}

/// The three fields of the namespace declarations, where they are carried.
pub open spec fn xmlns_fields(carried: bool) -> Seq<Field> {
    if carried {
        seq![Field::Xmlns, Field::XmlnsMap, Field::McIgnorable]
    } else {
        Seq::empty()
    }
}

pub fn is_composite(ty: &OpenXmlSchemaType) -> (r: bool)
    ensures
        r == is_composite_class(ty.base_class@),
{
    let c = ty.base_class.as_str();
    c.eq("OpenXmlCompositeElement") || c.eq("CustomXmlElement") || c.eq("OpenXmlPartRootElement")
        || c.eq("SdtElement")
}

pub fn does_carry_xmlns(ty: &OpenXmlSchemaType, schema: &OpenXmlSchema) -> (r: bool)
    ensures
        r == carries_xmlns(*ty, *schema),
{
    !ty.part.as_str().is_empty() || ty.base_class.as_str().eq("OpenXmlPartRootElement")
        || schema.target_namespace.as_str().eq(
        "http://schemas.openxmlformats.org/drawingml/2006/main",
    ) || schema.target_namespace.as_str().eq(
        "http://schemas.openxmlformats.org/drawingml/2006/picture",
    )
}

/// The scalar kind that a name stands for.
pub open spec fn scalar_kind(name: Seq<char>) -> Option<ValueKind> {
    if name == "Base64BinaryValue"@ || name == "DateTimeValue"@ || name == "DecimalValue"@ || name
        == "HexBinaryValue"@ || name == "IntegerValue"@ || name == "SByteValue"@ || name
        == "StringValue"@ {
        Some(ValueKind::Text)
    } else if name == "BooleanValue"@ || name == "OnOffValue"@ || name == "TrueFalseBlankValue"@
        || name == "TrueFalseValue"@ {
        Some(ValueKind::Boolean)
    } else if name == "ByteValue"@ {
        Some(ValueKind::Number(NumberKind::Byte))
    } else if name == "Int16Value"@ {
        Some(ValueKind::Number(NumberKind::Int16))
    } else if name == "Int32Value"@ {
        Some(ValueKind::Number(NumberKind::Int32))
    } else if name == "Int64Value"@ {
        Some(ValueKind::Number(NumberKind::Int64))
    } else if name == "UInt16Value"@ {
        Some(ValueKind::Number(NumberKind::UInt16))
    } else if name == "UInt32Value"@ {
        Some(ValueKind::Number(NumberKind::UInt32))
    } else if name == "UInt64Value"@ {
        Some(ValueKind::Number(NumberKind::UInt64))
    } else if name == "DoubleValue"@ {
        Some(ValueKind::Number(NumberKind::Double))
    } else if name == "SingleValue"@ {
        Some(ValueKind::Number(NumberKind::Single))
    } else {
        None
    }
}

pub fn find_scalar_kind(name: &str) -> (r: Option<ValueKind>)
    ensures
        r == scalar_kind(name@),
{
    if name.eq("Base64BinaryValue") || name.eq("DateTimeValue") || name.eq("DecimalValue")
        || name.eq("HexBinaryValue") || name.eq("IntegerValue") || name.eq("SByteValue")
        || name.eq("StringValue") {
        Some(ValueKind::Text)
    } else if name.eq("BooleanValue") || name.eq("OnOffValue") || name.eq("TrueFalseBlankValue")
        || name.eq("TrueFalseValue") {
        Some(ValueKind::Boolean)
    } else if name.eq("ByteValue") {
        Some(ValueKind::Number(NumberKind::Byte))
    } else if name.eq("Int16Value") {
        Some(ValueKind::Number(NumberKind::Int16))
    } else if name.eq("Int32Value") {
        Some(ValueKind::Number(NumberKind::Int32))
    } else if name.eq("Int64Value") {
        Some(ValueKind::Number(NumberKind::Int64))
    } else if name.eq("UInt16Value") {
        Some(ValueKind::Number(NumberKind::UInt16))
    } else if name.eq("UInt32Value") {
        Some(ValueKind::Number(NumberKind::UInt32))
    } else if name.eq("UInt64Value") {
        Some(ValueKind::Number(NumberKind::UInt64))
    } else if name.eq("DoubleValue") {
        Some(ValueKind::Number(NumberKind::Double))
    } else if name.eq("SingleValue") {
        Some(ValueKind::Number(NumberKind::Single))
    } else {
        None
    }
}

/// The declaring namespace and the bare name that the type of an
/// attribute gives for its enumeration: what stands behind `EnumValue<`,
/// split at its last `.`, the name without the closing `>`.
pub open spec fn enum_reference(ty: Seq<char>) -> Option<(Seq<char>, Seq<char>)> {
    if "EnumValue<"@.is_prefix_of(ty) {
        match rsplit_once(ty.skip("EnumValue<"@.len() as int), '.') {
            Some(p) => Some((p.0, trim_end(p.1, '>'))),
            None => None,
        }
    } else {
        None
    }
}

impl OpenXmlSchemaTypeAttribute {
    pub fn split_type_enum_value_trimmed(&self) -> (r: Option<(&str, &str)>)
        ensures
            match r {
                Some(p) => enum_reference(self.value_type@) == Some((p.0@, p.1@)),
                None => enum_reference(self.value_type@) is None,
            },
    {
        let ty = self.value_type.as_str();
        if !starts_with(ty, "EnumValue<") {
            return None;
        }
        let skip = "EnumValue<".unicode_len();
        let len = ty.unicode_len();
        let rest = ty.substring_char(skip, len);
        assert(ty@.subrange(skip as int, len as int) =~= ty@.skip(skip as int));
        match str_rsplit_once(rest, '.') {
            Some((ns, name)) => Some((ns, str_trim_end(name, '>'))),
            None => None,
        }
    }
}

impl GenContext {
    /// The enumeration that a typed namespace offers under a name: the
    /// schema of the namespace's prefix must have an enumeration of that
    /// name.
    pub open spec fn enum_in_typed_namespace(&self, tn: TypedNamespace, name: Seq<char>) -> Option<
        TypeRef,
    > {
        match self.schema_of_prefix(tn.prefix@) {
            Some(s) => match last_index(schema_enum_names(self.schemas@[s]), name) {
                Some(i) => Some(TypeRef { schema: s as usize, index: i as usize }),
                None => None,
            },
            None => None,
        }
    }

    /// The enumeration that a declaring namespace and a bare name stand
    /// for: the typed namespaces from `from` on are tried in their order,
    /// and the first that has the declaring namespace and offers the name
    /// decides.
    pub open spec fn resolved_enum(&self, namespace: Seq<char>, name: Seq<char>, from: int)
        -> Option<TypeRef>
        decreases self.typed_namespaces@.len() - from,
    {
        if from < 0 || from >= self.typed_namespaces@.len() {
            None
        } else {
            let tn = self.typed_namespaces@[from];
            if tn.namespace@ == namespace && self.enum_in_typed_namespace(tn, name) is Some {
                self.enum_in_typed_namespace(tn, name)
            } else {
                self.resolved_enum(namespace, name, from + 1)
            }
        }
    }

    fn find_enum_in_typed_namespace(&self, tn: &TypedNamespace, name: &str) -> (r: Option<TypeRef>)
        ensures
            r == self.enum_in_typed_namespace(*tn, name@),
            r matches Some(at) ==> at.schema < self.schemas@.len() && at.index
                < self.schemas@[at.schema as int].enums@.len(),
    {
        match self.find_schema_of_prefix(tn.prefix.as_str()) {
            Some(s) => match find_in_schema(&self.schemas[s], SchemaList::EnumNames, name) {
                Some(i) => Some(TypeRef { schema: s, index: i }),
                None => None,
            },
            None => None,
        }
    }

    /// Resolves the reference of an attribute to its enumeration.
    pub fn resolve_enum(&self, namespace: &str, name: &str) -> (r: Option<TypeRef>)
        ensures
            r == self.resolved_enum(namespace@, name@, 0),
            r matches Some(at) ==> at.schema < self.schemas@.len() && at.index
                < self.schemas@[at.schema as int].enums@.len(),
    {
        let mut k: usize = 0;
        while k < self.typed_namespaces.len()
            invariant
                k <= self.typed_namespaces@.len(),
                self.resolved_enum(namespace@, name@, 0) == self.resolved_enum(
                    namespace@,
                    name@,
                    k as int,
                ),
            decreases self.typed_namespaces@.len() - k,
        {
            let tn = &self.typed_namespaces[k];
            if tn.namespace.as_str().eq(namespace) {
                match self.find_enum_in_typed_namespace(tn, name) {
                    Some(at) => {
                        return Some(at);
                    },
                    None => {},
                }
            }
            k += 1;
        }
        None
    }

    /// How the value of an attribute is kept: a list as text, a reference
    /// to an enumeration as the enumeration that it resolves to, anything
    /// else as the scalar kind that its type names. A reference that does
    /// not resolve and a type that names no scalar kind are errors that
    /// carry the type.
    pub open spec fn attribute_kind(&self, a: OpenXmlSchemaTypeAttribute) -> Result<
        ValueKind,
        BuildErrorView,
    > {
        if "ListValue<"@.is_prefix_of(a.value_type@) {
            Ok(ValueKind::Text)
        } else if "EnumValue<"@.is_prefix_of(a.value_type@) {
            match enum_reference(a.value_type@) {
                Some(p) => match self.resolved_enum(p.0, p.1, 0) {
                    Some(at) => Ok(ValueKind::Enumeration(at)),
                    None => Err(BuildErrorView::HashMapExpectedSomeError(a.value_type@)),
                },
                None => Err(BuildErrorView::HashMapExpectedSomeError(a.value_type@)),
            }
        } else {
            match scalar_kind(a.value_type@) {
                Some(k) => Ok(k),
                None => Err(BuildErrorView::HashMapExpectedSomeError(a.value_type@)),
            }
        }
    }

    pub fn find_attribute_kind(&self, a: &OpenXmlSchemaTypeAttribute) -> (r: Result<
        ValueKind,
        BuildError,
    >)
        ensures
            match r {
                Ok(k) => self.attribute_kind(*a) == Ok::<ValueKind, BuildErrorView>(k),
                Err(e) => self.attribute_kind(*a) == Err::<ValueKind, BuildErrorView>(e@),
            },
            r matches Ok(ValueKind::Enumeration(at)) ==> at.schema < self.schemas@.len()
                && at.index < self.schemas@[at.schema as int].enums@.len(),
    {
        let ty = a.value_type.as_str();
        if starts_with(ty, "ListValue<") {
            Ok(ValueKind::Text)
        } else if starts_with(ty, "EnumValue<") {
            match a.split_type_enum_value_trimmed() {
                Some((ns, name)) => match self.resolve_enum(ns, name) {
                    Some(at) => Ok(ValueKind::Enumeration(at)),
                    None => Err(missing(ty)),
                },
                None => Err(missing(ty)),
            }
        } else {
            match find_scalar_kind(ty) {
                Some(k) => Ok(k),
                None => Err(missing(ty)),
            }
        }
    }

    /// The field of the attribute at `index`.
    pub open spec fn attribute_field(
        &self,
        attributes: Seq<OpenXmlSchemaTypeAttribute>,
        inherited: bool,
        index: int,
    ) -> Result<Field, BuildErrorView> {
        match self.attribute_kind(attributes[index]) {
            Ok(kind) => Ok(
                Field::Attribute {
                    inherited,
                    index: index as usize,
                    kind,
                    required: attributes[index].spec_is_validator_required(),
                },
            ),
            Err(e) => Err(e),
        }
    }

    pub open spec fn attribute_fielder(
        &self,
        attributes: Seq<OpenXmlSchemaTypeAttribute>,
        inherited: bool,
    ) -> spec_fn(int) -> Result<Field, BuildErrorView> {
        |index: int| self.attribute_field(attributes, inherited, index)
    }

    /// The fields of a list of attributes, in their order.
    pub open spec fn attribute_fields(
        &self,
        attributes: Seq<OpenXmlSchemaTypeAttribute>,
        inherited: bool,
    ) -> Result<Seq<Field>, BuildErrorView> {
        try_build(attributes.len() as int, self.attribute_fielder(attributes, inherited))
    }

    /// Adds the fields of a list of attributes.
    pub fn gen_attr(
        &self,
        attributes: &Vec<OpenXmlSchemaTypeAttribute>,
        inherited: bool,
        fields: &mut Vec<Field>,
    ) -> (r: Result<(), BuildError>)
        ensures
            match r {
                Ok(_) => self.attribute_fields(attributes@, inherited) matches Ok(added)
                    && final(fields)@ == old(fields)@ + added,
                Err(e) => self.attribute_fields(attributes@, inherited) == Err::<
                    Seq<Field>,
                    BuildErrorView,
                >(e@),
            },
    {
        let ghost item = self.attribute_fielder(attributes@, inherited);
        let ghost n = attributes@.len() as int;
        let ghost before = fields@;
        let mut i: usize = 0;
        assert(before + Seq::<Field>::empty() =~= before);
        while i < attributes.len()
            invariant
                i <= attributes@.len(),
                n == attributes@.len(),
                item == self.attribute_fielder(attributes@, inherited),
                try_build(i as int, item) matches Ok(added) && fields@ == before + added,
            decreases attributes@.len() - i,
        {
            let ghost added = try_build(i as int, item)->Ok_0;
            match self.find_attribute_kind(&attributes[i]) {
                Ok(kind) => {
                    let f = Field::Attribute {
                        inherited,
                        index: i,
                        kind,
                        required: attributes[i].is_validator_required(),
                    };
                    fields.push(f);
                    assert(fields@ =~= before + added.push(f));
                },
                Err(e) => {
                    proof {
                        assert(try_build(i + 1, item) is Err);
                        lemma_try_build_stops(n, i + 1, item);
                    }
                    return Err(e);
                },
            }
            i += 1;
        }
        Ok(())
    }
}


pub open spec fn ref_of(at: (int, int)) -> TypeRef {
    TypeRef { schema: at.0 as usize, index: at.1 as usize }
}

impl GenContext {
    /// How the text content of a leaf element is kept: as the enumeration
    /// that specialises the first segment of the type's name, if there is
    /// one.
    pub open spec fn content_kind(&self, name: Seq<char>) -> ContentKind {
        if is_qualified(name) {
            match self.enum_of_kind(owner_of(name)) {
                Some(at) => ContentKind::Enumeration(ref_of(at)),
                None => ContentKind::Scalar,
            }
        } else {
            ContentKind::Scalar
        }
    }

    pub fn gen_xml_content_type(&self, ty: &OpenXmlSchemaType) -> (r: ContentKind)
        ensures
            r == self.content_kind(ty.name@),
    {
        match str_split_once(ty.name.as_str(), '/') {
            Some((first_name, _)) => match self.find_enum_of_kind(first_name) {
                Some(at) => ContentKind::Enumeration(at),
                None => ContentKind::Scalar,
            },
            None => ContentKind::Scalar,
        }
    }

    /// The field of the child that the particle item at `i` names: the
    /// child reference of that name and the type of the child must be
    /// there, else the error carries the name that is missing.
    pub open spec fn child_field(&self, ty: OpenXmlSchemaType, i: int) -> Result<
        Field,
        BuildErrorView,
    > {
        let item = ty.particle.items@[i];
        match last_child_named(ty.children@, item.name@) {
            None => Err(BuildErrorView::HashMapExpectedSomeError(item.name@)),
            Some(c) => match self.type_named(ty.children@[c].name@) {
                None => Err(BuildErrorView::HashMapExpectedSomeError(ty.children@[c].name@)),
                Some(at) => Ok(
                    Field::Child {
                        item: i as usize,
                        child: c as usize,
                        target: ref_of(at),
                        occurrence: occurrence_of(item.occurs@),
                    },
                ),
            },
        }
    }

    pub open spec fn child_fielder(&self, ty: OpenXmlSchemaType) -> spec_fn(int) -> Result<
        Field,
        BuildErrorView,
    > {
        |i: int| self.child_field(ty, i)
    }

    /// The fields of the children of a type whose children are flattened:
    /// one for each item of the particle, in the order of the particle.
    pub open spec fn one_sequence_fields(&self, ty: OpenXmlSchemaType) -> Result<
        Seq<Field>,
        BuildErrorView,
    > {
        try_build(ty.particle.items@.len() as int, self.child_fielder(ty))
    }

    /// Adds the fields of the children of a type whose children are
    /// flattened.
    pub fn gen_one_sequence_fields(&self, ty: &OpenXmlSchemaType, fields: &mut Vec<Field>) -> (r:
        Result<(), BuildError>)
        ensures
            match r {
                Ok(_) => self.one_sequence_fields(*ty) matches Ok(added) && final(fields)@ == old(
                    fields,
                )@ + added,
                Err(e) => self.one_sequence_fields(*ty) == Err::<Seq<Field>, BuildErrorView>(e@),
            },
    {
        let ghost item = self.child_fielder(*ty);
        let ghost n = ty.particle.items@.len() as int;
        let ghost before = fields@;
        let child_map = ty.child_map();
        let mut i: usize = 0;
        assert(before + Seq::<Field>::empty() =~= before);
        while i < ty.particle.items.len()
            invariant
                i <= ty.particle.items@.len(),
                n == ty.particle.items@.len(),
                child_map.children@ == ty.children@,
                item == self.child_fielder(*ty),
                try_build(i as int, item) matches Ok(added) && fields@ == before + added,
            decreases ty.particle.items@.len() - i,
        {
            let ghost added = try_build(i as int, item)->Ok_0;
            let particle = &ty.particle.items[i];
            let found: Result<Field, BuildError> = match child_map.index_of(
                particle.name.as_str(),
            ) {
                None => Err(missing(particle.name.as_str())),
                Some(c) => match self.try_get_type(ty.children[c].name.as_str()) {
                    Err(e) => Err(e),
                    Ok(at) => Ok(
                        Field::Child {
                            item: i,
                            child: c,
                            target: at,
                            occurrence: particle.as_occurrence(),
                        },
                    ),
                },
            };
            match found {
                Ok(f) => {
                    fields.push(f);
                    assert(fields@ =~= before + added.push(f));
                },
                Err(e) => {
                    proof {
                        assert(try_build(i + 1, item) is Err);
                        lemma_try_build_stops(n, i + 1, item);
                    }
                    return Err(e);
                },
            }
            i += 1;
        }
        Ok(())
    }

    /// The variant of the child reference at `c`: the type of the child
    /// must be there.
    pub open spec fn variant_of(&self, children: Seq<OpenXmlSchemaTypeChild>, c: int) -> Result<
        Variant,
        BuildErrorView,
    > {
        match self.type_named(children[c].name@) {
            None => Err(BuildErrorView::HashMapExpectedSomeError(children[c].name@)),
            Some(at) => Ok(Variant { child: c as usize, target: ref_of(at) }),
        }
    }

    pub open spec fn varianter(&self, children: Seq<OpenXmlSchemaTypeChild>) -> spec_fn(
        int,
    ) -> Result<Variant, BuildErrorView> {
        |c: int| self.variant_of(children, c)
    }

    /// The variants of the union of a type's children: one for each child
    /// reference, in their order.
    pub open spec fn variants(&self, children: Seq<OpenXmlSchemaTypeChild>) -> Result<
        Seq<Variant>,
        BuildErrorView,
    > {
        try_build(children.len() as int, self.varianter(children))
    }

    /// The variants of the union of a type's children.
    pub fn gen_children(&self, children: &Vec<OpenXmlSchemaTypeChild>) -> (r: Result<
        Vec<Variant>,
        BuildError,
    >)
        ensures
            match r {
                Ok(v) => self.variants(children@) == Ok::<Seq<Variant>, BuildErrorView>(v@),
                Err(e) => self.variants(children@) == Err::<Seq<Variant>, BuildErrorView>(e@),
            },
    {
        let ghost item = self.varianter(children@);
        let ghost n = children@.len() as int;
        let mut variants: Vec<Variant> = Vec::new();
        let mut c: usize = 0;
        while c < children.len()
            invariant
                c <= children@.len(),
                n == children@.len(),
                item == self.varianter(children@),
                try_build(c as int, item) == Ok::<Seq<Variant>, BuildErrorView>(variants@),
            decreases children@.len() - c,
        {
            match self.try_get_type(children[c].name.as_str()) {
                Ok(at) => {
                    variants.push(Variant { child: c, target: at });
                },
                Err(e) => {
                    proof {
                        assert(try_build(c + 1, item) is Err);
                        lemma_try_build_stops(n, c + 1, item);
                    }
                    return Err(e);
                },
            }
            c += 1;
        }
        Ok(variants)
    }

    /// How the children of a type are kept: as fields of their own if the
    /// children are flattened; else, if there are any, as one list of the
    /// type's union.
    pub open spec fn children_model(&self, ty: OpenXmlSchemaType) -> Result<
        (Seq<Field>, Seq<Variant>),
        BuildErrorView,
    > {
        if ty.spec_is_one_sequence_flatten() {
            match self.one_sequence_fields(ty) {
                Ok(fields) => Ok((fields, Seq::empty())),
                Err(e) => Err(e),
            }
        } else if ty.children@.len() == 0 {
            Ok((Seq::empty(), Seq::empty()))
        } else {
            match self.variants(ty.children@) {
                Ok(variants) => Ok((seq![Field::Children], variants)),
                Err(e) => Err(e),
            }
        }
    }

    /// Adds the fields of the children of a type and gives the variants of
    /// its union.
    pub fn gen_children_model(&self, ty: &OpenXmlSchemaType, fields: &mut Vec<Field>) -> (r:
        Result<Vec<Variant>, BuildError>)
        ensures
            match r {
                Ok(v) => self.children_model(*ty) matches Ok(m) && final(fields)@ == old(fields)@
                    + m.0 && v@ == m.1,
                Err(e) => self.children_model(*ty) == Err::<
                    (Seq<Field>, Seq<Variant>),
                    BuildErrorView,
                >(e@),
            },
    {
        if ty.is_one_sequence_flatten() {
            match self.gen_one_sequence_fields(ty, fields) {
                Ok(_) => Ok(Vec::new()),
                Err(e) => Err(e),
            }
        } else if ty.children.len() == 0 {
            assert(fields@ + Seq::<Field>::empty() =~= fields@);
            Ok(Vec::new())
        } else {
            match self.gen_children(&ty.children) {
                Ok(variants) => {
                    fields.push(Field::Children);
                    assert(fields@ =~= old(fields)@ + seq![Field::Children]);
                    Ok(variants)
                },
                Err(e) => Err(e),
            }
        }
    }

    /// The model of a derived type, given its base type: its own
    /// attributes, then those of the base; the children of the type, or
    /// those of the base where the type declares none; and the text
    /// content where the type declares no children and the base is a leaf
    /// with text.
    pub open spec fn derived_model(
        &self,
        ty: OpenXmlSchemaType,
        base_at: TypeRef,
        base: OpenXmlSchemaType,
    ) -> Result<ModelView, BuildErrorView> {
        let of_base = ty.children@.len() == 0;
        match self.attribute_fields(ty.attributes@, false) {
            Err(e) => Err(e),
            Ok(own) => match self.attribute_fields(base.attributes@, true) {
                Err(e) => Err(e),
                Ok(inherited) => match self.children_model(
                    if of_base {
                        base
                    } else {
                        ty
                    },
                ) {
                    Err(e) => Err(e),
                    Ok(m) => Ok(
                        ModelView {
                            base: Some(base_at),
                            children_of_base: of_base,
                            fields: own + inherited + m.0 + (if of_base && base.base_class@
                                == "OpenXmlLeafTextElement"@ {
                                seq![Field::XmlContent { kind: self.content_kind(base.name@) }]
                            } else {
                                Seq::empty()
                            }),
                            variants: m.1,
                        },
                    ),
                },
            },
        }
    }

    /// The model of a type, in this order of precedence: a leaf with text
    /// has its attributes and its text content; a leaf has its attributes;
    /// a type with child elements has the namespace declarations where it
    /// carries them, its attributes and its children; a derived type has
    /// the model that its base type gives it. A derived type whose base
    /// type is not there, and a type that is none of these, are errors
    /// that carry the name that was not found.
    pub open spec fn type_model(&self, schema: OpenXmlSchema, ty: OpenXmlSchemaType) -> Result<
        ModelView,
        BuildErrorView,
    > {
        if ty.base_class@ == "OpenXmlLeafTextElement"@ {
            match self.attribute_fields(ty.attributes@, false) {
                Err(e) => Err(e),
                Ok(own) => Ok(
                    ModelView {
                        base: None,
                        children_of_base: false,
                        fields: own.push(Field::XmlContent { kind: self.content_kind(ty.name@) }),
                        variants: Seq::empty(),
                    },
                ),
            }
        } else if ty.base_class@ == "OpenXmlLeafElement"@ {
            match self.attribute_fields(ty.attributes@, false) {
                Err(e) => Err(e),
                Ok(own) => Ok(
                    ModelView {
                        base: None,
                        children_of_base: false,
                        fields: own,
                        variants: Seq::empty(),
                    },
                ),
            }
        } else if is_composite_class(ty.base_class@) {
            match self.attribute_fields(ty.attributes@, false) {
                Err(e) => Err(e),
                Ok(own) => match self.children_model(ty) {
                    Err(e) => Err(e),
                    Ok(m) => Ok(
                        ModelView {
                            base: None,
                            children_of_base: false,
                            fields: xmlns_fields(carries_xmlns(ty, schema)) + own + m.0,
                            variants: m.1,
                        },
                    ),
                },
            }
        } else if ty.is_derived {
            if !is_qualified(ty.name@) {
                Err(BuildErrorView::HashMapExpectedSomeError(ty.name@))
            } else {
                match self.type_named(base_name_of(ty.name@)) {
                    None => Err(BuildErrorView::HashMapExpectedSomeError(base_name_of(ty.name@))),
                    Some(at) => self.derived_model(
                        ty,
                        ref_of(at),
                        self.schemas@[at.0].types@[at.1],
                    ),
                }
            }
        } else {
            Err(BuildErrorView::HashMapExpectedSomeError(ty.base_class@))
        }
    }

    /// Looks up the base type of a derived type.
    pub fn find_base_type(&self, ty: &OpenXmlSchemaType) -> (r: Result<TypeRef, BuildError>)
        ensures
            match r {
                Ok(at) => is_qualified(ty.name@) && self.type_named(base_name_of(ty.name@))
                    == Some((at.schema as int, at.index as int)) && at.schema
                    < self.schemas@.len() && at.index
                    < self.schemas@[at.schema as int].types@.len(),
                Err(e) => if is_qualified(ty.name@) {
                    self.type_named(base_name_of(ty.name@)) is None && e@
                        == BuildErrorView::HashMapExpectedSomeError(base_name_of(ty.name@))
                } else {
                    e@ == BuildErrorView::HashMapExpectedSomeError(ty.name@)
                },
            },
    {
        match str_split_once(ty.name.as_str(), '/') {
            None => Err(missing(ty.name.as_str())),
            Some((owner, _)) => {
                let base = concat(owner, "/");
                self.try_get_type(base.as_str())
            },
        }
    }

    fn gen_derived_type(&self, ty: &OpenXmlSchemaType, base_at: TypeRef) -> (r: Result<
        TypeModel,
        BuildError,
    >)
        requires
            base_at.schema < self.schemas@.len(),
            base_at.index < self.schemas@[base_at.schema as int].types@.len(),
        ensures
            match r {
                Ok(m) => self.derived_model(
                    *ty,
                    base_at,
                    self.schemas@[base_at.schema as int].types@[base_at.index as int],
                ) == Ok::<ModelView, BuildErrorView>(m@),
                Err(e) => self.derived_model(
                    *ty,
                    base_at,
                    self.schemas@[base_at.schema as int].types@[base_at.index as int],
                ) == Err::<ModelView, BuildErrorView>(e@),
            },
    {
        let base = &self.schemas[base_at.schema].types[base_at.index];
        let of_base = ty.children.len() == 0;
        let mut fields: Vec<Field> = Vec::new();
        match self.gen_attr(&ty.attributes, false, &mut fields) {
            Err(e) => {
                return Err(e);
            },
            Ok(_) => {},
        }
        match self.gen_attr(&base.attributes, true, &mut fields) {
            Err(e) => {
                return Err(e);
            },
            Ok(_) => {},
        }
        let variants = match self.gen_children_model(
            if of_base {
                base
            } else {
                ty
            },
            &mut fields,
        ) {
            Err(e) => {
                return Err(e);
            },
            Ok(v) => v,
        };
        if of_base && base.base_class.as_str().eq("OpenXmlLeafTextElement") {
            fields.push(Field::XmlContent { kind: self.gen_xml_content_type(base) });
        }
        proof {
            let own = self.attribute_fields(ty.attributes@, false)->Ok_0;
            let inherited = self.attribute_fields(base.attributes@, true)->Ok_0;
            let m = self.children_model(
                if of_base {
                    *base
                } else {
                    *ty
                },
            )->Ok_0;
            let tail = if of_base && base.base_class@ == "OpenXmlLeafTextElement"@ {
                seq![Field::XmlContent { kind: self.content_kind(base.name@) }]
            } else {
                Seq::empty()
            };
            assert(fields@ =~= own + inherited + m.0 + tail);
        }
        Ok(TypeModel { base: Some(base_at), children_of_base: of_base, fields, variants })
    }

    /// The model of one type.
    pub fn gen_schema_type(&self, schema: &OpenXmlSchema, ty: &OpenXmlSchemaType) -> (r: Result<
        TypeModel,
        BuildError,
    >)
        ensures
            match r {
                Ok(m) => self.type_model(*schema, *ty) == Ok::<ModelView, BuildErrorView>(m@),
                Err(e) => self.type_model(*schema, *ty) == Err::<ModelView, BuildErrorView>(e@),
            },
    {
        let mut fields: Vec<Field> = Vec::new();
        if ty.base_class.as_str().eq("OpenXmlLeafTextElement") {
            match self.gen_attr(&ty.attributes, false, &mut fields) {
                Err(e) => {
                    return Err(e);
                },
                Ok(_) => {},
            }
            fields.push(Field::XmlContent { kind: self.gen_xml_content_type(ty) });
            proof {
                let own = self.attribute_fields(ty.attributes@, false)->Ok_0;
                assert(fields@ =~= own.push(
                    Field::XmlContent { kind: self.content_kind(ty.name@) },
                ));
            }
            Ok(TypeModel { base: None, children_of_base: false, fields, variants: Vec::new() })
        } else if ty.base_class.as_str().eq("OpenXmlLeafElement") {
            match self.gen_attr(&ty.attributes, false, &mut fields) {
                Err(e) => {
                    return Err(e);
                },
                Ok(_) => {},
            }
            proof {
                let own = self.attribute_fields(ty.attributes@, false)->Ok_0;
                assert(fields@ =~= own);
            }
            Ok(TypeModel { base: None, children_of_base: false, fields, variants: Vec::new() })
        } else if is_composite(ty) {
            if does_carry_xmlns(ty, schema) {
                fields.push(Field::Xmlns);
                fields.push(Field::XmlnsMap);
                fields.push(Field::McIgnorable);
            }
            assert(fields@ =~= xmlns_fields(carries_xmlns(*ty, *schema)));
            match self.gen_attr(&ty.attributes, false, &mut fields) {
                Err(e) => {
                    return Err(e);
                },
                Ok(_) => {},
            }
            let variants = match self.gen_children_model(ty, &mut fields) {
                Err(e) => {
                    return Err(e);
                },
                Ok(v) => v,
            };
            Ok(TypeModel { base: None, children_of_base: false, fields, variants })
        } else if ty.is_derived {
            match self.find_base_type(ty) {
                Err(e) => Err(e),
                Ok(at) => self.gen_derived_type(ty, at),
            }
        } else {
            Err(missing(ty.base_class.as_str()))
        }
    }

    /// The model of the type at `t`, or nothing if the type is abstract.
    pub open spec fn model_at(&self, schema: OpenXmlSchema, t: int) -> Result<
        Option<ModelView>,
        BuildErrorView,
    > {
        if schema.types@[t].is_abstract {
            Ok(None)
        } else {
            match self.type_model(schema, schema.types@[t]) {
                Ok(m) => Ok(Some(m)),
                Err(e) => Err(e),
            }
        }
    }

    pub open spec fn modeller(&self, schema: OpenXmlSchema) -> spec_fn(int) -> Result<
        Option<ModelView>,
        BuildErrorView,
    > {
        |t: int| self.model_at(schema, t)
    }

    /// The model of the enumeration at `i`: an enumeration without facets
    /// has no default and is an error that carries its name.
    pub open spec fn enum_model_at(&self, schema: OpenXmlSchema, i: int) -> Result<
        EnumModel,
        BuildErrorView,
    > {
        if schema.enums@[i].facets@.len() == 0 {
            Err(BuildErrorView::HashMapExpectedSomeError(schema.enums@[i].name@))
        } else {
            Ok(enum_model_of(schema.enums@[i].facets@.len() as int))
        }
    }

    pub open spec fn enum_modeller(&self, schema: OpenXmlSchema) -> spec_fn(int) -> Result<
        EnumModel,
        BuildErrorView,
    > {
        |i: int| self.enum_model_at(schema, i)
    }

    /// The model of a schema: the models of its types, in their order,
    /// then those of its enumerations; the first that cannot be made gives
    /// the error.
    pub open spec fn schema_model(&self, schema: OpenXmlSchema) -> Result<
        SchemaModelView,
        BuildErrorView,
    > {
        match try_build(schema.types@.len() as int, self.modeller(schema)) {
            Err(e) => Err(e),
            Ok(types) => match try_build(schema.enums@.len() as int, self.enum_modeller(schema)) {
                Err(e) => Err(e),
                Ok(enums) => Ok(SchemaModelView { types, enums }),
            },
        }
    }

    /// The model of an enumeration.
    pub fn gen_schema_enum(&self, e: &OpenXmlSchemaEnum) -> (r: Result<EnumModel, BuildError>)
        ensures
            match r {
                Ok(m) => e.facets@.len() > 0 && m == enum_model_of(e.facets@.len() as int)
                    && m.default_facet == 0 && m.default_facet < m.facets,
                Err(x) => e.facets@.len() == 0 && x@ == BuildErrorView::HashMapExpectedSomeError(
                    e.name@,
                ),
            },
    {
        if e.facets.len() == 0 {
            Err(missing(e.name.as_str()))
        } else {
            Ok(EnumModel { facets: e.facets.len(), default_facet: 0 })
        }
    }
}

/// The model of a schema.
pub fn gen_open_xml_schemas(schema: &OpenXmlSchema, gen_context: &GenContext) -> (r: Result<
    SchemaModel,
    BuildError,
>)
    ensures
        match r {
            Ok(m) => gen_context.schema_model(*schema) == Ok::<SchemaModelView, BuildErrorView>(m@),
            Err(e) => gen_context.schema_model(*schema) == Err::<SchemaModelView, BuildErrorView>(
                e@,
            ),
        },
{
    let ghost item = gen_context.modeller(*schema);
    let ghost n = schema.types@.len() as int;
    let mut types: Vec<Option<TypeModel>> = Vec::new();
    let mut t: usize = 0;
    assert(model_views(types@) =~= Seq::empty());
    while t < schema.types.len()
        invariant
            t <= schema.types@.len(),
            n == schema.types@.len(),
            item == gen_context.modeller(*schema),
            try_build(t as int, item) == Ok::<Seq<Option<ModelView>>, BuildErrorView>(
                model_views(types@),
            ),
        decreases schema.types@.len() - t,
    {
        let ghost before = model_views(types@);
        let ty = &schema.types[t];
        if ty.is_abstract {
            types.push(None);
            assert(model_views(types@) =~= before.push(None));
        } else {
            match gen_context.gen_schema_type(schema, ty) {
                Ok(m) => {
                    let ghost v = m@;
                    types.push(Some(m));
                    assert(model_views(types@) =~= before.push(Some(v)));
                },
                Err(e) => {
                    proof {
                        assert(try_build(t + 1, item) is Err);
                        lemma_try_build_stops(n, t + 1, item);
                    }
                    return Err(e);
                },
            }
        }
        t += 1;
    }
    let ghost enum_item = gen_context.enum_modeller(*schema);
    let ghost en = schema.enums@.len() as int;
    let mut enums: Vec<EnumModel> = Vec::new();
    let mut i: usize = 0;
    while i < schema.enums.len()
        invariant
            i <= schema.enums@.len(),
            en == schema.enums@.len(),
            enum_item == gen_context.enum_modeller(*schema),
            try_build(n, item) == Ok::<Seq<Option<ModelView>>, BuildErrorView>(model_views(types@)),
            item == gen_context.modeller(*schema),
            n == schema.types@.len(),
            try_build(i as int, enum_item) == Ok::<Seq<EnumModel>, BuildErrorView>(enums@),
        decreases schema.enums@.len() - i,
    {
        match gen_context.gen_schema_enum(&schema.enums[i]) {
            Ok(m) => {
                enums.push(m);
            },
            Err(e) => {
                proof {
                    assert(try_build(i + 1, enum_item) is Err);
                    lemma_try_build_stops(en, i + 1, enum_item);
                }
                return Err(e);
            },
        }
        i += 1;
    }
    Ok(SchemaModel { types, enums })
}

/// The children of a type whose particle is a sequence of plain
/// references are fields, never a list of a union: behind the namespace
/// declarations and the attributes stands one field for each item of the
/// particle, in the order of the particle, for the child that the item
/// names, with the occurrence that the item gives.
pub proof fn lemma_flattened_children_are_fields(
    ctx: GenContext,
    schema: OpenXmlSchema,
    ty: OpenXmlSchemaType,
    m: ModelView,
)
    requires
        ty.base_class@ != "OpenXmlLeafTextElement"@,
        ty.base_class@ != "OpenXmlLeafElement"@,
        is_composite_class(ty.base_class@),
        ty.spec_is_one_sequence_flatten(),
        ctx.type_model(schema, ty) == Ok::<ModelView, BuildErrorView>(m),
    ensures
        m.variants.len() == 0,
        m.fields.len() == xmlns_fields(carries_xmlns(ty, schema)).len() + ty.attributes@.len()
            + ty.particle.items@.len(),
        forall|k: int| 0 <= k < m.fields.len() ==> #[trigger] m.fields[k] != Field::Children,
        forall|i: int|
            0 <= i < ty.particle.items@.len() ==> (#[trigger] m.fields[xmlns_fields(
                carries_xmlns(ty, schema),
            ).len() + ty.attributes@.len() + i] matches Field::Child {
                item,
                child,
                target,
                occurrence,
            } && item == i && child < ty.children@.len() && ty.children@[child as int].name@
                == ty.particle.items@[i].name@ && occurrence == occurrence_of(
                ty.particle.items@[i].occurs@,
            )),
{
    let head = xmlns_fields(carries_xmlns(ty, schema));
    let own = ctx.attribute_fields(ty.attributes@, false)->Ok_0;
    let flat = ctx.one_sequence_fields(ty)->Ok_0;
    lemma_try_build_len(ty.attributes@.len() as int, ctx.attribute_fielder(ty.attributes@, false));
    lemma_try_build_len(ty.particle.items@.len() as int, ctx.child_fielder(ty));
    assert(m.fields == head + own + flat);
    assert forall|i: int| 0 <= i < ty.particle.items@.len() implies (#[trigger] m.fields[head.len()
        + ty.attributes@.len() + i] matches Field::Child { item, child, target, occurrence }
        && item == i && child < ty.children@.len() && ty.children@[child as int].name@
        == ty.particle.items@[i].name@ && occurrence == occurrence_of(
        ty.particle.items@[i].occurs@,
    )) by {
        assert(m.fields[head.len() + ty.attributes@.len() + i] == flat[i]);
        assert(ctx.child_field(ty, i) == Ok::<Field, BuildErrorView>(flat[i]));
        crate::models::lemma_last_child_named(ty.children@, ty.particle.items@[i].name@);
        assert(ty.particle.items@.len() == ty.particle.items.len());
        assert(ty.children@.len() == ty.children.len());
    }
    assert forall|k: int| 0 <= k < m.fields.len() implies #[trigger] m.fields[k]
        != Field::Children by {
        if k < head.len() {
            assert(m.fields[k] == head[k]);
        } else if k < head.len() + own.len() {
            assert(m.fields[k] == own[k - head.len()]);
            assert(ctx.attribute_field(ty.attributes@, false, k - head.len()) == Ok::<
                Field,
                BuildErrorView,
            >(own[k - head.len()]));
        } else {
            let i = k - head.len() - own.len();
            assert(m.fields[k] == flat[i]);
            assert(ctx.child_field(ty, i) == Ok::<Field, BuildErrorView>(flat[i]));
        }
    }
}

} // verus!
