//! The context of a build: the reduced description, and the lookups that
//! resolve the names in it.

use crate::features::Features;
use crate::models::{
    OpenXmlNamespace, OpenXmlPart, OpenXmlSchema, OpenXmlSchemaEnum, OpenXmlSchemaType,
    TypedNamespace, TypedSchema,
};
use crate::reduce_parts::{reduce_parts, Description, PartIndex};
use crate::reduce_types::Reducer;
use crate::symbols::{all_bindings, bound_type, namespace_prefixes, namespace_uris, TypeRef};
use crate::tables::last_index;
use crate::utils::{missing, BuildError, BuildErrorView};
use crate::validate::check_references;
use vstd::prelude::*;

verus! {

/// The reduced description of a build. It is made once and not changed
/// afterwards.
#[derive(Debug)]
pub struct GenContext {
    pub parts: Vec<OpenXmlPart>,
    pub schemas: Vec<OpenXmlSchema>,
    pub namespaces: Vec<OpenXmlNamespace>,
    pub typed_namespaces: Vec<TypedNamespace>,
    pub typed_schemas: Vec<Vec<TypedSchema>>,
    pub features: Features,
}

/// The names of the types of a schema, in their order.
pub open spec fn schema_type_names(schema: OpenXmlSchema) -> Seq<Seq<char>> {
    schema.types@.map_values(|t: OpenXmlSchemaType| t.name@)
}

/// The parts that the types of a schema are bound to, in the order of the
/// types; the empty name where a type is bound to none.
pub open spec fn schema_type_parts(schema: OpenXmlSchema) -> Seq<Seq<char>> {
    schema.types@.map_values(|t: OpenXmlSchemaType| t.part@)
}

/// The value kinds that the enumerations of a schema specialise, in their
/// order.
pub open spec fn schema_enum_kinds(schema: OpenXmlSchema) -> Seq<Seq<char>> {
    schema.enums@.map_values(|e: OpenXmlSchemaEnum| e.value_type@)
}

/// The names of the enumerations of a schema, in their order.
pub open spec fn schema_enum_names(schema: OpenXmlSchema) -> Seq<Seq<char>> {
    schema.enums@.map_values(|e: OpenXmlSchemaEnum| e.name@)
}

/// A list of names that every schema has.
#[derive(Clone, Copy, Debug, PartialEq, Eq, Structural)]
pub enum SchemaList {
    TypeNames,
    TypeParts,
    EnumKinds,
    EnumNames,
}

/// The names that a schema has in one of its lists.
pub open spec fn list_keys(which: SchemaList, schema: OpenXmlSchema) -> Seq<Seq<char>> {
    match which {
        SchemaList::TypeNames => schema_type_names(schema),
        SchemaList::TypeParts => schema_type_parts(schema),
        SchemaList::EnumKinds => schema_enum_kinds(schema),
        SchemaList::EnumNames => schema_enum_names(schema),
    }
}

/// The last item among the lists of all schemas that has the given key:
/// the position of its schema and its position in the list.
pub open spec fn last_in_schemas(schemas: Seq<OpenXmlSchema>, which: SchemaList, key: Seq<char>)
    -> Option<(int, int)>
    decreases schemas.len(),
{
    if schemas.len() == 0 {
        None
    } else {
        match last_index(list_keys(which, schemas.last()), key) {
            Some(i) => Some((schemas.len() - 1, i)),
            None => last_in_schemas(schemas.drop_last(), which, key),
        }
    }
}

fn list_len(which: SchemaList, schema: &OpenXmlSchema) -> (n: usize)
    ensures
        n == list_keys(which, *schema).len(),
{
    match which {
        SchemaList::TypeNames => schema.types.len(),
        SchemaList::TypeParts => schema.types.len(),
        SchemaList::EnumKinds => schema.enums.len(),
        SchemaList::EnumNames => schema.enums.len(),
    }
}

fn list_key(which: SchemaList, schema: &OpenXmlSchema, i: usize) -> (key: &str)
    requires
        i < list_keys(which, *schema).len(),
    ensures
        key@ == list_keys(which, *schema)[i as int],
{
    match which {
        SchemaList::TypeNames => schema.types[i].name.as_str(),
        SchemaList::TypeParts => schema.types[i].part.as_str(),
        SchemaList::EnumKinds => schema.enums[i].value_type.as_str(),
        SchemaList::EnumNames => schema.enums[i].name.as_str(),
    }
}

/// Looks a key up in one of the lists of a schema.
pub fn find_in_schema(schema: &OpenXmlSchema, which: SchemaList, key: &str) -> (r: Option<usize>)
    ensures
        match r {
            Some(i) => last_index(list_keys(which, *schema), key@) == Some(i as int) && i
                < list_keys(which, *schema).len(),
            None => last_index(list_keys(which, *schema), key@) is None,
        },
{
    let ghost all = list_keys(which, *schema);
    let mut i: usize = list_len(which, schema);
    assert(all.take(i as int) =~= all);
    while i > 0
        invariant
            i <= all.len(),
            all == list_keys(which, *schema),
            last_index(all, key@) == last_index(all.take(i as int), key@),
        decreases i,
    {
        i -= 1;
        assert(all.take(i + 1).drop_last() =~= all.take(i as int));
        if list_key(which, schema, i).eq(key) {
            return Some(i);
        }
    }
    assert(all.take(0).len() == 0);
    None
}

/// Looks a key up in one of the lists of all schemas.
pub fn find_in_schemas(schemas: &Vec<OpenXmlSchema>, which: SchemaList, key: &str) -> (r: Option<
    TypeRef,
>)
    ensures
        match r {
            Some(at) => last_in_schemas(schemas@, which, key@) == Some(
                (at.schema as int, at.index as int),
            ) && at.schema < schemas@.len() && at.index < list_keys(
                which,
                schemas@[at.schema as int],
            ).len(),
            None => last_in_schemas(schemas@, which, key@) is None,
        },
{
    let mut s: usize = schemas.len();
    assert(schemas@.take(s as int) =~= schemas@);
    while s > 0
        invariant
            s <= schemas@.len(),
            last_in_schemas(schemas@, which, key@) == last_in_schemas(
                schemas@.take(s as int),
                which,
                key@,
            ),
        decreases s,
    {
        s -= 1;
        assert(schemas@.take(s + 1).drop_last() =~= schemas@.take(s as int));
        match find_in_schema(&schemas[s], which, key) {
            Some(i) => {
                return Some(TypeRef { schema: s, index: i });
            },
            None => {},
        }
    }
    assert(schemas@.take(0).len() == 0);
    None
}

/// The prefix of the namespace that a schema describes.
pub open spec fn schema_prefix(schema: OpenXmlSchema, namespaces: Seq<OpenXmlNamespace>) -> Option<
    Seq<char>,
> {
    match last_index(namespace_uris(namespaces), schema.target_namespace@) {
        Some(i) => Some(namespaces[i].prefix@),
        None => None,
    }
}

/// The last schema whose namespace has the given prefix.
pub open spec fn schema_of_prefix(
    schemas: Seq<OpenXmlSchema>,
    namespaces: Seq<OpenXmlNamespace>,
    prefix: Seq<char>,
) -> Option<int>
    decreases schemas.len(),
{
    if schemas.len() == 0 {
        None
    } else if schema_prefix(schemas.last(), namespaces) == Some(prefix) {
        Some(schemas.len() - 1)
    } else {
        schema_of_prefix(schemas.drop_last(), namespaces, prefix)
    }
}

/// Looks up the last binding of a part among the typed schemas.
pub fn find_binding(typed: &Vec<Vec<TypedSchema>>, part: &str) -> (r: Option<String>)
    ensures
        match r {
            Some(name) => bound_type(all_bindings(typed@), part@) == Some(name@),
            None => bound_type(all_bindings(typed@), part@) is None,
        },
{
    let index = crate::symbols::gather_bindings(typed);
    match crate::tables::find_last_key(&index.0, part) {
        Some(i) => {
            assert(index.0@.len() == crate::tables::names_view(index.0@).len());
            Some(index.1[i].clone())
        },
        None => None,
    }
}

/// The name of the root-element type of the two parts of styles.
pub open spec fn styles_root() -> Seq<char> {
    "w:CT_Styles/w:styles"@
}

impl GenContext {
    /// The description that the context holds.
    pub open spec fn description(&self) -> Description {
        Description {
            parts: self.parts@,
            schemas: self.schemas@,
            namespaces: self.namespaces@,
            typed: self.typed_schemas@,
            features: self.features,
        }
    }

    /// The type that a name stands for: the last type of that name.
    pub open spec fn type_named(&self, name: Seq<char>) -> Option<(int, int)> {
        last_in_schemas(self.schemas@, SchemaList::TypeNames, name)
    }

    /// The enumeration that specialises a value kind: the last one.
    pub open spec fn enum_of_kind(&self, kind: Seq<char>) -> Option<(int, int)> {
        last_in_schemas(self.schemas@, SchemaList::EnumKinds, kind)
    }

    /// The namespace with the given address: the last one.
    pub open spec fn namespace_of_uri(&self, uri: Seq<char>) -> Option<int> {
        last_index(namespace_uris(self.namespaces@), uri)
    }

    /// The namespace with the given prefix: the last one.
    pub open spec fn namespace_of_prefix(&self, prefix: Seq<char>) -> Option<int> {
        last_index(namespace_prefixes(self.namespaces@), prefix)
    }

    /// The namespace that a schema describes.
    pub open spec fn namespace_of_schema(&self, s: int) -> Option<int> {
        self.namespace_of_uri(self.schemas@[s].target_namespace@)
    }

    /// The schema of the namespace with the given prefix: the last one.
    pub open spec fn schema_of_prefix(&self, prefix: Seq<char>) -> Option<int> {
        schema_of_prefix(self.schemas@, self.namespaces@, prefix)
    }

    /// The name of the root-element type of a part. The two parts of
    /// styles share one; otherwise the last type that names the part
    /// decides, and where none does, the bindings of the typed schemas.
    pub open spec fn root_type_of_part(&self, part: Seq<char>) -> Option<Seq<char>> {
        if part == "StylesWithEffectsPart"@ || part == "StyleDefinitionsPart"@ {
            Some(styles_root())
        } else if part.len() == 0 {
            bound_type(all_bindings(self.typed_schemas@), part)
        } else {
            match last_in_schemas(self.schemas@, SchemaList::TypeParts, part) {
                Some(at) => Some(self.schemas@[at.0].types@[at.1].name@),
                None => bound_type(all_bindings(self.typed_schemas@), part),
            }
        }
    }

    /// Looks a type up by its name.
    pub fn find_type(&self, name: &str) -> (r: Option<TypeRef>)
        ensures
            match r {
                Some(at) => self.type_named(name@) == Some((at.schema as int, at.index as int))
                    && at.schema < self.schemas@.len() && at.index
                    < self.schemas@[at.schema as int].types@.len(),
                None => self.type_named(name@) is None,
            },
    {
        find_in_schemas(&self.schemas, SchemaList::TypeNames, name)
    }

    /// Looks a type up by its name; a name that no type has is an error
    /// that carries the name.
    pub fn try_get_type(&self, name: &str) -> (r: Result<TypeRef, BuildError>)
        ensures
            match r {
                Ok(at) => self.type_named(name@) == Some((at.schema as int, at.index as int))
                    && at.schema < self.schemas@.len() && at.index
                    < self.schemas@[at.schema as int].types@.len(),
                Err(e) => self.type_named(name@) is None && e@
                    == BuildErrorView::HashMapExpectedSomeError(name@),
            },
    {
        match self.find_type(name) {
            Some(at) => Ok(at),
            None => Err(missing(name)),
        }
    }

    /// Looks up the enumeration that specialises a value kind.
    pub fn find_enum_of_kind(&self, kind: &str) -> (r: Option<TypeRef>)
        ensures
            match r {
                Some(at) => self.enum_of_kind(kind@) == Some((at.schema as int, at.index as int))
                    && at.schema < self.schemas@.len() && at.index
                    < self.schemas@[at.schema as int].enums@.len(),
                None => self.enum_of_kind(kind@) is None,
            },
    {
        find_in_schemas(&self.schemas, SchemaList::EnumKinds, kind)
    }

    /// Looks a namespace up by its address.
    pub fn find_namespace_of_uri(&self, uri: &str) -> (r: Option<usize>)
        ensures
            match r {
                Some(i) => self.namespace_of_uri(uri@) == Some(i as int) && i
                    < self.namespaces@.len(),
                None => self.namespace_of_uri(uri@) is None,
            },
    {
        let ghost all = namespace_uris(self.namespaces@);
        let mut i: usize = self.namespaces.len();
        assert(all.take(i as int) =~= all);
        while i > 0
            invariant
                i <= self.namespaces@.len(),
                all == namespace_uris(self.namespaces@),
                last_index(all, uri@) == last_index(all.take(i as int), uri@),
            decreases i,
        {
            i -= 1;
            assert(all.take(i + 1).drop_last() =~= all.take(i as int));
            if self.namespaces[i].uri.as_str().eq(uri) {
                return Some(i);
            }
        }
        assert(all.take(0).len() == 0);
        None
    }

    /// Looks a namespace up by its address; an address that no namespace
    /// has is an error that carries the address.
    pub fn try_get_namespace_of_uri(&self, uri: &str) -> (r: Result<usize, BuildError>)
        ensures
            match r {
                Ok(i) => self.namespace_of_uri(uri@) == Some(i as int) && i
                    < self.namespaces@.len(),
                Err(e) => self.namespace_of_uri(uri@) is None && e@
                    == BuildErrorView::HashMapExpectedSomeError(uri@),
            },
    {
        match self.find_namespace_of_uri(uri) {
            Some(i) => Ok(i),
            None => Err(missing(uri)),
        }
    }

    /// Looks a namespace up by its prefix.
    pub fn find_namespace_of_prefix(&self, prefix: &str) -> (r: Option<usize>)
        ensures
            match r {
                Some(i) => self.namespace_of_prefix(prefix@) == Some(i as int) && i
                    < self.namespaces@.len(),
                None => self.namespace_of_prefix(prefix@) is None,
            },
    {
        let ghost all = namespace_prefixes(self.namespaces@);
        let mut i: usize = self.namespaces.len();
        assert(all.take(i as int) =~= all);
        while i > 0
            invariant
                i <= self.namespaces@.len(),
                all == namespace_prefixes(self.namespaces@),
                last_index(all, prefix@) == last_index(all.take(i as int), prefix@),
            decreases i,
        {
            i -= 1;
            assert(all.take(i + 1).drop_last() =~= all.take(i as int));
            if self.namespaces[i].prefix.as_str().eq(prefix) {
                return Some(i);
            }
        }
        assert(all.take(0).len() == 0);
        None
    }

    /// Looks up the schema of the namespace with the given prefix.
    pub fn find_schema_of_prefix(&self, prefix: &str) -> (r: Option<usize>)
        ensures
            match r {
                Some(s) => self.schema_of_prefix(prefix@) == Some(s as int) && s
                    < self.schemas@.len(),
                None => self.schema_of_prefix(prefix@) is None,
            },
    {
        let mut s: usize = self.schemas.len();
        assert(self.schemas@.take(s as int) =~= self.schemas@);
        while s > 0
            invariant
                s <= self.schemas@.len(),
                schema_of_prefix(self.schemas@, self.namespaces@, prefix@) == schema_of_prefix(
                    self.schemas@.take(s as int),
                    self.namespaces@,
                    prefix@,
                ),
            decreases s,
        {
            s -= 1;
            assert(self.schemas@.take(s + 1).drop_last() =~= self.schemas@.take(s as int));
            match self.find_namespace_of_uri(self.schemas[s].target_namespace.as_str()) {
                Some(i) => {
                    if self.namespaces[i].prefix.as_str().eq(prefix) {
                        return Some(s);
                    }
                },
                None => {},
            }
        }
        assert(self.schemas@.take(0).len() == 0);
        None
    }

    /// Looks up the name of the root-element type of a part.
    pub fn find_root_type_of_part(&self, part: &str) -> (r: Option<String>)
        ensures
            match r {
                Some(name) => self.root_type_of_part(part@) == Some(name@),
                None => self.root_type_of_part(part@) is None,
            },
    {
        if part.eq("StylesWithEffectsPart") || part.eq("StyleDefinitionsPart") {
            return Some("w:CT_Styles/w:styles".to_owned());
        }
        if !part.is_empty() {
            match find_in_schemas(&self.schemas, SchemaList::TypeParts, part) {
                Some(at) => {
                    return Some(self.schemas[at.schema].types[at.index].name.clone());
                },
                None => {},
            }
        }
        find_binding(&self.typed_schemas, part)
    }

    /// Builds the context of a description: checks that every name it
    /// refers to is defined, removes what the version filter removes, and
    /// keeps the parts and types that the selected kinds of document
    /// reach.
    pub fn new(
        parts: Vec<OpenXmlPart>,
        schemas: Vec<OpenXmlSchema>,
        namespaces: Vec<OpenXmlNamespace>,
        typed_namespaces: Vec<TypedNamespace>,
        typed_schemas: Vec<Vec<TypedSchema>>,
        features: Features,
    ) -> (r: Result<GenContext, BuildError>)
        ensures
            ({
                let d = Description {
                    parts: parts@,
                    schemas: schemas@,
                    namespaces: namespaces@,
                    typed: typed_schemas@,
                    features,
                };
                match r {
                    Ok(ctx) => {
                        &&& d.missing_name() is None
                        &&& d.parts_reduced(ctx.parts@)
                        &&& d.schemas_reduced(ctx.schemas@)
                        &&& ctx.namespaces == namespaces
                        &&& ctx.typed_namespaces == typed_namespaces
                        &&& ctx.typed_schemas == typed_schemas
                        &&& ctx.features == features
                    },
                    Err(e) => d.missing_name() matches Some(key) && e@
                        == BuildErrorView::HashMapExpectedSomeError(key),
                }
            }),
    {
        let index = PartIndex::build(&parts, &schemas, &namespaces, &typed_schemas, &features);
        match check_references(&index, &parts, &schemas) {
            Err(e) => {
                return Err(e);
            },
            Ok(_) => {},
        }
        let reducer = Reducer::build(index, &parts, &schemas);
        let parts = reduce_parts(&reducer.parts, parts);
        let schemas = reducer.reduce_schemas(schemas);
        Ok(GenContext { parts, schemas, namespaces, typed_namespaces, typed_schemas, features })
    }
}

} // verus!
