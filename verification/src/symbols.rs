//! The names of a schema description, gathered into tables: the parts,
//! the types of all schemas in one list, and the bindings of parts to
//! their root elements.

use crate::features::{check_office_version, version_enabled, Features};
use crate::models::{OpenXmlNamespace, OpenXmlPart, OpenXmlSchema, OpenXmlSchemaType, TypedSchema};
use crate::tables::{find_last_key, last_index, lemma_names_push, names_view};
use vstd::prelude::*;

verus! {

/// A type of the description, as the tables list it: its name, whether it
/// is part of the build, and where it stands.
pub struct TypeEntry {
    pub name: Seq<char>,
    pub survives: bool,
    pub schema: int,
    pub index: int,
}

/// Where a type stands: the position of its schema and its position in
/// the schema.
#[derive(Clone, Copy, Debug, PartialEq, Eq, Structural)]
pub struct TypeRef {
    pub schema: usize,
    pub index: usize,
}

/// The names of the parts, in their order.
pub open spec fn part_names(parts: Seq<OpenXmlPart>) -> Seq<Seq<char>> {
    parts.map_values(|p: OpenXmlPart| p.name@)
}

/// The addresses of the namespaces, in their order.
pub open spec fn namespace_uris(namespaces: Seq<OpenXmlNamespace>) -> Seq<Seq<char>> {
    namespaces.map_values(|n: OpenXmlNamespace| n.uri@)
}

/// The prefixes of the namespaces, in their order.
pub open spec fn namespace_prefixes(namespaces: Seq<OpenXmlNamespace>) -> Seq<Seq<char>> {
    namespaces.map_values(|n: OpenXmlNamespace| n.prefix@)
}

/// The namespace that a schema describes.
pub open spec fn schema_namespace(schema: OpenXmlSchema, namespaces: Seq<OpenXmlNamespace>)
    -> Option<int> {
    last_index(namespace_uris(namespaces), schema.target_namespace@)
}

/// Whether the namespace of a schema is part of the build.
pub open spec fn schema_enabled(
    schema: OpenXmlSchema,
    namespaces: Seq<OpenXmlNamespace>,
    f: Features,
) -> bool {
    match schema_namespace(schema, namespaces) {
        Some(i) => version_enabled(namespaces[i].version@, f),
        None => false,
    }
}

/// Whether a type is part of the build: its own version is enabled and so
/// is the namespace of its schema.
pub open spec fn type_survives(
    ty: OpenXmlSchemaType,
    schema: OpenXmlSchema,
    namespaces: Seq<OpenXmlNamespace>,
    f: Features,
) -> bool {
    schema_enabled(schema, namespaces, f) && version_enabled(ty.version@, f)
}

/// The entries of the types of one schema.
pub open spec fn schema_entries(
    schema: OpenXmlSchema,
    s: int,
    namespaces: Seq<OpenXmlNamespace>,
    f: Features,
) -> Seq<TypeEntry> {
    Seq::new(
        schema.types@.len(),
        |t: int|
            TypeEntry {
                name: schema.types@[t].name@,
                survives: type_survives(schema.types@[t], schema, namespaces, f),
                schema: s,
                index: t,
            },
    )
}

/// The entries of the types of all schemas, schema after schema.
pub open spec fn type_entries(
    schemas: Seq<OpenXmlSchema>,
    namespaces: Seq<OpenXmlNamespace>,
    f: Features,
) -> Seq<TypeEntry>
    decreases schemas.len(),
{
    if schemas.len() == 0 {
        Seq::empty()
    } else {
        type_entries(schemas.drop_last(), namespaces, f) + schema_entries(
            schemas.last(),
            schemas.len() - 1,
            namespaces,
            f,
        )
    }
}

/// The names of a list of entries.
pub open spec fn entry_names(entries: Seq<TypeEntry>) -> Seq<Seq<char>> {
    entries.map_values(|e: TypeEntry| e.name)
}

/// Every entry stands for the type at its place.
pub proof fn lemma_type_entries(
    schemas: Seq<OpenXmlSchema>,
    namespaces: Seq<OpenXmlNamespace>,
    f: Features,
    k: int,
)
    requires
        0 <= k < type_entries(schemas, namespaces, f).len(),
    ensures
        ({
            let e = type_entries(schemas, namespaces, f)[k];
            &&& 0 <= e.schema < schemas.len()
            &&& 0 <= e.index < schemas[e.schema].types@.len()
            &&& e.name == schemas[e.schema].types@[e.index].name@
            &&& e.survives == type_survives(
                schemas[e.schema].types@[e.index],
                schemas[e.schema],
                namespaces,
                f,
            )
        }),
    decreases schemas.len(),
{
    if schemas.len() > 0 {
        let head = type_entries(schemas.drop_last(), namespaces, f);
        if k < head.len() {
            lemma_type_entries(schemas.drop_last(), namespaces, f, k);
        }
    }
}

/// The bindings that a list of typed schemas declares: for each record
/// that names a part, the pair of the part and the root-element type.
pub open spec fn bindings_of(list: Seq<TypedSchema>) -> Seq<(Seq<char>, Seq<char>)>
    decreases list.len(),
{
    if list.len() == 0 {
        Seq::empty()
    } else if list.last().part_class_name@.len() == 0 {
        bindings_of(list.drop_last())
    } else {
        bindings_of(list.drop_last()).push((list.last().part_class_name@, list.last().name@))
    }
}

/// The bindings of all lists of typed schemas, list after list.
pub open spec fn all_bindings(typed: Seq<Vec<TypedSchema>>) -> Seq<(Seq<char>, Seq<char>)>
    decreases typed.len(),
{
    if typed.len() == 0 {
        Seq::empty()
    } else {
        all_bindings(typed.drop_last()) + bindings_of(typed.last()@)
    }
}

/// The keys of a list of bindings.
pub open spec fn binding_keys(bindings: Seq<(Seq<char>, Seq<char>)>) -> Seq<Seq<char>> {
    bindings.map_values(|b: (Seq<char>, Seq<char>)| b.0)
}

/// The root-element type that a part is bound to.
pub open spec fn bound_type(bindings: Seq<(Seq<char>, Seq<char>)>, part: Seq<char>) -> Option<
    Seq<char>,
> {
    match last_index(binding_keys(bindings), part) {
        Some(i) => Some(bindings[i].1),
        None => None,
    }
}

/// The tables of a description: each list of names stands beside the
/// items that it names.
pub struct Symbols {
    pub part_names: Vec<String>,
    pub namespace_uris: Vec<String>,
    pub namespace_enabled: Vec<bool>,
    pub type_names: Vec<String>,
    pub type_survives: Vec<bool>,
    pub type_refs: Vec<TypeRef>,
    pub binding_keys: Vec<String>,
    pub binding_values: Vec<String>,
}

impl Symbols {
    /// The tables are those of the given description.
    pub open spec fn describes(
        &self,
        parts: Seq<OpenXmlPart>,
        schemas: Seq<OpenXmlSchema>,
        namespaces: Seq<OpenXmlNamespace>,
        typed: Seq<Vec<TypedSchema>>,
        f: Features,
    ) -> bool {
        let entries = type_entries(schemas, namespaces, f);
        let bindings = all_bindings(typed);
        &&& names_view(self.part_names@) == part_names(parts)
        &&& names_view(self.namespace_uris@) == namespace_uris(namespaces)
        &&& self.namespace_enabled@.len() == namespaces.len()
        &&& forall|k: int|
            0 <= k < namespaces.len() ==> self.namespace_enabled@[k] == version_enabled(
                (#[trigger] namespaces[k]).version@,
                f,
            )
        &&& names_view(self.type_names@) == entry_names(entries)
        &&& self.type_survives@.len() == entries.len()
        &&& self.type_refs@.len() == entries.len()
        &&& forall|k: int|
            0 <= k < entries.len() ==> {
                &&& self.type_survives@[k] == (#[trigger] entries[k]).survives
                &&& self.type_refs@[k].schema == entries[k].schema
                &&& self.type_refs@[k].index == entries[k].index
            }
        &&& names_view(self.binding_keys@) == binding_keys(bindings)
        &&& self.binding_values@.len() == bindings.len()
        &&& forall|k: int|
            0 <= k < bindings.len() ==> self.binding_values@[k]@ == (#[trigger] bindings[k]).1
    }

    /// Gathers the names of a description.
    pub fn gather(
        parts: &Vec<OpenXmlPart>,
        schemas: &Vec<OpenXmlSchema>,
        namespaces: &Vec<OpenXmlNamespace>,
        typed: &Vec<Vec<TypedSchema>>,
        features: &Features,
    ) -> (r: Symbols)
        ensures
            r.describes(parts@, schemas@, namespaces@, typed@, *features),
    {
        let part_names = gather_part_names(parts);
        let namespace_uris = gather_namespace_uris(namespaces);
        let namespace_enabled = gather_namespace_enabled(namespaces, features);
        let (binding_keys, binding_values) = gather_bindings(typed);
        let (type_names, type_survives, type_refs) = gather_types(
            schemas,
            namespaces,
            &namespace_uris,
            features,
        );
        Symbols {
            part_names,
            namespace_uris,
            namespace_enabled,
            type_names,
            type_survives,
            type_refs,
            binding_keys,
            binding_values,
        }
    }
}

fn gather_part_names(parts: &Vec<OpenXmlPart>) -> (names: Vec<String>)
    ensures
        names_view(names@) == part_names(parts@),
{
    let mut names: Vec<String> = Vec::new();
    let mut i: usize = 0;
    while i < parts.len()
        invariant
            i <= parts@.len(),
            names_view(names@) == part_names(parts@.take(i as int)),
        decreases parts@.len() - i,
    {
        proof {
            lemma_names_push(names@, parts@[i as int].name);
            assert(part_names(parts@.take(i + 1)) =~= part_names(parts@.take(i as int)).push(
                parts@[i as int].name@,
            ));
        }
        names.push(parts[i].name.clone());
        i += 1;
    }
    assert(parts@.take(i as int) =~= parts@);
    names
}

fn gather_namespace_uris(namespaces: &Vec<OpenXmlNamespace>) -> (names: Vec<String>)
    ensures
        names_view(names@) == namespace_uris(namespaces@),
{
    let mut names: Vec<String> = Vec::new();
    let mut i: usize = 0;
    while i < namespaces.len()
        invariant
            i <= namespaces@.len(),
            names_view(names@) == namespace_uris(namespaces@.take(i as int)),
        decreases namespaces@.len() - i,
    {
        proof {
            lemma_names_push(names@, namespaces@[i as int].uri);
            assert(namespace_uris(namespaces@.take(i + 1)) =~= namespace_uris(
                namespaces@.take(i as int),
            ).push(namespaces@[i as int].uri@));
        }
        names.push(namespaces[i].uri.clone());
        i += 1;
    }
    assert(namespaces@.take(i as int) =~= namespaces@);
    names
}

fn gather_namespace_enabled(namespaces: &Vec<OpenXmlNamespace>, features: &Features) -> (flags:
    Vec<bool>)
    ensures
        flags@.len() == namespaces@.len(),
        forall|k: int|
            0 <= k < namespaces@.len() ==> flags@[k] == version_enabled(
                (#[trigger] namespaces@[k]).version@,
                *features,
            ),
{
    let mut flags: Vec<bool> = Vec::new();
    let mut i: usize = 0;
    while i < namespaces.len()
        invariant
            i <= namespaces@.len(),
            flags@.len() == i,
            forall|k: int|
                0 <= k < i ==> flags@[k] == version_enabled(
                    (#[trigger] namespaces@[k]).version@,
                    *features,
                ),
        decreases namespaces@.len() - i,
    {
        flags.push(check_office_version(namespaces[i].version.as_str(), features));
        i += 1;
    }
    flags
}

pub fn gather_bindings(typed: &Vec<Vec<TypedSchema>>) -> (r: (Vec<String>, Vec<String>))
    ensures
        names_view(r.0@) == binding_keys(all_bindings(typed@)),
        r.1@.len() == all_bindings(typed@).len(),
        forall|k: int|
            0 <= k < all_bindings(typed@).len() ==> r.1@[k]@ == (#[trigger] all_bindings(
                typed@,
            )[k]).1,
{
    let mut keys: Vec<String> = Vec::new();
    let mut values: Vec<String> = Vec::new();
    let mut i: usize = 0;
    assert(typed@.take(0) =~= Seq::empty());
    assert(names_view(keys@) =~= binding_keys(all_bindings(typed@.take(0))));
    while i < typed.len()
        invariant
            i <= typed@.len(),
            names_view(keys@) == binding_keys(all_bindings(typed@.take(i as int))),
            values@.len() == all_bindings(typed@.take(i as int)).len(),
            forall|k: int|
                0 <= k < values@.len() ==> values@[k]@ == (#[trigger] all_bindings(
                    typed@.take(i as int),
                )[k]).1,
        decreases typed@.len() - i,
    {
        let list = &typed[i];
        let ghost head = all_bindings(typed@.take(i as int));
        let mut j: usize = 0;
        assert(list@.take(0) =~= Seq::empty());
        assert(head + bindings_of(list@.take(0)) =~= head);
        while j < list.len()
            invariant
                j <= list@.len(),
                names_view(keys@) == binding_keys(head + bindings_of(list@.take(j as int))),
                values@.len() == (head + bindings_of(list@.take(j as int))).len(),
                forall|k: int|
                    0 <= k < values@.len() ==> values@[k]@ == (#[trigger] (head + bindings_of(
                        list@.take(j as int),
                    ))[k]).1,
            decreases list@.len() - j,
        {
            let ghost before = head + bindings_of(list@.take(j as int));
            assert(list@.take(j + 1).drop_last() =~= list@.take(j as int));
            if !list[j].part_class_name.as_str().is_empty() {
                proof {
                    lemma_names_push(keys@, list@[j as int].part_class_name);
                    assert(binding_keys(
                        before.push((list@[j as int].part_class_name@, list@[j as int].name@)),
                    ) =~= binding_keys(before).push(list@[j as int].part_class_name@));
                }
                keys.push(list[j].part_class_name.clone());
                values.push(list[j].name.clone());
                let ghost after = head + bindings_of(list@.take(j + 1));
                assert(after =~= before.push((list@[j as int].part_class_name@, list@[j as int].name@)));
                assert(names_view(keys@) =~= binding_keys(after));
                assert forall|k: int| 0 <= k < values@.len() implies values@[k]@ == (
                #[trigger] after[k]).1 by {
                    if k < before.len() {
                        assert(after[k] == before[k]);
                    }
                }
            }
            j += 1;
        }
        assert(list@.take(j as int) =~= list@);
        assert(typed@.take(i + 1).drop_last() =~= typed@.take(i as int));
        i += 1;
    }
    assert(typed@.take(i as int) =~= typed@);
    (keys, values)
}

/// The version check of the namespace of a schema.
pub fn check_schema_enabled(
    schema: &OpenXmlSchema,
    namespaces: &Vec<OpenXmlNamespace>,
    uris: &Vec<String>,
    features: &Features,
) -> (r: bool)
    requires
        names_view(uris@) == namespace_uris(namespaces@),
    ensures
        r == schema_enabled(*schema, namespaces@, *features),
{
    assert(uris@.len() == namespace_uris(namespaces@).len());
    match find_last_key(uris, schema.target_namespace.as_str()) {
        Some(i) => check_office_version(namespaces[i].version.as_str(), features),
        None => false,
    }
}

fn gather_types(
    schemas: &Vec<OpenXmlSchema>,
    namespaces: &Vec<OpenXmlNamespace>,
    uris: &Vec<String>,
    features: &Features,
) -> (r: (Vec<String>, Vec<bool>, Vec<TypeRef>))
    requires
        names_view(uris@) == namespace_uris(namespaces@),
    ensures
        ({
            let entries = type_entries(schemas@, namespaces@, *features);
            &&& names_view(r.0@) == entry_names(entries)
            &&& r.1@.len() == entries.len()
            &&& r.2@.len() == entries.len()
            &&& forall|k: int|
                0 <= k < entries.len() ==> {
                    &&& r.1@[k] == (#[trigger] entries[k]).survives
                    &&& r.2@[k].schema == entries[k].schema
                    &&& r.2@[k].index == entries[k].index
                }
        }),
{
    let mut names: Vec<String> = Vec::new();
    let mut survives: Vec<bool> = Vec::new();
    let mut refs: Vec<TypeRef> = Vec::new();
    let mut s: usize = 0;
    assert(schemas@.take(0) =~= Seq::empty());
    assert(names_view(names@) =~= entry_names(type_entries(schemas@.take(0), namespaces@, *features)));
    while s < schemas.len()
        invariant
            s <= schemas@.len(),
            names_view(uris@) == namespace_uris(namespaces@),
            ({
                let entries = type_entries(schemas@.take(s as int), namespaces@, *features);
                &&& names_view(names@) == entry_names(entries)
                &&& survives@.len() == entries.len()
                &&& refs@.len() == entries.len()
                &&& forall|k: int|
                    0 <= k < entries.len() ==> {
                        &&& survives@[k] == (#[trigger] entries[k]).survives
                        &&& refs@[k].schema == entries[k].schema
                        &&& refs@[k].index == entries[k].index
                    }
            }),
        decreases schemas@.len() - s,
    {
        let schema = &schemas[s];
        let enabled = check_schema_enabled(schema, namespaces, uris, features);
        let ghost head = type_entries(schemas@.take(s as int), namespaces@, *features);
        let ghost row = schema_entries(*schema, s as int, namespaces@, *features);
        let mut t: usize = 0;
        assert(head + row.take(0) =~= head);
        while t < schema.types.len()
            invariant
                t <= schema.types@.len(),
                s < schemas@.len(),
                schema == &schemas@[s as int],
                enabled == schema_enabled(*schema, namespaces@, *features),
                head == type_entries(schemas@.take(s as int), namespaces@, *features),
                row == schema_entries(*schema, s as int, namespaces@, *features),
                ({
                    let entries = head + row.take(t as int);
                    &&& names_view(names@) == entry_names(entries)
                    &&& survives@.len() == entries.len()
                    &&& refs@.len() == entries.len()
                    &&& forall|k: int|
                        0 <= k < entries.len() ==> {
                            &&& survives@[k] == (#[trigger] entries[k]).survives
                            &&& refs@[k].schema == entries[k].schema
                            &&& refs@[k].index == entries[k].index
                        }
                }),
            decreases schema.types@.len() - t,
        {
            let ty = &schema.types[t];
            let ghost before = head + row.take(t as int);
            let ghost after = head + row.take(t + 1);
            proof {
                lemma_names_push(names@, ty.name);
                assert(entry_names(before.push(row[t as int])) =~= entry_names(before).push(
                    ty.name@,
                ));
            }
            names.push(ty.name.clone());
            survives.push(enabled && check_office_version(ty.version.as_str(), features));
            refs.push(TypeRef { schema: s, index: t });
            proof {
                assert(after =~= before.push(row[t as int]));
                assert(names_view(names@) =~= entry_names(after));
                assert forall|k: int| 0 <= k < after.len() implies {
                    &&& survives@[k] == (#[trigger] after[k]).survives
                    &&& refs@[k].schema == after[k].schema
                    &&& refs@[k].index == after[k].index
                } by {
                    if k < before.len() {
                        assert(after[k] == before[k]);
                    }
                }
            }
            t += 1;
        }
        proof {
            assert(row.take(t as int) =~= row);
            assert(schemas@.take(s + 1).drop_last() =~= schemas@.take(s as int));
            assert(schemas@.take(s + 1).last() == schemas@[s as int]);
        }
        s += 1;
    }
    assert(schemas@.take(s as int) =~= schemas@);
    (names, survives, refs)
}

} // verus!
