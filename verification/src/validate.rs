//! The check that every name a description refers to is defined in it.

use crate::models::{
    OpenXmlPart, OpenXmlPartChild, OpenXmlSchema, OpenXmlSchemaType, OpenXmlSchemaTypeChild,
};
use crate::reduce_parts::{root_part_names, Description, PartIndex};
use crate::symbols::{bound_type, entry_names, lemma_type_entries, namespace_uris, part_names};
use crate::tables::{find_last_key, last_index, names_view};
use crate::utils::{missing, BuildError, BuildErrorView};
use vstd::prelude::*;

verus! {

/// The first of the keys, from `from` on, that the table does not hold.
pub open spec fn first_missing(keys: Seq<Seq<char>>, table: Seq<Seq<char>>, from: int) -> Option<
    Seq<char>,
>
    decreases keys.len() - from,
{
    if from < 0 || from >= keys.len() {
        None
    } else if last_index(table, keys[from]) is None {
        Some(keys[from])
    } else {
        first_missing(keys, table, from + 1)
    }
}

/// The first of two findings.
pub open spec fn or_else(a: Option<Seq<char>>, b: Option<Seq<char>>) -> Option<Seq<char>> {
    match a {
        Some(x) => Some(x),
        None => b,
    }
}

/// The names of the types that the children of a type refer to.
pub open spec fn type_child_keys(ty: OpenXmlSchemaType) -> Seq<Seq<char>> {
    ty.children@.map_values(|c: OpenXmlSchemaTypeChild| c.name@)
}

/// The names of the parts that the children of a part refer to; a
/// reference to a data part names no part.
pub open spec fn part_child_keys(p: OpenXmlPart) -> Seq<Seq<char>> {
    p.children@.filter(|c: OpenXmlPartChild| !c.is_data_part_reference).map_values(
        |c: OpenXmlPartChild| c.name@,
    )
}

/// The addresses of the namespaces that the schemas describe.
pub open spec fn schema_keys(schemas: Seq<OpenXmlSchema>) -> Seq<Seq<char>> {
    schemas.map_values(|s: OpenXmlSchema| s.target_namespace@)
}

impl Description {
    /// The name of the root-element type that a part is bound to, if no
    /// type has that name.
    pub open spec fn missing_bound_type(self, p: OpenXmlPart) -> Option<Seq<char>> {
        match bound_type(self.bindings(), p.name@) {
            Some(name) => if self.type_index(name) is None {
                Some(name)
            } else {
                None
            },
            None => None,
        }
    }

    /// The first name that a part refers to and that is not defined: the
    /// type of its root element, or the part of one of its children.
    pub open spec fn missing_in_part(self, p: OpenXmlPart) -> Option<Seq<char>> {
        or_else(
            self.missing_bound_type(p),
            first_missing(part_child_keys(p), part_names(self.parts), 0),
        )
    }

    /// The first undefined name that the parts from `from` on refer to.
    pub open spec fn missing_in_parts(self, from: int) -> Option<Seq<char>>
        decreases self.parts.len() - from,
    {
        if from < 0 || from >= self.parts.len() {
            None
        } else {
            or_else(self.missing_in_part(self.parts[from]), self.missing_in_parts(from + 1))
        }
    }

    /// The first undefined name that the children of the types from `from`
    /// on refer to.
    pub open spec fn missing_in_types(self, from: int) -> Option<Seq<char>>
        decreases self.entries().len() - from,
    {
        if from < 0 || from >= self.entries().len() {
            None
        } else {
            or_else(
                first_missing(
                    type_child_keys(self.entry_type(from)),
                    entry_names(self.entries()),
                    0,
                ),
                self.missing_in_types(from + 1),
            )
        }
    }

    /// The first name that the description refers to and does not define:
    /// the namespace of a schema, the type of a child element, the root
    /// element or a child of a part, the root part of a selected kind of
    /// document; in this order.
    pub open spec fn missing_name(self) -> Option<Seq<char>> {
        or_else(
            first_missing(schema_keys(self.schemas), namespace_uris(self.namespaces), 0),
            or_else(
                self.missing_in_types(0),
                or_else(
                    self.missing_in_parts(0),
                    first_missing(root_part_names(self.features), part_names(self.parts), 0),
                ),
            ),
        )
    }
}

/// Looks for the first of the keys that a table does not hold.
pub fn find_first_missing(keys: &Vec<String>, table: &Vec<String>) -> (r: Option<usize>)
    ensures
        match r {
            Some(i) => i < keys@.len() && first_missing(names_view(keys@), names_view(table@), 0)
                == Some(keys@[i as int]@),
            None => first_missing(names_view(keys@), names_view(table@), 0) is None,
        },
{
    let ghost ks = names_view(keys@);
    let ghost tb = names_view(table@);
    let mut i: usize = 0;
    while i < keys.len()
        invariant
            i <= keys@.len(),
            ks == names_view(keys@),
            tb == names_view(table@),
            first_missing(ks, tb, 0) == first_missing(ks, tb, i as int),
        decreases keys@.len() - i,
    {
        assert(ks[i as int] == keys@[i as int]@);
        if find_last_key(table, keys[i].as_str()).is_none() {
            return Some(i);
        }
        i += 1;
    }
    None
}

fn result_of(keys: &Vec<String>, found: Option<usize>) -> (r: Result<(), BuildError>)
    requires
        found matches Some(i) ==> i < keys@.len(),
    ensures
        match r {
            Ok(_) => found is None,
            Err(e) => found is Some && e@ == BuildErrorView::HashMapExpectedSomeError(
                keys@[found->Some_0 as int]@,
            ),
        },
{
    match found {
        Some(i) => Err(missing(keys[i].as_str())),
        None => Ok(()),
    }
}

fn gather_schema_keys(schemas: &Vec<OpenXmlSchema>) -> (keys: Vec<String>)
    ensures
        names_view(keys@) == schema_keys(schemas@),
{
    let mut keys: Vec<String> = Vec::new();
    let mut i: usize = 0;
    while i < schemas.len()
        invariant
            i <= schemas@.len(),
            keys@.len() == i,
            forall|k: int| 0 <= k < i ==> keys@[k]@ == schemas@[k].target_namespace@,
        decreases schemas@.len() - i,
    {
        keys.push(schemas[i].target_namespace.clone());
        i += 1;
    }
    assert(names_view(keys@) =~= schema_keys(schemas@));
    keys
}

fn gather_type_child_keys(ty: &OpenXmlSchemaType) -> (keys: Vec<String>)
    ensures
        names_view(keys@) == type_child_keys(*ty),
{
    let mut keys: Vec<String> = Vec::new();
    let mut i: usize = 0;
    while i < ty.children.len()
        invariant
            i <= ty.children@.len(),
            keys@.len() == i,
            forall|k: int| 0 <= k < i ==> keys@[k]@ == ty.children@[k].name@,
        decreases ty.children@.len() - i,
    {
        keys.push(ty.children[i].name.clone());
        i += 1;
    }
    assert(names_view(keys@) =~= type_child_keys(*ty));
    keys
}

fn gather_part_child_keys(p: &OpenXmlPart) -> (keys: Vec<String>)
    ensures
        names_view(keys@) == part_child_keys(*p),
{
    let ghost pred = |c: OpenXmlPartChild| !c.is_data_part_reference;
    let ghost name = |c: OpenXmlPartChild| c.name@;
    let mut keys: Vec<String> = Vec::new();
    let mut i: usize = 0;
    assert(p.children@.take(0) =~= Seq::empty());
    assert(names_view(keys@) =~= p.children@.take(0).filter(pred).map_values(name)) by {
        reveal(Seq::filter);
    }
    while i < p.children.len()
        invariant
            i <= p.children@.len(),
            pred == |c: OpenXmlPartChild| !c.is_data_part_reference,
            name == |c: OpenXmlPartChild| c.name@,
            names_view(keys@) == p.children@.take(i as int).filter(pred).map_values(name),
        decreases p.children@.len() - i,
    {
        let ghost before = p.children@.take(i as int);
        let ghost after = p.children@.take(i + 1);
        proof {
            reveal(Seq::filter);
            assert(after.drop_last() =~= before);
            assert(after.last() == p.children@[i as int]);
        }
        if !p.children[i].is_data_part_reference {
            let ghost old_keys = names_view(keys@);
            keys.push(p.children[i].name.clone());
            proof {
                assert(after.filter(pred) == before.filter(pred).push(p.children@[i as int]));
                assert(names_view(keys@) =~= old_keys.push(p.children@[i as int].name@));
                assert(after.filter(pred).map_values(name) =~= before.filter(pred).map_values(
                    name,
                ).push(p.children@[i as int].name@));
            }
        }
        i += 1;
    }
    assert(p.children@.take(i as int) =~= p.children@);
    keys
}

fn gather_root_names(index: &PartIndex) -> (keys: Vec<String>)
    ensures
        names_view(keys@) == root_part_names(index.features),
{
    let mut keys: Vec<String> = Vec::new();
    if index.features.docx {
        keys.push("WordprocessingDocument".to_owned());
    }
    if index.features.xlsx {
        keys.push("SpreadsheetDocument".to_owned());
    }
    if index.features.pptx {
        keys.push("PresentationDocument".to_owned());
    }
    assert(names_view(keys@) =~= root_part_names(index.features));
    keys
}

fn check_part(index: &PartIndex, p: &OpenXmlPart) -> (r: Result<(), BuildError>)
    requires
        index.describes_symbols(),
    ensures
        match r {
            Ok(_) => index.description@.missing_in_part(*p) is None,
            Err(e) => index.description@.missing_in_part(*p) matches Some(key) && e@
                == BuildErrorView::HashMapExpectedSomeError(key),
        },
{
    match index.find_bound_type(p.name.as_str()) {
        Some(name) => {
            if find_last_key(&index.symbols.type_names, name.as_str()).is_none() {
                return Err(missing(name.as_str()));
            }
        },
        None => {},
    }
    let keys = gather_part_child_keys(p);
    let found = find_first_missing(&keys, &index.symbols.part_names);
    result_of(&keys, found)
}

/// Checks that every name the description refers to is defined in it; the
/// error carries the first name that is not.
pub fn check_references(index: &PartIndex, parts: &Vec<OpenXmlPart>, schemas: &Vec<OpenXmlSchema>)
    -> (r: Result<(), BuildError>)
    requires
        index.describes_symbols(),
        parts@ == index.description@.parts,
        schemas@ == index.description@.schemas,
    ensures
        match r {
            Ok(_) => index.description@.missing_name() is None,
            Err(e) => index.description@.missing_name() matches Some(key) && e@
                == BuildErrorView::HashMapExpectedSomeError(key),
        },
{
    let ghost d = index.description@;
    let keys = gather_schema_keys(schemas);
    let found = find_first_missing(&keys, &index.symbols.namespace_uris);
    match result_of(&keys, found) {
        Err(e) => {
            return Err(e);
        },
        Ok(_) => {},
    }
    let n = index.symbols.type_names.len();
    assert(n == d.entries().len()) by {
        assert(names_view(index.symbols.type_names@).len() == d.entries().len());
    }
    let mut k: usize = 0;
    while k < n
        invariant
            k <= n,
            n == d.entries().len(),
            index.describes_symbols(),
            d == index.description@,
            schemas@ == d.schemas,
            first_missing(schema_keys(d.schemas), namespace_uris(d.namespaces), 0) is None,
            d.missing_in_types(0) == d.missing_in_types(k as int),
        decreases n - k,
    {
        proof {
            lemma_type_entries(d.schemas, d.namespaces, d.features, k as int);
        }
        let at = index.symbols.type_refs[k];
        let ty = &schemas[at.schema].types[at.index];
        assert(*ty == d.entry_type(k as int));
        let keys = gather_type_child_keys(ty);
        let found = find_first_missing(&keys, &index.symbols.type_names);
        match result_of(&keys, found) {
            Err(e) => {
                return Err(e);
            },
            Ok(_) => {},
        }
        k += 1;
    }
    let mut p: usize = 0;
    while p < parts.len()
        invariant
            p <= parts@.len(),
            index.describes_symbols(),
            d == index.description@,
            parts@ == d.parts,
            d.missing_in_types(0) is None,
            first_missing(schema_keys(d.schemas), namespace_uris(d.namespaces), 0) is None,
            d.missing_in_parts(0) == d.missing_in_parts(p as int),
        decreases parts@.len() - p,
    {
        match check_part(index, &parts[p]) {
            Err(e) => {
                return Err(e);
            },
            Ok(_) => {},
        }
        p += 1;
    }
    let keys = gather_root_names(index);
    let found = find_first_missing(&keys, &index.symbols.part_names);
    result_of(&keys, found)
}

} // verus!
