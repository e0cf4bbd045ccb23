//! The types of a build: those whose version is enabled and that the root
//! elements of the kept parts can reach, each without the members that the
//! version filter removes.

use crate::features::{check_office_version, version_enabled};
use crate::graph::{
    keep_selected, lemma_reachable_is_reaches, lemma_select_is_filter, lists, reach, reaches,
};
use crate::models::{
    is_leaf_item, is_qualified, last_child_named, owner_of, ChildMap, OpenXmlPart, OpenXmlSchema,
    OpenXmlSchemaEnum, OpenXmlSchemaEnumFacet, OpenXmlSchemaType, OpenXmlSchemaTypeAttribute,
    OpenXmlSchemaTypeChild, OpenXmlSchemaTypeParticle,
};
use crate::reduce_parts::{Description, PartIndex};
use crate::symbols::{bound_type, lemma_type_entries, schema_enabled};
use crate::tables::{find_last_key, names_view, reversed};
use crate::text::{concat, str_split_once};
use crate::utils::BuildError;
use vstd::prelude::*;

verus! {

/// The name of the base type of a derived type: the owner of the type's
/// name, followed by a `/`.
pub open spec fn base_name_of(name: Seq<char>) -> Seq<char> {
    owner_of(name) + "/"@
}

impl Description {
    /// The type that an entry of the tables stands for.
    pub open spec fn entry_type(self, k: int) -> OpenXmlSchemaType {
        self.schemas[self.entries()[k].schema].types@[self.entries()[k].index]
    }

    /// The surviving type that a name stands for.
    pub open spec fn type_target(self, name: Seq<char>) -> Option<int> {
        match self.type_index(name) {
            Some(b) => if 0 <= b < self.entries().len() && self.entries()[b].survives {
                Some(b)
            } else {
                None
            },
            None => None,
        }
    }

    /// The surviving base type of a type, if the type is derived.
    pub open spec fn base_target(self, ty: OpenXmlSchemaType) -> Option<int> {
        if ty.is_derived && is_qualified(ty.name@) {
            self.type_target(base_name_of(ty.name@))
        } else {
            None
        }
    }

    /// The root element of a part that is kept and has one.
    pub open spec fn root_target(self, p: OpenXmlPart) -> Option<int> {
        if self.part_kept(p) && p.base@ == "OpenXmlPart"@ && p.root@.len() > 0 {
            match bound_type(self.bindings(), p.name@) {
                Some(name) => self.type_target(name),
                None => None,
            }
        } else {
            None
        }
    }

    /// The roots of the type graph: the root elements of the kept parts.
    pub open spec fn type_root(self, r: int) -> bool {
        exists|p: int|
            0 <= p < self.parts.len() && self.root_target(#[trigger] self.parts[p]) == Some(r)
    }

    /// The edges of the type graph: from a type to the types of its child
    /// elements and to its base type, as far as they survive.
    pub open spec fn type_edge(self, a: int, b: int) -> bool {
        &&& 0 <= a < self.entries().len()
        &&& (self.base_target(self.entry_type(a)) == Some(b) || exists|c: int|
            0 <= c < self.entry_type(a).children@.len() && self.type_target(
                (#[trigger] self.entry_type(a).children@[c]).name@,
            ) == Some(b))
    }

    /// Whether the root elements of the kept parts reach the type at `n`.
    pub open spec fn type_reached(self, n: int) -> bool {
        reaches(
            self.entries().len() as int,
            |r: int| self.type_root(r),
            |a: int, b: int| self.type_edge(a, b),
            n,
        )
    }

    /// Whether a type is in the build: its version is enabled, and the
    /// type that its name stands for is reached.
    pub open spec fn type_kept(self, ty: OpenXmlSchemaType) -> bool {
        version_enabled(ty.version@, self.features) && match self.type_index(ty.name@) {
            Some(j) => self.type_reached(j),
            None => false,
        }
    }

    /// Whether a reference to a child element stays: the type that it
    /// names survives.
    pub open spec fn type_child_kept(self, c: OpenXmlSchemaTypeChild) -> bool {
        self.type_name_survives(c.name@)
    }

    /// Whether an item of a particle stays: its version is enabled, and
    /// where it names a child element, a reference to that child stays.
    pub open spec fn item_kept(
        self,
        children: Seq<OpenXmlSchemaTypeChild>,
        item: OpenXmlSchemaTypeParticle,
    ) -> bool {
        version_enabled(item.initial_version@, self.features) && (is_leaf_item(item)
            ==> last_child_named(children, item.name@) is Some)
    }

    /// A type of the build: the type of the description without the
    /// attributes, the references to children and the particle items that
    /// do not stay.
    pub open spec fn type_pruned(self, inp: OpenXmlSchemaType, out: OpenXmlSchemaType) -> bool {
        &&& out == (OpenXmlSchemaType {
            attributes: out.attributes,
            children: out.children,
            particle: out.particle,
            ..inp
        })
        &&& out.attributes@ == inp.attributes@.filter(
            |a: OpenXmlSchemaTypeAttribute| version_enabled(a.version@, self.features),
        )
        &&& out.children@ == inp.children@.filter(
            |c: OpenXmlSchemaTypeChild| self.type_child_kept(c),
        )
        &&& out.particle == (OpenXmlSchemaTypeParticle {
            items: out.particle.items,
            ..inp.particle
        })
        &&& out.particle.items@ == inp.particle.items@.filter(
            |i: OpenXmlSchemaTypeParticle| self.item_kept(out.children@, i),
        )
    }

    /// An enumeration of the build: the enumeration of the description
    /// without the facets whose version is not enabled.
    pub open spec fn enum_pruned(self, inp: OpenXmlSchemaEnum, out: OpenXmlSchemaEnum) -> bool {
        &&& out == (OpenXmlSchemaEnum { facets: out.facets, ..inp })
        &&& out.facets@ == inp.facets@.filter(
            |x: OpenXmlSchemaEnumFacet| version_enabled(x.version@, self.features),
        )
    }

    /// A schema of the build: its kept types and its enabled
    /// enumerations, in their order, each pruned.
    pub open spec fn schema_pruned(self, inp: OpenXmlSchema, out: OpenXmlSchema) -> bool {
        let types = inp.types@.filter(|t: OpenXmlSchemaType| self.type_kept(t));
        let enums = inp.enums@.filter(
            |e: OpenXmlSchemaEnum| version_enabled(e.version@, self.features),
        );
        &&& out == (OpenXmlSchema { types: out.types, enums: out.enums, ..inp })
        &&& out.types@.len() == types.len()
        &&& forall|k: int|
            0 <= k < types.len() ==> self.type_pruned(#[trigger] types[k], out.types@[k])
        &&& out.enums@.len() == enums.len()
        &&& forall|k: int|
            0 <= k < enums.len() ==> self.enum_pruned(#[trigger] enums[k], out.enums@[k])
    }

    /// The schemas of the build: the schemas of the description whose
    /// namespace is enabled, in their order, each pruned.
    pub open spec fn schemas_reduced(self, out: Seq<OpenXmlSchema>) -> bool {
        let kept = self.schemas.filter(
            |s: OpenXmlSchema| schema_enabled(s, self.namespaces, self.features),
        );
        &&& out.len() == kept.len()
        &&& forall|k: int| 0 <= k < kept.len() ==> self.schema_pruned(#[trigger] kept[k], out[k])
    }
}

/// What the reduction of a description knows: of its parts, and for each
/// type whether it is reached.
pub struct Reducer {
    pub parts: PartIndex,
    pub type_reached: Vec<bool>,
}

impl Reducer {
    pub open spec fn description(&self) -> Description {
        self.parts.description@
    }

    /// The flags say which types are reached.
    pub open spec fn describes_reached(&self) -> bool {
        let d = self.description();
        &&& self.type_reached@.len() == d.entries().len()
        &&& forall|i: int| 0 <= i < d.entries().len() ==> self.type_reached@[i] == d.type_reached(i)
    }

    pub open spec fn wf(&self) -> bool {
        self.parts.wf() && self.describes_reached()
    }

    /// The type that a name stands for.
    pub fn find_type(&self, name: &str) -> (r: Option<usize>)
        requires
            self.parts.describes_symbols(),
        ensures
            match r {
                Some(j) => self.description().type_index(name@) == Some(j as int) && j
                    < self.description().entries().len(),
                None => self.description().type_index(name@) is None,
            },
    {
        let r = find_last_key(&self.parts.symbols.type_names, name);
        assert(names_view(self.parts.symbols.type_names@).len()
            == self.description().entries().len());
        r
    }

    /// The surviving type that a name stands for.
    pub fn type_target(&self, name: &str) -> (r: Option<usize>)
        requires
            self.parts.describes_symbols(),
        ensures
            match r {
                Some(j) => self.description().type_target(name@) == Some(j as int) && j
                    < self.description().entries().len(),
                None => self.description().type_target(name@) is None,
            },
    {
        match self.find_type(name) {
            Some(j) => if self.parts.symbols.type_survives[j] {
                Some(j)
            } else {
                None
            },
            None => None,
        }
    }

    /// The surviving base type of a type.
    pub fn base_target(&self, ty: &OpenXmlSchemaType) -> (r: Option<usize>)
        requires
            self.parts.describes_symbols(),
        ensures
            match r {
                Some(j) => self.description().base_target(*ty) == Some(j as int) && j
                    < self.description().entries().len(),
                None => self.description().base_target(*ty) is None,
            },
    {
        if !ty.is_derived {
            return None;
        }
        match str_split_once(ty.name.as_str(), '/') {
            Some((owner, _)) => {
                let base = concat(owner, "/");
                self.type_target(base.as_str())
            },
            None => None,
        }
    }

    /// The root element of a part.
    pub fn root_target(&self, p: &OpenXmlPart) -> (r: Option<usize>)
        requires
            self.parts.wf(),
        ensures
            match r {
                Some(j) => self.description().root_target(*p) == Some(j as int) && j
                    < self.description().entries().len(),
                None => self.description().root_target(*p) is None,
            },
    {
        if self.parts.part_kept(p) && p.base.as_str().eq("OpenXmlPart")
            && !p.root.as_str().is_empty() {
            match self.parts.find_bound_type(p.name.as_str()) {
                Some(name) => self.type_target(name.as_str()),
                None => None,
            }
        } else {
            None
        }
    }

    /// Whether a type is in the build.
    pub fn type_kept(&self, ty: &OpenXmlSchemaType) -> (r: bool)
        requires
            self.wf(),
        ensures
            r == self.description().type_kept(*ty),
    {
        if !check_office_version(ty.version.as_str(), &self.parts.features) {
            return false;
        }
        match self.find_type(ty.name.as_str()) {
            Some(j) => self.type_reached[j],
            None => false,
        }
    }

    /// The edges that leave one type.
    fn type_edges(&self, schemas: &Vec<OpenXmlSchema>, a: usize) -> (row: Vec<usize>)
        requires
            self.parts.describes_symbols(),
            schemas@ == self.description().schemas,
            a < self.description().entries().len(),
        ensures
            forall|b: int|
                0 <= b < self.description().entries().len() ==> #[trigger] lists(row@, b)
                    == self.description().type_edge(a as int, b),
    {
        let ghost d = self.description();
        proof {
            lemma_type_entries(d.schemas, d.namespaces, d.features, a as int);
        }
        let at = self.parts.symbols.type_refs[a];
        let ty = &schemas[at.schema].types[at.index];
        assert(*ty == d.entry_type(a as int));
        let mut row: Vec<usize> = Vec::new();
        match self.base_target(ty) {
            Some(j) => {
                row.push(j);
                assert(row@[0] == j);
            },
            None => {},
        }
        let ghost first = row@;
        let mut c: usize = 0;
        while c < ty.children.len()
            invariant
                c <= ty.children@.len(),
                self.parts.describes_symbols(),
                d == self.description(),
                a < d.entries().len(),
                *ty == d.entry_type(a as int),
                forall|j: int|
                    0 <= j < row@.len() ==> row@[j] < d.entries().len() && d.type_edge(
                        a as int,
                        #[trigger] row@[j] as int,
                    ),
                d.base_target(*ty) matches Some(b) ==> lists(row@, b),
                forall|k: int|
                    0 <= k < c ==> (d.type_target((#[trigger] ty.children@[k]).name@) matches Some(
                        b,
                    ) ==> lists(row@, b)),
            decreases ty.children@.len() - c,
        {
            let ghost before = row@;
            match self.type_target(ty.children[c].name.as_str()) {
                Some(j) => {
                    row.push(j);
                    assert(row@[row@.len() - 1] == j);
                    assert forall|b: int| lists(before, b) implies lists(row@, b) by {
                        let x = choose|x: int| 0 <= x < before.len() && before[x] == b;
                        assert(row@[x] == b);
                    }
                },
                None => {},
            }
            c += 1;
        }
        assert forall|b: int| 0 <= b < d.entries().len() implies #[trigger] lists(row@, b)
            == d.type_edge(a as int, b) by {
            if lists(row@, b) {
                let j = choose|j: int| 0 <= j < row@.len() && #[trigger] row@[j] == b;
                assert(d.type_edge(a as int, row@[j] as int));
            }
        }
        row
    }

    /// The roots of the type graph.
    fn type_roots(&self, parts: &Vec<OpenXmlPart>) -> (roots: Vec<usize>)
        requires
            self.parts.wf(),
            parts@ == self.description().parts,
        ensures
            forall|r: int|
                0 <= r < self.description().entries().len() ==> #[trigger] lists(roots@, r)
                    == self.description().type_root(r),
    {
        let ghost d = self.description();
        let mut roots: Vec<usize> = Vec::new();
        let mut p: usize = 0;
        while p < parts.len()
            invariant
                p <= parts@.len(),
                self.parts.wf(),
                d == self.description(),
                parts@ == d.parts,
                forall|j: int| 0 <= j < roots@.len() ==> d.type_root(#[trigger] roots@[j] as int),
                forall|k: int|
                    0 <= k < p ==> (d.root_target(#[trigger] parts@[k]) matches Some(b) ==> lists(
                        roots@,
                        b,
                    )),
            decreases parts@.len() - p,
        {
            let ghost before = roots@;
            match self.root_target(&parts[p]) {
                Some(j) => {
                    roots.push(j);
                    assert(roots@[roots@.len() - 1] == j);
                    assert(d.root_target(d.parts[p as int]) == Some(j as int));
                    assert forall|b: int| lists(before, b) implies lists(roots@, b) by {
                        let x = choose|x: int| 0 <= x < before.len() && before[x] == b;
                        assert(roots@[x] == b);
                    }
                },
                None => {},
            }
            p += 1;
        }
        assert forall|r: int| 0 <= r < d.entries().len() implies #[trigger] lists(roots@, r)
            == d.type_root(r) by {
            if lists(roots@, r) {
                let j = choose|j: int| 0 <= j < roots@.len() && #[trigger] roots@[j] == r;
                assert(d.type_root(roots@[j] as int));
            }
        }
        roots
    }

    /// Gathers what the reduction needs to know.
    pub fn build(index: PartIndex, parts: &Vec<OpenXmlPart>, schemas: &Vec<OpenXmlSchema>) -> (r:
        Reducer)
        requires
            index.wf(),
            parts@ == index.description@.parts,
            schemas@ == index.description@.schemas,
        ensures
            r.wf(),
            r.parts == index,
    {
        let ghost d = index.description@;
        let mut reducer = Reducer { parts: index, type_reached: Vec::new() };
        let n = reducer.parts.symbols.type_names.len();
        assert(n == d.entries().len()) by {
            assert(names_view(reducer.parts.symbols.type_names@).len() == d.entries().len());
        }
        let mut adj: Vec<Vec<usize>> = Vec::new();
        let mut a: usize = 0;
        while a < n
            invariant
                a <= n,
                n == d.entries().len(),
                reducer.parts.wf(),
                reducer.parts == index,
                d == reducer.description(),
                schemas@ == d.schemas,
                adj@.len() == a,
                forall|x: int, b: int|
                    0 <= x < a && 0 <= b < n ==> #[trigger] lists(adj@[x]@, b) == d.type_edge(x, b),
            decreases n - a,
        {
            let row = reducer.type_edges(schemas, a);
            let ghost before = adj@;
            adj.push(row);
            assert(forall|x: int| 0 <= x < a ==> adj@[x] == before[x]);
            a += 1;
        }
        let roots = reducer.type_roots(parts);
        let reached = reach(&adj, &roots);
        proof {
            let root = |r: int| d.type_root(r);
            let edge = |x: int, y: int| d.type_edge(x, y);
            assert forall|k: int| 0 <= k < d.entries().len() implies reached@[k] == d.type_reached(
                k,
            ) by {
                lemma_reachable_is_reaches(adj@, roots@, root, edge, k);
            }
        }
        reducer.type_reached = reached;
        reducer
    }

    /// The attributes of a type that stay.
    fn prune_attributes(&self, attributes: Vec<OpenXmlSchemaTypeAttribute>) -> (r: Vec<
        OpenXmlSchemaTypeAttribute,
    >)
        ensures
            r@ == attributes@.filter(
                |a: OpenXmlSchemaTypeAttribute| version_enabled(a.version@, self.parts.features),
            ),
    {
        let mut flags: Vec<bool> = Vec::new();
        let mut i: usize = 0;
        while i < attributes.len()
            invariant
                i <= attributes@.len(),
                flags@.len() == i,
                forall|k: int|
                    0 <= k < i ==> flags@[k] == version_enabled(
                        (#[trigger] attributes@[k]).version@,
                        self.parts.features,
                    ),
            decreases attributes@.len() - i,
        {
            flags.push(check_office_version(attributes[i].version.as_str(), &self.parts.features));
            i += 1;
        }
        proof {
            lemma_select_is_filter(
                attributes@,
                flags@,
                |a: OpenXmlSchemaTypeAttribute| version_enabled(a.version@, self.parts.features),
            );
        }
        keep_selected(attributes, &flags)
    }

    /// The references to children of a type that stay.
    fn prune_children(&self, children: Vec<OpenXmlSchemaTypeChild>) -> (r: Vec<
        OpenXmlSchemaTypeChild,
    >)
        requires
            self.parts.describes_symbols(),
        ensures
            r@ == children@.filter(
                |c: OpenXmlSchemaTypeChild| self.description().type_child_kept(c),
            ),
    {
        let mut flags: Vec<bool> = Vec::new();
        let mut i: usize = 0;
        while i < children.len()
            invariant
                i <= children@.len(),
                self.parts.describes_symbols(),
                flags@.len() == i,
                forall|k: int|
                    0 <= k < i ==> flags@[k] == self.description().type_child_kept(
                        #[trigger] children@[k],
                    ),
            decreases children@.len() - i,
        {
            flags.push(self.parts.type_name_survives(children[i].name.as_str()));
            i += 1;
        }
        proof {
            lemma_select_is_filter(
                children@,
                flags@,
                |c: OpenXmlSchemaTypeChild| self.description().type_child_kept(c),
            );
        }
        keep_selected(children, &flags)
    }

    /// The items of a particle that stay, given the children that stay.
    fn prune_items(
        &self,
        items: Vec<OpenXmlSchemaTypeParticle>,
        children: &Vec<OpenXmlSchemaTypeChild>,
    ) -> (r: Vec<OpenXmlSchemaTypeParticle>)
        requires
            self.parts.describes_symbols(),
        ensures
            r@ == items@.filter(
                |i: OpenXmlSchemaTypeParticle| self.description().item_kept(children@, i),
            ),
    {
        let mut flags: Vec<bool> = Vec::new();
        let map = ChildMap { children };
        let mut i: usize = 0;
        while i < items.len()
            invariant
                i <= items@.len(),
                self.parts.describes_symbols(),
                map.children@ == children@,
                flags@.len() == i,
                forall|k: int|
                    0 <= k < i ==> flags@[k] == self.description().item_kept(
                        children@,
                        #[trigger] items@[k],
                    ),
            decreases items@.len() - i,
        {
            let item = &items[i];
            let enabled = check_office_version(
                item.initial_version.as_str(),
                &self.parts.features,
            );
            let named = !item.is_leaf() || map.index_of(item.name.as_str()).is_some();
            flags.push(enabled && named);
            i += 1;
        }
        proof {
            lemma_select_is_filter(
                items@,
                flags@,
                |i: OpenXmlSchemaTypeParticle| self.description().item_kept(children@, i),
            );
        }
        keep_selected(items, &flags)
    }

    /// A type of the build.
    pub fn prune_type(&self, ty: OpenXmlSchemaType) -> (r: OpenXmlSchemaType)
        requires
            self.parts.describes_symbols(),
        ensures
            self.description().type_pruned(ty, r),
    {
        let mut ty = ty;
        ty.attributes = self.prune_attributes(ty.attributes);
        ty.children = self.prune_children(ty.children);
        let mut particle = ty.particle;
        particle.items = self.prune_items(particle.items, &ty.children);
        ty.particle = particle;
        ty
    }

    /// An enumeration of the build.
    pub fn prune_enum(&self, e: OpenXmlSchemaEnum) -> (r: OpenXmlSchemaEnum)
        requires
            self.parts.describes_symbols(),
        ensures
            self.description().enum_pruned(e, r),
    {
        let mut e = e;
        let mut flags: Vec<bool> = Vec::new();
        let mut i: usize = 0;
        while i < e.facets.len()
            invariant
                i <= e.facets@.len(),
                flags@.len() == i,
                forall|k: int|
                    0 <= k < i ==> flags@[k] == version_enabled(
                        (#[trigger] e.facets@[k]).version@,
                        self.parts.features,
                    ),
            decreases e.facets@.len() - i,
        {
            flags.push(check_office_version(e.facets[i].version.as_str(), &self.parts.features));
            i += 1;
        }
        proof {
            lemma_select_is_filter(
                e.facets@,
                flags@,
                |x: OpenXmlSchemaEnumFacet| version_enabled(x.version@, self.parts.features),
            );
        }
        e.facets = keep_selected(e.facets, &flags);
        e
    }

    /// The kept types of a schema, each pruned.
    fn prune_types(&self, types: Vec<OpenXmlSchemaType>) -> (r: Vec<OpenXmlSchemaType>)
        requires
            self.wf(),
        ensures
            ({
                let kept = types@.filter(|t: OpenXmlSchemaType| self.description().type_kept(t));
                &&& r@.len() == kept.len()
                &&& forall|k: int|
                    0 <= k < kept.len() ==> self.description().type_pruned(
                        #[trigger] kept[k],
                        r@[k],
                    )
            }),
    {
        let ghost d = self.description();
        let mut flags: Vec<bool> = Vec::new();
        let mut i: usize = 0;
        while i < types.len()
            invariant
                i <= types@.len(),
                self.wf(),
                d == self.description(),
                flags@.len() == i,
                forall|k: int| 0 <= k < i ==> flags@[k] == d.type_kept(#[trigger] types@[k]),
            decreases types@.len() - i,
        {
            flags.push(self.type_kept(&types[i]));
            i += 1;
        }
        proof {
            lemma_select_is_filter(types@, flags@, |t: OpenXmlSchemaType| d.type_kept(t));
        }
        let kept = keep_selected(types, &flags);
        let ghost kept_view = kept@;
        let mut rest = reversed(kept);
        let mut out: Vec<OpenXmlSchemaType> = Vec::new();
        while rest.len() > 0
            invariant
                self.wf(),
                d == self.description(),
                rest@.len() + out@.len() == kept_view.len(),
                rest@ == kept_view.skip(out@.len() as int).reverse(),
                forall|k: int|
                    0 <= k < out@.len() ==> d.type_pruned(#[trigger] kept_view[k], out@[k]),
            decreases rest@.len(),
        {
            let ghost k = out@.len() as int;
            let ty = rest.pop().unwrap();
            assert(ty == kept_view[k]);
            out.push(self.prune_type(ty));
            assert(rest@ =~= kept_view.skip(out@.len() as int).reverse());
        }
        out
    }

    /// The enabled enumerations of a schema, each pruned.
    fn prune_enums(&self, enums: Vec<OpenXmlSchemaEnum>) -> (r: Vec<OpenXmlSchemaEnum>)
        requires
            self.parts.describes_symbols(),
        ensures
            ({
                let kept = enums@.filter(
                    |e: OpenXmlSchemaEnum| version_enabled(e.version@, self.parts.features),
                );
                &&& r@.len() == kept.len()
                &&& forall|k: int|
                    0 <= k < kept.len() ==> self.description().enum_pruned(
                        #[trigger] kept[k],
                        r@[k],
                    )
            }),
    {
        let ghost d = self.description();
        let mut flags: Vec<bool> = Vec::new();
        let mut i: usize = 0;
        while i < enums.len()
            invariant
                i <= enums@.len(),
                flags@.len() == i,
                forall|k: int|
                    0 <= k < i ==> flags@[k] == version_enabled(
                        (#[trigger] enums@[k]).version@,
                        self.parts.features,
                    ),
            decreases enums@.len() - i,
        {
            flags.push(check_office_version(enums[i].version.as_str(), &self.parts.features));
            i += 1;
        }
        proof {
            lemma_select_is_filter(
                enums@,
                flags@,
                |e: OpenXmlSchemaEnum| version_enabled(e.version@, self.parts.features),
            );
        }
        let kept = keep_selected(enums, &flags);
        let ghost kept_view = kept@;
        let mut rest = reversed(kept);
        let mut out: Vec<OpenXmlSchemaEnum> = Vec::new();
        while rest.len() > 0
            invariant
                self.parts.describes_symbols(),
                d == self.description(),
                rest@.len() + out@.len() == kept_view.len(),
                rest@ == kept_view.skip(out@.len() as int).reverse(),
                forall|k: int|
                    0 <= k < out@.len() ==> d.enum_pruned(#[trigger] kept_view[k], out@[k]),
            decreases rest@.len(),
        {
            let ghost k = out@.len() as int;
            let e = rest.pop().unwrap();
            assert(e == kept_view[k]);
            out.push(self.prune_enum(e));
            assert(rest@ =~= kept_view.skip(out@.len() as int).reverse());
        }
        out
    }

    /// A schema of the build.
    pub fn prune_schema(&self, schema: OpenXmlSchema) -> (r: OpenXmlSchema)
        requires
            self.wf(),
        ensures
            self.description().schema_pruned(schema, r),
    {
        let mut schema = schema;
        schema.types = self.prune_types(schema.types);
        schema.enums = self.prune_enums(schema.enums);
        schema
    }

    /// The schemas of the build.
    pub fn reduce_schemas(&self, schemas: Vec<OpenXmlSchema>) -> (r: Vec<OpenXmlSchema>)
        requires
            self.wf(),
            schemas@ == self.description().schemas,
        ensures
            self.description().schemas_reduced(r@),
    {
        let ghost d = self.description();
        let mut flags: Vec<bool> = Vec::new();
        let mut i: usize = 0;
        while i < schemas.len()
            invariant
                i <= schemas@.len(),
                self.wf(),
                d == self.description(),
                flags@.len() == i,
                forall|k: int|
                    0 <= k < i ==> flags@[k] == schema_enabled(
                        #[trigger] schemas@[k],
                        d.namespaces,
                        d.features,
                    ),
            decreases schemas@.len() - i,
        {
            flags.push(self.schema_is_enabled(&schemas[i]));
            i += 1;
        }
        proof {
            lemma_select_is_filter(
                schemas@,
                flags@,
                |s: OpenXmlSchema| schema_enabled(s, d.namespaces, d.features),
            );
        }
        let kept = keep_selected(schemas, &flags);
        let ghost kept_view = kept@;
        let mut rest = reversed(kept);
        let mut out: Vec<OpenXmlSchema> = Vec::new();
        while rest.len() > 0
            invariant
                self.wf(),
                d == self.description(),
                rest@.len() + out@.len() == kept_view.len(),
                rest@ == kept_view.skip(out@.len() as int).reverse(),
                forall|k: int|
                    0 <= k < out@.len() ==> d.schema_pruned(#[trigger] kept_view[k], out@[k]),
            decreases rest@.len(),
        {
            let ghost k = out@.len() as int;
            let schema = rest.pop().unwrap();
            assert(schema == kept_view[k]);
            out.push(self.prune_schema(schema));
            assert(rest@ =~= kept_view.skip(out@.len() as int).reverse());
        }
        out
    }

    /// Whether the namespace of a schema is enabled.
    pub fn schema_is_enabled(&self, schema: &OpenXmlSchema) -> (r: bool)
        requires
            self.parts.describes_symbols(),
        ensures
            r == schema_enabled(
                *schema,
                self.description().namespaces,
                self.description().features,
            ),
    {
        match find_last_key(&self.parts.symbols.namespace_uris, schema.target_namespace.as_str()) {
            Some(i) => self.parts.symbols.namespace_enabled[i],
            None => false,
        }
    }
}

/// A reference to a child whose type does not survive the version filter
/// is not among the references of the pruned parent, and every reference
/// that is there names a type that survives.
pub proof fn lemma_pruned_child_is_absent(
    d: Description,
    inp: OpenXmlSchemaType,
    out: OpenXmlSchemaType,
    k: int,
)
    requires
        d.type_pruned(inp, out),
        0 <= k < inp.children@.len(),
        !d.type_child_kept(inp.children@[k]),
    ensures
        forall|j: int|
            0 <= j < out.children@.len() ==> d.type_child_kept(#[trigger] out.children@[j])
                && out.children@[j] != inp.children@[k],
{
    let kept = |c: OpenXmlSchemaTypeChild| d.type_child_kept(c);
    assert forall|j: int| 0 <= j < out.children@.len() implies d.type_child_kept(
        #[trigger] out.children@[j],
    ) && out.children@[j] != inp.children@[k] by {
        inp.children@.lemma_filter_pred(kept, j);
    }
}

/// An item of a particle that names a child whose reference does not stay
/// is not among the items of the pruned parent.
pub proof fn lemma_pruned_item_is_absent(
    d: Description,
    inp: OpenXmlSchemaType,
    out: OpenXmlSchemaType,
    k: int,
)
    requires
        d.type_pruned(inp, out),
        0 <= k < inp.particle.items@.len(),
        !d.item_kept(out.children@, inp.particle.items@[k]),
    ensures
        forall|j: int|
            0 <= j < out.particle.items@.len() ==> d.item_kept(
                out.children@,
                #[trigger] out.particle.items@[j],
            ) && out.particle.items@[j] != inp.particle.items@[k],
{
    let kept = |i: OpenXmlSchemaTypeParticle| d.item_kept(out.children@, i);
    assert forall|j: int| 0 <= j < out.particle.items@.len() implies d.item_kept(
        out.children@,
        #[trigger] out.particle.items@[j],
    ) && out.particle.items@[j] != inp.particle.items@[k] by {
        inp.particle.items@.lemma_filter_pred(kept, j);
    }
}

/// The names of the types that the root elements of the kept parts
/// reach, in the order of the description. A name that the description
/// refers to and does not define is an error that carries the first such
/// name.
pub fn gen_type_name_set(reducer: &Reducer, parts: &Vec<OpenXmlPart>, schemas: &Vec<OpenXmlSchema>)
    -> (r: Result<Vec<String>, BuildError>)
    requires
        reducer.wf(),
        parts@ == reducer.description().parts,
        schemas@ == reducer.description().schemas,
    ensures
        match r {
            Ok(names) => reducer.description().missing_name() is None && names_view(names@)
                == crate::graph::select(
                crate::symbols::entry_names(reducer.description().entries()),
                Seq::new(
                    reducer.description().entries().len(),
                    |i: int| reducer.description().type_reached(i),
                ),
            ),
            Err(e) => reducer.description().missing_name() matches Some(key) && e@
                == crate::utils::BuildErrorView::HashMapExpectedSomeError(key),
        },
{
    match crate::validate::check_references(&reducer.parts, parts, schemas) {
        Err(e) => Err(e),
        Ok(_) => Ok(reached_type_names(reducer)),
    }
}

/// The names of the types that are reached, in the order of the
/// description.
fn reached_type_names(reducer: &Reducer) -> (names: Vec<String>)
    requires
        reducer.wf(),
    ensures
        names_view(names@) == crate::graph::select(
            crate::symbols::entry_names(reducer.description().entries()),
            Seq::new(
                reducer.description().entries().len(),
                |i: int| reducer.description().type_reached(i),
            ),
        ),
{
    let ghost d = reducer.description();
    let ghost all = crate::symbols::entry_names(d.entries());
    let ghost flags = Seq::new(d.entries().len(), |i: int| d.type_reached(i));
    let table = &reducer.parts.symbols.type_names;
    let mut names: Vec<String> = Vec::new();
    let mut i: usize = 0;
    assert(all.take(0) =~= Seq::empty());
    assert(names_view(names@) =~= crate::graph::select(all.take(0), flags));
    while i < table.len()
        invariant
            i <= all.len(),
            reducer.wf(),
            d == reducer.description(),
            all == crate::symbols::entry_names(d.entries()),
            all == names_view(table@),
            table@.len() == all.len(),
            all.len() == d.entries().len(),
            flags == Seq::new(d.entries().len(), |i: int| d.type_reached(i)),
            names_view(names@) == crate::graph::select(all.take(i as int), flags),
        decreases all.len() - i,
    {
        proof {
            assert(all.take(i + 1).drop_last() =~= all.take(i as int));
            assert(all.take(i + 1).last() == all[i as int]);
            assert(flags[i as int] == d.type_reached(i as int));
        }
        if reducer.type_reached[i] {
            proof {
                crate::tables::lemma_names_push(names@, table@[i as int]);
            }
            names.push(table[i].clone());
        }
        i += 1;
    }
    assert(all.take(i as int) =~= all);
    names
}

} // verus!
