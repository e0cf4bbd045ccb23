//! The parts of a build: those whose version is enabled and that the
//! selected kinds of document can reach.

use crate::features::{check_office_version, version_enabled, Features};
use crate::graph::{
    keep_selected, lemma_reachable_is_reaches, lemma_select_is_filter, lists, reach, reaches,
    select,
};
use crate::models::{OpenXmlNamespace, OpenXmlPart, OpenXmlPartChild, OpenXmlSchema, TypedSchema};
use crate::symbols::{
    all_bindings, binding_keys, bound_type, entry_names, part_names, type_entries, Symbols,
    TypeEntry,
};
use crate::tables::{find_last_key, last_index, names_view, reversed};
use crate::utils::{BuildError, BuildErrorView};
use vstd::prelude::*;

verus! {

/// A schema description with the configuration that it is built for.
pub struct Description {
    pub parts: Seq<OpenXmlPart>,
    pub schemas: Seq<OpenXmlSchema>,
    pub namespaces: Seq<OpenXmlNamespace>,
    pub typed: Seq<Vec<TypedSchema>>,
    pub features: Features,
}

/// The names of the root parts of the selected kinds of document.
pub open spec fn root_part_names(f: Features) -> Seq<Seq<char>> {
    (if f.docx {
        seq!["WordprocessingDocument"@]
    } else {
        Seq::empty()
    }) + (if f.xlsx {
        seq!["SpreadsheetDocument"@]
    } else {
        Seq::empty()
    }) + (if f.pptx {
        seq!["PresentationDocument"@]
    } else {
        Seq::empty()
    })
}

impl Description {
    pub open spec fn entries(self) -> Seq<TypeEntry> {
        type_entries(self.schemas, self.namespaces, self.features)
    }

    pub open spec fn bindings(self) -> Seq<(Seq<char>, Seq<char>)> {
        all_bindings(self.typed)
    }

    /// The part that a name stands for.
    pub open spec fn part_index(self, name: Seq<char>) -> Option<int> {
        last_index(part_names(self.parts), name)
    }

    /// The type that a name stands for.
    pub open spec fn type_index(self, name: Seq<char>) -> Option<int> {
        last_index(entry_names(self.entries()), name)
    }

    /// Whether a type that is named survives the version filter.
    pub open spec fn type_name_survives(self, name: Seq<char>) -> bool {
        match self.type_index(name) {
            Some(j) => self.entries()[j].survives,
            None => false,
        }
    }

    /// Whether the version of a part is enabled and, where the part is
    /// bound to a root element, the type of that element survives.
    pub open spec fn part_enabled(self, p: OpenXmlPart) -> bool {
        version_enabled(p.version@, self.features) && match bound_type(self.bindings(), p.name@) {
            Some(bound) => self.type_name_survives(bound),
            None => true,
        }
    }

    /// Whether the part that a name stands for is enabled.
    pub open spec fn part_name_enabled(self, name: Seq<char>) -> bool {
        match self.part_index(name) {
            Some(j) => self.part_enabled(self.parts[j]),
            None => false,
        }
    }

    /// Whether a reference to a child part stays: a reference to a data
    /// part always does, any other if the part it names is enabled.
    pub open spec fn part_child_kept(self, c: OpenXmlPartChild) -> bool {
        c.is_data_part_reference || self.part_name_enabled(c.name@)
    }

    /// The enabled part that a reference to a child leads to, references
    /// to data parts aside.
    pub open spec fn part_child_target(self, c: OpenXmlPartChild) -> Option<int> {
        if c.is_data_part_reference {
            None
        } else {
            match self.part_index(c.name@) {
                Some(b) => if 0 <= b < self.parts.len() && self.part_enabled(self.parts[b]) {
                    Some(b)
                } else {
                    None
                },
                None => None,
            }
        }
    }

    /// The roots of the part graph: the enabled root parts of the selected
    /// kinds of document.
    pub open spec fn part_root(self, r: int) -> bool {
        &&& 0 <= r < self.parts.len()
        &&& self.part_enabled(self.parts[r])
        &&& exists|k: int|
            0 <= k < root_part_names(self.features).len() && self.part_index(
                #[trigger] root_part_names(self.features)[k],
            ) == Some(r)
    }

    /// The edges of the part graph: from a part to each enabled part that
    /// it contains, references to data parts aside.
    pub open spec fn part_edge(self, a: int, b: int) -> bool {
        &&& 0 <= a < self.parts.len()
        &&& 0 <= b < self.parts.len()
        &&& self.part_enabled(self.parts[b])
        &&& exists|c: int|
            0 <= c < self.parts[a].children@.len() && !(
            #[trigger] self.parts[a].children@[c]).is_data_part_reference && self.part_index(
                self.parts[a].children@[c].name@,
            ) == Some(b)
    }

    /// Whether the selected kinds of document reach the part at `n`.
    pub open spec fn part_reached(self, n: int) -> bool {
        reaches(
            self.parts.len() as int,
            |r: int| self.part_root(r),
            |a: int, b: int| self.part_edge(a, b),
            n,
        )
    }

    /// Whether a part is in the build: it is enabled, and the part that
    /// its name stands for is reached.
    pub open spec fn part_kept(self, p: OpenXmlPart) -> bool {
        self.part_enabled(p) && match self.part_index(p.name@) {
            Some(j) => self.part_reached(j),
            None => false,
        }
    }

    /// A part of the build: the part of the description without the
    /// references to children that do not stay.
    pub open spec fn part_pruned(self, inp: OpenXmlPart, out: OpenXmlPart) -> bool {
        &&& out == (OpenXmlPart { children: out.children, ..inp })
        &&& out.children@ == inp.children@.filter(|c: OpenXmlPartChild| self.part_child_kept(c))
    }

    /// The parts of the build: the kept parts of the description in their
    /// order, each pruned.
    pub open spec fn parts_reduced(self, out: Seq<OpenXmlPart>) -> bool {
        let kept = self.parts.filter(|p: OpenXmlPart| self.part_kept(p));
        &&& out.len() == kept.len()
        &&& forall|k: int| 0 <= k < kept.len() ==> self.part_pruned(#[trigger] kept[k], out[k])
    }
}

/// What the reduction of a description knows of its parts: their names,
/// and for each part whether it is enabled and whether it is reached.
pub struct PartIndex {
    pub symbols: Symbols,
    pub features: Features,
    pub enabled: Vec<bool>,
    pub reached: Vec<bool>,
    pub description: Ghost<Description>,
}

impl PartIndex {
    /// The tables are those of the description.
    pub open spec fn describes_symbols(&self) -> bool {
        let d = self.description@;
        &&& self.symbols.describes(d.parts, d.schemas, d.namespaces, d.typed, d.features)
        &&& self.features == d.features
    }

    /// The flags say which parts are enabled.
    pub open spec fn describes_enabled(&self) -> bool {
        let d = self.description@;
        &&& self.enabled@.len() == d.parts.len()
        &&& forall|i: int|
            0 <= i < d.parts.len() ==> self.enabled@[i] == d.part_enabled(#[trigger] d.parts[i])
    }

    /// The flags say which parts are reached.
    pub open spec fn describes_reached(&self) -> bool {
        let d = self.description@;
        &&& self.reached@.len() == d.parts.len()
        &&& forall|i: int| 0 <= i < d.parts.len() ==> self.reached@[i] == d.part_reached(i)
    }

    pub open spec fn wf(&self) -> bool {
        self.describes_symbols() && self.describes_enabled() && self.describes_reached()
    }

    /// The survival of the type that a name stands for.
    pub fn type_name_survives(&self, name: &str) -> (r: bool)
        requires
            self.describes_symbols(),
        ensures
            r == self.description@.type_name_survives(name@),
    {
        match find_last_key(&self.symbols.type_names, name) {
            Some(j) => {
                assert(self.symbols.type_names@.len() == names_view(
                    self.symbols.type_names@,
                ).len());
                self.symbols.type_survives[j]
            },
            None => false,
        }
    }

    /// The root-element type that a part is bound to.
    pub fn find_bound_type(&self, part: &str) -> (r: Option<&String>)
        requires
            self.describes_symbols(),
        ensures
            match r {
                Some(name) => bound_type(self.description@.bindings(), part@) == Some(name@),
                None => bound_type(self.description@.bindings(), part@) is None,
            },
    {
        match find_last_key(&self.symbols.binding_keys, part) {
            Some(i) => {
                assert(self.symbols.binding_keys@.len() == names_view(
                    self.symbols.binding_keys@,
                ).len());
                Some(&self.symbols.binding_values[i])
            },
            None => None,
        }
    }

    /// Whether a part is enabled.
    pub fn part_enabled(&self, p: &OpenXmlPart) -> (r: bool)
        requires
            self.describes_symbols(),
        ensures
            r == self.description@.part_enabled(*p),
    {
        if !check_office_version(p.version.as_str(), &self.features) {
            return false;
        }
        match self.find_bound_type(p.name.as_str()) {
            Some(name) => self.type_name_survives(name.as_str()),
            None => true,
        }
    }

    /// The part that a name stands for.
    pub fn find_part(&self, name: &str) -> (r: Option<usize>)
        requires
            self.describes_symbols(),
        ensures
            match r {
                Some(j) => self.description@.part_index(name@) == Some(j as int) && j
                    < self.description@.parts.len(),
                None => self.description@.part_index(name@) is None,
            },
    {
        let r = find_last_key(&self.symbols.part_names, name);
        assert(names_view(self.symbols.part_names@).len() == self.description@.parts.len());
        r
    }

    /// Whether the part that a name stands for is enabled.
    pub fn part_name_enabled(&self, name: &str) -> (r: bool)
        requires
            self.describes_symbols(),
            self.describes_enabled(),
        ensures
            r == self.description@.part_name_enabled(name@),
    {
        match self.find_part(name) {
            Some(j) => self.enabled[j],
            None => false,
        }
    }

    /// Whether a reference to a child part stays.
    pub fn part_child_kept(&self, c: &OpenXmlPartChild) -> (r: bool)
        requires
            self.describes_symbols(),
            self.describes_enabled(),
        ensures
            r == self.description@.part_child_kept(*c),
    {
        c.is_data_part_reference || self.part_name_enabled(c.name.as_str())
    }

    /// Whether a part is in the build.
    pub fn part_kept(&self, p: &OpenXmlPart) -> (r: bool)
        requires
            self.wf(),
        ensures
            r == self.description@.part_kept(*p),
    {
        if !self.part_enabled(p) {
            return false;
        }
        match self.find_part(p.name.as_str()) {
            Some(j) => self.reached[j],
            None => false,
        }
    }

    /// The enabled flags of all parts.
    fn enabled_flags(&self, parts: &Vec<OpenXmlPart>) -> (flags: Vec<bool>)
        requires
            self.describes_symbols(),
            parts@ == self.description@.parts,
        ensures
            flags@.len() == parts@.len(),
            forall|i: int|
                0 <= i < parts@.len() ==> flags@[i] == self.description@.part_enabled(
                    #[trigger] parts@[i],
                ),
    {
        let mut flags: Vec<bool> = Vec::new();
        let mut i: usize = 0;
        while i < parts.len()
            invariant
                i <= parts@.len(),
                self.describes_symbols(),
                flags@.len() == i,
                forall|k: int|
                    0 <= k < i ==> flags@[k] == self.description@.part_enabled(
                        #[trigger] parts@[k],
                    ),
            decreases parts@.len() - i,
        {
            flags.push(self.part_enabled(&parts[i]));
            i += 1;
        }
        flags
    }

    /// The edges that leave one part.
    fn part_edges(&self, parts: &Vec<OpenXmlPart>, a: usize) -> (row: Vec<usize>)
        requires
            self.describes_symbols(),
            self.describes_enabled(),
            parts@ == self.description@.parts,
            a < parts@.len(),
        ensures
            forall|b: int|
                0 <= b < parts@.len() ==> #[trigger] lists(row@, b) == self.description@.part_edge(
                    a as int,
                    b,
                ),
    {
        let ghost d = self.description@;
        let children = &parts[a].children;
        let mut row: Vec<usize> = Vec::new();
        let mut c: usize = 0;
        while c < children.len()
            invariant
                c <= children@.len(),
                self.describes_symbols(),
                self.describes_enabled(),
                d == self.description@,
                parts@ == d.parts,
                a < parts@.len(),
                children@ == d.parts[a as int].children@,
                forall|j: int|
                    0 <= j < row@.len() ==> row@[j] < parts@.len() && d.part_edge(
                        a as int,
                        #[trigger] row@[j] as int,
                    ),
                forall|k: int|
                    0 <= k < c ==> (d.part_child_target(#[trigger] children@[k]) matches Some(
                        b,
                    ) ==> lists(row@, b)),
            decreases children@.len() - c,
        {
            let child = &children[c];
            let ghost before = row@;
            if !child.is_data_part_reference {
                match self.find_part(child.name.as_str()) {
                    Some(j) => {
                        if self.enabled[j] {
                            row.push(j);
                            assert(row@[row@.len() - 1] == j);
                            assert(forall|x: int| 0 <= x < before.len() ==> row@[x] == before[x]);
                            assert forall|b: int| lists(before, b) implies lists(row@, b) by {
                                let x = choose|x: int| 0 <= x < before.len() && before[x] == b;
                                assert(row@[x] == b);
                            }
                        }
                    },
                    None => {},
                }
            }
            c += 1;
        }
        assert forall|b: int| 0 <= b < parts@.len() implies #[trigger] lists(row@, b)
            == d.part_edge(a as int, b) by {
            if lists(row@, b) {
                let j = choose|j: int| 0 <= j < row@.len() && #[trigger] row@[j] == b;
                assert(d.part_edge(a as int, row@[j] as int));
            }
            if d.part_edge(a as int, b) {
                let k = choose|k: int|
                    0 <= k < d.parts[a as int].children@.len() && !(
                    #[trigger] d.parts[a as int].children@[k]).is_data_part_reference
                        && d.part_index(d.parts[a as int].children@[k].name@) == Some(b);
                assert(d.part_child_target(children@[k]) == Some(b));
            }
        }
        row
    }

    /// The roots of the part graph.
    fn part_roots(&self, parts: &Vec<OpenXmlPart>) -> (roots: Vec<usize>)
        requires
            self.describes_symbols(),
            self.describes_enabled(),
            parts@ == self.description@.parts,
        ensures
            forall|r: int|
                0 <= r < parts@.len() ==> #[trigger] lists(roots@, r)
                    == self.description@.part_root(r),
    {
        let ghost d = self.description@;
        let ghost names = root_part_names(d.features);
        let mut roots: Vec<usize> = Vec::new();
        if self.features.docx {
            match self.find_part("WordprocessingDocument") {
                Some(j) => {
                    if self.enabled[j] {
                        roots.push(j);
                    }
                },
                None => {},
            }
        }
        let ghost first = roots@;
        if self.features.xlsx {
            match self.find_part("SpreadsheetDocument") {
                Some(j) => {
                    if self.enabled[j] {
                        roots.push(j);
                    }
                },
                None => {},
            }
        }
        let ghost second = roots@;
        if self.features.pptx {
            match self.find_part("PresentationDocument") {
                Some(j) => {
                    if self.enabled[j] {
                        roots.push(j);
                    }
                },
                None => {},
            }
        }
        proof {
            assert forall|r: int| 0 <= r < parts@.len() implies #[trigger] lists(roots@, r)
                == d.part_root(r) by {
                let w = "WordprocessingDocument"@;
                let x = "SpreadsheetDocument"@;
                let p = "PresentationDocument"@;
                let in_w = d.features.docx && d.part_index(w) == Some(r) && d.part_enabled(
                    d.parts[r],
                );
                let in_x = d.features.xlsx && d.part_index(x) == Some(r) && d.part_enabled(
                    d.parts[r],
                );
                let in_p = d.features.pptx && d.part_index(p) == Some(r) && d.part_enabled(
                    d.parts[r],
                );
                if d.part_root(r) {
                    let k = choose|k: int|
                        0 <= k < names.len() && d.part_index(#[trigger] names[k]) == Some(r);
                    assert(names[k] == w || names[k] == x || names[k] == p);
                    assert(in_w || in_x || in_p);
                }
                if in_w {
                    assert(first.len() == 1 && first[0] == r);
                    assert(roots@[0] == r);
                    assert(names[0] == w);
                }
                if in_x {
                    assert(second[second.len() - 1] == r);
                    assert(roots@[second.len() - 1] == r);
                    assert(names[first_len(d.features)] == x);
                }
                if in_p {
                    assert(roots@[roots@.len() - 1] == r);
                    assert(names[names.len() - 1] == p);
                }
                if lists(roots@, r) {
                    let j = choose|j: int| 0 <= j < roots@.len() && #[trigger] roots@[j] == r;
                    if j < first.len() {
                        assert(first[j] == r);
                        assert(in_w);
                    } else if j < second.len() {
                        assert(second[j] == r);
                        assert(in_x);
                    } else {
                        assert(in_p);
                    }
                }
            }
        }
        roots
    }

    /// Gathers what the reduction needs to know of the parts.
    pub fn build(
        parts: &Vec<OpenXmlPart>,
        schemas: &Vec<OpenXmlSchema>,
        namespaces: &Vec<OpenXmlNamespace>,
        typed: &Vec<Vec<TypedSchema>>,
        features: &Features,
    ) -> (r: PartIndex)
        ensures
            r.wf(),
            r.description@ == (Description {
                parts: parts@,
                schemas: schemas@,
                namespaces: namespaces@,
                typed: typed@,
                features: *features,
            }),
    {
        let ghost d = Description {
            parts: parts@,
            schemas: schemas@,
            namespaces: namespaces@,
            typed: typed@,
            features: *features,
        };
        let symbols = Symbols::gather(parts, schemas, namespaces, typed, features);
        let mut index = PartIndex {
            symbols,
            features: *features,
            enabled: Vec::new(),
            reached: Vec::new(),
            description: Ghost(d),
        };
        let enabled = index.enabled_flags(parts);
        index.enabled = enabled;
        let mut adj: Vec<Vec<usize>> = Vec::new();
        let mut a: usize = 0;
        while a < parts.len()
            invariant
                a <= parts@.len(),
                index.describes_symbols(),
                index.describes_enabled(),
                index.description@ == d,
                parts@ == d.parts,
                adj@.len() == a,
                forall|x: int, b: int|
                    0 <= x < a && 0 <= b < parts@.len() ==> #[trigger] lists(adj@[x]@, b)
                        == d.part_edge(x, b),
            decreases parts@.len() - a,
        {
            let row = index.part_edges(parts, a);
            let ghost before = adj@;
            adj.push(row);
            assert(forall|x: int| 0 <= x < a ==> adj@[x] == before[x]);
            a += 1;
        }
        let roots = index.part_roots(parts);
        let reached = reach(&adj, &roots);
        proof {
            let root = |r: int| d.part_root(r);
            let edge = |x: int, y: int| d.part_edge(x, y);
            assert forall|n: int| 0 <= n < d.parts.len() implies reached@[n] == d.part_reached(
                n,
            ) by {
                lemma_reachable_is_reaches(adj@, roots@, root, edge, n);
            }
        }
        index.reached = reached;
        index
    }
}

/// How many root names stand before that of the spreadsheet.
pub open spec fn first_len(f: Features) -> int {
    if f.docx {
        1
    } else {
        0
    }
}

/// The children of a part that stay.
fn prune_children(index: &PartIndex, children: Vec<OpenXmlPartChild>) -> (r: Vec<OpenXmlPartChild>)
    requires
        index.wf(),
    ensures
        r@ == children@.filter(|c: OpenXmlPartChild| index.description@.part_child_kept(c)),
{
    let mut flags: Vec<bool> = Vec::new();
    let mut i: usize = 0;
    while i < children.len()
        invariant
            i <= children@.len(),
            index.wf(),
            flags@.len() == i,
            forall|k: int|
                0 <= k < i ==> flags@[k] == index.description@.part_child_kept(
                    #[trigger] children@[k],
                ),
        decreases children@.len() - i,
    {
        flags.push(index.part_child_kept(&children[i]));
        i += 1;
    }
    proof {
        lemma_select_is_filter(
            children@,
            flags@,
            |c: OpenXmlPartChild| index.description@.part_child_kept(c),
        );
    }
    keep_selected(children, &flags)
}

/// The parts of the build.
pub fn reduce_parts(index: &PartIndex, parts: Vec<OpenXmlPart>) -> (r: Vec<OpenXmlPart>)
    requires
        index.wf(),
        parts@ == index.description@.parts,
    ensures
        index.description@.parts_reduced(r@),
{
    let ghost d = index.description@;
    let mut flags: Vec<bool> = Vec::new();
    let mut i: usize = 0;
    while i < parts.len()
        invariant
            i <= parts@.len(),
            index.wf(),
            d == index.description@,
            flags@.len() == i,
            forall|k: int| 0 <= k < i ==> flags@[k] == d.part_kept(#[trigger] parts@[k]),
        decreases parts@.len() - i,
    {
        flags.push(index.part_kept(&parts[i]));
        i += 1;
    }
    proof {
        lemma_select_is_filter(parts@, flags@, |p: OpenXmlPart| d.part_kept(p));
    }
    let kept = keep_selected(parts, &flags);
    let ghost kept_view = kept@;
    let mut rest = reversed(kept);
    let mut out: Vec<OpenXmlPart> = Vec::new();
    while rest.len() > 0
        invariant
            index.wf(),
            d == index.description@,
            rest@.len() + out@.len() == kept_view.len(),
            rest@ == kept_view.skip(out@.len() as int).reverse(),
            forall|k: int| 0 <= k < out@.len() ==> d.part_pruned(#[trigger] kept_view[k], out@[k]),
        decreases rest@.len(),
    {
        let ghost k = out@.len() as int;
        let mut part = rest.pop().unwrap();
        assert(part == kept_view[k]);
        let ghost inp = part;
        part.children = prune_children(index, part.children);
        out.push(part);
        assert(rest@ =~= kept_view.skip(out@.len() as int).reverse());
    }
    out
}

/// The names of the parts that the selected kinds of document reach, in
/// the order of the description. A name that the description refers to
/// and does not define is an error that carries the first such name.
pub fn gen_part_name_set(index: &PartIndex, parts: &Vec<OpenXmlPart>, schemas: &Vec<OpenXmlSchema>)
    -> (r: Result<Vec<String>, BuildError>)
    requires
        index.wf(),
        parts@ == index.description@.parts,
        schemas@ == index.description@.schemas,
    ensures
        match r {
            Ok(names) => index.description@.missing_name() is None && names_view(names@) == select(
                part_names(index.description@.parts),
                Seq::new(
                    index.description@.parts.len(),
                    |i: int| index.description@.part_reached(i),
                ),
            ),
            Err(e) => index.description@.missing_name() matches Some(key) && e@
                == BuildErrorView::HashMapExpectedSomeError(key),
        },
{
    match crate::validate::check_references(index, parts, schemas) {
        Err(e) => Err(e),
        Ok(_) => Ok(reached_part_names(index)),
    }
}

/// The names of the parts that are reached, in the order of the
/// description.
fn reached_part_names(index: &PartIndex) -> (names: Vec<String>)
    requires
        index.wf(),
    ensures
        names_view(names@) == select(
            part_names(index.description@.parts),
            Seq::new(index.description@.parts.len(), |i: int| index.description@.part_reached(i)),
        ),
{
    let ghost d = index.description@;
    let ghost all = part_names(d.parts);
    let ghost flags = Seq::new(d.parts.len(), |i: int| d.part_reached(i));
    let mut names: Vec<String> = Vec::new();
    let mut i: usize = 0;
    assert(all.take(0) =~= Seq::empty());
    assert(names_view(names@) =~= select(all.take(0), flags));
    while i < index.symbols.part_names.len()
        invariant
            i <= all.len(),
            index.wf(),
            d == index.description@,
            all == part_names(d.parts),
            all == names_view(index.symbols.part_names@),
            index.symbols.part_names@.len() == all.len(),
            flags == Seq::new(d.parts.len(), |i: int| d.part_reached(i)),
            names_view(names@) == select(all.take(i as int), flags),
        decreases all.len() - i,
    {
        proof {
            assert(all.take(i + 1).drop_last() =~= all.take(i as int));
            assert(all.take(i + 1).last() == all[i as int]);
            assert(flags[i as int] == d.part_reached(i as int));
        }
        if index.reached[i] {
            proof {
                crate::tables::lemma_names_push(names@, index.symbols.part_names@[i as int]);
            }
            names.push(index.symbols.part_names[i].clone());
        }
        i += 1;
    }
    assert(all.take(i as int) =~= all);
    names
}

} // verus!
