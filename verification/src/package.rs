//! Packages: the tree of the parts of a document, and the entries of the
//! archive that a package is saved to.

use crate::common::{
    common_error, is_event_list, string_from_utf8, tokenize, utf8_text, xml_events, Deserializeable,
    SdkError, SdkErrorView, Serializeable, XmlEvent,
};
use crate::context::GenContext;
use crate::document::{Element, ElementView};
use crate::emit::element_xml;
use crate::models::Occurrence;
use crate::opc_content_types::{Types, TypesView};
use crate::opc_core_properties::{CoreProperties, CorePropertiesView};
use crate::opc_relationships::{Relationship, RelationshipView, Relationships, RelationshipsView};
use crate::open_xml_part::{PartChildField, PartContent, PartModel};
use crate::parse::{parsed, Codec};
use crate::paths::{resolve_zip_file_path, resolved_path};
use crate::tables::replace_at;
use crate::text::{concat, ends_with, rsplit_once, str_rsplit_once};
use crate::utils::{snake_case, to_snake_case};
use vstd::prelude::*;
use vstd::string::StrSliceExecFns;
use vstd::utf8::{decode_utf8, encode_utf8, valid_utf8};

verus! {

/// What a part of a package holds.
#[derive(Debug)]
pub enum PartData {
    Nothing,
    Text(String),
    Bytes(Vec<u8>),
    CoreProperties(CoreProperties),
    RootElement(Element),
}

/// One part of a package, with the parts that it contains: for each
/// reference to a child of the part's description the parts that were
/// found for it.
#[derive(Debug)]
pub struct PartNode {
    pub part: usize,
    pub r_id: String,
    pub inner_path: String,
    pub rels_path: String,
    pub relationships: Option<Relationships>,
    pub data: PartData,
    pub children: Vec<Vec<PartNode>>,
}

/// A package: its content-type registry and the tree of its parts.
#[derive(Debug)]
pub struct Package {
    pub content_types: Types,
    pub root: PartNode,
}

/// The mathematical value of [`PartData`].
pub enum PartDataView {
    Nothing,
    Text(Seq<char>),
    Bytes(Seq<u8>),
    CoreProperties(CorePropertiesView),
    RootElement(ElementView),
}

/// The mathematical value of a [`PartNode`].
pub struct PartNodeView {
    pub part: int,
    pub r_id: Seq<char>,
    pub inner_path: Seq<char>,
    pub rels_path: Seq<char>,
    pub relationships: Option<RelationshipsView>,
    pub data: PartDataView,
    pub children: Seq<Seq<PartNodeView>>,
}

pub open spec fn data_view(d: PartData) -> PartDataView {
    match d {
        PartData::Nothing => PartDataView::Nothing,
        PartData::Text(s) => PartDataView::Text(s@),
        PartData::Bytes(b) => PartDataView::Bytes(b@),
        PartData::CoreProperties(c) => PartDataView::CoreProperties(c@),
        PartData::RootElement(e) => PartDataView::RootElement(e@),
    }
}

/// The value of a part with the parts that it contains.
pub open spec fn node_view(n: PartNode) -> PartNodeView
    decreases n,
{
    PartNodeView {
        part: n.part as int,
        r_id: n.r_id@,
        inner_path: n.inner_path@,
        rels_path: n.rels_path@,
        relationships: match n.relationships {
            Some(r) => Some(r@),
            None => None,
        },
        data: data_view(n.data),
        children: fields_view(n.children@, n.children@.len() as int),
    }
}

/// The values of the first `n` lists of contained parts.
pub open spec fn fields_view(fields: Seq<Vec<PartNode>>, n: int) -> Seq<Seq<PartNodeView>>
    decreases fields, n,
{
    if n <= 0 || n > fields.len() {
        Seq::empty()
    } else {
        fields_view(fields, n - 1).push(nodes_view(fields[n - 1]@, fields[n - 1]@.len() as int))
    }
}

/// The values of the first `n` parts of a list.
pub open spec fn nodes_view(nodes: Seq<PartNode>, n: int) -> Seq<PartNodeView>
    decreases nodes, n,
{
    if n <= 0 || n > nodes.len() {
        Seq::empty()
    } else {
        nodes_view(nodes, n - 1).push(node_view(nodes[n - 1]))
    }
}

impl View for PartNode {
    type V = PartNodeView;

    open spec fn view(&self) -> PartNodeView {
        node_view(*self)
    }
}

pub proof fn lemma_fields_view(fields: Seq<Vec<PartNode>>, n: int)
    requires
        0 <= n <= fields.len(),
    ensures
        fields_view(fields, n).len() == n,
        forall|i: int|
            0 <= i < n ==> #[trigger] fields_view(fields, n)[i] == nodes_view(
                fields[i]@,
                fields[i]@.len() as int,
            ),
    decreases n,
{
    if n > 0 {
        lemma_fields_view(fields, n - 1);
    }
}

pub proof fn lemma_nodes_view(nodes: Seq<PartNode>, n: int)
    requires
        0 <= n <= nodes.len(),
    ensures
        nodes_view(nodes, n).len() == n,
        forall|i: int| 0 <= i < n ==> #[trigger] nodes_view(nodes, n)[i] == node_view(nodes[i]),
    decreases n,
{
    if n > 0 {
        lemma_nodes_view(nodes, n - 1);
    }
}

/// One entry of an archive: a directory, or a file with its bytes.
#[derive(Debug)]
pub struct ArchiveEntry {
    pub path: String,
    pub directory: bool,
    pub bytes: Vec<u8>,
}

/// The mathematical value of an [`ArchiveEntry`].
pub struct EntryView {
    pub path: Seq<char>,
    pub directory: bool,
    pub bytes: Seq<u8>,
}

impl View for ArchiveEntry {
    type V = EntryView;

    open spec fn view(&self) -> EntryView {
        EntryView { path: self.path@, directory: self.directory, bytes: self.bytes@ }
    }
}

pub open spec fn entries_view(entries: Seq<ArchiveEntry>) -> Seq<EntryView> {
    entries.map_values(|e: ArchiveEntry| e@)
}

/// Whether an entry with the given path is among the entries.
pub open spec fn has_path(entries: Seq<EntryView>, path: Seq<char>) -> bool {
    exists|i: int| 0 <= i < entries.len() && (#[trigger] entries[i]).path == path
}

/// The entries with one more entry, unless its path is taken.
pub open spec fn with_entry(entries: Seq<EntryView>, e: EntryView) -> Seq<EntryView> {
    if has_path(entries, e.path) {
        entries
    } else {
        entries.push(e)
    }
}

/// The entries with one more directory, unless its path is empty or
/// taken.
pub open spec fn with_directory(entries: Seq<EntryView>, path: Seq<char>) -> Seq<EntryView> {
    if path.len() == 0 {
        entries
    } else {
        with_entry(entries, EntryView { path, directory: true, bytes: Seq::empty() })
    }
}

/// The entries with one more file, unless its path is taken.
pub open spec fn with_file(entries: Seq<EntryView>, path: Seq<char>, bytes: Seq<u8>) -> Seq<
    EntryView,
> {
    with_entry(entries, EntryView { path, directory: false, bytes })
}

/// No two entries have the same path.
pub open spec fn distinct_paths(entries: Seq<EntryView>) -> bool {
    forall|i: int, j: int|
        0 <= i < j < entries.len() ==> (#[trigger] entries[i]).path != (#[trigger] entries[j]).path
}

/// An entry is added only where its path is new.
pub proof fn lemma_with_entry_distinct(entries: Seq<EntryView>, e: EntryView)
    requires
        distinct_paths(entries),
    ensures
        distinct_paths(with_entry(entries, e)),
{
    if !has_path(entries, e.path) {
        let after = entries.push(e);
        assert forall|i: int, j: int| 0 <= i < j < after.len() implies (#[trigger] after[i]).path
            != (#[trigger] after[j]).path by {
            if j < entries.len() {
                assert(after[i] == entries[i] && after[j] == entries[j]);
            } else {
                assert(after[i] == entries[i]);
                assert(after[j] == e);
            }
        }
    }
}

/// The directory of a part under its parent: the general path of the
/// part, followed by a `/`, or nothing where the part has none.
pub open spec fn path_segment(general: Seq<char>) -> Seq<char> {
    if general.len() == 0 {
        Seq::empty()
    } else {
        general + "/"@
    }
}

/// The description of a part, as far as saving looks at it.
pub struct PartShape {
    pub general: Seq<char>,
    pub has_children: bool,
}

/// Everything that saving and loading a package work with.
pub struct Workshop<'a> {
    pub codec: Codec<'a>,
    pub models: &'a Vec<PartModel>,
}

impl<'a> Workshop<'a> {
    pub open spec fn context(&self) -> GenContext {
        *self.codec.context
    }

    /// The shape of the part at a place; a place where no part is has the
    /// shape of a part without a path and without children.
    pub open spec fn shape_of(&self, part: int) -> PartShape {
        if 0 <= part < self.context().parts@.len() {
            PartShape {
                general: self.context().parts@[part].paths.general@,
                has_children: self.context().parts@[part].children@.len() > 0,
            }
        } else {
            PartShape { general: Seq::empty(), has_children: false }
        }
    }

    /// The bytes that a part is saved with, if it holds anything: a text
    /// and bytes as they are, the core properties and a root element as
    /// their text with the prolog and without prefixes.
    pub open spec fn data_bytes(&self, d: PartDataView) -> Option<Seq<u8>> {
        match d {
            PartDataView::Nothing => None,
            PartDataView::Text(s) => Some(encode_utf8(s)),
            PartDataView::Bytes(b) => Some(b),
            PartDataView::CoreProperties(c) => Some(
                encode_utf8(CoreProperties::text(c, true, false)),
            ),
            PartDataView::RootElement(e) => Some(
                encode_utf8(
                    element_xml(self.context(), self.codec.deserializers@, e, true, false),
                ),
            ),
        }
    }

    /// The entries of an archive after a part is saved to it: the
    /// directory of the parent and the directory of the part; the file of
    /// the part, if it holds anything; the directory and the file of its
    /// relationships, if it can have any and has them; then the parts
    /// that it contains, in the order of the references of its
    /// description. Nothing is written to a path that is taken.
    pub open spec fn node_saved(
        &self,
        node: PartNodeView,
        parent_path: Seq<char>,
        entries: Seq<EntryView>,
    ) -> Seq<EntryView>
        decreases node, 0int,
    {
        let shape = self.shape_of(node.part);
        let child_parent = parent_path + path_segment(shape.general);
        let with_parent = with_directory(entries, resolved_path(parent_path));
        let with_own = with_directory(
            with_parent,
            resolved_path(parent_path + shape.general + "/"@),
        );
        let with_data = match self.data_bytes(node.data) {
            Some(bytes) => with_file(with_own, node.inner_path, bytes),
            None => with_own,
        };
        let with_rels = if shape.has_children && node.relationships is Some {
            with_file(
                with_directory(with_data, resolved_path(child_parent + "_rels"@)),
                node.rels_path,
                encode_utf8(Relationships::text(node.relationships->Some_0, true, false)),
            )
        } else {
            with_data
        };
        if shape.has_children {
            self.fields_saved(node.children, node.children.len() as int, child_parent, with_rels)
        } else {
            with_rels
        }
    }

    /// The entries after the parts of the first `n` references are saved.
    pub open spec fn fields_saved(
        &self,
        fields: Seq<Seq<PartNodeView>>,
        n: int,
        parent_path: Seq<char>,
        entries: Seq<EntryView>,
    ) -> Seq<EntryView>
        decreases fields, n,
    {
        if n <= 0 || n > fields.len() {
            entries
        } else {
            self.nodes_saved(
                fields[n - 1],
                fields[n - 1].len() as int,
                parent_path,
                self.fields_saved(fields, n - 1, parent_path, entries),
            )
        }
    }

    /// The entries after the first `n` parts of a list are saved.
    pub open spec fn nodes_saved(
        &self,
        nodes: Seq<PartNodeView>,
        n: int,
        parent_path: Seq<char>,
        entries: Seq<EntryView>,
    ) -> Seq<EntryView>
        decreases nodes, n,
    {
        if n <= 0 || n > nodes.len() {
            entries
        } else {
            self.node_saved(
                nodes[n - 1],
                parent_path,
                self.nodes_saved(nodes, n - 1, parent_path, entries),
            )
        }
    }

    /// The entries of the archive that a package is saved to: the
    /// content-type registry first, then the tree of the parts.
    pub open spec fn package_saved(&self, content_types: TypesView, root: PartNodeView) -> Seq<
        EntryView,
    > {
        self.node_saved(
            root,
            Seq::empty(),
            seq![
                EntryView {
                    path: "[Content_Types].xml"@,
                    directory: false,
                    bytes: encode_utf8(Types::text(content_types, true, false)),
                },
            ],
        )
    }

    /// Saving a part writes no path twice.
    pub proof fn lemma_node_saved_distinct(
        &self,
        node: PartNodeView,
        parent_path: Seq<char>,
        entries: Seq<EntryView>,
    )
        requires
            distinct_paths(entries),
        ensures
            distinct_paths(self.node_saved(node, parent_path, entries)),
        decreases node, 0int,
    {
        let shape = self.shape_of(node.part);
        let child_parent = parent_path + path_segment(shape.general);
        let with_parent = with_directory(entries, resolved_path(parent_path));
        lemma_with_entry_distinct(
            entries,
            EntryView { path: resolved_path(parent_path), directory: true, bytes: Seq::empty() },
        );
        let with_own = with_directory(
            with_parent,
            resolved_path(parent_path + shape.general + "/"@),
        );
        lemma_with_entry_distinct(
            with_parent,
            EntryView {
                path: resolved_path(parent_path + shape.general + "/"@),
                directory: true,
                bytes: Seq::empty(),
            },
        );
        let with_data = match self.data_bytes(node.data) {
            Some(bytes) => with_file(with_own, node.inner_path, bytes),
            None => with_own,
        };
        if self.data_bytes(node.data) is Some {
            lemma_with_entry_distinct(
                with_own,
                EntryView {
                    path: node.inner_path,
                    directory: false,
                    bytes: self.data_bytes(node.data)->Some_0,
                },
            );
        }
        if shape.has_children && node.relationships is Some {
            let with_dir = with_directory(with_data, resolved_path(child_parent + "_rels"@));
            lemma_with_entry_distinct(
                with_data,
                EntryView {
                    path: resolved_path(child_parent + "_rels"@),
                    directory: true,
                    bytes: Seq::empty(),
                },
            );
            lemma_with_entry_distinct(
                with_dir,
                EntryView {
                    path: node.rels_path,
                    directory: false,
                    bytes: encode_utf8(
                        Relationships::text(node.relationships->Some_0, true, false),
                    ),
                },
            );
        }
        let with_rels = if shape.has_children && node.relationships is Some {
            with_file(
                with_directory(with_data, resolved_path(child_parent + "_rels"@)),
                node.rels_path,
                encode_utf8(Relationships::text(node.relationships->Some_0, true, false)),
            )
        } else {
            with_data
        };
        if shape.has_children {
            self.lemma_fields_saved_distinct(
                node.children,
                node.children.len() as int,
                child_parent,
                with_rels,
            );
        }
    }

    pub proof fn lemma_fields_saved_distinct(
        &self,
        fields: Seq<Seq<PartNodeView>>,
        n: int,
        parent_path: Seq<char>,
        entries: Seq<EntryView>,
    )
        requires
            distinct_paths(entries),
        ensures
            distinct_paths(self.fields_saved(fields, n, parent_path, entries)),
        decreases fields, n,
    {
        if !(n <= 0 || n > fields.len()) {
            self.lemma_fields_saved_distinct(fields, n - 1, parent_path, entries);
            self.lemma_nodes_saved_distinct(
                fields[n - 1],
                fields[n - 1].len() as int,
                parent_path,
                self.fields_saved(fields, n - 1, parent_path, entries),
            );
        }
    }

    pub proof fn lemma_nodes_saved_distinct(
        &self,
        nodes: Seq<PartNodeView>,
        n: int,
        parent_path: Seq<char>,
        entries: Seq<EntryView>,
    )
        requires
            distinct_paths(entries),
        ensures
            distinct_paths(self.nodes_saved(nodes, n, parent_path, entries)),
        decreases nodes, n,
    {
        if !(n <= 0 || n > nodes.len()) {
            self.lemma_nodes_saved_distinct(nodes, n - 1, parent_path, entries);
            self.lemma_node_saved_distinct(
                nodes[n - 1],
                parent_path,
                self.nodes_saved(nodes, n - 1, parent_path, entries),
            );
        }
    }

    /// Saving a package never writes the same path of the archive twice.
    pub proof fn lemma_package_saved_distinct(&self, content_types: TypesView, root: PartNodeView)
        ensures
            distinct_paths(self.package_saved(content_types, root)),
    {
        let first = seq![
            EntryView {
                path: "[Content_Types].xml"@,
                directory: false,
                bytes: encode_utf8(Types::text(content_types, true, false)),
            },
        ];
        assert(distinct_paths(first));
        self.lemma_node_saved_distinct(root, Seq::empty(), first);
    }
}

/// Adds an entry to the entries of an archive, unless its path is taken.
pub fn add_entry(entries: &mut Vec<ArchiveEntry>, e: ArchiveEntry)
    ensures
        entries_view(final(entries)@) == with_entry(entries_view(old(entries)@), e@),
{
    let ghost before = entries_view(entries@);
    let mut i: usize = 0;
    while i < entries.len()
        invariant
            i <= entries@.len(),
            entries@ == old(entries)@,
            before == entries_view(entries@),
            forall|j: int| 0 <= j < i ==> (#[trigger] before[j]).path != e@.path,
        decreases entries@.len() - i,
    {
        if entries[i].path.as_str().eq(e.path.as_str()) {
            assert(before[i as int].path == e@.path);
            return ;
        }
        i += 1;
    }
    entries.push(e);
    assert(entries_view(entries@) =~= before.push(e@));
}

/// Adds a directory, unless its path is empty or taken.
pub fn add_directory(entries: &mut Vec<ArchiveEntry>, path: String)
    ensures
        entries_view(final(entries)@) == with_directory(entries_view(old(entries)@), path@),
{
    if !path.as_str().is_empty() {
        add_entry(entries, ArchiveEntry { path, directory: true, bytes: Vec::new() });
    }
}

/// Adds a file, unless its path is taken.
pub fn add_file(entries: &mut Vec<ArchiveEntry>, path: String, bytes: Vec<u8>)
    ensures
        entries_view(final(entries)@) == with_file(entries_view(old(entries)@), path@, bytes@),
{
    add_entry(entries, ArchiveEntry { path, directory: false, bytes });
}

impl<'a> Workshop<'a> {
    /// The path of a part's directory under its parent, and whether the
    /// part can contain parts.
    fn find_shape(&self, part: usize) -> (r: (&'a str, bool))
        ensures
            r.0@ == self.shape_of(part as int).general,
            r.1 == self.shape_of(part as int).has_children,
    {
        let ctx = self.codec.context;
        if part < ctx.parts.len() {
            (ctx.parts[part].paths.general.as_str(), ctx.parts[part].children.len() > 0)
        } else {
            proof {
                reveal_strlit("");
            }
            ("", false)
        }
    }

    fn data_to_bytes(&self, d: &PartData) -> (r: Option<Vec<u8>>)
        ensures
            match r {
                Some(b) => self.data_bytes(data_view(*d)) == Some(b@),
                None => self.data_bytes(data_view(*d)) is None,
            },
    {
        match d {
            PartData::Nothing => None,
            PartData::Text(s) => Some(s.as_str().as_bytes_vec()),
            PartData::Bytes(b) => Some(b.clone()),
            PartData::CoreProperties(c) => Some(c.to_xml_bytes(true, false)),
            PartData::RootElement(e) => {
                let text = self.codec.to_xml_string(e, true, false);
                Some(text.as_str().as_bytes_vec())
            },
        }
    }

    /// Saves a part and the parts that it contains to the entries of an
    /// archive.
    pub fn save_zip(&self, node: &PartNode, parent_path: &str, entries: &mut Vec<ArchiveEntry>)
        ensures
            entries_view(final(entries)@) == self.node_saved(
                node@,
                parent_path@,
                entries_view(old(entries)@),
            ),
        decreases node, 0int,
    {
        let (general, has_children) = self.find_shape(node.part);
        let child_parent = if general.is_empty() {
            assert(parent_path@ + path_segment(general@) =~= parent_path@);
            parent_path.to_owned()
        } else {
            let own = concat(general, "/");
            concat(parent_path, own.as_str())
        };
        assert(child_parent@ == parent_path@ + path_segment(general@));
        add_directory(entries, resolve_zip_file_path(parent_path));
        let own_dir = concat(parent_path, general);
        let own_dir = concat(own_dir.as_str(), "/");
        add_directory(entries, resolve_zip_file_path(own_dir.as_str()));
        match self.data_to_bytes(&node.data) {
            Some(bytes) => {
                add_file(entries, node.inner_path.clone(), bytes);
            },
            None => {},
        }
        if has_children {
            match &node.relationships {
                Some(r) => {
                    let rels_dir = concat(child_parent.as_str(), "_rels");
                    add_directory(entries, resolve_zip_file_path(rels_dir.as_str()));
                    add_file(entries, node.rels_path.clone(), r.to_xml_bytes(true, false));
                },
                None => {},
            }
            proof {
                lemma_fields_view(node.children@, node.children@.len() as int);
            }
            self.save_fields(&node.children, node.children.len(), child_parent.as_str(), entries);
        }
    }

    fn save_fields(
        &self,
        fields: &Vec<Vec<PartNode>>,
        n: usize,
        parent_path: &str,
        entries: &mut Vec<ArchiveEntry>,
    )
        requires
            n <= fields@.len(),
        ensures
            entries_view(final(entries)@) == self.fields_saved(
                fields_view(fields@, fields@.len() as int),
                n as int,
                parent_path@,
                entries_view(old(entries)@),
            ),
        decreases fields, n,
    {
        proof {
            lemma_fields_view(fields@, fields@.len() as int);
        }
        if n == 0 {
            return ;
        }
        self.save_fields(fields, n - 1, parent_path, entries);
        let nodes = &fields[n - 1];
        proof {
            lemma_nodes_view(nodes@, nodes@.len() as int);
        }
        self.save_nodes(nodes, nodes.len(), parent_path, entries);
    }

    fn save_nodes(
        &self,
        nodes: &Vec<PartNode>,
        n: usize,
        parent_path: &str,
        entries: &mut Vec<ArchiveEntry>,
    )
        requires
            n <= nodes@.len(),
        ensures
            entries_view(final(entries)@) == self.nodes_saved(
                nodes_view(nodes@, nodes@.len() as int),
                n as int,
                parent_path@,
                entries_view(old(entries)@),
            ),
        decreases nodes, n,
    {
        proof {
            lemma_nodes_view(nodes@, nodes@.len() as int);
        }
        if n == 0 {
            return ;
        }
        self.save_nodes(nodes, n - 1, parent_path, entries);
        self.save_zip(&nodes[n - 1], parent_path, entries);
    }

    /// The entries of the archive that a package is saved to. No path is
    /// written twice.
    pub fn save(&self, package: &Package) -> (entries: Vec<ArchiveEntry>)
        ensures
            entries_view(entries@) == self.package_saved(package.content_types@, package.root@),
            distinct_paths(entries_view(entries@)),
    {
        let mut entries: Vec<ArchiveEntry> = Vec::new();
        entries.push(
            ArchiveEntry {
                path: "[Content_Types].xml".to_owned(),
                directory: false,
                bytes: package.content_types.to_xml_bytes(true, false),
            },
        );
        assert(entries_view(entries@) =~= seq![
            EntryView {
                path: "[Content_Types].xml"@,
                directory: false,
                bytes: encode_utf8(Types::text(package.content_types@, true, false)),
            },
        ]);
        proof {
            reveal_strlit("");
            assert(""@ =~= Seq::<char>::empty());
            self.lemma_package_saved_distinct(package.content_types@, package.root@);
        }
        self.save_zip(&package.root, "", &mut entries);
        entries
    }
}

/// One file of an archive, made ready for loading: its path, its bytes,
/// the text that the bytes stand for, and the events of that text.
#[derive(Debug)]
pub struct PackageFile {
    pub path: String,
    pub bytes: Vec<u8>,
    pub text: Result<String, String>,
    pub events: Vec<XmlEvent>,
}

/// Makes a file of an archive ready for loading: with the text that its
/// bytes stand for and the events of that text; bytes that are no text
/// have the one event that refuses them.
pub fn read_package_file(path: String, bytes: Vec<u8>) -> (r: PackageFile)
    ensures
        r.path == path,
        r.bytes == bytes,
        match r.text {
            Ok(s) => utf8_text(bytes@) == Ok::<Seq<char>, Seq<char>>(s@) && valid_utf8(bytes@)
                && s@ == decode_utf8(bytes@) && r.events@ == xml_events(s@),
            Err(m) => utf8_text(bytes@) == Err::<Seq<char>, Seq<char>>(m@) && !valid_utf8(bytes@)
                && r.events@.len() == 1 && r.events@[0] == XmlEvent::Failure(m),
        },
        is_event_list(r.events@),
{
    let text = string_from_utf8(bytes.as_slice());
    let events = match &text {
        Ok(s) => tokenize(s.as_str()),
        Err(m) => {
            let mut events: Vec<XmlEvent> = Vec::new();
            events.push(XmlEvent::Failure(m.clone()));
            events
        },
    };
    PackageFile { path, bytes, text, events }
}

/// The first file, from `from` on, that has the given path.
pub open spec fn file_named(files: Seq<PackageFile>, path: Seq<char>, from: int) -> Option<int>
    decreases files.len() - from,
{
    if from < 0 || from >= files.len() {
        None
    } else if files[from].path@ == path {
        Some(from)
    } else {
        file_named(files, path, from + 1)
    }
}

pub fn find_file(files: &Vec<PackageFile>, path: &str) -> (r: Option<usize>)
    ensures
        match r {
            Some(i) => file_named(files@, path@, 0) == Some(i as int) && i < files@.len(),
            None => file_named(files@, path@, 0) is None,
        },
{
    let mut i: usize = 0;
    while i < files.len()
        invariant
            i <= files@.len(),
            file_named(files@, path@, 0) == file_named(files@, path@, i as int),
        decreases files@.len() - i,
    {
        if files[i].path.as_str().eq(path) {
            return Some(i);
        }
        i += 1;
    }
    None
}

/// The name of the file of a part's relationships: the name of the part's
/// own file, if the part is an XML file; it must stand behind a `/`, else
/// the error carries the path.
pub open spec fn rels_target(path: Seq<char>) -> Result<Seq<char>, SdkErrorView> {
    if ".xml"@.is_suffix_of(path) {
        match rsplit_once(path, '/') {
            Some(p) => Ok(p.1),
            None => Err(SdkErrorView::CommonError(path)),
        }
    } else {
        Ok(Seq::empty())
    }
}

/// The path of the file of a part's relationships.
pub open spec fn rels_path_of(child_parent: Seq<char>, target: Seq<char>) -> Seq<char> {
    resolved_path(child_parent + "_rels/"@ + target + ".rels"@)
}

/// The path of a part that a relationship leads to: the target of the
/// relationship, resolved against the directory of the part that has the
/// relationship.
pub open spec fn target_path(child_parent: Seq<char>, target: Seq<char>) -> Seq<char> {
    resolved_path(child_parent + target)
}

pub fn find_rels_path(child_parent: &str, path: &str) -> (r: Result<String, SdkError>)
    ensures
        match r {
            Ok(p) => rels_target(path@) matches Ok(t) && p@ == rels_path_of(child_parent@, t),
            Err(e) => rels_target(path@) == Err::<Seq<char>, SdkErrorView>(e@),
        },
{
    let mut text = concat(child_parent, "_rels/");
    if ends_with(path, ".xml") {
        match str_rsplit_once(path, '/') {
            Some((_, target)) => {
                text.append(target);
            },
            None => {
                return Err(common_error(path));
            },
        }
    } else {
        assert(text@ + Seq::<char>::empty() =~= text@);
    }
    text.append(".rels");
    Ok(resolve_zip_file_path(text.as_str()))
}

pub fn find_target_path(child_parent: &str, target: &str) -> (r: String)
    ensures
        r@ == target_path(child_parent@, target@),
{
    let text = concat(child_parent, target);
    resolve_zip_file_path(text.as_str())
}

pub proof fn lemma_fields_view_update(fields: Seq<Vec<PartNode>>, c: int, nodes: Vec<PartNode>)
    requires
        0 <= c < fields.len(),
    ensures
        fields_view(fields.update(c, nodes), fields.len() as int) == fields_view(
            fields,
            fields.len() as int,
        ).update(c, nodes_view(nodes@, nodes@.len() as int)),
{
    lemma_fields_view(fields, fields.len() as int);
    lemma_fields_view(fields.update(c, nodes), fields.len() as int);
    assert(fields_view(fields.update(c, nodes), fields.len() as int) =~= fields_view(
        fields,
        fields.len() as int,
    ).update(c, nodes_view(nodes@, nodes@.len() as int)));
}

pub proof fn lemma_nodes_view_push(nodes: Seq<PartNode>, node: PartNode)
    ensures
        nodes_view(nodes.push(node), nodes.len() as int + 1) == nodes_view(
            nodes,
            nodes.len() as int,
        ).push(node_view(node)),
{
    lemma_nodes_view(nodes, nodes.len() as int);
    lemma_nodes_view(nodes.push(node), nodes.len() as int + 1);
    assert(nodes_view(nodes.push(node), nodes.len() as int + 1) =~= nodes_view(
        nodes,
        nodes.len() as int,
    ).push(node_view(node)));
}

impl<'a> Workshop<'a> {
    /// The model of the part at a place, if there is a part and a model.
    pub open spec fn model_of(&self, part: int) -> Option<PartModel> {
        if 0 <= part < self.context().parts@.len() && part < self.models@.len() {
            Some(self.models@[part])
        } else {
            None
        }
    }

    /// Whether the reference to a child at `c` is for parts that a
    /// relationship of the given type leads to.
    pub open spec fn field_matches(&self, model: PartModel, c: int, rtype: Seq<char>) -> bool {
        match model.children@[c] {
            Some(f) => f.part < self.context().parts@.len()
                && self.context().parts@[f.part as int].relationship_type@ == rtype,
            None => false,
        }
    }

    /// The first reference to a child, from `from` on, that a
    /// relationship of the given type belongs to.
    pub open spec fn matching_field(&self, model: PartModel, rtype: Seq<char>, from: int)
        -> Option<int>
        decreases model.children@.len() - from,
    {
        if from < 0 || from >= model.children@.len() {
            None
        } else if self.field_matches(model, from, rtype) {
            Some(from)
        } else {
            self.matching_field(model, rtype, from + 1)
        }
    }

    /// The directory that the parts contained in a part are resolved
    /// against.
    pub open spec fn child_parent_of(&self, part: int, parent_path: Seq<char>) -> Seq<char> {
        parent_path + path_segment(self.shape_of(part).general)
    }

    /// The relationships of a part and the path of their file: a part
    /// that cannot contain parts has none; neither has a part whose file
    /// of relationships is not in the archive.
    pub open spec fn loaded_relationships(
        &self,
        files: Seq<PackageFile>,
        part: int,
        parent_path: Seq<char>,
        path: Seq<char>,
    ) -> Result<(Seq<char>, Option<RelationshipsView>), SdkErrorView> {
        if !self.shape_of(part).has_children {
            Ok((Seq::empty(), None))
        } else {
            match rels_target(path) {
                Err(e) => Err(e),
                Ok(t) => {
                    let p = rels_path_of(self.child_parent_of(part, parent_path), t);
                    match file_named(files, p, 0) {
                        None => Ok((Seq::empty(), None)),
                        Some(i) => match Relationships::parsed(files[i].events@, 0, None) {
                            Ok((r, _)) => Ok((p, Some(r))),
                            Err(e) => Err(e),
                        },
                    }
                },
            }
        }
    }

    /// What a part holds, read from its file, which must be in the
    /// archive (else the error carries the path).
    pub open spec fn loaded_data(&self, files: Seq<PackageFile>, model: PartModel, path: Seq<char>)
        -> Result<PartDataView, SdkErrorView> {
        match model.content {
            PartContent::Nothing => Ok(PartDataView::Nothing),
            _ => match file_named(files, path, 0) {
                None => Err(SdkErrorView::ZipError(path)),
                Some(i) => match model.content {
                    PartContent::Text => match files[i].text {
                        Ok(s) => Ok(PartDataView::Text(s@)),
                        Err(m) => Err(SdkErrorView::StdIoError(m@)),
                    },
                    PartContent::Bytes => Ok(PartDataView::Bytes(files[i].bytes@)),
                    PartContent::CoreProperties => match CoreProperties::parsed(
                        files[i].events@,
                        0,
                        None,
                    ) {
                        Ok((c, _)) => Ok(PartDataView::CoreProperties(c)),
                        Err(e) => Err(e),
                    },
                    PartContent::RootElement(at) => match parsed(
                        self.context(),
                        self.codec.deserializers@,
                        at,
                        files[i].events@,
                        0,
                        None,
                    ) {
                        Ok((e, _)) => Ok(PartDataView::RootElement(e)),
                        Err(e) => Err(e),
                    },
                    PartContent::Nothing => Ok(PartDataView::Nothing),
                },
            },
        }
    }

    /// The name of the first required child, from `from` on, for which no
    /// part was found.
    pub open spec fn missing_part(
        &self,
        part: int,
        model: PartModel,
        children: Seq<Seq<PartNodeView>>,
        from: int,
    ) -> Option<Seq<char>>
        decreases model.children@.len() - from,
    {
        if from < 0 || from >= model.children@.len() || from >= children.len() {
            None
        } else {
            match model.children@[from] {
                Some(f) => if f.occurrence == Occurrence::Required && children[from].len() == 0 {
                    Some(
                        if from < self.context().parts@[part].children@.len() {
                            snake_case(self.context().parts@[part].children@[from].api_name@)
                        } else {
                            Seq::empty()
                        },
                    )
                } else {
                    self.missing_part(part, model, children, from + 1)
                },
                None => self.missing_part(part, model, children, from + 1),
            }
        }
    }

    /// A part read from the files of an archive, with the parts that it
    /// contains: its relationships and what it holds are read; each
    /// relationship that belongs to a reference of the part's description
    /// leads to a part, which is read in the same way; then every
    /// required child must have been found, else the error names the
    /// first that was not. `fuel` bounds how deep the parts can be nested.
    pub open spec fn loaded(
        &self,
        files: Seq<PackageFile>,
        part: int,
        parent_path: Seq<char>,
        path: Seq<char>,
        r_id: Seq<char>,
        fuel: nat,
    ) -> Result<PartNodeView, SdkErrorView>
        decreases fuel, 0int, 0int,
    {
        if fuel == 0 {
            Err(SdkErrorView::UnknownError)
        } else {
            match self.model_of(part) {
                None => Err(SdkErrorView::UnknownError),
                Some(model) => match self.loaded_relationships(files, part, parent_path, path) {
                    Err(e) => Err(e),
                    Ok((rels_path, relationships)) => match self.loaded_data(files, model, path) {
                        Err(e) => Err(e),
                        Ok(data) => match (match relationships {
                            Some(r) => self.loaded_children(
                                files,
                                part,
                                parent_path,
                                r.relationship,
                                r.relationship.len() as int,
                                (fuel - 1) as nat,
                            ),
                            None => Ok(no_children(model.children@.len() as int)),
                        }) {
                            Err(e) => Err(e),
                            Ok(children) => match self.missing_part(part, model, children, 0) {
                                Some(name) => Err(SdkErrorView::CommonError(name)),
                                None => Ok(
                                    PartNodeView {
                                        part,
                                        r_id,
                                        inner_path: path,
                                        rels_path,
                                        relationships,
                                        data,
                                        children,
                                    },
                                ),
                            },
                        },
                    },
                },
            }
        }
    }

    /// The parts that the first `k` relationships of a part lead to, for
    /// each reference of the part's description: a part of a reference
    /// that repeats is added to those that are there, any other replaces
    /// what was found before.
    pub open spec fn loaded_children(
        &self,
        files: Seq<PackageFile>,
        part: int,
        parent_path: Seq<char>,
        relationships: Seq<RelationshipView>,
        k: int,
        fuel: nat,
    ) -> Result<Seq<Seq<PartNodeView>>, SdkErrorView>
        decreases fuel, 1int, k,
    {
        match self.model_of(part) {
            None => Err(SdkErrorView::UnknownError),
            Some(model) => if k <= 0 || k > relationships.len() {
                Ok(no_children(model.children@.len() as int))
            } else {
                match self.loaded_children(files, part, parent_path, relationships, k - 1, fuel) {
                    Err(e) => Err(e),
                    Ok(children) => match self.matching_field(
                        model,
                        relationships[k - 1].relationship_type,
                        0,
                    ) {
                        None => Ok(children),
                        Some(c) => match self.loaded(
                            files,
                            model.children@[c]->Some_0.part as int,
                            self.child_parent_of(part, parent_path),
                            target_path(
                                self.child_parent_of(part, parent_path),
                                relationships[k - 1].target,
                            ),
                            relationships[k - 1].id,
                            fuel,
                        ) {
                            Err(e) => Err(e),
                            Ok(node) => Ok(
                                if 0 <= c < children.len() {
                                    children.update(
                                        c,
                                        if model.children@[c]->Some_0.occurrence
                                            == Occurrence::Repeated {
                                            children[c].push(node)
                                        } else {
                                            seq![node]
                                        },
                                    )
                                } else {
                                    children
                                },
                            ),
                        },
                    },
                }
            },
        }
    }

    /// A package read from the files of an archive: the content-type
    /// registry, which must be there, and the tree of the parts from the
    /// root part on.
    pub open spec fn package_loaded(&self, files: Seq<PackageFile>, root: int) -> Result<
        (TypesView, PartNodeView),
        SdkErrorView,
    > {
        match file_named(files, "[Content_Types].xml"@, 0) {
            None => Err(SdkErrorView::ZipError("[Content_Types].xml"@)),
            Some(i) => match Types::parsed(files[i].events@, 0, None) {
                Err(e) => Err(e),
                Ok((types, _)) => match self.loaded(
                    files,
                    root,
                    Seq::empty(),
                    Seq::empty(),
                    Seq::empty(),
                    (files.len() + 1) as nat,
                ) {
                    Err(e) => Err(e),
                    Ok(node) => Ok((types, node)),
                },
            },
        }
    }
}

/// No part for any of `n` references.
pub open spec fn no_children(n: int) -> Seq<Seq<PartNodeView>> {
    Seq::new(n as nat, |c: int| Seq::empty())
}

fn make_no_children(n: usize) -> (children: Vec<Vec<PartNode>>)
    ensures
        children@.len() == n,
        fields_view(children@, n as int) == no_children(n as int),
{
    let mut children: Vec<Vec<PartNode>> = Vec::new();
    let mut c: usize = 0;
    while c < n
        invariant
            c <= n,
            children@.len() == c,
            forall|j: int| 0 <= j < c ==> (#[trigger] children@[j])@.len() == 0,
        decreases n - c,
    {
        children.push(Vec::new());
        c += 1;
    }
    proof {
        lemma_fields_view(children@, n as int);
        assert(fields_view(children@, n as int) =~= no_children(n as int));
    }
    children
}

impl<'a> Workshop<'a> {
    fn find_model(&self, part: usize) -> (r: Option<&'a PartModel>)
        ensures
            match r {
                Some(m) => self.model_of(part as int) == Some(*m),
                None => self.model_of(part as int) is None,
            },
    {
        if part < self.codec.context.parts.len() && part < self.models.len() {
            Some(&self.models[part])
        } else {
            None
        }
    }

    fn find_matching_field(&self, model: &PartModel, rtype: &str) -> (r: Option<usize>)
        ensures
            match r {
                Some(c) => self.matching_field(*model, rtype@, 0) == Some(c as int) && c
                    < model.children@.len() && model.children@[c as int] is Some,
                None => self.matching_field(*model, rtype@, 0) is None,
            },
    {
        let parts = &self.codec.context.parts;
        let mut c: usize = 0;
        while c < model.children.len()
            invariant
                c <= model.children@.len(),
                parts@ == self.context().parts@,
                self.matching_field(*model, rtype@, 0) == self.matching_field(
                    *model,
                    rtype@,
                    c as int,
                ),
            decreases model.children@.len() - c,
        {
            match model.children[c] {
                Some(f) => {
                    if f.part < parts.len() && parts[f.part].relationship_type.as_str().eq(rtype) {
                        return Some(c);
                    }
                },
                None => {},
            }
            c += 1;
        }
        None
    }

    fn find_child_parent(&self, part: usize, parent_path: &str) -> (r: String)
        ensures
            r@ == self.child_parent_of(part as int, parent_path@),
    {
        let (general, _) = self.find_shape(part);
        if general.is_empty() {
            assert(parent_path@ + path_segment(general@) =~= parent_path@);
            parent_path.to_owned()
        } else {
            let own = concat(general, "/");
            concat(parent_path, own.as_str())
        }
    }

    fn load_relationships(
        &self,
        files: &Vec<PackageFile>,
        part: usize,
        parent_path: &str,
        path: &str,
    ) -> (r: Result<(String, Option<Relationships>), SdkError>)
        ensures
            match r {
                Ok((p, rels)) => self.loaded_relationships(
                    files@,
                    part as int,
                    parent_path@,
                    path@,
                ) == Ok::<(Seq<char>, Option<RelationshipsView>), SdkErrorView>(
                    (
                        p@,
                        match rels {
                            Some(x) => Some(x@),
                            None => None,
                        },
                    ),
                ),
                Err(e) => self.loaded_relationships(files@, part as int, parent_path@, path@)
                    == Err::<(Seq<char>, Option<RelationshipsView>), SdkErrorView>(e@),
            },
    {
        let (_, has_children) = self.find_shape(part);
        if !has_children {
            return Ok((String::new(), None));
        }
        let child_parent = self.find_child_parent(part, parent_path);
        let p = match find_rels_path(child_parent.as_str(), path) {
            Ok(p) => p,
            Err(e) => {
                return Err(e);
            },
        };
        match find_file(files, p.as_str()) {
            None => Ok((String::new(), None)),
            Some(i) => match Relationships::deserialize_inner(&files[i].events, 0, None) {
                Ok((r, _)) => Ok((p, Some(r))),
                Err(e) => Err(e),
            },
        }
    }

    fn load_data(&self, files: &Vec<PackageFile>, model: &PartModel, path: &str) -> (r: Result<
        PartData,
        SdkError,
    >)
        ensures
            match r {
                Ok(d) => self.loaded_data(files@, *model, path@) == Ok::<
                    PartDataView,
                    SdkErrorView,
                >(data_view(d)),
                Err(e) => self.loaded_data(files@, *model, path@) == Err::<
                    PartDataView,
                    SdkErrorView,
                >(e@),
            },
    {
        match model.content {
            PartContent::Nothing => {
                return Ok(PartData::Nothing);
            },
            _ => {},
        }
        let i = match find_file(files, path) {
            Some(i) => i,
            None => {
                return Err(SdkError::ZipError(path.to_owned()));
            },
        };
        let file = &files[i];
        match model.content {
            PartContent::Text => match &file.text {
                Ok(s) => Ok(PartData::Text(s.clone())),
                Err(m) => Err(SdkError::StdIoError(m.clone())),
            },
            PartContent::Bytes => Ok(PartData::Bytes(file.bytes.clone())),
            PartContent::CoreProperties => match CoreProperties::deserialize_inner(
                &file.events,
                0,
                None,
            ) {
                Ok((c, _)) => Ok(PartData::CoreProperties(c)),
                Err(e) => Err(e),
            },
            PartContent::RootElement(at) => match self.codec.deserialize_inner(
                at,
                &file.events,
                0,
                None,
            ) {
                Ok((e, _)) => Ok(PartData::RootElement(e)),
                Err(e) => Err(e),
            },
            PartContent::Nothing => Ok(PartData::Nothing),
        }
    }

    fn check_parts(&self, part: usize, model: &PartModel, children: &Vec<Vec<PartNode>>) -> (r:
        Result<(), SdkError>)
        requires
            part < self.context().parts@.len(),
        ensures
            match r {
                Ok(_) => self.missing_part(
                    part as int,
                    *model,
                    fields_view(children@, children@.len() as int),
                    0,
                ) is None,
                Err(e) => self.missing_part(
                    part as int,
                    *model,
                    fields_view(children@, children@.len() as int),
                    0,
                ) matches Some(name) && e@ == SdkErrorView::CommonError(name),
            },
    {
        let ghost view = fields_view(children@, children@.len() as int);
        proof {
            lemma_fields_view(children@, children@.len() as int);
        }
        let description = &self.codec.context.parts[part];
        let mut c: usize = 0;
        while c < model.children.len() && c < children.len()
            invariant
                c <= model.children@.len(),
                view == fields_view(children@, children@.len() as int),
                view.len() == children@.len(),
                *description == self.context().parts@[part as int],
                forall|i: int|
                    0 <= i < children@.len() ==> #[trigger] view[i] == nodes_view(
                        children@[i]@,
                        children@[i]@.len() as int,
                    ),
                self.missing_part(part as int, *model, view, 0) == self.missing_part(
                    part as int,
                    *model,
                    view,
                    c as int,
                ),
            decreases model.children@.len() - c,
        {
            proof {
                lemma_nodes_view(children@[c as int]@, children@[c as int]@.len() as int);
            }
            match model.children[c] {
                Some(f) => {
                    if f.occurrence == Occurrence::Required && children[c].len() == 0 {
                        if c < description.children.len() {
                            return Err(
                                SdkError::CommonError(
                                    to_snake_case(description.children[c].api_name.as_str()),
                                ),
                            );
                        } else {
                            return Err(SdkError::CommonError(String::new()));
                        }
                    }
                },
                None => {},
            }
            c += 1;
        }
        Ok(())
    }

    /// Reads a part, and the parts that it contains, from the files of an
    /// archive.
    pub fn new_from_archive(
        &self,
        files: &Vec<PackageFile>,
        part: usize,
        parent_path: &str,
        path: &str,
        r_id: &str,
        fuel: usize,
    ) -> (r: Result<PartNode, SdkError>)
        ensures
            match r {
                Ok(node) => self.loaded(
                    files@,
                    part as int,
                    parent_path@,
                    path@,
                    r_id@,
                    fuel as nat,
                ) == Ok::<PartNodeView, SdkErrorView>(node@),
                Err(e) => self.loaded(files@, part as int, parent_path@, path@, r_id@, fuel as nat)
                    == Err::<PartNodeView, SdkErrorView>(e@),
            },
        decreases fuel, 0int, 0int,
    {
        if fuel == 0 {
            return Err(SdkError::UnknownError);
        }
        let model = match self.find_model(part) {
            Some(m) => m,
            None => {
                return Err(SdkError::UnknownError);
            },
        };
        let (rels_path, relationships) = match self.load_relationships(
            files,
            part,
            parent_path,
            path,
        ) {
            Ok(v) => v,
            Err(e) => {
                return Err(e);
            },
        };
        let data = match self.load_data(files, model, path) {
            Ok(d) => d,
            Err(e) => {
                return Err(e);
            },
        };
        let children = match &relationships {
            Some(r) => match self.load_children(
                files,
                part,
                model,
                parent_path,
                &r.relationship,
                fuel - 1,
            ) {
                Ok(c) => c,
                Err(e) => {
                    return Err(e);
                },
            },
            None => make_no_children(model.children.len()),
        };
        match self.check_parts(part, model, &children) {
            Err(e) => {
                return Err(e);
            },
            Ok(_) => {},
        }
        Ok(
            PartNode {
                part,
                r_id: r_id.to_owned(),
                inner_path: path.to_owned(),
                rels_path,
                relationships,
                data,
                children,
            },
        )
    }

    /// Reads the parts that the relationships of a part lead to.
    #[verifier::loop_isolation(false)]
    fn load_children(
        &self,
        files: &Vec<PackageFile>,
        part: usize,
        model: &PartModel,
        parent_path: &str,
        relationships: &Vec<Relationship>,
        fuel: usize,
    ) -> (r: Result<Vec<Vec<PartNode>>, SdkError>)
        requires
            self.model_of(part as int) == Some(*model),
        ensures
            match r {
                Ok(children) => self.loaded_children(
                    files@,
                    part as int,
                    parent_path@,
                    crate::opc_relationships::relationship_views(relationships@),
                    relationships@.len() as int,
                    fuel as nat,
                ) == Ok::<Seq<Seq<PartNodeView>>, SdkErrorView>(
                    fields_view(children@, children@.len() as int),
                ) && children@.len() == model.children@.len(),
                Err(e) => self.loaded_children(
                    files@,
                    part as int,
                    parent_path@,
                    crate::opc_relationships::relationship_views(relationships@),
                    relationships@.len() as int,
                    fuel as nat,
                ) == Err::<Seq<Seq<PartNodeView>>, SdkErrorView>(e@),
            },
        decreases fuel, 1int, relationships@.len(),
    {
        let ghost rels = crate::opc_relationships::relationship_views(relationships@);
        let child_parent = self.find_child_parent(part, parent_path);
        let mut children = make_no_children(model.children.len());
        let mut k: usize = 0;
        while k < relationships.len()
            invariant
                k <= relationships@.len(),
                children@.len() == model.children@.len(),
                self.loaded_children(files@, part as int, parent_path@, rels, k as int, fuel as nat)
                    == Ok::<Seq<Seq<PartNodeView>>, SdkErrorView>(
                    fields_view(children@, children@.len() as int),
                ),
            decreases relationships@.len() - k,
        {
            let r = &relationships[k];
            assert(rels[k as int] == r@);
            let ghost before = fields_view(children@, children@.len() as int);
            proof {
                lemma_fields_view(children@, children@.len() as int);
            }
            match self.find_matching_field(model, r.relationship_type.as_str()) {
                None => {},
                Some(c) => {
                    let field = match model.children[c] {
                        Some(f) => f,
                        None => PartChildField {
                            child: 0,
                            part: 0,
                            occurrence: Occurrence::Optional,
                        },
                    };
                    let target = find_target_path(child_parent.as_str(), r.target.as_str());
                    match self.new_from_archive(
                        files,
                        field.part,
                        child_parent.as_str(),
                        target.as_str(),
                        r.id.as_str(),
                        fuel,
                    ) {
                        Err(e) => {
                            proof {
                                self.lemma_loaded_children_stops(
                                    files@,
                                    part as int,
                                    parent_path@,
                                    rels,
                                    k + 1,
                                    relationships@.len() as int,
                                    fuel as nat,
                                );
                            }
                            return Err(e);
                        },
                        Ok(node) => {
                            let ghost old_children = children@;
                            let taken = replace_at(&mut children, c, Vec::new());
                            let mut nodes = if field.occurrence == Occurrence::Repeated {
                                taken
                            } else {
                                Vec::new()
                            };
                            proof {
                                lemma_nodes_view(taken@, taken@.len() as int);
                                lemma_nodes_view_push(nodes@, node);
                            }
                            nodes.push(node);
                            let ghost stored = nodes;
                            children.set(c, nodes);
                            proof {
                                assert(children@ =~= old_children.update(c as int, stored));
                                lemma_fields_view_update(old_children, c as int, stored);
                                if field.occurrence != Occurrence::Repeated {
                                    assert(nodes_view(stored@, stored@.len() as int) =~= seq![
                                        node@,
                                    ]);
                                }
                            }
                        },
                    }
                },
            }
            k += 1;
        }
        Ok(children)
    }

    /// When the parts of a relationship cannot be read, those of the
    /// relationships behind it are not read either.
    pub proof fn lemma_loaded_children_stops(
        &self,
        files: Seq<PackageFile>,
        part: int,
        parent_path: Seq<char>,
        relationships: Seq<RelationshipView>,
        k: int,
        n: int,
        fuel: nat,
    )
        requires
            0 < k <= n <= relationships.len(),
            self.loaded_children(files, part, parent_path, relationships, k, fuel) is Err,
        ensures
            self.loaded_children(files, part, parent_path, relationships, n, fuel)
                == self.loaded_children(files, part, parent_path, relationships, k, fuel),
        decreases n - k,
    {
        if k < n {
            self.lemma_loaded_children_stops(
                files,
                part,
                parent_path,
                relationships,
                k + 1,
                n,
                fuel,
            );
        }
    }

    /// Reads a package from the files of its archive.
    pub fn load(&self, files: &Vec<PackageFile>, root: usize) -> (r: Result<Package, SdkError>)
        requires
            files@.len() < usize::MAX,
        ensures
            match r {
                Ok(p) => self.package_loaded(files@, root as int) == Ok::<
                    (TypesView, PartNodeView),
                    SdkErrorView,
                >((p.content_types@, p.root@)),
                Err(e) => self.package_loaded(files@, root as int) == Err::<
                    (TypesView, PartNodeView),
                    SdkErrorView,
                >(e@),
            },
    {
        let i = match find_file(files, "[Content_Types].xml") {
            Some(i) => i,
            None => {
                return Err(SdkError::ZipError("[Content_Types].xml".to_owned()));
            },
        };
        let content_types = match Types::deserialize_inner(&files[i].events, 0, None) {
            Ok((t, _)) => t,
            Err(e) => {
                return Err(e);
            },
        };
        proof {
            reveal_strlit("");
            assert(""@ =~= Seq::<char>::empty());
        }
        match self.new_from_archive(files, root, "", "", "", files.len() + 1) {
            Ok(root) => Ok(Package { content_types, root }),
            Err(e) => Err(e),
        }
    }
}

} // verus!
