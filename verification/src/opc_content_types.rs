//! The content-type registry of a package: which content type the parts
//! have, by file extension or by part name.

use crate::common::{
    as_escaped_xml_attribute, common_error, element_text, expect_event_start, expected_start,
    failure_error, matches_tag, opening_tag, opt_text, read_text_pair, tag_matches, text_pair,
    to_xml_string, xml_attribute, xml_escaped, Deserializeable, SdkError, SdkErrorView,
    Serializeable, StartTag, XmlEvent,
};
use crate::xmlns::{
    pairs_view, read_xmlns_attributes, write_xmlns_attributes, xmlns_attributes, xmlns_text,
    XmlnsView,
};
use vstd::prelude::*;
use vstd::string::{StrSliceExecFns, StringExecFns};
use vstd::utf8::encode_utf8;

verus! {

/// The content type of every part whose name ends with an extension.
#[derive(Debug, Default)]
pub struct Default {
    pub extension: String,
    pub content_type: String,
}

/// The mathematical value of a [`Default`].
pub struct DefaultView {
    pub extension: Seq<char>,
    pub content_type: Seq<char>,
}

impl View for Default {
    type V = DefaultView;

    open spec fn view(&self) -> DefaultView {
        DefaultView { extension: self.extension@, content_type: self.content_type@ }
    }
}

/// The content type of one part, given by its name.
#[derive(Debug, Default)]
pub struct Override {
    pub content_type: String,
    pub part_name: String,
}

/// The mathematical value of an [`Override`].
pub struct OverrideView {
    pub content_type: Seq<char>,
    pub part_name: Seq<char>,
}

impl View for Override {
    type V = OverrideView;

    open spec fn view(&self) -> OverrideView {
        OverrideView { content_type: self.content_type@, part_name: self.part_name@ }
    }
}

/// The record that an opening tag of a `Default` describes: both
/// attributes must be there, the error names the first that is missing.
pub open spec fn default_of_tag(tag: StartTag) -> Result<DefaultView, SdkErrorView> {
    match text_pair(tag.attributes@, "Extension"@, "ContentType"@) {
        Err(e) => Err(e),
        Ok(p) => if p.0 is None {
            Err(SdkErrorView::CommonError("extension"@))
        } else if p.1 is None {
            Err(SdkErrorView::CommonError("content_type"@))
        } else {
            Ok(DefaultView { extension: p.0->Some_0, content_type: p.1->Some_0 })
        },
    }
}

/// The record that an opening tag of an `Override` describes: both
/// attributes must be there, the error names the first that is missing.
pub open spec fn override_of_tag(tag: StartTag) -> Result<OverrideView, SdkErrorView> {
    match text_pair(tag.attributes@, "ContentType"@, "PartName"@) {
        Err(e) => Err(e),
        Ok(p) => if p.0 is None {
            Err(SdkErrorView::CommonError("content_type"@))
        } else if p.1 is None {
            Err(SdkErrorView::CommonError("part_name"@))
        } else {
            Ok(OverrideView { content_type: p.0->Some_0, part_name: p.1->Some_0 })
        },
    }
}

impl Default {
    fn from_tag(tag: &StartTag) -> (r: Result<Default, SdkError>)
        ensures
            match r {
                Ok(v) => default_of_tag(*tag) == Ok::<DefaultView, SdkErrorView>(v@),
                Err(e) => default_of_tag(*tag) == Err::<DefaultView, SdkErrorView>(e@),
            },
    {
        let (extension, content_type) = match read_text_pair(
            &tag.attributes,
            "Extension",
            "ContentType",
        ) {
            Ok(p) => p,
            Err(e) => {
                return Err(e);
            },
        };
        let extension = match extension {
            Some(v) => v,
            None => {
                return Err(common_error("extension"));
            },
        };
        let content_type = match content_type {
            Some(v) => v,
            None => {
                return Err(common_error("content_type"));
            },
        };
        Ok(Default { extension, content_type })
    }

    pub open spec fn attributes_text(v: DefaultView) -> Seq<char> {
        xml_attribute("Extension"@, xml_escaped(v.extension)) + xml_attribute(
            "ContentType"@,
            xml_escaped(v.content_type),
        )
    }

    pub open spec fn text(v: DefaultView, header: bool, with_xmlns: bool) -> Seq<char> {
        element_text(
            header,
            if with_xmlns {
                Self::prefixed_name()
            } else {
                Self::name()
            },
            Some(Self::attributes_text(v)),
            None,
        )
    }
}

impl Deserializeable for Default {
    /// A record read from the events of a document: from the tag that the
    /// caller has already read, or from the next opening tag, which must be
    /// a `Default`.
    open spec fn parsed(events: Seq<XmlEvent>, pos: int, peeked: Option<(StartTag, bool)>)
        -> Result<(DefaultView, int), SdkErrorView> {
        match expected_start(
            events,
            pos,
            peeked,
            encode_utf8(Self::prefixed_name()),
            encode_utf8(Self::name()),
        ) {
            Err(e) => Err(e),
            Ok((tag, _, next)) => match default_of_tag(tag) {
                Err(e) => Err(e),
                Ok(v) => Ok((v, next)),
            },
        }
    }

    fn deserialize_inner(
        events: &Vec<XmlEvent>,
        pos: usize,
        xml_event: Option<(&StartTag, bool)>,
    ) -> (r: Result<(Default, usize), SdkError>) {
        let (tag, _, next) = match expect_event_start(
            events,
            pos,
            xml_event,
            "w:Default".as_bytes(),
            "Default".as_bytes(),
        ) {
            Ok(v) => v,
            Err(e) => {
                return Err(e);
            },
        };
        match Self::from_tag(tag) {
            Ok(v) => Ok((v, next)),
            Err(e) => Err(e),
        }
    }
}

impl Serializeable for Default {
    open spec fn prefixed_name() -> Seq<char> {
        "w:Default"@
    }

    open spec fn name() -> Seq<char> {
        "Default"@
    }

    open spec fn tag_attributes_text(&self, with_xmlns: bool) -> Option<Seq<char>> {
        Some(Self::attributes_text(self@))
    }

    open spec fn inner_text(&self, with_xmlns: bool) -> Option<Seq<char>> {
        None
    }

    fn tag_of(with_xmlns: bool) -> (r: &'static str) {
        if with_xmlns {
            "w:Default"
        } else {
            "Default"
        }
    }

    fn xml_tag_attributes(&self, with_xmlns: bool) -> (r: Option<String>) {
        let mut attributes = as_escaped_xml_attribute("Extension", self.extension.as_str());
        let a = as_escaped_xml_attribute("ContentType", self.content_type.as_str());
        attributes.append(a.as_str());
        Some(attributes)
    }

    fn xml_inner(&self, with_xmlns: bool) -> (r: Option<String>) {
        None
    }
}

impl Override {
    fn from_tag(tag: &StartTag) -> (r: Result<Override, SdkError>)
        ensures
            match r {
                Ok(v) => override_of_tag(*tag) == Ok::<OverrideView, SdkErrorView>(v@),
                Err(e) => override_of_tag(*tag) == Err::<OverrideView, SdkErrorView>(e@),
            },
    {
        let (content_type, part_name) = match read_text_pair(
            &tag.attributes,
            "ContentType",
            "PartName",
        ) {
            Ok(p) => p,
            Err(e) => {
                return Err(e);
            },
        };
        let content_type = match content_type {
            Some(v) => v,
            None => {
                return Err(common_error("content_type"));
            },
        };
        let part_name = match part_name {
            Some(v) => v,
            None => {
                return Err(common_error("part_name"));
            },
        };
        Ok(Override { content_type, part_name })
    }

    /// The attributes of an `Override` as they are written: the content
    /// type, then the name of the part.
    pub open spec fn attributes_text(v: OverrideView) -> Seq<char> {
        xml_attribute("ContentType"@, xml_escaped(v.content_type)) + xml_attribute(
            "PartName"@,
            xml_escaped(v.part_name),
        )
    }

    pub open spec fn text(v: OverrideView, header: bool, with_xmlns: bool) -> Seq<char> {
        element_text(
            header,
            if with_xmlns {
                Self::prefixed_name()
            } else {
                Self::name()
            },
            Some(Self::attributes_text(v)),
            None,
        )
    }
}

impl Deserializeable for Override {
    /// A record read from the events of a document: from the tag that the
    /// caller has already read, or from the next opening tag, which must be
    /// an `Override`.
    open spec fn parsed(events: Seq<XmlEvent>, pos: int, peeked: Option<(StartTag, bool)>)
        -> Result<(OverrideView, int), SdkErrorView> {
        match expected_start(
            events,
            pos,
            peeked,
            encode_utf8(Self::prefixed_name()),
            encode_utf8(Self::name()),
        ) {
            Err(e) => Err(e),
            Ok((tag, _, next)) => match override_of_tag(tag) {
                Err(e) => Err(e),
                Ok(v) => Ok((v, next)),
            },
        }
    }

    fn deserialize_inner(
        events: &Vec<XmlEvent>,
        pos: usize,
        xml_event: Option<(&StartTag, bool)>,
    ) -> (r: Result<(Override, usize), SdkError>) {
        let (tag, _, next) = match expect_event_start(
            events,
            pos,
            xml_event,
            "w:Override".as_bytes(),
            "Override".as_bytes(),
        ) {
            Ok(v) => v,
            Err(e) => {
                return Err(e);
            },
        };
        match Self::from_tag(tag) {
            Ok(v) => Ok((v, next)),
            Err(e) => Err(e),
        }
    }
}

impl Serializeable for Override {
    open spec fn prefixed_name() -> Seq<char> {
        "w:Override"@
    }

    open spec fn name() -> Seq<char> {
        "Override"@
    }

    open spec fn tag_attributes_text(&self, with_xmlns: bool) -> Option<Seq<char>> {
        Some(Self::attributes_text(self@))
    }

    open spec fn inner_text(&self, with_xmlns: bool) -> Option<Seq<char>> {
        None
    }

    fn tag_of(with_xmlns: bool) -> (r: &'static str) {
        if with_xmlns {
            "w:Override"
        } else {
            "Override"
        }
    }

    fn xml_tag_attributes(&self, with_xmlns: bool) -> (r: Option<String>) {
        let mut attributes = as_escaped_xml_attribute("ContentType", self.content_type.as_str());
        let a = as_escaped_xml_attribute("PartName", self.part_name.as_str());
        attributes.append(a.as_str());
        Some(attributes)
    }

    fn xml_inner(&self, with_xmlns: bool) -> (r: Option<String>) {
        None
    }
}

/// One record of the registry.
#[derive(Debug, Default)]
pub enum TypesChildChoice {
    Default(Box<Default>),
    Override(Box<Override>),
    #[default]
    Nothing,
}

/// The mathematical value of a [`TypesChildChoice`].
pub enum TypesChildView {
    Default(DefaultView),
    Override(OverrideView),
    Nothing,
}

impl View for TypesChildChoice {
    type V = TypesChildView;

    open spec fn view(&self) -> TypesChildView {
        match self {
            TypesChildChoice::Default(d) => TypesChildView::Default(d@),
            TypesChildChoice::Override(o) => TypesChildView::Override(o@),
            TypesChildChoice::Nothing => TypesChildView::Nothing,
        }
    }
}

/// The content-type registry of a package.
#[derive(Debug, Default)]
pub struct Types {
    pub xmlns: Option<String>,
    pub xmlns_map: Vec<(String, String)>,
    pub mc_ignorable: Option<String>,
    pub children: Vec<TypesChildChoice>,
}

/// The mathematical value of [`Types`].
pub struct TypesView {
    pub xmlns: XmlnsView,
    pub children: Seq<TypesChildView>,
}

pub open spec fn child_views(cs: Seq<TypesChildChoice>) -> Seq<TypesChildView> {
    cs.map_values(|c: TypesChildChoice| c@)
}

impl View for Types {
    type V = TypesView;

    open spec fn view(&self) -> TypesView {
        TypesView {
            xmlns: XmlnsView {
                xmlns: opt_text(self.xmlns),
                xmlns_map: pairs_view(self.xmlns_map@),
                mc_ignorable: opt_text(self.mc_ignorable),
            },
            children: child_views(self.children@),
        }
    }
}

/// The record that an opening tag inside the registry describes: a
/// `Default`, an `Override`, or an error that names the registry.
pub open spec fn types_child_of_tag(t: StartTag) -> Result<TypesChildView, SdkErrorView> {
    if tag_matches(t.name@, encode_utf8(Default::prefixed_name()), encode_utf8(Default::name())) {
        match default_of_tag(t) {
            Err(e) => Err(e),
            Ok(d) => Ok(TypesChildView::Default(d)),
        }
    } else if tag_matches(
        t.name@,
        encode_utf8(Override::prefixed_name()),
        encode_utf8(Override::name()),
    ) {
        match override_of_tag(t) {
            Err(e) => Err(e),
            Ok(o) => Ok(TypesChildView::Override(o)),
        }
    } else {
        Err(SdkErrorView::CommonError("Types"@))
    }
}

/// The records between the opening tag of the registry and its closing
/// tag, from `pos` on, added to those in `acc`; with the position behind
/// the closing tag.
pub open spec fn types_children(events: Seq<XmlEvent>, pos: int, acc: Seq<TypesChildView>)
    -> Result<(Seq<TypesChildView>, int), SdkErrorView>
    decreases events.len() - pos,
{
    if pos < 0 || pos >= events.len() {
        Err(SdkErrorView::UnknownError)
    } else {
        match opening_tag(events[pos]) {
            Some(t) => match types_child_of_tag(t) {
                Err(e) => Err(e),
                Ok(c) => types_children(events, pos + 1, acc.push(c)),
            },
            None => match events[pos] {
                XmlEvent::End(name) => if tag_matches(
                    name@,
                    encode_utf8(Types::prefixed_name()),
                    encode_utf8(Types::name()),
                ) {
                    Ok((acc, pos + 1))
                } else {
                    types_children(events, pos + 1, acc)
                },
                XmlEvent::Eof => Err(SdkErrorView::UnknownError),
                XmlEvent::Failure(m) => Err(failure_error(m)),
                _ => types_children(events, pos + 1, acc),
            },
        }
    }
}

/// The text of one record.
pub open spec fn types_child_text(c: TypesChildView, with_xmlns: bool) -> Seq<char> {
    match c {
        TypesChildView::Default(d) => Default::text(d, false, with_xmlns),
        TypesChildView::Override(o) => Override::text(o, false, with_xmlns),
        TypesChildView::Nothing => Seq::empty(),
    }
}

/// The text of a list of records, one after the other.
pub open spec fn types_children_text(cs: Seq<TypesChildView>, with_xmlns: bool) -> Seq<char>
    decreases cs.len(),
{
    if cs.len() == 0 {
        Seq::empty()
    } else {
        types_children_text(cs.drop_last(), with_xmlns) + types_child_text(cs.last(), with_xmlns)
    }
}

fn child_from_tag(t: &StartTag) -> (r: Result<TypesChildChoice, SdkError>)
    ensures
        match r {
            Ok(v) => types_child_of_tag(*t) == Ok::<TypesChildView, SdkErrorView>(v@),
            Err(e) => types_child_of_tag(*t) == Err::<TypesChildView, SdkErrorView>(e@),
        },
{
    if matches_tag(t.name.as_slice(), "w:Default".as_bytes(), "Default".as_bytes()) {
        match Default::from_tag(t) {
            Ok(d) => Ok(TypesChildChoice::Default(Box::new(d))),
            Err(e) => Err(e),
        }
    } else if matches_tag(t.name.as_slice(), "w:Override".as_bytes(), "Override".as_bytes()) {
        match Override::from_tag(t) {
            Ok(o) => Ok(TypesChildChoice::Override(Box::new(o))),
            Err(e) => Err(e),
        }
    } else {
        Err(common_error("Types"))
    }
}

impl Types {
    /// The text of the registry.
    pub open spec fn text(v: TypesView, header: bool, with_xmlns: bool) -> Seq<char> {
        element_text(
            header,
            if with_xmlns {
                Self::prefixed_name()
            } else {
                Self::name()
            },
            Some(xmlns_text(v.xmlns, with_xmlns)),
            Some(types_children_text(v.children, with_xmlns)),
        )
    }
}

impl Deserializeable for Types {
    /// The registry read from the events of a document: the opening tag,
    /// its namespace declarations, and, unless the tag closes itself, the
    /// records up to the closing tag.
    open spec fn parsed(events: Seq<XmlEvent>, pos: int, peeked: Option<(StartTag, bool)>)
        -> Result<(TypesView, int), SdkErrorView> {
        match expected_start(
            events,
            pos,
            peeked,
            encode_utf8(Self::prefixed_name()),
            encode_utf8(Self::name()),
        ) {
            Err(e) => Err(e),
            Ok((tag, empty, next)) => match xmlns_attributes(tag.attributes@) {
                Err(e) => Err(e),
                Ok(ns) => if empty {
                    Ok((TypesView { xmlns: ns, children: Seq::empty() }, next))
                } else {
                    match types_children(events, next, Seq::empty()) {
                        Err(e) => Err(e),
                        Ok((cs, end)) => Ok((TypesView { xmlns: ns, children: cs }, end)),
                    }
                },
            },
        }
    }

    #[verifier::loop_isolation(false)]
    fn deserialize_inner(
        events: &Vec<XmlEvent>,
        pos: usize,
        xml_event: Option<(&StartTag, bool)>,
    ) -> (r: Result<(Types, usize), SdkError>) {
        let (tag, empty, next) = match expect_event_start(
            events,
            pos,
            xml_event,
            "w:Types".as_bytes(),
            "Types".as_bytes(),
        ) {
            Ok(v) => v,
            Err(e) => {
                return Err(e);
            },
        };
        let ns = match read_xmlns_attributes(&tag.attributes) {
            Ok(v) => v,
            Err(e) => {
                return Err(e);
            },
        };
        let mut children: Vec<TypesChildChoice> = Vec::new();
        let mut i: usize = next;
        assert(child_views(children@) =~= Seq::empty());
        let mut done = empty;
        while !done
            invariant
                next <= i <= events@.len(),
                empty ==> done && i == next && child_views(children@) =~= Seq::empty(),
                !empty ==> if done {
                    types_children(events@, next as int, Seq::empty()) == Ok::<
                        (Seq<TypesChildView>, int),
                        SdkErrorView,
                    >((child_views(children@), i as int))
                } else {
                    types_children(events@, next as int, Seq::empty()) == types_children(
                        events@,
                        i as int,
                        child_views(children@),
                    )
                },
            decreases
                    events@.len() - i + if done {
                        0int
                    } else {
                        1int
                    },
        {
            if i >= events.len() {
                return Err(SdkError::UnknownError);
            }
            let ghost acc = child_views(children@);
            match &events[i] {
                XmlEvent::Start(t) => {
                    match child_from_tag(t) {
                        Ok(c) => {
                            children.push(c);
                            assert(child_views(children@) =~= acc.push(c@));
                        },
                        Err(e) => {
                            return Err(e);
                        },
                    }
                },
                XmlEvent::Empty(t) => {
                    match child_from_tag(t) {
                        Ok(c) => {
                            children.push(c);
                            assert(child_views(children@) =~= acc.push(c@));
                        },
                        Err(e) => {
                            return Err(e);
                        },
                    }
                },
                XmlEvent::End(name) => {
                    if matches_tag(name.as_slice(), "w:Types".as_bytes(), "Types".as_bytes()) {
                        done = true;
                    }
                },
                XmlEvent::Eof => {
                    return Err(SdkError::UnknownError);
                },
                XmlEvent::Failure(m) => {
                    return Err(SdkError::QuickXmlError(m.clone()));
                },
                _ => {},
            }
            i += 1;
        }
        Ok(
            (
                Types {
                    xmlns: ns.xmlns,
                    xmlns_map: ns.xmlns_map,
                    mc_ignorable: ns.mc_ignorable,
                    children,
                },
                i,
            ),
        )
    }
}

impl Serializeable for Types {
    open spec fn prefixed_name() -> Seq<char> {
        "w:Types"@
    }

    open spec fn name() -> Seq<char> {
        "Types"@
    }

    open spec fn tag_attributes_text(&self, with_xmlns: bool) -> Option<Seq<char>> {
        Some(xmlns_text(self@.xmlns, with_xmlns))
    }

    open spec fn inner_text(&self, with_xmlns: bool) -> Option<Seq<char>> {
        Some(types_children_text(self@.children, with_xmlns))
    }

    fn tag_of(with_xmlns: bool) -> (r: &'static str) {
        if with_xmlns {
            "w:Types"
        } else {
            "Types"
        }
    }

    fn xml_tag_attributes(&self, with_xmlns: bool) -> (r: Option<String>) {
        Some(write_xmlns_attributes(&self.xmlns, &self.xmlns_map, &self.mc_ignorable, with_xmlns))
    }

    fn xml_inner(&self, with_xmlns: bool) -> (r: Option<String>) {
        let mut xml = String::new();
        let ghost cs = child_views(self.children@);
        let mut i: usize = 0;
        assert(cs.take(0) =~= Seq::empty());
        while i < self.children.len()
            invariant
                i <= self.children@.len(),
                cs == child_views(self.children@),
                xml@ == types_children_text(cs.take(i as int), with_xmlns),
            decreases self.children@.len() - i,
        {
            let ghost before = xml@;
            match &self.children[i] {
                TypesChildChoice::Default(child) => {
                    let text = child.to_xml_string(false, with_xmlns);
                    xml.append(text.as_str());
                },
                TypesChildChoice::Override(child) => {
                    let text = child.to_xml_string(false, with_xmlns);
                    xml.append(text.as_str());
                },
                TypesChildChoice::Nothing => {
                    assert(before + Seq::<char>::empty() =~= before);
                },
            }
            proof {
                assert(cs.take(i + 1).drop_last() =~= cs.take(i as int));
                assert(cs.take(i + 1).last() == self.children@[i as int]@);
            }
            i += 1;
        }
        assert(cs.take(i as int) =~= cs);
        Some(xml)
    }
}

} // verus!
