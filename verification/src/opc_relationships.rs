//! The relationships of a part: typed, identified pointers from the part
//! to other parts or to outside resources.

use crate::common::{
    as_escaped_xml_attribute, attribute_value, common_error, element_text, expect_event_start,
    expected_start, failure_error, key_is, lemma_try_fold_next, lemma_try_fold_stops, matches_tag,
    opening_tag, read_attribute_value, tag_matches, to_xml_string, try_fold, xml_attribute,
    xml_escaped, Deserializeable, SdkError, SdkErrorView, Serializeable, StartTag, XmlAttribute,
    XmlEvent,
};
use crate::xmlns::{
    opt_view as opt_string_view, pairs_view, read_xmlns_attributes, write_xmlns_attributes,
    xmlns_attributes, xmlns_text, XmlnsView,
};
use vstd::prelude::*;
use vstd::string::{StrSliceExecFns, StringExecFns};
use vstd::utf8::encode_utf8;

verus! {

/// Whether the target of a relationship lies inside the package.
#[derive(Clone, Copy, Debug, PartialEq, Eq, Structural)]
pub enum TargetMode {
    External,
    Internal,
}

impl Default for TargetMode {
    fn default() -> (r: Self)
        ensures
            r == TargetMode::External,
    {
        TargetMode::External
    }
}

/// The target mode that a text names.
pub open spec fn target_mode_of(text: Seq<char>) -> Option<TargetMode> {
    if text == "External"@ {
        Some(TargetMode::External)
    } else if text == "Internal"@ {
        Some(TargetMode::Internal)
    } else {
        None
    }
}

impl TargetMode {
    /// The text that names the mode.
    pub open spec fn text(self) -> Seq<char> {
        match self {
            TargetMode::External => "External"@,
            TargetMode::Internal => "Internal"@,
        }
    }

    /// Reads a mode; any other text is an error that carries the text.
    pub fn from_str(s: &str) -> (r: Result<Self, SdkError>)
        ensures
            match r {
                Ok(m) => target_mode_of(s@) == Some(m),
                Err(e) => target_mode_of(s@) is None && e@ == SdkErrorView::CommonError(s@),
            },
    {
        if s.eq("External") {
            Ok(TargetMode::External)
        } else if s.eq("Internal") {
            Ok(TargetMode::Internal)
        } else {
            Err(common_error(s))
        }
    }

    pub fn to_text(&self) -> (r: String)
        ensures
            r@ == self.text(),
    {
        match self {
            TargetMode::External => String::from_str("External"),
            TargetMode::Internal => String::from_str("Internal"),
        }
    }
}

/// Reading the text of a mode gives the mode back.
pub proof fn lemma_target_mode_round_trip(m: TargetMode)
    ensures
        target_mode_of(m.text()) == Some(m),
{
    reveal_strlit("External");
    reveal_strlit("Internal");
    assert("External"@.len() != "Internal"@.len() || "External"@[0] != "Internal"@[0]);
}

#[derive(Debug, Default)]
pub struct Relationship {
    pub target_mode: Option<TargetMode>,
    pub target: String,
    pub relationship_type: String,
    pub id: String,
}

/// The mathematical value of a [`Relationship`].
pub struct RelationshipView {
    pub target_mode: Option<TargetMode>,
    pub target: Seq<char>,
    pub relationship_type: Seq<char>,
    pub id: Seq<char>,
}

impl View for Relationship {
    type V = RelationshipView;

    open spec fn view(&self) -> RelationshipView {
        RelationshipView {
            target_mode: self.target_mode,
            target: self.target@,
            relationship_type: self.relationship_type@,
            id: self.id@,
        }
    }
}

/// What has been read of a relationship's attributes so far.
pub struct RelationshipFields {
    pub target_mode: Option<TargetMode>,
    pub target: Option<Seq<char>>,
    pub relationship_type: Option<Seq<char>>,
    pub id: Option<Seq<char>>,
}

/// One attribute of a relationship's tag: a malformed attribute stops the
/// reading, a known key sets its field, any other key is passed over.
pub open spec fn relationship_step(st: RelationshipFields, item: Result<XmlAttribute, String>)
    -> Result<RelationshipFields, SdkErrorView> {
    match item {
        Err(m) => Err(SdkErrorView::AttrError(m@)),
        Ok(a) => if a.key@ == encode_utf8("TargetMode"@) {
            match attribute_value(a) {
                Err(e) => Err(e),
                Ok(v) => match target_mode_of(v) {
                    Some(m) => Ok(RelationshipFields { target_mode: Some(m), ..st }),
                    None => Err(SdkErrorView::CommonError(v)),
                },
            }
        } else if a.key@ == encode_utf8("Target"@) {
            match attribute_value(a) {
                Err(e) => Err(e),
                Ok(v) => Ok(RelationshipFields { target: Some(v), ..st }),
            }
        } else if a.key@ == encode_utf8("Type"@) {
            match attribute_value(a) {
                Err(e) => Err(e),
                Ok(v) => Ok(RelationshipFields { relationship_type: Some(v), ..st }),
            }
        } else if a.key@ == encode_utf8("Id"@) {
            match attribute_value(a) {
                Err(e) => Err(e),
                Ok(v) => Ok(RelationshipFields { id: Some(v), ..st }),
            }
        } else {
            Ok(st)
        },
    }
}

pub open spec fn relationship_stepper() -> spec_fn(
    RelationshipFields,
    Result<XmlAttribute, String>,
) -> Result<RelationshipFields, SdkErrorView> {
    |st: RelationshipFields, item: Result<XmlAttribute, String>| relationship_step(st, item)
}

/// The relationship that an opening tag describes. The target, the type
/// and the identifier must be there; the error names the first of them
/// that is missing.
pub open spec fn relationship_of_tag(tag: StartTag) -> Result<RelationshipView, SdkErrorView> {
    match try_fold(
        tag.attributes@,
        RelationshipFields { target_mode: None, target: None, relationship_type: None, id: None },
        relationship_stepper(),
    ) {
        Err(e) => Err(e),
        Ok(st) => if st.target is None {
            Err(SdkErrorView::CommonError("target"@))
        } else if st.relationship_type is None {
            Err(SdkErrorView::CommonError("type"@))
        } else if st.id is None {
            Err(SdkErrorView::CommonError("id"@))
        } else {
            Ok(
                RelationshipView {
                    target_mode: st.target_mode,
                    target: st.target->Some_0,
                    relationship_type: st.relationship_type->Some_0,
                    id: st.id->Some_0,
                },
            )
        },
    }
}

impl Relationship {
    fn from_tag(tag: &StartTag) -> (r: Result<Relationship, SdkError>)
        ensures
            match r {
                Ok(v) => relationship_of_tag(*tag) == Ok::<RelationshipView, SdkErrorView>(v@),
                Err(e) => relationship_of_tag(*tag) == Err::<RelationshipView, SdkErrorView>(e@),
            },
    {
        let mut target_mode: Option<TargetMode> = None;
        let mut target: Option<String> = None;
        let mut relationship_type: Option<String> = None;
        let mut id: Option<String> = None;
        let ghost init = RelationshipFields {
            target_mode: None,
            target: None,
            relationship_type: None,
            id: None,
        };
        let ghost items = tag.attributes@;
        let mut i: usize = 0;
        assert(items.take(0) =~= Seq::empty());
        while i < tag.attributes.len()
            invariant
                i <= items.len(),
                items == tag.attributes@,
                init == (RelationshipFields {
                    target_mode: None,
                    target: None,
                    relationship_type: None,
                    id: None,
                }),
                try_fold(items.take(i as int), init, relationship_stepper()) == Ok::<
                    RelationshipFields,
                    SdkErrorView,
                >(
                    RelationshipFields {
                        target_mode,
                        target: opt_string_view(target),
                        relationship_type: opt_string_view(relationship_type),
                        id: opt_string_view(id),
                    },
                ),
            decreases items.len() - i,
        {
            proof {
                lemma_try_fold_next(items, i as int, init, relationship_stepper());
            }
            let ghost before = RelationshipFields {
                target_mode,
                target: opt_string_view(target),
                relationship_type: opt_string_view(relationship_type),
                id: opt_string_view(id),
            };
            let step: Result<(), SdkError> = match &tag.attributes[i] {
                Err(m) => Err(SdkError::AttrError(m.clone())),
                Ok(a) => {
                    if key_is(a, "TargetMode") {
                        match read_attribute_value(a) {
                            Err(e) => Err(e),
                            Ok(v) => match TargetMode::from_str(v.as_str()) {
                                Ok(m) => {
                                    target_mode = Some(m);
                                    Ok(())
                                },
                                Err(e) => Err(e),
                            },
                        }
                    } else if key_is(a, "Target") {
                        match read_attribute_value(a) {
                            Err(e) => Err(e),
                            Ok(v) => {
                                target = Some(v);
                                Ok(())
                            },
                        }
                    } else if key_is(a, "Type") {
                        match read_attribute_value(a) {
                            Err(e) => Err(e),
                            Ok(v) => {
                                relationship_type = Some(v);
                                Ok(())
                            },
                        }
                    } else if key_is(a, "Id") {
                        match read_attribute_value(a) {
                            Err(e) => Err(e),
                            Ok(v) => {
                                id = Some(v);
                                Ok(())
                            },
                        }
                    } else {
                        Ok(())
                    }
                },
            };
            match step {
                Err(e) => {
                    proof {
                        assert(relationship_step(before, items[i as int]) == Err::<
                            RelationshipFields,
                            SdkErrorView,
                        >(e@));
                        lemma_try_fold_stops(items, i + 1, init, relationship_stepper());
                    }
                    return Err(e);
                },
                Ok(_) => {},
            }
            i += 1;
        }
        assert(items.take(i as int) =~= items);
        let target = match target {
            Some(v) => v,
            None => {
                return Err(common_error("target"));
            },
        };
        let relationship_type = match relationship_type {
            Some(v) => v,
            None => {
                return Err(common_error("type"));
            },
        };
        let id = match id {
            Some(v) => v,
            None => {
                return Err(common_error("id"));
            },
        };
        Ok(Relationship { target_mode, target, relationship_type, id })
    }

    /// The attributes of a relationship as they are written: the target
    /// mode if there is one, then the target, the type and the identifier.
    pub open spec fn attributes_text(v: RelationshipView) -> Seq<char> {
        (match v.target_mode {
            Some(m) => xml_attribute("TargetMode"@, xml_escaped(m.text())),
            None => Seq::empty(),
        }) + xml_attribute("Target"@, xml_escaped(v.target)) + xml_attribute(
            "Type"@,
            xml_escaped(v.relationship_type),
        ) + xml_attribute("Id"@, xml_escaped(v.id))
    }

    /// The text of a relationship: one self-closing tag.
    pub open spec fn text(v: RelationshipView, header: bool, with_xmlns: bool) -> Seq<char> {
        element_text(
            header,
            if with_xmlns {
                Self::prefixed_name()
            } else {
                Self::name()
            },
            Some(Self::attributes_text(v)),
            None,
        )
    }
}

impl Deserializeable for Relationship {
    /// A relationship read from the events of a document: from the tag that
    /// the caller has already read, or from the next opening tag, which
    /// must be a relationship's. The second component is the position
    /// behind the tag.
    open spec fn parsed(events: Seq<XmlEvent>, pos: int, peeked: Option<(StartTag, bool)>)
        -> Result<(RelationshipView, int), SdkErrorView> {
        match expected_start(
            events,
            pos,
            peeked,
            encode_utf8(Self::prefixed_name()),
            encode_utf8(Self::name()),
        ) {
            Err(e) => Err(e),
            Ok((tag, _, next)) => match relationship_of_tag(tag) {
                Err(e) => Err(e),
                Ok(v) => Ok((v, next)),
            },
        }
    }

    fn deserialize_inner(
        events: &Vec<XmlEvent>,
        pos: usize,
        xml_event: Option<(&StartTag, bool)>,
    ) -> (r: Result<(Relationship, usize), SdkError>) {
        let (tag, _, next) = match expect_event_start(
            events,
            pos,
            xml_event,
            "w:Relationship".as_bytes(),
            "Relationship".as_bytes(),
        ) {
            Ok(v) => v,
            Err(e) => {
                return Err(e);
            },
        };
        match Self::from_tag(tag) {
            Ok(v) => Ok((v, next)),
            Err(e) => Err(e),
        }
    }
}

impl Serializeable for Relationship {
    /// The name of the element with the prefix that it is written with.
    open spec fn prefixed_name() -> Seq<char> {
        "w:Relationship"@
    }

    /// The bare name of the element.
    open spec fn name() -> Seq<char> {
        "Relationship"@
    }

    open spec fn tag_attributes_text(&self, with_xmlns: bool) -> Option<Seq<char>> {
        Some(Self::attributes_text(self@))
    }

    open spec fn inner_text(&self, with_xmlns: bool) -> Option<Seq<char>> {
        None
    }

    fn tag_of(with_xmlns: bool) -> (r: &'static str) {
        if with_xmlns {
            "w:Relationship"
        } else {
            "Relationship"
        }
    }

    fn xml_tag_attributes(&self, with_xmlns: bool) -> (r: Option<String>) {
        let mut attributes = String::new();
        if let Some(target_mode) = &self.target_mode {
            let text = target_mode.to_text();
            let a = as_escaped_xml_attribute("TargetMode", text.as_str());
            attributes.append(a.as_str());
        }
        let a = as_escaped_xml_attribute("Target", self.target.as_str());
        attributes.append(a.as_str());
        let a = as_escaped_xml_attribute("Type", self.relationship_type.as_str());
        attributes.append(a.as_str());
        let a = as_escaped_xml_attribute("Id", self.id.as_str());
        attributes.append(a.as_str());
        assert(attributes@ =~= Self::attributes_text(self@));
        Some(attributes)
    }

    fn xml_inner(&self, with_xmlns: bool) -> (r: Option<String>) {
        None
    }
}

/// The relationships of one part.
#[derive(Debug, Default)]
pub struct Relationships {
    pub xmlns: Option<String>,
    pub xmlns_map: Vec<(String, String)>,
    pub mc_ignorable: Option<String>,
    pub relationship: Vec<Relationship>,
}

/// The mathematical value of [`Relationships`].
pub struct RelationshipsView {
    pub xmlns: XmlnsView,
    pub relationship: Seq<RelationshipView>,
}

pub open spec fn relationship_views(rs: Seq<Relationship>) -> Seq<RelationshipView> {
    rs.map_values(|r: Relationship| r@)
}

impl View for Relationships {
    type V = RelationshipsView;

    open spec fn view(&self) -> RelationshipsView {
        RelationshipsView {
            xmlns: XmlnsView {
                xmlns: opt_string_view(self.xmlns),
                xmlns_map: pairs_view(self.xmlns_map@),
                mc_ignorable: opt_string_view(self.mc_ignorable),
            },
            relationship: relationship_views(self.relationship@),
        }
    }
}

/// The relationships between an opening tag and its closing tag, from
/// `pos` on, added to those in `acc`; with the position behind the closing
/// tag. Every opening tag must be a relationship's; a closing tag of
/// another name and any other event are passed over; the end of the text
/// is an error.
pub open spec fn relationships_children(
    events: Seq<XmlEvent>,
    pos: int,
    acc: Seq<RelationshipView>,
) -> Result<(Seq<RelationshipView>, int), SdkErrorView>
    decreases events.len() - pos,
{
    if pos < 0 || pos >= events.len() {
        Err(SdkErrorView::UnknownError)
    } else {
        match opening_tag(events[pos]) {
            Some(t) => if tag_matches(
                t.name@,
                encode_utf8(Relationship::prefixed_name()),
                encode_utf8(Relationship::name()),
            ) {
                match relationship_of_tag(t) {
                    Err(e) => Err(e),
                    Ok(r) => relationships_children(events, pos + 1, acc.push(r)),
                }
            } else {
                Err(SdkErrorView::CommonError("Relationships"@))
            },
            None => match events[pos] {
                XmlEvent::End(name) => if tag_matches(
                    name@,
                    encode_utf8(Relationships::prefixed_name()),
                    encode_utf8(Relationships::name()),
                ) {
                    Ok((acc, pos + 1))
                } else {
                    relationships_children(events, pos + 1, acc)
                },
                XmlEvent::Eof => Err(SdkErrorView::UnknownError),
                XmlEvent::Failure(m) => Err(failure_error(m)),
                _ => relationships_children(events, pos + 1, acc),
            },
        }
    }
}

/// The text of a list of relationships, one element after the other.
pub open spec fn relationships_text(rs: Seq<RelationshipView>, with_xmlns: bool) -> Seq<char>
    decreases rs.len(),
{
    if rs.len() == 0 {
        Seq::empty()
    } else {
        relationships_text(rs.drop_last(), with_xmlns) + Relationship::text(
            rs.last(),
            false,
            with_xmlns,
        )
    }
}

impl Relationships {
    /// The text of the relationships of a part.
    pub open spec fn text(v: RelationshipsView, header: bool, with_xmlns: bool) -> Seq<char> {
        element_text(
            header,
            if with_xmlns {
                Self::prefixed_name()
            } else {
                Self::name()
            },
            Some(xmlns_text(v.xmlns, with_xmlns)),
            Some(relationships_text(v.relationship, with_xmlns)),
        )
    }
}

impl Deserializeable for Relationships {
    /// The relationships read from the events of a document: the opening
    /// tag, its namespace declarations (a repeated key is an error), and,
    /// unless the tag closes itself, the relationships up to the closing
    /// tag.
    open spec fn parsed(events: Seq<XmlEvent>, pos: int, peeked: Option<(StartTag, bool)>)
        -> Result<(RelationshipsView, int), SdkErrorView> {
        match expected_start(
            events,
            pos,
            peeked,
            encode_utf8(Self::prefixed_name()),
            encode_utf8(Self::name()),
        ) {
            Err(e) => Err(e),
            Ok((tag, empty, next)) => match xmlns_attributes(tag.checked_attributes@) {
                Err(e) => Err(e),
                Ok(ns) => if empty {
                    Ok((RelationshipsView { xmlns: ns, relationship: Seq::empty() }, next))
                } else {
                    match relationships_children(events, next, Seq::empty()) {
                        Err(e) => Err(e),
                        Ok((rs, end)) => Ok(
                            (RelationshipsView { xmlns: ns, relationship: rs }, end),
                        ),
                    }
                },
            },
        }
    }

    #[verifier::loop_isolation(false)]
    fn deserialize_inner(
        events: &Vec<XmlEvent>,
        pos: usize,
        xml_event: Option<(&StartTag, bool)>,
    ) -> (r: Result<(Relationships, usize), SdkError>) {
        let (tag, empty, next) = match expect_event_start(
            events,
            pos,
            xml_event,
            "w:Relationships".as_bytes(),
            "Relationships".as_bytes(),
        ) {
            Ok(v) => v,
            Err(e) => {
                return Err(e);
            },
        };
        let ns = match read_xmlns_attributes(&tag.checked_attributes) {
            Ok(v) => v,
            Err(e) => {
                return Err(e);
            },
        };
        let mut relationship: Vec<Relationship> = Vec::new();
        let mut i: usize = next;
        assert(relationship_views(relationship@) =~= Seq::empty());
        let mut done = empty;
        while !done
            invariant
                next <= i <= events@.len(),
                empty ==> done && i == next && relationship_views(relationship@) =~= Seq::empty(),
                !empty ==> if done {
                    relationships_children(events@, next as int, Seq::empty()) == Ok::<
                        (Seq<RelationshipView>, int),
                        SdkErrorView,
                    >((relationship_views(relationship@), i as int))
                } else {
                    relationships_children(events@, next as int, Seq::empty())
                        == relationships_children(
                        events@,
                        i as int,
                        relationship_views(relationship@),
                    )
                },
            decreases
                    events@.len() - i + if done {
                        0int
                    } else {
                        1int
                    },
        {
            if i >= events.len() {
                return Err(SdkError::UnknownError);
            }
            let ghost acc = relationship_views(relationship@);
            match &events[i] {
                XmlEvent::Start(t) => {
                    if !matches_tag(
                        t.name.as_slice(),
                        "w:Relationship".as_bytes(),
                        "Relationship".as_bytes(),
                    ) {
                        return Err(common_error("Relationships"));
                    }
                    match Relationship::from_tag(t) {
                        Ok(r) => {
                            relationship.push(r);
                            assert(relationship_views(relationship@) =~= acc.push(r@));
                        },
                        Err(e) => {
                            return Err(e);
                        },
                    }
                },
                XmlEvent::Empty(t) => {
                    if !matches_tag(
                        t.name.as_slice(),
                        "w:Relationship".as_bytes(),
                        "Relationship".as_bytes(),
                    ) {
                        return Err(common_error("Relationships"));
                    }
                    match Relationship::from_tag(t) {
                        Ok(r) => {
                            relationship.push(r);
                            assert(relationship_views(relationship@) =~= acc.push(r@));
                        },
                        Err(e) => {
                            return Err(e);
                        },
                    }
                },
                XmlEvent::End(name) => {
                    if matches_tag(
                        name.as_slice(),
                        "w:Relationships".as_bytes(),
                        "Relationships".as_bytes(),
                    ) {
                        done = true;
                    }
                },
                XmlEvent::Eof => {
                    return Err(SdkError::UnknownError);
                },
                XmlEvent::Failure(m) => {
                    return Err(SdkError::QuickXmlError(m.clone()));
                },
                _ => {},
            }
            i += 1;
        }
        Ok(
            (
                Relationships {
                    xmlns: ns.xmlns,
                    xmlns_map: ns.xmlns_map,
                    mc_ignorable: ns.mc_ignorable,
                    relationship,
                },
                i,
            ),
        )
    }
}

impl Serializeable for Relationships {
    open spec fn prefixed_name() -> Seq<char> {
        "w:Relationships"@
    }

    open spec fn name() -> Seq<char> {
        "Relationships"@
    }

    open spec fn tag_attributes_text(&self, with_xmlns: bool) -> Option<Seq<char>> {
        Some(xmlns_text(self@.xmlns, with_xmlns))
    }

    open spec fn inner_text(&self, with_xmlns: bool) -> Option<Seq<char>> {
        Some(relationships_text(self@.relationship, with_xmlns))
    }

    fn tag_of(with_xmlns: bool) -> (r: &'static str) {
        if with_xmlns {
            "w:Relationships"
        } else {
            "Relationships"
        }
    }

    fn xml_tag_attributes(&self, with_xmlns: bool) -> (r: Option<String>) {
        Some(write_xmlns_attributes(&self.xmlns, &self.xmlns_map, &self.mc_ignorable, with_xmlns))
    }

    fn xml_inner(&self, with_xmlns: bool) -> (r: Option<String>) {
        let mut xml = String::new();
        let ghost rs = relationship_views(self.relationship@);
        let mut i: usize = 0;
        assert(rs.take(0) =~= Seq::empty());
        while i < self.relationship.len()
            invariant
                i <= self.relationship@.len(),
                rs == relationship_views(self.relationship@),
                xml@ == relationships_text(rs.take(i as int), with_xmlns),
            decreases self.relationship@.len() - i,
        {
            let child = self.relationship[i].to_xml_string(false, with_xmlns);
            xml.append(child.as_str());
            proof {
                assert(rs.take(i + 1).drop_last() =~= rs.take(i as int));
                assert(rs.take(i + 1).last() == self.relationship@[i as int]@);
            }
            i += 1;
        }
        assert(rs.take(i as int) =~= rs);
        Some(xml)
    }
}

} // verus!
