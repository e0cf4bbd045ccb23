//! The core properties of a package: its title, its authors, its dates
//! and the like.

use crate::common::{
    common_error, content_run, element_text, escape, expect_event_start, expected_start,
    failure_error, is_piece, matches_tag, name_is, opt_text, read_content_run, tag_end, tag_matches,
    xml_escaped, xml_tag_end, Deserializeable, SdkError, SdkErrorView, Serializeable, StartTag,
    XmlEvent,
};
use crate::xmlns::{
    pairs_view, read_xmlns_attributes, write_xmlns_attributes, xmlns_attributes, xmlns_text,
    XmlnsView,
};
use vstd::prelude::*;
use vstd::string::{StrSliceExecFns, StringExecFns};
use vstd::utf8::encode_utf8;

verus! {

#[derive(Debug, Default)]
pub struct CoreProperties {
    pub xmlns: Option<String>,
    pub xmlns_map: Vec<(String, String)>,
    pub mc_ignorable: Option<String>,
    pub category: Option<String>,
    pub content_status: Option<String>,
    pub created: Option<String>,
    pub creator: Option<String>,
    pub description: Option<String>,
    pub identifier: Option<String>,
    pub keywords: Option<String>,
    pub language: Option<String>,
    pub last_modified_by: Option<String>,
    pub last_printed: Option<String>,
    pub modified: Option<String>,
    pub revision: Option<String>,
    pub subject: Option<String>,
    pub title: Option<String>,
    pub version: Option<String>,
}

/// The mathematical value of [`CoreProperties`]: the namespace
/// declarations and the values of the properties, in the order of the
/// fields.
pub struct CorePropertiesView {
    pub xmlns: XmlnsView,
    pub properties: Seq<Option<Seq<char>>>,
}

impl View for CoreProperties {
    type V = CorePropertiesView;

    open spec fn view(&self) -> CorePropertiesView {
        CorePropertiesView {
            xmlns: XmlnsView {
                xmlns: opt_text(self.xmlns),
                xmlns_map: pairs_view(self.xmlns_map@),
                mc_ignorable: opt_text(self.mc_ignorable),
            },
            properties: seq![
                opt_text(self.category),
                opt_text(self.content_status),
                opt_text(self.created),
                opt_text(self.creator),
                opt_text(self.description),
                opt_text(self.identifier),
                opt_text(self.keywords),
                opt_text(self.language),
                opt_text(self.last_modified_by),
                opt_text(self.last_printed),
                opt_text(self.modified),
                opt_text(self.revision),
                opt_text(self.subject),
                opt_text(self.title),
                opt_text(self.version),
            ],
        }
    }
}

/// How many properties there are.
pub open spec fn property_count() -> int {
    15
}

/// The tag of the `k`-th property.
pub open spec fn property_tag(k: int) -> Seq<char> {
    if k == 0 {
        "cp:category"@
    } else if k == 1 {
        "cp:contentStatus"@
    } else if k == 2 {
        "dcterms:created"@
    } else if k == 3 {
        "dc:creator"@
    } else if k == 4 {
        "dc:description"@
    } else if k == 5 {
        "dc:identifier"@
    } else if k == 6 {
        "cp:keywords"@
    } else if k == 7 {
        "dc:language"@
    } else if k == 8 {
        "cp:lastModifiedBy"@
    } else if k == 9 {
        "cp:lastPrinted"@
    } else if k == 10 {
        "dcterms:modified"@
    } else if k == 11 {
        "cp:revision"@
    } else if k == 12 {
        "dc:subject"@
    } else if k == 13 {
        "dc:title"@
    } else {
        "cp:version"@
    }
}

/// What the opening tag of the `k`-th property carries besides its name:
/// the two dates state their format.
pub open spec fn property_tag_attributes(k: int) -> Seq<char> {
    if k == 2 || k == 10 {
        " xsi:type=\"dcterms:W3CDTF\""@
    } else {
        Seq::empty()
    }
}

fn property_name(k: usize) -> (r: &'static str)
    requires
        k < 15,
    ensures
        r@ == property_tag(k as int),
{
    if k == 0 {
        "cp:category"
    } else if k == 1 {
        "cp:contentStatus"
    } else if k == 2 {
        "dcterms:created"
    } else if k == 3 {
        "dc:creator"
    } else if k == 4 {
        "dc:description"
    } else if k == 5 {
        "dc:identifier"
    } else if k == 6 {
        "cp:keywords"
    } else if k == 7 {
        "dc:language"
    } else if k == 8 {
        "cp:lastModifiedBy"
    } else if k == 9 {
        "cp:lastPrinted"
    } else if k == 10 {
        "dcterms:modified"
    } else if k == 11 {
        "cp:revision"
    } else if k == 12 {
        "dc:subject"
    } else if k == 13 {
        "dc:title"
    } else {
        "cp:version"
    }
}

/// The first property at or after `k` whose tag is `name`.
pub open spec fn property_index_from(name: Seq<u8>, k: int) -> Option<int>
    decreases property_count() - k,
{
    if k < 0 || k >= property_count() {
        None
    } else if name == encode_utf8(property_tag(k)) {
        Some(k)
    } else {
        property_index_from(name, k + 1)
    }
}

/// The property whose tag is `name`.
pub open spec fn property_index(name: Seq<u8>) -> Option<int> {
    property_index_from(name, 0)
}

fn find_property(name: &Vec<u8>) -> (r: Option<usize>)
    ensures
        match r {
            Some(k) => property_index(name@) == Some(k as int) && k < 15,
            None => property_index(name@) is None,
        },
{
    let mut k: usize = 0;
    while k < 15
        invariant
            k <= 15,
            property_index(name@) == property_index_from(name@, k as int),
        decreases 15 - k,
    {
        if name_is(name, property_name(k)) {
            return Some(k);
        }
        k += 1;
    }
    None
}

/// The properties between the opening tag of the element and its closing
/// tag, from `pos` on, set in `acc`; with the position behind the closing
/// tag. A self-closing tag of a property sets nothing and reads nothing
/// further. The opening tag of a property sets the property if a text or
/// a reference follows it at once: to the text that the pieces behind the
/// tag stand for. The pieces and the closing tag of the property are
/// passed over. An opening tag that is no property's is an error that
/// names the element.
pub open spec fn properties_children(
    events: Seq<XmlEvent>,
    pos: int,
    acc: Seq<Option<Seq<char>>>,
) -> Result<(Seq<Option<Seq<char>>>, int), SdkErrorView>
    decreases events.len() - pos,
{
    if pos < 0 || pos >= events.len() {
        Err(SdkErrorView::UnknownError)
    } else {
        match events[pos] {
            XmlEvent::Empty(t) => match property_index(t.name@) {
                None => Err(SdkErrorView::CommonError("coreProperties"@)),
                Some(k) => properties_children(events, pos + 1, acc),
            },
            XmlEvent::Start(t) => match property_index(t.name@) {
                None => Err(SdkErrorView::CommonError("coreProperties"@)),
                Some(k) => match property_content(events, pos + 1) {
                    None => properties_children(events, pos + 1, acc),
                    Some(Err(e)) => Err(e),
                    Some(Ok(v)) => properties_children(events, pos + 1, acc.update(k, Some(v))),
                },
            },
            XmlEvent::End(name) => if tag_matches(
                name@,
                encode_utf8(CoreProperties::prefixed_name()),
                encode_utf8(CoreProperties::name()),
            ) {
                Ok((acc, pos + 1))
            } else {
                properties_children(events, pos + 1, acc)
            },
            XmlEvent::Eof => Err(SdkErrorView::UnknownError),
            XmlEvent::Failure(m) => Err(failure_error(m)),
            _ => properties_children(events, pos + 1, acc),
        }
    }
}

/// The content of a property whose opening tag stands before `pos`: what
/// the pieces of text from `pos` on stand for, if the event there is
/// one.
pub open spec fn property_content(events: Seq<XmlEvent>, pos: int) -> Option<
    Result<Seq<char>, SdkErrorView>,
> {
    if 0 <= pos < events.len() && is_piece(events[pos]) {
        Some(content_run(events, pos))
    } else {
        None
    }
}

fn read_property_content(events: &Vec<XmlEvent>, pos: usize) -> (r: Option<Result<String, SdkError>>)
    ensures
        match r {
            None => property_content(events@, pos as int) is None,
            Some(Ok(v)) => property_content(events@, pos as int) == Some(
                Ok::<Seq<char>, SdkErrorView>(v@),
            ),
            Some(Err(e)) => property_content(events@, pos as int) == Some(
                Err::<Seq<char>, SdkErrorView>(e@),
            ),
        },
{
    if pos < events.len() {
        match &events[pos] {
            XmlEvent::Text(_) => Some(read_content_run(events, pos)),
            XmlEvent::Reference(_) => Some(read_content_run(events, pos)),
            _ => None,
        }
    } else {
        None
    }
}

pub open spec fn options_view(values: Seq<Option<String>>) -> Seq<Option<Seq<char>>> {
    values.map_values(|v: Option<String>| opt_text(v))
}

/// No property is set.
pub open spec fn no_properties() -> Seq<Option<Seq<char>>> {
    Seq::new(15, |k: int| None)
}

/// The text of one property that is set.
pub open spec fn property_text(k: int, value: Seq<char>) -> Seq<char> {
    seq!['<'] + property_tag(k) + property_tag_attributes(k) + seq!['>'] + xml_escaped(value)
        + tag_end(property_tag(k))
}

/// The text of the first `n` properties: those that are set, in order.
pub open spec fn properties_text(properties: Seq<Option<Seq<char>>>, n: int) -> Seq<char>
    decreases n,
{
    if n <= 0 {
        Seq::empty()
    } else {
        properties_text(properties, n - 1) + match properties[n - 1] {
            Some(v) => property_text(n - 1, v),
            None => Seq::empty(),
        }
    }
}

fn take_last(values: &mut Vec<Option<String>>) -> (r: Option<String>)
    requires
        old(values)@.len() > 0,
    ensures
        r == old(values)@.last(),
        final(values)@ == old(values)@.drop_last(),
{
    match values.pop() {
        Some(v) => v,
        None => None,
    }
}

fn unset_properties() -> (values: Vec<Option<String>>)
    ensures
        values@.len() == 15,
        options_view(values@) == no_properties(),
{
    let mut values: Vec<Option<String>> = Vec::new();
    let mut n: usize = 0;
    while n < 15
        invariant
            n <= 15,
            values@.len() == n,
            forall|j: int| 0 <= j < n ==> values@[j] is None,
        decreases 15 - n,
    {
        values.push(None);
        n += 1;
    }
    assert(options_view(values@) =~= no_properties());
    values
}

#[verifier::loop_isolation(false)]
fn read_properties(events: &Vec<XmlEvent>, start: usize) -> (r: Result<
    (Vec<Option<String>>, usize),
    SdkError,
>)
    requires
        start <= events@.len(),
    ensures
        match r {
            Ok((values, end)) => properties_children(events@, start as int, no_properties())
                == Ok::<(Seq<Option<Seq<char>>>, int), SdkErrorView>(
                (options_view(values@), end as int),
            ) && start <= end <= events@.len() && values@.len() == 15,
            Err(e) => properties_children(events@, start as int, no_properties()) == Err::<
                (Seq<Option<Seq<char>>>, int),
                SdkErrorView,
            >(e@),
        },
{
    let mut values = unset_properties();
    let mut i: usize = start;
    let mut done = false;
    while !done
        invariant
            start <= i <= events@.len(),
            values@.len() == 15,
            if done {
                properties_children(events@, start as int, no_properties()) == Ok::<
                    (Seq<Option<Seq<char>>>, int),
                    SdkErrorView,
                >((options_view(values@), i as int))
            } else {
                properties_children(events@, start as int, no_properties())
                    == properties_children(events@, i as int, options_view(values@))
            },
        decreases
                events@.len() - i + if done {
                    0int
                } else {
                    1int
                },
    {
        if i >= events.len() {
            return Err(SdkError::UnknownError);
        }
        let ghost acc = options_view(values@);
        match &events[i] {
            XmlEvent::Empty(t) => {
                if find_property(&t.name).is_none() {
                    return Err(common_error("coreProperties"));
                }
            },
            XmlEvent::Start(t) => {
                match find_property(&t.name) {
                    None => {
                        return Err(common_error("coreProperties"));
                    },
                    Some(k) => match read_property_content(events, i + 1) {
                        None => {},
                        Some(Err(e)) => {
                            return Err(e);
                        },
                        Some(Ok(v)) => {
                            values.set(k, Some(v));
                            assert(options_view(values@) =~= acc.update(k as int, Some(v@)));
                        },
                    },
                }
            },
            XmlEvent::End(name) => {
                if matches_tag(
                    name.as_slice(),
                    "cp:coreProperties".as_bytes(),
                    "coreProperties".as_bytes(),
                ) {
                    done = true;
                }
            },
            XmlEvent::Eof => {
                return Err(SdkError::UnknownError);
            },
            XmlEvent::Failure(m) => {
                return Err(SdkError::QuickXmlError(m.clone()));
            },
            _ => {},
        }
        i += 1;
    }
    Ok((values, i))
}

fn build_properties(ns: crate::xmlns::XmlnsFields, values: Vec<Option<String>>) -> (r:
    CoreProperties)
    requires
        values@.len() == 15,
    ensures
        r@ == (CorePropertiesView { xmlns: ns@, properties: options_view(values@) }),
{
    let mut values = values;
    let ghost ps = options_view(values@);
    let version = take_last(&mut values);
    let title = take_last(&mut values);
    let subject = take_last(&mut values);
    let revision = take_last(&mut values);
    let modified = take_last(&mut values);
    let last_printed = take_last(&mut values);
    let last_modified_by = take_last(&mut values);
    let language = take_last(&mut values);
    let keywords = take_last(&mut values);
    let identifier = take_last(&mut values);
    let description = take_last(&mut values);
    let creator = take_last(&mut values);
    let created = take_last(&mut values);
    let content_status = take_last(&mut values);
    let category = take_last(&mut values);
    let r = CoreProperties {
        xmlns: ns.xmlns,
        xmlns_map: ns.xmlns_map,
        mc_ignorable: ns.mc_ignorable,
        category,
        content_status,
        created,
        creator,
        description,
        identifier,
        keywords,
        language,
        last_modified_by,
        last_printed,
        modified,
        revision,
        subject,
        title,
        version,
    };
    assert(r@.properties =~= ps);
    r
}

impl CoreProperties {
    fn property(&self, k: usize) -> (r: &Option<String>)
        requires
            k < 15,
        ensures
            opt_text(*r) == self@.properties[k as int],
    {
        if k == 0 {
            &self.category
        } else if k == 1 {
            &self.content_status
        } else if k == 2 {
            &self.created
        } else if k == 3 {
            &self.creator
        } else if k == 4 {
            &self.description
        } else if k == 5 {
            &self.identifier
        } else if k == 6 {
            &self.keywords
        } else if k == 7 {
            &self.language
        } else if k == 8 {
            &self.last_modified_by
        } else if k == 9 {
            &self.last_printed
        } else if k == 10 {
            &self.modified
        } else if k == 11 {
            &self.revision
        } else if k == 12 {
            &self.subject
        } else if k == 13 {
            &self.title
        } else {
            &self.version
        }
    }

    /// The text of the core properties.
    pub open spec fn text(v: CorePropertiesView, header: bool, with_xmlns: bool) -> Seq<char> {
        element_text(
            header,
            if with_xmlns {
                Self::prefixed_name()
            } else {
                Self::name()
            },
            Some(xmlns_text(v.xmlns, with_xmlns)),
            Some(properties_text(v.properties, property_count())),
        )
    }
}

impl Deserializeable for CoreProperties {
    /// The core properties read from the events of a document: the opening
    /// tag, its namespace declarations (a repeated key is an error), and,
    /// unless the tag closes itself, the properties up to the closing tag.
    open spec fn parsed(events: Seq<XmlEvent>, pos: int, peeked: Option<(StartTag, bool)>)
        -> Result<(CorePropertiesView, int), SdkErrorView> {
        match expected_start(
            events,
            pos,
            peeked,
            encode_utf8(Self::prefixed_name()),
            encode_utf8(Self::name()),
        ) {
            Err(e) => Err(e),
            Ok((tag, empty, next)) => match xmlns_attributes(tag.checked_attributes@) {
                Err(e) => Err(e),
                Ok(ns) => if empty {
                    Ok((CorePropertiesView { xmlns: ns, properties: no_properties() }, next))
                } else {
                    match properties_children(events, next, no_properties()) {
                        Err(e) => Err(e),
                        Ok((ps, end)) => Ok(
                            (CorePropertiesView { xmlns: ns, properties: ps }, end),
                        ),
                    }
                },
            },
        }
    }

    fn deserialize_inner(
        events: &Vec<XmlEvent>,
        pos: usize,
        xml_event: Option<(&StartTag, bool)>,
    ) -> (r: Result<(CoreProperties, usize), SdkError>) {
        let (tag, empty, next) = match expect_event_start(
            events,
            pos,
            xml_event,
            "cp:coreProperties".as_bytes(),
            "coreProperties".as_bytes(),
        ) {
            Ok(v) => v,
            Err(e) => {
                return Err(e);
            },
        };
        let ns = match read_xmlns_attributes(&tag.checked_attributes) {
            Ok(v) => v,
            Err(e) => {
                return Err(e);
            },
        };
        if empty {
            let values = unset_properties();
            Ok((build_properties(ns, values), next))
        } else {
            match read_properties(events, next) {
                Ok((values, end)) => Ok((build_properties(ns, values), end)),
                Err(e) => Err(e),
            }
        }
    }
}

impl Serializeable for CoreProperties {
    open spec fn prefixed_name() -> Seq<char> {
        "cp:coreProperties"@
    }

    open spec fn name() -> Seq<char> {
        "coreProperties"@
    }

    open spec fn tag_attributes_text(&self, with_xmlns: bool) -> Option<Seq<char>> {
        Some(xmlns_text(self@.xmlns, with_xmlns))
    }

    open spec fn inner_text(&self, with_xmlns: bool) -> Option<Seq<char>> {
        Some(properties_text(self@.properties, property_count()))
    }

    fn tag_of(with_xmlns: bool) -> (r: &'static str) {
        if with_xmlns {
            "cp:coreProperties"
        } else {
            "coreProperties"
        }
    }

    fn xml_tag_attributes(&self, with_xmlns: bool) -> (r: Option<String>) {
        Some(write_xmlns_attributes(&self.xmlns, &self.xmlns_map, &self.mc_ignorable, with_xmlns))
    }

    fn xml_inner(&self, with_xmlns: bool) -> (r: Option<String>) {
        let mut xml = String::new();
        let mut k: usize = 0;
        while k < 15
            invariant
                k <= 15,
                xml@ == properties_text(self@.properties, k as int),
            decreases 15 - k,
        {
            let ghost before = xml@;
            match self.property(k) {
                Some(v) => {
                    xml.push('<');
                    xml.append(property_name(k));
                    if k == 2 || k == 10 {
                        xml.append(" xsi:type=\"dcterms:W3CDTF\"");
                    }
                    xml.push('>');
                    let escaped = escape(v.as_str());
                    xml.append(escaped.as_str());
                    let end = xml_tag_end(property_name(k));
                    xml.append(end.as_str());
                    assert(xml@ =~= before + property_text(k as int, v@));
                },
                None => {
                    assert(before + Seq::<char>::empty() =~= before);
                },
            }
            k += 1;
        }
        Some(xml)
    }
}

} // verus!
