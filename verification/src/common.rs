//! What every document type shares: the error, the events of a parsed
//! text, the opening-tag check, and the pieces of emitted XML.

use crate::text::bytes_eq;
use quick_xml::events::Event;
use vstd::prelude::*;
use vstd::string::{StrSliceExecFns, StringExecFns};
use vstd::utf8::{decode_utf8, encode_utf8, valid_utf8};

verus! {

/// What can go wrong while a document or a package is read or written.
#[derive(Debug)]
pub enum SdkError {
    /// The tokenizer refused the text.
    QuickXmlError(String),
    /// A text of the document is not valid in its encoding.
    QuickEncodingError(String),
    /// An attribute of a tag is malformed.
    AttrError(String),
    /// A number of the document is not an integer.
    ParseIntError(String),
    /// A number of the document is not a decimal number.
    ParseFloatError(String),
    StdFmtError,
    StdIoError(String),
    ZipError(String),
    /// A tag other than the expected one was found.
    MismatchError { expected: String, found: String },
    /// A value, a field or a child is missing or not recognised; the text
    /// names it.
    CommonError(String),
    /// The text ended before the element did.
    UnknownError,
}

/// The mathematical value of an [`SdkError`].
pub enum SdkErrorView {
    QuickXmlError(Seq<char>),
    QuickEncodingError(Seq<char>),
    AttrError(Seq<char>),
    ParseIntError(Seq<char>),
    ParseFloatError(Seq<char>),
    StdFmtError,
    StdIoError(Seq<char>),
    ZipError(Seq<char>),
    MismatchError { expected: Seq<char>, found: Seq<char> },
    CommonError(Seq<char>),
    UnknownError,
}

impl View for SdkError {
    type V = SdkErrorView;

    open spec fn view(&self) -> SdkErrorView {
        match self {
            SdkError::QuickXmlError(m) => SdkErrorView::QuickXmlError(m@),
            SdkError::QuickEncodingError(m) => SdkErrorView::QuickEncodingError(m@),
            SdkError::AttrError(m) => SdkErrorView::AttrError(m@),
            SdkError::ParseIntError(m) => SdkErrorView::ParseIntError(m@),
            SdkError::ParseFloatError(m) => SdkErrorView::ParseFloatError(m@),
            SdkError::StdFmtError => SdkErrorView::StdFmtError,
            SdkError::StdIoError(m) => SdkErrorView::StdIoError(m@),
            SdkError::ZipError(m) => SdkErrorView::ZipError(m@),
            SdkError::MismatchError { expected, found } => SdkErrorView::MismatchError {
                expected: expected@,
                found: found@,
            },
            SdkError::CommonError(m) => SdkErrorView::CommonError(m@),
            SdkError::UnknownError => SdkErrorView::UnknownError,
        }
    }
}

/// The error that names a missing or unrecognised thing.
pub fn common_error(what: &str) -> (e: SdkError)
    ensures
        e@ == SdkErrorView::CommonError(what@),
{
    SdkError::CommonError(what.to_owned())
}

/// One attribute of an opening tag: its key and raw value as they stand in
/// the text, and the value decoded and unescaped (or why it cannot be).
#[derive(Debug)]
pub struct XmlAttribute {
    pub key: Vec<u8>,
    pub value: Vec<u8>,
    pub unescaped: Result<String, String>,
}

/// An opening tag: its name and its attributes in document order. Each
/// attribute is either read or malformed. `checked_attributes` is the same
/// list as the tokenizer gives it when it also refuses repeated keys.
#[derive(Debug)]
pub struct StartTag {
    pub name: Vec<u8>,
    pub attributes: Vec<Result<XmlAttribute, String>>,
    pub checked_attributes: Vec<Result<XmlAttribute, String>>,
}

/// A text between tags: its raw bytes, and the bytes decoded (or why they
/// cannot be).
#[derive(Debug)]
pub struct XmlText {
    pub raw: Vec<u8>,
    pub decoded: Result<String, String>,
}

/// A reference between tags: its name as it stands between `&` and `;`,
/// and the character that it stands for if it gives the number of one
/// (or why it gives none that there is).
#[derive(Debug)]
pub struct XmlReference {
    pub raw: Vec<u8>,
    pub character: Result<Option<char>, String>,
}

/// One event of a tokenized document.
#[derive(Debug)]
pub enum XmlEvent {
    Start(StartTag),
    Empty(StartTag),
    End(Vec<u8>),
    Text(XmlText),
    /// A reference to a character or to an entity. The tokenizer ends a
    /// text at each reference and hands the reference out by itself.
    Reference(XmlReference),
    /// A comment, a declaration, a processing instruction and the like.
    Other,
    /// The text is at its end.
    Eof,
    /// The tokenizer refused the text from here on.
    Failure(String),
}

#[verifier::external_type_specification]
#[verifier::external_body]
#[verifier::reject_recursive_types(R)]
pub struct ExReader<R>(quick_xml::Reader<R>);

#[verifier::external_type_specification]
#[verifier::external_body]
pub struct ExBytesStart<'a>(quick_xml::events::BytesStart<'a>);

#[verifier::external_type_specification]
#[verifier::external_body]
pub struct ExBytesText<'a>(quick_xml::events::BytesText<'a>);

#[verifier::external_type_specification]
#[verifier::external_body]
pub struct ExBytesRef<'a>(quick_xml::events::BytesRef<'a>);

#[verifier::external_type_specification]
#[verifier::external_body]
pub struct ExDecoder(quick_xml::encoding::Decoder);

/// The events of a text: what the tokenizer hands out for it, one event
/// after the other, up to the end of the text or to the first refusal,
/// which is the last event then.
pub uninterp spec fn xml_events(text: Seq<char>) -> Seq<XmlEvent>;

/// The events that a tokenizer has still to hand out, up to the end of
/// its text or to its first refusal.
pub uninterp spec fn pending_events(reader: quick_xml::Reader<&[u8]>) -> Seq<XmlEvent>;

/// `quick_xml::Reader::from_str`, with the check of closing names switched
/// off. The tokenizer that it makes has the events of the text to hand
/// out.
#[verifier::external_body]
pub(crate) fn reader_from_str<'de>(text: &'de str) -> (reader: quick_xml::Reader<&'de [u8]>)
    ensures
        pending_events(reader) == xml_events(text@),
{
    let mut reader = quick_xml::Reader::from_str(text);
    reader.config_mut().check_end_names = false;
    reader
}

/// The attributes of a tag as `quick_xml`'s `BytesStart::attributes` hands
/// them out, with `Attributes::with_checks` set to `checks`; each value
/// goes through `Attribute::decode_and_unescape_value`. Nothing is claimed
/// of the list.
#[verifier::external_body]
pub(crate) fn attributes_of(
    tag: &quick_xml::events::BytesStart<'_>,
    decoder: quick_xml::encoding::Decoder,
    checks: bool,
) -> Vec<Result<XmlAttribute, String>> {
    let mut attributes = tag.attributes();
    attributes.with_checks(checks);
    attributes.map(|item| {
        let a = item.map_err(|e| format!("{e}"))?;
        let unescaped = a.decode_and_unescape_value(decoder);
        let unescaped = unescaped.map(|v| v.into_owned()).map_err(|e| format!("{e}"));
        Ok(XmlAttribute { key: a.key.0.to_vec(), value: a.value.to_vec(), unescaped })
    }).collect()
}

/// The name of a tag, `quick_xml`'s `BytesStart::name`. Nothing is
/// claimed of the result.
#[verifier::external_body]
pub(crate) fn tag_name(tag: &quick_xml::events::BytesStart<'_>) -> Vec<u8> {
    tag.name().0.to_vec()
}

/// The bytes of a text event, and what `quick_xml`'s `BytesText::decode`
/// makes of them. Nothing is claimed of the result.
#[verifier::external_body]
pub(crate) fn text_of(text: &quick_xml::events::BytesText<'_>) -> XmlText {
    XmlText {
        raw: text.to_vec(),
        decoded: match text.decode() {
            Ok(v) => Ok(v.into_owned()),
            Err(e) => Err(format!("{e}")),
        },
    }
}

/// The name of a reference, and what `quick_xml`'s
/// `BytesRef::resolve_char_ref` makes of it. Nothing is claimed of the
/// result.
#[verifier::external_body]
pub(crate) fn reference_of(r: &quick_xml::events::BytesRef<'_>) -> XmlReference {
    XmlReference {
        raw: r.to_vec(),
        character: match r.resolve_char_ref() {
            Ok(c) => Ok(c),
            Err(e) => Err(format!("{e}")),
        },
    }
}

/// A tag as plain values: its name, and its attributes read once without
/// and once with the refusal of repeated keys.
fn start_tag_of(
    tag: &quick_xml::events::BytesStart<'_>,
    decoder: quick_xml::encoding::Decoder,
) -> StartTag {
    StartTag {
        name: tag_name(tag),
        attributes: attributes_of(tag, decoder, false),
        checked_attributes: attributes_of(tag, decoder, true),
    }
}

/// The next event of a tokenizer, `quick_xml`'s `Reader::read_event`, as
/// plain values: a tag with its name and attributes, a text, a reference,
/// a refusal as the event that carries its message; any other kind of
/// event as [`XmlEvent::Other`]. It is the first of the events that
/// the tokenizer had to hand out. Behind the end of the text and behind
/// a refusal nothing is left; else the events behind the first are.
#[verifier::external_body]
pub(crate) fn next_event(reader: &mut quick_xml::Reader<&[u8]>) -> (r: XmlEvent)
    ensures
        pending_events(*old(reader)).len() > 0,
        r == pending_events(*old(reader))[0],
        is_terminal(r) ==> pending_events(*old(reader)).len() == 1,
        !is_terminal(r) ==> pending_events(*final(reader)) == pending_events(*old(reader)).skip(1),
{
    let decoder = reader.decoder();
    match reader.read_event() {
        Ok(Event::Start(e)) => XmlEvent::Start(start_tag_of(&e, decoder)),
        Ok(Event::Empty(e)) => XmlEvent::Empty(start_tag_of(&e, decoder)),
        Ok(Event::End(e)) => XmlEvent::End(e.name().0.to_vec()),
        Ok(Event::Text(t)) => XmlEvent::Text(text_of(&t)),
        Ok(Event::GeneralRef(r)) => XmlEvent::Reference(reference_of(&r)),
        Ok(Event::Eof) => XmlEvent::Eof,
        Ok(_) => XmlEvent::Other,
        Err(e) => XmlEvent::Failure(format!("{e}")),
    }
}

/// `String::from_utf8_lossy` of the standard library, as an owned string.
/// The result is a function of the bytes alone. Bytes that are UTF-8 give
/// the text that they stand for; what other bytes give is named, not
/// spelled out.
#[verifier::external_body]
pub(crate) fn from_utf8_lossy(bytes: &[u8]) -> (r: String)
    ensures
        r@ == utf8_lossy(bytes@),
        valid_utf8(bytes@) ==> r@ == decode_utf8(bytes@),
{
    String::from_utf8_lossy(bytes).into_owned()
}

/// The text that a byte string stands for, with the replacement character
/// wherever the bytes are not UTF-8.
pub uninterp spec fn utf8_lossy(bytes: Seq<u8>) -> Seq<char>;

/// `String::from_utf8` of the standard library: the text that the bytes
/// stand for, exactly if they are UTF-8, else why they stand for none.
/// The result is a function of the bytes alone; the message of the
/// refusal is named, not spelled out.
#[verifier::external_body]
pub(crate) fn string_from_utf8(bytes: &[u8]) -> (r: Result<String, String>)
    ensures
        match r {
            Ok(s) => utf8_text(bytes@) == Ok::<Seq<char>, Seq<char>>(s@) && valid_utf8(bytes@)
                && s@ == decode_utf8(bytes@),
            Err(m) => utf8_text(bytes@) == Err::<Seq<char>, Seq<char>>(m@) && !valid_utf8(bytes@),
        },
{
    String::from_utf8(bytes.to_vec()).map_err(|e| format!("{e}"))
}

/// The text that bytes stand for in UTF-8, or the message that says why
/// they stand for none.
pub uninterp spec fn utf8_text(bytes: Seq<u8>) -> Result<Seq<char>, Seq<char>>;

/// `quick_xml::escape::escape`: each of the five special characters of XML
/// is replaced by its entity, every other character stays.
#[verifier::external_body]
pub(crate) fn escape(raw: &str) -> (r: String)
    ensures
        r@ == xml_escaped(raw@),
{
    quick_xml::escape::escape(raw).into_owned()
}

/// What one character becomes in escaped text.
pub open spec fn escaped_char(c: char) -> Seq<char> {
    if c == '<' {
        seq!['&', 'l', 't', ';']
    } else if c == '>' {
        seq!['&', 'g', 't', ';']
    } else if c == '&' {
        seq!['&', 'a', 'm', 'p', ';']
    } else if c == '\'' {
        seq!['&', 'a', 'p', 'o', 's', ';']
    } else if c == '"' {
        seq!['&', 'q', 'u', 'o', 't', ';']
    } else {
        seq![c]
    }
}

/// A text with its special characters escaped.
pub open spec fn xml_escaped(s: Seq<char>) -> Seq<char> {
    s.map_values(|c: char| escaped_char(c)).flatten()
}

/// A reader over the events of a text held in memory.
pub struct SliceReader<'de> {
    reader: quick_xml::Reader<&'de [u8]>,
}

impl<'de> SliceReader<'de> {
    /// The tokenizer that the reader takes its events from.
    pub closed spec fn tokenizer(&self) -> quick_xml::Reader<&'de [u8]> {
        self.reader
    }

    /// The events that the reader has still to hand out.
    pub closed spec fn pending(&self) -> Seq<XmlEvent> {
        pending_events(self.reader)
    }

    /// A reader that takes its events from the given tokenizer.
    pub fn new(reader: quick_xml::Reader<&'de [u8]>) -> (r: Self)
        ensures
            r.tokenizer() == reader,
            r.pending() == pending_events(reader),
    {
        Self { reader }
    }
}

/// A source of the events of a document.
pub trait XmlReader {
    /// The next event of the document, as plain values. What the event
    /// is, is the tokenizer's word.
    fn next(&mut self) -> Result<XmlEvent, SdkError>;
}

/// What a reader hands out for an event of the tokenizer: a refusal is
/// the error that carries its message, any other event is handed out as
/// it is.
pub open spec fn handed_out(e: XmlEvent) -> Result<XmlEvent, SdkError> {
    match e {
        XmlEvent::Failure(m) => Err(SdkError::QuickXmlError(m)),
        _ => Ok(e),
    }
}

impl<'de> XmlReader for SliceReader<'de> {
    /// The next event of the text: the first of the events that the
    /// reader had to hand out. Behind the end of the text and behind a
    /// refusal nothing is left; else the events behind the first are.
    fn next(&mut self) -> (r: Result<XmlEvent, SdkError>)
        ensures
            old(self).pending().len() > 0,
            r == handed_out(old(self).pending()[0]),
            is_terminal(old(self).pending()[0]) ==> old(self).pending().len() == 1,
            !is_terminal(old(self).pending()[0]) ==> final(self).pending() == old(self).pending().skip(
                1,
            ),
    {
        match next_event(&mut self.reader) {
            XmlEvent::Failure(m) => Err(SdkError::QuickXmlError(m)),
            e => Ok(e),
        }
    }
}

/// Walks a list from its start: each item changes the state or stops the
/// walk with an error.
pub open spec fn try_fold<A, S, E>(items: Seq<A>, init: S, step: spec_fn(S, A) -> Result<S, E>)
    -> Result<S, E>
    decreases items.len(),
{
    if items.len() == 0 {
        Ok(init)
    } else {
        match try_fold(items.drop_last(), init, step) {
            Ok(s) => step(s, items.last()),
            Err(e) => Err(e),
        }
    }
}

/// A walk that has stopped on a prefix of the list has stopped on the list.
pub proof fn lemma_try_fold_stops<A, S, E>(
    items: Seq<A>,
    k: int,
    init: S,
    step: spec_fn(S, A) -> Result<S, E>,
)
    requires
        0 <= k <= items.len(),
        try_fold(items.take(k), init, step) is Err,
    ensures
        try_fold(items, init, step) == try_fold(items.take(k), init, step),
    decreases items.len() - k,
{
    if k < items.len() {
        assert(items.take(k + 1).drop_last() =~= items.take(k));
        lemma_try_fold_stops(items, k + 1, init, step);
    } else {
        assert(items.take(k) =~= items);
    }
}

/// One more item of a walk that has not stopped.
pub proof fn lemma_try_fold_next<A, S, E>(
    items: Seq<A>,
    k: int,
    init: S,
    step: spec_fn(S, A) -> Result<S, E>,
)
    requires
        0 <= k < items.len(),
        try_fold(items.take(k), init, step) is Ok,
    ensures
        try_fold(items.take(k + 1), init, step) == step(
            try_fold(items.take(k), init, step)->Ok_0,
            items[k],
        ),
{
    assert(items.take(k + 1).drop_last() =~= items.take(k));
}

/// One attribute of a tag that has two text attributes: a malformed
/// attribute stops the reading, the two keys set their values, any other
/// key is passed over.
pub open spec fn pair_step(
    first_key: Seq<u8>,
    second_key: Seq<u8>,
    st: (Option<Seq<char>>, Option<Seq<char>>),
    item: Result<XmlAttribute, String>,
) -> Result<(Option<Seq<char>>, Option<Seq<char>>), SdkErrorView> {
    match item {
        Err(m) => Err(SdkErrorView::AttrError(m@)),
        Ok(a) => if a.key@ == first_key {
            match attribute_value(a) {
                Err(e) => Err(e),
                Ok(v) => Ok((Some(v), st.1)),
            }
        } else if a.key@ == second_key {
            match attribute_value(a) {
                Err(e) => Err(e),
                Ok(v) => Ok((st.0, Some(v))),
            }
        } else {
            Ok(st)
        },
    }
}

pub open spec fn pair_stepper(first_key: Seq<u8>, second_key: Seq<u8>) -> spec_fn(
    (Option<Seq<char>>, Option<Seq<char>>),
    Result<XmlAttribute, String>,
) -> Result<(Option<Seq<char>>, Option<Seq<char>>), SdkErrorView> {
    |st: (Option<Seq<char>>, Option<Seq<char>>), item: Result<XmlAttribute, String>|
        pair_step(first_key, second_key, st, item)
}

/// The values of two text attributes among a list of attributes: for each
/// key the value of its last occurrence.
pub open spec fn text_pair(
    items: Seq<Result<XmlAttribute, String>>,
    first_key: Seq<char>,
    second_key: Seq<char>,
) -> Result<(Option<Seq<char>>, Option<Seq<char>>), SdkErrorView> {
    try_fold(
        items,
        (None, None),
        pair_stepper(encode_utf8(first_key), encode_utf8(second_key)),
    )
}

pub open spec fn opt_text(s: Option<String>) -> Option<Seq<char>> {
    match s {
        Some(x) => Some(x@),
        None => None,
    }
}

/// Reads two text attributes of an opening tag.
pub fn read_text_pair(
    items: &Vec<Result<XmlAttribute, String>>,
    first_key: &str,
    second_key: &str,
) -> (r: Result<(Option<String>, Option<String>), SdkError>)
    ensures
        match r {
            Ok(v) => text_pair(items@, first_key@, second_key@) == Ok::<
                (Option<Seq<char>>, Option<Seq<char>>),
                SdkErrorView,
            >((opt_text(v.0), opt_text(v.1))),
            Err(e) => text_pair(items@, first_key@, second_key@) == Err::<
                (Option<Seq<char>>, Option<Seq<char>>),
                SdkErrorView,
            >(e@),
        },
{
    let mut first: Option<String> = None;
    let mut second: Option<String> = None;
    let ghost stepper = pair_stepper(encode_utf8(first_key@), encode_utf8(second_key@));
    let ghost init: (Option<Seq<char>>, Option<Seq<char>>) = (None, None);
    let mut i: usize = 0;
    assert(items@.take(0) =~= Seq::empty());
    while i < items.len()
        invariant
            i <= items@.len(),
            stepper == pair_stepper(encode_utf8(first_key@), encode_utf8(second_key@)),
            init == (None::<Seq<char>>, None::<Seq<char>>),
            try_fold(items@.take(i as int), init, stepper) == Ok::<
                (Option<Seq<char>>, Option<Seq<char>>),
                SdkErrorView,
            >((opt_text(first), opt_text(second))),
        decreases items@.len() - i,
    {
        proof {
            lemma_try_fold_next(items@, i as int, init, stepper);
        }
        let ghost before = (opt_text(first), opt_text(second));
        let step: Result<(), SdkError> = match &items[i] {
            Err(m) => Err(SdkError::AttrError(m.clone())),
            Ok(a) => {
                if key_is(a, first_key) {
                    match read_attribute_value(a) {
                        Err(e) => Err(e),
                        Ok(v) => {
                            first = Some(v);
                            Ok(())
                        },
                    }
                } else if key_is(a, second_key) {
                    match read_attribute_value(a) {
                        Err(e) => Err(e),
                        Ok(v) => {
                            second = Some(v);
                            Ok(())
                        },
                    }
                } else {
                    Ok(())
                }
            },
        };
        match step {
            Err(e) => {
                proof {
                    assert(pair_step(
                        encode_utf8(first_key@),
                        encode_utf8(second_key@),
                        before,
                        items@[i as int],
                    ) == Err::<(Option<Seq<char>>, Option<Seq<char>>), SdkErrorView>(e@));
                    lemma_try_fold_stops(items@, i + 1, init, stepper);
                }
                return Err(e);
            },
            Ok(_) => {},
        }
        i += 1;
    }
    assert(items@.take(i as int) =~= items@);
    Ok((first, second))
}

/// Whether the key of an attribute is the given text.
pub fn key_is(a: &XmlAttribute, text: &str) -> (r: bool)
    ensures
        r == (a.key@ == encode_utf8(text@)),
{
    bytes_eq(a.key.as_slice(), text.as_bytes())
}

/// Whether a name found in a document is the given text.
pub fn name_is(name: &Vec<u8>, text: &str) -> (r: bool)
    ensures
        r == (name@ == encode_utf8(text@)),
{
    bytes_eq(name.as_slice(), text.as_bytes())
}

/// Whether an event ends a list of events: the end of the text or a refusal.
pub open spec fn is_terminal(e: XmlEvent) -> bool {
    e is Eof || e is Failure
}

/// A list of events as [`tokenize`] makes it: it ends with the first
/// terminal event.
pub open spec fn is_event_list(events: Seq<XmlEvent>) -> bool {
    &&& events.len() > 0
    &&& is_terminal(events.last())
    &&& forall|i: int| 0 <= i < events.len() - 1 ==> !is_terminal(#[trigger] events[i])
}

/// The events that a reader hands out, up to the end of the document or
/// to the place where the reader refuses it, and at most `budget` events
/// before that: where the reader has more, the list ends with a refusal.
pub fn read_events<R: XmlReader>(reader: &mut R, budget: usize) -> (events: Vec<XmlEvent>)
    ensures
        is_event_list(events@),
        events@.len() <= budget + 1,
{
    let mut events: Vec<XmlEvent> = Vec::new();
    let mut left: usize = budget;
    loop
        invariant_except_break
            left <= budget,
            events@.len() == budget - left,
            forall|i: int| 0 <= i < events@.len() ==> !is_terminal(#[trigger] events@[i]),
        ensures
            is_event_list(events@),
            events@.len() <= budget + 1,
        decreases left,
    {
        let event = match reader.next() {
            Ok(XmlEvent::Failure(m)) => XmlEvent::Failure(m),
            Ok(e) => e,
            Err(SdkError::QuickXmlError(m)) => XmlEvent::Failure(m),
            Err(_) => XmlEvent::Failure(String::new()),
        };
        let done = match &event {
            XmlEvent::Eof => true,
            XmlEvent::Failure(_) => true,
            _ => false,
        };
        if done {
            events.push(event);
            break ;
        }
        if left == 0 {
            events.push(XmlEvent::Failure(String::new()));
            break ;
        }
        events.push(event);
        left -= 1;
    }
    events
}

/// The events of a text, up to its end or to the place where the tokenizer
/// refuses it.
pub fn tokenize(text: &str) -> (events: Vec<XmlEvent>)
    ensures
        events@ == xml_events(text@),
        is_event_list(events@),
{
    let mut reader = SliceReader::new(reader_from_str(text));
    let mut events: Vec<XmlEvent> = Vec::new();
    loop
        invariant_except_break
            xml_events(text@) == events@ + reader.pending(),
            forall|i: int| 0 <= i < events@.len() ==> !is_terminal(#[trigger] events@[i]),
        ensures
            events@ == xml_events(text@),
            is_event_list(events@),
        decreases reader.pending().len(),
    {
        let ghost before = events@;
        let ghost left = reader.pending();
        let event = match reader.next() {
            Ok(e) => e,
            Err(SdkError::QuickXmlError(m)) => XmlEvent::Failure(m),
            Err(_) => XmlEvent::Failure(String::new()),
        };
        assert(event == left[0]);
        let done = match &event {
            XmlEvent::Eof => true,
            XmlEvent::Failure(_) => true,
            _ => false,
        };
        events.push(event);
        if done {
            assert(before + left =~= events@);
            break ;
        }
        assert(before + left =~= events@ + left.skip(1));
    }
    events
}

/// The tag of an event that opens an element.
pub open spec fn opening_tag(e: XmlEvent) -> Option<StartTag> {
    match e {
        XmlEvent::Start(t) => Some(t),
        XmlEvent::Empty(t) => Some(t),
        _ => None,
    }
}

/// The error that a refused text gives.
pub open spec fn failure_error(message: String) -> SdkErrorView {
    SdkErrorView::QuickXmlError(message@)
}

/// The value of an attribute, decoded and unescaped.
pub open spec fn attribute_value(a: XmlAttribute) -> Result<Seq<char>, SdkErrorView> {
    match a.unescaped {
        Ok(v) => Ok(v@),
        Err(m) => Err(SdkErrorView::QuickXmlError(m@)),
    }
}

/// The content of a text event, decoded.
pub open spec fn text_value(t: XmlText) -> Result<Seq<char>, SdkErrorView> {
    match t.decoded {
        Ok(v) => Ok(v@),
        Err(m) => Err(SdkErrorView::QuickEncodingError(m@)),
    }
}

/// The text that a reference stands for: the character whose number it
/// gives, or the character that one of the five names of XML stands
/// for. A number that is no character's is an error that carries the
/// tokenizer's message; any other name is an error that carries the name.
pub open spec fn reference_text(r: XmlReference) -> Result<Seq<char>, SdkErrorView> {
    match r.character {
        Err(m) => Err(SdkErrorView::QuickXmlError(m@)),
        Ok(Some(c)) => Ok(seq![c]),
        Ok(None) => if r.raw@ == encode_utf8("lt"@) {
            Ok(seq!['<'])
        } else if r.raw@ == encode_utf8("gt"@) {
            Ok(seq!['>'])
        } else if r.raw@ == encode_utf8("amp"@) {
            Ok(seq!['&'])
        } else if r.raw@ == encode_utf8("apos"@) {
            Ok(seq!['\''])
        } else if r.raw@ == encode_utf8("quot"@) {
            Ok(seq!['"'])
        } else {
            Err(SdkErrorView::CommonError(utf8_lossy(r.raw@)))
        },
    }
}

/// Reads the text that a reference stands for.
pub fn read_reference_text(r: &XmlReference) -> (res: Result<String, SdkError>)
    ensures
        match res {
            Ok(v) => reference_text(*r) == Ok::<Seq<char>, SdkErrorView>(v@),
            Err(e) => reference_text(*r) == Err::<Seq<char>, SdkErrorView>(e@),
        },
{
    let mut text = String::new();
    match &r.character {
        Err(m) => {
            return Err(SdkError::QuickXmlError(m.clone()));
        },
        Ok(Some(c)) => {
            text.push(*c);
        },
        Ok(None) => {
            if name_is(&r.raw, "lt") {
                text.push('<');
            } else if name_is(&r.raw, "gt") {
                text.push('>');
            } else if name_is(&r.raw, "amp") {
                text.push('&');
            } else if name_is(&r.raw, "apos") {
                text.push('\'');
            } else if name_is(&r.raw, "quot") {
                text.push('"');
            } else {
                return Err(SdkError::CommonError(from_utf8_lossy(r.raw.as_slice())));
            }
        },
    }
    assert(text@ =~= seq![text@[0]]);
    Ok(text)
}

/// Whether an event is a piece of the text between tags: a text or a
/// reference.
pub open spec fn is_piece(e: XmlEvent) -> bool {
    e is Text || e is Reference
}

/// The text that a piece stands for: a text decoded, a reference
/// resolved.
pub open spec fn piece_text(e: XmlEvent) -> Result<Seq<char>, SdkErrorView> {
    match e {
        XmlEvent::Text(t) => text_value(t),
        XmlEvent::Reference(r) => reference_text(r),
        _ => Ok(Seq::empty()),
    }
}

/// The text that the pieces from `pos` on stand for, up to the first
/// event that is no piece, one after the other; the first piece that
/// stands for none gives the error.
pub open spec fn content_run(events: Seq<XmlEvent>, pos: int) -> Result<Seq<char>, SdkErrorView>
    decreases events.len() - pos,
{
    if 0 <= pos < events.len() && is_piece(events[pos]) {
        match piece_text(events[pos]) {
            Err(e) => Err(e),
            Ok(head) => match content_run(events, pos + 1) {
                Err(e) => Err(e),
                Ok(rest) => Ok(head + rest),
            },
        }
    } else {
        Ok(Seq::empty())
    }
}

/// A text before the text of a run of pieces.
pub open spec fn after(head: Seq<char>, run: Result<Seq<char>, SdkErrorView>) -> Result<
    Seq<char>,
    SdkErrorView,
> {
    match run {
        Ok(rest) => Ok(head + rest),
        Err(e) => Err(e),
    }
}

/// Reads the text that the pieces from `pos` on stand for.
pub fn read_content_run(events: &Vec<XmlEvent>, pos: usize) -> (r: Result<String, SdkError>)
    ensures
        match r {
            Ok(v) => content_run(events@, pos as int) == Ok::<Seq<char>, SdkErrorView>(v@),
            Err(e) => content_run(events@, pos as int) == Err::<Seq<char>, SdkErrorView>(e@),
        },
{
    let mut text = String::new();
    if pos >= events.len() {
        return Ok(text);
    }
    let mut i: usize = pos;
    assert(text@ + content_run(events@, pos as int)->Ok_0 =~= content_run(events@, pos as int)->Ok_0);
    while i < events.len()
        invariant
            pos <= i <= events@.len(),
            content_run(events@, pos as int) == after(text@, content_run(events@, i as int)),
        decreases events@.len() - i,
    {
        let piece = match &events[i] {
            XmlEvent::Text(t) => read_text_value(t),
            XmlEvent::Reference(r) => read_reference_text(r),
            _ => {
                assert(text@ + Seq::<char>::empty() =~= text@);
                return Ok(text);
            },
        };
        match piece {
            Err(e) => {
                return Err(e);
            },
            Ok(head) => {
                proof {
                    match content_run(events@, i + 1) {
                        Ok(rest) => {
                            assert(text@ + (head@ + rest) =~= (text@ + head@) + rest);
                        },
                        Err(_) => {},
                    }
                }
                text.append(head.as_str());
            },
        }
        i += 1;
    }
    assert(text@ + Seq::<char>::empty() =~= text@);
    Ok(text)
}

/// Reads the value of an attribute.
pub fn read_attribute_value(a: &XmlAttribute) -> (r: Result<String, SdkError>)
    ensures
        match r {
            Ok(v) => attribute_value(*a) == Ok::<Seq<char>, SdkErrorView>(v@),
            Err(e) => attribute_value(*a) == Err::<Seq<char>, SdkErrorView>(e@),
        },
{
    match &a.unescaped {
        Ok(v) => Ok(v.clone()),
        Err(m) => Err(SdkError::QuickXmlError(m.clone())),
    }
}

/// Reads the content of a text event.
pub fn read_text_value(t: &XmlText) -> (r: Result<String, SdkError>)
    ensures
        match r {
            Ok(v) => text_value(*t) == Ok::<Seq<char>, SdkErrorView>(v@),
            Err(e) => text_value(*t) == Err::<Seq<char>, SdkErrorView>(e@),
        },
{
    match &t.decoded {
        Ok(v) => Ok(v.clone()),
        Err(m) => Err(SdkError::QuickEncodingError(m.clone())),
    }
}

/// Whether a tag found in a document is the expected one: documents do not
/// use prefixes consistently, so the name with its namespace prefix and the
/// bare local name both match.
pub open spec fn tag_matches(found: Seq<u8>, tag_prefixed: Seq<u8>, tag: Seq<u8>) -> bool {
    found == tag_prefixed || found == tag
}

pub fn matches_tag(found: &[u8], tag_prefixed: &[u8], tag: &[u8]) -> (r: bool)
    ensures
        r == tag_matches(found@, tag_prefixed@, tag@),
{
    bytes_eq(found, tag_prefixed) || bytes_eq(found, tag)
}

/// The first opening tag at or after `pos`, whether it is self-closing,
/// and the position behind it. Events that open nothing are passed over;
/// the end of the text before any opening tag is an error.
pub open spec fn next_start(events: Seq<XmlEvent>, pos: int) -> Result<
    (StartTag, bool, int),
    SdkErrorView,
>
    decreases events.len() - pos,
{
    if pos < 0 || pos >= events.len() {
        Err(SdkErrorView::UnknownError)
    } else {
        match events[pos] {
            XmlEvent::Start(t) => Ok((t, false, pos + 1)),
            XmlEvent::Empty(t) => Ok((t, true, pos + 1)),
            XmlEvent::Eof => Err(SdkErrorView::UnknownError),
            XmlEvent::Failure(m) => Err(failure_error(m)),
            _ => next_start(events, pos + 1),
        }
    }
}

/// The error for a tag that is not the expected one: it carries both
/// expected forms and the form that was found.
pub open spec fn mismatch(found: Seq<u8>, tag_prefixed: Seq<u8>, tag: Seq<u8>) -> SdkErrorView {
    SdkErrorView::MismatchError {
        expected: utf8_lossy(tag_prefixed) + seq![' ', 'O', 'R', ' '] + utf8_lossy(tag),
        found: utf8_lossy(found),
    }
}

/// The opening tag that an element starts with. A tag that the caller has
/// already read is taken as it is; otherwise the next opening tag of the
/// events is read and must be the expected one.
pub open spec fn expected_start(
    events: Seq<XmlEvent>,
    pos: int,
    peeked: Option<(StartTag, bool)>,
    tag_prefixed: Seq<u8>,
    tag: Seq<u8>,
) -> Result<(StartTag, bool, int), SdkErrorView> {
    match peeked {
        Some((t, empty)) => Ok((t, empty, pos)),
        None => match next_start(events, pos) {
            Ok((t, empty, next)) => if tag_matches(t.name@, tag_prefixed, tag) {
                Ok((t, empty, next))
            } else {
                Err(mismatch(t.name@, tag_prefixed, tag))
            },
            Err(e) => Err(e),
        },
    }
}

/// An opening tag at the head of the events is taken as the tag of an
/// element exactly if its name is the name of the element with its
/// namespace prefix or the bare local name; any other name is refused.
pub proof fn lemma_tag_dual_matching(
    events: Seq<XmlEvent>,
    pos: int,
    tag_prefixed: Seq<u8>,
    tag: Seq<u8>,
)
    requires
        0 <= pos < events.len(),
        opening_tag(events[pos]) is Some,
    ensures
        ({
            let found = opening_tag(events[pos])->Some_0.name@;
            &&& (found == tag_prefixed || found == tag) ==> expected_start(
                events,
                pos,
                None,
                tag_prefixed,
                tag,
            ) is Ok
            &&& !(found == tag_prefixed || found == tag) ==> expected_start(
                events,
                pos,
                None,
                tag_prefixed,
                tag,
            ) == Err::<(StartTag, bool, int), SdkErrorView>(mismatch(found, tag_prefixed, tag))
        }),
{
}

/// Whether a result, if it is the error for a tag that is not the
/// expected one, names both expected forms as they are written, where
/// they are UTF-8: the form with the prefix, ` OR `, and the bare form.
pub open spec fn names_both_forms(
    r: Result<(&StartTag, bool, usize), SdkError>,
    tag_prefixed: Seq<u8>,
    tag: Seq<u8>,
) -> bool {
    match r {
        Err(SdkError::MismatchError { expected, found }) => valid_utf8(tag_prefixed) && valid_utf8(
            tag,
        ) ==> expected@ == decode_utf8(tag_prefixed) + seq![' ', 'O', 'R', ' '] + decode_utf8(tag),
        _ => true,
    }
}

pub fn expect_event_start<'a>(
    events: &'a Vec<XmlEvent>,
    pos: usize,
    xml_event: Option<(&'a StartTag, bool)>,
    tag_prefixed: &[u8],
    tag: &[u8],
) -> (r: Result<(&'a StartTag, bool, usize), SdkError>)
    requires
        pos <= events@.len(),
    ensures
        match r {
            Ok((t, empty, next)) => {
                &&& expected_start(
                    events@,
                    pos as int,
                    match xml_event {
                        Some((t0, e0)) => Some((*t0, e0)),
                        None => None,
                    },
                    tag_prefixed@,
                    tag@,
                ) == Ok::<(StartTag, bool, int), SdkErrorView>((*t, empty, next as int))
                &&& pos <= next <= events@.len()
                &&& xml_event is None ==> pos < next
            },
            Err(e) => expected_start(
                events@,
                pos as int,
                match xml_event {
                    Some((t0, e0)) => Some((*t0, e0)),
                    None => None,
                },
                tag_prefixed@,
                tag@,
            ) == Err::<(StartTag, bool, int), SdkErrorView>(e@),
        },
        names_both_forms(r, tag_prefixed@, tag@),
{
    if let Some((t, empty)) = xml_event {
        return Ok((t, empty, pos));
    }
    let mut i: usize = pos;
    while i < events.len()
        invariant
            pos <= i <= events@.len(),
            xml_event is None,
            next_start(events@, pos as int) == next_start(events@, i as int),
        decreases events@.len() - i,
    {
        match &events[i] {
            XmlEvent::Start(t) => {
                return check_start(t, false, i + 1, tag_prefixed, tag);
            },
            XmlEvent::Empty(t) => {
                return check_start(t, true, i + 1, tag_prefixed, tag);
            },
            XmlEvent::Eof => {
                return Err(SdkError::UnknownError);
            },
            XmlEvent::Failure(m) => {
                return Err(SdkError::QuickXmlError(m.clone()));
            },
            _ => {},
        }
        i += 1;
    }
    Err(SdkError::UnknownError)
}

fn check_start<'a>(
    t: &'a StartTag,
    empty: bool,
    next: usize,
    tag_prefixed: &[u8],
    tag: &[u8],
) -> (r: Result<(&'a StartTag, bool, usize), SdkError>)
    ensures
        match r {
            Ok(v) => tag_matches(t.name@, tag_prefixed@, tag@) && v == (t, empty, next),
            Err(e) => !tag_matches(t.name@, tag_prefixed@, tag@) && e@ == mismatch(
                t.name@,
                tag_prefixed@,
                tag@,
            ),
        },
        names_both_forms(r, tag_prefixed@, tag@),
        match r {
            Err(SdkError::MismatchError { expected, found }) => valid_utf8(t.name@) ==> found@
                == decode_utf8(t.name@),
            _ => true,
        },
{
    if matches_tag(t.name.as_slice(), tag_prefixed, tag) {
        Ok((t, empty, next))
    } else {
        let mut expected = from_utf8_lossy(tag_prefixed);
        expected.push(' ');
        expected.push('O');
        expected.push('R');
        expected.push(' ');
        let second = from_utf8_lossy(tag);
        expected.append(second.as_str());
        assert(expected@ =~= utf8_lossy(tag_prefixed@) + seq![' ', 'O', 'R', ' '] + utf8_lossy(
            tag@,
        ));
        Err(SdkError::MismatchError { expected, found: from_utf8_lossy(t.name.as_slice()) })
    }
}

/// The truth value that a text of a document stands for.
pub open spec fn bool_of_bytes(b: Seq<u8>) -> Option<bool> {
    if b == encode_utf8("true"@) || b == encode_utf8("1"@) || b == encode_utf8("True"@) || b
        == encode_utf8("TRUE"@) || b == encode_utf8("t"@) || b == encode_utf8("Yes"@) || b
        == encode_utf8("YES"@) || b == encode_utf8("yes"@) || b == encode_utf8("y"@) {
        Some(true)
    } else if b == encode_utf8("false"@) || b == encode_utf8("0"@) || b == encode_utf8("False"@)
        || b == encode_utf8("FALSE"@) || b == encode_utf8("f"@) || b == encode_utf8("No"@) || b
        == encode_utf8("NO"@) || b == encode_utf8("no"@) || b == encode_utf8("n"@) || b
        == encode_utf8(""@) {
        Some(false)
    } else {
        None
    }
}

fn is_text(b: &[u8], text: &str) -> (r: bool)
    ensures
        r == (b@ == encode_utf8(text@)),
{
    bytes_eq(b, text.as_bytes())
}

/// Reads a truth value; any other text is an error that carries the text.
pub fn parse_bool_bytes(b: &[u8]) -> (r: Result<bool, SdkError>)
    ensures
        match r {
            Ok(v) => bool_of_bytes(b@) == Some(v),
            Err(e) => bool_of_bytes(b@) is None && e@ == SdkErrorView::CommonError(utf8_lossy(b@)),
        },
{
    if is_text(b, "true") || is_text(b, "1") || is_text(b, "True") || is_text(b, "TRUE") || is_text(
        b,
        "t",
    ) || is_text(b, "Yes") || is_text(b, "YES") || is_text(b, "yes") || is_text(b, "y") {
        Ok(true)
    } else if is_text(b, "false") || is_text(b, "0") || is_text(b, "False") || is_text(b, "FALSE")
        || is_text(b, "f") || is_text(b, "No") || is_text(b, "NO") || is_text(b, "no") || is_text(
        b,
        "n",
    ) || is_text(b, "") {
        Ok(false)
    } else {
        Err(SdkError::CommonError(from_utf8_lossy(b)))
    }
}

/// The text of one attribute as it is appended to an opening tag: a space,
/// the key, `="`, the value and a closing quote.
pub open spec fn xml_attribute(key: Seq<char>, value: Seq<char>) -> Seq<char> {
    seq![' '] + key + seq!['=', '"'] + value + seq!['"']
}

pub fn as_xml_attribute(key: &str, value: &str) -> (r: String)
    ensures
        r@ == xml_attribute(key@, value@),
{
    let mut attribute = String::new();
    attribute.push(' ');
    attribute.append(key);
    attribute.push('=');
    attribute.push('"');
    attribute.append(value);
    attribute.push('"');
    assert(attribute@ =~= xml_attribute(key@, value@));
    attribute
}

/// An attribute whose value is escaped on the way out.
pub fn as_escaped_xml_attribute(key: &str, value: &str) -> (r: String)
    ensures
        r@ == xml_attribute(key@, xml_escaped(value@)),
{
    let escaped = escape(value);
    as_xml_attribute(key, escaped.as_str())
}

/// The opening tag of an element that has content.
pub open spec fn tag_start(name: Seq<char>, attributes: Option<Seq<char>>) -> Seq<char> {
    seq!['<'] + name + match attributes {
        Some(a) => a,
        None => Seq::empty(),
    } + seq!['>']
}

/// The closing tag of an element.
pub open spec fn tag_end(name: Seq<char>) -> Seq<char> {
    seq!['<', '/'] + name + seq!['>']
}

/// The tag of an element that has no content: it closes itself.
pub open spec fn tag_empty(name: Seq<char>, attributes: Option<Seq<char>>) -> Seq<char> {
    seq!['<'] + name + match attributes {
        Some(a) => a,
        None => Seq::empty(),
    } + seq!['/', '>']
}

/// The prolog that stands before the root element of a part.
pub open spec fn xml_header() -> Seq<char> {
    "<?xml version=\"1.0\" encoding=\"UTF-8\" standalone=\"yes\"?>\r\n"@
}

/// The text of an element: the prolog if it is asked for; then a
/// self-closing tag where there is no content, else the opening tag, the
/// content and the closing tag.
pub open spec fn element_text(
    header: bool,
    name: Seq<char>,
    attributes: Option<Seq<char>>,
    inner: Option<Seq<char>>,
) -> Seq<char> {
    let head = if header {
        xml_header()
    } else {
        Seq::empty()
    };
    let content = match inner {
        Some(x) => x,
        None => Seq::empty(),
    };
    if content.len() == 0 {
        head + tag_empty(name, attributes)
    } else {
        head + tag_start(name, attributes) + content + tag_end(name)
    }
}

pub fn xml_tag_start(name: &str, attributes: Option<&str>) -> (r: String)
    ensures
        r@ == tag_start(
            name@,
            match attributes {
                Some(a) => Some(a@),
                None => None,
            },
        ),
{
    let mut xml = String::new();
    xml.push('<');
    xml.append(name);
    match attributes {
        Some(a) => {
            xml.append(a);
        },
        None => {
            assert(xml@ + Seq::<char>::empty() =~= xml@);
        },
    }
    xml.push('>');
    xml
}

pub fn xml_tag_end(name: &str) -> (r: String)
    ensures
        r@ == tag_end(name@),
{
    let mut xml = String::new();
    xml.push('<');
    xml.push('/');
    xml.append(name);
    xml.push('>');
    assert(xml@ =~= tag_end(name@));
    xml
}

fn xml_tag_empty(name: &str, attributes: Option<&str>) -> (r: String)
    ensures
        r@ == tag_empty(
            name@,
            match attributes {
                Some(a) => Some(a@),
                None => None,
            },
        ),
{
    let mut xml = String::new();
    xml.push('<');
    xml.append(name);
    match attributes {
        Some(a) => {
            xml.append(a);
        },
        None => {
            assert(xml@ + Seq::<char>::empty() =~= xml@);
        },
    }
    xml.push('/');
    xml.push('>');
    xml
}

pub fn to_xml_string(header: bool, name: &str, attributes: Option<&str>, inner: Option<&str>) -> (r:
    String)
    ensures
        r@ == element_text(
            header,
            name@,
            match attributes {
                Some(a) => Some(a@),
                None => None,
            },
            match inner {
                Some(a) => Some(a@),
                None => None,
            },
        ),
{
    let mut xml = String::new();
    if header {
        xml.append("<?xml version=\"1.0\" encoding=\"UTF-8\" standalone=\"yes\"?>\r\n");
    }
    assert(xml@ =~= if header {
        xml_header()
    } else {
        Seq::empty()
    });
    let has_content = match inner {
        Some(x) => !x.is_empty(),
        None => false,
    };
    if has_content {
        let start = xml_tag_start(name, attributes);
        xml.append(start.as_str());
        match inner {
            Some(x) => {
                xml.append(x);
            },
            None => {},
        }
        let end = xml_tag_end(name);
        xml.append(end.as_str());
    } else {
        let tag = xml_tag_empty(name, attributes);
        xml.append(tag.as_str());
    }
    xml
}

pub fn to_xml_bytes(header: bool, name: &str, attributes: Option<&str>, inner: Option<&str>) -> (r:
    Vec<u8>)
    ensures
        r@ == encode_utf8(
            element_text(
                header,
                name@,
                match attributes {
                    Some(a) => Some(a@),
                    None => None,
                },
                match inner {
                    Some(a) => Some(a@),
                    None => None,
                },
            ),
        ),
{
    let xml = to_xml_string(header, name, attributes, inner);
    xml.as_str().as_bytes_vec()
}

/// An element that can be written as text: a tag with its attributes
/// around its content.
pub trait Serializeable {
    /// The tag of the element with its prefix.
    spec fn prefixed_name() -> Seq<char>;

    /// The tag of the element without a prefix.
    spec fn name() -> Seq<char>;

    /// The text of the attributes in the opening tag, if there are any.
    spec fn tag_attributes_text(&self, with_xmlns: bool) -> Option<Seq<char>>;

    /// The text of the content, if there is any.
    spec fn inner_text(&self, with_xmlns: bool) -> Option<Seq<char>>;

    /// The tag of the element, with its prefix if it is asked for.
    fn tag_of(with_xmlns: bool) -> (r: &'static str)
        ensures
            r@ == (if with_xmlns {
                Self::prefixed_name()
            } else {
                Self::name()
            }),
    ;

    fn xml_tag_attributes(&self, with_xmlns: bool) -> (r: Option<String>)
        ensures
            match r {
                Some(a) => self.tag_attributes_text(with_xmlns) == Some(a@),
                None => self.tag_attributes_text(with_xmlns) is None,
            },
    ;

    fn xml_inner(&self, with_xmlns: bool) -> (r: Option<String>)
        ensures
            match r {
                Some(x) => self.inner_text(with_xmlns) == Some(x@),
                None => self.inner_text(with_xmlns) is None,
            },
    ;

    /// The opening tag of the element.
    fn xml_tag_start(&self, with_xmlns: bool) -> (r: String)
        ensures
            r@ == tag_start(
                if with_xmlns {
                    Self::prefixed_name()
                } else {
                    Self::name()
                },
                self.tag_attributes_text(with_xmlns),
            ),
    {
        let attributes = self.xml_tag_attributes(with_xmlns);
        match &attributes {
            Some(a) => xml_tag_start(Self::tag_of(with_xmlns), Some(a.as_str())),
            None => xml_tag_start(Self::tag_of(with_xmlns), None),
        }
    }

    /// The closing tag of the element.
    fn xml_tag_end(&self, with_xmlns: bool) -> (r: String)
        ensures
            r@ == tag_end(
                if with_xmlns {
                    Self::prefixed_name()
                } else {
                    Self::name()
                },
            ),
    {
        xml_tag_end(Self::tag_of(with_xmlns))
    }

    /// The element as text: after the prolog, if it is asked for, a
    /// self-closing tag where there is no content, else the opening tag,
    /// the content and the closing tag.
    fn to_xml_string(&self, header: bool, with_xmlns: bool) -> (r: String)
        ensures
            r@ == element_text(
                header,
                if with_xmlns {
                    Self::prefixed_name()
                } else {
                    Self::name()
                },
                self.tag_attributes_text(with_xmlns),
                self.inner_text(with_xmlns),
            ),
    {
        let attributes = self.xml_tag_attributes(with_xmlns);
        let inner = self.xml_inner(with_xmlns);
        let attributes = match &attributes {
            Some(a) => Some(a.as_str()),
            None => None,
        };
        let inner = match &inner {
            Some(x) => Some(x.as_str()),
            None => None,
        };
        to_xml_string(header, Self::tag_of(with_xmlns), attributes, inner)
    }

    /// The bytes of the element as text.
    fn to_xml_bytes(&self, header: bool, with_xmlns: bool) -> (r: Vec<u8>)
        ensures
            r@ == encode_utf8(
                element_text(
                    header,
                    if with_xmlns {
                        Self::prefixed_name()
                    } else {
                        Self::name()
                    },
                    self.tag_attributes_text(with_xmlns),
                    self.inner_text(with_xmlns),
                ),
            ),
    {
        let xml = self.to_xml_string(header, with_xmlns);
        xml.as_str().as_bytes_vec()
    }
}

/// An element that can be read from the events of a document.
pub trait Deserializeable: Sized + View {
    /// The element read from the events from `pos` on: from the opening
    /// tag that the caller has already read, or from the next one. The
    /// second component is the position behind the element.
    spec fn parsed(events: Seq<XmlEvent>, pos: int, peeked: Option<(StartTag, bool)>) -> Result<
        (Self::V, int),
        SdkErrorView,
    >;

    /// Reads the element from the events from `pos` on.
    fn deserialize_inner(
        events: &Vec<XmlEvent>,
        pos: usize,
        xml_event: Option<(&StartTag, bool)>,
    ) -> (r: Result<(Self, usize), SdkError>)
        requires
            pos <= events@.len(),
        ensures
            match r {
                Ok((v, next)) => Self::parsed(
                    events@,
                    pos as int,
                    match xml_event {
                        Some((t0, e0)) => Some((*t0, e0)),
                        None => None,
                    },
                ) == Ok::<(Self::V, int), SdkErrorView>((v@, next as int)) && pos <= next
                    <= events@.len(),
                Err(e) => Self::parsed(
                    events@,
                    pos as int,
                    match xml_event {
                        Some((t0, e0)) => Some((*t0, e0)),
                        None => None,
                    },
                ) == Err::<(Self::V, int), SdkErrorView>(e@),
            },
    ;

    /// Reads the element from a text: the element is read from the events
    /// of the text.
    fn from_str(text: &str) -> (r: Result<Self, SdkError>)
        ensures
            match r {
                Ok(v) => Self::parsed(xml_events(text@), 0, None) matches Ok(p) && p.0 == v@,
                Err(e) => Self::parsed(xml_events(text@), 0, None) == Err::<
                    (Self::V, int),
                    SdkErrorView,
                >(e@),
            },
    {
        let events = tokenize(text);
        match Self::deserialize_inner(&events, 0, None) {
            Ok((v, _)) => Ok(v),
            Err(e) => Err(e),
        }
    }
}

} // verus!
