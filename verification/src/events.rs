//! The tag events that a trace is read from, and the reader that supplies them.

use quick_xml::events::Event;
use quick_xml::reader::Reader;
use vstd::prelude::*;
use vstd::string::*;

use crate::text::same_text;

verus! {

/// One `key="value"` pair of an opening tag, as written in the document.
#[derive(Debug, Clone, PartialEq, Eq)]
pub struct Attribute {
    pub key: String,
    pub value: String,
}

/// An `Attribute` as contracts see it.
pub struct AttributeModel {
    pub key: Seq<char>,
    pub value: Seq<char>,
}

impl View for Attribute {
    type V = AttributeModel;

    open spec fn view(&self) -> AttributeModel {
        AttributeModel { key: self.key@, value: self.value@ }
    }
}

/// An opening tag: its name and, in document order, its attributes. Where the
/// reader refuses what stands in the place of an attribute, its reason stands
/// in the list instead.
#[derive(Debug, Clone, PartialEq, Eq)]
pub struct StartTag {
    pub name: String,
    pub attributes: Vec<Result<Attribute, String>>,
}

/// A `StartTag` as contracts see it.
pub struct StartTagModel {
    pub name: Seq<char>,
    pub attributes: Seq<Result<AttributeModel, Seq<char>>>,
}

/// What stands in the place of one attribute, as contracts see it.
pub open spec fn slot_model(slot: Result<Attribute, String>) -> Result<AttributeModel, Seq<char>> {
    match slot {
        Ok(attribute) => Ok(attribute@),
        Err(reason) => Err(reason@),
    }
}

impl View for StartTag {
    type V = StartTagModel;

    open spec fn view(&self) -> StartTagModel {
        StartTagModel {
            name: self.name@,
            attributes: self.attributes@.map_values(|a: Result<Attribute, String>| slot_model(a)),
        }
    }
}

/// What the reader hands out, one at a time.
#[derive(Debug, Clone, PartialEq, Eq)]
pub enum TagEvent {
    /// An opening tag.
    Start(StartTag),
    /// A closing tag, with its name.
    End(String),
    /// The end of the document. Once reached, it is all that follows.
    Eof,
    /// Anything else that is well formed: text, a comment, a self-closed tag,
    /// a declaration.
    Other,
    /// The document is broken at this place, for the reason that the reader
    /// gives.
    Malformed(String),
}

/// A `TagEvent` as contracts see it.
pub enum TagEventModel {
    Start(StartTagModel),
    End(Seq<char>),
    Eof,
    Other,
    Malformed(Seq<char>),
}

impl View for TagEvent {
    type V = TagEventModel;

    open spec fn view(&self) -> TagEventModel {
        match self {
            TagEvent::Start(tag) => TagEventModel::Start(tag@),
            TagEvent::End(name) => TagEventModel::End(name@),
            TagEvent::Eof => TagEventModel::Eof,
            TagEvent::Other => TagEventModel::Other,
            TagEvent::Malformed(reason) => TagEventModel::Malformed(reason@),
        }
    }
}

/// How an event is named in a message: an opening tag as `<name>`, a closing
/// tag as `</name>`, what the reader refuses by the reader's reason.
pub open spec fn event_text(event: TagEventModel) -> Seq<char> {
    match event {
        TagEventModel::Start(tag) => "<"@ + tag.name + ">"@,
        TagEventModel::End(name) => "</"@ + name + ">"@,
        TagEventModel::Eof => "end of document"@,
        TagEventModel::Other => "text or markup"@,
        TagEventModel::Malformed(reason) => reason,
    }
}

impl TagEvent {
    /// Names the event for a message.
    pub fn describe(&self) -> (out: String)
        ensures
            out@ == event_text(self@),
    {
        match self {
            TagEvent::Start(tag) => {
                let mut out = String::from_str("<");
                out.append(tag.name.as_str());
                out.append(">");
                out
            },
            TagEvent::End(name) => {
                let mut out = String::from_str("</");
                out.append(name.as_str());
                out.append(">");
                out
            },
            TagEvent::Eof => String::from_str("end of document"),
            TagEvent::Other => String::from_str("text or markup"),
            TagEvent::Malformed(reason) => reason.clone(),
        }
    }
}

/// `quick_xml::reader::Reader`, known to the verifier as a type and no more.
#[verifier::external_type_specification]
#[verifier::external_body]
#[verifier::reject_recursive_types(R)]
pub struct ExReader<R>(Reader<R>);

/// The events that the reader has still to hand out before it reports the end
/// of the document, in order.
pub uninterp spec fn pending_events(reader: &Reader<&[u8]>) -> Seq<TagEventModel>;

/// The byte offset in the document that the reader has reached.
pub uninterp spec fn reader_offset(reader: &Reader<&[u8]>) -> usize;

/// `Reader::read_event` of `quick_xml` on a byte slice, its result turned into a
/// `TagEvent`. Names, keys and values are the bytes of the document, read as
/// UTF-8 as `String::from_utf8_lossy` does; an error of the reader is kept as
/// its `Debug` text.
///
/// Trusted: each call hands out the first pending event and leaves the others
/// pending; at the end of the document it reports `Eof`, and goes on doing so.
/// What the reader refuses comes out as `Malformed`; an opening tag comes out
/// with every attribute that `BytesStart::attributes` yields, in order, the
/// refused ones as their reasons.
#[verifier::external_body]
pub(crate) fn next_event(reader: &mut Reader<&[u8]>) -> (event: TagEvent)
    ensures
        event is Eof <==> pending_events(old(reader)).len() == 0,
        event is Eof ==> pending_events(final(reader)).len() == 0,
        !(event is Eof) ==> event@ == pending_events(old(reader))[0],
        !(event is Eof) ==> pending_events(final(reader)) == pending_events(old(reader)).skip(1),
{
    let text = |bytes: &[u8]| String::from_utf8_lossy(bytes).into_owned();
    match reader.read_event() {
        Ok(Event::Start(tag)) => TagEvent::Start(StartTag {
            name: text(tag.name().as_ref()),
            attributes: tag.attributes().map(|slot| match slot {
                Ok(a) => Ok(Attribute { key: text(a.key.as_ref()), value: text(&a.value) }),
                Err(e) => Err(format!("{:?}", e))
            }).collect()
        }),
        Ok(Event::End(tag)) => TagEvent::End(text(tag.name().as_ref())),
        Ok(Event::Eof) => TagEvent::Eof,
        Ok(_) => TagEvent::Other,
        Err(e) => TagEvent::Malformed(format!("{:?}", e))
    }
}

/// `Reader::buffer_position` of `quick_xml`.
///
/// Trusted: the call reads the offset that the reader has reached and leaves
/// the reader as it is.
#[verifier::external_body]
pub(crate) fn position(reader: &Reader<&[u8]>) -> (at: usize)
    ensures
        at == reader_offset(reader),
{
    reader.buffer_position()
}

/// What looking for an attribute gives.
#[derive(Debug, Clone, PartialEq, Eq)]
pub enum Lookup {
    /// The value of the attribute.
    Found(String),
    /// The tag has no such attribute.
    Missing,
    /// Before such an attribute was found, the search met what the reader
    /// refuses, for this reason.
    Broken(String),
}

/// A `Lookup` as contracts see it.
pub enum LookupModel {
    Found(Seq<char>),
    Missing,
    Broken(Seq<char>),
}

impl View for Lookup {
    type V = LookupModel;

    open spec fn view(&self) -> LookupModel {
        match self {
            Lookup::Found(value) => LookupModel::Found(value@),
            Lookup::Missing => LookupModel::Missing,
            Lookup::Broken(reason) => LookupModel::Broken(reason@),
        }
    }
}

/// Looking for the attribute `key`, from the first attribute on: the value of
/// the first attribute with this key, unless something refused stands before
/// it.
pub open spec fn attribute_value(
    attributes: Seq<Result<AttributeModel, Seq<char>>>,
    key: Seq<char>,
) -> LookupModel
    decreases attributes.len(),
{
    if attributes.len() == 0 {
        LookupModel::Missing
    } else {
        match attributes[0] {
            Err(reason) => LookupModel::Broken(reason),
            Ok(attribute) => if attribute.key == key {
                LookupModel::Found(attribute.value)
            } else {
                attribute_value(attributes.skip(1), key)
            },
        }
    }
}

/// Looks `attr_name` up among the attributes of an opening tag.
pub fn get_attribute_from_start(start: &StartTag, attr_name: &str) -> (value: Lookup)
    ensures
        value@ == attribute_value(start@.attributes, attr_name@),
{
    let mut i: usize = 0;
    assert(start@.attributes.skip(0) =~= start@.attributes);
    while i < start.attributes.len()
        invariant
            i <= start.attributes.len(),
            start@.attributes.len() == start.attributes.len(),
            attribute_value(start@.attributes, attr_name@) == attribute_value(
                start@.attributes.skip(i as int),
                attr_name@,
            ),
        decreases start.attributes.len() - i,
    {
        assert(start@.attributes.skip(i as int).skip(1) =~= start@.attributes.skip(i as int + 1));
        assert(start@.attributes[i as int] == slot_model(start.attributes[i as int]));
        match &start.attributes[i] {
            Ok(attribute) => {
                if same_text(attribute.key.as_str(), attr_name) {
                    return Lookup::Found(attribute.value.clone());
                }
            },
            Err(reason) => {
                return Lookup::Broken(reason.clone());
            },
        }
        i = i + 1;
    }
    Lookup::Missing
}

} // verus!
