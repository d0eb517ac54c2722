//! A `quick_xml` reader over a text, held with the text and the count of
//! events read so far, so that each event read is the one that the reader
//! gives at that place of the text.

use vstd::prelude::*;
use quick_xml::events::Event;
use quick_xml::Reader;
use crate::webdav::XmlEvent;

verus! {

#[verifier::external_type_specification]
#[verifier::external_body]
#[verifier::reject_recursive_types(R)]
pub struct ExXmlReader<R>(Reader<R>);

/// The event numbered `k` (from 0) that a `quick_xml` reader made by
/// `Reader::from_str(xml)` gives when asked again and again with
/// `read_event`, with its names and text copied out as raw bytes.
pub uninterp spec fn xml_event(xml: Seq<char>, k: nat) -> XmlEvent;

/// A reader over a text: the text and how many events were read from it.
/// Only `open_xml` makes one and only `next_xml_event` advances it.
pub struct XmlCursor<'a> {
    reader: Reader<&'a [u8]>,
    text: Ghost<Seq<char>>,
    read: Ghost<nat>,
}

impl<'a> View for XmlCursor<'a> {
    type V = (Seq<char>, nat);

    closed spec fn view(&self) -> (Seq<char>, nat) {
        (self.text@, self.read@)
    }
}

/// `quick_xml::Reader::from_str`: a reader at the start of `xml`, no event
/// read yet.
#[verifier::external_body]
pub(crate) fn open_xml<'a>(xml: &'a str) -> (c: XmlCursor<'a>)
    ensures
        c@ == (xml@, 0nat),
{
    XmlCursor { reader: Reader::from_str(xml), text: Ghost(xml@), read: Ghost(0) }
}

/// `quick_xml::Reader::read_event`: the next event of the text, which is the
/// one numbered by how many were read before it; the names of tags and the
/// raw bytes of text are copied out.
#[verifier::external_body]
pub(crate) fn next_xml_event<'a>(cursor: &mut XmlCursor<'a>) -> (e: XmlEvent)
    ensures
        e == xml_event(old(cursor)@.0, old(cursor)@.1),
        final(cursor)@ == (old(cursor)@.0, old(cursor)@.1 + 1),
{
    match cursor.reader.read_event() {
        Ok(Event::Start(e)) => XmlEvent::Start(e.name().as_ref().to_vec()),
        Ok(Event::End(e)) => XmlEvent::End(e.name().as_ref().to_vec()),
        Ok(Event::Text(e)) => XmlEvent::Text(e.into_inner().to_vec()),
        Ok(Event::Eof) => XmlEvent::Eof,
        Ok(_) => XmlEvent::Other,
        Err(_) => XmlEvent::Error,
    }
}

} // verus!
