//! XML as a row of events. `quick_xml` does the parsing.
use quick_xml::events::attributes::Attribute as Raw;
use quick_xml::events::Event::{Empty, End, Eof, Start, Text};
use vstd::prelude::*;

verus! {

/// `quick_xml::Reader`, which reads the events of a document one by one.
#[verifier::external_type_specification]
#[verifier::external_body]
#[verifier::reject_recursive_types(R)]
pub struct ExReader<R>(quick_xml::Reader<R>);

/// An attribute of a tag, as it is written.
pub struct Attribute {
    pub key: Vec<u8>,
    pub value: Vec<u8>,
}

/// An event of a document. A text is unescaped, and missing where it cannot be.
pub enum XmlEvent {
    Start(Vec<u8>, Vec<Attribute>),
    End(Vec<u8>),
    Empty(Vec<u8>),
    Text(Option<String>),
    Bad(String),
    Other,
    Eof,
}

/// What an attribute says.
pub struct AttributeModel {
    pub key: Seq<u8>,
    pub value: Seq<u8>,
}

/// What an event says.
pub enum EventModel {
    Start(Seq<u8>, Seq<AttributeModel>),
    End(Seq<u8>),
    Empty(Seq<u8>),
    Text(Option<Seq<char>>),
    Bad(Seq<char>),
    Other,
    Eof,
}

/// What a list of attributes says.
pub open spec fn attributes_model(v: Seq<Attribute>) -> Seq<AttributeModel> {
    Seq::new(v.len(), |i: int| AttributeModel { key: v[i].key@, value: v[i].value@ })
}

impl View for XmlEvent {
    type V = EventModel;

    open spec fn view(&self) -> EventModel {
        match self {
            XmlEvent::Start(n, a) => EventModel::Start(n@, attributes_model(a@)),
            XmlEvent::End(n) => EventModel::End(n@),
            XmlEvent::Empty(n) => EventModel::Empty(n@),
            XmlEvent::Text(t) => EventModel::Text(crate::text::opt_text(*t)),
            XmlEvent::Bad(e) => EventModel::Bad(e@),
            XmlEvent::Other => EventModel::Other,
            XmlEvent::Eof => EventModel::Eof,
        }
    }
}

/// The events that `quick_xml` finds in a document before its end, with the white space at the
/// ends of the texts kept or dropped.
pub uninterp spec fn xml_events(document: Seq<u8>, trim: bool) -> Seq<EventModel>;

/// The events that a reader has still to give before the end of its document.
pub uninterp spec fn xml_pending(reader: quick_xml::Reader<&[u8]>) -> Seq<EventModel>;

/// `quick_xml::Reader::from_reader` with `Config::trim_text`: a reader at the start of a document.
/// Which events there are to read is named.
#[verifier::external_body]
pub(crate) fn open_xml(document: &[u8], trim: bool) -> (r: quick_xml::Reader<&[u8]>)
    ensures
        xml_pending(r) == xml_events(document@, trim),
{
    let mut reader = quick_xml::Reader::from_reader(document);
    reader.config_mut().trim_text(trim);
    reader
}

/// `quick_xml::Reader::read_event`: takes the next event off, and gives `Eof` once there is none.
/// An error counts as an event.
#[verifier::external_body]
pub(crate) fn next_event(reader: &mut quick_xml::Reader<&[u8]>) -> (r: XmlEvent)
    ensures
        xml_pending(*old(reader)).len() == 0 ==> r@ == EventModel::Eof && xml_pending(
            *final(reader),
        ) == xml_pending(*old(reader)),
        xml_pending(*old(reader)).len() > 0 ==> r@ == xml_pending(*old(reader))[0] && !(r@ is Eof)
            && xml_pending(*final(reader)) == xml_pending(*old(reader)).drop_first(),
{
    match reader.read_event() {
        Ok(Start(e)) => {
            let own = |a: Raw| Attribute { key: a.key.0.to_vec(), value: a.value.to_vec() };
            XmlEvent::Start(e.name().0.to_vec(), e.attributes().flatten().map(own).collect())
        }
        Ok(End(e)) => XmlEvent::End(e.name().0.to_vec()),
        Ok(Empty(e)) => XmlEvent::Empty(e.name().0.to_vec()),
        Ok(Text(t)) => XmlEvent::Text(t.unescape().ok().map(String::from)),
        Ok(Eof) => XmlEvent::Eof,
        Ok(_) => XmlEvent::Other,
        Err(e) => XmlEvent::Bad(e.to_string()),
    }
}

/// What a list of events says.
pub open spec fn event_models(v: Seq<XmlEvent>) -> Seq<EventModel> {
    Seq::new(v.len(), |i: int| v[i]@)
}

/// The events of a document, up to its end.
pub fn read_events(document: &[u8], trim: bool) -> (r: Vec<XmlEvent>)
    ensures
        event_models(r@) == xml_events(document@, trim),
{
    let mut reader = open_xml(document, trim);
    let ghost all = xml_pending(reader);
    let mut out: Vec<XmlEvent> = Vec::new();
    assert(event_models(out@) + xml_pending(reader) =~= all);
    loop
        invariant
            event_models(out@) + xml_pending(reader) == all,
        ensures
            event_models(out@) == all,
        decreases xml_pending(reader).len(),
    {
        let ghost before = event_models(out@);
        let ghost left = xml_pending(reader);
        let e = next_event(&mut reader);
        if matches!(e, XmlEvent::Eof) {
            assert(event_models(out@) =~= all);
            break;
        }
        out.push(e);
        proof {
            assert(event_models(out@) =~= before.push(e@));
            assert(before.push(e@) + left.drop_first() =~= before + left);
        }
    }
    out
}

/// Tells whether two byte strings are the same.
pub fn same_bytes(a: &[u8], b: &[u8]) -> (r: bool)
    ensures
        r == (a@ == b@),
{
    if a.len() != b.len() {
        return false;
    }
    let mut i: usize = 0;
    while i < a.len()
        invariant
            i <= a.len(),
            a.len() == b.len(),
            forall|j: int| 0 <= j < i ==> a@[j] == b@[j],
        decreases a.len() - i,
    {
        if a[i] != b[i] {
            return false;
        }
        i += 1;
    }
    assert(a@ =~= b@);
    true
}

} // verus!
