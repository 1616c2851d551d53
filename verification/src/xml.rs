//! XML documents, read by `quick_xml`.

use quick_xml::events::{BytesStart, Event};
use quick_xml::Reader;
use vstd::prelude::*;

verus! {

/// An attribute of a tag: its name, and its value where that could be decoded.
#[derive(Debug, Clone)]
pub struct XmlAttribute {
    pub key: Vec<u8>,
    pub value: Option<String>,
}

/// An opening tag. An attribute that could not be read is `None`.
#[derive(Debug, Clone)]
pub struct XmlTag {
    pub name: Vec<u8>,
    pub attributes: Vec<Option<XmlAttribute>>,
}

/// What a reader of XML meets next.
#[derive(Debug, Clone)]
pub enum XmlEvent {
    /// An opening tag.
    Open(XmlTag),
    /// A tag that closes itself.
    Empty(XmlTag),
    /// A closing tag, by its name.
    Close(Vec<u8>),
    /// Anything else: text, a comment, a declaration.
    Other,
    /// The end of the document.
    End,
    /// What stands next is not XML.
    Failed,
}

/// What an attribute holds.
pub struct AttributeView {
    pub key: Seq<u8>,
    pub value: Option<Seq<char>>,
}

/// What an opening tag holds.
pub struct TagView {
    pub name: Seq<u8>,
    pub attributes: Seq<Option<AttributeView>>,
}

/// What an event holds.
pub enum EventView {
    Open(TagView),
    Empty(TagView),
    Close(Seq<u8>),
    Other,
    End,
    Failed,
}

impl View for XmlAttribute {
    type V = AttributeView;

    open spec fn view(&self) -> AttributeView {
        AttributeView {
            key: self.key@,
            value: match self.value {
                Some(value) => Some(value@),
                None => None,
            },
        }
    }
}

impl View for XmlTag {
    type V = TagView;

    open spec fn view(&self) -> TagView {
        TagView {
            name: self.name@,
            attributes: self.attributes@.map_values(
                |attribute: Option<XmlAttribute>|
                    match attribute {
                        Some(attribute) => Some(attribute@),
                        None => None,
                    },
            ),
        }
    }
}

impl View for XmlEvent {
    type V = EventView;

    open spec fn view(&self) -> EventView {
        match self {
            XmlEvent::Open(tag) => EventView::Open(tag@),
            XmlEvent::Empty(tag) => EventView::Empty(tag@),
            XmlEvent::Close(name) => EventView::Close(name@),
            XmlEvent::Other => EventView::Other,
            XmlEvent::End => EventView::End,
            XmlEvent::Failed => EventView::Failed,
        }
    }
}

/// What each event of a list holds.
pub open spec fn event_views(events: Seq<XmlEvent>) -> Seq<EventView> {
    events.map_values(|event: XmlEvent| event@)
}

/// Reading stops here.
pub open spec fn is_last(event: EventView) -> bool {
    event is End || event is Failed
}

/// The events that are more than text, comments and the like.
pub open spec fn telling(events: Seq<EventView>) -> Seq<EventView>
    decreases events.len(),
{
    if events.len() == 0 {
        events
    } else if events[0] is Other {
        telling(events.drop_first())
    } else {
        seq![events[0]] + telling(events.drop_first())
    }
}

/// The elements that are open behind the events, outermost first, or none where a closing tag
/// is not that of the element that was opened last.
pub open spec fn open_elements(events: Seq<EventView>) -> Option<Seq<Seq<u8>>>
    decreases events.len(),
{
    if events.len() == 0 {
        Some(Seq::empty())
    } else {
        match open_elements(events.drop_last()) {
            None => None,
            Some(open) => match events.last() {
                EventView::Open(tag) => Some(open.push(tag.name)),
                EventView::Close(name) => if open.len() > 0 && open.last() == name {
                    Some(open.drop_last())
                } else {
                    None
                },
                _ => Some(open),
            },
        }
    }
}

/// The events are those of documents that end, with every element closed where it belongs.
pub open spec fn is_document(events: Seq<EventView>) -> bool {
    &&& events.len() > 0
    &&& events.last() is End
    &&& forall|i: int| 0 <= i < events.len() - 1 ==> !is_last(#[trigger] events[i])
    &&& open_elements(events.drop_last()) == Some(Seq::<Seq<u8>>::empty())
}

/// `quick_xml::Reader`.
#[verifier::external_type_specification]
#[verifier::external_body]
#[verifier::reject_recursive_types(R)]
pub struct ExReader<R>(quick_xml::Reader<R>);

/// The events that a reader has yet to give, up to the end of the document or what is not
/// XML, that one included.
pub uninterp spec fn pending_events(reader: quick_xml::Reader<&[u8]>) -> Seq<EventView>;

/// The events that a reader over a text gives, up to the end of the document or what is not
/// XML, that one included.
pub uninterp spec fn xml_events(text: Seq<char>) -> Seq<EventView>;

/// `quick_xml::Reader::from_str`. What the reader gives depends on the text alone, and it
/// comes to an end. Where the text begins with a part that is a document by itself, the reader
/// meets in it what it meets in that part alone and then what it meets in the rest alone: with
/// no element open it reads on as it begins. This leaves out text and the like, since text that
/// ends the one and text that begins the other is met as one.
#[verifier::external_body]
fn open_reader(text: &str) -> (r: Reader<&[u8]>)
    ensures
        pending_events(r) == xml_events(text@),
        pending_events(r).len() > 0,
        forall|a: Seq<char>, b: Seq<char>|
            #![trigger xml_events(a), xml_events(b)]
            text@ == a + b && is_document(xml_events(a)) ==> telling(pending_events(r)) == telling(
                xml_events(a).drop_last(),
            ) + telling(xml_events(b)),
{
    Reader::from_str(text)
}

/// `Reader::read_event`, with `BytesStart::name`, `BytesStart::attributes`,
/// `Attribute::unescape_value` and `BytesEnd::name` for what an event holds: the next of the
/// events that the reader has yet to give. Behind any but the last stands another.
#[verifier::external_body]
fn next_event(reader: &mut Reader<&[u8]>) -> (r: XmlEvent)
    requires
        pending_events(*old(reader)).len() > 0,
    ensures
        r@ == pending_events(*old(reader))[0],
        if is_last(r@) {
            pending_events(*old(reader)).len() == 1
        } else {
            pending_events(*final(reader)) == pending_events(*old(reader)).drop_first()
                && pending_events(*final(reader)).len() > 0
        },
{
    let opened = |tag: BytesStart<'_>| XmlTag {
        name: tag.name().0.to_vec(),
        attributes: tag.attributes().map(|a| a.ok().map(|a| XmlAttribute {
            key: a.key.0.to_vec(),
            value: a.unescape_value().ok().map(Into::into),
        })).collect(),
    };
    match reader.read_event() {
        Ok(Event::Start(tag)) => XmlEvent::Open(opened(tag)),
        Ok(Event::Empty(tag)) => XmlEvent::Empty(opened(tag)),
        Ok(Event::End(tag)) => XmlEvent::Close(tag.name().0.to_vec()),
        Ok(Event::Eof) => XmlEvent::End,
        Ok(_) => XmlEvent::Other,
        Err(_) => XmlEvent::Failed,
    }
}

/// The events of an XML text, up to the end of the document or what is not XML, that one
/// included.
pub fn read_events(text: &str) -> (r: Vec<XmlEvent>)
    ensures
        event_views(r@) == xml_events(text@),
        r@.len() > 0,
        is_last(r@.last()@),
        forall|i: int| 0 <= i < r@.len() - 1 ==> !is_last((#[trigger] r@[i])@),
        forall|a: Seq<char>, b: Seq<char>|
            #![trigger xml_events(a), xml_events(b)]
            text@ == a + b && is_document(xml_events(a)) ==> telling(xml_events(text@)) == telling(
                xml_events(a).drop_last(),
            ) + telling(xml_events(b)),
{
    let mut reader = open_reader(text);
    let mut events: Vec<XmlEvent> = Vec::new();
    let ghost all = xml_events(text@);
    loop
        invariant
            all == xml_events(text@),
            forall|a: Seq<char>, b: Seq<char>|
                #![trigger xml_events(a), xml_events(b)]
                text@ == a + b && is_document(xml_events(a)) ==> telling(xml_events(text@))
                    == telling(xml_events(a).drop_last()) + telling(xml_events(b)),
            pending_events(reader).len() > 0,
            all =~= event_views(events@) + pending_events(reader),
            forall|i: int| 0 <= i < events@.len() ==> !is_last((#[trigger] events@[i])@),
        decreases pending_events(reader).len(),
    {
        let ghost before = events@;
        let ghost rest = pending_events(reader);
        let event = next_event(&mut reader);
        let last: bool = match event {
            XmlEvent::End => true,
            XmlEvent::Failed => true,
            _ => false,
        };
        events.push(event);
        proof {
            assert(event_views(events@) =~= event_views(before).push(event@));
            assert(rest =~= seq![rest[0]] + rest.drop_first());
        }
        if last {
            assert(event_views(events@) =~= all);
            return events;
        }
        assert(all =~= event_views(events@) + rest.drop_first());
    }
}

// ---------------------------------------------------------------------------
// Laws.
// ---------------------------------------------------------------------------

/// Reading ends at the end of a document and at what is not XML, and nowhere else; text,
/// comments and the like are passed over, and all other events keep their order.
pub proof fn reading_passes_over_text_alone(events: Seq<EventView>, event: EventView)
    ensures
        is_last(event) <==> event == EventView::End || event == EventView::Failed,
        telling(events) == events.filter(|e: EventView| e != EventView::Other),
    decreases events.len(),
{
    if events.len() > 0 {
        let first = events[0];
        let rest = events.drop_first();
        reading_passes_over_text_alone(rest, event);
        lemma_filter_first(events);
    } else {
        reveal(Seq::filter);
    }
}

proof fn lemma_filter_first(events: Seq<EventView>)
    requires
        events.len() > 0,
    ensures
        events.filter(|e: EventView| e != EventView::Other) == (if events[0] != EventView::Other {
            seq![events[0]]
        } else {
            Seq::empty()
        }) + events.drop_first().filter(|e: EventView| e != EventView::Other),
    decreases events.len(),
{
    reveal(Seq::filter);
    let tells = |e: EventView| e != EventView::Other;
    let rest = events.drop_first();
    if events.len() > 1 {
        let front = events.drop_last();
        lemma_filter_first(front);
        assert(front.drop_first() =~= rest.drop_last());
        assert(front[0] == events[0]);
        let head = if events[0] != EventView::Other {
            seq![events[0]]
        } else {
            Seq::empty()
        };
        assert(events.filter(tells) =~= head + rest.filter(tells));
    } else {
        assert(events.drop_last() =~= Seq::<EventView>::empty());
        assert(rest =~= Seq::<EventView>::empty());
        assert(events.last() == events[0]);
        assert(events.drop_last().filter(tells) =~= Seq::<EventView>::empty());
        assert(rest.filter(tells) =~= Seq::<EventView>::empty());
        let head = if events[0] != EventView::Other {
            seq![events[0]]
        } else {
            Seq::empty()
        };
        assert(events.filter(tells) =~= head + rest.filter(tells));
    }
}

} // verus!
