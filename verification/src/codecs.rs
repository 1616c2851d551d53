//! The decoders that a device's codec configuration states.

use vstd::prelude::*;

use crate::lists::{
    lemma_contains_add, lemma_contains_push, lemma_nothing_new, lemma_repeats_add_nothing,
    lemma_with_new, lemma_with_new_twice, new_items_come_in_their_order, with_new,
};
use crate::text::{
    ascii_lowered, begins_with, chars_of, items, items_are_the_pieces_that_say_something,
    list_items, same, slice_texts, split, starts_with, to_ascii_lower, trimmed,
};
use crate::xml::{
    event_views, is_document, is_last, open_elements, read_events, telling, xml_events,
    AttributeView, EventView, TagView, XmlEvent, XmlTag,
};

verus! {

/// A decoder for one format.
#[derive(Debug, Clone, PartialEq, Eq)]
pub struct Decoder {
    pub name: String,
    pub mime: String,
    /// Known to run in software.
    pub software: bool,
}

/// What a `Decoder` holds.
pub struct DecoderView {
    pub name: Seq<char>,
    pub mime: Seq<char>,
    pub software: bool,
}

impl View for Decoder {
    type V = DecoderView;

    open spec fn view(&self) -> DecoderView {
        DecoderView { name: self.name@, mime: self.mime@, software: self.software }
    }
}

/// What each decoder of a list holds.
pub open spec fn decoder_views(decoders: Seq<Decoder>) -> Seq<DecoderView> {
    decoders.map_values(|decoder: Decoder| decoder@)
}

// ---------------------------------------------------------------------------
// Tags.
// ---------------------------------------------------------------------------

/// The bytes of an ASCII text.
pub open spec fn ascii_bytes(text: Seq<char>) -> Seq<u8> {
    text.map_values(|c: char| c as u8)
}

/// The value of the first attribute of that name, attributes that could not be read left out.
/// Where that value could not be decoded there is none, whatever follows.
pub open spec fn attribute_of(attributes: Seq<Option<AttributeView>>, key: Seq<u8>) -> Option<
    Seq<char>,
>
    decreases attributes.len(),
{
    if attributes.len() == 0 {
        None
    } else {
        match attributes[0] {
            Some(attribute) if attribute.key == key => attribute.value,
            _ => attribute_of(attributes.drop_first(), key),
        }
    }
}

/// Whether the bytes are those of the ASCII text.
fn is_name(bytes: &Vec<u8>, text: &str) -> (r: bool)
    ensures
        r == (bytes@ == ascii_bytes(text@)),
{
    let chars = chars_of(text);
    if bytes.len() != chars.len() {
        return false;
    }
    let mut i: usize = 0;
    while i < chars.len()
        invariant
            chars@ == text@,
            bytes@.len() == chars@.len(),
            i <= chars@.len(),
            forall|j: int| 0 <= j < i ==> #[trigger] bytes@[j] == ascii_bytes(text@)[j],
        decreases chars@.len() - i,
    {
        if bytes[i] != #[verifier::truncate] (chars[i] as u8) {
            assert(bytes@[i as int] != ascii_bytes(text@)[i as int]);
            return false;
        }
        i = i + 1;
    }
    assert(bytes@ =~= ascii_bytes(text@));
    true
}

/// The value of the first attribute of that name, attributes that could not be read left out.
/// Where that value could not be decoded there is none, whatever follows.
fn attribute(tag: &XmlTag, key: &str) -> (r: Option<String>)
    ensures
        (match r {
            Some(value) => Some(value@),
            None => None,
        }) == attribute_of(tag@.attributes, ascii_bytes(key@)),
{
    let ghost all = tag@.attributes;
    let mut i: usize = 0;
    assert(all.skip(0) =~= all);
    while i < tag.attributes.len()
        invariant
            all == tag@.attributes,
            i <= all.len(),
            attribute_of(all, ascii_bytes(key@)) == attribute_of(
                all.skip(i as int),
                ascii_bytes(key@),
            ),
        decreases all.len() - i,
    {
        assert(all.skip(i as int).drop_first() =~= all.skip(i + 1));
        if let Some(attribute) = &tag.attributes[i] {
            assert(all[i as int] == Some(attribute@));
            if is_name(&attribute.key, key) {
                return match &attribute.value {
                    Some(value) => Some(value.clone()),
                    None => None,
                };
            }
        }
        i = i + 1;
    }
    None
}

// ---------------------------------------------------------------------------
// What a document states.
// ---------------------------------------------------------------------------

/// A codec: its name, and whether it is known to run in software.
pub type Codec = (Seq<char>, bool);

/// Where in a document a reader stands.
pub struct Place {
    /// In the section of the decoders.
    pub in_decoders: bool,
    /// In this codec.
    pub current: Option<Codec>,
}

/// The place at the start of a document.
pub open spec fn outside() -> Place {
    Place { in_decoders: false, current: None }
}

/// The tag has this name.
pub open spec fn named(name: Seq<u8>, text: Seq<char>) -> bool {
    name == ascii_bytes(text)
}

/// The value of an attribute of a tag.
pub open spec fn value_in(tag: TagView, key: Seq<char>) -> Option<Seq<char>> {
    attribute_of(tag.attributes, ascii_bytes(key))
}

/// The codec runs in software: its name is one of the platform's own, or its tag says so.
pub open spec fn runs_in_software(name: Seq<char>, tag: TagView) -> bool {
    let lower = ascii_lowered(name);
    begins_with(lower, "omx.google."@) || begins_with(lower, "c2.android."@) || value_in(
        tag,
        "software-codec"@,
    ) == Some("true"@)
}

/// The codec that a tag opens.
pub open spec fn codec_of(tag: TagView) -> Option<Codec> {
    match value_in(tag, "name"@) {
        Some(name) => Some((name, runs_in_software(name, tag))),
        None => None,
    }
}

/// The place behind an event.
pub open spec fn after(place: Place, event: EventView) -> Place {
    match event {
        EventView::Open(tag) | EventView::Empty(tag) => if named(tag.name, "Decoders"@) {
            Place { in_decoders: true, ..place }
        } else if named(tag.name, "Encoders"@) {
            outside()
        } else if named(tag.name, "MediaCodec"@) && place.in_decoders {
            Place { current: codec_of(tag), ..place }
        } else {
            place
        },
        EventView::Close(name) => if named(name, "MediaCodec"@) {
            Place { current: None, ..place }
        } else if named(name, "Decoders"@) || named(name, "Encoders"@) {
            outside()
        } else {
            place
        },
        _ => place,
    }
}

/// The decoders that a codec is for a list of formats.
pub open spec fn decoders_for(codec: Option<Codec>, mimes: Option<Seq<char>>) -> Seq<DecoderView> {
    match (codec, mimes) {
        (Some(codec), Some(mimes)) => items(split(mimes, ',')).map_values(
            |mime: Seq<char>|
                DecoderView { name: codec.0, mime: ascii_lowered(mime), software: codec.1 },
        ),
        _ => Seq::empty(),
    }
}

/// The decoders that an event states.
pub open spec fn stated(place: Place, event: EventView) -> Seq<DecoderView> {
    match event {
        EventView::Open(tag) | EventView::Empty(tag) => if named(tag.name, "Decoders"@) || named(tag.name, "Encoders"@) {
            Seq::empty()
        } else if named(tag.name, "MediaCodec"@) && place.in_decoders {
            decoders_for(codec_of(tag), value_in(tag, "type"@))
        } else if named(tag.name, "Type"@) && place.in_decoders {
            decoders_for(place.current, value_in(tag, "name"@))
        } else {
            Seq::empty()
        },
        _ => Seq::empty(),
    }
}

/// The decoders that a document states from a place on, in order, up to its end.
pub open spec fn all_stated(place: Place, events: Seq<EventView>) -> Seq<DecoderView>
    decreases events.len(),
{
    if events.len() == 0 || is_last(events[0]) {
        Seq::empty()
    } else {
        stated(place, events[0]) + all_stated(after(place, events[0]), events.drop_first())
    }
}

/// The decoders of a document, each once, in the order in which they are stated.
pub open spec fn decoders_of(events: Seq<EventView>) -> Seq<DecoderView> {
    with_new(Seq::empty(), all_stated(outside(), events))
}

// ---------------------------------------------------------------------------
// Reading a document.
// ---------------------------------------------------------------------------

/// Whether the list holds the decoder.
fn holds_decoder(list: &Vec<Decoder>, decoder: &Decoder) -> (r: bool)
    ensures
        r == decoder_views(list@).contains(decoder@),
{
    let ghost all = decoder_views(list@);
    let mut i: usize = 0;
    while i < list.len()
        invariant
            all == decoder_views(list@),
            i <= all.len(),
            forall|j: int| 0 <= j < i ==> #[trigger] all[j] != decoder@,
        decreases all.len() - i,
    {
        assert(all[i as int] == list@[i as int]@);
        if list[i].software == decoder.software && same(
            list[i].name.as_str(),
            decoder.name.as_str(),
        ) && same(list[i].mime.as_str(), decoder.mime.as_str()) {
            return true;
        }
        i = i + 1;
    }
    false
}

/// Puts the decoders that a codec is for a list of formats behind the list, but for those that
/// it holds already.
fn add_decoder(out: &mut Vec<Decoder>, name: &str, mimes: &str, software: bool)
    ensures
        decoder_views(final(out)@) == with_new(
            decoder_views(old(out)@),
            decoders_for(Some((name@, software)), Some(mimes@)),
        ),
{
    let list = list_items(mimes, ',');
    let ghost before = decoder_views(out@);
    let ghost more = decoders_for(Some((name@, software)), Some(mimes@));
    let mut i: usize = 0;
    assert(more.take(0) =~= Seq::<DecoderView>::empty());
    while i < list.len()
        invariant
            slice_texts(list@) == items(split(mimes@, ',')),
            more == decoders_for(Some((name@, software)), Some(mimes@)),
            i <= list@.len(),
            more.len() == list@.len(),
            decoder_views(out@) == with_new(before, more.take(i as int)),
        decreases list@.len() - i,
    {
        let decoder = Decoder { name: name.to_owned(), mime: to_ascii_lower(list[i]), software };
        proof {
            assert(slice_texts(list@)[i as int] == list@[i as int]@);
            assert(more[i as int] == decoder@);
            assert(more.take(i + 1).drop_last() =~= more.take(i as int));
            assert(decoder_views(out@.push(decoder)) =~= decoder_views(out@).push(decoder@));
        }
        if !holds_decoder(out, &decoder) {
            out.push(decoder);
        }
        i = i + 1;
    }
    assert(more.take(more.len() as int) =~= more);
}

/// The codec that a tag opens.
fn open_codec(tag: &XmlTag) -> (r: Option<(String, bool)>)
    ensures
        codec_view(r) == codec_of(tag@),
{
    match attribute(tag, "name") {
        Some(name) => {
            let lower = to_ascii_lower(name.as_str());
            let software: bool = starts_with(lower.as_str(), "omx.google.") || starts_with(
                lower.as_str(),
                "c2.android.",
            ) || match attribute(tag, "software-codec") {
                Some(value) => same(value.as_str(), "true"),
                None => false,
            };
            Some((name, software))
        },
        None => None,
    }
}

/// The codec that a reader stands in.
pub open spec fn codec_view(codec: Option<(String, bool)>) -> Option<Codec> {
    match codec {
        Some(codec) => Some((codec.0@, codec.1)),
        None => None,
    }
}

/// Puts the decoders that a codec is for a list of formats behind the list, where both are
/// known.
fn add_stated(out: &mut Vec<Decoder>, codec: &Option<(String, bool)>, mimes: Option<String>)
    ensures
        decoder_views(final(out)@) == with_new(
            decoder_views(old(out)@),
            decoders_for(
                codec_view(*codec),
                match mimes {
                    Some(mimes) => Some(mimes@),
                    None => None,
                },
            ),
        ),
{
    match (codec, mimes) {
        (Some(codec), Some(mimes)) => {
            add_decoder(out, codec.0.as_str(), mimes.as_str(), codec.1);
        },
        _ => {},
    }
}

/// The decoders that the events of a document state, each once, in the order in which they are
/// stated.
pub fn decoders_from_events(events: &[XmlEvent]) -> (r: Vec<Decoder>)
    ensures
        decoder_views(r@) == decoders_of(event_views(events@)),
{
    let ghost all = event_views(events@);
    let ghost mut so_far = Seq::<DecoderView>::empty();
    let ghost mut place = outside();
    let mut out: Vec<Decoder> = Vec::new();
    let mut in_decoders: bool = false;
    let mut current: Option<(String, bool)> = None;
    let mut i: usize = 0;
    proof {
        assert(all.skip(0) =~= all);
        assert(decoder_views(out@) =~= Seq::<DecoderView>::empty());
        assert(so_far + all_stated(place, all) =~= all_stated(place, all));
    }
    while i < events.len()
        invariant
            all == event_views(events@),
            i <= all.len(),
            place == (Place { in_decoders, current: codec_view(current) }),
            all_stated(outside(), all) == so_far + all_stated(place, all.skip(i as int)),
            decoder_views(out@) == with_new(Seq::empty(), so_far),
        decreases all.len() - i,
    {
        let ghost event = events@[i as int]@;
        let ghost before = decoder_views(out@);
        assert(all[i as int] == event);
        match &events[i] {
            XmlEvent::Open(tag) | XmlEvent::Empty(tag) => {
                if is_name(&tag.name, "Decoders") {
                    in_decoders = true;
                } else if is_name(&tag.name, "Encoders") {
                    in_decoders = false;
                    current = None;
                } else if is_name(&tag.name, "MediaCodec") && in_decoders {
                    current = open_codec(tag);
                    add_stated(&mut out, &current, attribute(tag, "type"));
                } else if is_name(&tag.name, "Type") && in_decoders {
                    add_stated(&mut out, &current, attribute(tag, "name"));
                }
            },
            XmlEvent::Close(name) => {
                if is_name(name, "MediaCodec") {
                    current = None;
                } else if is_name(name, "Decoders") || is_name(name, "Encoders") {
                    in_decoders = false;
                    current = None;
                }
            },
            XmlEvent::Other => {},
            XmlEvent::End => {
                assert(so_far + all_stated(place, all.skip(i as int)) =~= so_far);
                return out;
            },
            XmlEvent::Failed => {
                assert(so_far + all_stated(place, all.skip(i as int)) =~= so_far);
                return out;
            },
        }
        proof {
            let rest = all.skip(i as int);
            assert(rest.drop_first() =~= all.skip(i + 1));
            let more = stated(place, event);
            assert(decoder_views(out@) == with_new(before, more));
            lemma_with_new_twice(Seq::empty(), so_far, more);
            assert(so_far + (more + all_stated(after(place, event), rest.drop_first()))
                =~= so_far + more + all_stated(after(place, event), rest.drop_first()));
            so_far = so_far + more;
            place = after(place, event);
        }
        i = i + 1;
    }
    assert(so_far + all_stated(place, all.skip(i as int)) =~= so_far);
    out
}

/// The decoders that codec configuration states. The text may hold several documents, one
/// behind the other: behind a closed document a text adds the decoders that it states itself,
/// in its order, but for those that the document has already; so a document that comes twice
/// adds nothing. What is not in the list may be there all the same: a file that others draw in
/// may be unreadable.
pub fn parse_media_codecs(xml: &str) -> (r: Vec<Decoder>)
    ensures
        decoder_views(r@) == decoders_of(xml_events(xml@)),
        forall|a: Seq<char>, b: Seq<char>|
            #![trigger xml_events(a), xml_events(b)]
            xml@ == a + b && is_document(xml_events(a)) && sections_are_closed(xml_events(a))
                ==> decoder_views(r@) == with_new(
                decoders_of(xml_events(a)),
                decoders_of(xml_events(b)),
            ),
        forall|a: Seq<char>|
            #![trigger xml_events(a)]
            xml@ == a + a && is_document(xml_events(a))
                && sections_are_closed(xml_events(a)) ==> decoder_views(r@) == decoders_of(
                xml_events(a),
            ),
{
    let events = read_events(xml);
    proof {
        let whole = xml_events(xml@);
        assert forall|a: Seq<char>, b: Seq<char>|
            #![trigger xml_events(a), xml_events(b)]
            xml@ == a + b && is_document(xml_events(a)) && sections_are_closed(
                xml_events(a),
            ) implies decoders_of(whole) == with_new(
            decoders_of(xml_events(a)),
            decoders_of(xml_events(b)),
        ) by {
            lemma_texts_are_read_one_by_one(whole, xml_events(a), xml_events(b));
        }
        assert forall|a: Seq<char>|
            #![trigger xml_events(a)]
            xml@ == a + a && is_document(xml_events(a)) && sections_are_closed(
                xml_events(a),
            ) implies decoders_of(whole) == decoders_of(xml_events(a)) by {
            let once = all_stated(outside(), xml_events(a));
            lemma_texts_are_read_one_by_one(whole, xml_events(a), xml_events(a));
            lemma_with_new(Seq::empty(), once);
            let list = decoders_of(xml_events(a));
            assert forall|i: int| 0 <= i < list.len() implies list.contains(#[trigger] list[i]) by {
            }
            lemma_nothing_new(list, list);
        }
    }
    decoders_from_events(events.as_slice())
}

// ---------------------------------------------------------------------------
// Laws.
// ---------------------------------------------------------------------------

/// The place behind a list of events.
pub open spec fn place_after(place: Place, events: Seq<EventView>) -> Place
    decreases events.len(),
{
    if events.len() == 0 {
        place
    } else {
        place_after(after(place, events[0]), events.drop_first())
    }
}

proof fn lemma_stated_apart(place: Place, a: Seq<EventView>, b: Seq<EventView>)
    requires
        forall|i: int| 0 <= i < a.len() ==> !is_last(#[trigger] a[i]),
    ensures
        all_stated(place, a + b) == all_stated(place, a) + all_stated(place_after(place, a), b),
    decreases a.len(),
{
    if a.len() == 0 {
        assert(a + b =~= b);
        assert(all_stated(place, a) + all_stated(place, b) =~= all_stated(place, b));
    } else {
        let first = a[0];
        let rest = a.drop_first();
        assert forall|i: int| 0 <= i < rest.len() implies !is_last(#[trigger] rest[i]) by {
            assert(rest[i] == a[i + 1]);
        }
        lemma_stated_apart(after(place, first), rest, b);
        assert((a + b)[0] == first);
        assert((a + b).drop_first() =~= rest + b);
        assert(stated(place, first) + (all_stated(after(place, first), rest) + all_stated(
            place_after(place, a),
            b,
        )) =~= stated(place, first) + all_stated(after(place, first), rest) + all_stated(
            place_after(place, a),
            b,
        ));
    }
}

/// No decoder is listed twice, each one that is stated is listed, and no other is.
pub proof fn each_stated_decoder_is_listed_once(events: Seq<EventView>)
    ensures
        decoders_of(events).no_duplicates(),
        forall|d: DecoderView| #[trigger]
            decoders_of(events).contains(d) <==> all_stated(outside(), events).contains(d),
{
    lemma_with_new(Seq::empty(), all_stated(outside(), events));
}

/// A document that is closed where it ends adds nothing when it comes a second time.
pub proof fn a_repeated_document_adds_nothing(document: Seq<EventView>, end: EventView)
    requires
        forall|i: int| 0 <= i < document.len() ==> !is_last(#[trigger] document[i]),
        place_after(outside(), document) == outside(),
        is_last(end),
    ensures
        decoders_of(document + document + seq![end]) == decoders_of(document + seq![end]),
{
    let tail = seq![end];
    let once = all_stated(outside(), document);
    let empty = Seq::<DecoderView>::empty();
    lemma_stated_apart(outside(), document, tail);
    lemma_stated_apart(outside(), document, document + tail);
    assert(document + document + tail =~= document + (document + tail));
    assert(all_stated(outside(), tail) =~= empty);
    assert(once + empty =~= once);
    lemma_with_new_twice(empty, once, once);
    lemma_with_new(empty, once);
    assert forall|i: int| 0 <= i < once.len() implies with_new(empty, once).contains(
        #[trigger] once[i],
    ) by {
        assert(once.contains(once[i]));
    }
    lemma_nothing_new(with_new(empty, once), once);
}

/// Documents one behind the other are read one by one, where each is closed before the next
/// begins: the decoders of the first in their order, then those of the second in theirs, but
/// for what the first has already.
pub proof fn documents_are_read_one_by_one(first: Seq<EventView>, second: Seq<EventView>)
    requires
        forall|i: int| 0 <= i < first.len() ==> !is_last(#[trigger] first[i]),
        place_after(outside(), first) == outside(),
    ensures
        decoders_of(first + second) == with_new(decoders_of(first), decoders_of(second)),
{
    let a = all_stated(outside(), first);
    let b = all_stated(outside(), second);
    lemma_stated_apart(outside(), first, second);
    lemma_with_new_twice(Seq::empty(), a, b);
    lemma_repeats_add_nothing(decoders_of(first), b);
}

/// The event opens a section of decoders.
pub open spec fn opens_section(event: EventView) -> bool {
    match event {
        EventView::Open(tag) | EventView::Empty(tag) => named(tag.name, "Decoders"@),
        _ => false,
    }
}

/// The event is a section of decoders that closes itself. Nothing closes what it opens.
pub open spec fn is_empty_section(event: EventView) -> bool {
    event is Empty && opens_section(event)
}

/// No section of decoders among the events closes itself.
pub open spec fn sections_are_closed(events: Seq<EventView>) -> bool {
    forall|i: int| 0 <= i < events.len() ==> !is_empty_section(#[trigger] events[i])
}

proof fn lemma_place_step(place: Place, events: Seq<EventView>)
    requires
        events.len() > 0,
    ensures
        place_after(place, events) == after(place_after(place, events.drop_last()), events.last()),
    decreases events.len(),
{
    if events.len() == 1 {
        assert(events.drop_first() =~= Seq::<EventView>::empty());
        assert(events.drop_last() =~= Seq::<EventView>::empty());
        reveal_with_fuel(place_after, 2);
    } else {
        let rest = events.drop_first();
        lemma_place_step(after(place, events[0]), rest);
        assert(events.drop_last()[0] == events[0]);
        assert(events.drop_last().drop_first() =~= rest.drop_last());
    }
}

/// A reader stands in a section of decoders only while an element of that name is open, and in
/// a codec only while it stands in a section.
proof fn lemma_place_is_open(events: Seq<EventView>)
    requires
        sections_are_closed(events),
        open_elements(events) is Some,
    ensures
        ({
            let place = place_after(outside(), events);
            &&& place.in_decoders ==> open_elements(events)->Some_0.contains(
                ascii_bytes("Decoders"@),
            )
            &&& place.current is Some ==> place.in_decoders
        }),
    decreases events.len(),
{
    if events.len() > 0 {
        let front = events.drop_last();
        let event = events.last();
        assert(events[events.len() - 1] == event);
        assert(sections_are_closed(front)) by {
            assert forall|i: int| 0 <= i < front.len() implies !is_empty_section(
                #[trigger] front[i],
            ) by {
                assert(front[i] == events[i]);
            }
        }
        lemma_place_is_open(front);
        lemma_place_step(outside(), events);
        let section = ascii_bytes("Decoders"@);
        let open = open_elements(front)->Some_0;
        reveal_strlit("Decoders");
        reveal_strlit("MediaCodec");
        assert(section.len() == 8);
        assert(ascii_bytes("MediaCodec"@).len() == 10);
        match event {
            EventView::Open(tag) => {
                lemma_contains_push(open, tag.name, section);
            },
            EventView::Close(name) => {
                assert(open =~= open.drop_last().push(name));
                lemma_contains_push(open.drop_last(), name, section);
            },
            _ => {},
        }
    }
}

/// A document whose elements are closed where they belong, and in which no section of decoders
/// closes itself, is left as it was entered: outside of every section.
pub proof fn a_closed_document_ends_outside(events: Seq<EventView>)
    requires
        open_elements(events) == Some(Seq::<Seq<u8>>::empty()),
        sections_are_closed(events),
    ensures
        place_after(outside(), events) == outside(),
{
    lemma_place_is_open(events);
}

/// Text, comments and the like state nothing.
proof fn lemma_telling(place: Place, events: Seq<EventView>)
    ensures
        all_stated(place, telling(events)) == all_stated(place, events),
    decreases events.len(),
{
    if events.len() > 0 {
        let first = events[0];
        let rest = events.drop_first();
        lemma_telling(after(place, first), rest);
        if first is Other {
            assert(stated(place, first) + all_stated(place, rest) =~= all_stated(place, rest));
        } else {
            assert(telling(events)[0] == first);
            assert(telling(events).drop_first() =~= telling(rest));
        }
    }
}

proof fn lemma_telling_place(place: Place, events: Seq<EventView>)
    requires
        forall|i: int| 0 <= i < events.len() ==> !is_last(#[trigger] events[i]),
    ensures
        place_after(place, telling(events)) == place_after(place, events),
        forall|i: int| 0 <= i < telling(events).len() ==> !is_last(#[trigger] telling(events)[i]),
    decreases events.len(),
{
    if events.len() > 0 {
        let first = events[0];
        let rest = events.drop_first();
        assert forall|i: int| 0 <= i < rest.len() implies !is_last(#[trigger] rest[i]) by {
            assert(rest[i] == events[i + 1]);
        }
        lemma_telling_place(after(place, first), rest);
        if !(first is Other) {
            assert(telling(events)[0] == first);
            assert(telling(events).drop_first() =~= telling(rest));
            assert forall|i: int| 0 <= i < telling(events).len() implies !is_last(
                #[trigger] telling(events)[i],
            ) by {
                if i > 0 {
                    assert(telling(events)[i] == telling(rest)[i - 1]);
                }
            }
        }
    }
}

/// Where the telling events of a text are those of a closed document and then those of another
/// text, the decoders are those of the first and then the new ones of the second.
proof fn lemma_texts_are_read_one_by_one(
    whole: Seq<EventView>,
    first: Seq<EventView>,
    second: Seq<EventView>,
)
    requires
        is_document(first),
        sections_are_closed(first),
        telling(whole) == telling(first.drop_last()) + telling(second),
    ensures
        decoders_of(whole) == with_new(decoders_of(first), decoders_of(second)),
{
    let body = first.drop_last();
    assert forall|i: int| 0 <= i < body.len() implies !is_last(#[trigger] body[i])
        && !is_empty_section(body[i]) by {
        assert(body[i] == first[i]);
    }
    a_closed_document_ends_outside(body);
    lemma_telling_place(outside(), body);
    lemma_telling(outside(), whole);
    lemma_telling(outside(), body);
    lemma_telling(outside(), second);
    documents_are_read_one_by_one(telling(body), telling(second));
    assert(all_stated(outside(), first) == all_stated(outside(), body)) by {
        let end = seq![first.last()];
        assert(first =~= body + end);
        lemma_stated_apart(outside(), body, end);
        assert(all_stated(outside(), body) + all_stated(outside(), end) =~= all_stated(
            outside(),
            body,
        ));
    }
}

/// A document without a section of decoders lists none: neither encoders nor what is no XML
/// are taken for decoders.
pub proof fn no_section_no_decoders(events: Seq<EventView>)
    requires
        forall|i: int| 0 <= i < events.len() ==> !opens_section(#[trigger] events[i]),
    ensures
        decoders_of(events).len() == 0,
{
    lemma_no_section(outside(), events);
}

proof fn lemma_no_section(place: Place, events: Seq<EventView>)
    requires
        !place.in_decoders,
        forall|i: int| 0 <= i < events.len() ==> !opens_section(#[trigger] events[i]),
    ensures
        all_stated(place, events).len() == 0,
    decreases events.len(),
{
    if events.len() > 0 && !is_last(events[0]) {
        let rest = events.drop_first();
        assert forall|i: int| 0 <= i < rest.len() implies !opens_section(#[trigger] rest[i]) by {
            assert(rest[i] == events[i + 1]);
        }
        lemma_no_section(after(place, events[0]), rest);
    }
}

/// The bytes spell the ASCII text, character by character.
pub open spec fn spells(bytes: Seq<u8>, text: Seq<char>) -> bool {
    &&& bytes.len() == text.len()
    &&& forall|i: int| 0 <= i < text.len() ==> #[trigger] bytes[i] == text[i] as u8
}

/// The attribute could be read and has this name.
pub open spec fn is_attribute(attribute: Option<AttributeView>, key: Seq<char>) -> bool {
    attribute matches Some(attribute) && spells(attribute.key, key)
}

/// The tag gives the attribute this value: so says the first attribute of the name.
pub open spec fn gives(tag: TagView, key: Seq<char>, value: Seq<char>) -> bool {
    exists|i: int|
        0 <= i < tag.attributes.len() && is_attribute(#[trigger] tag.attributes[i], key)
            && tag.attributes[i]->Some_0.value == Some(value) && forall|j: int|
            0 <= j < i ==> !is_attribute(#[trigger] tag.attributes[j], key)
}

proof fn lemma_spells(bytes: Seq<u8>, text: Seq<char>)
    ensures
        spells(bytes, text) <==> bytes == ascii_bytes(text),
{
    if spells(bytes, text) {
        assert(bytes =~= ascii_bytes(text));
    }
}

proof fn lemma_gives(attributes: Seq<Option<AttributeView>>, key: Seq<char>, value: Seq<char>)
    ensures
        attribute_of(attributes, ascii_bytes(key)) == Some(value) <==> gives(
            (TagView { name: Seq::empty(), attributes }),
            key,
            value,
        ),
    decreases attributes.len(),
{
    let tag = TagView { name: Seq::empty(), attributes };
    if attributes.len() > 0 {
        let rest = attributes.drop_first();
        let rest_tag = TagView { name: Seq::empty(), attributes: rest };
        lemma_gives(rest, key, value);
        if attributes[0] is Some {
            lemma_spells(attributes[0]->Some_0.key, key);
        }
        if is_attribute(attributes[0], key) {
            if attributes[0]->Some_0.value == Some(value) {
                assert(gives(tag, key, value));
            }
            if gives(tag, key, value) {
                let i = choose|i: int|
                    0 <= i < attributes.len() && is_attribute(#[trigger] attributes[i], key)
                        && attributes[i]->Some_0.value == Some(value) && forall|j: int|
                        0 <= j < i ==> !is_attribute(#[trigger] attributes[j], key);
                assert(i == 0);
            }
        } else {
            if gives(rest_tag, key, value) {
                let i = choose|i: int|
                    0 <= i < rest.len() && is_attribute(#[trigger] rest[i], key)
                        && rest[i]->Some_0.value == Some(value) && forall|j: int|
                        0 <= j < i ==> !is_attribute(#[trigger] rest[j], key);
                assert(attributes[i + 1] == rest[i]);
                assert forall|j: int| 0 <= j < i + 1 implies !is_attribute(
                    #[trigger] attributes[j],
                    key,
                ) by {
                    if j > 0 {
                        assert(rest[j - 1] == attributes[j]);
                    }
                }
            }
            if gives(tag, key, value) {
                let i = choose|i: int|
                    0 <= i < attributes.len() && is_attribute(#[trigger] attributes[i], key)
                        && attributes[i]->Some_0.value == Some(value) && forall|j: int|
                        0 <= j < i ==> !is_attribute(#[trigger] attributes[j], key);
                assert(rest[i - 1] == attributes[i]);
                assert forall|j: int| 0 <= j < i - 1 implies !is_attribute(
                    #[trigger] rest[j],
                    key,
                ) by {
                    assert(rest[j] == attributes[j + 1]);
                }
            }
        }
    }
}

/// An attribute is looked up by its name: the value is that of the first attribute of the name
/// that could be read, and there is none where its value could not be decoded.
pub proof fn the_first_attribute_of_a_name_counts(tag: TagView, key: Seq<char>, value: Seq<char>)
    ensures
        value_in(tag, key) == Some(value) <==> gives(tag, key, value),
{
    lemma_gives(tag.attributes, key, value);
}

/// The event is an opening tag of this name, or a tag of it that closes itself.
pub open spec fn is_tag(event: EventView, name: Seq<char>) -> bool {
    match event {
        EventView::Open(tag) | EventView::Empty(tag) => spells(tag.name, name),
        _ => false,
    }
}

/// The tag of an event that has one.
pub open spec fn tag_of(event: EventView) -> TagView {
    match event {
        EventView::Open(tag) => tag,
        EventView::Empty(tag) => tag,
        _ => TagView { name: Seq::empty(), attributes: Seq::empty() },
    }
}

/// The event is a closing tag of this name.
pub open spec fn is_closing(event: EventView, name: Seq<char>) -> bool {
    event matches EventView::Close(bytes) && spells(bytes, name)
}

/// The codec is one that runs in software: its name, in lower case, begins like those of the
/// platform's own, or the tag says it of itself.
pub open spec fn says_software(name: Seq<char>, tag: TagView) -> bool {
    ||| begins_with(ascii_lowered(name), "omx.google."@)
    ||| begins_with(ascii_lowered(name), "c2.android."@)
    ||| gives(tag, "software-codec"@, "true"@)
}

/// The format is one of a list with commas, in lower case and without white space round it.
pub open spec fn is_on_list(mime: Seq<char>, list: Seq<char>) -> bool {
    exists|k: int|
        0 <= k < split(list, ',').len() && trimmed(#[trigger] split(list, ',')[k]).len() > 0 && mime
            == ascii_lowered(trimmed(split(list, ',')[k]))
}

proof fn lemma_on_list(codec: Codec, list: Seq<char>, d: DecoderView)
    ensures
        decoders_for(Some(codec), Some(list)).contains(d) <==> {
            &&& d.name == codec.0
            &&& d.software == codec.1
            &&& is_on_list(d.mime, list)
        },
{
    broadcast use vstd::seq_lib::group_filter_ensures;

    let pieces = split(list, ',');
    let trimmed_pieces = pieces.map_values(|piece: Seq<char>| trimmed(piece));
    let says = |item: Seq<char>| item.len() > 0;
    let all = decoders_for(Some(codec), Some(list));
    items_are_the_pieces_that_say_something(pieces);
    if all.contains(d) {
        let k = choose|k: int| 0 <= k < all.len() && all[k] == d;
        let item = items(pieces)[k];
        lemma_filtered(trimmed_pieces, says, k);
        let m = choose|m: int| 0 <= m < trimmed_pieces.len() && trimmed_pieces[m] == item;
        assert(trimmed(pieces[m]) == item);
        assert(says(trimmed_pieces.filter(says)[k]));
    }
    if d.name == codec.0 && d.software == codec.1 && is_on_list(d.mime, list) {
        let m = choose|m: int|
            0 <= m < pieces.len() && trimmed(#[trigger] pieces[m]).len() > 0 && d.mime
                == ascii_lowered(trimmed(pieces[m]));
        assert(says(trimmed_pieces[m]));
        assert(trimmed_pieces.filter(says).contains(trimmed_pieces[m]));
        let k = choose|k: int|
            0 <= k < items(pieces).len() && items(pieces)[k] == trimmed_pieces[m];
        assert(all[k] == d);
    }
}

proof fn lemma_filtered(list: Seq<Seq<char>>, says: spec_fn(Seq<char>) -> bool, k: int)
    requires
        0 <= k < list.filter(says).len(),
    ensures
        list.contains(list.filter(says)[k]),
    decreases list.len(),
{
    reveal(Seq::filter);
    if list.len() > 0 {
        let front = list.drop_last();
        assert(list =~= front.push(list.last()));
        if k < front.filter(says).len() {
            lemma_filtered(front, says, k);
            lemma_contains_push(front, list.last(), list.filter(says)[k]);
        } else {
            lemma_contains_push(front, list.last(), list.last());
        }
    }
}

proof fn lemma_tag_names(bytes: Seq<u8>)
    ensures
        spells(bytes, "Decoders"@) ==> !spells(bytes, "Encoders"@) && !spells(bytes, "MediaCodec"@)
            && !spells(bytes, "Type"@),
        spells(bytes, "Encoders"@) ==> !spells(bytes, "MediaCodec"@) && !spells(bytes, "Type"@),
        spells(bytes, "MediaCodec"@) ==> !spells(bytes, "Type"@),
        named(bytes, "Decoders"@) <==> spells(bytes, "Decoders"@),
        named(bytes, "Encoders"@) <==> spells(bytes, "Encoders"@),
        named(bytes, "MediaCodec"@) <==> spells(bytes, "MediaCodec"@),
        named(bytes, "Type"@) <==> spells(bytes, "Type"@),
{
    reveal_strlit("Decoders");
    reveal_strlit("Encoders");
    reveal_strlit("MediaCodec");
    reveal_strlit("Type");
    assert("Decoders"@[0] == 'D');
    assert("Encoders"@[0] == 'E');
    assert('D' as u8 != 'E' as u8);
    assert("Decoders"@.len() == 8 && "Encoders"@.len() == 8 && "MediaCodec"@.len() == 10
        && "Type"@.len() == 4);
    lemma_spells(bytes, "Decoders"@);
    lemma_spells(bytes, "Encoders"@);
    lemma_spells(bytes, "MediaCodec"@);
    lemma_spells(bytes, "Type"@);
    if spells(bytes, "Decoders"@) && spells(bytes, "Encoders"@) {
        assert(bytes[0] == "Decoders"@[0] as u8);
        assert(bytes[0] == "Encoders"@[0] as u8);
    }
}

/// A codec of the section of the decoders is listed for each format of its type: under its own
/// name, and as software if and only if its name begins like those of the platform's own, or
/// its tag says so. Without a name or a type it is listed for none.
pub proof fn a_codec_is_listed_as_its_tag_says(place: Place, event: EventView, d: DecoderView)
    requires
        place.in_decoders,
        is_tag(event, "MediaCodec"@),
    ensures
        stated(place, event).contains(d) <==> {
            &&& gives(tag_of(event), "name"@, d.name)
            &&& exists|list: Seq<char>| #[trigger]
                gives(tag_of(event), "type"@, list) && is_on_list(d.mime, list)
            &&& d.software <==> says_software(d.name, tag_of(event))
        },
{
    let tag = tag_of(event);
    lemma_tag_names(tag.name);
    assert forall|value: Seq<char>| #[trigger]
        gives(tag, "name"@, value) <==> value_in(tag, "name"@) == Some(value) by {
        the_first_attribute_of_a_name_counts(tag, "name"@, value);
    }
    assert forall|value: Seq<char>| #[trigger]
        gives(tag, "type"@, value) <==> value_in(tag, "type"@) == Some(value) by {
        the_first_attribute_of_a_name_counts(tag, "type"@, value);
    }
    the_first_attribute_of_a_name_counts(tag, "software-codec"@, "true"@);
    if value_in(tag, "name"@) is Some && value_in(tag, "type"@) is Some {
        let name = value_in(tag, "name"@)->Some_0;
        let list = value_in(tag, "type"@)->Some_0;
        assert(gives(tag, "name"@, name));
        assert(gives(tag, "type"@, list));
        lemma_on_list(codec_of(tag)->Some_0, list, d);
    }
}

/// A format that stands inside a codec is listed for that codec: under the name of the codec,
/// and as software if and only if the codec is.
pub proof fn a_format_belongs_to_its_codec(place: Place, event: EventView, d: DecoderView)
    requires
        place.in_decoders,
        is_tag(event, "Type"@),
    ensures
        stated(place, event).contains(d) <==> {
            &&& place.current == Some((d.name, d.software))
            &&& exists|list: Seq<char>| #[trigger]
                gives(tag_of(event), "name"@, list) && is_on_list(d.mime, list)
        },
{
    let tag = tag_of(event);
    lemma_tag_names(tag.name);
    assert forall|value: Seq<char>| #[trigger]
        gives(tag, "name"@, value) <==> value_in(tag, "name"@) == Some(value) by {
        the_first_attribute_of_a_name_counts(tag, "name"@, value);
    }
    if place.current is Some && value_in(tag, "name"@) is Some {
        let list = value_in(tag, "name"@)->Some_0;
        assert(gives(tag, "name"@, list));
        lemma_on_list(place.current->Some_0, list, d);
    }
}

/// Outside of the section of the decoders nothing is listed, and nothing but a codec or a
/// format is.
pub proof fn nothing_else_is_listed(place: Place, event: EventView)
    ensures
        !place.in_decoders || !(is_tag(event, "MediaCodec"@) || is_tag(event, "Type"@)) ==> stated(
            place,
            event,
        ).len() == 0,
{
    lemma_tag_names(tag_of(event).name);
}

/// The event ends a section of decoders.
pub open spec fn ends_section(event: EventView) -> bool {
    ||| is_tag(event, "Encoders"@)
    ||| is_closing(event, "Decoders"@)
    ||| is_closing(event, "Encoders"@)
}

/// A section of decoders was opened at the event and not ended since.
pub open spec fn section_since(events: Seq<EventView>, i: int) -> bool {
    &&& 0 <= i < events.len()
    &&& is_tag(events[i], "Decoders"@)
    &&& forall|j: int| i < j < events.len() ==> !ends_section(#[trigger] events[j])
}

/// A codec was opened at the event, in a section of decoders, and neither it nor the section was
/// ended since, nor another codec opened.
pub open spec fn codec_since(events: Seq<EventView>, i: int) -> bool {
    &&& 0 <= i < events.len()
    &&& is_tag(events[i], "MediaCodec"@)
    &&& place_after(outside(), events.take(i)).in_decoders
    &&& forall|j: int|
        i < j < events.len() ==> !ends_section(#[trigger] events[j]) && !is_closing(
            events[j],
            "MediaCodec"@,
        ) && !is_tag(events[j], "MediaCodec"@)
}

/// A reader stands in the section of the decoders if and only if a tag opened one and nothing
/// ended it since.
pub proof fn a_section_lasts_until_it_is_ended(events: Seq<EventView>)
    ensures
        place_after(outside(), events).in_decoders <==> exists|i: int| section_since(events, i),
    decreases events.len(),
{
    if events.len() > 0 {
        let front = events.drop_last();
        let last = events.len() - 1;
        let event = events.last();
        a_section_lasts_until_it_is_ended(front);
        lemma_place_step(outside(), events);
        lemma_tag_names(tag_of(event).name);
        if event is Close {
            lemma_tag_names(event->Close_0);
        }
        assert(events[last] == event);
        if is_tag(event, "Decoders"@) {
            assert(section_since(events, last));
        } else if ends_section(event) {
            assert forall|i: int| !section_since(events, i) by {
                if section_since(events, i) {
                    assert(i < last);
                }
            }
        } else {
            assert forall|i: int| section_since(events, i) <==> section_since(front, i) by {
                if section_since(events, i) {
                    assert(i != last);
                    assert(front[i] == events[i]);
                    assert forall|j: int| i < j < front.len() implies !ends_section(
                        #[trigger] front[j],
                    ) by {
                        assert(front[j] == events[j]);
                    }
                }
                if section_since(front, i) {
                    assert(front[i] == events[i]);
                    assert forall|j: int| i < j < events.len() implies !ends_section(
                        #[trigger] events[j],
                    ) by {
                        if j < last {
                            assert(front[j] == events[j]);
                        }
                    }
                }
            }
            if exists|i: int| section_since(front, i) {
                let i = choose|i: int| section_since(front, i);
                assert(section_since(events, i));
            }
            if exists|i: int| section_since(events, i) {
                let i = choose|i: int| section_since(events, i);
                assert(section_since(front, i));
            }
        }
    }
}

/// A reader stands in a codec if and only if a tag with a name opened it in the section of the
/// decoders and nothing ended it since; then the codec has the name of the tag, and is known to
/// run in software if and only if the tag says so or the name does.
pub proof fn a_codec_lasts_until_it_is_ended(events: Seq<EventView>, name: Seq<char>, software: bool)
    ensures
        place_after(outside(), events).current == Some((name, software)) <==> exists|i: int|
            #[trigger] codec_since(events, i) && gives(tag_of(events[i]), "name"@, name) && software
                == says_software(name, tag_of(events[i])),
    decreases events.len(),
{
    if events.len() > 0 {
        let front = events.drop_last();
        let last = events.len() - 1;
        let event = events.last();
        let before = place_after(outside(), front);
        a_codec_lasts_until_it_is_ended(front, name, software);
        lemma_place_step(outside(), events);
        lemma_tag_names(tag_of(event).name);
        if event is Close {
            lemma_tag_names(event->Close_0);
        }
        assert(events[last] == event);
        assert(events.take(last) =~= front);
        let tag = tag_of(event);
        the_first_attribute_of_a_name_counts(tag, "name"@, name);
        the_first_attribute_of_a_name_counts(tag, "software-codec"@, "true"@);
        if is_tag(event, "MediaCodec"@) && before.in_decoders {
            assert(codec_since(events, last));
            assert forall|i: int| codec_since(events, i) implies i == last by {}
        } else if ends_section(event) || is_closing(event, "MediaCodec"@) {
            assert forall|i: int| !codec_since(events, i) by {
                if codec_since(events, i) {
                    assert(i < last);
                }
            }
        } else {
            assert forall|i: int| codec_since(events, i) <==> codec_since(front, i) by {
                if codec_since(events, i) {
                    assert(i != last);
                    assert(front[i] == events[i]);
                    assert(front.take(i) =~= events.take(i));
                    assert forall|j: int| i < j < front.len() implies !ends_section(
                        #[trigger] front[j],
                    ) && !is_closing(front[j], "MediaCodec"@) && !is_tag(front[j], "MediaCodec"@) by {
                        assert(front[j] == events[j]);
                    }
                }
                if codec_since(front, i) {
                    assert(front[i] == events[i]);
                    assert(front.take(i) =~= events.take(i));
                    lemma_still_in_section(front, i);
                    assert(!is_tag(event, "MediaCodec"@));
                    assert forall|j: int| i < j < events.len() implies !ends_section(
                        #[trigger] events[j],
                    ) && !is_closing(events[j], "MediaCodec"@) && !is_tag(
                        events[j],
                        "MediaCodec"@,
                    ) by {
                        if j < last {
                            assert(front[j] == events[j]);
                        }
                    }
                }
            }
            if exists|i: int|
                #[trigger] codec_since(front, i) && gives(tag_of(front[i]), "name"@, name)
                    && software == says_software(name, tag_of(front[i])) {
                let i = choose|i: int|
                    #[trigger] codec_since(front, i) && gives(tag_of(front[i]), "name"@, name)
                        && software == says_software(name, tag_of(front[i]));
                assert(front[i] == events[i]);
                assert(codec_since(events, i));
            }
            if exists|i: int|
                #[trigger] codec_since(events, i) && gives(tag_of(events[i]), "name"@, name)
                    && software == says_software(name, tag_of(events[i])) {
                let i = choose|i: int|
                    #[trigger] codec_since(events, i) && gives(tag_of(events[i]), "name"@, name)
                        && software == says_software(name, tag_of(events[i]));
                assert(codec_since(front, i));
                assert(front[i] == events[i]);
            }
        }
    }
}

/// The section in which a codec was opened is still open while the codec is.
proof fn lemma_still_in_section(events: Seq<EventView>, i: int)
    requires
        codec_since(events, i),
    ensures
        place_after(outside(), events).in_decoders,
{
    let opened = events.take(i);
    a_section_lasts_until_it_is_ended(opened);
    a_section_lasts_until_it_is_ended(events);
    let k = choose|k: int| section_since(opened, k);
    assert(opened[k] == events[k]);
    lemma_tag_names(tag_of(events[i]).name);
    assert forall|j: int| k < j < events.len() implies !ends_section(#[trigger] events[j]) by {
        if j < i {
            assert(opened[j] == events[j]);
        }
    }
    assert(section_since(events, k));
}

/// The decoder is stated at the event, which is read: nothing before it ends the reading.
pub open spec fn stated_at(events: Seq<EventView>, i: int, d: DecoderView) -> bool {
    &&& 0 <= i < events.len()
    &&& forall|j: int| 0 <= j <= i ==> !((#[trigger] events[j]) is End) && !(events[j] is Failed)
    &&& stated(place_after(outside(), events.take(i)), events[i]).contains(d)
}

proof fn lemma_stated_somewhere(place: Place, events: Seq<EventView>, d: DecoderView)
    ensures
        all_stated(place, events).contains(d) <==> exists|i: int|
            0 <= i < events.len() && (forall|j: int| 0 <= j <= i ==> !is_last(#[trigger] events[j]))
                && stated(#[trigger] place_after(place, events.take(i)), events[i]).contains(d),
    decreases events.len(),
{
    if events.len() > 0 && !is_last(events[0]) {
        let rest = events.drop_first();
        let next = after(place, events[0]);
        lemma_stated_somewhere(next, rest, d);
        lemma_contains_add(stated(place, events[0]), all_stated(next, rest), d);
        assert(events.take(0) =~= Seq::<EventView>::empty());
        assert(place_after(place, events.take(0)) == place);
        assert forall|i: int| 0 <= i < rest.len() implies place_after(
            place,
            #[trigger] events.take(i + 1),
        ) == place_after(next, rest.take(i)) by {
            assert(events.take(i + 1)[0] == events[0]);
            assert(events.take(i + 1).drop_first() =~= rest.take(i));
        }
        if all_stated(next, rest).contains(d) {
            let i = choose|i: int|
                0 <= i < rest.len() && (forall|j: int| 0 <= j <= i ==> !is_last(#[trigger] rest[j]))
                    && stated(#[trigger] place_after(next, rest.take(i)), rest[i]).contains(d);
            assert(place_after(place, events.take(i + 1)) == place_after(next, rest.take(i)));
            assert(events[i + 1] == rest[i]);
            assert forall|j: int| 0 <= j <= i + 1 implies !is_last(#[trigger] events[j]) by {
                if j > 0 {
                    assert(rest[j - 1] == events[j]);
                }
            }
        }
        if exists|i: int|
            0 <= i < events.len() && (forall|j: int| 0 <= j <= i ==> !is_last(#[trigger] events[j]))
                && stated(#[trigger] place_after(place, events.take(i)), events[i]).contains(d) {
            let i = choose|i: int|
                0 <= i < events.len() && (forall|j: int|
                    0 <= j <= i ==> !is_last(#[trigger] events[j])) && stated(
                    #[trigger] place_after(place, events.take(i)),
                    events[i],
                ).contains(d);
            if i > 0 {
                assert(place_after(place, events.take(i - 1 + 1)) == place_after(
                    next,
                    rest.take(i - 1),
                ));
                assert(rest[i - 1] == events[i]);
                assert forall|j: int| 0 <= j <= i - 1 implies !is_last(#[trigger] rest[j]) by {
                    assert(rest[j] == events[j + 1]);
                }
            }
        }
    }
}

/// A document lists a decoder if and only if one of its events, up to where the reading ends,
/// states it where the reader then stands.
pub proof fn a_document_lists_what_its_events_state(events: Seq<EventView>, d: DecoderView)
    ensures
        decoders_of(events).contains(d) <==> exists|i: int| stated_at(events, i, d),
{
    each_stated_decoder_is_listed_once(events);
    lemma_stated_somewhere(outside(), events, d);
    if exists|i: int| stated_at(events, i, d) {
        let i = choose|i: int| stated_at(events, i, d);
        assert forall|j: int| 0 <= j <= i implies !is_last(#[trigger] events[j]) by {
            assert(!(events[j] is End) && !(events[j] is Failed));
        }
        assert(stated(place_after(outside(), events.take(i)), events[i]).contains(d));
    }
    if decoders_of(events).contains(d) {
        let i = choose|i: int|
            0 <= i < events.len() && (forall|j: int| 0 <= j <= i ==> !is_last(#[trigger] events[j]))
                && stated(#[trigger] place_after(outside(), events.take(i)), events[i]).contains(d);
        assert(stated_at(events, i, d));
    }
}

/// What a document states first comes first: however it goes on, the decoders that were listed
/// stay where they are, and new ones come behind them.
pub proof fn what_is_stated_first_comes_first(first: Seq<EventView>, rest: Seq<EventView>)
    requires
        forall|i: int| 0 <= i < first.len() ==> !is_last(#[trigger] first[i]),
    ensures
        decoders_of(first).len() <= decoders_of(first + rest).len(),
        decoders_of(first + rest).take(decoders_of(first).len() as int) == decoders_of(first),
{
    let a = all_stated(outside(), first);
    let b = all_stated(place_after(outside(), first), rest);
    lemma_stated_apart(outside(), first, rest);
    lemma_with_new_twice(Seq::empty(), a, b);
    let _ = new_items_come_in_their_order(decoders_of(first), b);
}

/// A codec is listed for its formats in the order in which they stand in its list.
pub proof fn formats_come_in_the_order_of_the_list(name: Seq<char>, software: bool, list: Seq<char>)
    ensures
        decoders_for(Some((name, software)), Some(list)) == split(list, ',').map_values(
            |piece: Seq<char>| trimmed(piece),
        ).filter(|item: Seq<char>| item.len() > 0).map_values(
            |item: Seq<char>| DecoderView { name, mime: ascii_lowered(item), software },
        ),
{
    items_are_the_pieces_that_say_something(split(list, ','));
    assert(decoders_for(Some((name, software)), Some(list)) =~= items(split(list, ',')).map_values(
        |item: Seq<char>| DecoderView { name, mime: ascii_lowered(item), software },
    ));
}

} // verus!
