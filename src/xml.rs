use vstd::prelude::*;

verus! {

/// A message of the push platform's inbound webhook; each field is `None`
/// until the message sets it.
pub struct UniversMessage {
    pub from: Option<String>,
    pub to: Option<String>,
    pub content: Option<String>,
    pub msg_type: Option<String>,
    pub event: Option<String>,
    pub event_key: Option<String>,
}

pub struct MessageView {
    pub from: Option<Seq<char>>,
    pub to: Option<Seq<char>>,
    pub content: Option<Seq<char>>,
    pub msg_type: Option<Seq<char>>,
    pub event: Option<Seq<char>>,
    pub event_key: Option<Seq<char>>,
}

pub open spec fn opt_view(o: Option<String>) -> Option<Seq<char>> {
    match o {
        Some(s) => Some(s@),
        None => None,
    }
}

impl View for UniversMessage {
    type V = MessageView;

    open spec fn view(&self) -> MessageView {
        MessageView {
            from: opt_view(self.from),
            to: opt_view(self.to),
            content: opt_view(self.content),
            msg_type: opt_view(self.msg_type),
            event: opt_view(self.event),
            event_key: opt_view(self.event_key),
        }
    }
}

/// The message after the character data `v` of element `tag` was read: the
/// elements `MsgType`, `Content`, `ToUserName`, `FromUserName`, `Event` and
/// `EventKey` set their field; any other element changes nothing.
pub open spec fn with_cdata(m: MessageView, tag: Seq<char>, v: Seq<char>) -> MessageView {
    if tag == "MsgType"@ {
        MessageView { msg_type: Some(v), ..m }
    } else if tag == "Content"@ {
        MessageView { content: Some(v), ..m }
    } else if tag == "ToUserName"@ {
        MessageView { to: Some(v), ..m }
    } else if tag == "FromUserName"@ {
        MessageView { from: Some(v), ..m }
    } else if tag == "Event"@ {
        MessageView { event: Some(v), ..m }
    } else if tag == "EventKey"@ {
        MessageView { event_key: Some(v), ..m }
    } else {
        m
    }
}

/// One event of an XML reader, as far as message parsing tells events apart.
pub enum XmlEvent {
    /// A start tag, with its name.
    Start(String),
    /// Character data in a CDATA section.
    CData(String),
    /// The end of the document.
    Eof,
    /// Malformed input.
    Failed,
    /// Any other event.
    Other,
}

pub enum EventView {
    Start(Seq<char>),
    CData(Seq<char>),
    Eof,
    Failed,
    Other,
}

impl View for XmlEvent {
    type V = EventView;

    open spec fn view(&self) -> EventView {
        match self {
            XmlEvent::Start(s) => EventView::Start(s@),
            XmlEvent::CData(s) => EventView::CData(s@),
            XmlEvent::Eof => EventView::Eof,
            XmlEvent::Failed => EventView::Failed,
            XmlEvent::Other => EventView::Other,
        }
    }
}

/// The message read from `evs`, with `tag` the element most recently opened
/// and `m` what was read so far: each CDATA section sets the field of that
/// element. Reading stops at the end of the document (or of `evs`); `None`
/// where the reader failed first.
pub open spec fn replay(evs: Seq<EventView>, tag: Seq<char>, m: MessageView) -> Option<MessageView>
    decreases evs.len(),
{
    if evs.len() == 0 {
        Some(m)
    } else {
        let rest = evs.drop_first();
        match evs[0] {
            EventView::Start(t) => replay(rest, t, m),
            EventView::CData(v) => replay(rest, tag, with_cdata(m, tag, v)),
            EventView::Eof => Some(m),
            EventView::Failed => None,
            EventView::Other => replay(rest, tag, m),
        }
    }
}

pub open spec fn empty_message() -> MessageView {
    MessageView { from: None, to: None, content: None, msg_type: None, event: None, event_key: None }
}

impl UniversMessage {
    pub fn new() -> (r: UniversMessage)
        ensures
            r@ == empty_message(),
    {
        UniversMessage { from: None, to: None, content: None, msg_type: None, event: None, event_key: None }
    }

    /// Records the character data `value` read inside element `tag`.
    pub fn apply_cdata(&mut self, tag: &str, value: String)
        ensures
            final(self)@ == with_cdata(old(self)@, tag@, value@),
    {
        let t = tag.to_owned();
        if t == "MsgType".to_owned() {
            self.msg_type = Some(value);
        } else if t == "Content".to_owned() {
            self.content = Some(value);
        } else if t == "ToUserName".to_owned() {
            self.to = Some(value);
        } else if t == "FromUserName".to_owned() {
            self.from = Some(value);
        } else if t == "Event".to_owned() {
            self.event = Some(value);
        } else if t == "EventKey".to_owned() {
            self.event_key = Some(value);
        }
    }
}

/// Reads a webhook message from the events of an XML reader over it.
pub fn parse_message(events: &Vec<XmlEvent>) -> (r: Option<UniversMessage>)
    ensures
        match r {
            Some(m) => replay(events@.map_values(|e: XmlEvent| e@), Seq::empty(), empty_message()) == Some(m@),
            None => replay(events@.map_values(|e: XmlEvent| e@), Seq::empty(), empty_message()) is None,
        },
{
    let ghost evs = events@.map_values(|e: XmlEvent| e@);
    let mut ret = UniversMessage::new();
    let mut tag = String::new();
    let mut i: usize = 0;
    assert(evs.subrange(0, evs.len() as int) =~= evs);
    while i < events.len()
        invariant
            evs == events@.map_values(|e: XmlEvent| e@),
            0 <= i <= events.len(),
            replay(evs, Seq::empty(), empty_message()) == replay(evs.subrange(i as int, evs.len() as int), tag@, ret@),
        decreases events.len() - i,
    {
        let ghost rest = evs.subrange(i as int, evs.len() as int);
        assert(rest[0] == events@[i as int]@);
        assert(rest.drop_first() =~= evs.subrange(i + 1, evs.len() as int));
        match &events[i] {
            XmlEvent::Start(name) => {
                tag = name.clone();
            },
            XmlEvent::CData(value) => {
                ret.apply_cdata(tag.as_str(), value.clone());
            },
            XmlEvent::Eof => {
                return Some(ret);
            },
            XmlEvent::Failed => {
                return None;
            },
            XmlEvent::Other => {},
        }
        i = i + 1;
    }
    Some(ret)
}

} // verus!
