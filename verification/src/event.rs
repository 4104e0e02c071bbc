//! Raw transport notifications and the events that the handler is told.

use vstd::prelude::*;

verus! {

/// One event, as the caller's handler sees it.
#[derive(Debug, PartialEq, Eq)]
pub enum EsEvent {
    /// The transport became ready.
    Opened,
    /// One server-pushed message, with its body as text.
    Message(String),
    /// The transport reported an error; the text describes it. The
    /// connection is not closed by it.
    Error(String),
}

/// The mathematical value of an [`EsEvent`].
pub enum EventView {
    Opened,
    Message(Seq<char>),
    Error(Seq<char>),
}

impl View for EsEvent {
    type V = EventView;

    open spec fn view(&self) -> EventView {
        match self {
            EsEvent::Opened => EventView::Opened,
            EsEvent::Message(body) => EventView::Message(body@),
            EsEvent::Error(description) => EventView::Error(description@),
        }
    }
}

/// One raw notification of the transport, reduced to the plain values that
/// the dispatcher reads.
#[derive(Debug, PartialEq, Eq)]
pub enum Notification {
    /// The transport reached its open state.
    Open,
    /// A message arrived. `text` is its payload where that is natively
    /// textual; `rendering` is the platform's string rendering of the
    /// payload, read only where `text` is `None`.
    Message { text: Option<String>, rendering: String },
    /// The transport raised an error; `rendering` is the platform's string
    /// rendering of the error detail.
    Error { rendering: String },
}

impl Clone for EsEvent {
    fn clone(&self) -> (copy: Self)
        ensures
            copy@ == self@,
    {
        match self {
            EsEvent::Opened => EsEvent::Opened,
            EsEvent::Message(body) => EsEvent::Message(body.clone()),
            EsEvent::Error(description) => EsEvent::Error(description.clone()),
        }
    }
}

/// The mathematical value of a [`Notification`].
pub enum NotificationView {
    Open,
    Message { text: Option<Seq<char>>, rendering: Seq<char> },
    Error { rendering: Seq<char> },
}

impl View for Notification {
    type V = NotificationView;

    open spec fn view(&self) -> NotificationView {
        match self {
            Notification::Open => NotificationView::Open,
            Notification::Message { text, rendering } => NotificationView::Message {
                text: match text {
                    Some(t) => Some(t@),
                    None => None,
                },
                rendering: rendering@,
            },
            Notification::Error { rendering } => NotificationView::Error { rendering: rendering@ },
        }
    }
}

impl Clone for Notification {
    fn clone(&self) -> (copy: Self)
        ensures
            copy@ == self@,
    {
        match self {
            Notification::Open => Notification::Open,
            Notification::Message { text, rendering } => Notification::Message {
                text: match text {
                    Some(t) => Some(t.clone()),
                    None => None,
                },
                rendering: rendering.clone(),
            },
            Notification::Error { rendering } => Notification::Error {
                rendering: rendering.clone(),
            },
        }
    }
}

/// The body given to a message whose payload is not text and of which the
/// platform has no rendering either.
pub open spec fn opaque_payload() -> Seq<char> {
    "[non-text payload]"@
}

/// The body of the message event for a payload: the text itself where the
/// payload is text, else the platform's rendering, else
/// [`opaque_payload`]. A payload that is not text never gives an empty
/// body.
pub open spec fn message_body(text: Option<Seq<char>>, rendering: Seq<char>) -> Seq<char> {
    match text {
        Some(t) => t,
        None => if rendering.len() > 0 {
            rendering
        } else {
            opaque_payload()
        },
    }
}

/// The event that a notification is translated to.
pub open spec fn translation(notification: NotificationView) -> EventView {
    match notification {
        NotificationView::Open => EventView::Opened,
        NotificationView::Message { text, rendering } => EventView::Message(
            message_body(text, rendering),
        ),
        NotificationView::Error { rendering } => EventView::Error(rendering),
    }
}

/// A textual payload is the body as it stands, and a payload that is not
/// text never gives an empty body.
pub proof fn lemma_payload_fidelity(text: Option<Seq<char>>, rendering: Seq<char>)
    ensures
        text matches Some(t) ==> message_body(text, rendering) == t,
        text is None ==> message_body(text, rendering).len() > 0,
        text is None && rendering.len() > 0 ==> message_body(text, rendering) == rendering,
{
    reveal_strlit("[non-text payload]");
}

/// Translates one raw notification into the one event that stands for it.
/// The notification is used up: its text becomes the event's.
pub fn translate(notification: Notification) -> (event: EsEvent)
    ensures
        event@ == translation(notification@),
        notification@ matches NotificationView::Message { text: Some(t), .. } ==> event@
            == EventView::Message(t),
        notification@ matches NotificationView::Message { text: None, .. } ==> (event@ matches
            EventView::Message(body) && body.len() > 0),
{
    proof {
        reveal_strlit("[non-text payload]");
    }
    match notification {
        Notification::Open => EsEvent::Opened,
        Notification::Message { text, rendering } => match text {
            Some(t) => EsEvent::Message(t),
            None => if rendering.as_str().is_empty() {
                EsEvent::Message("[non-text payload]".to_owned())
            } else {
                EsEvent::Message(rendering)
            },
        },
        Notification::Error { rendering } => EsEvent::Error(rendering),
    }
}

} // verus!
