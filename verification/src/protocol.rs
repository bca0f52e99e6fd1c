//! The frame vocabulary and its wire text.

use crate::json::{json_array_text, texts, to_string};
use vstd::prelude::*;
use vstd::string::*;

verus! {

/// Why a session is being closed.
#[derive(Clone, Copy, Debug, PartialEq, Eq, Structural)]
pub enum CloseCode {
    /// The transport dropped without a clean close.
    Interrupted,
    /// The session was closed; the peer should go away.
    GoAway,
    /// Another connection still holds the session.
    Acquired,
    /// The server could not serve the request.
    InternalError,
    /// The peer sent a payload that does not decode.
    InvalidPayload,
}

impl CloseCode {
    /// The numeric code.
    pub open spec fn code(self) -> nat {
        match self {
            CloseCode::Interrupted => 1002,
            CloseCode::GoAway => 3000,
            CloseCode::Acquired => 2010,
            CloseCode::InternalError => 500,
            CloseCode::InvalidPayload => 1007,
        }
    }

    /// The human-readable reason.
    pub open spec fn reason_text(self) -> Seq<char> {
        match self {
            CloseCode::Interrupted => "Connection interrupted"@,
            CloseCode::GoAway => "Go away!"@,
            CloseCode::Acquired => "Another connection still open"@,
            CloseCode::InternalError => "Internal error"@,
            CloseCode::InvalidPayload => "Broken JSON encoding"@,
        }
    }

    /// The close frame on the wire: `c[code,"reason"]`.
    pub open spec fn frame_text(self) -> Seq<char> {
        "c["@ + decimal_text(self.code()) + ",\""@ + self.reason_text() + "\"]"@
    }

    /// The numeric code.
    pub fn num(&self) -> (n: usize)
        ensures
            n == self.code(),
    {
        match self {
            CloseCode::Interrupted => 1002,
            CloseCode::GoAway => 3000,
            CloseCode::Acquired => 2010,
            CloseCode::InternalError => 500,
            CloseCode::InvalidPayload => 1007,
        }
    }

    /// The human-readable reason.
    pub fn reason(&self) -> (r: &'static str)
        ensures
            r@ == self.reason_text(),
    {
        match self {
            CloseCode::Interrupted => "Connection interrupted",
            CloseCode::GoAway => "Go away!",
            CloseCode::Acquired => "Another connection still open",
            CloseCode::InternalError => "Internal error",
            CloseCode::InvalidPayload => "Broken JSON encoding",
        }
    }

    /// The close frame on the wire.
    pub fn encode(&self) -> (r: String)
        ensures
            r@ == self.frame_text(),
    {
        let mut out = String::from_str("c[");
        let digits = decimal(self.num());
        out.append(digits.as_str());
        out.append(",\"");
        out.append(self.reason());
        out.append("\"]");
        out
    }
}

/// The text of one decimal digit.
pub open spec fn digit_text(d: nat) -> Seq<char> {
    if d == 0 {
        "0"@
    } else if d == 1 {
        "1"@
    } else if d == 2 {
        "2"@
    } else if d == 3 {
        "3"@
    } else if d == 4 {
        "4"@
    } else if d == 5 {
        "5"@
    } else if d == 6 {
        "6"@
    } else if d == 7 {
        "7"@
    } else if d == 8 {
        "8"@
    } else {
        "9"@
    }
}

/// A number in decimal, most significant digit first, without leading zeros.
pub open spec fn decimal_text(n: nat) -> Seq<char>
    decreases n,
{
    if n < 10 {
        digit_text(n)
    } else {
        decimal_text(n / 10) + digit_text(n % 10)
    }
}

fn digit(d: usize) -> (r: &'static str)
    requires
        d < 10,
    ensures
        r@ == digit_text(d as nat),
{
    if d == 0 {
        "0"
    } else if d == 1 {
        "1"
    } else if d == 2 {
        "2"
    } else if d == 3 {
        "3"
    } else if d == 4 {
        "4"
    } else if d == 5 {
        "5"
    } else if d == 6 {
        "6"
    } else if d == 7 {
        "7"
    } else if d == 8 {
        "8"
    } else {
        "9"
    }
}

/// Writes a number in decimal.
pub fn decimal(n: usize) -> (r: String)
    ensures
        r@ == decimal_text(n as nat),
    decreases n,
{
    if n < 10 {
        String::from_str(digit(n))
    } else {
        let mut out = decimal(n / 10);
        out.append(digit(n % 10));
        out
    }
}

/// What `{:?}` writes for a string: the string in double quotes, with the
/// escapes of Rust's `Debug`.
pub uninterp spec fn debug_text(text: Seq<char>) -> Seq<char>;

/// Formats a string with `{:?}`.
///
/// Trusted: `Debug` for `str` is a function of the characters alone, and this
/// gives its output the name [`debug_text`].
#[verifier::external_body]
fn debug_quote(text: &str) -> (r: String)
    ensures
        r@ == debug_text(text@),
{
    format!("{:?}", text)
}

/// The text of a message frame around a payload that is already quoted.
pub open spec fn message_text(quoted: Seq<char>) -> Seq<char> {
    "a["@ + quoted + "]"@
}

/// The text of a batch frame before a JSON array that is already written.
pub open spec fn batch_text(array: Seq<char>) -> Seq<char> {
    "a"@ + array
}

/// Writes a message frame around a payload that is already quoted.
pub fn frame_message(quoted: &str) -> (r: String)
    ensures
        r@ == message_text(quoted@),
{
    let mut out = String::from_str("a[");
    out.append(quoted);
    out.append("]");
    out
}

/// Writes a batch frame before a JSON array that is already written.
pub fn frame_batch(array: &str) -> (r: String)
    ensures
        r@ == batch_text(array@),
{
    let mut out = String::from_str("a");
    out.append(array);
    out
}

/// One unit of the protocol.
#[derive(Clone, Debug, PartialEq, Eq)]
pub enum Frame {
    /// Keep-alive.
    Heartbeat,
    /// The session has started.
    Open,
    /// One payload.
    Message(String),
    /// Several payloads, in order.
    MessageBatch(Vec<String>),
    /// Raw bytes. Reserved: never put on the wire.
    MessageBlob(Vec<u8>),
    /// The session is closing.
    Close(CloseCode),
}

/// A frame as a mathematical value.
pub enum FrameView {
    Heartbeat,
    Open,
    Message(Seq<char>),
    MessageBatch(Seq<Seq<char>>),
    MessageBlob(Seq<u8>),
    Close(CloseCode),
}

impl View for Frame {
    type V = FrameView;

    open spec fn view(&self) -> FrameView {
        match self {
            Frame::Heartbeat => FrameView::Heartbeat,
            Frame::Open => FrameView::Open,
            Frame::Message(payload) => FrameView::Message(payload@),
            Frame::MessageBatch(payloads) => FrameView::MessageBatch(texts(payloads@)),
            Frame::MessageBlob(bytes) => FrameView::MessageBlob(bytes@),
            Frame::Close(code) => FrameView::Close(*code),
        }
    }
}

impl FrameView {
    /// The text that carries the frame on the wire, or `None` for a frame that
    /// is not transmitted: every frame but a blob has one.
    ///
    /// | frame | text |
    /// |---|---|
    /// | `Heartbeat` | `h` |
    /// | `Open` | `o` |
    /// | `Message(p)` | `a[` quoted `p` `]` |
    /// | `MessageBatch(ps)` | `a` and the JSON array of `ps` |
    /// | `Close(code)` | `c[code,"reason"]` |
    /// | `MessageBlob` | nothing |
    pub open spec fn wire_text(self) -> Option<Seq<char>> {
        match self {
            FrameView::Heartbeat => Some("h"@),
            FrameView::Open => Some("o"@),
            FrameView::Message(payload) => Some(message_text(debug_text(payload))),
            FrameView::MessageBatch(payloads) => Some(batch_text(json_array_text(payloads))),
            FrameView::MessageBlob(_) => None,
            FrameView::Close(code) => Some(code.frame_text()),
        }
    }
}

/// The text of an optional string.
pub open spec fn text_of(s: Option<String>) -> Option<Seq<char>> {
    match s {
        Some(s) => Some(s@),
        None => None,
    }
}

impl Frame {
    /// Encodes the frame for the wire.
    pub fn encode(&self) -> (r: Option<String>)
        ensures
            text_of(r) == self@.wire_text(),
            r is None <==> self@ is MessageBlob,
    {
        match self {
            Frame::Heartbeat => Some(String::from_str("h")),
            Frame::Open => Some(String::from_str("o")),
            Frame::Message(payload) => {
                let quoted = debug_quote(payload.as_str());
                Some(frame_message(quoted.as_str()))
            },
            Frame::MessageBatch(payloads) => {
                match to_string(payloads) {
                    Ok(array) => Some(frame_batch(array.as_str())),
                    // not reached: the codec writes every list of strings
                    Err(_) => None,
                }
            },
            Frame::MessageBlob(_) => None,
            Frame::Close(code) => Some(code.encode()),
        }
    }

    /// A copy of the frame.
    pub fn duplicate(&self) -> (r: Frame)
        ensures
            r@ == self@,
    {
        match self {
            Frame::Heartbeat => Frame::Heartbeat,
            Frame::Open => Frame::Open,
            Frame::Message(payload) => Frame::Message(payload.clone()),
            Frame::MessageBatch(payloads) => {
                let mut copy: Vec<String> = Vec::new();
                let mut i: usize = 0;
                while i < payloads.len()
                    invariant
                        i <= payloads.len(),
                        copy.len() == i,
                        forall|j: int| 0 <= j < i ==> copy@[j]@ == payloads@[j]@,
                    decreases payloads.len() - i,
                {
                    copy.push(payloads[i].clone());
                    i = i + 1;
                }
                assert(texts(copy@) =~= texts(payloads@));
                Frame::MessageBatch(copy)
            },
            Frame::MessageBlob(bytes) => {
                let mut copy: Vec<u8> = Vec::new();
                let mut i: usize = 0;
                while i < bytes.len()
                    invariant
                        i <= bytes.len(),
                        copy.len() == i,
                        forall|j: int| 0 <= j < i ==> copy@[j] == bytes@[j],
                    decreases bytes.len() - i,
                {
                    copy.push(bytes[i]);
                    i = i + 1;
                }
                assert(copy@ =~= bytes@);
                Frame::MessageBlob(copy)
            },
            Frame::Close(code) => Frame::Close(*code),
        }
    }
}

} // verus!
