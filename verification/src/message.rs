//! Messages: what a transfer carries from one host to the other.

use vstd::prelude::*;
use vstd::utf8::encode_utf8;

use crate::{CRC_BYTES, MAX_PAYLOAD_SIZE};

verus! {

/// Largest payload size that a frame has room for, with a checksum or without.
pub const MAX_CHECKED_PAYLOAD_SIZE: u16 = MAX_PAYLOAD_SIZE - CRC_BYTES as u16;

#[derive(Debug, Clone, PartialEq, Eq, Hash)]
pub struct Message {
    pub data: MessageData,
    /// Number of bytes of the message in each `Data` packet but the last.
    pub payload_size: u16,
}

#[derive(Debug, Clone, PartialEq, Eq, Hash)]
pub enum MessageData {
    Text(String),
    File { name: String, payload: Vec<u8> },
}

/// What a [`Message`] says.
pub ghost struct MessageView {
    pub data: MessageDataView,
    pub payload_size: u16,
}

/// What a [`MessageData`] says.
pub ghost enum MessageDataView {
    Text(Seq<char>),
    File { name: Seq<char>, payload: Seq<u8> },
}

impl View for MessageData {
    type V = MessageDataView;

    open spec fn view(&self) -> MessageDataView {
        match *self {
            MessageData::Text(text) => MessageDataView::Text(text@),
            MessageData::File { name, payload } => MessageDataView::File {
                name: name@,
                payload: payload@,
            },
        }
    }
}

impl View for Message {
    type V = MessageView;

    open spec fn view(&self) -> MessageView {
        MessageView { data: self.data@, payload_size: self.payload_size }
    }
}

impl MessageView {
    /// The bytes that the message is transferred as.
    pub open spec fn transfer(self) -> Seq<u8> {
        match self.data {
            MessageDataView::Text(text) => encode_utf8(text),
            MessageDataView::File { payload, .. } => payload,
        }
    }

    /// The name that the message is transferred under; a text has none.
    pub open spec fn name(self) -> Option<Seq<char>> {
        match self.data {
            MessageDataView::Text(_) => None,
            MessageDataView::File { name, .. } => Some(name),
        }
    }
}

/// The payload size of a text of `len` bytes: the whole text if one packet has room for it.
pub open spec fn text_payload_size(len: nat) -> u16 {
    if len == 0 {
        1
    } else if len <= MAX_CHECKED_PAYLOAD_SIZE {
        len as u16
    } else {
        MAX_CHECKED_PAYLOAD_SIZE
    }
}

/// The message that carries a text, unless the text is too long.
pub open spec fn text_message(text: Seq<char>) -> Option<MessageView> {
    let len = encode_utf8(text).len();
    if len <= u32::MAX {
        Some(
            MessageView { data: MessageDataView::Text(text), payload_size: text_payload_size(len) },
        )
    } else {
        None
    }
}

impl Message {
    /// Creates a message that carries a file of at most 4 GiB, in payloads of at most
    /// [`MAX_PAYLOAD_SIZE`] bytes.
    #[must_use]
    pub fn file(payload: Vec<u8>, payload_size: u16, filename: String) -> (m: Message)
        requires
            payload@.len() <= u32::MAX,
            payload_size <= MAX_PAYLOAD_SIZE,
        ensures
            m@ == (MessageView {
                data: MessageDataView::File { name: filename@, payload: payload@ },
                payload_size,
            }),
    {
        Message { data: MessageData::File { name: filename, payload }, payload_size }
    }

    /// Creates a message that carries a text; one of more than 4 GiB is refused.
    pub fn text(payload: String) -> (r: Result<Message, core::num::TryFromIntError>)
        ensures
            r is Ok <==> encode_utf8(payload@).len() <= u32::MAX,
            r matches Ok(m) ==> m@ == (MessageView {
                data: MessageDataView::Text(payload@),
                payload_size: text_payload_size(encode_utf8(payload@).len()),
            }),
            r matches Ok(m) ==> text_message(payload@) == Some(m@),
            r is Err ==> text_message(payload@) is None,
    {
        let len: usize = payload.as_str().as_bytes().len();
        match u32::try_from(len) {
            Ok(_) => {
                let payload_size: u16 = if len == 0 {
                    1
                } else if len <= MAX_CHECKED_PAYLOAD_SIZE as usize {
                    len as u16
                } else {
                    MAX_CHECKED_PAYLOAD_SIZE
                };
                Ok(Message { data: MessageData::Text(payload), payload_size })
            },
            Err(e) => Err(e),
        }
    }
}

} // verus!
