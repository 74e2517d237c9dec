//! The public client surface: message building, serialization, reply
//! decoding and classification, gathered under one roof.

pub use crate::client::Client;
pub use crate::message::Attachment;
pub use crate::message::AttachmentField;
pub use crate::message::Message;
pub use crate::response::DecodeError;
pub use crate::response::MessageId;
pub use crate::response::Response;
pub use crate::response::ResponseMessage;
pub use crate::response::ResponseMessageU;
