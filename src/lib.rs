//! A minimal authoritative DNS responder: wire-format decoding of the
//! question section and synthesis of a fixed-address reply.

pub mod error;
pub mod labels;
pub mod message;
pub mod response;
pub mod server;

pub use error::DecodeError;
pub use labels::{decode_labels, encoded_length};
pub use message::{
    decode_header, decode_query, decode_question, decode_questions, Header, Query, Question,
    QuestionSize,
};
pub use response::{build_response, example_com_response};
pub use server::{server_step, ServerAction, ServerEvent, ServerState};
