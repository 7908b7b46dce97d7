//! A minimal read-only question service: a store of question records loaded
//! once from an embedded payload, a single query endpoint that lists every
//! record, and the translation of rejected requests into HTTP responses.

pub mod http;
pub mod json;
pub mod question;
pub mod store;

pub use question::IdentifierError;
pub use question::Question;
pub use question::QuestionId;
