//! Question records and their validated identifiers.

use vstd::prelude::*;

verus! {

/// The error produced when an identifier fails validation.
#[derive(Clone, Copy, Debug, PartialEq, Eq, Structural)]
pub enum IdentifierError {
    /// The supplied identifier text was empty.
    InvalidInput,
}

/// A validated identifier for a question record: a non-empty string.
#[derive(Clone, Debug)]
pub struct QuestionId(String);

impl View for QuestionId {
    type V = Seq<char>;

    closed spec fn view(&self) -> Seq<char> {
        self.0@
    }
}

impl PartialEq for QuestionId {
    fn eq(&self, other: &QuestionId) -> bool {
        self.0 == other.0
    }
}

impl vstd::std_specs::cmp::PartialEqSpecImpl for QuestionId {
    open spec fn obeys_eq_spec() -> bool {
        true
    }

    open spec fn eq_spec(&self, other: &QuestionId) -> bool {
        self@ == other@
    }
}

impl QuestionId {
    /// Validates identifier text: any non-empty string makes an identifier
    /// with exactly that text, and the empty string is rejected.
    pub fn from_str(id: &str) -> (r: Result<QuestionId, IdentifierError>)
        ensures
            r matches Ok(q) <==> id@.len() > 0,
            r matches Ok(q) ==> q@ == id@,
            r matches Err(e) ==> e == IdentifierError::InvalidInput,
    {
        if id.is_empty() {
            Err(IdentifierError::InvalidInput)
        } else {
            Ok(QuestionId(id.to_owned()))
        }
    }

    /// The identifier's underlying text.
    pub fn as_str(&self) -> (r: &str)
        ensures
            r@ == self@,
    {
        self.0.as_str()
    }
}

/// A question record: a unique identifier, a title, the question text, and
/// an optional list of tags.
#[derive(Clone, Debug)]
pub struct Question {
    pub id: QuestionId,
    pub title: String,
    pub content: String,
    pub tags: Option<Vec<String>>,
}

impl Question {
    /// Assembles a record from its parts, verbatim.
    pub fn new(id: QuestionId, title: String, content: String, tags: Option<Vec<String>>) -> (r:
        Question)
        ensures
            r.id == id,
            r.title == title,
            r.content == content,
            r.tags == tags,
    {
        Question { id, title, content, tags }
    }
}

/// No two records of the sequence share an identifier.
pub open spec fn ids_unique(qs: Seq<Question>) -> bool {
    forall|i: int, j: int| 0 <= i < j < qs.len() ==> qs[i].id@ != qs[j].id@
}

/// Every record of the sequence carries a non-empty identifier.
pub open spec fn ids_valid(qs: Seq<Question>) -> bool {
    forall|i: int| 0 <= i < qs.len() ==> qs[i].id@.len() > 0
}

} // verus!
