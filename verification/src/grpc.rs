//! Message types shared with the transport layer. The service skeleton that
//! carries them over the wire lives with the host, outside the library.

use vstd::prelude::*;

verus! {

/// One audit finding, produced by the external rule-evaluation
/// collaborator and consumed by the annotation writer.
#[derive(Debug)]
pub struct Issue {
    pub id: i64,
    pub message: String,
    pub section_id: i32,
}

#[verifier::ext_equal]
pub struct IssueV {
    pub id: int,
    pub message: Seq<char>,
    pub section_id: int,
}

impl View for Issue {
    type V = IssueV;

    open spec fn view(&self) -> IssueV {
        IssueV { id: self.id as int, message: self.message@, section_id: self.section_id as int }
    }
}

impl Clone for Issue {
    /// An issue clones to an equal issue.
    fn clone(&self) -> (r: Self)
        ensures
            r@ == self@,
    {
        Issue { id: self.id, message: self.message.clone(), section_id: self.section_id }
    }
}

pub open spec fn issues_view(v: Seq<Issue>) -> Seq<IssueV> {
    Seq::new(v.len(), |i: int| v[i]@)
}

/// The health probe target of the service.
pub struct ParserService;

impl ParserService {
    /// The reply a health probe gets.
    pub fn health_check(&self) -> (r: String)
        ensures
            r@ == "ok"@,
    {
        String::from_str("ok")
    }
}

} // verus!
