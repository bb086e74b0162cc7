//! Replies that the proxy makes up itself.

use vstd::prelude::*;

verus! {

/// A response with a text for its body and no headers.
#[derive(Debug)]
pub struct Reply {
    pub status: u16,
    pub body: String,
}

/// A response with a text for its body, as characters.
#[verifier::ext_equal]
pub struct ReplyView {
    pub status: u16,
    pub body: Seq<char>,
}

impl View for Reply {
    type V = ReplyView;

    open spec fn view(&self) -> ReplyView {
        ReplyView { status: self.status, body: self.body@ }
    }
}

/// A reply with the status 200.
pub open spec fn ok(body: Seq<char>) -> ReplyView {
    ReplyView { status: 200, body }
}

/// A reply with the status 404.
pub open spec fn not_found(body: Seq<char>) -> ReplyView {
    ReplyView { status: 404, body }
}

/// The view of a reply shows its status and its body.
pub proof fn law_view_of_reply(reply: Reply)
    ensures
        reply@.status == reply.status,
        reply@.body == reply.body@,
{
}

/// A reply that all is well has the status 200, one that nothing was found 404.
pub proof fn law_statuses_of_replies(body: Seq<char>)
    ensures
        ok(body) == (ReplyView { status: 200, body }),
        not_found(body) == (ReplyView { status: 404, body }),
{
}

} // verus!
