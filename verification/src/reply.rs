//! The replies of the HTTP surface, as plain values.

use crate::coordinator::PendingOffer;
use crate::error::SignalError;
use crate::model::Offer;
use crate::resource::{hex_text, ResourceId};
use vstd::prelude::*;
use vstd::string::StringExecFns;

verus! {

/// Status of a reply that tells of a new resource.
pub const CREATED: u16 = 201;

/// Status of a reply without a body.
pub const NO_CONTENT: u16 = 204;

/// Status of a reply that refuses the body of a request.
pub const BAD_REQUEST: u16 = 400;

/// What a reply carries.
#[derive(Debug, PartialEq, Eq)]
pub enum Body {
    /// Nothing.
    Empty,
    /// Words for the client.
    Text(String),
    /// A session description, to be sent as `application/sdp`.
    Sdp(String),
}

/// What a reply carries, as specification.
pub enum BodyView {
    Empty,
    Text(Seq<char>),
    Sdp(Seq<char>),
}

impl View for Body {
    type V = BodyView;

    open spec fn view(&self) -> BodyView {
        match self {
            Body::Empty => BodyView::Empty,
            Body::Text(text) => BodyView::Text(text@),
            Body::Sdp(text) => BodyView::Sdp(text@),
        }
    }
}

/// A reply to a request: its status, the location of the resource it
/// tells of, and its body.
#[derive(Debug, PartialEq, Eq)]
pub struct Reply {
    pub status: u16,
    pub location: Option<String>,
    pub body: Body,
}

/// A reply as specification.
pub struct ReplyView {
    pub status: u16,
    pub location: Option<Seq<char>>,
    pub body: BodyView,
}

impl View for Reply {
    type V = ReplyView;

    open spec fn view(&self) -> ReplyView {
        ReplyView {
            status: self.status,
            location: match self.location {
                Some(location) => Some(location@),
                None => None,
            },
            body: self.body@,
        }
    }
}

/// The path under which a session is addressed.
pub open spec fn location_of(token: u128) -> Seq<char> {
    "/channel/"@ + hex_text(token)
}

/// The reply that hands out an offer: the location of the offer's session,
/// and its session description as the body.
pub open spec fn created(offer: Offer) -> ReplyView {
    ReplyView {
        status: CREATED,
        location: Some(location_of(offer.id)),
        body: BodyView::Sdp(offer.sdp),
    }
}

/// The reply that tells of a failure: its status, and its words as the body.
pub open spec fn failure(error: SignalError) -> ReplyView {
    ReplyView {
        status: error.status_code(),
        location: None,
        body: BodyView::Text(error.message_text()),
    }
}

/// The reply to a request for an offer that brings a body of its own.
pub open spec fn refusal() -> ReplyView {
    ReplyView {
        status: BAD_REQUEST,
        location: None,
        body: BodyView::Text("client-initiated offers not supported"@),
    }
}

/// The reply to an answer that was filed.
pub open spec fn no_content() -> ReplyView {
    ReplyView { status: NO_CONTENT, location: None, body: BodyView::Empty }
}

/// The path under which a session is addressed.
pub fn location(id: ResourceId) -> (path: String)
    ensures
        path@ == location_of(id.token),
{
    let mut path = String::from_str("/channel/");
    let text = id.to_text();
    path.append(text.as_str());
    path
}

/// The reply that hands out an offer.
pub fn offer_reply(offer: &PendingOffer) -> (reply: Reply)
    ensures
        reply@ == created(offer@),
{
    Reply {
        status: CREATED,
        location: Some(location(offer.id)),
        body: Body::Sdp(offer.sdp.to_text()),
    }
}

/// The reply that tells of a failure.
pub fn failure_reply(error: SignalError) -> (reply: Reply)
    ensures
        reply@ == failure(error),
{
    Reply { status: error.status(), location: None, body: Body::Text(error.message()) }
}

/// The reply to a request for an offer that brings a body of its own.
pub fn refusal_reply() -> (reply: Reply)
    ensures
        reply@ == refusal(),
{
    Reply {
        status: BAD_REQUEST,
        location: None,
        body: Body::Text(String::from_str("client-initiated offers not supported")),
    }
}

/// The reply to an answer that was filed.
pub fn no_content_reply() -> (reply: Reply)
    ensures
        reply@ == no_content(),
{
    Reply { status: NO_CONTENT, location: None, body: Body::Empty }
}

} // verus!
