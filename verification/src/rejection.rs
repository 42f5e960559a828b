//! Answers to requests: refusals with an HTTP status, and envelopes.

use vstd::prelude::*;

verus! {

pub const BAD_REQUEST: u16 = 400;

pub const UNAUTHORIZED: u16 = 401;

pub const FORBIDDEN: u16 = 403;

pub const NOT_FOUND: u16 = 404;

pub const CONFLICT: u16 = 409;

pub const INTERNAL_SERVER_ERROR: u16 = 500;

/// A refused request: an HTTP status and what the client is told.
#[derive(Debug)]
pub struct Rejection {
    pub status: u16,
    pub message: String,
}

/// What a `Rejection` holds.
#[verifier::ext_equal]
pub struct RejectionView {
    pub status: u16,
    pub message: Seq<char>,
}

impl View for Rejection {
    type V = RejectionView;

    open spec fn view(&self) -> RejectionView {
        RejectionView { status: self.status, message: self.message@ }
    }
}

/// A refusal.
pub open spec fn refusal(status: u16, message: Seq<char>) -> RejectionView {
    RejectionView { status, message }
}

/// The view of what a request comes to.
pub open spec fn outcome<T: View>(r: Result<T, Rejection>) -> Result<T::V, RejectionView> {
    match r {
        Ok(x) => Ok(x@),
        Err(e) => Err(e@),
    }
}

/// Refuses a request.
pub fn refuse(status: u16, message: &str) -> (r: Rejection)
    ensures
        r@ == refusal(status, message@),
{
    Rejection { status, message: message.to_string() }
}

/// Refuses a request with a message that was put together.
pub fn refuse_with(status: u16, message: String) -> (r: Rejection)
    ensures
        r@ == refusal(status, message@),
{
    Rejection { status, message }
}

/// The body of an answer.
pub struct Envelope<T> {
    pub code: i32,
    pub message: String,
    pub data: Option<T>,
}

/// The body of an answer to a request that was carried out.
pub fn success<T>(message: &str, data: T) -> (r: Envelope<T>)
    ensures
        r.code == 0,
        r.message@ == message@,
        r.data == Some(data),
{
    Envelope { code: 0, message: message.to_string(), data: Some(data) }
}

/// The status and body of an answer to a refused request.
pub fn error(status: u16, message: &str) -> (r: (u16, Envelope<()>))
    ensures
        r.0 == status,
        r.1.code == status,
        r.1.message@ == message@,
        r.1.data is None,
{
    (status, Envelope { code: status as i32, message: message.to_string(), data: None })
}

} // verus!
