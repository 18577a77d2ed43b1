//! The response statuses this library supports, each with a fixed numeric
//! code and reason phrase.

use crate::text::dec_digits;
use crate::text::usize_to_string;
use vstd::prelude::*;
use vstd::string::*;

verus! {

/// A response status. The set is closed and the code/reason pairing is a
/// fixed table.
#[derive(Debug, Clone, Copy)]
pub enum Status {
    Okay,
    SeeOther,
    BadRequest,
    NotFound,
    InternalServerError,
}

/// The numeric code of each status.
pub open spec fn status_code_of(s: Status) -> int {
    match s {
        Status::Okay => 200,
        Status::SeeOther => 303,
        Status::BadRequest => 400,
        Status::NotFound => 404,
        Status::InternalServerError => 500,
    }
}

/// The uppercase reason phrase of each status.
pub open spec fn status_msg_of(s: Status) -> Seq<char> {
    match s {
        Status::Okay => "OK"@,
        Status::SeeOther => "SEE OTHER"@,
        Status::BadRequest => "BAD REQUEST"@,
        Status::NotFound => "NOT FOUND"@,
        Status::InternalServerError => "INTERNAL SERVER ERROR"@,
    }
}

/// The composite rendering of a status: its decimal code, a space, and its
/// reason phrase.
pub open spec fn status_render(s: Status) -> Seq<char> {
    dec_digits(status_code_of(s)) + seq![' '] + status_msg_of(s)
}

impl Status {
    /// The numeric status code.
    pub fn status_code(&self) -> (r: usize)
        ensures
            r as int == status_code_of(*self),
    {
        match self {
            Status::Okay => 200,
            Status::SeeOther => 303,
            Status::BadRequest => 400,
            Status::NotFound => 404,
            Status::InternalServerError => 500,
        }
    }

    /// The reason phrase.
    pub fn msg(&self) -> (r: &'static str)
        ensures
            r@ == status_msg_of(*self),
    {
        match self {
            Status::Okay => "OK",
            Status::SeeOther => "SEE OTHER",
            Status::BadRequest => "BAD REQUEST",
            Status::NotFound => "NOT FOUND",
            Status::InternalServerError => "INTERNAL SERVER ERROR",
        }
    }

    /// Renders this status as `"<code> <reason phrase>"`.
    pub fn render(&self) -> (r: String)
        ensures
            r@ == status_render(*self),
    {
        let mut r = usize_to_string(self.status_code());
        r.append(" ");
        r.append(self.msg());
        proof {
            reveal_strlit(" ");
            assert(r@ =~= status_render(*self));
        }
        r
    }
}

} // verus!
