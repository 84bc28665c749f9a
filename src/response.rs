//! What the service answers: the listed reservations or a rejection with its
//! HTTP status.
use vstd::prelude::*;
use crate::booking::BookingError;
use crate::models::Reservation;

verus! {

/// An answer to a request.
#[derive(Debug)]
pub enum Response {
    /// 200, with the reservations
    Listed(Vec<(u64, Reservation)>),
    /// 400
    BadRequest(Option<String>),
    /// 403
    Forbidden(Option<String>),
    /// 404
    NotFound(Option<String>),
    /// 500
    InternalServerError(Option<String>),
}

/// The error statuses that a `Response` can carry.
pub open spec fn known_status(code: u16) -> bool {
    code == 400 || code == 403 || code == 404 || code == 500
}

impl Response {
    /// The HTTP status of the answer.
    pub open spec fn status_of(&self) -> u16 {
        match self {
            Response::Listed(_) => 200,
            Response::BadRequest(_) => 400,
            Response::Forbidden(_) => 403,
            Response::NotFound(_) => 404,
            Response::InternalServerError(_) => 500,
        }
    }

    pub fn status(&self) -> (r: u16)
        ensures
            r == self.status_of(),
    {
        match self {
            Response::Listed(_) => 200,
            Response::BadRequest(_) => 400,
            Response::Forbidden(_) => 403,
            Response::NotFound(_) => 404,
            Response::InternalServerError(_) => 500,
        }
    }

    /// The answer for a result whose error is a status and a message.
    pub fn from_result(x: Result<Vec<(u64, Reservation)>, (u16, Option<String>)>) -> (r: Response)
        requires
            x is Err ==> known_status(x->Err_0.0),
        ensures
            match x {
                Ok(v) => r == Response::Listed(v),
                Err((code, content)) => {
                    &&& r.status_of() == code
                    &&& match r {
                        Response::Listed(_) => false,
                        Response::BadRequest(c) => c == content,
                        Response::Forbidden(c) => c == content,
                        Response::NotFound(c) => c == content,
                        Response::InternalServerError(c) => c == content,
                    }
                },
            },
    {
        match x {
            Ok(s) => Response::Listed(s),
            Err((code, content)) => {
                if code == 400 {
                    Response::BadRequest(content)
                } else if code == 403 {
                    Response::Forbidden(content)
                } else if code == 404 {
                    Response::NotFound(content)
                } else {
                    Response::InternalServerError(content)
                }
            },
        }
    }

    /// The reservations, or "not found" where there are none to give.
    pub fn from_option(x: Option<Vec<(u64, Reservation)>>) -> (r: Response)
        ensures
            match x {
                Some(v) => r == Response::Listed(v),
                None => r == Response::NotFound(None),
            },
    {
        match x {
            Some(s) => Response::Listed(s),
            None => Response::NotFound(None),
        }
    }

    /// The rejection that a workflow error stands for.
    pub fn from_error(e: BookingError) -> (r: Response)
        ensures
            r == match e {
                BookingError::NotFound => Response::NotFound(None),
                BookingError::Forbidden => Response::Forbidden(None),
                BookingError::Conflict | BookingError::Validation => Response::BadRequest(None),
                BookingError::StoreUnavailable => Response::InternalServerError(None),
            },
    {
        match e {
            BookingError::NotFound => Response::NotFound(None),
            BookingError::Forbidden => Response::Forbidden(None),
            BookingError::Conflict => Response::BadRequest(None),
            BookingError::Validation => Response::BadRequest(None),
            BookingError::StoreUnavailable => Response::InternalServerError(None),
        }
    }
}

} // verus!
