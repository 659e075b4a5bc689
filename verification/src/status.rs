//! The HTTP status model: a closed categorization of named codes with
//! a canonical numeric-plus-name rendering. Ordering is by category,
//! then by code, and serves only equality and storage, never protocol
//! logic.

use vstd::prelude::*;

verus! {

/// The five categories of HTTP/1.1 status codes.
#[derive(Clone, Copy, Debug, PartialEq, Eq, Structural)]
pub enum StatusCategory {
    Informational,
    Success,
    Redirection,
    ClientError,
    ServerError,
}

/// A status code, declared in category order and then code order;
/// `OK` is the default for fresh responses.
#[derive(Clone, Copy, Debug, PartialEq, Eq, Structural, PartialOrd, Ord, Hash)]
pub enum HttpStatus {
    Continue,
    SwitchingProtocols,
    OK,
    Created,
    Accepted,
    NoContent,
    MovedPermanently,
    Found,
    NotModified,
    BadRequest,
    Unauthorized,
    Forbidden,
    NotFound,
    MethodNotAllowed,
    InternalServerError,
    NotImplemented,
    BadGateway,
    ServiceUnavailable,
}

impl HttpStatus {
    /// The numeric code of this status.
    pub open spec fn code_spec(self) -> int {
        match self {
            HttpStatus::Continue => 100,
            HttpStatus::SwitchingProtocols => 101,
            HttpStatus::OK => 200,
            HttpStatus::Created => 201,
            HttpStatus::Accepted => 202,
            HttpStatus::NoContent => 204,
            HttpStatus::MovedPermanently => 301,
            HttpStatus::Found => 302,
            HttpStatus::NotModified => 304,
            HttpStatus::BadRequest => 400,
            HttpStatus::Unauthorized => 401,
            HttpStatus::Forbidden => 403,
            HttpStatus::NotFound => 404,
            HttpStatus::MethodNotAllowed => 405,
            HttpStatus::InternalServerError => 500,
            HttpStatus::NotImplemented => 501,
            HttpStatus::BadGateway => 502,
            HttpStatus::ServiceUnavailable => 503,
        }
    }

    /// The category a status belongs to, read off its code range.
    pub open spec fn category_spec(self) -> StatusCategory {
        if self.code_spec() < 200 {
            StatusCategory::Informational
        } else if self.code_spec() < 300 {
            StatusCategory::Success
        } else if self.code_spec() < 400 {
            StatusCategory::Redirection
        } else if self.code_spec() < 500 {
            StatusCategory::ClientError
        } else {
            StatusCategory::ServerError
        }
    }

    /// The canonical rendering: the numeric code, a space, and the
    /// name of the code.
    pub open spec fn text_spec(self) -> Seq<char> {
        match self {
            HttpStatus::Continue => "100 Continue"@,
            HttpStatus::SwitchingProtocols => "101 SwitchingProtocols"@,
            HttpStatus::OK => "200 OK"@,
            HttpStatus::Created => "201 Created"@,
            HttpStatus::Accepted => "202 Accepted"@,
            HttpStatus::NoContent => "204 NoContent"@,
            HttpStatus::MovedPermanently => "301 MovedPermanently"@,
            HttpStatus::Found => "302 Found"@,
            HttpStatus::NotModified => "304 NotModified"@,
            HttpStatus::BadRequest => "400 BadRequest"@,
            HttpStatus::Unauthorized => "401 Unauthorized"@,
            HttpStatus::Forbidden => "403 Forbidden"@,
            HttpStatus::NotFound => "404 NotFound"@,
            HttpStatus::MethodNotAllowed => "405 MethodNotAllowed"@,
            HttpStatus::InternalServerError => "500 InternalServerError"@,
            HttpStatus::NotImplemented => "501 NotImplemented"@,
            HttpStatus::BadGateway => "502 BadGateway"@,
            HttpStatus::ServiceUnavailable => "503 ServiceUnavailable"@,
        }
    }

    /// The numeric code of this status.
    pub fn code(&self) -> (c: u16)
        ensures
            c as int == self.code_spec(),
    {
        match self {
            HttpStatus::Continue => 100,
            HttpStatus::SwitchingProtocols => 101,
            HttpStatus::OK => 200,
            HttpStatus::Created => 201,
            HttpStatus::Accepted => 202,
            HttpStatus::NoContent => 204,
            HttpStatus::MovedPermanently => 301,
            HttpStatus::Found => 302,
            HttpStatus::NotModified => 304,
            HttpStatus::BadRequest => 400,
            HttpStatus::Unauthorized => 401,
            HttpStatus::Forbidden => 403,
            HttpStatus::NotFound => 404,
            HttpStatus::MethodNotAllowed => 405,
            HttpStatus::InternalServerError => 500,
            HttpStatus::NotImplemented => 501,
            HttpStatus::BadGateway => 502,
            HttpStatus::ServiceUnavailable => 503,
        }
    }

    /// The category this status belongs to.
    pub fn category(&self) -> (c: StatusCategory)
        ensures
            c == self.category_spec(),
    {
        let code = self.code();
        if code < 200 {
            StatusCategory::Informational
        } else if code < 300 {
            StatusCategory::Success
        } else if code < 400 {
            StatusCategory::Redirection
        } else if code < 500 {
            StatusCategory::ClientError
        } else {
            StatusCategory::ServerError
        }
    }

    /// Renders the status as `"<code> <Name>"`, the form used in a
    /// response's status line.
    pub fn render(&self) -> (r: String)
        ensures
            r@ == self.text_spec(),
    {
        match self {
            HttpStatus::Continue => String::from_str("100 Continue"),
            HttpStatus::SwitchingProtocols => String::from_str("101 SwitchingProtocols"),
            HttpStatus::OK => String::from_str("200 OK"),
            HttpStatus::Created => String::from_str("201 Created"),
            HttpStatus::Accepted => String::from_str("202 Accepted"),
            HttpStatus::NoContent => String::from_str("204 NoContent"),
            HttpStatus::MovedPermanently => String::from_str("301 MovedPermanently"),
            HttpStatus::Found => String::from_str("302 Found"),
            HttpStatus::NotModified => String::from_str("304 NotModified"),
            HttpStatus::BadRequest => String::from_str("400 BadRequest"),
            HttpStatus::Unauthorized => String::from_str("401 Unauthorized"),
            HttpStatus::Forbidden => String::from_str("403 Forbidden"),
            HttpStatus::NotFound => String::from_str("404 NotFound"),
            HttpStatus::MethodNotAllowed => String::from_str("405 MethodNotAllowed"),
            HttpStatus::InternalServerError => String::from_str("500 InternalServerError"),
            HttpStatus::NotImplemented => String::from_str("501 NotImplemented"),
            HttpStatus::BadGateway => String::from_str("502 BadGateway"),
            HttpStatus::ServiceUnavailable => String::from_str("503 ServiceUnavailable"),
        }
    }
}

/// No status renders with a carriage return or line feed in it.
pub proof fn lemma_status_text_crlf_free(s: HttpStatus)
    ensures
        crate::text::crlf_free(s.text_spec()),
{
    reveal_strlit("100 Continue");
    reveal_strlit("101 SwitchingProtocols");
    reveal_strlit("200 OK");
    reveal_strlit("201 Created");
    reveal_strlit("202 Accepted");
    reveal_strlit("204 NoContent");
    reveal_strlit("301 MovedPermanently");
    reveal_strlit("302 Found");
    reveal_strlit("304 NotModified");
    reveal_strlit("400 BadRequest");
    reveal_strlit("401 Unauthorized");
    reveal_strlit("403 Forbidden");
    reveal_strlit("404 NotFound");
    reveal_strlit("405 MethodNotAllowed");
    reveal_strlit("500 InternalServerError");
    reveal_strlit("501 NotImplemented");
    reveal_strlit("502 BadGateway");
    reveal_strlit("503 ServiceUnavailable");
}

impl Default for HttpStatus {
    /// A fresh status is `OK`.
    fn default() -> (r: Self)
        ensures
            r == HttpStatus::OK,
    {
        HttpStatus::OK
    }
}

} // verus!
