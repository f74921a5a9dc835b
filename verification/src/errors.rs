//! The protocol's closed error taxonomy: client error kinds (codes 100-115)
//! and server error kinds (codes 120-128, code 122 unassigned), each carrying
//! a free-form diagnostic string. The numeric code and the fixed description
//! are pure functions of the kind and are never stored redundantly.

use vstd::prelude::*;

verus! {

/// Diagnostic detail attached to a protocol error; carries additional
/// information about what went wrong, sent back to the client.
#[derive(Debug)]
pub struct Error {
    info: String,
}

impl Clone for Error {
    fn clone(&self) -> (r: Self)
        ensures
            r@ == self@,
    {
        Error { info: self.info.clone() }
    }
}

impl Error {
    /// Builds a diagnostic from its message text.
    pub fn new(info: String) -> (r: Error)
        ensures
            r@ == info@,
    {
        Error { info }
    }

    /// The diagnostic message text.
    pub fn info(&self) -> (r: &String)
        ensures
            r@ == self@,
    {
        &self.info
    }

    /// The view of the diagnostic message.
    pub closed spec fn view(&self) -> Seq<char> {
        self.info@
    }
}

/// The closed set of protocol error kinds. Client errors carry codes
/// 100 through 115; server errors carry 120 through 128, skipping 122.
#[derive(Debug)]
pub enum ProtocolError {
    /// 100 - Bad Request: the request could not be understood or was missing required parameters.
    BadRequest100(Error),
    /// 101 - Unauthorized: authentication is required and has failed or has not been provided.
    Unauthorized101(Error),
    /// 102 - Forbidden: the request is understood, but it has been refused or access is not allowed.
    Forbidden102(Error),
    /// 103 - Not Found: the requested resource could not be found.
    NotFound103(Error),
    /// 104 - Method Not Allowed: the method specified in the request is not allowed for the resource.
    MethodNotAllowed104(Error),
    /// 105 - Not Acceptable: the resource can only generate content not acceptable to the request.
    NotAcceptable105(Error),
    /// 106 - Proxy Authentication Required: authentication with a proxy is required.
    ProxyAuthenticationRequired106(Error),
    /// 107 - Request Timeout: the server timed out waiting for the request.
    RequestTimeout107(Error),
    /// 108 - Conflict: the request conflicts with the current state of the resource.
    Conflict108(Error),
    /// 109 - Gone: the requested resource is no longer available and will not be available again.
    Gone109(Error),
    /// 110 - Precondition Failed: a precondition put on the request does not hold.
    PreconditionFailed110(Error),
    /// 111 - Payload Too Large: the request is larger than the server is willing or able to process.
    PayloadTooLarge111(Error),
    /// 112 - Unprocessable Content: the content type is understood but the instructions are not.
    UnprocessableContent112(Error),
    /// 113 - Locked: the resource is currently locked and cannot be accessed.
    Locked113(Error),
    /// 114 - Too Many Requests: the user has sent too many requests in a given amount of time.
    TooManyRequests114(Error),
    /// 115 - Request Header Too Large: the request headers are too large for the server to process.
    RequestHeaderTooLarge115(Error),
    /// 120 - Internal Server Error: an unexpected condition was encountered on the server.
    InternalServerError120(Error),
    /// 121 - Bad Gateway: the server received an invalid response from the upstream server.
    BadGateway121(Error),
    /// 123 - Service Unavailable: the server is temporarily unable to handle the request.
    ServiceUnavailable123(Error),
    /// 124 - Gateway Timeout: the server did not receive a timely response from an upstream server.
    GatewayTimeout124(Error),
    /// 125 - MTP Version Not Supported: the protocol version of the request is not supported.
    MTPVersionNotSupported125(Error),
    /// 126 - Insufficient Storage: the server cannot store what is needed to complete the request.
    InsufficientStorage126(Error),
    /// 127 - Loop Detected: the server detected an infinite loop while processing the request.
    LoopDetected127(Error),
    /// 128 - Network Authentication Required: the request requires network authentication.
    NetworkAuthenticationRequired128(Error),
}

impl Clone for ProtocolError {
    fn clone(&self) -> (r: Self)
        ensures
            r.code_spec() == self.code_spec(),
            r.info_view() == self.info_view(),
    {
        match self {
            Self::BadRequest100(e) => Self::BadRequest100(e.clone()),
            Self::Unauthorized101(e) => Self::Unauthorized101(e.clone()),
            Self::Forbidden102(e) => Self::Forbidden102(e.clone()),
            Self::NotFound103(e) => Self::NotFound103(e.clone()),
            Self::MethodNotAllowed104(e) => Self::MethodNotAllowed104(e.clone()),
            Self::NotAcceptable105(e) => Self::NotAcceptable105(e.clone()),
            Self::ProxyAuthenticationRequired106(e) => Self::ProxyAuthenticationRequired106(
                e.clone(),
            ),
            Self::RequestTimeout107(e) => Self::RequestTimeout107(e.clone()),
            Self::Conflict108(e) => Self::Conflict108(e.clone()),
            Self::Gone109(e) => Self::Gone109(e.clone()),
            Self::PreconditionFailed110(e) => Self::PreconditionFailed110(e.clone()),
            Self::PayloadTooLarge111(e) => Self::PayloadTooLarge111(e.clone()),
            Self::UnprocessableContent112(e) => Self::UnprocessableContent112(e.clone()),
            Self::Locked113(e) => Self::Locked113(e.clone()),
            Self::TooManyRequests114(e) => Self::TooManyRequests114(e.clone()),
            Self::RequestHeaderTooLarge115(e) => Self::RequestHeaderTooLarge115(e.clone()),
            Self::InternalServerError120(e) => Self::InternalServerError120(e.clone()),
            Self::BadGateway121(e) => Self::BadGateway121(e.clone()),
            Self::ServiceUnavailable123(e) => Self::ServiceUnavailable123(e.clone()),
            Self::GatewayTimeout124(e) => Self::GatewayTimeout124(e.clone()),
            Self::MTPVersionNotSupported125(e) => Self::MTPVersionNotSupported125(e.clone()),
            Self::InsufficientStorage126(e) => Self::InsufficientStorage126(e.clone()),
            Self::LoopDetected127(e) => Self::LoopDetected127(e.clone()),
            Self::NetworkAuthenticationRequired128(e) => Self::NetworkAuthenticationRequired128(
                e.clone(),
            ),
        }
    }
}

impl ProtocolError {
    /// The diagnostic text carried inside the error, whatever its kind.
    pub open spec fn info_view(&self) -> Seq<char> {
        match self {
            ProtocolError::BadRequest100(e) => e@,
            ProtocolError::Unauthorized101(e) => e@,
            ProtocolError::Forbidden102(e) => e@,
            ProtocolError::NotFound103(e) => e@,
            ProtocolError::MethodNotAllowed104(e) => e@,
            ProtocolError::NotAcceptable105(e) => e@,
            ProtocolError::ProxyAuthenticationRequired106(e) => e@,
            ProtocolError::RequestTimeout107(e) => e@,
            ProtocolError::Conflict108(e) => e@,
            ProtocolError::Gone109(e) => e@,
            ProtocolError::PreconditionFailed110(e) => e@,
            ProtocolError::PayloadTooLarge111(e) => e@,
            ProtocolError::UnprocessableContent112(e) => e@,
            ProtocolError::Locked113(e) => e@,
            ProtocolError::TooManyRequests114(e) => e@,
            ProtocolError::RequestHeaderTooLarge115(e) => e@,
            ProtocolError::InternalServerError120(e) => e@,
            ProtocolError::BadGateway121(e) => e@,
            ProtocolError::ServiceUnavailable123(e) => e@,
            ProtocolError::GatewayTimeout124(e) => e@,
            ProtocolError::MTPVersionNotSupported125(e) => e@,
            ProtocolError::InsufficientStorage126(e) => e@,
            ProtocolError::LoopDetected127(e) => e@,
            ProtocolError::NetworkAuthenticationRequired128(e) => e@,
        }
    }

    /// The numeric code of an error kind, as a pure function of the kind.
    pub open spec fn code_spec(&self) -> u32 {
        match self {
            ProtocolError::BadRequest100(_) => 100,
            ProtocolError::Unauthorized101(_) => 101,
            ProtocolError::Forbidden102(_) => 102,
            ProtocolError::NotFound103(_) => 103,
            ProtocolError::MethodNotAllowed104(_) => 104,
            ProtocolError::NotAcceptable105(_) => 105,
            ProtocolError::ProxyAuthenticationRequired106(_) => 106,
            ProtocolError::RequestTimeout107(_) => 107,
            ProtocolError::Conflict108(_) => 108,
            ProtocolError::Gone109(_) => 109,
            ProtocolError::PreconditionFailed110(_) => 110,
            ProtocolError::PayloadTooLarge111(_) => 111,
            ProtocolError::UnprocessableContent112(_) => 112,
            ProtocolError::Locked113(_) => 113,
            ProtocolError::TooManyRequests114(_) => 114,
            ProtocolError::RequestHeaderTooLarge115(_) => 115,
            ProtocolError::InternalServerError120(_) => 120,
            ProtocolError::BadGateway121(_) => 121,
            ProtocolError::ServiceUnavailable123(_) => 123,
            ProtocolError::GatewayTimeout124(_) => 124,
            ProtocolError::MTPVersionNotSupported125(_) => 125,
            ProtocolError::InsufficientStorage126(_) => 126,
            ProtocolError::LoopDetected127(_) => 127,
            ProtocolError::NetworkAuthenticationRequired128(_) => 128,
        }
    }

    /// True of every code the taxonomy can produce: a client code in
    /// 100..=115 or a server code in 120..=128 other than 122.
    pub open spec fn valid_code(code: u32) -> bool {
        (100 <= code <= 115) || (120 <= code <= 128 && code != 122)
    }

    /// The diagnostic message carried inside the error.
    pub fn info(&self) -> (r: &String)
        ensures
            r@ == self.info_view(),
    {
        match self {
            ProtocolError::BadRequest100(e) => e.info(),
            ProtocolError::Unauthorized101(e) => e.info(),
            ProtocolError::Forbidden102(e) => e.info(),
            ProtocolError::NotFound103(e) => e.info(),
            ProtocolError::MethodNotAllowed104(e) => e.info(),
            ProtocolError::NotAcceptable105(e) => e.info(),
            ProtocolError::ProxyAuthenticationRequired106(e) => e.info(),
            ProtocolError::RequestTimeout107(e) => e.info(),
            ProtocolError::Conflict108(e) => e.info(),
            ProtocolError::Gone109(e) => e.info(),
            ProtocolError::PreconditionFailed110(e) => e.info(),
            ProtocolError::PayloadTooLarge111(e) => e.info(),
            ProtocolError::UnprocessableContent112(e) => e.info(),
            ProtocolError::Locked113(e) => e.info(),
            ProtocolError::TooManyRequests114(e) => e.info(),
            ProtocolError::RequestHeaderTooLarge115(e) => e.info(),
            ProtocolError::InternalServerError120(e) => e.info(),
            ProtocolError::BadGateway121(e) => e.info(),
            ProtocolError::ServiceUnavailable123(e) => e.info(),
            ProtocolError::GatewayTimeout124(e) => e.info(),
            ProtocolError::MTPVersionNotSupported125(e) => e.info(),
            ProtocolError::InsufficientStorage126(e) => e.info(),
            ProtocolError::LoopDetected127(e) => e.info(),
            ProtocolError::NetworkAuthenticationRequired128(e) => e.info(),
        }
    }

    /// Returns the numeric code associated with the error.
    pub fn code(&self) -> (c: u32)
        ensures
            c == self.code_spec(),
    {
        match self {
            ProtocolError::BadRequest100(_) => 100,
            ProtocolError::Unauthorized101(_) => 101,
            ProtocolError::Forbidden102(_) => 102,
            ProtocolError::NotFound103(_) => 103,
            ProtocolError::MethodNotAllowed104(_) => 104,
            ProtocolError::NotAcceptable105(_) => 105,
            ProtocolError::ProxyAuthenticationRequired106(_) => 106,
            ProtocolError::RequestTimeout107(_) => 107,
            ProtocolError::Conflict108(_) => 108,
            ProtocolError::Gone109(_) => 109,
            ProtocolError::PreconditionFailed110(_) => 110,
            ProtocolError::PayloadTooLarge111(_) => 111,
            ProtocolError::UnprocessableContent112(_) => 112,
            ProtocolError::Locked113(_) => 113,
            ProtocolError::TooManyRequests114(_) => 114,
            ProtocolError::RequestHeaderTooLarge115(_) => 115,
            ProtocolError::InternalServerError120(_) => 120,
            ProtocolError::BadGateway121(_) => 121,
            ProtocolError::ServiceUnavailable123(_) => 123,
            ProtocolError::GatewayTimeout124(_) => 124,
            ProtocolError::MTPVersionNotSupported125(_) => 125,
            ProtocolError::InsufficientStorage126(_) => 126,
            ProtocolError::LoopDetected127(_) => 127,
            ProtocolError::NetworkAuthenticationRequired128(_) => 128,
        }
    }

    /// Every code this taxonomy produces lies in the documented ranges:
    /// client codes 100 through 115, server codes 120 through 128 except 122.
    pub proof fn lemma_code_in_range(&self)
        ensures
            Self::valid_code(self.code_spec()),
    {
    }

    /// Returns the fixed description of the error kind.
    pub fn description(&self) -> (d: &'static str)
        ensures
            d@ == self.description_spec(),
    {
        match self {
            ProtocolError::BadRequest100(_) => "100 - Bad Request: The request could not be understood or was missing required parameters.",
            ProtocolError::Unauthorized101(_) => "101 - Unauthorized: Authentication is required and has failed or has not been provided.",
            ProtocolError::Forbidden102(_) => "102 - Forbidden: The request is understood, but it has been refused or access is not allowed.",
            ProtocolError::NotFound103(_) => "103 - Not Found: The requested resource could not be found.",
            ProtocolError::MethodNotAllowed104(_) => "104 - Method Not Allowed: The method specified in the request is not allowed for the resource.",
            ProtocolError::NotAcceptable105(_) => "105 - Not Acceptable: The resource is capable of generating only content not acceptable according to the Accept headers sent in the request.",
            ProtocolError::ProxyAuthenticationRequired106(_) => "106 - Proxy Authentication Required: Authentication with a proxy is required.",
            ProtocolError::RequestTimeout107(_) => "107 - Request Timeout: The server timed out waiting for the request.",
            ProtocolError::Conflict108(_) => "108 - Conflict: The request could not be processed because of conflict in the current state of the resource.",
            ProtocolError::Gone109(_) => "109 - Gone: The requested resource is no longer available and will not be available again.",
            ProtocolError::PreconditionFailed110(_) => "110 - Precondition Failed: The server does not meet one of the preconditions that the requester put on the request.",
            ProtocolError::PayloadTooLarge111(_) => "111 - Payload Too Large: The request is larger than the server is willing or able to process.",
            ProtocolError::UnprocessableContent112(_) => "112 - Unprocessable Content: The server understands the content type of the request entity, but was unable to process the contained instructions.",
            ProtocolError::Locked113(_) => "113 - Locked: The resource is currently locked and cannot be accessed.",
            ProtocolError::TooManyRequests114(_) => "114 - Too Many Requests: The user has sent too many requests in a given amount of time.",
            ProtocolError::RequestHeaderTooLarge115(_) => "115 - Request Header Too Large: The request headers are too large for the server to process.",
            ProtocolError::InternalServerError120(_) => "120 - Internal Server Error: An unexpected condition was encountered on the server.",
            ProtocolError::BadGateway121(_) => "121 - Bad Gateway: The server received an invalid response from the upstream server.",
            ProtocolError::ServiceUnavailable123(_) => "123 - Service Unavailable: The server is currently unable to handle the request due to a temporary overload or maintenance.",
            ProtocolError::GatewayTimeout124(_) => "124 - Gateway Timeout: The server did not receive a timely response from the upstream server or some other auxiliary server.",
            ProtocolError::MTPVersionNotSupported125(_) => "125 - MTP Version Not Supported: The MTP version used in the request is not supported by the server.",
            ProtocolError::InsufficientStorage126(_) => "126 - Insufficient Storage: The server is unable to store the representation needed to complete the request.",
            ProtocolError::LoopDetected127(_) => "127 - Loop Detected: The server detected an infinite loop while processing the request.",
            ProtocolError::NetworkAuthenticationRequired128(_) => "128 - Network Authentication Required: The request requires network authentication.",
        }
    }

    /// The fixed description text of an error kind, as a pure function of the kind.
    pub open spec fn description_spec(&self) -> Seq<char> {
        match self {
            ProtocolError::BadRequest100(_) => "100 - Bad Request: The request could not be understood or was missing required parameters."@,
            ProtocolError::Unauthorized101(_) => "101 - Unauthorized: Authentication is required and has failed or has not been provided."@,
            ProtocolError::Forbidden102(_) => "102 - Forbidden: The request is understood, but it has been refused or access is not allowed."@,
            ProtocolError::NotFound103(_) => "103 - Not Found: The requested resource could not be found."@,
            ProtocolError::MethodNotAllowed104(_) => "104 - Method Not Allowed: The method specified in the request is not allowed for the resource."@,
            ProtocolError::NotAcceptable105(_) => "105 - Not Acceptable: The resource is capable of generating only content not acceptable according to the Accept headers sent in the request."@,
            ProtocolError::ProxyAuthenticationRequired106(_) => "106 - Proxy Authentication Required: Authentication with a proxy is required."@,
            ProtocolError::RequestTimeout107(_) => "107 - Request Timeout: The server timed out waiting for the request."@,
            ProtocolError::Conflict108(_) => "108 - Conflict: The request could not be processed because of conflict in the current state of the resource."@,
            ProtocolError::Gone109(_) => "109 - Gone: The requested resource is no longer available and will not be available again."@,
            ProtocolError::PreconditionFailed110(_) => "110 - Precondition Failed: The server does not meet one of the preconditions that the requester put on the request."@,
            ProtocolError::PayloadTooLarge111(_) => "111 - Payload Too Large: The request is larger than the server is willing or able to process."@,
            ProtocolError::UnprocessableContent112(_) => "112 - Unprocessable Content: The server understands the content type of the request entity, but was unable to process the contained instructions."@,
            ProtocolError::Locked113(_) => "113 - Locked: The resource is currently locked and cannot be accessed."@,
            ProtocolError::TooManyRequests114(_) => "114 - Too Many Requests: The user has sent too many requests in a given amount of time."@,
            ProtocolError::RequestHeaderTooLarge115(_) => "115 - Request Header Too Large: The request headers are too large for the server to process."@,
            ProtocolError::InternalServerError120(_) => "120 - Internal Server Error: An unexpected condition was encountered on the server."@,
            ProtocolError::BadGateway121(_) => "121 - Bad Gateway: The server received an invalid response from the upstream server."@,
            ProtocolError::ServiceUnavailable123(_) => "123 - Service Unavailable: The server is currently unable to handle the request due to a temporary overload or maintenance."@,
            ProtocolError::GatewayTimeout124(_) => "124 - Gateway Timeout: The server did not receive a timely response from the upstream server or some other auxiliary server."@,
            ProtocolError::MTPVersionNotSupported125(_) => "125 - MTP Version Not Supported: The MTP version used in the request is not supported by the server."@,
            ProtocolError::InsufficientStorage126(_) => "126 - Insufficient Storage: The server is unable to store the representation needed to complete the request."@,
            ProtocolError::LoopDetected127(_) => "127 - Loop Detected: The server detected an infinite loop while processing the request."@,
            ProtocolError::NetworkAuthenticationRequired128(_) => "128 - Network Authentication Required: The request requires network authentication."@,
        }
    }
}

} // verus!
