//! What a refused request of the admin API is answered.
use crate::json;
use vstd::prelude::*;
use vstd::string::*;

verus! {

/// Why a request was refused, with a message for the client.
#[derive(Debug)]
pub enum ApiError {
    BadRequest(String),
    NotFound(String),
    Conflict(String),
    Internal(String),
}

/// The contents of an [`ApiError`].
pub enum ApiErrorView {
    BadRequest(Seq<char>),
    NotFound(Seq<char>),
    Conflict(Seq<char>),
    Internal(Seq<char>),
}

impl View for ApiError {
    type V = ApiErrorView;

    open spec fn view(&self) -> ApiErrorView {
        match self {
            ApiError::BadRequest(m) => ApiErrorView::BadRequest(m@),
            ApiError::NotFound(m) => ApiErrorView::NotFound(m@),
            ApiError::Conflict(m) => ApiErrorView::Conflict(m@),
            ApiError::Internal(m) => ApiErrorView::Internal(m@),
        }
    }
}

impl ApiErrorView {
    /// The HTTP status that reports the error.
    pub open spec fn status(self) -> u16 {
        match self {
            ApiErrorView::BadRequest(_) => 400,
            ApiErrorView::NotFound(_) => 404,
            ApiErrorView::Conflict(_) => 409,
            ApiErrorView::Internal(_) => 500,
        }
    }

    /// The message for the client.
    pub open spec fn message(self) -> Seq<char> {
        match self {
            ApiErrorView::BadRequest(m) => m,
            ApiErrorView::NotFound(m) => m,
            ApiErrorView::Conflict(m) => m,
            ApiErrorView::Internal(m) => m,
        }
    }

    /// The JSON value that the client is sent: an object with the message under `error`.
    pub open spec fn body(self) -> serde_json::Value {
        json::json_object(seq![("error"@, json::json_string(self.message()))])
    }
}

impl ApiError {
    /// The HTTP status and the JSON body that answer the request.
    pub fn into_response(self) -> (r: (u16, String))
        ensures
            r.0 == self@.status(),
            r.1@ == json::json_text(self@.body()),
    {
        let (status, message): (u16, String) = match self {
            ApiError::BadRequest(m) => (400, m),
            ApiError::NotFound(m) => (404, m),
            ApiError::Conflict(m) => (409, m),
            ApiError::Internal(m) => (500, m),
        };
        let fields = vec![("error".to_owned(), json::string_value(message))];
        assert(json::field_views(fields@) =~= seq![("error"@, json::json_string(message@))]);
        (status, json::write_json(&json::object_value(fields)))
    }
}

/// Each error is answered with its own status, whatever its message, and with a JSON object that
/// holds the message, as it is, under `error` and nothing else.
pub proof fn law_answers_to_errors(message: Seq<char>)
    ensures
        ApiErrorView::BadRequest(message).status() == 400,
        ApiErrorView::NotFound(message).status() == 404,
        ApiErrorView::Conflict(message).status() == 409,
        ApiErrorView::Internal(message).status() == 500,
        ({
            let answer = json::json_object(seq![("error"@, json::json_string(message))]);
            &&& ApiErrorView::BadRequest(message).body() == answer
            &&& ApiErrorView::NotFound(message).body() == answer
            &&& ApiErrorView::Conflict(message).body() == answer
            &&& ApiErrorView::Internal(message).body() == answer
        }),
{
}

/// An error holds its message as it is.
pub proof fn law_contents_of_errors(message: String)
    ensures
        ApiError::BadRequest(message)@ == ApiErrorView::BadRequest(message@),
        ApiError::NotFound(message)@ == ApiErrorView::NotFound(message@),
        ApiError::Conflict(message)@ == ApiErrorView::Conflict(message@),
        ApiError::Internal(message)@ == ApiErrorView::Internal(message@),
{
}

}
