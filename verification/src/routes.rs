//! What the pages of the HTTP server answer.
use crate::glow::State;
use vstd::prelude::*;

verus! {

/// The body of an answer: text, or the state of the display as JSON.
#[derive(Debug, PartialEq)]
pub enum Body<'a> {
    Text(&'a str),
    Json(&'a State),
}

/// An answer. Without a content type, the one that goes with the body is used.
#[derive(Debug, PartialEq)]
pub struct Response<'a> {
    pub status: u16,
    pub content_type: Option<&'static str>,
    pub body: Body<'a>,
}

/// `prometheus::TEXT_FORMAT`: the content type of the text format for metrics.
#[verifier::external_body]
fn text_format() -> (format: &'static str)
    ensures
        format@ == "text/plain; version=0.0.4"@,
{
    prometheus::TEXT_FORMAT
}

/// `GET /`: the start page.
pub fn index<'a>(page: &'a str) -> (r: Response<'a>)
    ensures
        r == (Response { status: 200, content_type: None, body: Body::Text(page) }),
{
    Response { status: 200, content_type: None, body: Body::Text(page) }
}

/// `GET /sensor`: what is known of the display, or "not found" while nothing is.
pub fn sensorpage<'a>(sensor: &'a Option<State>) -> (r: Response<'a>)
    ensures
        r.content_type is None,
        match sensor {
            None => r.status == 404 && (r.body matches Body::Text(text) && text@
                == "sensor data not collected yet"@),
            Some(state) => r.status == 200 && r.body == Body::Json(state),
        },
{
    match sensor {
        None => Response {
            status: 404,
            content_type: None,
            body: Body::Text("sensor data not collected yet"),
        },
        Some(state) => Response { status: 200, content_type: None, body: Body::Json(state) },
    }
}

/// `GET /metrics`: the text of the metrics as it was last exported.
pub fn metrics<'a>(cache: &'a String) -> (r: Response<'a>)
    ensures
        r.status == 200,
        r.content_type matches Some(format) && format@ == "text/plain; version=0.0.4"@,
        r.body matches Body::Text(text) && text@ == cache@,
{
    Response { status: 200, content_type: Some(text_format()), body: Body::Text(cache.as_str()) }
}

} // verus!
