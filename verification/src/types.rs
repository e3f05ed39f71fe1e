use vstd::prelude::*;

verus! {

/// The HTTP methods a load test can exercise. A closed set: adding a method
/// means extending every match over this enum.
#[derive(Clone, Copy, Debug, PartialEq, Eq, Structural)]
pub enum HttpMethods {
    POST,
    GET,
}

impl HttpMethods {
    /// The request-line name of the method.
    pub fn method_name(&self) -> (r: String)
        ensures
            *self == HttpMethods::GET ==> r@ == "GET"@,
            *self == HttpMethods::POST ==> r@ == "POST"@,
    {
        match self {
            HttpMethods::GET => "GET".to_owned(),
            HttpMethods::POST => "POST".to_owned(),
        }
    }
}

/// The payload encodings a test can declare for its request body.
#[derive(Clone, Copy, Debug, PartialEq, Eq, Structural)]
pub enum ContentType {
    JSON,
}

impl ContentType {
    /// The `Content-Type` header value that this encoding puts on the wire.
    pub open spec fn spec_header_value(&self) -> Seq<char> {
        match self {
            ContentType::JSON => "application/json"@,
        }
    }

    /// The `Content-Type` header value that this encoding puts on the wire.
    pub fn header_value(&self) -> (r: String)
        ensures
            r@ == self.spec_header_value(),
    {
        match self {
            ContentType::JSON => "application/json".to_owned(),
        }
    }
}

/// The immutable description of one load-test run: the target and method,
/// how many parallel workers to drive (`tasks`), how long to drive them in
/// whole seconds (`seconds`), and an optional absolute start instant given
/// as non-leap microseconds since the Unix epoch.
#[derive(Clone, Debug)]
pub struct CreateTest {
    pub method: HttpMethods,
    pub tasks: u64,
    pub seconds: u64,
    pub start_at: Option<i64>,
    pub url: String,
    pub content_type: Option<ContentType>,
    pub body: Option<String>,
}

/// The outcome of one issued request, owned by the worker that issued it:
/// the whole second (counted from the worker's launch) in which the request
/// started, the status code if a response arrived, the transport error
/// description if none did, and the elapsed time of the request.
#[derive(Clone, Debug)]
pub struct Test {
    pub second: i64,
    pub error_code: Option<String>,
    pub response_code: Option<u16>,
    pub response_time: u64,
}

impl Test {
    /// A recorded outcome carries a status code exactly when no transport
    /// error was recorded: one of the two is always present, never both.
    pub open spec fn wf(&self) -> bool {
        self.error_code is Some <==> self.response_code is None
    }
}

/// One worker's summary of one whole second of the run: how many requests
/// started in that second, the status codes and transport errors they
/// produced, in order, and the mean latency over them (zero for an empty
/// second).
#[derive(Clone, Debug)]
pub struct TestResult {
    pub second: i64,
    pub error_codes: Vec<String>,
    pub response_codes: Vec<u16>,
    pub requests: i64,
    pub avg_response_time: u64,
}

} // verus!
