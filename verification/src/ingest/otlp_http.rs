//! OTLP over HTTP: which bodies are accepted, how they are decoded, and what a
//! failure is answered.

use crate::ingest::otlp_wire::{decode_logs, decode_metrics, decode_traces, logs_in, logs_message, metrics_in, metrics_message, trace_message, traces_in};
use crate::text::{ascii_lower, ascii_lowercase, begins_with, has_prefix, opt_text, same};
use opentelemetry_proto::tonic::collector::logs::v1::ExportLogsServiceRequest;
use opentelemetry_proto::tonic::collector::metrics::v1::ExportMetricsServiceRequest;
use opentelemetry_proto::tonic::collector::trace::v1::ExportTraceServiceRequest;
use std::io::Read;
use vstd::prelude::*;

verus! {

/// Cap on a decompressed body, in bytes. A small body could otherwise
/// decompress without bound.
pub const MAX_DECOMPRESSED_BYTES: u64 = 0x400_0000;

/// A failed export: the HTTP status, and a readable message.
#[derive(Debug)]
pub struct ErrorResponse {
    pub status: u16,
    pub message: String,
}

pub struct ErrorModel {
    pub status: u16,
    pub message: Seq<char>,
}

impl View for ErrorResponse {
    type V = ErrorModel;

    open spec fn view(&self) -> ErrorModel {
        ErrorModel { status: self.status, message: self.message@ }
    }
}

/// What the flate2 crate makes of a gzip body, cut off at a limit, or what it
/// says is wrong with it.
pub uninterp spec fn gunzipped(body: Seq<u8>, limit: u64) -> Result<Seq<u8>, Seq<char>>;

/// Reads flate2's `GzDecoder` to its end through std's `take`. Claims that the
/// outcome is a function of the body and the limit, and that no more bytes come
/// out than the limit allows.
#[verifier::external_body]
fn flate2_gunzip(body: &Vec<u8>, limit: u64) -> (r: Result<Vec<u8>, String>)
    ensures
        match r {
            Ok(v) => gunzipped(body@, limit) == Ok::<Seq<u8>, Seq<char>>(v@) && v@.len() <= limit,
            Err(e) => gunzipped(body@, limit) == Err::<Seq<u8>, Seq<char>>(e@),
        },
{
    let mut out = Vec::new();
    match flate2::read::GzDecoder::new(body.as_slice()).take(limit).read_to_end(&mut out) {
        Ok(_) => Ok(out),
        Err(e) => Err(e.to_string()),
    }
}

/// How a body is encoded.
#[derive(Debug, Clone, Copy, PartialEq, Eq, Structural)]
pub enum Encoding {
    Identity,
    Gzip,
    /// A codec that was never advertised.
    Unsupported,
}

pub open spec fn is_ignoring_case(s: Seq<char>, lower: Seq<char>) -> bool {
    s.map_values(|c: char| ascii_lower(c)) == lower
}

/// An absent encoding, an empty one and `identity` all leave a body as it is.
pub open spec fn encoding_named(encoding: Option<Seq<char>>) -> Encoding {
    match encoding {
        Some(e) => if is_ignoring_case(e, "gzip"@) {
            Encoding::Gzip
        } else if e.len() > 0 && !is_ignoring_case(e, "identity"@) {
            Encoding::Unsupported
        } else {
            Encoding::Identity
        },
        None => Encoding::Identity,
    }
}

pub fn encoding_of(encoding: &Option<String>) -> (r: Encoding)
    ensures
        r == encoding_named(opt_text(*encoding)),
{
    match encoding {
        Some(e) => {
            let lower = ascii_lowercase(e.as_str());
            if same(lower.as_str(), "gzip") {
                Encoding::Gzip
            } else if !e.as_str().is_empty() && !same(lower.as_str(), "identity") {
                Encoding::Unsupported
            } else {
                Encoding::Identity
            }
        },
        None => Encoding::Identity,
    }
}

/// Whether a content type is one that is not decoded.
pub open spec fn is_json(content_type: Option<Seq<char>>) -> bool {
    match content_type {
        Some(ct) => has_prefix(ct, "application/json"@),
        None => false,
    }
}

/// The message in a body, given what came out of the decompressor, or what is
/// answered in its place.
pub open spec fn unwrapped(
    content_type: Option<Seq<char>>,
    encoding: Option<Seq<char>>,
    body: Seq<u8>,
    decompressed: Result<Seq<u8>, Seq<char>>,
) -> Result<Seq<u8>, ErrorModel> {
    if is_json(content_type) {
        Err(
            ErrorModel {
                status: 415,
                message:
                    "OTLP/JSON is not supported; export with application/x-protobuf (OTEL_EXPORTER_OTLP_PROTOCOL=http/protobuf)"@,
            },
        )
    } else {
        match encoding_named(encoding) {
            Encoding::Identity => Ok(body),
            Encoding::Gzip => match decompressed {
                Ok(v) => Ok(v),
                Err(e) => Err(ErrorModel { status: 400, message: "gzip decode failed: "@ + e }),
            },
            Encoding::Unsupported => Err(
                ErrorModel {
                    status: 415,
                    message: "unsupported Content-Encoding `"@ + encoding->0
                        + "`; use gzip or identity"@,
                },
            ),
        }
    }
}

pub open spec fn body_outcome(r: Result<Vec<u8>, ErrorResponse>) -> Result<Seq<u8>, ErrorModel> {
    match r {
        Ok(v) => Ok(v@),
        Err(e) => Err(e@),
    }
}

/// Take a body out of its encoding, given what the decompressor makes of it.
pub fn unwrap_body(
    content_type: &Option<String>,
    encoding: &Option<String>,
    body: Vec<u8>,
    decompressed: Result<Vec<u8>, String>,
) -> (r: Result<Vec<u8>, ErrorResponse>)
    ensures
        body_outcome(r) == unwrapped(
            opt_text(*content_type),
            opt_text(*encoding),
            body@,
            match decompressed {
                Ok(v) => Ok(v@),
                Err(e) => Err(e@),
            },
        ),
{
    if let Some(ct) = content_type {
        if begins_with(ct.as_str(), "application/json") {
            return Err(
                ErrorResponse {
                    status: 415,
                    message:
                        "OTLP/JSON is not supported; export with application/x-protobuf (OTEL_EXPORTER_OTLP_PROTOCOL=http/protobuf)".to_owned(),
                },
            );
        }
    }
    match encoding_of(encoding) {
        Encoding::Identity => Ok(body),
        Encoding::Gzip => match decompressed {
            Ok(v) => Ok(v),
            Err(e) => {
                let mut message = "gzip decode failed: ".to_owned();
                message.append(e.as_str());
                Err(ErrorResponse { status: 400, message })
            },
        },
        Encoding::Unsupported => {
            let mut message = "unsupported Content-Encoding `".to_owned();
            if let Some(e) = encoding {
                message.append(e.as_str());
            }
            message.append("`; use gzip or identity");
            Err(ErrorResponse { status: 415, message })
        },
    }
}

/// The protobuf message in a body, or what is answered in its place.
pub open spec fn body_of(
    content_type: Option<Seq<char>>,
    encoding: Option<Seq<char>>,
    body: Seq<u8>,
) -> Result<Seq<u8>, ErrorModel> {
    unwrapped(content_type, encoding, body, gunzipped(body, MAX_DECOMPRESSED_BYTES))
}

/// Take a body out of its encoding.
pub fn read_body(
    content_type: &Option<String>,
    encoding: &Option<String>,
    body: Vec<u8>,
) -> (r: Result<Vec<u8>, ErrorResponse>)
    ensures
        body_outcome(r) == body_of(opt_text(*content_type), opt_text(*encoding), body@),
{
    let gzip = match encoding_of(encoding) {
        Encoding::Gzip => true,
        _ => false,
    };
    if gzip {
        let decompressed = flate2_gunzip(&body, MAX_DECOMPRESSED_BYTES);
        unwrap_body(content_type, encoding, body, decompressed)
    } else {
        unwrap_body(content_type, encoding, body, Err(String::new()))
    }
}

// ── Decoding ────────────────────────────────────────────────────────

fn decode_failed(e: &str) -> (r: ErrorResponse)
    ensures
        r@ == undecodable(e@),
{
    let mut message = "protobuf decode failed: ".to_owned();
    message.append(e);
    ErrorResponse { status: 400, message }
}

/// What is answered where prost refuses a message.
pub open spec fn undecodable(e: Seq<char>) -> ErrorModel {
    ErrorModel { status: 400, message: "protobuf decode failed: "@ + e }
}

/// Decode the body of a trace export.
pub fn trace_request(
    content_type: &Option<String>,
    encoding: &Option<String>,
    body: Vec<u8>,
) -> (r: Result<ExportTraceServiceRequest, ErrorResponse>)
    ensures
        match body_of(opt_text(*content_type), opt_text(*encoding), body@) {
            Err(e) => r matches Err(got) && got@ == e,
            Ok(raw) => match trace_message(raw) {
                Ok(spans) => r matches Ok(req) && traces_in(req) == spans,
                Err(e) => r matches Err(got) && got@ == undecodable(e),
            },
        },
{
    match read_body(content_type, encoding, body) {
        Err(e) => Err(e),
        Ok(raw) => match decode_traces(&raw) {
            Ok(req) => Ok(req),
            Err(e) => Err(decode_failed(e.as_str())),
        },
    }
}

/// Decode the body of a log export.
pub fn logs_request(
    content_type: &Option<String>,
    encoding: &Option<String>,
    body: Vec<u8>,
) -> (r: Result<ExportLogsServiceRequest, ErrorResponse>)
    ensures
        match body_of(opt_text(*content_type), opt_text(*encoding), body@) {
            Err(e) => r matches Err(got) && got@ == e,
            Ok(raw) => match logs_message(raw) {
                Ok(logs) => r matches Ok(req) && logs_in(req) == logs,
                Err(e) => r matches Err(got) && got@ == undecodable(e),
            },
        },
{
    match read_body(content_type, encoding, body) {
        Err(e) => Err(e),
        Ok(raw) => match decode_logs(&raw) {
            Ok(req) => Ok(req),
            Err(e) => Err(decode_failed(e.as_str())),
        },
    }
}

/// Decode the body of a metric export.
pub fn metrics_request(
    content_type: &Option<String>,
    encoding: &Option<String>,
    body: Vec<u8>,
) -> (r: Result<ExportMetricsServiceRequest, ErrorResponse>)
    ensures
        match body_of(opt_text(*content_type), opt_text(*encoding), body@) {
            Err(e) => r matches Err(got) && got@ == e,
            Ok(raw) => match metrics_message(raw) {
                Ok(metrics) => r matches Ok(req) && metrics_in(req) == metrics,
                Err(e) => r matches Err(got) && got@ == undecodable(e),
            },
        },
{
    match read_body(content_type, encoding, body) {
        Err(e) => Err(e),
        Ok(raw) => match decode_metrics(&raw) {
            Ok(req) => Ok(req),
            Err(e) => Err(decode_failed(e.as_str())),
        },
    }
}

// ── Failures of a service ───────────────────────────────────────────

/// The gRPC codes that an export can fail with.
#[derive(Debug, Clone, Copy, PartialEq, Eq, Structural)]
pub enum ServiceCode {
    InvalidArgument,
    Unauthenticated,
    PermissionDenied,
    ResourceExhausted,
    Unavailable,
    Internal,
    Other,
}

/// The HTTP status of a failed export. What may succeed later is answered with
/// a retryable status, so that the exporter resends the batch.
pub open spec fn status_of(code: ServiceCode) -> u16 {
    match code {
        ServiceCode::InvalidArgument => 400,
        ServiceCode::Unauthenticated => 401,
        ServiceCode::PermissionDenied => 403,
        ServiceCode::ResourceExhausted => 429,
        ServiceCode::Unavailable => 503,
        _ => 500,
    }
}

/// Map a service's failure onto an HTTP answer.
pub fn export_failed(code: ServiceCode, message: String) -> (r: ErrorResponse)
    ensures
        r@ == (ErrorModel { status: status_of(code), message: message@ }),
{
    let status: u16 = match code {
        ServiceCode::InvalidArgument => 400,
        ServiceCode::Unauthenticated => 401,
        ServiceCode::PermissionDenied => 403,
        ServiceCode::ResourceExhausted => 429,
        ServiceCode::Unavailable => 503,
        _ => 500,
    };
    ErrorResponse { status, message }
}

// ── Laws ────────────────────────────────────────────────────────────

/// A body that is not encoded is taken as it is, one that is zipped as it was
/// before; whatever else is refused, JSON before anything is read.
pub proof fn bodies_are_taken_as_they_were(
    content_type: Option<Seq<char>>,
    encoding: Option<Seq<char>>,
    body: Seq<u8>,
    plain: Seq<u8>,
    fault: Seq<char>,
)
    ensures
        content_type is None || !has_prefix(content_type->0, "application/json"@) ==> {
            &&& encoding is None ==> unwrapped(content_type, encoding, body, Ok(plain)) == Ok::<
                Seq<u8>,
                ErrorModel,
            >(body)
            &&& encoding == Some("identity"@) ==> unwrapped(content_type, encoding, body, Ok(plain))
                == Ok::<Seq<u8>, ErrorModel>(body)
            &&& encoding == Some("gzip"@) ==> unwrapped(content_type, encoding, body, Ok(plain))
                == Ok::<Seq<u8>, ErrorModel>(plain)
            &&& encoding == Some("GZIP"@) ==> unwrapped(content_type, encoding, body, Ok(plain))
                == Ok::<Seq<u8>, ErrorModel>(plain)
            &&& encoding == Some("gzip"@) ==> (unwrapped(
                content_type,
                encoding,
                body,
                Err(fault),
            ) matches Err(e) && e.status == 400)
            &&& encoding == Some("br"@) ==> (unwrapped(
                content_type,
                encoding,
                body,
                Ok(plain),
            ) matches Err(e) && e.status == 415)
        },
        content_type is Some && has_prefix(content_type->0, "application/json"@) ==> (unwrapped(
            content_type,
            encoding,
            body,
            Ok(plain),
        ) matches Err(e) && e.status == 415),
{
    reveal_strlit("gzip");
    reveal_strlit("GZIP");
    reveal_strlit("identity");
    reveal_strlit("br");
    assert("gzip"@.map_values(|c: char| ascii_lower(c)) =~= "gzip"@);
    assert("GZIP"@.map_values(|c: char| ascii_lower(c)) =~= "gzip"@);
    assert("identity"@.map_values(|c: char| ascii_lower(c)) =~= "identity"@);
    assert("identity"@.map_values(|c: char| ascii_lower(c)).len() == 8 && "gzip"@.len() == 4);
    assert("br"@.map_values(|c: char| ascii_lower(c)).len() == 2);
}

/// What a service refuses is told over HTTP by the client's or the server's fault:
/// four hundreds for the one, five hundreds for the other, and only what is worth
/// trying again asks for it.
pub proof fn refusals_are_told_apart(code: ServiceCode)
    ensures
        400 <= status_of(code) < 500 <==> code == ServiceCode::InvalidArgument || code
            == ServiceCode::Unauthenticated || code == ServiceCode::PermissionDenied || code
            == ServiceCode::ResourceExhausted,
        status_of(code) == 401 <==> code == ServiceCode::Unauthenticated,
        status_of(code) == 403 <==> code == ServiceCode::PermissionDenied,
        status_of(code) == 429 <==> code == ServiceCode::ResourceExhausted,
        status_of(code) == 503 <==> code == ServiceCode::Unavailable,
        status_of(code) == 400 <==> code == ServiceCode::InvalidArgument,
        code == ServiceCode::Internal ==> status_of(code) == 500,
{
}

} // verus!
