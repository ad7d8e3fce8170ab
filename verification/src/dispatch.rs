use vstd::prelude::*;

use crate::flatten::{normalize_key, spec_norm_key};
use crate::row::StreamStatus;

verus! {

/// What the dispatcher decides to do with a request, in gate order:
/// role check, deletion check, body parse, then the configured mode.
#[derive(PartialEq, Eq, Structural, Clone, Copy, Debug)]
pub enum IngestDecision {
    RejectNotIngester,
    RejectDeleting,
    RejectMalformed,
    ProcessColumnar,
    ProcessRows,
}

pub open spec fn spec_plan_ingest(
    is_ingester: bool,
    is_deleting: bool,
    parse_ok: bool,
    columnar_mode: bool,
) -> IngestDecision {
    if !is_ingester {
        IngestDecision::RejectNotIngester
    } else if is_deleting {
        IngestDecision::RejectDeleting
    } else if !parse_ok {
        IngestDecision::RejectMalformed
    } else if columnar_mode {
        IngestDecision::ProcessColumnar
    } else {
        IngestDecision::ProcessRows
    }
}

/// The dispatcher's hard gates, in order: role check, deletion
/// check, body parse, then the configured mode. Each gate rejects
/// the whole request; the configured mode alone picks the path.
pub fn plan_ingest(is_ingester: bool, is_deleting: bool, parse_ok: bool, columnar_mode: bool) -> (r:
    IngestDecision)
    ensures
        r == spec_plan_ingest(is_ingester, is_deleting, parse_ok, columnar_mode),
{
    if !is_ingester {
        IngestDecision::RejectNotIngester
    } else if is_deleting {
        IngestDecision::RejectDeleting
    } else if !parse_ok {
        IngestDecision::RejectMalformed
    } else if columnar_mode {
        IngestDecision::ProcessColumnar
    } else {
        IngestDecision::ProcessRows
    }
}

/// Normalizes a raw stream name before it is used anywhere.
pub fn format_stream_name(name: &String) -> (r: String)
    ensures
        r@ == spec_norm_key(name@),
{
    normalize_key(name)
}

/// The structured error payload of a rejected request.
pub struct ErrorBody {
    pub code: u16,
    pub message: String,
}

/// The structured success payload: a status code and one entry per
/// stream; the columnar path reports no per-record accounting.
pub struct IngestionResponse {
    pub code: u16,
    pub status: Vec<StreamStatus>,
}

pub fn not_ingester_error() -> (r: ErrorBody)
    ensures
        r.code == 500,
        r.message@ == "not an ingester"@,
{
    ErrorBody { code: 500, message: "not an ingester".to_owned() }
}

pub fn deleting_error(stream: &String) -> (r: ErrorBody)
    ensures
        r.code == 500,
        r.message@ == "stream ["@ + stream@ + "] is being deleted"@,
{
    let mut m: String = "stream [".to_owned();
    m.append(stream.as_str());
    m.append("] is being deleted");
    ErrorBody { code: 500, message: m }
}

pub fn malformed_body_error() -> (r: ErrorBody)
    ensures
        r.code == 400,
        r.message@ == "malformed request body"@,
{
    ErrorBody { code: 400, message: "malformed request body".to_owned() }
}

/// The configured acceptance window, given in hours, as microseconds.
/// `None` when the configured value cannot be represented.
pub fn hours_to_micros(hours: i64) -> (r: Option<i64>)
    ensures
        match r {
            Some(m) => 0 <= hours <= 2_560_000 && m == hours * 3_600_000_000,
            None => !(0 <= hours <= 2_560_000),
        },
{
    if 0 <= hours && hours <= 2_560_000 {
        Some(hours * 3_600_000_000)
    } else {
        None
    }
}

} // verus!
