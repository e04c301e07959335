//! The sidecar's wire framing and request dispatch. Every message on a
//! connection, in both directions, is a 4-byte big-endian length prefix
//! followed by exactly that many payload bytes; an incoming frame whose
//! declared length exceeds one mebibyte aborts the connection.

use vstd::prelude::*;
use crate::geo::GeoLocation;
use crate::hlc::HybridLogicalClock;
use crate::metrics::{MetricsCollector, MetricsSnapshot};
use crate::routing::{
    RoutingEngine, RoutingRequest, RoutingResponse, has_healthy, has_healthy_leader, is_write,
    is_first_best, response_reports, rebuild_table,
};

verus! {

/// Largest incoming payload the sidecar accepts: one mebibyte.
pub const MAX_FRAME_BYTES: u32 = 1048576;

/// The big-endian bytes of a 32-bit length, most significant first.
pub open spec fn be_bytes_of_u32(x: u32) -> Seq<u8> {
    seq![
        ((x >> 24) & 0xff) as u8,
        ((x >> 16) & 0xff) as u8,
        ((x >> 8) & 0xff) as u8,
        (x & 0xff) as u8,
    ]
}

/// The 32-bit length read from four big-endian bytes.
pub open spec fn u32_of_be_bytes(b: Seq<u8>) -> u32
    recommends
        b.len() == 4,
{
    ((b[0] as u32) << 24) | ((b[1] as u32) << 16) | ((b[2] as u32) << 8) | (b[3] as u32)
}

/// Reading back the big-endian bytes of a length yields the length.
pub proof fn lemma_u32_be_roundtrip(x: u32)
    ensures
        u32_of_be_bytes(be_bytes_of_u32(x)) == x,
{
    let b = be_bytes_of_u32(x);
    assert(b[0] == ((x >> 24) & 0xff) as u8);
    assert(b[1] == ((x >> 16) & 0xff) as u8);
    assert(b[2] == ((x >> 8) & 0xff) as u8);
    assert(b[3] == (x & 0xff) as u8);
    assert(((((x >> 24) & 0xff) as u8) as u32) << 24 | ((((x >> 16) & 0xff) as u8) as u32) << 16
        | ((((x >> 8) & 0xff) as u8) as u32) << 8 | (((x & 0xff) as u8) as u32) == x)
        by (bit_vector);
}

/// A complete frame: the payload's length as four big-endian bytes, then the
/// payload itself.
pub open spec fn spec_encode_frame(payload: Seq<u8>) -> Seq<u8>
    recommends
        payload.len() <= u32::MAX,
{
    be_bytes_of_u32(payload.len() as u32) + payload
}

/// The length a frame's header declares.
pub open spec fn declared_length(frame: Seq<u8>) -> int
    recommends
        frame.len() >= 4,
{
    u32_of_be_bytes(frame.subrange(0, 4)) as int
}

/// Why a frame was rejected: it ended before its declared length, or it
/// declared a length above the one-mebibyte ceiling.
#[derive(Clone, Copy, Debug, PartialEq, Eq, Structural)]
pub enum FrameError {
    Truncated,
    Oversized,
}

/// Frame a payload for the wire.
pub fn encode_frame(payload: &Vec<u8>) -> (frame: Vec<u8>)
    requires
        payload@.len() <= u32::MAX,
    ensures
        frame@ == spec_encode_frame(payload@),
        frame@.len() == payload@.len() + 4,
{
    let n = payload.len() as u32;
    let mut frame: Vec<u8> = Vec::new();
    frame.push(((n >> 24) & 0xff) as u8);
    frame.push(((n >> 16) & 0xff) as u8);
    frame.push(((n >> 8) & 0xff) as u8);
    frame.push((n & 0xff) as u8);
    proof {
        assert(frame@ =~= be_bytes_of_u32(n));
    }
    let mut i: usize = 0;
    while i < payload.len()
        invariant
            i <= payload@.len(),
            payload@.len() <= u32::MAX,
            n == payload@.len() as u32,
            frame@ == be_bytes_of_u32(n) + payload@.subrange(0, i as int),
        decreases payload@.len() - i,
    {
        frame.push(payload[i]);
        proof {
            assert(frame@ =~= be_bytes_of_u32(n) + payload@.subrange(0, i + 1));
        }
        i = i + 1;
    }
    proof {
        assert(payload@.subrange(0, payload@.len() as int) =~= payload@);
    }
    frame
}

/// Split a complete frame back into its payload. The declared length is
/// checked against the ceiling before the payload is touched; a buffer
/// shorter or longer than its declared length is rejected as truncated or
/// malformed rather than silently trimmed.
pub fn decode_frame(frame: &Vec<u8>) -> (r: Result<Vec<u8>, FrameError>)
    ensures
        frame@.len() < 4 ==> r == Err::<Vec<u8>, FrameError>(FrameError::Truncated),
        frame@.len() >= 4 && declared_length(frame@) > MAX_FRAME_BYTES ==> r == Err::<
            Vec<u8>,
            FrameError,
        >(FrameError::Oversized),
        frame@.len() >= 4 && declared_length(frame@) <= MAX_FRAME_BYTES && frame@.len() != 4
            + declared_length(frame@) ==> r == Err::<Vec<u8>, FrameError>(FrameError::Truncated),
        frame@.len() >= 4 && declared_length(frame@) <= MAX_FRAME_BYTES && frame@.len() == 4
            + declared_length(frame@) ==> (r matches Ok(payload) && payload@ == frame@.subrange(
            4,
            frame@.len() as int,
        )),
{
    if frame.len() < 4 {
        return Err(FrameError::Truncated);
    }
    let n = ((frame[0] as u32) << 24) | ((frame[1] as u32) << 16) | ((frame[2] as u32) << 8) | (
    frame[3] as u32);
    proof {
        assert(frame@.subrange(0, 4)[0] == frame@[0]);
        assert(frame@.subrange(0, 4)[1] == frame@[1]);
        assert(frame@.subrange(0, 4)[2] == frame@[2]);
        assert(frame@.subrange(0, 4)[3] == frame@[3]);
    }
    if n > MAX_FRAME_BYTES {
        return Err(FrameError::Oversized);
    }
    if frame.len() - 4 != n as usize {
        return Err(FrameError::Truncated);
    }
    let mut payload: Vec<u8> = Vec::new();
    let mut i: usize = 4;
    while i < frame.len()
        invariant
            4 <= i <= frame@.len(),
            payload@ == frame@.subrange(4, i as int),
        decreases frame@.len() - i,
    {
        payload.push(frame[i]);
        proof {
            assert(payload@ =~= frame@.subrange(4, i + 1));
        }
        i = i + 1;
    }
    Ok(payload)
}

/// Is a declared incoming length acceptable? Checked on the raw header
/// before any payload byte is read.
pub fn check_frame_length(declared: u32) -> (r: bool)
    ensures
        r == (declared <= MAX_FRAME_BYTES),
{
    declared <= MAX_FRAME_BYTES
}

/// The length declared by a frame header read off the wire.
pub fn frame_header_value(header: &[u8; 4]) -> (n: u32)
    ensures
        n == u32_of_be_bytes(header@),
{
    ((header[0] as u32) << 24) | ((header[1] as u32) << 16) | ((header[2] as u32) << 8) | (
    header[3] as u32)
}

/// Framing round trip: a payload within the ceiling, once encoded, decodes
/// to exactly the original payload; one above the ceiling yields a frame
/// whose declared length is over the ceiling, so the peer rejects it on the
/// header alone.
pub proof fn lemma_frame_roundtrip(payload: Seq<u8>)
    requires
        payload.len() <= u32::MAX,
    ensures
        spec_encode_frame(payload).len() == payload.len() + 4,
        declared_length(spec_encode_frame(payload)) == payload.len(),
        spec_encode_frame(payload).subrange(4, spec_encode_frame(payload).len() as int)
            == payload,
{
    let e = spec_encode_frame(payload);
    assert(e.subrange(0, 4) =~= be_bytes_of_u32(payload.len() as u32));
    lemma_u32_be_roundtrip(payload.len() as u32);
    assert(e.subrange(4, e.len() as int) =~= payload);
}


/// What a request asks the sidecar to do.
#[derive(Debug)]
pub enum SidecarRequestType {
    Route { client_ip: String, query_type: String },
    UpdateRoutingTable { replicas: Vec<crate::routing::ReplicaInfo> },
    Ping,
    GetMetrics,
}

/// One decoded request: the action and the client's timestamp.
#[derive(Debug)]
pub struct SidecarRequest {
    pub inner: SidecarRequestType,
    pub timestamp: u64,
}

/// The structured value a successful response carries.
#[derive(Debug)]
pub enum ResponseData {
    RouteResult(RoutingResponse),
    TableUpdated,
    Pong,
    MetricsReport(MetricsSnapshot),
}

/// One response: success or failure, the data or the error text, and the
/// moment it was built.
#[derive(Debug)]
pub struct SidecarResponse {
    pub success: bool,
    pub data: Option<ResponseData>,
    pub error: Option<String>,
    pub timestamp: u64,
}

/// The wall clock in microseconds since the Unix epoch.
pub fn current_timestamp_micros() -> u64 {
    HybridLogicalClock::get_physical_time() / 1000
}

impl SidecarResponse {
    /// A successful response carrying the given data.
    pub fn success(data: ResponseData) -> (response: Self)
        ensures
            response.success,
            response.data == Some(data),
            response.error is None,
    {
        Self { success: true, data: Some(data), error: None, timestamp: current_timestamp_micros() }
    }

    /// A failed response carrying the given error text.
    pub fn error(error: String) -> (response: Self)
        ensures
            !response.success,
            response.data is None,
            response.error == Some(error),
    {
        Self { success: false, data: None, error: Some(error), timestamp: current_timestamp_micros() }
    }
}

/// Dispatch one decoded request: route it, replace the routing table,
/// answer the liveness probe, or report the metrics. Request-level failures
/// become a response with success set to false and the error text filled
/// in; they never disturb the routing table.
pub fn process_request(
    request: SidecarRequest,
    client_location: &GeoLocation,
    routing_engine: &mut RoutingEngine,
    metrics: &MetricsCollector,
) -> (response: SidecarResponse)
    requires
        old(routing_engine).wf(),
        metrics.wf(),
    ensures
        final(routing_engine).wf(),
        request.inner is Ping ==> *final(routing_engine) == *old(routing_engine)
            && response.success && response.data == Some(ResponseData::Pong)
            && response.error is None,
        request.inner is GetMetrics ==> *final(routing_engine) == *old(routing_engine)
            && response.success && response.error is None && (response.data matches Some(
            ResponseData::MetricsReport(snapshot),
        ) && snapshot.total_requests == metrics.total() && snapshot.successful_requests
            == metrics.successful() && snapshot.failed_requests == metrics.failed()
            && snapshot.avg_latency_micros == (if metrics.total() > 0 {
            metrics.cumulative_latency() as int / metrics.total() as int
        } else {
            0int
        }) && snapshot.min_latency_micros == (if metrics.total() == 0 {
            0int
        } else {
            metrics.min_latency() as int
        }) && snapshot.max_latency_micros == metrics.max_latency()),
        request.inner matches SidecarRequestType::UpdateRoutingTable { replicas } ==> final(
            routing_engine
        ).replicas_view() == rebuild_table(replicas@) && response.success && response.data == Some(
            ResponseData::TableUpdated,
        ) && response.error is None,
        request.inner matches SidecarRequestType::Route { client_ip, query_type } ==> {
            &&& *final(routing_engine) == *old(routing_engine)
            &&& (!has_healthy(old(routing_engine).replicas_view()) ==> !response.success
                && response.data is None && (response.error matches Some(text) && text@
                == "No healthy replicas available"@))
            &&& (has_healthy(old(routing_engine).replicas_view()) && is_write(query_type@)
                && !has_healthy_leader(old(routing_engine).replicas_view()) ==> !response.success
                && response.data is None && (response.error matches Some(text) && text@
                == "No healthy leaders available"@))
            &&& (has_healthy(old(routing_engine).replicas_view()) && (is_write(query_type@)
                ==> has_healthy_leader(old(routing_engine).replicas_view()))
                ==> response.success && response.error is None && (response.data matches Some(
                ResponseData::RouteResult(routed),
            ) && exists|i: int|
                #[trigger] is_first_best(
                    old(routing_engine).replicas_view(),
                    is_write(query_type@),
                    *client_location,
                    i,
                ) && response_reports(
                    routed,
                    old(routing_engine).replicas_view(),
                    i,
                    *client_location,
                )))
        },
{
    match request.inner {
        SidecarRequestType::Route { client_ip, query_type } => {
            let routing_request = RoutingRequest {
                client_ip,
                query_type,
                timestamp: request.timestamp,
            };
            match routing_engine.route_request(&routing_request, client_location) {
                Ok(routed) => SidecarResponse::success(ResponseData::RouteResult(routed)),
                Err(routing_error) => SidecarResponse::error(routing_error.message()),
            }
        }
        SidecarRequestType::UpdateRoutingTable { replicas } => {
            routing_engine.update_replicas(replicas);
            SidecarResponse::success(ResponseData::TableUpdated)
        }
        SidecarRequestType::Ping => SidecarResponse::success(ResponseData::Pong),
        SidecarRequestType::GetMetrics => {
            let snapshot = metrics.get_snapshot();
            SidecarResponse::success(ResponseData::MetricsReport(snapshot))
        }
    }
}

} // verus!
