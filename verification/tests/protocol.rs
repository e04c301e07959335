use geo_sidecar::geo::GeoLocation;
use geo_sidecar::metrics::MetricsCollector;
use geo_sidecar::protocol::{
    check_frame_length, decode_frame, encode_frame, frame_header_value, process_request,
    FrameError, ResponseData, SidecarRequest, SidecarRequestType, SidecarResponse,
};
use geo_sidecar::routing::{ReplicaInfo, RoutingEngine};

#[test]
fn frame_layout_is_big_endian_length_then_payload() {
    let payload = vec![1u8, 2, 3];
    let frame = encode_frame(&payload);
    assert_eq!(frame, vec![0u8, 0, 0, 3, 1, 2, 3]);
}

#[test]
fn frame_round_trip_reproduces_the_payload() {
    let payload: Vec<u8> = (0u16..2000).map(|x| (x % 251) as u8).collect();
    let frame = encode_frame(&payload);
    let decoded = decode_frame(&frame).unwrap();
    assert_eq!(decoded, payload);
}

#[test]
fn empty_payload_round_trips() {
    let payload: Vec<u8> = Vec::new();
    let decoded = decode_frame(&encode_frame(&payload)).unwrap();
    assert_eq!(decoded, payload);
}

#[test]
fn oversized_frame_is_rejected_on_the_header() {
    let payload = vec![0u8; 1_048_577];
    let frame = encode_frame(&payload);
    assert_eq!(decode_frame(&frame), Err(FrameError::Oversized));
    // The header alone is enough to refuse it.
    let mut header = [0u8; 4];
    header.copy_from_slice(&frame[..4]);
    assert!(!check_frame_length(frame_header_value(&header)));
}

#[test]
fn largest_allowed_frame_is_accepted() {
    let payload = vec![7u8; 1_048_576];
    let frame = encode_frame(&payload);
    assert_eq!(decode_frame(&frame).unwrap(), payload);
    assert!(check_frame_length(1_048_576));
    assert!(!check_frame_length(1_048_577));
}

#[test]
fn truncated_frames_are_rejected() {
    assert_eq!(decode_frame(&vec![0u8, 0, 0]), Err(FrameError::Truncated));
    assert_eq!(decode_frame(&vec![0u8, 0, 0, 5, 1, 2]), Err(FrameError::Truncated));
}

#[test]
fn ping_succeeds_regardless_of_table_state() {
    let mut engine = RoutingEngine::new();
    let metrics = MetricsCollector::new();
    let response = process_request(
        SidecarRequest { inner: SidecarRequestType::Ping, timestamp: 9 },
        &GeoLocation::default(),
        &mut engine,
        &metrics,
    );
    assert!(response.success);
    assert!(matches!(response.data, Some(ResponseData::Pong)));
    assert!(response.error.is_none());
}

#[test]
fn route_against_empty_table_reports_the_error_text() {
    let mut engine = RoutingEngine::new();
    engine.update_replicas(Vec::<ReplicaInfo>::new());
    let metrics = MetricsCollector::new();
    let response = process_request(
        SidecarRequest {
            inner: SidecarRequestType::Route {
                client_ip: String::from("203.0.113.7"),
                query_type: String::from("read"),
            },
            timestamp: 9,
        },
        &GeoLocation::default(),
        &mut engine,
        &metrics,
    );
    assert!(!response.success);
    assert!(response.data.is_none());
    assert_eq!(response.error.as_deref(), Some("No healthy replicas available"));
}

#[test]
fn update_then_metrics_report() {
    let mut engine = RoutingEngine::new();
    let metrics = MetricsCollector::new();
    let update = process_request(
        SidecarRequest {
            inner: SidecarRequestType::UpdateRoutingTable { replicas: Vec::new() },
            timestamp: 9,
        },
        &GeoLocation::default(),
        &mut engine,
        &metrics,
    );
    assert!(update.success);
    assert!(matches!(update.data, Some(ResponseData::TableUpdated)));

    let report = process_request(
        SidecarRequest { inner: SidecarRequestType::GetMetrics, timestamp: 10 },
        &GeoLocation::default(),
        &mut engine,
        &metrics,
    );
    assert!(report.success);
    match report.data {
        Some(ResponseData::MetricsReport(snapshot)) => {
            assert_eq!(snapshot.total_requests, 0);
        }
        _ => panic!("expected a metrics report"),
    }
}

#[test]
fn error_responses_carry_the_text() {
    let response = SidecarResponse::error(String::from("boom"));
    assert!(!response.success);
    assert_eq!(response.error.as_deref(), Some("boom"));
    assert!(response.data.is_none());
}

#[test]
fn route_through_the_dispatcher_returns_the_selection() {
    let mut engine = RoutingEngine::new();
    let metrics = MetricsCollector::new();
    engine.update_replicas(vec![ReplicaInfo {
        node_id: String::from("only-leader"),
        host: String::from("db-1"),
        port: 5432,
        is_leader: true,
        healthy: true,
        zone: String::from("zone-1"),
        geo_location: GeoLocation::default(),
        load_score_milli: 0,
        latency_ms_milli: 0,
    }]);
    let response = process_request(
        SidecarRequest {
            inner: SidecarRequestType::Route {
                client_ip: String::from("203.0.113.7"),
                query_type: String::from("write"),
            },
            timestamp: 3,
        },
        &GeoLocation::default(),
        &mut engine,
        &metrics,
    );
    assert!(response.success);
    match response.data {
        Some(ResponseData::RouteResult(routed)) => {
            assert_eq!(routed.node_id, "only-leader");
            assert_eq!(routed.host, "db-1");
            assert_eq!(routed.port, 5432);
            assert_eq!(routed.distance_milli_km, 0);
            assert_eq!(routed.routing_strategy, "closest_healthy");
        }
        _ => panic!("expected a routing result"),
    }
}
