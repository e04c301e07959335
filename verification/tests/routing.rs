use geo_sidecar::geo::GeoLocation;
use geo_sidecar::routing::{ReplicaInfo, RoutingEngine, RoutingError, RoutingRequest};

fn location(lat_micro: i64, lon_micro: i64) -> GeoLocation {
    GeoLocation {
        country: String::from("X"),
        region: String::from("X"),
        city: String::from("X"),
        latitude_micro_deg: lat_micro,
        longitude_micro_deg: lon_micro,
        timezone: String::from("UTC"),
    }
}

fn tokyo() -> GeoLocation {
    location(35_676_200, 139_650_300)
}

fn paris() -> GeoLocation {
    location(48_856_600, 2_352_200)
}

fn replica(
    node_id: &str,
    is_leader: bool,
    healthy: bool,
    loc: GeoLocation,
    load_milli: u64,
    latency_milli: u64,
) -> ReplicaInfo {
    ReplicaInfo {
        node_id: String::from(node_id),
        host: String::from(node_id),
        port: 5432,
        is_leader,
        healthy,
        zone: String::from("zone-1"),
        geo_location: loc,
        load_score_milli: load_milli,
        latency_ms_milli: latency_milli,
    }
}

fn request(query_type: &str) -> RoutingRequest {
    RoutingRequest {
        client_ip: String::from("203.0.113.7"),
        query_type: String::from(query_type),
        timestamp: 1,
    }
}

fn two_city_table() -> RoutingEngine {
    let mut engine = RoutingEngine::new();
    engine.update_replicas(vec![
        replica("tokyo-leader", true, true, tokyo(), 100, 0),
        replica("paris-follower", false, true, paris(), 0, 0),
    ]);
    engine
}

#[test]
fn write_from_tokyo_routes_to_tokyo_leader() {
    let engine = two_city_table();
    let response = engine.route_request(&request("write"), &tokyo()).unwrap();
    assert_eq!(response.node_id, "tokyo-leader");
    assert_eq!(response.routing_strategy, "closest_healthy");
    // The client shares the leader's coordinates, so the distance is near 0.
    assert!(response.distance_milli_km < 1_000);
}

#[test]
fn read_from_paris_routes_to_paris_follower() {
    let engine = two_city_table();
    let response = engine.route_request(&request("read"), &paris()).unwrap();
    // Follower score: 0 km + 0 load + 0 latency. Leader score: ~9713 km
    // + 10 km load penalty - 50 km leader bonus. The follower wins.
    assert_eq!(response.node_id, "paris-follower");
}

#[test]
fn write_never_selects_non_leader() {
    let mut engine = RoutingEngine::new();
    engine.update_replicas(vec![
        replica("near-follower", false, true, paris(), 0, 0),
        replica("far-leader", true, true, tokyo(), 0, 0),
    ]);
    let response = engine.route_request(&request("write"), &paris()).unwrap();
    assert_eq!(response.node_id, "far-leader");
}

#[test]
fn empty_table_fails_with_no_healthy_replicas() {
    let mut engine = two_city_table();
    engine.update_replicas(vec![]);
    let err = engine.route_request(&request("read"), &paris()).unwrap_err();
    assert_eq!(err, RoutingError::NoHealthyReplicas);
    assert_eq!(err.message(), "No healthy replicas available");
}

#[test]
fn unhealthy_replicas_fail_every_request() {
    let mut engine = RoutingEngine::new();
    engine.update_replicas(vec![
        replica("a", true, false, tokyo(), 0, 0),
        replica("b", false, false, paris(), 0, 0),
    ]);
    let read_err = engine.route_request(&request("read"), &paris()).unwrap_err();
    let write_err = engine.route_request(&request("write"), &paris()).unwrap_err();
    assert_eq!(read_err, RoutingError::NoHealthyReplicas);
    assert_eq!(write_err, RoutingError::NoHealthyReplicas);
}

#[test]
fn no_leader_fails_writes_but_serves_reads() {
    let mut engine = RoutingEngine::new();
    engine.update_replicas(vec![
        replica("follower-1", false, true, paris(), 0, 0),
        replica("leader-down", true, false, tokyo(), 0, 0),
    ]);
    let write_err = engine.route_request(&request("write"), &paris()).unwrap_err();
    assert_eq!(write_err, RoutingError::NoHealthyLeaders);
    assert_eq!(write_err.message(), "No healthy leaders available");
    let read = engine.route_request(&request("read"), &paris()).unwrap();
    assert_eq!(read.node_id, "follower-1");
}

#[test]
fn equal_scores_prefer_first_in_table_order() {
    let mut engine = RoutingEngine::new();
    engine.update_replicas(vec![
        replica("twin-b", false, true, paris(), 0, 0),
        replica("twin-a", false, true, paris(), 0, 0),
    ]);
    let response = engine.route_request(&request("read"), &paris()).unwrap();
    assert_eq!(response.node_id, "twin-b");
}

#[test]
fn duplicate_node_id_keeps_the_last_entry() {
    let mut engine = RoutingEngine::new();
    engine.update_replicas(vec![
        replica("node-1", false, true, paris(), 0, 0),
        replica("node-1", true, true, tokyo(), 0, 0),
    ]);
    assert_eq!(engine.get_replica_count(), 1);
    assert_eq!(engine.get_leader_count(), 1);
    let response = engine.route_request(&request("write"), &tokyo()).unwrap();
    assert_eq!(response.node_id, "node-1");
    assert!(response.distance_milli_km < 1_000);
}

#[test]
fn counters_track_health_and_leadership() {
    let mut engine = RoutingEngine::new();
    engine.update_replicas(vec![
        replica("a", true, true, tokyo(), 0, 0),
        replica("b", false, true, paris(), 0, 0),
        replica("c", true, false, paris(), 0, 0),
        replica("d", false, false, tokyo(), 0, 0),
    ]);
    assert_eq!(engine.get_replica_count(), 4);
    assert_eq!(engine.get_healthy_replica_count(), 2);
    assert_eq!(engine.get_leader_count(), 1);
}

#[test]
fn latency_breaks_ties_between_equal_distances() {
    let mut engine = RoutingEngine::new();
    engine.update_replicas(vec![
        replica("slow", false, true, paris(), 0, 40_000),
        replica("fast", false, true, paris(), 0, 1_000),
    ]);
    let response = engine.route_request(&request("read"), &paris()).unwrap();
    assert_eq!(response.node_id, "fast");
}
