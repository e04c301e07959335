//! The replica-selection engine. A routing table holds the known replicas
//! and a zone index kept consistent with them; a request is answered by the
//! healthy replica (for writes: the healthy leader) with the lowest score,
//! where the score combines distance, load, latency and a leadership
//! preference, and ties go to the replica that appears first in the table's
//! stable order.

use vstd::prelude::*;
use crate::geo::{
    GeoLocation, calculate_distance, clamp_spec, lemma_central_angle_lower,
    lemma_distance_identity, spec_central_angle, spec_cos_lat, spec_distance_milli_km,
    spec_half_angle_sin_sq, spec_haversine_a, spec_location_distance, spec_sin_quarter,
};
use vstd::arithmetic::div_mod::lemma_div_is_ordered;
use crate::hlc::HybridLogicalClock;

verus! {

/// Load scores above this cap (in thousandths of a load unit) are clamped
/// when the table is updated, so scores can never overflow.
pub const LOAD_SCORE_CAP_MILLI: u64 = 1_000_000_000_000;

/// Latencies above this cap (in thousandths of a millisecond) are clamped
/// when the table is updated.
pub const LATENCY_CAP_MILLI_MS: u64 = 1_000_000_000_000;

/// One backend replica as the table knows it. The load score is in
/// thousandths of a load unit and the observed latency in thousandths of a
/// millisecond, so scoring is exact integer arithmetic.
#[derive(Debug)]
pub struct ReplicaInfo {
    pub node_id: String,
    pub host: String,
    pub port: u16,
    pub is_leader: bool,
    pub healthy: bool,
    pub zone: String,
    pub geo_location: GeoLocation,
    pub load_score_milli: u64,
    pub latency_ms_milli: u64,
}

impl ReplicaInfo {
    /// An exact copy of this replica entry.
    pub fn duplicate(&self) -> (copy: ReplicaInfo)
        ensures
            copy == *self,
    {
        ReplicaInfo {
            node_id: self.node_id.clone(),
            host: self.host.clone(),
            port: self.port,
            is_leader: self.is_leader,
            healthy: self.healthy,
            zone: self.zone.clone(),
            geo_location: self.geo_location.duplicate(),
            load_score_milli: self.load_score_milli,
            latency_ms_milli: self.latency_ms_milli,
        }
    }
}

/// One routing request: who asks, what kind of query, when.
#[derive(Debug)]
pub struct RoutingRequest {
    pub client_ip: String,
    pub query_type: String,
    pub timestamp: u64,
}

/// The routing decision sent back to the client. The distance to the chosen
/// replica is in milli-kilometres.
#[derive(Debug)]
pub struct RoutingResponse {
    pub node_id: String,
    pub host: String,
    pub port: u16,
    pub distance_milli_km: u64,
    pub routing_strategy: String,
    pub response_time_micros: u64,
}

/// Why no replica could be chosen.
#[derive(Clone, Copy, Debug, PartialEq, Eq, Structural)]
pub enum RoutingError {
    NoHealthyReplicas,
    NoHealthyLeaders,
}

impl RoutingError {
    /// The human-readable error string sent to the peer.
    pub fn message(&self) -> (text: String)
        ensures
            *self == RoutingError::NoHealthyReplicas ==> text@ == "No healthy replicas available"@,
            *self == RoutingError::NoHealthyLeaders ==> text@ == "No healthy leaders available"@,
    {
        match self {
            RoutingError::NoHealthyReplicas => String::from_str("No healthy replicas available"),
            RoutingError::NoHealthyLeaders => String::from_str("No healthy leaders available"),
        }
    }
}

/// One zone's bucket in the zone index: the ids of the replicas in it.
#[derive(Debug)]
pub struct ZoneBucket {
    pub zone: String,
    pub node_ids: Vec<String>,
}

/// A replica entry with its load and latency clamped to the caps.
pub open spec fn sanitize_spec(r: ReplicaInfo) -> ReplicaInfo {
    ReplicaInfo {
        node_id: r.node_id,
        host: r.host,
        port: r.port,
        is_leader: r.is_leader,
        healthy: r.healthy,
        zone: r.zone,
        geo_location: r.geo_location,
        load_score_milli: if r.load_score_milli > LOAD_SCORE_CAP_MILLI {
            LOAD_SCORE_CAP_MILLI
        } else {
            r.load_score_milli
        },
        latency_ms_milli: if r.latency_ms_milli > LATENCY_CAP_MILLI_MS {
            LATENCY_CAP_MILLI_MS
        } else {
            r.latency_ms_milli
        },
    }
}

/// Are this entry's load and latency within the caps?
pub open spec fn replica_ok(r: ReplicaInfo) -> bool {
    r.load_score_milli <= LOAD_SCORE_CAP_MILLI && r.latency_ms_milli <= LATENCY_CAP_MILLI_MS
}

/// Fold one sanitized entry into a table: an entry with the same node id is
/// overwritten in place (last write wins); a new id is appended.
pub open spec fn merge_replica(acc: Seq<ReplicaInfo>, r: ReplicaInfo) -> Seq<ReplicaInfo> {
    if exists|k: int| 0 <= k < acc.len() && (#[trigger] acc[k]).node_id@ == r.node_id@ {
        let k = choose|k: int| 0 <= k < acc.len() && (#[trigger] acc[k]).node_id@ == r.node_id@;
        acc.update(k, r)
    } else {
        acc.push(r)
    }
}

/// The table built from an update's replica list: each entry sanitized,
/// duplicate node ids resolved last-write-wins, and entries ordered by the
/// first appearance of their id in the list.
pub open spec fn rebuild_table(input: Seq<ReplicaInfo>) -> Seq<ReplicaInfo>
    decreases input.len(),
{
    if input.len() == 0 {
        Seq::empty()
    } else {
        merge_replica(rebuild_table(input.drop_last()), sanitize_spec(input.last()))
    }
}

/// Some replica of this zone carries the id stored at slot (bi, k) of the
/// zone index.
pub open spec fn id_backed(zones: Seq<ZoneBucket>, reps: Seq<ReplicaInfo>, bi: int, k: int) -> bool {
    exists|ri: int|
        0 <= ri < reps.len() && (#[trigger] reps[ri]).node_id@ == zones[bi].node_ids@[k]@
            && reps[ri].zone@ == zones[bi].zone@
}

/// Replica ri's id stands in its zone's bucket of the zone index.
pub open spec fn rep_indexed(zones: Seq<ZoneBucket>, reps: Seq<ReplicaInfo>, ri: int) -> bool {
    exists|bi: int, k: int|
        #![trigger zones[bi].node_ids@[k]]
        0 <= bi < zones.len() && 0 <= k < zones[bi].node_ids@.len() && zones[bi].zone@
            == reps[ri].zone@ && zones[bi].node_ids@[k]@ == reps[ri].node_id@
}

/// The zone index is consistent with the replica list: bucket zones are
/// distinct, every id in a bucket belongs to a replica of that zone, and
/// every replica's id appears in its zone's bucket.
#[verifier::opaque]
pub open spec fn zones_consistent(zones: Seq<ZoneBucket>, reps: Seq<ReplicaInfo>) -> bool {
    &&& (forall|a: int, b: int|
        0 <= a < b < zones.len() ==> (#[trigger] zones[a]).zone@ != (#[trigger] zones[b]).zone@)
    &&& (forall|bi: int, k: int|
        0 <= bi < zones.len() && 0 <= k < zones[bi].node_ids@.len() ==> #[trigger] id_backed(
            zones,
            reps,
            bi,
            k,
        ))
    &&& (forall|ri: int| 0 <= ri < reps.len() ==> #[trigger] rep_indexed(zones, reps, ri))
}

/// Does the table hold at least one healthy replica?
pub open spec fn has_healthy(reps: Seq<ReplicaInfo>) -> bool {
    exists|i: int| 0 <= i < reps.len() && (#[trigger] reps[i]).healthy
}

/// Does the table hold at least one healthy leader?
pub open spec fn has_healthy_leader(reps: Seq<ReplicaInfo>) -> bool {
    exists|i: int| 0 <= i < reps.len() && (#[trigger] reps[i]).healthy && reps[i].is_leader
}

/// Is this query a write? Any other query type is served as a read.
pub open spec fn is_write(query_type: Seq<char>) -> bool {
    query_type == "write"@
}

/// May this replica serve the request at all?
pub open spec fn eligible(r: ReplicaInfo, write: bool) -> bool {
    r.healthy && (write ==> r.is_leader)
}

/// A candidate's score in milli-kilometre equivalents; lower is better.
/// Writes score distance plus the load penalty; reads add observed latency
/// and subtract the leader bonus.
pub open spec fn score(r: ReplicaInfo, write: bool, client: GeoLocation) -> int {
    if write {
        spec_location_distance(client, r.geo_location) + r.load_score_milli * 100
    } else {
        spec_location_distance(client, r.geo_location) + r.load_score_milli * 100
            + r.latency_ms_milli + (if r.is_leader {
            -50_000int
        } else {
            0int
        })
    }
}

/// Index i is the selection: eligible, with the minimal score, and first in
/// table order among the minimal.
pub open spec fn is_first_best(
    reps: Seq<ReplicaInfo>,
    write: bool,
    client: GeoLocation,
    i: int,
) -> bool {
    &&& 0 <= i < reps.len()
    &&& eligible(reps[i], write)
    &&& forall|j: int|
        0 <= j < reps.len() && eligible(#[trigger] reps[j], write) ==> score(reps[i], write, client)
            <= score(reps[j], write, client)
    &&& forall|j: int|
        0 <= j < i && eligible(#[trigger] reps[j], write) ==> score(reps[i], write, client) < score(
            reps[j],
            write,
            client,
        )
}

/// Does the response report exactly the replica at index i?
pub open spec fn response_reports(
    resp: RoutingResponse,
    reps: Seq<ReplicaInfo>,
    i: int,
    client: GeoLocation,
) -> bool {
    &&& resp.node_id@ == reps[i].node_id@
    &&& resp.host@ == reps[i].host@
    &&& resp.port == reps[i].port
    &&& resp.distance_milli_km == spec_location_distance(client, reps[i].geo_location)
    &&& resp.routing_strategy@ == "closest_healthy"@
}

/// The routing table: the replica list and the zone index over it.
#[derive(Debug)]
pub struct RoutingEngine {
    replicas: Vec<ReplicaInfo>,
    zone_replicas: Vec<ZoneBucket>,
}

impl RoutingEngine {
    /// The replicas, in the table's stable order.
    pub closed spec fn replicas_view(&self) -> Seq<ReplicaInfo> {
        self.replicas@
    }

    /// The zone index.
    pub closed spec fn zones_view(&self) -> Seq<ZoneBucket> {
        self.zone_replicas@
    }

    /// Table invariant: node ids are distinct, loads and latencies are
    /// within the caps, and the zone index matches the replica list.
    pub open spec fn wf(&self) -> bool {
        &&& forall|i: int, j: int|
            0 <= i < j < self.replicas_view().len() ==> (
            #[trigger] self.replicas_view()[i]).node_id@ != (
            #[trigger] self.replicas_view()[j]).node_id@
        &&& forall|i: int|
            0 <= i < self.replicas_view().len() ==> replica_ok(#[trigger] self.replicas_view()[i])
        &&& zones_consistent(self.zones_view(), self.replicas_view())
    }

    pub fn new() -> (engine: Self)
        ensures
            engine.wf(),
            engine.replicas_view() == Seq::<ReplicaInfo>::empty(),
            engine.zones_view() == Seq::<ZoneBucket>::empty(),
    {
        let engine = Self { replicas: Vec::new(), zone_replicas: Vec::new() };
        proof {
            assert(engine.replicas_view() =~= Seq::<ReplicaInfo>::empty());
            assert(engine.zones_view() =~= Seq::<ZoneBucket>::empty());
            lemma_zones_consistent_empty(engine.zones_view(), engine.replicas_view());
        }
        engine
    }

    pub fn get_replica_count(&self) -> (n: usize)
        ensures
            n == self.replicas_view().len(),
    {
        self.replicas.len()
    }

    /// Replace the whole table. Every entry is sanitized, a node id that
    /// appears more than once in the input keeps only its last entry, and
    /// the zone index is rebuilt to match. The new table is built fully
    /// before it replaces the old one, so a failure part-way can never
    /// leave a mixed table behind.
    #[verifier::spinoff_prover]
    pub fn update_replicas(&mut self, replicas: Vec<ReplicaInfo>)
        ensures
            final(self).wf(),
            final(self).replicas_view() == rebuild_table(replicas@),
    {
        let ghost input = replicas@;
        let mut new_reps: Vec<ReplicaInfo> = Vec::new();
        let mut j: usize = 0;
        proof {
            assert(input.subrange(0, 0) =~= Seq::<ReplicaInfo>::empty());
        }
        while j < replicas.len()
            invariant
                replicas@ == input,
                j <= input.len(),
                new_reps@ == rebuild_table(input.subrange(0, j as int)),
                forall|a: int, b: int|
                    0 <= a < b < new_reps@.len() ==> (#[trigger] new_reps@[a]).node_id@ != (
                    #[trigger] new_reps@[b]).node_id@,
                forall|m: int| 0 <= m < new_reps@.len() ==> replica_ok(#[trigger] new_reps@[m]),
            decreases input.len() - j,
        {
            let mut r = replicas[j].duplicate();
            if r.load_score_milli > LOAD_SCORE_CAP_MILLI {
                r.load_score_milli = LOAD_SCORE_CAP_MILLI;
            }
            if r.latency_ms_milli > LATENCY_CAP_MILLI_MS {
                r.latency_ms_milli = LATENCY_CAP_MILLI_MS;
            }
            proof {
                assert(r == sanitize_spec(input[j as int]));
            }
            let mut found: Option<usize> = None;
            let mut k: usize = 0;
            while k < new_reps.len()
                invariant
                    k <= new_reps@.len(),
                    r == sanitize_spec(input[j as int]),
                    found is None ==> forall|m: int|
                        0 <= m < k ==> (#[trigger] new_reps@[m]).node_id@ != r.node_id@,
                    found matches Some(f) ==> 0 <= f < new_reps@.len()
                        && new_reps@[f as int].node_id@ == r.node_id@,
                decreases new_reps@.len() - k,
            {
                if found.is_none() && new_reps[k].node_id == r.node_id {
                    found = Some(k);
                }
                k = k + 1;
            }
            proof {
                assert(input.subrange(0, j + 1).drop_last() =~= input.subrange(0, j as int));
                assert(input.subrange(0, j + 1).last() == input[j as int]);
            }
            match found {
                None => {
                    proof {
                        assert(!(exists|m: int|
                            0 <= m < new_reps@.len() && (#[trigger] new_reps@[m]).node_id@
                                == r.node_id@));
                    }
                    new_reps.push(r);
                }
                Some(f) => {
                    let ghost before = new_reps@;
                    new_reps.remove(f);
                    new_reps.insert(f, r);
                    proof {
                        let m = choose|m: int|
                            0 <= m < before.len() && (#[trigger] before[m]).node_id@ == r.node_id@;
                        assert(m == f as int);
                        assert(new_reps@ =~= before.update(f as int, r));
                        assert(new_reps@ =~= merge_replica(before, r));
                        assert forall|a: int, b: int|
                            0 <= a < b < new_reps@.len() implies (
                            #[trigger] new_reps@[a]).node_id@ != (
                            #[trigger] new_reps@[b]).node_id@ by {
                            assert(before[a].node_id@ != before[b].node_id@);
                            if a != f && b != f {
                                assert(new_reps@[a] == before[a]);
                                assert(new_reps@[b] == before[b]);
                            }
                        }
                    }
                }
            }
            j = j + 1;
        }
        proof {
            assert(input.subrange(0, input.len() as int) =~= input);
        }

        let ghost deduped = new_reps@;
        let mut zones: Vec<ZoneBucket> = Vec::new();
        let mut i: usize = 0;
        proof {
            assert(deduped.subrange(0, 0) =~= Seq::<ReplicaInfo>::empty());
            lemma_zones_consistent_empty(zones@, deduped.subrange(0, 0));
        }
        while i < new_reps.len()
            invariant
                new_reps@ == deduped,
                i <= deduped.len(),
                zones_consistent(zones@, deduped.subrange(0, i as int)),
            decreases deduped.len() - i,
        {
            let rid = new_reps[i].node_id.clone();
            let rzone = new_reps[i].zone.clone();
            let mut found: Option<usize> = None;
            let mut b: usize = 0;
            while b < zones.len()
                invariant
                    b <= zones@.len(),
                    rzone == deduped[i as int].zone,
                    found is None ==> forall|m: int|
                        0 <= m < b ==> (#[trigger] zones@[m]).zone@ != rzone@,
                    found matches Some(f) ==> 0 <= f < zones@.len() && zones@[f as int].zone@
                        == rzone@,
                decreases zones@.len() - b,
            {
                if found.is_none() && zones[b].zone == rzone {
                    found = Some(b);
                }
                b = b + 1;
            }
            let ghost prefix = deduped.subrange(0, i as int);
            let ghost prefix1 = deduped.subrange(0, i + 1);
            proof {
                assert(prefix1 =~= prefix.push(deduped[i as int]));
            }
            match found {
                None => {
                    let mut ids: Vec<String> = Vec::new();
                    ids.push(rid);
                    let ghost old_zones = zones@;
                    zones.push(ZoneBucket { zone: rzone, node_ids: ids });
                    proof {
                        lemma_zone_index_grew_bucket(old_zones, zones@, prefix, prefix1, i as int);
                    }
                }
                Some(f) => {
                    let ghost old_zones = zones@;
                    let mut bucket = zones.remove(f);
                    bucket.node_ids.push(rid);
                    zones.insert(f, bucket);
                    proof {
                        assert(zones@.len() == old_zones.len());
                        assert forall|m: int|
                            0 <= m < old_zones.len() && m != f implies zones@[m] == old_zones[m] by {
                        }
                        assert(zones@[f as int].zone == old_zones[f as int].zone);
                        assert(zones@[f as int].node_ids@.len()
                            == old_zones[f as int].node_ids@.len() + 1);
                        assert(zones@[f as int].node_ids@.last()@ == prefix1.last().node_id@);
                        assert(old_zones[f as int].zone@ == prefix1.last().zone@);
                        lemma_zone_index_extended_bucket(
                            old_zones,
                            zones@,
                            prefix,
                            prefix1,
                            f as int,
                        );
                    }
                }
            }
            i = i + 1;
        }
        proof {
            assert(deduped.subrange(0, deduped.len() as int) =~= deduped);
        }
        self.replicas = new_reps;
        self.zone_replicas = zones;
    }

    /// Route one request: among the healthy replicas (for a write, the
    /// healthy leaders) pick the lowest-scoring candidate, ties going to the
    /// candidate earliest in the table's stable order. With no healthy
    /// replica every request fails; with healthy replicas but no healthy
    /// leader a write fails while reads still succeed.
    pub fn route_request(&self, request: &RoutingRequest, client_location: &GeoLocation) -> (result:
        Result<RoutingResponse, RoutingError>)
        requires
            self.wf(),
        ensures
            !has_healthy(self.replicas_view()) <==> result == Err::<RoutingResponse, RoutingError>(
                RoutingError::NoHealthyReplicas,
            ),
            (has_healthy(self.replicas_view()) && is_write(request.query_type@)
                && !has_healthy_leader(self.replicas_view())) <==> result == Err::<
                RoutingResponse,
                RoutingError,
            >(RoutingError::NoHealthyLeaders),
            (has_healthy(self.replicas_view()) && (is_write(request.query_type@)
                ==> has_healthy_leader(self.replicas_view()))) <==> result is Ok,
            result matches Ok(response) ==> exists|i: int|
                #[trigger] is_first_best(
                    self.replicas_view(),
                    is_write(request.query_type@),
                    *client_location,
                    i,
                ) && response_reports(response, self.replicas_view(), i, *client_location),
    {
        let started_nanos = HybridLogicalClock::get_physical_time();
        let ghost reps = self.replicas_view();
        let write_probe = String::from_str("write");
        let write: bool = request.query_type == write_probe;
        let ghost w = is_write(request.query_type@);
        let mut best: Option<usize> = None;
        let mut best_score: i64 = 0;
        let mut saw_healthy: bool = false;
        let mut i: usize = 0;
        while i < self.replicas.len()
            invariant
                self.wf(),
                reps == self.replicas_view(),
                i <= reps.len(),
                write == w,
                saw_healthy <==> exists|j: int| 0 <= j < i && (#[trigger] reps[j]).healthy,
                best is None ==> forall|j: int| 0 <= j < i ==> !eligible(#[trigger] reps[j], w),
                best matches Some(bi) ==> {
                    &&& 0 <= bi < i
                    &&& eligible(reps[bi as int], w)
                    &&& best_score as int == score(reps[bi as int], w, *client_location)
                    &&& forall|j: int|
                        0 <= j < i && eligible(#[trigger] reps[j], w) ==> best_score as int
                            <= score(reps[j], w, *client_location)
                    &&& forall|j: int|
                        0 <= j < bi && eligible(#[trigger] reps[j], w) ==> (best_score as int)
                            < score(reps[j], w, *client_location)
                },
            decreases reps.len() - i,
        {
            let candidate = &self.replicas[i];
            if candidate.healthy {
                saw_healthy = true;
            }
            if candidate.healthy && (!write || candidate.is_leader) {
                let dist: u64 = calculate_distance(client_location, &candidate.geo_location);
                proof {
                    assert(replica_ok(reps[i as int]));
                }
                let mut s: i64 = dist as i64 + (candidate.load_score_milli as i64) * 100;
                if !write {
                    s = s + candidate.latency_ms_milli as i64;
                    if candidate.is_leader {
                        s = s - 50_000;
                    }
                }
                proof {
                    assert(s as int == score(reps[i as int], w, *client_location));
                }
                let take: bool = match best {
                    None => true,
                    Some(_) => s < best_score,
                };
                if take {
                    best = Some(i);
                    best_score = s;
                }
            }
            i = i + 1;
        }
        match best {
            None => {
                proof {
                    if !w {
                        if saw_healthy {
                            let j = choose|j: int|
                                0 <= j < reps.len() && (#[trigger] reps[j]).healthy;
                            assert(eligible(reps[j], w));
                        }
                    }
                }
                if !saw_healthy {
                    Err(RoutingError::NoHealthyReplicas)
                } else {
                    proof {
                        if has_healthy_leader(reps) {
                            let j = choose|j: int|
                                0 <= j < reps.len() && (#[trigger] reps[j]).healthy
                                    && reps[j].is_leader;
                            assert(eligible(reps[j], w));
                        }
                    }
                    Err(RoutingError::NoHealthyLeaders)
                }
            }
            Some(chosen_index) => {
                let chosen = &self.replicas[chosen_index];
                let dist: u64 = calculate_distance(client_location, &chosen.geo_location);
                let finished_nanos = HybridLogicalClock::get_physical_time();
                let response_time_micros: u64 = if finished_nanos > started_nanos {
                    (finished_nanos - started_nanos) / 1000
                } else {
                    0
                };
                let response = RoutingResponse {
                    node_id: chosen.node_id.clone(),
                    host: chosen.host.clone(),
                    port: chosen.port,
                    distance_milli_km: dist,
                    routing_strategy: String::from_str("closest_healthy"),
                    response_time_micros,
                };
                proof {
                    assert(is_first_best(reps, w, *client_location, chosen_index as int));
                    assert(response_reports(
                        response,
                        reps,
                        chosen_index as int,
                        *client_location,
                    ));
                }
                Ok(response)
            }
        }
    }

    /// How many replicas the table holds that are healthy.
    pub fn get_healthy_replica_count(&self) -> (n: usize)
        ensures
            n == count_healthy(self.replicas_view()),
    {
        let ghost reps = self.replicas_view();
        let mut n: usize = 0;
        let mut i: usize = 0;
        proof {
            assert(reps.subrange(0, 0) =~= Seq::<ReplicaInfo>::empty());
        }
        while i < self.replicas.len()
            invariant
                reps == self.replicas_view(),
                i <= reps.len(),
                n <= i,
                n == count_healthy(reps.subrange(0, i as int)),
            decreases reps.len() - i,
        {
            proof {
                assert(reps.subrange(0, i + 1).drop_last() =~= reps.subrange(0, i as int));
                assert(reps.subrange(0, i + 1).last() == reps[i as int]);
            }
            if self.replicas[i].healthy {
                n = n + 1;
            }
            i = i + 1;
        }
        proof {
            assert(reps.subrange(0, reps.len() as int) =~= reps);
        }
        n
    }

    /// How many replicas the table holds that are healthy leaders.
    pub fn get_leader_count(&self) -> (n: usize)
        ensures
            n == count_healthy_leaders(self.replicas_view()),
    {
        let ghost reps = self.replicas_view();
        let mut n: usize = 0;
        let mut i: usize = 0;
        proof {
            assert(reps.subrange(0, 0) =~= Seq::<ReplicaInfo>::empty());
        }
        while i < self.replicas.len()
            invariant
                reps == self.replicas_view(),
                i <= reps.len(),
                n <= i,
                n == count_healthy_leaders(reps.subrange(0, i as int)),
            decreases reps.len() - i,
        {
            proof {
                assert(reps.subrange(0, i + 1).drop_last() =~= reps.subrange(0, i as int));
                assert(reps.subrange(0, i + 1).last() == reps[i as int]);
            }
            if self.replicas[i].is_leader && self.replicas[i].healthy {
                n = n + 1;
            }
            i = i + 1;
        }
        proof {
            assert(reps.subrange(0, reps.len() as int) =~= reps);
        }
        n
    }
}

/// How many entries of the list are healthy.
pub open spec fn count_healthy(reps: Seq<ReplicaInfo>) -> int
    decreases reps.len(),
{
    if reps.len() == 0 {
        0
    } else {
        count_healthy(reps.drop_last()) + (if reps.last().healthy {
            1int
        } else {
            0int
        })
    }
}

/// How many entries of the list are healthy leaders.
pub open spec fn count_healthy_leaders(reps: Seq<ReplicaInfo>) -> int
    decreases reps.len(),
{
    if reps.len() == 0 {
        0
    } else {
        count_healthy_leaders(reps.drop_last()) + (if reps.last().healthy
            && reps.last().is_leader {
            1int
        } else {
            0int
        })
    }
}

/// The Paris-Tokyo great-circle distance, as this crate's fixed-point
/// pipeline computes it, exceeds 7000 km.
proof fn lemma_paris_tokyo_distance_lower_bound()
    ensures
        spec_distance_milli_km(48_856_600, 2_352_200, 35_676_200, 139_650_300) >= 7_000_000,
{
    assert(clamp_spec(48_856_600, -90_000_000, 90_000_000) == 48_856_600);
    assert(clamp_spec(2_352_200, -180_000_000, 180_000_000) == 2_352_200);
    assert(clamp_spec(35_676_200, -90_000_000, 90_000_000) == 35_676_200);
    assert(clamp_spec(139_650_300, -180_000_000, 180_000_000) == 139_650_300);
    // Evaluate the fixed-point pipeline on the concrete coordinates, one
    // multiply-divide step at a time, so the solver can fold each stage.
    assert(6590200int * 174_532_925 / 10_000_000 == 115020688);
    assert(115020688int * 115020688 / 1_000_000_000 == 13229758);
    assert(115020688int * 13229758 / 1_000_000_000 / 6 == 253615);
    assert(253615int * 13229758 / 1_000_000_000 / 20 == 167);
    assert(167int * 13229758 / 1_000_000_000 / 42 == 0);
    assert(0int * 13229758 / 1_000_000_000 / 72 == 0);
    assert(0int * 13229758 / 1_000_000_000 / 110 == 0);
    assert(spec_sin_quarter(115020688) == 114767240);
    assert(114767240int * 114767240 / 1_000_000_000 == 13171519);
    assert(spec_half_angle_sin_sq(13180400) == 13171519);
    assert(68649050int * 174_532_925 / 10_000_000 == 1198151949);
    assert(1198151949int * 1198151949 / 1_000_000_000 == 1435568092);
    assert(1198151949int * 1435568092 / 1_000_000_000 / 6 == 286671451);
    assert(286671451int * 1435568092 / 1_000_000_000 / 20 == 20576819);
    assert(20576819int * 1435568092 / 1_000_000_000 / 42 == 703319);
    assert(703319int * 1435568092 / 1_000_000_000 / 72 == 14023);
    assert(14023int * 1435568092 / 1_000_000_000 / 110 == 183);
    assert(spec_sin_quarter(1198151949) == 931367838);
    assert(931367838int * 931367838 / 1_000_000_000 == 867446049);
    assert(spec_half_angle_sin_sq(137298100) == 867446049);
    assert(41143400int * 174_532_925 / 10_000_000 == 718087794);
    assert(718087794int * 718087794 / 1_000_000_000 == 515650079);
    assert(718087794int * 515650079 / 1_000_000_000 / 6 == 61713671);
    assert(61713671int * 515650079 / 1_000_000_000 / 20 == 1591132);
    assert(1591132int * 515650079 / 1_000_000_000 / 42 == 19534);
    assert(19534int * 515650079 / 1_000_000_000 / 72 == 139);
    assert(139int * 515650079 / 1_000_000_000 / 110 == 0);
    assert(spec_sin_quarter(718087794) == 657945860);
    assert(spec_cos_lat(48856600) == 657945860);
    assert(54323800int * 174_532_925 / 10_000_000 == 948129171);
    assert(948129171int * 948129171 / 1_000_000_000 == 898948924);
    assert(948129171int * 898948924 / 1_000_000_000 / 6 == 142053283);
    assert(142053283int * 898948924 / 1_000_000_000 / 20 == 6384932);
    assert(6384932int * 898948924 / 1_000_000_000 / 42 == 136660);
    assert(136660int * 898948924 / 1_000_000_000 / 72 == 1706);
    assert(1706int * 898948924 / 1_000_000_000 / 110 == 13);
    assert(spec_sin_quarter(948129171) == 812325853);
    assert(spec_cos_lat(35676200) == 812325853);
    assert(657945860int * 812325853 / 1_000_000_000 == 534466431);
    assert(534466431int * 867446049 / 1_000_000_000 == 463620793);
    let a = spec_haversine_a(48_856_600, 2_352_200, 35_676_200, 139_650_300);
    assert(a == 476792312);
    lemma_central_angle_lower(a);
    let c = spec_central_angle(a);
    lemma_div_is_ordered((6_371_000 * 1_200_000_000) as int, 6_371_000 * c, 1_000_000_000);
}

/// Scenario of a read served near a follower: with a Tokyo leader under
/// load 0.1 (100 milli-units) and a Paris follower under no load, equal
/// observed latencies, a read from Paris scores the follower strictly below
/// the leader — the Paris-Tokyo distance dwarfs the 50 km leader bonus and
/// the 10 km load penalty — so the first-best selection is never the
/// leader.
pub proof fn lemma_read_from_paris_prefers_paris_follower(
    reps: Seq<ReplicaInfo>,
    client: GeoLocation,
    fi: int,
    li: int,
)
    requires
        0 <= fi < reps.len(),
        0 <= li < reps.len(),
        client.latitude_micro_deg == 48_856_600,
        client.longitude_micro_deg == 2_352_200,
        reps[fi].geo_location.latitude_micro_deg == 48_856_600,
        reps[fi].geo_location.longitude_micro_deg == 2_352_200,
        reps[fi].healthy,
        !reps[fi].is_leader,
        reps[fi].load_score_milli == 0,
        reps[li].geo_location.latitude_micro_deg == 35_676_200,
        reps[li].geo_location.longitude_micro_deg == 139_650_300,
        reps[li].is_leader,
        reps[li].load_score_milli == 100,
        reps[fi].latency_ms_milli == reps[li].latency_ms_milli,
    ensures
        score(reps[fi], false, client) < score(reps[li], false, client),
        forall|i: int| #[trigger] is_first_best(reps, false, client, i) ==> i != li,
{
    lemma_distance_identity(client);
    assert(spec_location_distance(client, reps[fi].geo_location) == 0);
    lemma_paris_tokyo_distance_lower_bound();
    assert(spec_location_distance(client, reps[li].geo_location) >= 7_000_000);
    assert forall|i: int| #[trigger] is_first_best(reps, false, client, i) implies i != li by {
        if i == li {
            assert(eligible(reps[fi], false));
            assert(score(reps[li], false, client) <= score(reps[fi], false, client));
        }
    }
}

/// Leader-only routing: whatever the table, a selection made for a write is
/// a healthy leader; a write request can never be routed to a non-leader.
pub proof fn lemma_writes_select_leaders(
    reps: Seq<ReplicaInfo>,
    client: GeoLocation,
    i: int,
)
    requires
        is_first_best(reps, true, client, i),
    ensures
        reps[i].is_leader,
        reps[i].healthy,
{
}

/// Pushing a fresh one-entry bucket for a replica whose zone had no bucket
/// keeps the zone index consistent with the list extended by that replica.
proof fn lemma_zone_index_grew_bucket(
    old_zones: Seq<ZoneBucket>,
    new_zones: Seq<ZoneBucket>,
    prefix: Seq<ReplicaInfo>,
    prefix1: Seq<ReplicaInfo>,
    i: int,
)
    requires
        zones_consistent(old_zones, prefix),
        prefix1 == prefix.push(prefix1.last()),
        prefix1.len() == prefix.len() + 1,
        new_zones.len() == old_zones.len() + 1,
        forall|m: int| 0 <= m < old_zones.len() ==> new_zones[m] == old_zones[m],
        forall|m: int|
            0 <= m < old_zones.len() ==> (#[trigger] old_zones[m]).zone@
                != new_zones[old_zones.len() as int].zone@,
        new_zones.last().zone@ == prefix1.last().zone@,
        new_zones.last().node_ids@.len() == 1,
        new_zones.last().node_ids@[0]@ == prefix1.last().node_id@,
    ensures
        zones_consistent(new_zones, prefix1),
{
    reveal(zones_consistent);
    let n = old_zones.len() as int;
    assert forall|a: int, b: int|
        0 <= a < b < new_zones.len() implies (#[trigger] new_zones[a]).zone@ != (
    #[trigger] new_zones[b]).zone@ by {
        if b < n {
            assert(new_zones[a] == old_zones[a]);
            assert(new_zones[b] == old_zones[b]);
        } else {
            assert(new_zones[a] == old_zones[a]);
            assert(old_zones[a].zone@ != new_zones[n].zone@);
        }
    }
    assert forall|bi: int, k: int|
        0 <= bi < new_zones.len() && 0 <= k < new_zones[bi].node_ids@.len() implies #[trigger] id_backed(
        new_zones,
        prefix1,
        bi,
        k,
    ) by {
        if bi < n {
            assert(new_zones[bi] == old_zones[bi]);
            assert(id_backed(old_zones, prefix, bi, k));
            let ri = choose|ri: int|
                0 <= ri < prefix.len() && (#[trigger] prefix[ri]).node_id@
                    == old_zones[bi].node_ids@[k]@ && prefix[ri].zone@ == old_zones[bi].zone@;
            assert(prefix1[ri] == prefix[ri]);
            assert(prefix1[ri].node_id@ == new_zones[bi].node_ids@[k]@);
            assert(prefix1[ri].zone@ == new_zones[bi].zone@);
        } else {
            let ri = prefix1.len() - 1;
            assert(prefix1[ri] == prefix1.last());
            assert(k == 0);
            assert(prefix1[ri].node_id@ == new_zones[bi].node_ids@[k]@);
            assert(prefix1[ri].zone@ == new_zones[bi].zone@);
        }
    }
    assert forall|ri: int| 0 <= ri < prefix1.len() implies #[trigger] rep_indexed(
        new_zones,
        prefix1,
        ri,
    ) by {
        if ri < prefix.len() {
            assert(prefix[ri] == prefix1[ri]);
            assert(rep_indexed(old_zones, prefix, ri));
            let (bi, k): (int, int) = choose|bi: int, k: int|
                #![trigger old_zones[bi].node_ids@[k]]
                0 <= bi < old_zones.len() && 0 <= k < old_zones[bi].node_ids@.len() && old_zones[
                    bi
                ].zone@ == prefix[ri].zone@ && old_zones[bi].node_ids@[k]@ == prefix[ri].node_id@;
            assert(new_zones[bi] == old_zones[bi]);
            assert(new_zones[bi].node_ids@[k]@ == prefix1[ri].node_id@);
            assert(new_zones[bi].zone@ == prefix1[ri].zone@);
        } else {
            assert(prefix1[ri] == prefix1.last());
            assert(new_zones[n].node_ids@[0]@ == prefix1[ri].node_id@);
            assert(new_zones[n].zone@ == prefix1[ri].zone@);
        }
    }
}

/// Appending a replica's id to its zone's existing bucket keeps the zone
/// index consistent with the list extended by that replica.
proof fn lemma_zone_index_extended_bucket(
    old_zones: Seq<ZoneBucket>,
    new_zones: Seq<ZoneBucket>,
    prefix: Seq<ReplicaInfo>,
    prefix1: Seq<ReplicaInfo>,
    f: int,
)
    requires
        zones_consistent(old_zones, prefix),
        prefix1 == prefix.push(prefix1.last()),
        prefix1.len() == prefix.len() + 1,
        0 <= f < old_zones.len(),
        new_zones.len() == old_zones.len(),
        forall|m: int| 0 <= m < old_zones.len() && m != f ==> new_zones[m] == old_zones[m],
        new_zones[f].zone == old_zones[f].zone,
        new_zones[f].node_ids@.len() == old_zones[f].node_ids@.len() + 1,
        forall|m: int|
            0 <= m < old_zones[f].node_ids@.len() ==> (#[trigger] new_zones[f].node_ids@[m])
                == old_zones[f].node_ids@[m],
        new_zones[f].node_ids@.last()@ == prefix1.last().node_id@,
        old_zones[f].zone@ == prefix1.last().zone@,
    ensures
        zones_consistent(new_zones, prefix1),
{
    reveal(zones_consistent);
    assert forall|a: int, b: int|
        0 <= a < b < new_zones.len() implies (#[trigger] new_zones[a]).zone@ != (
    #[trigger] new_zones[b]).zone@ by {
        assert(new_zones[a].zone@ == old_zones[a].zone@);
        assert(new_zones[b].zone@ == old_zones[b].zone@);
        assert(old_zones[a].zone@ != old_zones[b].zone@);
    }
    assert forall|bi: int, k: int|
        0 <= bi < new_zones.len() && 0 <= k < new_zones[bi].node_ids@.len() implies #[trigger] id_backed(
        new_zones,
        prefix1,
        bi,
        k,
    ) by {
        if bi != f || k < old_zones[f].node_ids@.len() {
            assert(new_zones[bi].node_ids@[k] == old_zones[bi].node_ids@[k]);
            assert(new_zones[bi].zone@ == old_zones[bi].zone@);
            assert(id_backed(old_zones, prefix, bi, k));
            let ri = choose|ri: int|
                0 <= ri < prefix.len() && (#[trigger] prefix[ri]).node_id@
                    == old_zones[bi].node_ids@[k]@ && prefix[ri].zone@ == old_zones[bi].zone@;
            assert(prefix1[ri] == prefix[ri]);
            assert(prefix1[ri].node_id@ == new_zones[bi].node_ids@[k]@);
            assert(prefix1[ri].zone@ == new_zones[bi].zone@);
        } else {
            let ri = prefix1.len() - 1;
            assert(prefix1[ri] == prefix1.last());
            assert(new_zones[bi].node_ids@[k] == new_zones[f].node_ids@.last());
            assert(prefix1[ri].node_id@ == new_zones[bi].node_ids@[k]@);
            assert(prefix1[ri].zone@ == new_zones[bi].zone@);
        }
    }
    assert forall|ri: int| 0 <= ri < prefix1.len() implies #[trigger] rep_indexed(
        new_zones,
        prefix1,
        ri,
    ) by {
        if ri < prefix.len() {
            assert(prefix[ri] == prefix1[ri]);
            assert(rep_indexed(old_zones, prefix, ri));
            let (bi, k): (int, int) = choose|bi: int, k: int|
                #![trigger old_zones[bi].node_ids@[k]]
                0 <= bi < old_zones.len() && 0 <= k < old_zones[bi].node_ids@.len() && old_zones[
                    bi
                ].zone@ == prefix[ri].zone@ && old_zones[bi].node_ids@[k]@ == prefix[ri].node_id@;
            if bi == f {
                assert(new_zones[f].node_ids@[k] == old_zones[f].node_ids@[k]);
                assert(new_zones[f].zone@ == old_zones[f].zone@);
                assert(new_zones[bi].node_ids@[k]@ == prefix1[ri].node_id@);
                assert(new_zones[bi].zone@ == prefix1[ri].zone@);
            } else {
                assert(new_zones[bi] == old_zones[bi]);
                assert(new_zones[bi].node_ids@[k]@ == prefix1[ri].node_id@);
                assert(new_zones[bi].zone@ == prefix1[ri].zone@);
            }
        } else {
            let bi = f;
            let k = new_zones[f].node_ids@.len() - 1;
            assert(prefix1[ri] == prefix1.last());
            assert(new_zones[bi].node_ids@[k] == new_zones[f].node_ids@.last());
            assert(new_zones[bi].node_ids@[k]@ == prefix1[ri].node_id@);
            assert(new_zones[bi].zone@ == prefix1[ri].zone@);
        }
    }
}

/// An empty zone index is consistent with an empty replica list.
proof fn lemma_zones_consistent_empty(zones: Seq<ZoneBucket>, reps: Seq<ReplicaInfo>)
    requires
        zones.len() == 0,
        reps.len() == 0,
    ensures
        zones_consistent(zones, reps),
{
    reveal(zones_consistent);
}

/// Table consistency: in a well-formed routing table every id held by a
/// zone bucket names a replica of that zone in the primary list, and every
/// replica's id stands in its zone's bucket. The table is only ever
/// replaced whole, so a reader sees the table before an update or after
/// it, never a state in which this invariant is broken.
pub proof fn lemma_table_index_consistent(engine: RoutingEngine)
    requires
        engine.wf(),
    ensures
        forall|bi: int, k: int|
            0 <= bi < engine.zones_view().len() && 0 <= k
                < engine.zones_view()[bi].node_ids@.len() ==> #[trigger] id_backed(
                engine.zones_view(),
                engine.replicas_view(),
                bi,
                k,
            ),
        forall|ri: int|
            0 <= ri < engine.replicas_view().len() ==> #[trigger] rep_indexed(
                engine.zones_view(),
                engine.replicas_view(),
                ri,
            ),
{
    reveal(zones_consistent);
}

} // verus!
