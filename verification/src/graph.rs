//! Graph merge engine: applies one validated mutation atomically to the
//! knowledge graph. Hosts and services are upserted by natural key; tool
//! runs and evidence are append-only, immutable facts under generated
//! identifiers. A mutation whose evidence lacks backing content is
//! rejected in full — partial application is never observable.

use vstd::prelude::*;

use crate::bytes::bytes_eq;
use crate::cas::Cas;
use crate::mutation::{mutation_wf, opt_view, views_of, Mutation};

verus! {

/// Errors of the merge engine.
#[derive(Clone, Copy, Debug, PartialEq, Eq, Structural)]
pub enum MergeError {
    /// The mutation's evidence references a content key the store does
    /// not hold.
    DanglingReference,
}

/// A host in the graph: IP is the natural key, hostnames a growing set.
pub struct HostEntry {
    pub ip: Vec<u8>,
    pub hostnames: Vec<Vec<u8>>,
}

/// A service in the graph, keyed by (host, protocol, port). Scalar fields
/// are last-writer-wins by timestamp; the banner history is append-only.
pub struct ServiceEntry {
    pub host_ip: Vec<u8>,
    pub protocol: Vec<u8>,
    pub port: u16,
    pub product: Option<Vec<u8>>,
    pub version: Option<Vec<u8>>,
    pub banners: Vec<Vec<u8>>,
    pub last_ts: u64,
    pub last_run: u64,
}

/// An immutable record of one tool run.
pub struct ToolRunEntry {
    pub id: u64,
    pub name: Vec<u8>,
    pub version: Vec<u8>,
    pub cache_key: Vec<u8>,
    pub started: u64,
    pub finished: u64,
    pub exit_code: u8,
    pub raw_key: Vec<u8>,
}

/// An immutable evidence artifact, linked to the run that produced it.
pub struct EvidenceEntry {
    pub id: u64,
    pub cas_key: Vec<u8>,
    pub summary: Vec<u8>,
    pub tool_run: u64,
}

/// Abstract model of a host.
pub struct HostModel {
    pub ip: Seq<u8>,
    pub names: Set<Seq<u8>>,
}

/// Abstract model of a service.
pub struct ServiceModel {
    pub host_ip: Seq<u8>,
    pub protocol: Seq<u8>,
    pub port: u16,
    pub product: Option<Seq<u8>>,
    pub version: Option<Seq<u8>>,
    pub banners: Seq<Seq<u8>>,
    pub last_ts: u64,
    pub last_run: u64,
}

/// Abstract model of a tool run record.
pub struct RunRecModel {
    pub id: u64,
    pub name: Seq<u8>,
    pub version: Seq<u8>,
    pub cache_key: Seq<u8>,
    pub started: u64,
    pub finished: u64,
    pub exit_code: u8,
    pub raw_key: Seq<u8>,
}

/// Abstract model of an evidence record.
pub struct EvidenceModel {
    pub id: u64,
    pub cas_key: Seq<u8>,
    pub summary: Seq<u8>,
    pub tool_run: u64,
}

/// The model of a host entry.
pub open spec fn host_model(h: HostEntry) -> HostModel {
    HostModel { ip: h.ip@, names: names_set(views_of(h.hostnames@)) }
}

/// The set a sequence of names denotes.
pub open spec fn names_set(s: Seq<Seq<u8>>) -> Set<Seq<u8>> {
    Set::new(|x: Seq<u8>| s.contains(x))
}

/// The model of a service entry.
pub open spec fn service_model(s: ServiceEntry) -> ServiceModel {
    ServiceModel {
        host_ip: s.host_ip@,
        protocol: s.protocol@,
        port: s.port,
        product: opt_view(s.product),
        version: opt_view(s.version),
        banners: views_of(s.banners@),
        last_ts: s.last_ts,
        last_run: s.last_run,
    }
}

/// The model of a tool run entry.
pub open spec fn run_model(r: ToolRunEntry) -> RunRecModel {
    RunRecModel {
        id: r.id,
        name: r.name@,
        version: r.version@,
        cache_key: r.cache_key@,
        started: r.started,
        finished: r.finished,
        exit_code: r.exit_code,
        raw_key: r.raw_key@,
    }
}

/// The model of an evidence entry.
pub open spec fn evidence_model(e: EvidenceEntry) -> EvidenceModel {
    EvidenceModel { id: e.id, cas_key: e.cas_key@, summary: e.summary@, tool_run: e.tool_run }
}

/// Whether a host with this IP exists.
pub open spec fn has_host(hs: Seq<HostModel>, ip: Seq<u8>) -> bool {
    exists|i: int| 0 <= i < hs.len() && hs[i].ip == ip
}

/// The index of the host with this IP.
pub open spec fn host_index(hs: Seq<HostModel>, ip: Seq<u8>) -> int {
    choose|i: int| 0 <= i < hs.len() && hs[i].ip == ip
}

/// The names an upsert contributes.
pub open spec fn upsert_names(name: Option<Seq<u8>>) -> Set<Seq<u8>> {
    match name {
        Some(n) => Set::<Seq<u8>>::empty().insert(n),
        None => Set::<Seq<u8>>::empty(),
    }
}

/// Upsert of a host into the model: insert on a new IP, union of
/// hostnames on an existing one. The IP itself never changes.
pub open spec fn spec_upsert_host(hs: Seq<HostModel>, ip: Seq<u8>, name: Option<Seq<u8>>) -> Seq<
    HostModel,
> {
    if has_host(hs, ip) {
        let i = host_index(hs, ip);
        hs.update(i, HostModel { ip, names: hs[i].names.union(upsert_names(name)) })
    } else {
        hs.push(HostModel { ip, names: upsert_names(name) })
    }
}

/// Whether a service with this key exists.
pub open spec fn has_service(ss: Seq<ServiceModel>, ip: Seq<u8>, proto: Seq<u8>, port: u16) -> bool {
    exists|i: int|
        0 <= i < ss.len() && ss[i].host_ip == ip && ss[i].protocol == proto && ss[i].port == port
}

/// The index of the service with this key.
pub open spec fn service_index(ss: Seq<ServiceModel>, ip: Seq<u8>, proto: Seq<u8>, port: u16) -> int {
    choose|i: int|
        0 <= i < ss.len() && ss[i].host_ip == ip && ss[i].protocol == proto && ss[i].port == port
}

/// Whether a write stamped (ts, run) wins over the stored stamp: later
/// timestamp wins; equal timestamps are broken by the run identifier, so
/// the merge is deterministic.
pub open spec fn write_wins(ts: u64, run: u64, cur_ts: u64, cur_run: u64) -> bool {
    ts > cur_ts || (ts == cur_ts && run >= cur_run)
}

/// The banner history after an upsert: append-only.
pub open spec fn appended_banners(cur: Seq<Seq<u8>>, banner: Option<Seq<u8>>) -> Seq<Seq<u8>> {
    match banner {
        Some(b) => cur.push(b),
        None => cur,
    }
}

/// One scalar field after an upsert: the incoming value wins only when it
/// is present and the write wins by timestamp.
pub open spec fn merged_field(
    cur: Option<Seq<u8>>,
    incoming: Option<Seq<u8>>,
    wins: bool,
) -> Option<Seq<u8>> {
    if wins && incoming is Some {
        incoming
    } else {
        cur
    }
}

/// The model of a fresh service created by an upsert.
pub open spec fn new_service_model(
    ip: Seq<u8>,
    proto: Seq<u8>,
    port: u16,
    product: Option<Seq<u8>>,
    version: Option<Seq<u8>>,
    banner: Option<Seq<u8>>,
    ts: u64,
    run: u64,
) -> ServiceModel {
    ServiceModel {
        host_ip: ip,
        protocol: proto,
        port,
        product,
        version,
        banners: appended_banners(Seq::<Seq<u8>>::empty(), banner),
        last_ts: ts,
        last_run: run,
    }
}

/// Upsert of a service into the model: insert on a new key; on an
/// existing one merge fields — scalars last-writer-wins, banners appended.
pub open spec fn spec_upsert_service(
    ss: Seq<ServiceModel>,
    ip: Seq<u8>,
    proto: Seq<u8>,
    port: u16,
    product: Option<Seq<u8>>,
    version: Option<Seq<u8>>,
    banner: Option<Seq<u8>>,
    ts: u64,
    run: u64,
) -> Seq<ServiceModel> {
    if has_service(ss, ip, proto, port) {
        let i = service_index(ss, ip, proto, port);
        let cur = ss[i];
        let wins = write_wins(ts, run, cur.last_ts, cur.last_run);
        ss.update(
            i,
            ServiceModel {
                host_ip: cur.host_ip,
                protocol: cur.protocol,
                port: cur.port,
                product: merged_field(cur.product, product, wins),
                version: merged_field(cur.version, version, wins),
                banners: appended_banners(cur.banners, banner),
                last_ts: if wins {
                    ts
                } else {
                    cur.last_ts
                },
                last_run: if wins {
                    run
                } else {
                    cur.last_run
                },
            },
        )
    } else {
        ss.push(new_service_model(ip, proto, port, product, version, banner, ts, run))
    }
}

/// The knowledge graph: the sole shared mutable state, written only
/// through the merge engine's serialized apply path.
pub struct Graph {
    hosts: Vec<HostEntry>,
    services: Vec<ServiceEntry>,
    runs: Vec<ToolRunEntry>,
    evidence: Vec<EvidenceEntry>,
    next_id: u64,
}

impl Graph {
    /// The hosts' model.
    pub closed spec fn hosts_model(&self) -> Seq<HostModel> {
        self.hosts@.map_values(|h: HostEntry| host_model(h))
    }

    /// The services' model.
    pub closed spec fn services_model(&self) -> Seq<ServiceModel> {
        self.services@.map_values(|s: ServiceEntry| service_model(s))
    }

    /// The tool run log's model.
    pub closed spec fn runs_model(&self) -> Seq<RunRecModel> {
        self.runs@.map_values(|r: ToolRunEntry| run_model(r))
    }

    /// The evidence log's model.
    pub closed spec fn evidence_model_seq(&self) -> Seq<EvidenceModel> {
        self.evidence@.map_values(|e: EvidenceEntry| evidence_model(e))
    }

    /// The next generated identifier.
    pub closed spec fn spec_next_id(&self) -> u64 {
        self.next_id
    }

    /// Internal well-formedness: natural keys are unique, identifiers are
    /// unique and below the generator.
    pub closed spec fn wf(&self) -> bool {
        &&& forall|x: int, y: int|
            0 <= x < self.hosts@.len() && 0 <= y < self.hosts@.len() && x != y
                ==> self.hosts@[x].ip@ != self.hosts@[y].ip@
        &&& forall|x: int, y: int|
            0 <= x < self.services@.len() && 0 <= y < self.services@.len() && x != y ==> !(
            self.services@[x].host_ip@ == self.services@[y].host_ip@ && self.services@[x].protocol@
                == self.services@[y].protocol@ && self.services@[x].port
                == self.services@[y].port)
        &&& forall|i: int| 0 <= i < self.runs@.len() ==> self.runs@[i].id < self.next_id
        &&& forall|i: int| 0 <= i < self.evidence@.len() ==> self.evidence@[i].id < self.next_id
        &&& forall|x: int, y: int|
            0 <= x < self.runs@.len() && 0 <= y < self.runs@.len() && x != y
                ==> self.runs@[x].id != self.runs@[y].id
        &&& forall|x: int, y: int|
            0 <= x < self.evidence@.len() && 0 <= y < self.evidence@.len() && x != y
                ==> self.evidence@[x].id != self.evidence@[y].id
    }

    /// An empty graph.
    pub fn new() -> (r: Graph)
        ensures
            r.wf(),
            r.hosts_model() == Seq::<HostModel>::empty(),
            r.services_model() == Seq::<ServiceModel>::empty(),
            r.runs_model() == Seq::<RunRecModel>::empty(),
            r.evidence_model_seq() == Seq::<EvidenceModel>::empty(),
            r.spec_next_id() == 0,
    {
        let g = Graph {
            hosts: Vec::new(),
            services: Vec::new(),
            runs: Vec::new(),
            evidence: Vec::new(),
            next_id: 0,
        };
        proof {
            assert(g.hosts_model() =~= Seq::<HostModel>::empty());
            assert(g.services_model() =~= Seq::<ServiceModel>::empty());
            assert(g.runs_model() =~= Seq::<RunRecModel>::empty());
            assert(g.evidence_model_seq() =~= Seq::<EvidenceModel>::empty());
        }
        g
    }

    /// Records one tool run under a fresh identifier and returns it.
    /// The log is append-only: existing records never change.
    pub fn add_tool_run(
        &mut self,
        name: &Vec<u8>,
        version: &Vec<u8>,
        cache_key: &Vec<u8>,
        started: u64,
        finished: u64,
        exit_code: u8,
        raw_key: &Vec<u8>,
    ) -> (id: u64)
        requires
            old(self).wf(),
            old(self).spec_next_id() < 0xffffffffffffffffu64,
        ensures
            final(self).wf(),
            id == old(self).spec_next_id(),
            final(self).spec_next_id() == old(self).spec_next_id() + 1,
            final(self).runs_model() == old(self).runs_model().push(
                RunRecModel {
                    id,
                    name: name@,
                    version: version@,
                    cache_key: cache_key@,
                    started,
                    finished,
                    exit_code,
                    raw_key: raw_key@,
                },
            ),
            final(self).hosts_model() == old(self).hosts_model(),
            final(self).services_model() == old(self).services_model(),
            final(self).evidence_model_seq() == old(self).evidence_model_seq(),
    {
        let id = self.next_id;
        self.next_id = self.next_id + 1;
        self.runs.push(
            ToolRunEntry {
                id,
                name: name.clone(),
                version: version.clone(),
                cache_key: cache_key.clone(),
                started,
                finished,
                exit_code,
                raw_key: raw_key.clone(),
            },
        );
        proof {
            assert(self.runs_model() =~= old(self).runs_model().push(
                RunRecModel {
                    id,
                    name: name@,
                    version: version@,
                    cache_key: cache_key@,
                    started,
                    finished,
                    exit_code,
                    raw_key: raw_key@,
                },
            ));
        }
        id
    }

    /// Finds the host with this IP, if present.
    pub fn find_host(&self, ip: &Vec<u8>) -> (r: Option<usize>)
        requires
            self.wf(),
        ensures
            match r {
                Some(i) => i < self.hosts_model().len() && self.hosts_model()[i as int].ip == ip@
                    && has_host(self.hosts_model(), ip@) && host_index(self.hosts_model(), ip@)
                    == i as int,
                None => !has_host(self.hosts_model(), ip@),
            },
    {
        let mut i: usize = 0;
        while i < self.hosts.len()
            invariant
                i <= self.hosts@.len(),
                self.wf(),
                forall|j: int| 0 <= j < i ==> self.hosts@[j].ip@ != ip@,
            decreases self.hosts@.len() - i,
        {
            if bytes_eq(&self.hosts[i].ip, ip) {
                proof {
                    assert(self.hosts_model()[i as int].ip == ip@);
                    let w = host_index(self.hosts_model(), ip@);
                    assert(has_host(self.hosts_model(), ip@));
                    assert(self.hosts_model()[w].ip == ip@);
                    assert(w == i as int);
                }
                return Some(i);
            }
            i = i + 1;
        }
        proof {
            assert forall|j: int| 0 <= j < self.hosts_model().len() implies self.hosts_model()[j].ip
                != ip@ by {
                assert(self.hosts@[j].ip@ != ip@);
            }
        }
        None
    }

    /// Finds the service with this key, if present.
    pub fn find_service(&self, ip: &Vec<u8>, proto: &Vec<u8>, port: u16) -> (r: Option<usize>)
        requires
            self.wf(),
        ensures
            match r {
                Some(i) => i < self.services_model().len() && self.services_model()[i as int].host_ip
                    == ip@ && self.services_model()[i as int].protocol == proto@
                    && self.services_model()[i as int].port == port && has_service(
                    self.services_model(),
                    ip@,
                    proto@,
                    port,
                ) && service_index(self.services_model(), ip@, proto@, port) == i as int,
                None => !has_service(self.services_model(), ip@, proto@, port),
            },
    {
        let mut i: usize = 0;
        while i < self.services.len()
            invariant
                i <= self.services@.len(),
                self.wf(),
                forall|j: int|
                    0 <= j < i ==> !(self.services@[j].host_ip@ == ip@ && self.services@[j].protocol@
                        == proto@ && self.services@[j].port == port),
            decreases self.services@.len() - i,
        {
            if self.services[i].port == port && bytes_eq(&self.services[i].host_ip, ip) && bytes_eq(
                &self.services[i].protocol,
                proto,
            ) {
                proof {
                    assert(self.services_model()[i as int].host_ip == ip@
                        && self.services_model()[i as int].protocol == proto@
                        && self.services_model()[i as int].port == port);
                    assert(has_service(self.services_model(), ip@, proto@, port));
                    let w = service_index(self.services_model(), ip@, proto@, port);
                    assert(self.services_model()[w].host_ip == ip@
                        && self.services_model()[w].protocol == proto@
                        && self.services_model()[w].port == port);
                    assert(w == i as int);
                }
                return Some(i);
            }
            i = i + 1;
        }
        proof {
            assert forall|j: int| 0 <= j < self.services_model().len() implies !(
            self.services_model()[j].host_ip == ip@ && self.services_model()[j].protocol == proto@
                && self.services_model()[j].port == port) by {
                assert(!(self.services@[j].host_ip@ == ip@ && self.services@[j].protocol@ == proto@
                    && self.services@[j].port == port));
            }
        }
        None
    }

    /// Number of hosts in the graph.
    pub fn host_count(&self) -> (r: usize)
        ensures
            r == self.hosts_model().len(),
    {
        self.hosts.len()
    }

    /// Number of services in the graph.
    pub fn service_count(&self) -> (r: usize)
        ensures
            r == self.services_model().len(),
    {
        self.services.len()
    }

    /// Number of tool run records.
    pub fn run_count(&self) -> (r: usize)
        ensures
            r == self.runs_model().len(),
    {
        self.runs.len()
    }

    /// Number of evidence records.
    pub fn evidence_count(&self) -> (r: usize)
        ensures
            r == self.evidence_model_seq().len(),
    {
        self.evidence.len()
    }

    /// The host at an index.
    pub fn host_at(&self, i: usize) -> (r: &HostEntry)
        requires
            i < self.hosts_model().len(),
        ensures
            host_model(*r) == self.hosts_model()[i as int],
    {
        &self.hosts[i]
    }

    /// The service at an index.
    pub fn service_at(&self, i: usize) -> (r: &ServiceEntry)
        requires
            i < self.services_model().len(),
        ensures
            service_model(*r) == self.services_model()[i as int],
    {
        &self.services[i]
    }

    /// The tool run record at an index.
    pub fn run_at(&self, i: usize) -> (r: &ToolRunEntry)
        requires
            i < self.runs_model().len(),
        ensures
            run_model(*r) == self.runs_model()[i as int],
    {
        &self.runs[i]
    }

    /// The evidence record at an index.
    pub fn evidence_at(&self, i: usize) -> (r: &EvidenceEntry)
        requires
            i < self.evidence_model_seq().len(),
        ensures
            evidence_model(*r) == self.evidence_model_seq()[i as int],
    {
        &self.evidence[i]
    }

    /// Applies one validated mutation atomically. Fails with
    /// `DanglingReference` — leaving the graph untouched — exactly when
    /// the mutation's evidence references content the store lacks.
    pub fn apply(&mut self, m: &Mutation, cas: &Cas, ts: u64, link_run: u64) -> (r: Result<
        (),
        MergeError,
    >)
        requires
            old(self).wf(),
            mutation_wf(*m),
            cas.wf(),
            old(self).spec_next_id() <= 0xfffffffffffffffdu64,
        ensures
            final(self).wf(),
            r matches Err(e) ==> e == MergeError::DanglingReference && *final(self) == *old(self)
                && (m.evidence matches Some(e2) && !cas.view().contains_key(e2.cas_key@)),
            r is Ok ==> (m.evidence matches Some(e) ==> cas.view().contains_key(e.cas_key@)),
            r is Ok ==> final(self).hosts_model() == (match m.host {
                Some(h) => spec_upsert_host(old(self).hosts_model(), h.ip@, opt_view(h.hostname)),
                None => old(self).hosts_model(),
            }),
            r is Ok ==> final(self).services_model() == (match m.service {
                Some(s) => spec_upsert_service(
                    old(self).services_model(),
                    s.host_ip@,
                    s.protocol@,
                    s.port,
                    opt_view(s.product),
                    opt_view(s.version),
                    opt_view(s.banner),
                    ts,
                    link_run,
                ),
                None => old(self).services_model(),
            }),
            r is Ok ==> final(self).runs_model() == (match m.tool_run {
                Some(t) => old(self).runs_model().push(
                    RunRecModel {
                        id: old(self).spec_next_id(),
                        name: t.name@,
                        version: t.version@,
                        cache_key: t.cache_key@,
                        started: ts,
                        finished: ts,
                        exit_code: 0,
                        raw_key: Seq::<u8>::empty(),
                    },
                ),
                None => old(self).runs_model(),
            }),
            r is Ok ==> final(self).evidence_model_seq() == (match m.evidence {
                Some(e) => old(self).evidence_model_seq().push(
                    EvidenceModel {
                        id: if m.tool_run is Some {
                            (old(self).spec_next_id() + 1) as u64
                        } else {
                            old(self).spec_next_id()
                        },
                        cas_key: e.cas_key@,
                        summary: e.summary@,
                        tool_run: link_run,
                    },
                ),
                None => old(self).evidence_model_seq(),
            }),
            r is Ok ==> final(self).spec_next_id() == old(self).spec_next_id() + (
            if m.tool_run is Some {
                1int
            } else {
                0int
            }) + (
            if m.evidence is Some {
                1int
            } else {
                0int
            }),
    {
        // Validate the whole mutation before any write: atomicity.
        if let Some(e) = &m.evidence {
            if !cas.has(&e.cas_key) {
                return Err(MergeError::DanglingReference);
            }
        }
        if let Some(h) = &m.host {
            self.apply_host(h);
        }
        if let Some(s) = &m.service {
            self.apply_service(s, ts, link_run);
        }
        if let Some(t) = &m.tool_run {
            let id = self.next_id;
            self.next_id = self.next_id + 1;
            let ghost pre = *self;
            self.runs.push(
                ToolRunEntry {
                    id,
                    name: t.name.clone(),
                    version: t.version.clone(),
                    cache_key: t.cache_key.clone(),
                    started: ts,
                    finished: ts,
                    exit_code: 0,
                    raw_key: Vec::new(),
                },
            );
            proof {
                assert(self.runs_model() =~= pre.runs_model().push(
                    RunRecModel {
                        id,
                        name: t.name@,
                        version: t.version@,
                        cache_key: t.cache_key@,
                        started: ts,
                        finished: ts,
                        exit_code: 0,
                        raw_key: Seq::<u8>::empty(),
                    },
                ));
                assert(self.hosts_model() =~= pre.hosts_model());
                assert(self.services_model() =~= pre.services_model());
                assert(self.evidence_model_seq() =~= pre.evidence_model_seq());
            }
        }
        if let Some(e) = &m.evidence {
            let id = self.next_id;
            self.next_id = self.next_id + 1;
            let ghost pre = *self;
            self.evidence.push(
                EvidenceEntry {
                    id,
                    cas_key: e.cas_key.clone(),
                    summary: e.summary.clone(),
                    tool_run: link_run,
                },
            );
            proof {
                assert(self.evidence_model_seq() =~= pre.evidence_model_seq().push(
                    EvidenceModel { id, cas_key: e.cas_key@, summary: e.summary@, tool_run: link_run },
                ));
                assert(self.hosts_model() =~= pre.hosts_model());
                assert(self.services_model() =~= pre.services_model());
                assert(self.runs_model() =~= pre.runs_model());
            }
        }
        Ok(())
    }

    fn apply_host(&mut self, h: &crate::mutation::HostUpsert)
        requires
            old(self).wf(),
            crate::mutation::host_upsert_wf(*h),
        ensures
            final(self).wf(),
            final(self).hosts_model() == spec_upsert_host(
                old(self).hosts_model(),
                h.ip@,
                opt_view(h.hostname),
            ),
            final(self).services_model() == old(self).services_model(),
            final(self).runs_model() == old(self).runs_model(),
            final(self).evidence_model_seq() == old(self).evidence_model_seq(),
            final(self).spec_next_id() == old(self).spec_next_id(),
    {
        let found = self.find_host(&h.ip);
        match found {
            Some(i) => {
                if let Some(n) = &h.hostname {
                    let mut present = false;
                    let mut j: usize = 0;
                    while j < self.hosts[i].hostnames.len()
                        invariant
                            *self == *old(self),
                            self.wf(),
                            i < self.hosts@.len(),
                            j <= self.hosts@[i as int].hostnames@.len(),
                            present == exists|k: int|
                                0 <= k < j && self.hosts@[i as int].hostnames@[k]@ == n@,
                        decreases self.hosts@[i as int].hostnames@.len() - j,
                    {
                        if bytes_eq(&self.hosts[i].hostnames[j], n) {
                            present = true;
                        }
                        j = j + 1;
                    }
                    let ghost pre = *self;
                    if !present {
                        let nn = n.clone();
                        self.push_hostname(i, nn);
                        proof {
                            lemma_upsert_host_existing(pre, *self, i as int, h.ip@, n@, true);
                        }
                    } else {
                        proof {
                            let k = choose|k: int|
                                0 <= k < pre.hosts@[i as int].hostnames@.len()
                                    && pre.hosts@[i as int].hostnames@[k]@ == n@;
                            assert(views_of(pre.hosts@[i as int].hostnames@)[k] == n@);
                            assert(views_of(pre.hosts@[i as int].hostnames@).contains(n@));
                            assert(pre.hosts_model()[i as int].names.contains(n@));
                            lemma_upsert_host_existing(pre, *self, i as int, h.ip@, n@, false);
                        }
                    }
                } else {
                    proof {
                        let hs = self.hosts_model();
                        assert(has_host(hs, h.ip@));
                        assert(host_index(hs, h.ip@) == i as int);
                        assert(hs[i as int].names.union(upsert_names(opt_view(h.hostname)))
                            =~= hs[i as int].names);
                        assert(spec_upsert_host(hs, h.ip@, opt_view(h.hostname)) =~= hs.update(
                            i as int,
                            hs[i as int],
                        ));
                        assert(hs.update(i as int, hs[i as int]) =~= hs);
                    }
                }
            },
            None => {
                let ghost pre = *self;
                let entry = HostEntry {
                    ip: h.ip.clone(),
                    hostnames: match &h.hostname {
                        Some(n) => {
                            let mut v: Vec<Vec<u8>> = Vec::new();
                            v.push(n.clone());
                            v
                        },
                        None => Vec::new(),
                    },
                };
                self.hosts.push(entry);
                proof {
                    assert forall|x: int| 0 <= x < pre.hosts@.len() implies pre.hosts@[x].ip@
                        != h.ip@ by {
                        assert(pre.hosts_model()[x].ip == pre.hosts@[x].ip@);
                    }
                    assert(self.wf());
                    let nm = host_model(self.hosts@.last());
                    assert(nm.ip == h.ip@);
                    let dv = views_of(self.hosts@.last().hostnames@);
                    match &h.hostname {
                        Some(n) => {
                            assert(dv =~= seq![n@]);
                            assert forall|x: Seq<u8>| dv.contains(x) implies x == n@ by {
                                let k = choose|k: int| 0 <= k < dv.len() && dv[k] == x;
                            }
                            assert(dv.contains(n@)) by {
                                assert(dv[0] == n@);
                            }
                        },
                        None => {
                            assert(dv =~= Seq::<Seq<u8>>::empty());
                            assert forall|x: Seq<u8>| !dv.contains(x) by {}
                        },
                    }
                    assert(nm.names =~= upsert_names(opt_view(h.hostname)));
                    assert(self.hosts_model() =~= pre.hosts_model().push(
                        HostModel { ip: h.ip@, names: upsert_names(opt_view(h.hostname)) },
                    ));
                    assert(self.services_model() =~= pre.services_model());
                    assert(self.runs_model() =~= pre.runs_model());
                    assert(self.evidence_model_seq() =~= pre.evidence_model_seq());
                }
            },
        }
    }

    fn push_hostname(&mut self, i: usize, n: Vec<u8>)
        requires
            old(self).wf(),
            i < old(self).hosts_model().len(),
        ensures
            final(self).wf(),
            final(self).hosts_model() == old(self).hosts_model().update(
                i as int,
                HostModel {
                    ip: old(self).hosts_model()[i as int].ip,
                    names: old(self).hosts_model()[i as int].names.insert(n@),
                },
            ),
            final(self).services_model() == old(self).services_model(),
            final(self).runs_model() == old(self).runs_model(),
            final(self).evidence_model_seq() == old(self).evidence_model_seq(),
            final(self).spec_next_id() == old(self).spec_next_id(),
    {
        let mut entry = self.hosts.remove(i);
        entry.hostnames.push(n);
        let ghost mid = *self;
        self.hosts.insert(i, entry);
        proof {
            let pre = old(self).hosts@;
            let post = self.hosts@;
            assert(post.len() == pre.len());
            assert forall|k: int| 0 <= k < post.len() && k != i implies post[k] == pre[k] by {
                assert(mid.hosts@ =~= pre.remove(i as int));
            }
            let oldh = pre[i as int];
            let newh = post[i as int];
            assert(newh.ip == oldh.ip);
            assert(newh.hostnames@ =~= oldh.hostnames@.push(n));
            assert(views_of(newh.hostnames@) =~= views_of(oldh.hostnames@).push(n@));
            assert(names_set(views_of(newh.hostnames@)) =~= names_set(
                views_of(oldh.hostnames@),
            ).insert(n@)) by {
                let s = views_of(oldh.hostnames@);
                assert(views_of(newh.hostnames@) == s.push(n@));
                assert forall|x: Seq<u8>| s.push(n@).contains(x) implies s.contains(x) || x == n@
                by {
                    let k = choose|k: int| 0 <= k < s.push(n@).len() && s.push(n@)[k] == x;
                    if k < s.len() {
                        assert(s[k] == x);
                    }
                }
                assert forall|x: Seq<u8>| s.contains(x) implies s.push(n@).contains(x) by {
                    let k = choose|k: int| 0 <= k < s.len() && s[k] == x;
                    assert(s.push(n@)[k] == x);
                }
                assert(s.push(n@)[s.len() as int] == n@);
            }
            assert(self.hosts_model() =~= old(self).hosts_model().update(
                i as int,
                HostModel {
                    ip: old(self).hosts_model()[i as int].ip,
                    names: old(self).hosts_model()[i as int].names.insert(n@),
                },
            ));
            assert(self.services_model() =~= old(self).services_model());
            assert(self.runs_model() =~= old(self).runs_model());
            assert(self.evidence_model_seq() =~= old(self).evidence_model_seq());
        }
    }

    fn apply_service(&mut self, s: &crate::mutation::ServiceUpsert, ts: u64, run: u64)
        requires
            old(self).wf(),
            crate::mutation::service_upsert_wf(*s),
        ensures
            final(self).wf(),
            final(self).services_model() == spec_upsert_service(
                old(self).services_model(),
                s.host_ip@,
                s.protocol@,
                s.port,
                opt_view(s.product),
                opt_view(s.version),
                opt_view(s.banner),
                ts,
                run,
            ),
            final(self).hosts_model() == old(self).hosts_model(),
            final(self).runs_model() == old(self).runs_model(),
            final(self).evidence_model_seq() == old(self).evidence_model_seq(),
            final(self).spec_next_id() == old(self).spec_next_id(),
    {
        let found = self.find_service(&s.host_ip, &s.protocol, s.port);
        match found {
            Some(i) => {
                let mut entry = self.services.remove(i);
                let wins = ts > entry.last_ts || (ts == entry.last_ts && run >= entry.last_run);
                if wins {
                    if let Some(p) = &s.product {
                        entry.product = Some(p.clone());
                    }
                    if let Some(v) = &s.version {
                        entry.version = Some(v.clone());
                    }
                    entry.last_ts = ts;
                    entry.last_run = run;
                }
                if let Some(b) = &s.banner {
                    entry.banners.push(b.clone());
                }
                let ghost mid = *self;
                self.services.insert(i, entry);
                proof {
                    let pre = old(self).services@;
                    let post = self.services@;
                    assert forall|k: int| 0 <= k < post.len() && k != i implies post[k] == pre[k]
                    by {
                        assert(mid.services@ =~= pre.remove(i as int));
                    }
                    let om = old(self).services_model();
                    assert(om[i as int] == service_model(pre[i as int]));
                    assert(service_model(post[i as int]).banners =~= appended_banners(
                        om[i as int].banners,
                        opt_view(s.banner),
                    ));
                    assert(self.services_model() =~= spec_upsert_service(
                        om,
                        s.host_ip@,
                        s.protocol@,
                        s.port,
                        opt_view(s.product),
                        opt_view(s.version),
                        opt_view(s.banner),
                        ts,
                        run,
                    ));
                    assert(self.hosts_model() =~= old(self).hosts_model());
                    assert(self.runs_model() =~= old(self).runs_model());
                    assert(self.evidence_model_seq() =~= old(self).evidence_model_seq());
                }
            },
            None => {
                let ghost pre = *self;
                let entry = ServiceEntry {
                    host_ip: s.host_ip.clone(),
                    protocol: s.protocol.clone(),
                    port: s.port,
                    product: match &s.product {
                        Some(p) => Some(p.clone()),
                        None => None,
                    },
                    version: match &s.version {
                        Some(v) => Some(v.clone()),
                        None => None,
                    },
                    banners: match &s.banner {
                        Some(b) => {
                            let mut v: Vec<Vec<u8>> = Vec::new();
                            v.push(b.clone());
                            v
                        },
                        None => Vec::new(),
                    },
                    last_ts: ts,
                    last_run: run,
                };
                self.services.push(entry);
                proof {
                    assert forall|x: int| 0 <= x < pre.services@.len() implies !(
                    pre.services@[x].host_ip@ == s.host_ip@ && pre.services@[x].protocol@
                        == s.protocol@ && pre.services@[x].port == s.port) by {
                        assert(pre.services_model()[x] == service_model(pre.services@[x]));
                    }
                    assert(self.wf());
                    let nm = service_model(self.services@.last());
                    assert(nm.banners =~= appended_banners(
                        Seq::<Seq<u8>>::empty(),
                        opt_view(s.banner),
                    ));
                    assert(nm == new_service_model(
                        s.host_ip@,
                        s.protocol@,
                        s.port,
                        opt_view(s.product),
                        opt_view(s.version),
                        opt_view(s.banner),
                        ts,
                        run,
                    ));
                    assert(self.services_model() =~= pre.services_model().push(nm));
                    assert(self.hosts_model() =~= pre.hosts_model());
                    assert(self.runs_model() =~= pre.runs_model());
                    assert(self.evidence_model_seq() =~= pre.evidence_model_seq());
                }
            },
        }
    }
}

proof fn lemma_upsert_host_existing(
    pre: Graph,
    post: Graph,
    i: int,
    ip: Seq<u8>,
    n: Seq<u8>,
    pushed: bool,
)
    requires
        0 <= i < pre.hosts_model().len(),
        pre.hosts_model()[i].ip == ip,
        has_host(pre.hosts_model(), ip),
        host_index(pre.hosts_model(), ip) == i,
        pushed ==> post.hosts_model() == pre.hosts_model().update(
            i,
            HostModel { ip: pre.hosts_model()[i].ip, names: pre.hosts_model()[i].names.insert(n) },
        ),
        !pushed ==> post.hosts_model() == pre.hosts_model() && pre.hosts_model()[i].names.contains(
            n,
        ),
    ensures
        post.hosts_model() == spec_upsert_host(pre.hosts_model(), ip, Some(n)),
{
    let hs = pre.hosts_model();
    assert(hs[i].names.union(upsert_names(Some(n))) =~= hs[i].names.insert(n));
    if pushed {
        assert(spec_upsert_host(hs, ip, Some(n)) =~= post.hosts_model());
    } else {
        assert(hs[i].names.insert(n) =~= hs[i].names);
        assert(hs.update(i, HostModel { ip: hs[i].ip, names: hs[i].names.insert(n) }) =~= hs) by {
            assert(HostModel { ip: hs[i].ip, names: hs[i].names.insert(n) } == hs[i]);
        }
    }
}

/// Law (hostname union): upserting the same host twice with hostnames
/// `n1` and `n2` leaves that host present with both names — the union of
/// the contributed hostname sets, over whatever was there before.
pub proof fn lemma_host_upsert_union(hs: Seq<HostModel>, ip: Seq<u8>, n1: Seq<u8>, n2: Seq<u8>)
    requires
        forall|x: int, y: int|
            0 <= x < hs.len() && 0 <= y < hs.len() && x != y ==> hs[x].ip != hs[y].ip,
    ensures
        ({
            let hs2 = spec_upsert_host(spec_upsert_host(hs, ip, Some(n1)), ip, Some(n2));
            &&& has_host(hs2, ip)
            &&& hs2[host_index(hs2, ip)].names.contains(n1)
            &&& hs2[host_index(hs2, ip)].names.contains(n2)
            &&& hs2[host_index(hs2, ip)].names =~= (if has_host(hs, ip) {
                hs[host_index(hs, ip)].names
            } else {
                Set::<Seq<u8>>::empty()
            }).insert(n1).insert(n2)
        }),
{
    let hs1 = spec_upsert_host(hs, ip, Some(n1));
    let hs2 = spec_upsert_host(hs1, ip, Some(n2));
    if has_host(hs, ip) {
        let i = host_index(hs, ip);
        assert(hs1[i].ip == ip);
        assert(has_host(hs1, ip));
        let j = host_index(hs1, ip);
        assert(forall|x: int, y: int|
            0 <= x < hs1.len() && 0 <= y < hs1.len() && x != y ==> hs1[x].ip != hs1[y].ip);
        assert(j == i);
        assert(hs1[i].names =~= hs[i].names.insert(n1));
        let k = host_index(hs2, ip);
        assert(hs2[i].ip == ip);
        assert(has_host(hs2, ip));
        assert(forall|x: int, y: int|
            0 <= x < hs2.len() && 0 <= y < hs2.len() && x != y ==> hs2[x].ip != hs2[y].ip);
        assert(k == i);
        assert(hs2[i].names =~= hs[i].names.insert(n1).insert(n2));
    } else {
        let i = hs.len() as int;
        assert(hs1[i].ip == ip);
        assert(has_host(hs1, ip));
        let j = host_index(hs1, ip);
        assert(forall|x: int| 0 <= x < hs.len() ==> hs1[x] == hs[x]);
        assert(forall|x: int, y: int|
            0 <= x < hs1.len() && 0 <= y < hs1.len() && x != y ==> hs1[x].ip != hs1[y].ip);
        assert(j == i);
        assert(hs1[i].names =~= Set::<Seq<u8>>::empty().insert(n1));
        let k = host_index(hs2, ip);
        assert(hs2[i].ip == ip);
        assert(has_host(hs2, ip));
        assert(forall|x: int, y: int|
            0 <= x < hs2.len() && 0 <= y < hs2.len() && x != y ==> hs2[x].ip != hs2[y].ip);
        assert(k == i);
        assert(hs2[i].names =~= Set::<Seq<u8>>::empty().insert(n1).insert(n2));
    }
}

} // verus!
