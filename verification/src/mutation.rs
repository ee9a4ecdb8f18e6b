//! The normalized mutation format: the typed bundle of entity upserts one
//! plugin invocation may produce, validated before it touches the graph.

use vstd::prelude::*;

use crate::keys::valid_key;

verus! {

/// The views of a sequence of byte vectors.
pub open spec fn views_of(s: Seq<Vec<u8>>) -> Seq<Seq<u8>> {
    s.map_values(|x: Vec<u8>| x@)
}

/// The view of an optional byte field.
pub open spec fn opt_view(o: Option<Vec<u8>>) -> Option<Seq<u8>> {
    match o {
        Some(v) => Some(v@),
        None => None,
    }
}

/// An upsert of a host, identified by its IP address.
#[derive(Debug, PartialEq, Eq)]
pub struct HostUpsert {
    pub ip: Vec<u8>,
    pub hostname: Option<Vec<u8>>,
}

/// An upsert of a service, identified by (host, protocol, port).
#[derive(Debug, PartialEq, Eq)]
pub struct ServiceUpsert {
    pub host_ip: Vec<u8>,
    pub protocol: Vec<u8>,
    pub port: u16,
    pub product: Option<Vec<u8>>,
    pub version: Option<Vec<u8>>,
    pub banner: Option<Vec<u8>>,
}

/// A tool run declared by the plugin itself.
#[derive(Debug, PartialEq, Eq)]
pub struct ToolRunDecl {
    pub name: Vec<u8>,
    pub version: Vec<u8>,
    pub cache_key: Vec<u8>,
}

/// An evidence artifact: a summary plus the content key of the raw bytes
/// that back it.
#[derive(Debug, PartialEq, Eq)]
pub struct EvidenceDecl {
    pub cas_key: Vec<u8>,
    pub summary: Vec<u8>,
}

/// One plugin invocation's bundle of upserts, applied to the graph as a
/// whole or not at all.
#[derive(Debug, PartialEq, Eq)]
pub struct Mutation {
    pub host: Option<HostUpsert>,
    pub service: Option<ServiceUpsert>,
    pub tool_run: Option<ToolRunDecl>,
    pub evidence: Option<EvidenceDecl>,
}

/// A host upsert carries a nonempty IP.
pub open spec fn host_upsert_wf(h: HostUpsert) -> bool {
    h.ip@.len() > 0
}

/// A service upsert carries a host reference and a protocol.
pub open spec fn service_upsert_wf(s: ServiceUpsert) -> bool {
    &&& s.host_ip@.len() > 0
    &&& s.protocol@.len() > 0
}

/// A tool run declaration carries name, version and cache key.
pub open spec fn tool_run_decl_wf(t: ToolRunDecl) -> bool {
    &&& t.name@.len() > 0
    &&& t.version@.len() > 0
    &&& t.cache_key@.len() > 0
}

/// An evidence declaration carries a syntactically valid content key.
pub open spec fn evidence_decl_wf(e: EvidenceDecl) -> bool {
    valid_key(e.cas_key@)
}

/// A validated mutation: every record it holds meets its schema.
pub open spec fn mutation_wf(m: Mutation) -> bool {
    &&& match m.host {
        Some(h) => host_upsert_wf(h),
        None => true,
    }
    &&& match m.service {
        Some(s) => service_upsert_wf(s),
        None => true,
    }
    &&& match m.tool_run {
        Some(t) => tool_run_decl_wf(t),
        None => true,
    }
    &&& match m.evidence {
        Some(e) => evidence_decl_wf(e),
        None => true,
    }
}

/// Abstract model of a host upsert.
pub struct HostUpM {
    pub ip: Seq<u8>,
    pub hostname: Option<Seq<u8>>,
}

/// Abstract model of a service upsert.
pub struct SvcUpM {
    pub host_ip: Seq<u8>,
    pub protocol: Seq<u8>,
    pub port: u16,
    pub product: Option<Seq<u8>>,
    pub version: Option<Seq<u8>>,
    pub banner: Option<Seq<u8>>,
}

/// Abstract model of a tool run declaration.
pub struct RunDeclM {
    pub name: Seq<u8>,
    pub version: Seq<u8>,
    pub cache_key: Seq<u8>,
}

/// Abstract model of an evidence declaration.
pub struct EvDeclM {
    pub cas_key: Seq<u8>,
    pub summary: Seq<u8>,
}

/// Abstract model of a mutation.
pub struct MutM {
    pub host: Option<HostUpM>,
    pub service: Option<SvcUpM>,
    pub tool_run: Option<RunDeclM>,
    pub evidence: Option<EvDeclM>,
}

/// The model of a host upsert.
pub open spec fn host_up_model(h: HostUpsert) -> HostUpM {
    HostUpM { ip: h.ip@, hostname: opt_view(h.hostname) }
}

/// The model of a service upsert.
pub open spec fn svc_up_model(s: ServiceUpsert) -> SvcUpM {
    SvcUpM {
        host_ip: s.host_ip@,
        protocol: s.protocol@,
        port: s.port,
        product: opt_view(s.product),
        version: opt_view(s.version),
        banner: opt_view(s.banner),
    }
}

/// The model of a tool run declaration.
pub open spec fn run_decl_model(t: ToolRunDecl) -> RunDeclM {
    RunDeclM { name: t.name@, version: t.version@, cache_key: t.cache_key@ }
}

/// The model of an evidence declaration.
pub open spec fn evidence_decl_model(e: EvidenceDecl) -> EvDeclM {
    EvDeclM { cas_key: e.cas_key@, summary: e.summary@ }
}

/// The model of a mutation.
pub open spec fn mutation_model(m: Mutation) -> MutM {
    MutM {
        host: match m.host {
            Some(h) => Some(host_up_model(h)),
            None => None,
        },
        service: match m.service {
            Some(s) => Some(svc_up_model(s)),
            None => None,
        },
        tool_run: match m.tool_run {
            Some(t) => Some(run_decl_model(t)),
            None => None,
        },
        evidence: match m.evidence {
            Some(e) => Some(evidence_decl_model(e)),
            None => None,
        },
    }
}

} // verus!
