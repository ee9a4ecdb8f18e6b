//! Orchestrator scheduler: computes the cache key of one (target, plugin)
//! request, consults the cache index, and on a miss drives the sandbox,
//! the parser and the merge engine in sequence, recording the cache entry
//! only on full success. A failure of one request leaves every store
//! untouched and never aborts the caller's batch. Requests are applied
//! one at a time: within one cache key this serializes executions, so a
//! second request for a key already recorded reuses the recorded run and
//! starts no sandbox execution.

use vstd::prelude::*;

use crate::cacheindex::{spec_record, CacheIndex};
use crate::cachekey::{cache_key, invocation_wf, spec_cache_key};
use crate::cas::{spec_put_map, Cas};
use crate::graph::{
    spec_upsert_host, spec_upsert_service, EvidenceModel, Graph, RunRecModel,
};
use crate::keys::spec_key_of;
use crate::parser::{parse, spec_parse, ParseError};
use crate::sandbox::{execute, lemma_run_output_len, spec_execute, spec_load, Limits, RunModel, SandboxError};

verus! {

/// Why one request failed. The failure is reported per request; the batch
/// goes on.
#[derive(Clone, Copy, Debug, PartialEq, Eq, Structural)]
pub enum FailReason {
    /// The module failed structural validation; not retryable.
    Load,
    /// The execution exceeded its step limit; retryable.
    Timeout,
    /// The execution exceeded its output limit; retryable.
    ResourceExceeded,
    /// The plugin crashed inside the sandbox.
    Trap,
    /// The captured output was rejected by the parser; not retryable.
    Parse(ParseError),
    /// The mutation referenced evidence content the store does not hold.
    Dangling,
    /// The plugin reported a nonzero status and policy rejects that.
    PluginExit,
}

/// The outcome of one request.
#[derive(Clone, Copy, Debug, PartialEq, Eq, Structural)]
pub enum RunOutcome {
    /// The cache already held a run for this key; no execution happened.
    CacheHit { run: u64 },
    /// A sandbox execution ran and its mutation was committed.
    Executed { run: u64 },
    /// The request failed; nothing was committed.
    Failed { reason: FailReason },
}

/// The orchestrator: owns the shared stores and serializes all writes.
pub struct Orchestrator {
    pub cas: Cas,
    pub cache: CacheIndex,
    pub graph: Graph,
    pub executions: u64,
}

/// Policy for plugin-reported failure: whether a valid document from a
/// plugin that exited nonzero is rejected or accepted with a warning.
#[derive(Clone, Copy, PartialEq, Eq, Structural)]
pub struct Policy {
    pub reject_nonzero_exit: bool,
}

impl Orchestrator {
    /// All stores well-formed.
    pub open spec fn wf(&self) -> bool {
        &&& self.cas.wf()
        &&& self.cache.wf()
        &&& self.graph.wf()
    }

    /// A fresh orchestrator with empty stores.
    pub fn new() -> (r: Orchestrator)
        ensures
            r.wf(),
            r.cas.view() == Map::<Seq<u8>, Seq<u8>>::empty(),
            r.cache.view() == Map::<Seq<u8>, u64>::empty(),
            r.graph.spec_next_id() == 0,
            r.executions == 0,
    {
        Orchestrator {
            cas: Cas::new(),
            cache: CacheIndex::new(),
            graph: Graph::new(),
            executions: 0,
        }
    }

    /// Runs one (target, plugin) request: cache check, then sandbox,
    /// parser and merge engine, recording the cache entry only on
    /// success.
    ///
    /// The contract follows the pipeline case by case. A hit starts no
    /// execution and changes nothing; every failure leaves all stores
    /// unchanged; success commits the raw output to the store, appends
    /// the run record, applies the mutation and records the cache entry.
    pub fn run_plugin(
        &mut self,
        tool: &Vec<u8>,
        version: &Vec<u8>,
        target: &Vec<u8>,
        port: u16,
        options: &Vec<Vec<u8>>,
        module: &Vec<u8>,
        input: &Vec<u8>,
        limits: Limits,
        now: u64,
        policy: Policy,
    ) -> (r: RunOutcome)
        requires
            old(self).wf(),
            invocation_wf(tool@, version@, target@, options.deep_view()),
            limits.max_output < 0xffffffffffffffffu64,
            old(self).graph.spec_next_id() <= 0xfffffffffffffffcu64,
            old(self).executions < 0xffffffffffffffffu64,
        ensures
            final(self).wf(),
            ({
                let key = spec_cache_key(tool@, version@, target@, port, options.deep_view());
                let hit = old(self).cache.view().contains_key(key);
                &&& (hit ==> r == (RunOutcome::CacheHit { run: old(self).cache.view()[key] })
                    && *final(self) == *old(self))
                &&& (!hit ==> match spec_execute(module@, input@, limits) {
                    Err(e) => r == (RunOutcome::Failed { reason: FailReason::Load }) && *final(self)
                        == *old(self) && e == SandboxError::LoadError,
                    Ok(model) => match model {
                        RunModel::Timeout => r == (RunOutcome::Failed {
                            reason: FailReason::Timeout,
                        }) && final(self).executions == old(self).executions + 1
                            && unchanged_stores(*old(self), *final(self)),
                        RunModel::SpaceExceeded => r == (RunOutcome::Failed {
                            reason: FailReason::ResourceExceeded,
                        }) && final(self).executions == old(self).executions + 1
                            && unchanged_stores(*old(self), *final(self)),
                        RunModel::Trap => r == (RunOutcome::Failed { reason: FailReason::Trap })
                            && final(self).executions == old(self).executions + 1
                            && unchanged_stores(*old(self), *final(self)),
                        RunModel::Done { exit_code, output, steps } => {
                            &&& final(self).executions == old(self).executions + 1
                            &&& match spec_parse(output) {
                                Err(pe) => r == (RunOutcome::Failed {
                                    reason: FailReason::Parse(pe),
                                }) && unchanged_stores(*old(self), *final(self)),
                                Ok(mm) => if policy.reject_nonzero_exit && exit_code != 0 {
                                    r == (RunOutcome::Failed { reason: FailReason::PluginExit })
                                        && unchanged_stores(*old(self), *final(self))
                                } else if (mm.evidence matches Some(e) && !old(
                                    self,
                                ).cas.view().contains_key(e.cas_key)) {
                                    r == (RunOutcome::Failed { reason: FailReason::Dangling })
                                        && unchanged_stores(*old(self), *final(self))
                                } else {
                                    let run_id = old(self).graph.spec_next_id();
                                    &&& r == (RunOutcome::Executed { run: run_id })
                                    &&& final(self).cas.view() == spec_put_map(
                                        old(self).cas.view(),
                                        output,
                                    )
                                    &&& final(self).cache.view() == spec_record(
                                        old(self).cache.view(),
                                        key,
                                        run_id,
                                    )
                                    &&& final(self).cache.view().contains_key(key)
                                    &&& final(self).cache.view()[key] == run_id
                                    &&& final(self).graph.hosts_model() == (match mm.host {
                                        Some(h) => spec_upsert_host(
                                            old(self).graph.hosts_model(),
                                            h.ip,
                                            h.hostname,
                                        ),
                                        None => old(self).graph.hosts_model(),
                                    })
                                    &&& final(self).graph.services_model() == (match mm.service {
                                        Some(s) => spec_upsert_service(
                                            old(self).graph.services_model(),
                                            s.host_ip,
                                            s.protocol,
                                            s.port,
                                            s.product,
                                            s.version,
                                            s.banner,
                                            now,
                                            run_id,
                                        ),
                                        None => old(self).graph.services_model(),
                                    })
                                    &&& final(self).graph.runs_model() == {
                                        let base = old(self).graph.runs_model().push(
                                            RunRecModel {
                                                id: run_id,
                                                name: tool@,
                                                version: version@,
                                                cache_key: key,
                                                started: now,
                                                finished: now,
                                                exit_code,
                                                raw_key: spec_key_of(output),
                                            },
                                        );
                                        match mm.tool_run {
                                            Some(t) => base.push(
                                                RunRecModel {
                                                    id: (run_id + 1) as u64,
                                                    name: t.name,
                                                    version: t.version,
                                                    cache_key: t.cache_key,
                                                    started: now,
                                                    finished: now,
                                                    exit_code: 0,
                                                    raw_key: Seq::<u8>::empty(),
                                                },
                                            ),
                                            None => base,
                                        }
                                    }
                                    &&& final(self).graph.evidence_model_seq() == (
                                    match mm.evidence {
                                        Some(e) => old(self).graph.evidence_model_seq().push(
                                            EvidenceModel {
                                                id: if mm.tool_run is Some {
                                                    (run_id + 2) as u64
                                                } else {
                                                    (run_id + 1) as u64
                                                },
                                                cas_key: e.cas_key,
                                                summary: e.summary,
                                                tool_run: run_id,
                                            },
                                        ),
                                        None => old(self).graph.evidence_model_seq(),
                                    })
                                },
                            }
                        },
                    },
                })
            }),
    {
        let key = cache_key(tool, version, target, port, options);
        if let Some(run) = self.cache.lookup(&key) {
            return RunOutcome::CacheHit { run };
        }
        let res = match execute(module, input, limits) {
            Ok(res) => {
                self.executions = self.executions + 1;
                res
            },
            Err(SandboxError::LoadError) => {
                return RunOutcome::Failed { reason: FailReason::Load };
            },
            Err(e) => {
                self.executions = self.executions + 1;
                let reason = match e {
                    SandboxError::Timeout => FailReason::Timeout,
                    SandboxError::ResourceExceeded => FailReason::ResourceExceeded,
                    _ => FailReason::Trap,
                };
                return RunOutcome::Failed { reason };
            },
        };
        proof {
            if let Some(prog) = spec_load(module@) {
                lemma_run_output_len(
                    prog,
                    input@,
                    0,
                    Seq::<u8>::empty(),
                    limits.max_steps as nat,
                    limits.max_output as nat,
                );
            }
        }
        let m = match parse(&res.output) {
            Ok(m) => m,
            Err(pe) => {
                return RunOutcome::Failed { reason: FailReason::Parse(pe) };
            },
        };
        if policy.reject_nonzero_exit && res.exit_code != 0 {
            return RunOutcome::Failed { reason: FailReason::PluginExit };
        }
        if let Some(e) = &m.evidence {
            if !self.cas.has(&e.cas_key) {
                return RunOutcome::Failed { reason: FailReason::Dangling };
            }
        }
        let raw_key = self.cas.put(&res.output);
        let run_id = self.graph.add_tool_run(
            tool,
            version,
            &key,
            now,
            now,
            res.exit_code,
            &raw_key,
        );
        let applied = self.graph.apply(&m, &self.cas, now, run_id);
        match applied {
            Ok(()) => {},
            Err(_) => {
                proof {
                    assert(false);
                }
            },
        }
        self.cache.record(&key, run_id);
        RunOutcome::Executed { run: run_id }
    }

    /// Number of sandbox executions performed so far. A cache hit starts
    /// none: for one cache key, one recorded execution serves all later
    /// requests.
    pub fn executions_performed(&self) -> (r: u64)
        ensures
            r == self.executions,
    {
        self.executions
    }
}

/// Whether a failure is transient: a breached resource limit may pass on
/// a retry under contention; a malformed module, a crash, a rejected
/// document or dangling evidence will not.
pub open spec fn spec_retryable(reason: FailReason) -> bool {
    reason == FailReason::Timeout || reason == FailReason::ResourceExceeded
}

/// Decides whether a failed request is retried: only transient sandbox
/// failures, and only while the bounded retry budget lasts.
pub fn should_retry(reason: FailReason, attempts_made: u64, max_retries: u64) -> (r: bool)
    ensures
        r == (spec_retryable(reason) && attempts_made <= max_retries),
{
    let transient = match reason {
        FailReason::Timeout => true,
        FailReason::ResourceExceeded => true,
        _ => false,
    };
    transient && attempts_made <= max_retries
}

/// Both orchestrators hold the same stores: nothing was committed.
pub open spec fn unchanged_stores(a: Orchestrator, b: Orchestrator) -> bool {
    &&& b.cas == a.cas
    &&& b.cache == a.cache
    &&& b.graph == a.graph
}

} // verus!
