use aurion::cas::Cas;
use aurion::graph::{Graph, MergeError};
use aurion::mutation::{EvidenceDecl, HostUpsert, Mutation, ServiceUpsert};
use aurion::sandbox::{execute, load, Limits, SandboxError, MAGIC_0, MAGIC_1, OP_EMIT, OP_EXIT, OP_JUMP};
use aurion::scheduler::{should_retry, FailReason, Orchestrator, Policy, RunOutcome};

fn v(s: &str) -> Vec<u8> {
    s.as_bytes().to_vec()
}

/// A module that writes `payload` to its output stream and exits with
/// `code`.
fn emitting_module(payload: &[u8], code: u8) -> Vec<u8> {
    let mut m = vec![MAGIC_0, MAGIC_1];
    for &b in payload {
        m.push(OP_EMIT);
        m.push(b);
    }
    m.push(OP_EXIT);
    m.push(code);
    m
}

/// A module that loops forever.
fn looping_module() -> Vec<u8> {
    vec![MAGIC_0, MAGIC_1, OP_JUMP, 0]
}

fn wide_limits() -> Limits {
    Limits { max_steps: 100_000, max_output: 10_000 }
}

fn policy() -> Policy {
    Policy { reject_nonzero_exit: true }
}

fn assert_empty(orch: &Orchestrator) {
    assert_eq!(orch.graph.host_count(), 0);
    assert_eq!(orch.graph.service_count(), 0);
    assert_eq!(orch.graph.run_count(), 0);
    assert_eq!(orch.graph.evidence_count(), 0);
    assert_eq!(orch.cas.num_blobs(), 0);
}

#[test]
fn sandbox_load_rejects_malformed_modules() {
    assert_eq!(load(&vec![]).err(), Some(SandboxError::LoadError));
    assert_eq!(load(&vec![0x00, 0x00]).err(), Some(SandboxError::LoadError));
    // Odd instruction area.
    assert_eq!(load(&vec![MAGIC_0, MAGIC_1, OP_EXIT]).err(), Some(SandboxError::LoadError));
    // Unknown opcode.
    assert_eq!(load(&vec![MAGIC_0, MAGIC_1, 0x99, 0]).err(), Some(SandboxError::LoadError));
    // Jump target out of range.
    assert_eq!(load(&vec![MAGIC_0, MAGIC_1, OP_JUMP, 5]).err(), Some(SandboxError::LoadError));
    assert!(load(&emitting_module(b"x", 0)).is_ok());
}

#[test]
fn sandbox_captures_output_and_exit_code() {
    let res = execute(&emitting_module(b"hi", 3), &v(""), wide_limits()).unwrap();
    assert_eq!(res.output, v("hi"));
    assert_eq!(res.exit_code, 3);
    assert_eq!(res.steps, 3);
}

#[test]
fn sandbox_timeout_is_reported() {
    let res = execute(&looping_module(), &v(""), Limits { max_steps: 10, max_output: 10 });
    assert_eq!(res.err(), Some(SandboxError::Timeout));
}

#[test]
fn sandbox_output_limit_is_reported() {
    let res = execute(&emitting_module(b"abcdef", 0), &v(""), Limits {
        max_steps: 100,
        max_output: 3,
    });
    assert_eq!(res.err(), Some(SandboxError::ResourceExceeded));
}

#[test]
fn sandbox_running_off_the_end_traps() {
    let module = vec![MAGIC_0, MAGIC_1, OP_EMIT, b'x'];
    let res = execute(&module, &v(""), wide_limits());
    assert_eq!(res.err(), Some(SandboxError::TrapFault));
}

#[test]
fn dangling_evidence_rejected_in_full() {
    // Applied directly through the merge engine: nothing is visible after.
    let cas = Cas::new();
    let mut graph = Graph::new();
    let m = Mutation {
        host: Some(HostUpsert { ip: v("1.2.3.4"), hostname: Some(v("a")) }),
        service: Some(ServiceUpsert {
            host_ip: v("1.2.3.4"),
            protocol: v("tcp"),
            port: 22,
            product: None,
            version: None,
            banner: None,
        }),
        tool_run: None,
        evidence: Some(EvidenceDecl { cas_key: vec![b'0'; 64], summary: v("s") }),
    };
    assert_eq!(graph.apply(&m, &cas, 1, 0), Err(MergeError::DanglingReference));
    assert_eq!(graph.host_count(), 0);
    assert_eq!(graph.service_count(), 0);
    assert_eq!(graph.evidence_count(), 0);
}

#[test]
fn hostname_union_across_mutations() {
    let cas = Cas::new();
    let mut graph = Graph::new();
    let up = |name: &str| Mutation {
        host: Some(HostUpsert { ip: v("1.2.3.4"), hostname: Some(v(name)) }),
        service: None,
        tool_run: None,
        evidence: None,
    };
    graph.apply(&up("alpha"), &cas, 1, 0).unwrap();
    graph.apply(&up("beta"), &cas, 2, 1).unwrap();
    graph.apply(&up("alpha"), &cas, 3, 2).unwrap();
    assert_eq!(graph.host_count(), 1);
    let i = graph.find_host(&v("1.2.3.4")).unwrap();
    let host = graph.host_at(i);
    assert_eq!(host.hostnames.len(), 2);
    assert!(host.hostnames.contains(&v("alpha")));
    assert!(host.hostnames.contains(&v("beta")));
}

#[test]
fn service_merge_is_last_writer_wins_with_append_only_banners() {
    let cas = Cas::new();
    let mut graph = Graph::new();
    let up = |product: &str, banner: &str| Mutation {
        host: Some(HostUpsert { ip: v("1.2.3.4"), hostname: None }),
        service: Some(ServiceUpsert {
            host_ip: v("1.2.3.4"),
            protocol: v("tcp"),
            port: 80,
            product: Some(v(product)),
            version: None,
            banner: Some(v(banner)),
        }),
        tool_run: None,
        evidence: None,
    };
    graph.apply(&up("new-scanner", "b2"), &cas, 10, 1).unwrap();
    // An older write arriving later must not overwrite scalars, but its
    // banner still joins the history.
    graph.apply(&up("old-scanner", "b1"), &cas, 5, 0).unwrap();
    assert_eq!(graph.service_count(), 1);
    let i = graph.find_service(&v("1.2.3.4"), &v("tcp"), 80).unwrap();
    let svc = graph.service_at(i);
    assert_eq!(svc.product, Some(v("new-scanner")));
    assert_eq!(svc.banners, vec![v("b2"), v("b1")]);
    assert_eq!(svc.last_ts, 10);
}

#[test]
fn scheduler_reuses_cached_runs_single_execution() {
    let mut orch = Orchestrator::new();
    let module = emitting_module(b"{}", 0);
    let opts = vec![v("-sV")];
    let first = orch.run_plugin(
        &v("nmap"), &v("7.95"), &v("10.0.0.1"), 80, &opts, &module, &v(""), wide_limits(), 100,
        policy(),
    );
    let run = match first {
        RunOutcome::Executed { run } => run,
        other => panic!("expected an execution, got {:?}", other),
    };
    assert_eq!(orch.executions_performed(), 1);
    let second = orch.run_plugin(
        &v("nmap"), &v("7.95"), &v("10.0.0.1"), 80, &opts, &module, &v(""), wide_limits(), 200,
        policy(),
    );
    assert_eq!(second, RunOutcome::CacheHit { run });
    assert_eq!(orch.executions_performed(), 1);
    // A different invocation is a miss and executes.
    let third = orch.run_plugin(
        &v("nmap"), &v("7.95"), &v("10.0.0.1"), 443, &opts, &module, &v(""), wide_limits(), 300,
        policy(),
    );
    assert!(matches!(third, RunOutcome::Executed { .. }));
    assert_eq!(orch.executions_performed(), 2);
}

#[test]
fn timeout_never_commits_a_mutation() {
    let mut orch = Orchestrator::new();
    let out = orch.run_plugin(
        &v("slow"), &v("1"), &v("10.0.0.1"), 80, &vec![], &looping_module(), &v(""),
        Limits { max_steps: 50, max_output: 100 }, 100, policy(),
    );
    assert_eq!(out, RunOutcome::Failed { reason: FailReason::Timeout });
    assert_eq!(orch.executions_performed(), 1);
    assert_empty(&orch);
    // Failed executions are never recorded as cache hits: retrying with
    // wider limits executes again.
    let retry = orch.run_plugin(
        &v("slow"), &v("1"), &v("10.0.0.1"), 80, &vec![], &emitting_module(b"{}", 0), &v(""),
        wide_limits(), 200, policy(),
    );
    assert!(matches!(retry, RunOutcome::Executed { .. }));
    assert_eq!(orch.executions_performed(), 2);
}

#[test]
fn plugin_failures_leave_stores_untouched() {
    let mut orch = Orchestrator::new();
    let args = (v("t"), v("1"), v("10.0.0.9"), 1u16);
    // Load failure.
    let out = orch.run_plugin(
        &args.0, &args.1, &args.2, args.3, &vec![], &v("junk"), &v(""), wide_limits(), 1, policy(),
    );
    assert_eq!(out, RunOutcome::Failed { reason: FailReason::Load });
    assert_eq!(orch.executions_performed(), 0);
    // Unparseable output.
    let out = orch.run_plugin(
        &args.0, &args.1, &args.2, args.3, &vec![], &emitting_module(b"not json", 0), &v(""),
        wide_limits(), 1, policy(),
    );
    assert!(matches!(out, RunOutcome::Failed { reason: FailReason::Parse(_) }));
    // Nonzero exit with valid output, under a rejecting policy.
    let out = orch.run_plugin(
        &args.0, &args.1, &v("10.0.0.10"), args.3, &vec![], &emitting_module(b"{}", 1), &v(""),
        wide_limits(), 1, policy(),
    );
    assert_eq!(out, RunOutcome::Failed { reason: FailReason::PluginExit });
    // Dangling evidence through the whole pipeline.
    let doc = format!(
        "{{\"evidence\":{{\"summary\":\"s\",\"cas_key\":\"{}\"}}}}",
        "ab".repeat(32)
    );
    let out = orch.run_plugin(
        &args.0, &args.1, &v("10.0.0.11"), args.3, &vec![], &emitting_module(doc.as_bytes(), 0),
        &v(""), wide_limits(), 1, policy(),
    );
    assert_eq!(out, RunOutcome::Failed { reason: FailReason::Dangling });
    assert_empty(&orch);
}

#[test]
fn nonzero_exit_accepted_under_lenient_policy() {
    let mut orch = Orchestrator::new();
    let out = orch.run_plugin(
        &v("t"), &v("1"), &v("10.0.0.1"), 1, &vec![], &emitting_module(b"{}", 1), &v(""),
        wide_limits(), 1, Policy { reject_nonzero_exit: false },
    );
    assert!(matches!(out, RunOutcome::Executed { .. }));
}

#[test]
fn end_to_end_example_output_commits_everything() {
    let mut orch = Orchestrator::new();
    // The evidence must reference content already in the store.
    let raw = v("HTTP/1.0 200 OK\r\nServer: ExampleHTTP/0.1\r\n");
    let cas_key = orch.cas.put(&raw);
    let cas_key_s = String::from_utf8(cas_key.clone()).unwrap();
    let hex = "0123456789abcdef".repeat(4);
    let doc = format!(
        "{{\"host\":{{\"ip\":\"127.0.0.1\",\"hostname\":\"localhost\"}},\
         \"service\":{{\"protocol\":\"tcp\",\"port\":80,\"product\":\"ExampleHTTP\",\"version\":\"0.1\"}},\
         \"tool_run\":{{\"name\":\"skeleton\",\"version\":\"0.1.0\",\"cache_key\":\"{hex}\"}},\
         \"evidence\":{{\"summary\":\"banner grab\",\"cas_key\":\"{cas_key_s}\"}}}}"
    );
    let module = emitting_module(doc.as_bytes(), 0);
    let out = orch.run_plugin(
        &v("skeleton"), &v("0.1.0"), &v("127.0.0.1"), 80, &vec![], &module, &v(""), wide_limits(),
        1000, policy(),
    );
    let run = match out {
        RunOutcome::Executed { run } => run,
        other => panic!("expected success, got {:?}", other),
    };

    // Host committed and queryable.
    let hi = orch.graph.find_host(&v("127.0.0.1")).expect("host present");
    let host = orch.graph.host_at(hi);
    assert_eq!(host.ip, v("127.0.0.1"));
    assert_eq!(host.hostnames, vec![v("localhost")]);

    // Service committed under (host, protocol, port).
    let si = orch.graph.find_service(&v("127.0.0.1"), &v("tcp"), 80).expect("service present");
    let svc = orch.graph.service_at(si);
    assert_eq!(svc.product, Some(v("ExampleHTTP")));
    assert_eq!(svc.version, Some(v("0.1")));

    // Two run records: the execution itself and the declared one.
    assert_eq!(orch.graph.run_count(), 2);
    let exec_run = orch.graph.run_at(0);
    assert_eq!(exec_run.id, run);
    assert_eq!(exec_run.name, v("skeleton"));
    assert_eq!(exec_run.exit_code, 0);
    let declared = orch.graph.run_at(1);
    assert_eq!(declared.name, v("skeleton"));
    assert_eq!(declared.version, v("0.1.0"));

    // Evidence committed, linked to the executing run and backed by the
    // store: the raw banner bytes come back under its key.
    assert_eq!(orch.graph.evidence_count(), 1);
    let ev = orch.graph.evidence_at(0);
    assert_eq!(ev.summary, v("banner grab"));
    assert_eq!(ev.tool_run, run);
    assert_eq!(orch.cas.get(&ev.cas_key), Ok(raw.clone()));

    // The raw captured output itself is stored and retrievable too.
    assert_eq!(orch.cas.get(&exec_run.raw_key), Ok(v(&doc)));
}

#[test]
fn only_transient_failures_are_retried() {
    assert!(should_retry(FailReason::Timeout, 0, 2));
    assert!(should_retry(FailReason::ResourceExceeded, 2, 2));
    assert!(!should_retry(FailReason::Timeout, 3, 2));
    assert!(!should_retry(FailReason::Load, 0, 2));
    assert!(!should_retry(FailReason::Trap, 0, 2));
    assert!(!should_retry(FailReason::Parse(aurion::parser::ParseError::Syntax), 0, 2));
    assert!(!should_retry(FailReason::Dangling, 0, 2));
}
