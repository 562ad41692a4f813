use std::collections::hash_map::DefaultHasher;
use std::collections::HashSet;
use std::hash::Hasher;

use balansir_daemon::control::{
    drive, encoded, fingerprint_of_payload, handle_message, reloaded, remove_stale_socket, Handling, IpcMessage, Query,
    SocketError, Stale,
};
use balansir_daemon::driver::factory::ConfiguredFactory;
use balansir_daemon::driver::health::{HealthTier, TierTracker};
use balansir_daemon::driver::lifecycle::{DriverAction, DriverIntent, DriverLifecycleManager, DriverLifecycleState};
use balansir_daemon::model::{
    Action, ActionResult, ActionType, ActualRule, ActualState, DesiredRule, DesiredState, DriverId, FlowCriteria,
};
use balansir_daemon::net::ipv4;
use balansir_daemon::policy::compiler::PolicyCompiler;
use balansir_daemon::qos::{QdiscKind, QosConfig, QosDirection};
use balansir_daemon::reconciliation::adapters::{
    execute, operation_request, rollback, OperationRequest, PendingMechanismAdapter,
};
use balansir_daemon::reconciliation::bootstrap::{bootstrap, from_state_store, load_desired_state, StateLoad};
use balansir_daemon::reconciliation::diff::StateDiff;
use balansir_daemon::reconciliation::dns_flow::{DnsRegistry, FlowCompiler};
use balansir_daemon::reconciliation::dummy::DummyExecutorAdapter;
use balansir_daemon::reconciliation::error::ReconciliationError;
use balansir_daemon::reconciliation::executor_client::{
    acknowledged, actual_rule_ids, answered, apply_result, default_executor_client, removal_payload, removal_result,
    typed_response, unsupported, ApplyReply, ExecutorClient, ExecutorError, MsgType, Reply, DEFAULT_EXECUTOR_SOCKET,
};
use balansir_daemon::reconciliation::plan::{ReconciliationOperation, ReconciliationPlan};
use balansir_daemon::reconciliation::reconciler::{Reconciler, ReconcilerConfig};
use balansir_daemon::reconciliation::sinks::{
    api_event, event_details, fan_out, ControlEvent, ControlEventKind, EventSink, TracingEventSink,
};
use balansir_daemon::startup::{load_startup_desired, StartupDesired, StartupEnv};

/// A fingerprint that tells configurations apart.
fn config_fingerprint(state: &DesiredState) -> u64 {
    let mut hasher = DefaultHasher::new();
    hasher.write(format!("{state:?}").as_bytes());
    hasher.finish()
}

fn rule(id: u32, action: Action, priority: u32) -> DesiredRule {
    DesiredRule { id, action, priority, flow: None }
}

fn state(rules: Vec<DesiredRule>) -> DesiredState {
    DesiredState { rules, drivers: Vec::new(), qos: Vec::new() }
}

/// A kernel that takes every rule.
struct Kernel {
    rules: HashSet<u32>,
}

impl Kernel {
    fn new() -> Self {
        Kernel { rules: HashSet::new() }
    }

    fn answer(&mut self, op: &ReconciliationOperation) -> ActionResult {
        match operation_request(op) {
            OperationRequest::Apply(r) => {
                self.rules.insert(r.trace.policy_id);
            }
            OperationRequest::Remove(id) => {
                self.rules.remove(&id);
            }
            OperationRequest::Nothing => {}
        }
        ActionResult::Applied { execution_time_us: 0, rule_id: None }
    }

    /// A whole cycle of a reconciler against this kernel.
    fn cycle(&mut self, r: &mut Reconciler) -> Result<(), ReconciliationError> {
        let plan = r.build_plan();
        let answers: Vec<ActionResult> = plan.operations.iter().map(|op| self.answer(op)).collect();
        r.finish_cycle(&plan, &answers).0
    }
}

fn failing(plan: &ReconciliationPlan) -> Vec<ActionResult> {
    plan.operations
        .iter()
        .map(|_| ActionResult::Failed { code: 0, message: Some("simulated failure".into()) })
        .collect()
}

#[test]
fn test_reconciler_basic() {
    let desired = || state(vec![rule(1, Action::Block, 100), rule(2, Action::Allow, 50)]);
    let mut reconciler = Reconciler::new(desired(), ReconcilerConfig::default());
    assert!(reconciler.actual.active_rules.is_empty());
    reconciler.set_desired(desired(), 0, config_fingerprint);
    Kernel::new().cycle(&mut reconciler).unwrap();
    assert_eq!(reconciler.actual.active_rules.len(), 2);
    assert_eq!(reconciler.generation, 2);
}

#[test]
fn test_reconciler_add_remove() {
    let mut reconciler = Reconciler::new(state(vec![rule(1, Action::Block, 100)]), ReconcilerConfig::default());
    Kernel::new().cycle(&mut reconciler).unwrap();
    reconciler.add_rule(rule(2, Action::Allow, 50));
    assert_eq!(reconciler.build_plan().operations.len(), 1);
    reconciler.remove_rule(1);
    assert!(!reconciler.build_plan().is_empty());
}

#[test]
fn test_reconciler_full_cycle() {
    let mut reconciler = Reconciler::new(DesiredState::default(), ReconcilerConfig::default());
    reconciler.add_rule(rule(1, Action::Block, 100));
    reconciler.add_rule(rule(2, Action::Allow, 50));
    Kernel::new().cycle(&mut reconciler).unwrap();
    assert!(reconciler.build_plan().is_empty());
}

#[test]
fn test_bootstrap_from_empty_store() {
    let reconciler = from_state_store(StateLoad::Missing).unwrap();
    assert!(reconciler.desired.rules.is_empty());
}

#[test]
fn test_bootstrap_empty() {
    let reconciler = bootstrap(StateLoad::Missing).unwrap();
    assert!(reconciler.desired.rules.is_empty());
}

#[test]
fn test_save_and_load() {
    // Build the state up, keep it, and start from what was kept.
    let mut reconciler = Reconciler::new(DesiredState::default(), ReconcilerConfig::default());
    reconciler.add_rule(rule(1, Action::Block, 100));
    let kept = reconciler.desired.duplicate();
    let reconciler2 = bootstrap(StateLoad::Found(Ok(kept))).unwrap();
    assert_eq!(reconciler2.desired.rules.len(), 1);
    assert_eq!(reconciler2.desired.rules[0].id, 1);
}

#[test]
fn a_broken_store_is_an_error() {
    assert!(load_desired_state(StateLoad::Found(Err("bad bytes".to_string()))).is_err());
    assert!(bootstrap(StateLoad::Found(Err("bad bytes".to_string()))).is_err());
    // A store that cannot be reached starts empty; what was kept is never lost
    // where it can be told.
    assert!(load_desired_state(StateLoad::Failed("io".to_string())).unwrap().rules.is_empty());
    assert!(matches!(from_state_store(StateLoad::Failed("io".to_string())), Err(ReconciliationError::StateLoad(_))));
}

/// A reload whose plan is carried out, or is not.
fn reload(r: &mut Reconciler, candidate: DesiredState, works: bool) -> Result<(), ReconciliationError> {
    let reload = r.begin_reload(candidate, 0, config_fingerprint);
    let plan = r.build_plan();
    let answers: Vec<ActionResult> = if works {
        let mut kernel = Kernel::new();
        plan.operations.iter().map(|op| kernel.answer(op)).collect()
    } else {
        failing(&plan)
    };
    let (outcome, _) = r.finish_cycle(&plan, &answers);
    r.finish_reload(reload, outcome.map_err(|e| e.message()))
}

#[test]
fn test_reload_commits_new_state() {
    let mut reconciler = Reconciler::new(DesiredState::default(), ReconcilerConfig::default());
    reload(&mut reconciler, state(vec![rule(7, Action::Block, 100)]), true).unwrap();
    assert_eq!(reconciler.desired.rules.len(), 1);
    assert_eq!(reconciler.desired.rules[0].id, 7);
    assert_eq!(reconciler.actual.active_rules.len(), 1);
}

#[test]
fn config_fingerprint_tracks_last_accepted_reload() {
    let mut reconciler = Reconciler::new(DesiredState::default(), ReconcilerConfig::default());
    assert_eq!(reconciler.config_fingerprint(), None);
    let candidate = || state(vec![rule(7, Action::Block, 100)]);
    let fp_expected = config_fingerprint(&candidate());
    reload(&mut reconciler, candidate(), true).unwrap();
    assert_eq!(reconciler.config_fingerprint(), Some(fp_expected));
    // A different candidate has a different fingerprint and updates it.
    let changed = || state(vec![rule(8, Action::Allow, 10)]);
    let fp_changed = config_fingerprint(&changed());
    reload(&mut reconciler, changed(), true).unwrap();
    assert_eq!(reconciler.config_fingerprint(), Some(fp_changed));
    assert_ne!(fp_changed, fp_expected);
    // A failing reload must not change the fingerprint.
    let bad = || state(vec![rule(99, Action::Block, 100)]);
    let mut fresh = Reconciler::new(DesiredState::default(), ReconcilerConfig::default());
    assert!(reload(&mut fresh, bad(), false).is_err());
    assert_eq!(fresh.config_fingerprint(), None);
    assert!(reload(&mut reconciler, bad(), false).is_err());
    assert_eq!(reconciler.config_fingerprint(), Some(fp_changed));
}

#[test]
fn test_reload_rejects_bad_state_and_keeps_old() {
    let mut reconciler = Reconciler::new(DesiredState::default(), ReconcilerConfig::default());
    assert!(reload(&mut reconciler, state(vec![rule(2, Action::Block, 100)]), false).is_err());
    // Old (empty) state is still live after the aborted reload.
    assert!(reconciler.desired.rules.is_empty());
}

#[test]
fn build_plan_and_coordinator_share_one_planning_authority() {
    let desired = || state(vec![rule(1, Action::Block, 100), rule(2, Action::Allow, 50)]);
    let mut reconciler = Reconciler::new(desired(), ReconcilerConfig::default());
    reconciler.set_desired(desired(), 0, config_fingerprint);
    let plan = reconciler.build_plan();
    let planned = StateDiff::build(&reconciler.desired, &reconciler.actual);
    assert_eq!(
        format!("{:?}", plan.operations),
        format!("{:?}", planned.operations),
        "both must produce identical operations"
    );
}

#[test]
fn dry_run_produces_plan_without_side_effects() {
    let desired = || state(vec![rule(1, Action::Block, 100), rule(2, Action::Allow, 50)]);
    let mut reconciler = Reconciler::new(desired(), ReconcilerConfig::default());
    reconciler.set_desired(desired(), 0, config_fingerprint);
    let plan = reconciler.dry_run();
    // The plan requests the two desired rules to be applied.
    assert_eq!(plan.operations.len(), 2);
    for id in [1, 2] {
        assert!(plan.operations.iter().any(|op| matches!(op, ReconciliationOperation::UpdatePolicy(r) if r.id == id)));
    }
    // Dry-run must not mutate actual state, bump generation, or execute.
    assert!(reconciler.actual.active_rules.is_empty(), "dry-run must not apply rules");
    assert_eq!(reconciler.generation, 1, "dry-run must not bump generation");
}

#[test]
fn explain_describes_dry_run_plan_operations() {
    let reconciler = Reconciler::new(state(vec![rule(7, Action::Block, 100)]), ReconcilerConfig::default());
    let plan = reconciler.dry_run();
    let explanation = reconciler.explain();
    // Explain mentions the plan's generation and the policy operation.
    assert!(explanation.contains("Update policy"), "{}", explanation);
    assert!(explanation.contains("generation:"), "{}", explanation);
    // Deterministic: same inputs -> same explanation.
    assert_eq!(explanation, reconciler.explain());
    assert!(plan.operations[0].to_text().contains("Update policy"), "plan display matches explain");
}

#[test]
fn sync_actual_from_executor_imports_kernel_inventory() {
    let mut reconciler = Reconciler::new(DesiredState::default(), ReconcilerConfig::default());
    reconciler.sync_actual_from_executor(&vec![7, 42]);
    let mut ids: Vec<u32> = reconciler.actual.active_rules.iter().map(|r| r.id).collect();
    ids.sort_unstable();
    assert_eq!(ids, vec![7, 42]);
}

#[test]
fn ownership_loop_converges_external_kernel_edit() {
    let config =
        ReconcilerConfig { check_interval_secs: 0, resync_every_n_cycles: 1, ..ReconcilerConfig::default() };
    let mut reconciler = Reconciler::new(state(vec![rule(7, Action::Block, 100)]), config);
    let mut kernel = Kernel::new();
    // Converge the desired rule into the kernel.
    kernel.cycle(&mut reconciler).unwrap();
    assert_eq!(kernel.rules.len(), 1, "desired rule installed");
    // External actor injects an unknown rule directly into the kernel.
    kernel.rules.insert(99);
    // One ownership step (resync + reconcile) must discover and remove it.
    assert!(reconciler.resync_due(0));
    let ids: Vec<u32> = kernel.rules.iter().copied().collect();
    reconciler.sync_actual_from_executor(&ids);
    kernel.cycle(&mut reconciler).unwrap();
    assert_eq!(kernel.rules, HashSet::from([7u32]), "external kernel edit must be converged back to desired");
    assert_eq!(reconciler.actual.active_rules.len(), 1);
    assert_eq!(reconciler.actual.active_rules[0].id, 7);
}

#[test]
fn dns_resync_tracks_domain_resolution_change() {
    // Domain rule + registry that resolves to IP A initially.
    let mut registry = DnsRegistry::new();
    registry.insert("api.example.com", vec![ipv4(203, 0, 113, 5)]);
    let mut reconciler = Reconciler::new(DesiredState::default(), ReconcilerConfig::default());
    reconciler.with_flow_compiler(FlowCompiler::new(registry));
    let raw = state(vec![DesiredRule {
        flow: Some(FlowCriteria { dst_domain: Some("api.example.com".to_string()), ..FlowCriteria::default() }),
        ..rule(7, Action::Block, 100)
    }]);
    let mut kernel = Kernel::new();
    reconciler.set_desired(raw, 0, config_fingerprint);
    kernel.cycle(&mut reconciler).unwrap();
    let ids_a: Vec<u32> = kernel.rules.iter().copied().collect();
    assert_eq!(ids_a.len(), 1, "initial domain resolution installed one rule");
    // DNS observation changes the resolution to a different IP.
    reconciler.flow_compiler.as_mut().unwrap().registry.insert("api.example.com", vec![ipv4(198, 51, 100, 9)]);
    assert!(reconciler.dns_resync(0, config_fingerprint), "dns_resync must detect the resolution change");
    kernel.cycle(&mut reconciler).unwrap();
    // Kernel now holds the new derived rule id, and the old one is gone.
    let ids_b: Vec<u32> = kernel.rules.iter().copied().collect();
    assert_eq!(ids_b.len(), 1);
    assert_ne!(ids_a[0], ids_b[0], "derived id must change with the IP");
    // A second resync with no DNS change is a no-op.
    assert!(!reconciler.dns_resync(0, config_fingerprint));
}

fn actual(id: u32, action: Action, rule_id: Option<u32>) -> ActualRule {
    ActualRule { id, action, rule_id, flow: None }
}

#[test]
fn rollback_reverts_added_rules_and_restores_snapshot() {
    let mut live =
        ActualState { active_rules: vec![actual(1, Action::Block, None), actual(2, Action::Allow, Some(10))] };
    // Snapshot predates rule 2: it was added mid-execution and must be reverted.
    let snapshot = ActualState { active_rules: vec![actual(1, Action::Block, None)] };
    let removals = rollback(&mut live, &snapshot);
    assert_eq!(removals.as_slice(), &[2]);
    assert_eq!(live.active_rules.len(), 1);
    assert_eq!(live.active_rules[0].id, 1);
}

#[test]
fn each_execution_has_an_id_of_its_own() {
    let plan = ReconciliationPlan::new(vec![ReconciliationOperation::UpdatePolicy(rule(1, Action::Block, 1))]);
    let answers = vec![ActionResult::Applied { execution_time_us: 0, rule_id: None }];
    let mut live = ActualState::default();
    let a = execute(&mut live, &plan, &answers);
    let b = execute(&mut live, &plan, &answers);
    assert!(a.success && a.succeeded == 1 && a.failed == 0 && a.total == 1);
    assert_ne!(a.id, b.id);
    assert_ne!(a.id, 0);
    assert_eq!((a.id >> 76) & 0xf, 4);
    let bad = execute(&mut live, &plan, &failing(&plan));
    assert!(!bad.success && bad.failed == 1);
}

#[test]
fn a_pending_mechanism_supports_nothing() {
    let request = PolicyCompiler::compile(&rule(1, Action::Block, 1));
    assert!(matches!(
        PendingMechanismAdapter.execute(&request),
        ActionResult::Unsupported { action_type: ActionType::Block }
    ));
    assert_eq!(PendingMechanismAdapter.rule_count(), 0);
    let mut dummy = DummyExecutorAdapter::new();
    assert!(matches!(dummy.execute(&request), ActionResult::Applied { .. }));
    assert_eq!(dummy.rule_count(), 1);
}

#[test]
fn executor_client_sends_add_rule_and_decodes_result() {
    let result = apply_result(ApplyReply::Result(ActionResult::Applied { execution_time_us: 5, rule_id: Some(1) }));
    assert!(matches!(result, ActionResult::Applied { rule_id: Some(1), .. }));
    assert!(matches!(apply_result(ApplyReply::NotEncoded), ActionResult::Failed { .. }));
    assert!(matches!(apply_result(ApplyReply::Malformed), ActionResult::Failed { .. }));
    assert!(matches!(apply_result(ApplyReply::Unreachable("gone".to_string())), ActionResult::Failed { .. }));
}

#[test]
fn executor_client_recovers_after_connection_drop() {
    let mut client = ExecutorClient::new("unused");
    assert!(client.needs_connection());
    assert!(client.connection_made(true).is_ok());
    assert!(!client.needs_connection());
    client.request_done(false);
    assert!(client.needs_connection(), "dropped connection must clear the client for reconnect");
    assert!(client.connection_made(false).is_err());
    assert_eq!(default_executor_client().socket, DEFAULT_EXECUTOR_SOCKET);
}

fn reply(msg_type: MsgType, payload: Vec<u8>) -> Reply {
    Reply { msg_type, payload }
}

#[test]
fn executor_client_remove_rule_decodes_ok() {
    assert_eq!(postcard::from_bytes::<u32>(&removal_payload(7)).unwrap(), 7);
    assert_eq!(removal_payload(300), vec![0xAC, 0x02]);
    let result = removal_result(7, &Ok(reply(MsgType::ResponseOk, vec![])));
    assert!(matches!(result, ActionResult::Applied { rule_id: Some(7), .. }));
    assert!(matches!(removal_result(7, &Err("gone".to_string())), ActionResult::Failed { .. }));
}

#[test]
fn executor_client_set_and_query_path_mtu_roundtrip() {
    assert!(acknowledged(&reply(MsgType::ResponseOk, vec![]), "SetPathMtu").is_ok());
    assert!(answered(&reply(MsgType::ResponseData, vec![1]), "GetPathMtuState").is_ok());
    assert!(acknowledged(&reply(MsgType::ResponseData, vec![]), "SetPathMtu").is_err());
}

#[test]
fn a_refusal_is_told_in_the_words_of_the_executor() {
    match typed_response(&reply(MsgType::ResponseError, b"no \xff room".to_vec()), "QosOp") {
        Err(ExecutorError::Fatal(m)) => assert_eq!(m, "executor rejected QosOp: no \u{fffd} room"),
        other => panic!("unexpected: {:?}", other),
    }
    match typed_response(&reply(MsgType::AddRule, vec![]), "QosOp") {
        Err(ExecutorError::Fatal(m)) => assert_eq!(m, "unexpected QosOp response"),
        other => panic!("unexpected: {:?}", other),
    }
    assert!(matches!(unsupported("SetPathMtu"), ExecutorError::Unsupported(m) if m.contains("SetPathMtu")));
}

#[test]
fn the_inventory_is_read_back() {
    let payload = postcard::to_allocvec(&vec![2u32, 7, 42]).unwrap();
    assert_eq!(actual_rule_ids(&Some(reply(MsgType::ResponseData, payload))), vec![2, 7, 42]);
    assert!(actual_rule_ids(&Some(reply(MsgType::ResponseData, vec![9]))).is_empty());
    assert!(actual_rule_ids(&None).is_empty());
}

#[test]
fn api_surface_reports_reconciler_state() {
    let mut reconciler = Reconciler::new(DesiredState::default(), ReconcilerConfig::default());
    assert_eq!(reconciler.desired.rules.len(), 0);
    assert!(reconciler.config_fingerprint().is_none());
    assert!(Kernel::new().cycle(&mut reconciler).is_ok());
}

#[test]
fn events_are_told_everywhere() {
    let mut sink = TracingEventSink { lines: Vec::new() };
    let event = ControlEvent {
        name: "reconciliation_requested".to_string(),
        kind: ControlEventKind::ReconciliationRequested { label: "timer".to_string() },
    };
    assert!(sink.emit(&event).is_ok());
    assert_eq!(sink.lines, vec!["reconciliation_requested".to_string()]);
    let shown = api_event(&event, 7);
    assert_eq!((shown.timestamp, shown.event_type.as_str()), (7, "reconciliation_requested"));
    assert_eq!(shown.details, "requested via timer");
    let failed =
        ControlEvent { name: "failed".to_string(), kind: ControlEventKind::Failed { error: "boom".to_string() } };
    assert_eq!(failed.name(), "failed");
    assert_eq!(event_details(&failed), "boom");
    let step =
        ControlEvent { name: "step".to_string(), kind: ControlEventKind::StepFailed { error: "late".to_string() } };
    assert_eq!(event_details(&step), "late");
    let other = ControlEvent { name: "idle".to_string(), kind: ControlEventKind::Other { text: "Idle".to_string() } };
    assert_eq!(event_details(&other), "Idle");
    assert!(fan_out(&vec![Ok(()), Ok(())]).is_ok());
    assert!(fan_out(&vec![Ok(()), Err("full".to_string())]).is_err());
}

#[test]
fn no_env_starts_empty() {
    let loaded = load_startup_desired(&StartupEnv::NotPresent, Err("unused".to_string())).unwrap();
    assert!(matches!(loaded, StartupDesired::Empty));
}

#[test]
fn valid_config_compiles_to_desired() {
    let env = StartupEnv::Path("/etc/balansir.toml".to_string());
    match load_startup_desired(&env, Ok(state(vec![rule(1, Action::Block, 100)]))).unwrap() {
        StartupDesired::Loaded(state) => {
            assert_eq!(state.rules.len(), 1);
            assert_eq!(state.rules[0].id, 1);
            assert_eq!(state.rules[0].action, Action::Block);
        }
        StartupDesired::Empty => panic!("valid config must not start empty"),
    }
}

#[test]
fn malformed_config_is_fatal_not_empty() {
    let env = StartupEnv::Path("/etc/balansir.toml".to_string());
    let refused = load_startup_desired(&env, Err("unknown action bogus".to_string()));
    match refused {
        Err(e) => assert_eq!(e, "startup config /etc/balansir.toml: unknown action bogus"),
        Ok(_) => panic!("malformed config must be a fatal startup error, never empty"),
    }
}

#[test]
fn missing_file_is_fatal_not_empty() {
    let path = "/nonexistent/balansir-this-does-not-exist.toml";
    let env = StartupEnv::Path(path.to_string());
    assert!(load_startup_desired(&env, Err("no such file".to_string())).is_err());
}

#[test]
fn non_unicode_env_is_rejected() {
    assert!(load_startup_desired(&StartupEnv::NotUnicode, Err(String::new())).is_err());
}

fn message(msg_type: MsgType, payload: Vec<u8>) -> IpcMessage {
    IpcMessage { msg_type, correlation_id: 77, payload }
}

fn handled(msg_type: MsgType, driver: Option<(DriverId, u32)>, r: &Reconciler) -> Handling {
    handle_message(&message(msg_type, vec![]), driver, r)
}

fn answer(h: Handling) -> IpcMessage {
    match h {
        Handling::Answer(a) => a,
        other => panic!("unexpected: {:?}", other),
    }
}

#[test]
fn messages_are_answered_under_their_number() {
    let r = Reconciler::new(DesiredState::default(), ReconcilerConfig::default());
    let ok = answer(handled(MsgType::HealthCheck, None, &r));
    assert_eq!((ok.msg_type, ok.correlation_id), (MsgType::ResponseOk, 77));
    let refused = answer(handled(MsgType::AddRule, None, &r));
    assert_eq!((refused.msg_type, refused.correlation_id), (MsgType::ResponseError, 77));
    assert_eq!(refused.payload, b"Unknown message type".to_vec());
    assert!(matches!(handled(MsgType::GetPlan, None, &r), Handling::Encode(Query::Plan)));
    assert!(matches!(handled(MsgType::GetMetrics, None, &r), Handling::Encode(Query::Metrics)));
    assert!(matches!(handled(MsgType::GetDesired, None, &r), Handling::Encode(Query::Desired)));
    assert!(matches!(handled(MsgType::GetActual, None, &r), Handling::Encode(Query::Actual)));
    assert!(matches!(handled(MsgType::Reload, None, &r), Handling::Reload));
    let told = answer(handled(MsgType::GetExplain, None, &r));
    assert_eq!(told.payload, r.explain().into_bytes());
    assert_eq!(encoded(&message(MsgType::GetPlan, vec![]), vec![1, 2]).payload, vec![1, 2]);
}

#[test]
fn the_fingerprint_is_read_as_it_was_sent() {
    let mut r = Reconciler::new(DesiredState::default(), ReconcilerConfig::default());
    let none = answer(handled(MsgType::GetConfigFingerprint, None, &r));
    assert_eq!(none.payload, vec![0]);
    assert_eq!(fingerprint_of_payload(&none.payload), Some(None));
    r.fingerprint = Some(0xDEAD_BEEF_0000_0001);
    let some = answer(handled(MsgType::GetConfigFingerprint, None, &r));
    assert_eq!(fingerprint_of_payload(&some.payload), Some(Some(0xDEAD_BEEF_0000_0001)));
    assert_eq!(fingerprint_of_payload(&vec![]), None);
}

#[test]
fn drivers_are_driven_by_messages() {
    let r = Reconciler::new(DesiredState::default(), ReconcilerConfig::default());
    let bad = answer(handled(MsgType::StartDriver, None, &r));
    assert_eq!(bad.payload, b"Invalid driver id".to_vec());
    let intent = match handled(MsgType::RestartDriver, Some((DriverId::B4, 5)), &r) {
        Handling::Drive(i) => i,
        other => panic!("unexpected: {:?}", other),
    };
    assert_eq!((intent.action, intent.fingerprint), (DriverAction::Restart, 5));
    let start = match handled(MsgType::StartDriver, Some((DriverId::B4, 5)), &r) {
        Handling::Drive(i) => i,
        other => panic!("unexpected: {:?}", other),
    };
    let mut m = DriverLifecycleManager::new();
    let mut tracker = TierTracker::default();
    let failed = drive(&message(MsgType::StartDriver, vec![]), start, false, &mut m, &mut tracker);
    assert_eq!(failed.answer.payload, b"Driver failed to start".to_vec());
    assert_eq!(failed.tiers, vec![(DriverId::B4, HealthTier::Failing)]);
    let well = drive(&message(MsgType::StartDriver, vec![]), start, true, &mut m, &mut tracker);
    assert_eq!(well.answer.msg_type, MsgType::ResponseOk);
    assert_eq!(m.state(DriverId::B4), DriverLifecycleState::Active);
    let stop = match handled(MsgType::StopDriver, Some((DriverId::B4, 5)), &r) {
        Handling::Drive(i) => i,
        other => panic!("unexpected: {:?}", other),
    };
    let gone = drive(&message(MsgType::StopDriver, vec![]), stop, false, &mut m, &mut tracker);
    assert_eq!(gone.answer.msg_type, MsgType::ResponseOk);
    assert_eq!(gone.stop, vec![DriverId::B4]);
}

#[test]
fn a_reload_is_answered_with_its_outcome() {
    let msg = message(MsgType::Reload, vec![]);
    assert_eq!(reloaded(&msg, &None).payload, b"invalid reload payload".to_vec());
    assert_eq!(reloaded(&msg, &Some(Ok(()))).msg_type, MsgType::ResponseOk);
    assert_eq!(reloaded(&msg, &Some(Err("rolled back".to_string()))).payload, b"rolled back".to_vec());
}

#[test]
fn only_a_socket_of_ones_own_is_removed() {
    let path = "/run/balansir/daemon.sock";
    assert!(matches!(remove_stale_socket(path, Stale::Nothing, 0), Ok(false)));
    assert!(matches!(remove_stale_socket(path, Stale::Socket { uid: 5 }, 5), Ok(true)));
    match remove_stale_socket(path, Stale::Socket { uid: 6 }, 5) {
        Err(SocketError::IpcViolation(m)) => {
            assert_eq!(m, "stale socket at /run/balansir/daemon.sock owned by different UID")
        }
        other => panic!("unexpected: {:?}", other),
    }
    match remove_stale_socket(path, Stale::Other, 5) {
        Err(SocketError::Misconfiguration(m)) => {
            assert_eq!(m, "refusing to remove non-socket at /run/balansir/daemon.sock")
        }
        other => panic!("unexpected: {:?}", other),
    }
    assert!(matches!(remove_stale_socket(path, Stale::Unreadable("EACCES".to_string()), 5), Err(SocketError::Io(_))));
}

fn shaped(classes: Vec<String>, overhead_bytes: Option<i32>) -> DesiredState {
    DesiredState {
        qos: vec![QosConfig {
            interface: "eth0".to_string(),
            direction: QosDirection::Egress,
            kind: QdiscKind::Cake,
            bandwidth_bps: Some(20_000_000),
            latency_target_ms: None,
            overhead_bytes,
            ecn: true,
            wash: false,
            memory_limit_bytes: None,
            classes,
            comment: String::new(),
        }],
        ..state(vec![])
    }
}

#[test]
fn shaping_is_carried_through() {
    let wanted = shaped(vec!["voice".to_string()], Some(-4));
    let compiled = FlowCompiler::new(DnsRegistry::new()).compile(&wanted, 0);
    assert_eq!(compiled.qos.len(), 1);
    assert_eq!(compiled.qos[0].classes, vec!["voice".to_string()]);

    let mut reconciler = Reconciler::new(state(vec![]), ReconcilerConfig::default());
    reconciler.with_flow_compiler(FlowCompiler::new(DnsRegistry::new()));
    reconciler.set_desired(wanted, 0, config_fingerprint);
    assert!(!reconciler.dns_resync(1, config_fingerprint));
    reconciler.desired.qos.clear();
    assert!(reconciler.dns_resync(2, config_fingerprint));
    assert_eq!(reconciler.desired.qos[0].interface, "eth0");
    assert_eq!(reconciler.config_fingerprint(), Some(config_fingerprint(&reconciler.desired)));

    // A reload whose cycle ends well is accepted whole; one whose cycle does not leaves everything.
    reconciler.reload(state(vec![rule(3, Action::Block, 1)]), 3, config_fingerprint, Ok(())).unwrap();
    assert!(reconciler.desired.qos.is_empty());
    let accepted = reconciler.config_fingerprint();
    assert_eq!(accepted, Some(config_fingerprint(&reconciler.desired)));
    let refused = shaped(vec![], None);
    assert!(reconciler.reload(refused, 4, config_fingerprint, Err("refused".to_string())).is_err());
    assert!(reconciler.desired.qos.is_empty());
    assert_eq!(reconciler.config_fingerprint(), accepted);
}

#[test]
fn a_start_that_fails_again_is_answered_with_the_error_again() {
    let factory = ConfiguredFactory::empty();
    let mut m = DriverLifecycleManager::new();
    let mut tracker = TierTracker::default();
    for _ in 0..2 {
        let intent = DriverIntent::start(DriverId::B4, 4);
        let started = factory.build(DriverId::B4).is_ok();
        let driven = drive(&message(MsgType::StartDriver, vec![]), intent, started, &mut m, &mut tracker);
        assert_eq!(driven.answer.msg_type, MsgType::ResponseError);
        assert_eq!(driven.answer.payload, b"Driver failed to start".to_vec());
        assert_eq!(m.state(DriverId::B4), DriverLifecycleState::Failed);
    }
}

#[test]
fn what_is_refused_changes_nothing() {
    let mut live = ActualState { active_rules: vec![actual(1, Action::Block, None)] };
    let plan = ReconciliationPlan::new(vec![
        ReconciliationOperation::UpdatePolicy(rule(2, Action::Allow, 1)),
        ReconciliationOperation::RemovePolicy(1),
    ]);
    let request = PolicyCompiler::compile(&rule(2, Action::Allow, 1));
    let answers = vec![PendingMechanismAdapter.execute(&request), PendingMechanismAdapter.remove_rule(1)];
    let report = execute(&mut live, &plan, &answers);
    assert_eq!((report.succeeded, report.failed), (0, 2));
    assert_eq!(live.active_rules.len(), 1);
    assert_eq!(live.active_rules[0].id, 1);
    assert_eq!((request.trace.policy_id, request.trace.action), (2, Action::Allow));
    assert_eq!((request.trace.execution_time_us, request.trace.correlation_id), (0, 0));
}
