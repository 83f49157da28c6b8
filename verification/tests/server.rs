use ank_kernel::citadel::generate_public_tenant_id;
use ank_kernel::scheduler::{ProcessState, Scheduler, SchedulerEvent, PCB};
use ank_kernel::server::{
    admin_setup_outcome, authenticate_request, authorize_password_reset,
    authorize_tenant_creation, core_priority, credential_verdict, engine_config_failure,
    master_already_initialized, new_temporary_passphrase, next_tenant_port,
    passphrase_from_uuid, prepare_submitted_task, prepare_teleported_task, require_auth,
    status_gate, summarize, system_state, task_accepted, tenant_created,
    tenant_creation_failed, tenant_not_found, visible_processes, wire_state, CitadelAuth,
    HeaderValue, RpcCode, SystemState, TaskPriority, WireState, tenant_creation_step,
    TenantCreationAction, TenantCreationStage,
};

fn caller(tenant: &str) -> CitadelAuth {
    CitadelAuth {
        tenant_id: tenant.to_string(),
        session_key: "session".to_string(),
        public_id: format!("pub-{}", tenant),
    }
}

#[test]
fn identity_comes_from_both_headers_and_the_root_key() {
    let r = authenticate_request(
        HeaderValue::Text("tenant-42".to_string()),
        HeaderValue::Text("k".to_string()),
        Some("Aegis_Master_Secret".to_string()),
    )
    .unwrap()
    .unwrap();
    let (identity, auth) = r;
    assert_eq!(identity.private_id, "tenant-42");
    assert_eq!(
        identity.public_id,
        generate_public_tenant_id("tenant-42", b"Aegis_Master_Secret").unwrap()
    );
    assert_eq!(auth.tenant_id, "tenant-42");
    assert_eq!(auth.session_key, "k");
    assert_eq!(auth.public_id, identity.public_id);
}

#[test]
fn requests_without_identity_pass_and_malformed_ones_do_not() {
    assert!(authenticate_request(HeaderValue::Absent, HeaderValue::Text("k".to_string()), None)
        .unwrap()
        .is_none());
    assert!(authenticate_request(HeaderValue::Text("t".to_string()), HeaderValue::Absent, None)
        .unwrap()
        .is_none());
    let e = authenticate_request(HeaderValue::Invalid, HeaderValue::Absent, None).err().unwrap();
    assert_eq!(e.code, RpcCode::Unauthenticated);
    assert_eq!(e.message, "Invalid tenant_id format");
    let e = authenticate_request(HeaderValue::Text("t".to_string()), HeaderValue::Invalid, None)
        .err()
        .unwrap();
    assert_eq!(e.message, "Invalid session_key format");
    let e = authenticate_request(
        HeaderValue::Text("t".to_string()),
        HeaderValue::Text("k".to_string()),
        None,
    )
    .err()
    .unwrap();
    assert_eq!(e.message, "Aegis Security: Missing encryption context (ROOT_KEY)");
}

#[test]
fn credentials_and_callers() {
    assert!(credential_verdict(Some(true), None).is_ok());
    assert!(credential_verdict(Some(false), Some(true)).is_ok());
    let e = credential_verdict(Some(false), None).unwrap_err();
    assert_eq!(e.code, RpcCode::Unauthenticated);
    assert_eq!(e.message, "Citadel AUTH_FAILURE: Access Denied.");
    let e = require_auth(None).err().unwrap();
    assert_eq!(e.message, "Citadel Protocol context missing");
    let a = caller("t");
    assert_eq!(require_auth(Some(&a)).ok().unwrap().tenant_id, "t");
}

#[test]
fn submitted_task_is_scheduled_for_its_caller() {
    let auth = caller("t1");
    let pcb = prepare_submitted_task(Some(&auth), "Test prompt".to_string(), TaskPriority::Normal)
        .unwrap();
    assert_eq!(pcb.priority, 5);
    assert_eq!(pcb.process_name, "Remote Task");
    assert_eq!(pcb.tenant_id.as_deref(), Some("t1"));
    assert_eq!(pcb.public_id.as_deref(), Some("pub-t1"));
    assert!(pcb.pid.starts_with("proc_"));

    let answer = task_accepted(pcb.pid.clone());
    assert!(answer.accepted);
    assert_eq!(answer.message, "Task successfully submitted to Cognitive Scheduler");

    let pid = pcb.pid.clone();
    let mut s = Scheduler::new();
    s.handle_event(SchedulerEvent::RegisterProcess(pcb));
    assert_eq!(s.dispatch(), Some(pid.clone()));
    assert_eq!(answer.pid, pid);
}

#[test]
fn test_submit_task_logic() {
    let pcb = prepare_submitted_task(None, "Test prompt".to_string(), TaskPriority::Normal)
        .expect("Failed to submit task");
    let inner = task_accepted(pcb.pid.clone());
    assert!(inner.accepted);
    assert!(inner.pid.starts_with("proc_"));

    // The scheduler receives the task.
    let mut s = Scheduler::new();
    s.handle_event(SchedulerEvent::RegisterProcess(pcb));
    let pid = s.dispatch().expect("No event received");
    assert_eq!(pid, inner.pid);
    let listed = s.list_processes("t");
    assert!(listed.is_empty());
}

#[test]
fn submitted_task_without_a_caller_has_no_tenant() {
    let pcb = prepare_submitted_task(None, "x".to_string(), TaskPriority::Low).unwrap();
    assert_eq!(pcb.priority, 1);
    assert_eq!(pcb.process_name, "Remote Task");
    assert!(pcb.tenant_id.is_none());
    assert!(pcb.public_id.is_none());
    assert!(pcb.session_key.is_none());
}

#[test]
fn submitted_task_needs_a_prompt() {
    let auth = caller("t");
    let e = prepare_submitted_task(Some(&auth), String::new(), TaskPriority::Low).err().unwrap();
    assert_eq!(e.code, RpcCode::InvalidArgument);
    assert_eq!(e.message, "Prompt cannot be empty");
    assert_eq!(core_priority(TaskPriority::Idle), 0);
    assert_eq!(core_priority(TaskPriority::Low), 1);
    assert_eq!(core_priority(TaskPriority::Critical), 10);
}

#[test]
fn teleported_task_keeps_its_pid_and_takes_the_callers_identity() {
    let auth = caller("t2");
    let p = prepare_teleported_task(
        &auth,
        "proc_remote".to_string(),
        "Remote".to_string(),
        7,
        Some("Go on".to_string()),
        String::new(),
        "ctx".to_string(),
    );
    assert_eq!(p.pid, "proc_remote");
    assert_eq!(p.priority, 7);
    assert_eq!(p.memory_pointers.l1_instruction, "Go on");
    assert!(p.parent_pid.is_none());
    assert_eq!(p.inlined_context, "ctx");
    assert_eq!(p.session_key.as_deref(), Some("session"));
    let q = prepare_teleported_task(&auth, "p".to_string(), "n".to_string(), 1, None, "parent".to_string(), String::new());
    assert_eq!(q.parent_pid.as_deref(), Some("parent"));
    assert_eq!(q.memory_pointers.l1_instruction, "");
}

#[test]
fn status_answers_by_initialization() {
    assert_eq!(status_gate(false, false), Ok(false));
    assert_eq!(status_gate(true, true), Ok(true));
    let e = status_gate(true, false).unwrap_err();
    assert_eq!(e.message, "Citadel Protocol context missing (System is Operational)");
    assert_eq!(system_state(true), SystemState::Operational);
    assert_eq!(system_state(false), SystemState::Initializing);
}

#[test]
fn listings_show_only_the_callers_processes() {
    let mut a = PCB::new("A".to_string(), 1, "a".to_string());
    a.tenant_id = Some("t1".to_string());
    a.public_id = Some("pub-t1".to_string());
    let mut b = PCB::new("B".to_string(), 2, "b".to_string());
    b.tenant_id = Some("t2".to_string());
    let c = PCB::new("C".to_string(), 3, "c".to_string());
    let mut d = PCB::new("D".to_string(), 4, "d".to_string());
    d.tenant_id = Some("t1".to_string());
    d.state = ProcessState::WaitingSyscall;
    let ps = vec![a, b, c, d];

    let v = visible_processes(&ps, "t1");
    assert_eq!(v.len(), 2);
    assert_eq!(v[0].process_name, "A");
    assert_eq!(v[0].tenant_id, "pub-t1");
    assert_eq!(v[0].state, WireState::Pending);
    assert_eq!(v[1].process_name, "D");
    assert_eq!(v[1].tenant_id, "");
    assert_eq!(v[1].state, WireState::Blocked);
    assert!(visible_processes(&ps, "nobody").is_empty());

    let s = summarize(&ps[2]);
    assert_eq!(s.parent_pid, "");
    assert_eq!(s.priority, 3);
    assert_eq!(s.created_at, ps[2].created_at);
    assert_eq!(wire_state(ProcessState::Failed), WireState::Terminated);
    assert_eq!(wire_state(ProcessState::Running), WireState::Running);
}

#[test]
fn administration_rules() {
    assert!(authorize_tenant_creation(Ok(true)).is_ok());
    let e = authorize_tenant_creation(Ok(false)).unwrap_err();
    assert_eq!(e.code, RpcCode::PermissionDenied);
    assert_eq!(e.message, "Only Master Admin can create tenants");
    let e = authorize_tenant_creation(Err("db locked".to_string())).unwrap_err();
    assert_eq!(e.code, RpcCode::Internal);
    assert_eq!(e.message, "db locked");

    assert!(authorize_password_reset(true, "root", "t1").is_ok());
    assert!(authorize_password_reset(false, "t1", "t1").is_ok());
    let e = authorize_password_reset(false, "t1", "t2").unwrap_err();
    assert_eq!(e.message, "No permission to reset this tenant password");

    assert_eq!(admin_setup_outcome(Ok(())), Ok("Master Admin successfully initialized".to_string()));
    let e = admin_setup_outcome(Err(master_already_initialized())).unwrap_err();
    assert_eq!(e.code, RpcCode::AlreadyExists);
    assert_eq!(e.message, "Master Admin is already initialized. Cannot overwrite.");
    assert_eq!(tenant_not_found("t9"), "Tenant t9 not found.");
    assert_eq!(tenant_creation_failed("x").message, "Failed to create tenant: x");
}

#[test]
fn a_tenant_is_created_only_for_the_master_admin() {
    let admin = caller("root");
    match tenant_creation_step(None, "alice", TenantCreationStage::Received) {
        TenantCreationAction::Reply(Err(s)) => {
            assert_eq!(s.code, RpcCode::Unauthenticated);
            assert_eq!(s.message, "Citadel Protocol context missing");
        }
        _ => panic!("no caller, no creation"),
    }
    match tenant_creation_step(Some(&admin), "alice", TenantCreationStage::Received) {
        TenantCreationAction::CheckMaster { tenant_id, session_key } => {
            assert_eq!(tenant_id, admin.tenant_id);
            assert_eq!(session_key, admin.session_key);
        }
        _ => panic!("the caller is checked first"),
    }
    match tenant_creation_step(Some(&admin), "alice", TenantCreationStage::MasterChecked(Ok(false))) {
        TenantCreationAction::Reply(Err(s)) => assert_eq!(s.code, RpcCode::PermissionDenied),
        _ => panic!("only the master admin creates tenants"),
    }
    match tenant_creation_step(Some(&admin), "alice", TenantCreationStage::MasterChecked(Err("io".to_string()))) {
        TenantCreationAction::Reply(Err(s)) => {
            assert_eq!(s.code, RpcCode::Internal);
            assert_eq!(s.message, "io");
        }
        _ => panic!("a failed lookup creates nothing"),
    }
    match tenant_creation_step(Some(&admin), "alice", TenantCreationStage::MasterChecked(Ok(true))) {
        TenantCreationAction::Create { username } => assert_eq!(username, "alice"),
        _ => panic!("the master admin's request goes on"),
    }
    match tenant_creation_step(
        Some(&admin),
        "alice",
        TenantCreationStage::Created(Ok((50052, "pass".to_string()))),
    ) {
        TenantCreationAction::Reply(Ok(r)) => {
            assert!(r.success);
            assert_eq!(r.tenant_id, "alice");
            assert_eq!(r.temporary_passphrase, "pass");
            assert_eq!(r.network_port, 50052);
        }
        _ => panic!("the creation is answered"),
    }
    match tenant_creation_step(Some(&admin), "alice", TenantCreationStage::Created(Err("full".to_string()))) {
        TenantCreationAction::Reply(Err(s)) => assert_eq!(s.message, "Failed to create tenant: full"),
        _ => panic!("a failed creation is reported"),
    }
}

#[test]
fn tenant_ports_and_passphrases() {
    assert_eq!(next_tenant_port(None), 50052);
    assert_eq!(next_tenant_port(Some(50060)), 50061);
    assert_eq!(next_tenant_port(Some(80)), 50052);
    assert_eq!(passphrase_from_uuid("123e4567-e89b-12d3-a456-426614174000"), "123e4567e89b");
    let p = new_temporary_passphrase();
    assert_eq!(p.len(), 12);
    assert!(p.chars().all(|c| c.is_ascii_hexdigit()));
    let t = tenant_created("t1".to_string(), 50052, p.clone());
    assert!(t.success);
    assert_eq!(t.message, "Tenant created");
    assert_eq!(t.temporary_passphrase, p);
}

#[test]
fn engine_configuration_failures_hide_the_tenant() {
    let auth = caller("tenant-leak-007");
    let s = engine_config_failure(true, "cannot open /data/tenant-leak-007/db", &auth);
    assert_eq!(s.code, RpcCode::Internal);
    assert_eq!(s.message, "Failed to open tenant DB: cannot open /data/pub-tenant-leak-007/db");
    let s = engine_config_failure(false, "tenant-leak-007 locked", &auth);
    assert_eq!(s.message, "pub-tenant-leak-007 locked");
}

#[test]
fn callers_are_logged_without_their_private_id() {
    let auth = caller("tenant-42");
    assert_eq!(
        auth.redacted(),
        "CitadelAuth { tenant_id: \"***REDACTED***\", public_id: \"pub-tenant-42\", session_key: \"***REDACTED***\" }"
    );
    let mut odd = caller("t");
    odd.public_id = "a\"b\\c\n".to_string();
    assert_eq!(
        odd.redacted(),
        format!("CitadelAuth {{ tenant_id: \"***REDACTED***\", public_id: {:?}, session_key: \"***REDACTED***\" }}", odd.public_id)
    );
    assert!(odd.redacted().contains(r#"public_id: "a\"b\\c\n""#));
}
