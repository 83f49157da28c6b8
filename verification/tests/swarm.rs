use ank_kernel::scheduler::{ProcessState, PCB};
use ank_kernel::server::WireState;
use ank_kernel::swarm::{MockPersistor, StatePersistor, SwarmClient, SwarmError};

#[test]
fn endpoint_of_a_node() {
    let c = SwarmClient;
    assert_eq!(c.endpoint("10.0.0.7", 50051), "http://10.0.0.7:50051");
}

#[test]
fn record_of_a_process_for_teleportation() {
    let mut p = PCB::new("Mover".to_string(), 6, "Go".to_string());
    p.parent_pid = Some("proc_parent".to_string());
    p.state = ProcessState::Running;
    p.cycles_executed = 12;
    p.current_node = "node-3".to_string();
    p.memory_pointers.l2_context_refs.push("file://a".to_string());
    p.registers.temp_vars.push(("k".to_string(), "v".to_string()));
    p.tenant_id = Some("t1".to_string());
    p.session_key = Some("s1".to_string());

    let r = SwarmClient.record_of(&p);
    assert_eq!(r.pid, p.pid);
    assert_eq!(r.parent_pid, "proc_parent");
    assert_eq!(r.state, WireState::Running);
    assert_eq!(r.quantum_used, 12);
    assert_eq!(r.instruction_pointer, "node-3");
    assert_eq!(r.context_refs, vec!["file://a".to_string()]);
    assert_eq!(r.registers, vec![("k".to_string(), "v".to_string())]);
    assert_eq!(r.priority, 6);
    assert_eq!(r.process_name, "Mover");
    assert_eq!(r.tenant_id, "t1");
    assert_eq!(r.session_key, "");
    assert_eq!(r.created_at, p.created_at);
    assert!(r.last_updated.seconds >= p.created_at.seconds);

    let bare = SwarmClient.record_of(&PCB::new("B".to_string(), 1, "x".to_string()));
    assert_eq!(bare.parent_pid, "");
    assert_eq!(bare.tenant_id, "");
    assert_eq!(bare.state, WireState::Pending);
}

#[test]
fn processes_carry_the_time_they_were_made() {
    let p = PCB::new("Clock".to_string(), 1, "x".to_string());
    // 2020-09-13 in Unix seconds: any clock this runs on is later.
    assert!(p.created_at.seconds > 1_600_000_000);
    assert!(p.created_at.nanos < 2_000_000_000);
    let r = SwarmClient.record_of(&p);
    assert_eq!(r.created_at, p.created_at);
}

#[test]
fn swarm_error_messages() {
    assert_eq!(
        SwarmError::ConnectionRefused("10.0.0.7".to_string(), 50051).message(),
        "Connection refused for node 10.0.0.7:50051"
    );
    assert_eq!(SwarmError::Timeout.message(), "Teleportation timeout");
    assert_eq!(SwarmError::RpcError("x".to_string()).message(), "RPC error: x");
    assert_eq!(SwarmError::TransportError("y".to_string()).message(), "Transport error: y");
    assert_eq!(
        SwarmError::ConversionError("z".to_string()).message(),
        "Internal conversion error: z"
    );
}

#[test]
fn mock_persistor_keeps_nothing() {
    let m = MockPersistor;
    let p = PCB::new("P".to_string(), 1, "x".to_string());
    assert!(m.save_pcb(&p).is_ok());
    assert!(m.delete_pcb(&p.pid).is_ok());
    assert!(m.load_all_pcbs().unwrap().is_empty());
    assert!(m.flush().is_ok());
}
