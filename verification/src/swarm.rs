//! The swarm: moving a process to another node, and keeping processes
//! across restarts.
use vstd::prelude::*;
use crate::scheduler::{utc_now, Timestamp, PCB};
use crate::server::{or_empty, wire_state_of, WireState};
use crate::text::{concat2, concat3, decimal, decimal_string, owned};

verus! {

/// Failures of a teleportation.
#[derive(Debug, Clone, PartialEq)]
pub enum SwarmError {
    ConnectionRefused(String, u16),
    TransportError(String),
    RpcError(String),
    Timeout,
    ConversionError(String),
}

impl SwarmError {
    pub fn message(&self) -> (m: String)
        ensures
            m@ == match *self {
                SwarmError::ConnectionRefused(h, p) => "Connection refused for node "@ + h@ + ":"@ + decimal(
                    p as nat,
                ),
                SwarmError::TransportError(e) => "Transport error: "@ + e@,
                SwarmError::RpcError(e) => "RPC error: "@ + e@,
                SwarmError::Timeout => "Teleportation timeout"@,
                SwarmError::ConversionError(e) => "Internal conversion error: "@ + e@,
            },
    {
        match self {
            SwarmError::ConnectionRefused(h, p) => {
                let mut m = concat3("Connection refused for node ", h.as_str(), ":");
                let d = decimal_string(*p as u64);
                m.append(d.as_str());
                m
            },
            SwarmError::TransportError(e) => concat2("Transport error: ", e.as_str()),
            SwarmError::RpcError(e) => concat2("RPC error: ", e.as_str()),
            SwarmError::Timeout => owned("Teleportation timeout"),
            SwarmError::ConversionError(e) => concat2("Internal conversion error: ", e.as_str()),
        }
    }
}

/// Seconds allowed to connect to a node.
pub const CONNECT_TIMEOUT_SECS: u64 = 2;

/// Seconds allowed for a whole teleportation call.
pub const CALL_TIMEOUT_SECS: u64 = 30;

/// Client side of process teleportation.
pub struct SwarmClient;

/// What travels to another node of a process.
pub struct PcbRecord {
    pub pid: String,
    pub parent_pid: String,
    pub state: WireState,
    pub quantum_used: u64,
    pub instruction_pointer: String,
    pub context_refs: Vec<String>,
    pub registers: Vec<(String, String)>,
    pub inlined_context: String,
    pub priority: u32,
    pub process_name: String,
    pub tenant_id: String,
    pub session_key: String,
    pub created_at: Timestamp,
    /// When the record was taken.
    pub last_updated: Timestamp,
}

/// The record of a process for teleportation: its program counter and the
/// tenant's id. The tenant's session key never leaves this node: the record
/// carries an empty one.
pub open spec fn records(r: PcbRecord, p: PCB) -> bool {
    &&& r.pid == p.pid
    &&& r.parent_pid@ == or_empty(p.parent_pid)
    &&& r.state == wire_state_of(p.state)
    &&& r.quantum_used == p.cycles_executed
    &&& r.instruction_pointer == p.current_node
    &&& r.context_refs@ == p.memory_pointers.l2_context_refs@
    &&& r.registers@ == p.registers.temp_vars@
    &&& r.inlined_context == p.inlined_context
    &&& r.priority == p.priority
    &&& r.process_name == p.process_name
    &&& r.tenant_id@ == or_empty(p.tenant_id)
    &&& r.session_key@ == Seq::<char>::empty()
    &&& r.created_at == p.created_at
}

fn copy_or_empty(s: &Option<String>) -> (r: String)
    ensures
        r@ == or_empty(*s),
{
    match s {
        Some(t) => t.clone(),
        None => String::new(),
    }
}

impl SwarmClient {
    /// The address of a node's kernel service.
    pub fn endpoint(&self, target_ip: &str, target_port: u16) -> (r: String)
        ensures
            r@ == "http://"@ + target_ip@ + ":"@ + decimal(target_port as nat),
    {
        let mut r = concat3("http://", target_ip, ":");
        let d = decimal_string(target_port as u64);
        r.append(d.as_str());
        r
    }

    /// The record of a process for teleportation.
    pub fn record_of(&self, p: &PCB) -> (r: PcbRecord)
        ensures
            records(r, *p),
    {
        let s = crate::server::summarize(p);
        PcbRecord {
            pid: s.pid,
            parent_pid: s.parent_pid,
            state: s.state,
            quantum_used: p.cycles_executed,
            instruction_pointer: p.current_node.clone(),
            context_refs: s.context_refs,
            registers: s.registers,
            inlined_context: s.inlined_context,
            priority: s.priority,
            process_name: s.process_name,
            tenant_id: copy_or_empty(&p.tenant_id),
            session_key: String::new(),
            created_at: p.created_at,
            last_updated: utc_now(),
        }
    }
}

// ---------------------------------------------------------------------------
// Persistence
// ---------------------------------------------------------------------------

/// Keeps processes across restarts of the kernel.
pub trait StatePersistor {
    fn save_pcb(&self, pcb: &PCB) -> Result<(), String>;

    fn delete_pcb(&self, pid: &str) -> Result<(), String>;

    fn load_all_pcbs(&self) -> Result<Vec<PCB>, String>;

    fn flush(&self) -> Result<(), String>;
}

/// A persistor that keeps nothing, for tests.
pub struct MockPersistor;

impl StatePersistor for MockPersistor {
    fn save_pcb(&self, _pcb: &PCB) -> (r: Result<(), String>)
        ensures
            r is Ok,
    {
        Ok(())
    }

    fn delete_pcb(&self, _pid: &str) -> (r: Result<(), String>)
        ensures
            r is Ok,
    {
        Ok(())
    }

    fn load_all_pcbs(&self) -> (r: Result<Vec<PCB>, String>)
        ensures
            r matches Ok(v) && v@.len() == 0,
    {
        Ok(Vec::new())
    }

    fn flush(&self) -> (r: Result<(), String>)
        ensures
            r is Ok,
    {
        Ok(())
    }
}

} // verus!
