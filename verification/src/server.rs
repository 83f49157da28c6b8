//! The kernel's RPC front: who a request comes from, what each call is
//! allowed to do, and the answers and processes it builds. The transport and
//! the databases are outside; the decisions are here.
use vstd::prelude::*;
use crate::citadel::{generate_public_tenant_id, public_tenant_id, replaced, sanitize_error, SafeIdentity};
use crate::ids::{is_hyphenated_uuid, is_lower_hex, new_uuid_v4};
use crate::scheduler::{ModelPreference, ProcessState, Timestamp, PCB};
use sha2::Digest;
use crate::text::{concat2, concat3, owned, str_eq};

verus! {

/// The identity of a caller, as the interceptor establishes it.
#[derive(Clone)]
pub struct CitadelAuth {
    pub tenant_id: String,
    pub session_key: String,
    pub public_id: String,
}

/// How `Debug` writes a string: between double quotes, with quotes,
/// backslashes and characters that do not print escaped as
/// `char::escape_debug` escapes them.
pub uninterp spec fn debug_text(s: Seq<char>) -> Seq<char>;

/// `format!("{:?}", s)` on a `&str`, that is `<str as Debug>::fmt`; its text
/// is named, not spelled out.
#[verifier::external_body]
fn debug_quoted(s: &str) -> (r: String)
    ensures
        r@ == debug_text(s@),
{
    format!("{:?}", s)
}

impl CitadelAuth {
    /// The caller as logs show it: the private tenant id and the session key
    /// are redacted, only the public alias is written, as `Debug` writes a
    /// string.
    pub fn redacted(&self) -> (r: String)
        ensures
            r@ == "CitadelAuth { tenant_id: \"***REDACTED***\", public_id: "@ + debug_text(self.public_id@)
                + ", session_key: \"***REDACTED***\" }"@,
    {
        let alias = debug_quoted(self.public_id.as_str());
        concat3(
            "CitadelAuth { tenant_id: \"***REDACTED***\", public_id: ",
            alias.as_str(),
            ", session_key: \"***REDACTED***\" }",
        )
    }
}

/// The kind of a refusal, in gRPC terms.
#[derive(Debug, Clone, Copy, PartialEq, Eq)]
pub enum RpcCode {
    Unauthenticated,
    Internal,
    InvalidArgument,
    PermissionDenied,
    AlreadyExists,
    ResourceExhausted,
}

/// A refused call.
#[derive(Debug, Clone, PartialEq)]
pub struct RpcStatus {
    pub code: RpcCode,
    pub message: String,
}

pub(crate) fn refuse(code: RpcCode, message: &str) -> (s: RpcStatus)
    ensures
        s.code == code,
        s.message@ == message@,
{
    RpcStatus { code, message: owned(message) }
}

/// A request header as it arrived: absent, not visible ASCII, or its text.
pub enum HeaderValue {
    Absent,
    Invalid,
    Text(String),
}

/// The context-missing refusal of calls that need a caller.
pub open spec fn context_missing() -> Seq<char> {
    "Citadel Protocol context missing"@
}

/// Establishes who a request comes from. A request without a tenant or a
/// session header passes without identity, so that the status call can
/// answer a shell that has no session; a malformed header is refused, and so
/// is a request with both headers when no root key is configured.
pub fn authenticate_request(
    tenant: HeaderValue,
    session: HeaderValue,
    root_key: Option<String>,
) -> (r: Result<Option<(SafeIdentity, CitadelAuth)>, RpcStatus>)
    ensures
        match (tenant, session) {
            (HeaderValue::Absent, _) => r matches Ok(None),
            (HeaderValue::Invalid, _) => r matches Err(s) && s.code == RpcCode::Unauthenticated
                && s.message@ == "Invalid tenant_id format"@,
            (HeaderValue::Text(_), HeaderValue::Absent) => r matches Ok(None),
            (HeaderValue::Text(_), HeaderValue::Invalid) => r matches Err(s) && s.code
                == RpcCode::Unauthenticated && s.message@ == "Invalid session_key format"@,
            (HeaderValue::Text(t), HeaderValue::Text(k)) => match root_key {
                None => r matches Err(s) && s.code == RpcCode::Unauthenticated && s.message@
                    == "Aegis Security: Missing encryption context (ROOT_KEY)"@,
                Some(key) => r matches Ok(Some((id, auth))) && id.private_id == t && auth.tenant_id == t
                    && auth.session_key == k && id.public_id@ == public_tenant_id(
                    t@,
                    vstd::utf8::encode_utf8(key@),
                ) && auth.public_id == id.public_id,
            },
        },
{
    let tenant_id = match tenant {
        HeaderValue::Absent => {
            return Ok(None);
        },
        HeaderValue::Invalid => {
            return Err(refuse(RpcCode::Unauthenticated, "Invalid tenant_id format"));
        },
        HeaderValue::Text(t) => t,
    };
    let session_key = match session {
        HeaderValue::Absent => {
            return Ok(None);
        },
        HeaderValue::Invalid => {
            return Err(refuse(RpcCode::Unauthenticated, "Invalid session_key format"));
        },
        HeaderValue::Text(k) => k,
    };
    let root_key = match root_key {
        Some(k) => k,
        None => {
            return Err(
                refuse(RpcCode::Unauthenticated, "Aegis Security: Missing encryption context (ROOT_KEY)"),
            );
        },
    };
    let public_id = match generate_public_tenant_id(tenant_id.as_str(), root_key.as_str().as_bytes()) {
        Ok(p) => p,
        Err(e) => {
            let m = e.message();
            return Err(RpcStatus { code: RpcCode::Internal, message: concat2("Aegis Identity Error: ", m.as_str()) });
        },
    };
    let identity = SafeIdentity { private_id: tenant_id.clone(), public_id: public_id.clone() };
    let auth = CitadelAuth { tenant_id, session_key, public_id };
    Ok(Some((identity, auth)))
}

/// The caller that a call needs, or the context-missing refusal.
pub fn require_auth(auth: Option<&CitadelAuth>) -> (r: Result<&CitadelAuth, RpcStatus>)
    ensures
        auth matches Some(a) ==> (r matches Ok(b) && b == a),
        auth is None ==> (r matches Err(s) && s.code == RpcCode::Unauthenticated && s.message@ == context_missing()),
{
    match auth {
        Some(a) => Ok(a),
        None => Err(refuse(RpcCode::Unauthenticated, "Citadel Protocol context missing")),
    }
}

/// A caller's credentials are accepted when the master enclave knows them as
/// the master admin's or as a tenant's. `None` stands for a lookup that
/// failed, which counts as not known.
pub fn credential_verdict(is_master: Option<bool>, is_tenant: Option<bool>) -> (r: Result<(), RpcStatus>)
    ensures
        (is_master == Some(true) || is_tenant == Some(true)) ==> r is Ok,
        !(is_master == Some(true) || is_tenant == Some(true)) ==> (r matches Err(s) && s.code
            == RpcCode::Unauthenticated && s.message@ == "Citadel AUTH_FAILURE: Access Denied."@),
{
    if let Some(true) = is_master {
        return Ok(());
    }
    if let Some(true) = is_tenant {
        return Ok(());
    }
    Err(refuse(RpcCode::Unauthenticated, "Citadel AUTH_FAILURE: Access Denied."))
}

// ---------------------------------------------------------------------------
// Tasks
// ---------------------------------------------------------------------------

/// Priority classes of the protocol.
#[derive(Debug, Clone, Copy, PartialEq, Eq)]
pub enum TaskPriority {
    Idle,
    Low,
    Normal,
    Critical,
}

pub open spec fn core_priority_of(p: TaskPriority) -> u32 {
    match p {
        TaskPriority::Idle => 0,
        TaskPriority::Low => 1,
        TaskPriority::Normal => 5,
        TaskPriority::Critical => 10,
    }
}

/// The scheduler priority of a protocol priority class.
pub fn core_priority(p: TaskPriority) -> (n: u32)
    ensures
        n == core_priority_of(p),
{
    match p {
        TaskPriority::Idle => 0,
        TaskPriority::Low => 1,
        TaskPriority::Normal => 5,
        TaskPriority::Critical => 10,
    }
}

/// A process that `submit_task` hands the scheduler. A task submitted
/// without a caller is accepted too, bound to no tenant.
pub fn prepare_submitted_task(
    auth: Option<&CitadelAuth>,
    prompt: String,
    priority: TaskPriority,
) -> (r: Result<PCB, RpcStatus>)
    ensures
        prompt@.len() == 0 ==> (r matches Err(s) && s.code == RpcCode::InvalidArgument
            && s.message@ == "Prompt cannot be empty"@),
        prompt@.len() > 0 ==> (r matches Ok(p) && p.process_name@ == "Remote Task"@
            && p.priority == core_priority_of(priority) && p.memory_pointers.l1_instruction == prompt
            && p.state == ProcessState::New && p.parent_pid is None && p.model_pref
            == ModelPreference::HybridSmart && p.memory_pointers.l2_context_refs@.len() == 0
            && p.memory_pointers.swap_refs@.len() == 0 && p.registers.temp_vars@.len() == 0
            && p.pid@.subrange(0, 5) == "proc_"@ && p.pid@.len() == 41),
        prompt@.len() > 0 && auth is Some ==> (r matches Ok(p) && p.tenant_id == Some(auth->0.tenant_id)
            && p.public_id == Some(auth->0.public_id) && p.session_key == Some(auth->0.session_key)),
        prompt@.len() > 0 && auth is None ==> (r matches Ok(p) && p.tenant_id is None
            && p.public_id is None && p.session_key is None),
{
    if prompt.as_str().is_empty() {
        return Err(refuse(RpcCode::InvalidArgument, "Prompt cannot be empty"));
    }
    let mut pcb = PCB::new(owned("Remote Task"), core_priority(priority), prompt);
    proof {
        reveal_strlit("proc_");
        assert(pcb.pid@.subrange(0, 5) =~= "proc_"@);
    }
    match auth {
        Some(a) => {
            pcb.tenant_id = Some(a.tenant_id.clone());
            pcb.public_id = Some(a.public_id.clone());
            pcb.session_key = Some(a.session_key.clone());
        },
        None => {},
    }
    Ok(pcb)
}

/// The answer to an accepted task.
pub struct TaskAcceptance {
    pub pid: String,
    pub accepted: bool,
    pub message: String,
}

pub fn task_accepted(pid: String) -> (r: TaskAcceptance)
    ensures
        r.pid == pid,
        r.accepted,
        r.message@ == "Task successfully submitted to Cognitive Scheduler"@,
{
    TaskAcceptance {
        pid,
        accepted: true,
        message: owned("Task successfully submitted to Cognitive Scheduler"),
    }
}

/// A process that arrives from another node of the swarm, bound to the
/// caller's identity.
pub fn prepare_teleported_task(
    auth: &CitadelAuth,
    pid: String,
    process_name: String,
    priority: u32,
    instruction: Option<String>,
    parent_pid: String,
    inlined_context: String,
) -> (r: PCB)
    ensures
        r.pid == pid,
        r.process_name == process_name,
        r.priority == priority,
        r.state == ProcessState::New,
        r.memory_pointers.l1_instruction@ == (match instruction {
            Some(i) => i@,
            None => Seq::<char>::empty(),
        }),
        r.tenant_id == Some(auth.tenant_id),
        r.public_id == Some(auth.public_id),
        r.session_key == Some(auth.session_key),
        parent_pid@.len() == 0 ==> r.parent_pid is None,
        parent_pid@.len() > 0 ==> r.parent_pid == Some(parent_pid),
        r.inlined_context == inlined_context,
        r.model_pref == ModelPreference::HybridSmart,
        r.memory_pointers.l2_context_refs@.len() == 0,
        r.memory_pointers.swap_refs@.len() == 0,
        r.registers.temp_vars@.len() == 0,
        r.current_node@.len() == 0,
        r.cycles_executed == 0,
        0 <= r.created_at.seconds,
        r.created_at.nanos < 1_000_000_000,
{
    let l1 = match instruction {
        Some(i) => i,
        None => String::new(),
    };
    let mut pcb = PCB::new(process_name, priority, l1);
    pcb.pid = pid;
    pcb.tenant_id = Some(auth.tenant_id.clone());
    pcb.public_id = Some(auth.public_id.clone());
    pcb.session_key = Some(auth.session_key.clone());
    pcb.parent_pid = if parent_pid.as_str().is_empty() {
        None
    } else {
        Some(parent_pid)
    };
    pcb.inlined_context = inlined_context;
    pcb
}

// ---------------------------------------------------------------------------
// System status
// ---------------------------------------------------------------------------

/// Life cycle of the kernel as the status call reports it.
#[derive(Debug, Clone, Copy, PartialEq, Eq)]
pub enum SystemState {
    Initializing,
    Operational,
}

/// Whether the status call may answer. Before the master admin exists it
/// answers anyone (`Initializing`); afterwards it needs a caller, whose
/// credentials must then be checked (`Ok(true)`).
pub fn status_gate(is_initialized: bool, has_auth: bool) -> (r: Result<bool, RpcStatus>)
    ensures
        !is_initialized ==> (r matches Ok(false)),
        is_initialized && has_auth ==> (r matches Ok(true)),
        is_initialized && !has_auth ==> (r matches Err(s) && s.code == RpcCode::Unauthenticated && s.message@
            == "Citadel Protocol context missing (System is Operational)"@),
{
    if is_initialized && !has_auth {
        return Err(refuse(RpcCode::Unauthenticated, "Citadel Protocol context missing (System is Operational)"));
    }
    Ok(is_initialized)
}

pub fn system_state(is_initialized: bool) -> (s: SystemState)
    ensures
        is_initialized <==> s == SystemState::Operational,
{
    if is_initialized {
        SystemState::Operational
    } else {
        SystemState::Initializing
    }
}

// ---------------------------------------------------------------------------
// Process listing
// ---------------------------------------------------------------------------

/// Process states on the wire.
#[derive(Debug, Clone, Copy, PartialEq, Eq)]
pub enum WireState {
    Pending,
    Running,
    Blocked,
    Completed,
    Terminated,
}

pub open spec fn wire_state_of(s: ProcessState) -> WireState {
    match s {
        ProcessState::New => WireState::Pending,
        ProcessState::Ready => WireState::Pending,
        ProcessState::Running => WireState::Running,
        ProcessState::WaitingSyscall => WireState::Blocked,
        ProcessState::Completed => WireState::Completed,
        ProcessState::Failed => WireState::Terminated,
    }
}

pub fn wire_state(s: ProcessState) -> (w: WireState)
    ensures
        w == wire_state_of(s),
        (w == WireState::Running) == (s == ProcessState::Running),
        (w == WireState::Completed) == (s == ProcessState::Completed),
{
    match s {
        ProcessState::New => WireState::Pending,
        ProcessState::Ready => WireState::Pending,
        ProcessState::Running => WireState::Running,
        ProcessState::WaitingSyscall => WireState::Blocked,
        ProcessState::Completed => WireState::Completed,
        ProcessState::Failed => WireState::Terminated,
    }
}

/// The wire state tells a process's stage faithfully: a process shows as
/// running exactly when it runs, as completed exactly when it completed, as
/// terminated exactly when it failed, as blocked exactly when it waits for a
/// syscall, and as pending exactly when it is new or ready. So two processes
/// show the same state only when they are at the same stage, new and ready
/// counting as one.
pub proof fn law_wire_state_is_faithful(s: ProcessState, t: ProcessState)
    ensures
        (wire_state_of(s) == WireState::Running) <==> s == ProcessState::Running,
        (wire_state_of(s) == WireState::Completed) <==> s == ProcessState::Completed,
        (wire_state_of(s) == WireState::Terminated) <==> s == ProcessState::Failed,
        (wire_state_of(s) == WireState::Blocked) <==> s == ProcessState::WaitingSyscall,
        (wire_state_of(s) == WireState::Pending) <==> (s == ProcessState::New || s == ProcessState::Ready),
        wire_state_of(s) == wire_state_of(t) ==> s == t || ((s == ProcessState::New || s == ProcessState::Ready)
            && (t == ProcessState::New || t == ProcessState::Ready)),
{
}

/// What a listing shows of a process. The tenant is shown by its public
/// alias only.
pub struct ProcessSummary {
    pub pid: String,
    pub parent_pid: String,
    pub state: WireState,
    pub instruction_pointer: String,
    pub context_refs: Vec<String>,
    pub registers: Vec<(String, String)>,
    pub inlined_context: String,
    pub priority: u32,
    pub process_name: String,
    pub tenant_id: String,
    pub created_at: Timestamp,
}

pub open spec fn or_empty(s: Option<String>) -> Seq<char> {
    match s {
        Some(t) => t@,
        None => Seq::empty(),
    }
}

/// The summary of a process.
pub open spec fn summarizes(r: ProcessSummary, p: PCB) -> bool {
    &&& r.pid == p.pid
    &&& r.parent_pid@ == or_empty(p.parent_pid)
    &&& r.state == wire_state_of(p.state)
    &&& r.instruction_pointer == p.memory_pointers.l1_instruction
    &&& r.context_refs@ == p.memory_pointers.l2_context_refs@
    &&& r.registers@ == p.registers.temp_vars@
    &&& r.inlined_context == p.inlined_context
    &&& r.priority == p.priority
    &&& r.process_name == p.process_name
    &&& r.tenant_id@ == or_empty(p.public_id)
    &&& r.created_at == p.created_at
}

fn copy_or_empty(s: &Option<String>) -> (r: String)
    ensures
        r@ == or_empty(*s),
{
    match s {
        Some(t) => t.clone(),
        None => String::new(),
    }
}

fn copy_strings(v: &Vec<String>) -> (r: Vec<String>)
    ensures
        r@ == v@,
{
    let mut r: Vec<String> = Vec::new();
    let mut i: usize = 0;
    while i < v.len()
        invariant
            i <= v@.len(),
            r@ == v@.subrange(0, i as int),
        decreases v@.len() - i,
    {
        r.push(v[i].clone());
        i = i + 1;
    }
    assert(r@ =~= v@);
    r
}

fn copy_pairs(v: &Vec<(String, String)>) -> (r: Vec<(String, String)>)
    ensures
        r@ == v@,
{
    let mut r: Vec<(String, String)> = Vec::new();
    let mut i: usize = 0;
    while i < v.len()
        invariant
            i <= v@.len(),
            r@ == v@.subrange(0, i as int),
        decreases v@.len() - i,
    {
        let (a, b) = &v[i];
        r.push((a.clone(), b.clone()));
        i = i + 1;
    }
    assert(r@ =~= v@);
    r
}

pub fn summarize(p: &PCB) -> (r: ProcessSummary)
    ensures
        summarizes(r, *p),
{
    ProcessSummary {
        pid: p.pid.clone(),
        parent_pid: copy_or_empty(&p.parent_pid),
        state: wire_state(p.state),
        instruction_pointer: p.memory_pointers.l1_instruction.clone(),
        context_refs: copy_strings(&p.memory_pointers.l2_context_refs),
        registers: copy_pairs(&p.registers.temp_vars),
        inlined_context: p.inlined_context.clone(),
        priority: p.priority,
        process_name: p.process_name.clone(),
        tenant_id: copy_or_empty(&p.public_id),
        created_at: p.created_at,
    }
}

/// The processes of `tenant_id`, in order.
pub open spec fn owned_by(ps: Seq<PCB>, tenant_id: Seq<char>) -> Seq<PCB>
    decreases ps.len(),
{
    if ps.len() == 0 {
        Seq::empty()
    } else {
        let rest = owned_by(ps.drop_last(), tenant_id);
        if ps.last().tenant_id matches Some(t) && t@ == tenant_id {
            rest.push(ps.last())
        } else {
            rest
        }
    }
}

/// Processes of a tenant taken from two lists are those taken from each,
/// in order.
pub proof fn lemma_owned_by_append(a: Seq<PCB>, b: Seq<PCB>, tenant_id: Seq<char>)
    ensures
        owned_by(a + b, tenant_id) == owned_by(a, tenant_id) + owned_by(b, tenant_id),
    decreases b.len(),
{
    if b.len() == 0 {
        assert(a + b =~= a);
        assert(owned_by(a, tenant_id) + owned_by(b, tenant_id) =~= owned_by(a, tenant_id));
    } else {
        assert((a + b).drop_last() =~= a + b.drop_last());
        assert((a + b).last() == b.last());
        lemma_owned_by_append(a, b.drop_last(), tenant_id);
        let x = owned_by(a, tenant_id);
        let y = owned_by(b.drop_last(), tenant_id);
        assert((x + y).push(b.last()) =~= x + y.push(b.last()));
    }
}

/// The process belongs to the tenant.
pub open spec fn belongs_to(p: PCB, tenant_id: Seq<char>) -> bool {
    p.tenant_id matches Some(t) && t@ == tenant_id
}

/// A listing shows a tenant only its own processes: every process it
/// summarises belongs to that tenant and is one of those listed from; and
/// each of the tenant's processes is shown.
pub proof fn law_listing_shows_only_own_processes(ps: Seq<PCB>, tenant_id: Seq<char>)
    ensures
        forall|i: int|
            0 <= i < owned_by(ps, tenant_id).len() ==> belongs_to(#[trigger] owned_by(ps, tenant_id)[i], tenant_id)
                && ps.contains(owned_by(ps, tenant_id)[i]),
        forall|j: int|
            0 <= j < ps.len() && belongs_to(#[trigger] ps[j], tenant_id) ==> owned_by(ps, tenant_id).contains(
                ps[j],
            ),
    decreases ps.len(),
{
    if ps.len() > 0 {
        let d = ps.drop_last();
        law_listing_shows_only_own_processes(d, tenant_id);
        let o = owned_by(ps, tenant_id);
        let od = owned_by(d, tenant_id);
        assert forall|i: int| 0 <= i < o.len() implies belongs_to(#[trigger] o[i], tenant_id) && ps.contains(o[i]) by {
            if i < od.len() {
                assert(o[i] == od[i]);
                let k = choose|k: int| 0 <= k < d.len() && d[k] == od[i];
                assert(ps[k] == d[k]);
            } else {
                assert(ps[ps.len() - 1] == ps.last());
            }
        }
        assert forall|j: int|
            0 <= j < ps.len() && belongs_to(#[trigger] ps[j], tenant_id) implies o.contains(ps[j]) by {
            if j < ps.len() - 1 {
                assert(d[j] == ps[j]);
                let k = choose|k: int| 0 <= k < od.len() && od[k] == d[j];
                assert(o[k] == od[k]);
            } else {
                assert(o[o.len() - 1] == ps.last());
            }
        }
    }
}

/// Appends to `out` the summaries of the processes of `tenant_id` among `ps`,
/// in order.
pub fn push_visible(out: &mut Vec<ProcessSummary>, ps: &Vec<PCB>, tenant_id: &str)
    ensures
        final(out)@.len() == old(out)@.len() + owned_by(ps@, tenant_id@).len(),
        forall|i: int| 0 <= i < old(out)@.len() ==> #[trigger] final(out)@[i] == old(out)@[i],
        forall|i: int|
            0 <= i < owned_by(ps@, tenant_id@).len() ==> summarizes(
                #[trigger] final(out)@[old(out)@.len() + i],
                owned_by(ps@, tenant_id@)[i],
            ),
{
    let ghost start = out@;
    let mut i: usize = 0;
    while i < ps.len()
        invariant
            i <= ps@.len(),
            out@.len() == start.len() + owned_by(ps@.subrange(0, i as int), tenant_id@).len(),
            forall|k: int| 0 <= k < start.len() ==> #[trigger] out@[k] == start[k],
            forall|k: int|
                0 <= k < owned_by(ps@.subrange(0, i as int), tenant_id@).len() ==> summarizes(
                    #[trigger] out@[start.len() + k],
                    owned_by(ps@.subrange(0, i as int), tenant_id@)[k],
                ),
        decreases ps@.len() - i,
    {
        let ghost sub = ps@.subrange(0, i + 1);
        assert(sub.drop_last() =~= ps@.subrange(0, i as int));
        let mine = match &ps[i].tenant_id {
            Some(t) => str_eq(t.as_str(), tenant_id),
            None => false,
        };
        if mine {
            out.push(summarize(&ps[i]));
        }
        i = i + 1;
    }
    assert(ps@.subrange(0, ps@.len() as int) =~= ps@);
}

/// The processes a tenant may see: its own, summarised.
pub fn visible_processes(ps: &Vec<PCB>, tenant_id: &str) -> (r: Vec<ProcessSummary>)
    ensures
        r@.len() == owned_by(ps@, tenant_id@).len(),
        forall|i: int| 0 <= i < r@.len() ==> summarizes(#[trigger] r@[i], owned_by(ps@, tenant_id@)[i]),
{
    let mut r: Vec<ProcessSummary> = Vec::new();
    push_visible(&mut r, ps, tenant_id);
    assert forall|i: int| 0 <= i < r@.len() implies summarizes(#[trigger] r@[i], owned_by(ps@, tenant_id@)[i]) by {
        assert(r@[0 + i] == r@[i]);
    }
    r
}

// ---------------------------------------------------------------------------
// Administration
// ---------------------------------------------------------------------------

/// Only the master admin creates tenants. `None` stands for a lookup that
/// failed, with its message.
pub fn authorize_tenant_creation(is_master: Result<bool, String>) -> (r: Result<(), RpcStatus>)
    ensures
        is_master matches Ok(true) ==> r is Ok,
        is_master matches Ok(false) ==> (r matches Err(s) && s.code == RpcCode::PermissionDenied && s.message@
            == "Only Master Admin can create tenants"@),
        is_master matches Err(e) ==> (r matches Err(s) && s.code == RpcCode::Internal && s.message == e),
{
    match is_master {
        Ok(true) => Ok(()),
        Ok(false) => Err(refuse(RpcCode::PermissionDenied, "Only Master Admin can create tenants")),
        Err(e) => Err(RpcStatus { code: RpcCode::Internal, message: e }),
    }
}

/// A password reset is allowed to the master admin, and to a tenant for
/// itself.
pub fn authorize_password_reset(is_master: bool, caller: &str, target: &str) -> (r: Result<(), RpcStatus>)
    ensures
        (is_master || caller@ == target@) ==> r is Ok,
        !(is_master || caller@ == target@) ==> (r matches Err(s) && s.code == RpcCode::PermissionDenied
            && s.message@ == "No permission to reset this tenant password"@),
{
    if !is_master && !str_eq(caller, target) {
        return Err(refuse(RpcCode::PermissionDenied, "No permission to reset this tenant password"));
    }
    Ok(())
}

/// First port handed to a tenant.
pub const FIRST_TENANT_PORT: u32 = 50052;

pub open spec fn next_port_after(max_port: Option<u32>) -> u32 {
    match max_port {
        Some(p) => if p >= FIRST_TENANT_PORT {
            (p + 1) as u32
        } else {
            FIRST_TENANT_PORT
        },
        None => FIRST_TENANT_PORT,
    }
}

/// The port of a new tenant: one past the highest port in use, and never
/// below the first tenant port.
pub fn next_tenant_port(max_port: Option<u32>) -> (p: u32)
    requires
        max_port matches Some(m) ==> m < u32::MAX,
    ensures
        p == next_port_after(max_port),
        p >= FIRST_TENANT_PORT,
{
    match max_port {
        Some(p) => if p >= FIRST_TENANT_PORT {
            p + 1
        } else {
            FIRST_TENANT_PORT
        },
        None => FIRST_TENANT_PORT,
    }
}

/// The hexadecimal digits of a UUID, without its hyphens.
pub open spec fn uuid_digits(u: Seq<char>) -> Seq<char> {
    u.subrange(0, 8) + u.subrange(9, 13) + u.subrange(14, 18) + u.subrange(19, 23) + u.subrange(24, 36)
}

/// The temporary passphrase of a new tenant: the first twelve digits of a
/// UUID.
pub fn passphrase_from_uuid(u: &str) -> (r: String)
    requires
        is_hyphenated_uuid(u@),
    ensures
        r@ == uuid_digits(u@).subrange(0, 12),
        r@.len() == 12,
{
    let c = crate::text::chars_of(u);
    let mut out: Vec<char> = Vec::new();
    let mut i: usize = 0;
    while i < 13
        invariant
            c@ == u@,
            is_hyphenated_uuid(u@),
            i <= 13,
            i <= 8 ==> out@ == c@.subrange(0, i as int),
            i > 8 ==> out@ == c@.subrange(0, 8) + c@.subrange(9, i as int),
        decreases 13 - i,
    {
        if i != 8 {
            out.push(c[i]);
            proof {
                if i < 8 {
                    assert(out@ =~= c@.subrange(0, i + 1));
                } else {
                    assert(out@ =~= c@.subrange(0, 8) + c@.subrange(9, i + 1));
                }
            }
        } else {
            assert(c@.subrange(9, 9) =~= Seq::<char>::empty());
            assert(out@ =~= c@.subrange(0, 8) + c@.subrange(9, 9));
        }
        i = i + 1;
    }
    assert(out@ =~= uuid_digits(u@).subrange(0, 12));
    crate::text::string_from_chars(&out)
}

/// A fresh temporary passphrase.
pub fn new_temporary_passphrase() -> (r: String)
    ensures
        r@.len() == 12,
        forall|k: int| 0 <= k < 12 ==> is_lower_hex(#[trigger] r@[k]),
{
    let u = new_uuid_v4();
    let r = passphrase_from_uuid(u.as_str());
    proof {
        let d = uuid_digits(u@);
        assert forall|k: int| 0 <= k < 12 implies is_lower_hex(#[trigger] r@[k]) by {
            if k < 8 {
                assert(r@[k] == u@[k]);
            } else {
                assert(r@[k] == u@[k + 1]);
            }
        }
    }
    r
}

/// The answer to a tenant creation.
pub struct TenantCreated {
    pub success: bool,
    pub tenant_id: String,
    pub temporary_passphrase: String,
    pub network_port: u32,
    pub message: String,
}

pub fn tenant_created(tenant_id: String, port: u32, passphrase: String) -> (r: TenantCreated)
    ensures
        r.success,
        r.tenant_id == tenant_id,
        r.temporary_passphrase == passphrase,
        r.network_port == port,
        r.message@ == "Tenant created"@,
{
    TenantCreated {
        success: true,
        tenant_id,
        temporary_passphrase: passphrase,
        network_port: port,
        message: owned("Tenant created"),
    }
}

/// A failed tenant creation.
pub fn tenant_creation_failed(cause: &str) -> (s: RpcStatus)
    ensures
        s.code == RpcCode::Internal,
        s.message@ == "Failed to create tenant: "@ + cause@,
{
    RpcStatus { code: RpcCode::Internal, message: concat2("Failed to create tenant: ", cause) }
}

/// What is known so far of a request to create a tenant.
pub enum TenantCreationStage {
    /// The request as it arrived.
    Received,
    /// The master enclave's verdict on the caller, or why it could not give one.
    MasterChecked(Result<bool, String>),
    /// The enclave's answer to the creation: the tenant's port and temporary
    /// passphrase, or why it failed.
    Created(Result<(u32, String), String>),
}

/// What a request to create a tenant does next.
pub enum TenantCreationAction {
    /// Ask the master enclave whether these credentials are the master admin's.
    CheckMaster { tenant_id: String, session_key: String },
    /// Create the tenant.
    Create { username: String },
    /// Answer the request.
    Reply(Result<TenantCreated, RpcStatus>),
}

/// The next step of a tenant creation. A request without a caller is
/// refused at once; the caller must be confirmed as the master admin before
/// the tenant is created, and the enclave's answer is the reply. A tenant
/// is created only on the master enclave's confirmation.
pub fn tenant_creation_step(auth: Option<&CitadelAuth>, username: &str, stage: TenantCreationStage) -> (a:
    TenantCreationAction)
    ensures
        a is Create <==> (auth is Some && stage matches TenantCreationStage::MasterChecked(Ok(true))),
        auth is None ==> (a matches TenantCreationAction::Reply(Err(s)) && s.code == RpcCode::Unauthenticated
            && s.message@ == context_missing()),
        auth matches Some(c) ==> match stage {
            TenantCreationStage::Received => a matches TenantCreationAction::CheckMaster {
                tenant_id,
                session_key,
            } && tenant_id == c.tenant_id && session_key == c.session_key,
            TenantCreationStage::MasterChecked(Ok(true)) => a matches TenantCreationAction::Create { username: u }
                && u@ == username@,
            TenantCreationStage::MasterChecked(Ok(false)) => a matches TenantCreationAction::Reply(Err(s))
                && s.code == RpcCode::PermissionDenied && s.message@ == "Only Master Admin can create tenants"@,
            TenantCreationStage::MasterChecked(Err(e)) => a matches TenantCreationAction::Reply(Err(s)) && s.code
                == RpcCode::Internal && s.message == e,
            TenantCreationStage::Created(Ok((port, pass))) => a matches TenantCreationAction::Reply(Ok(r))
                && r.success && r.tenant_id@ == username@ && r.temporary_passphrase == pass && r.network_port
                == port && r.message@ == "Tenant created"@,
            TenantCreationStage::Created(Err(e)) => a matches TenantCreationAction::Reply(Err(s)) && s.code
                == RpcCode::Internal && s.message@ == "Failed to create tenant: "@ + e@,
        },
{
    let caller = match require_auth(auth) {
        Ok(c) => c,
        Err(s) => return TenantCreationAction::Reply(Err(s)),
    };
    match stage {
        TenantCreationStage::Received => TenantCreationAction::CheckMaster {
            tenant_id: caller.tenant_id.clone(),
            session_key: caller.session_key.clone(),
        },
        TenantCreationStage::MasterChecked(verdict) => match authorize_tenant_creation(verdict) {
            Ok(()) => TenantCreationAction::Create { username: owned(username) },
            Err(s) => TenantCreationAction::Reply(Err(s)),
        },
        TenantCreationStage::Created(Ok((port, pass))) => TenantCreationAction::Reply(
            Ok(tenant_created(owned(username), port, pass)),
        ),
        TenantCreationStage::Created(Err(e)) => TenantCreationAction::Reply(Err(tenant_creation_failed(e.as_str()))),
    }
}

/// The answer to the master admin's setup: refused with the enclave's
/// message when an admin already exists.
pub fn admin_setup_outcome(result: Result<(), String>) -> (r: Result<String, RpcStatus>)
    ensures
        result is Ok ==> (r matches Ok(m) && m@ == "Master Admin successfully initialized"@),
        result matches Err(e) ==> (r matches Err(s) && s.code == RpcCode::AlreadyExists && s.message == e),
{
    match result {
        Ok(()) => Ok(owned("Master Admin successfully initialized")),
        Err(e) => Err(RpcStatus { code: RpcCode::AlreadyExists, message: e }),
    }
}

/// The enclave's refusal to set the master admin up twice.
pub fn master_already_initialized() -> (m: String)
    ensures
        m@ == "Master Admin is already initialized. Cannot overwrite."@,
{
    owned("Master Admin is already initialized. Cannot overwrite.")
}

/// The enclave's answer to a reset for a tenant it does not know.
pub fn tenant_not_found(tenant_id: &str) -> (m: String)
    ensures
        m@ == "Tenant "@ + tenant_id@ + " not found."@,
{
    concat3("Tenant ", tenant_id, " not found.")
}

/// A failure of the tenant's own database during engine configuration, with
/// the tenant's private id replaced by its public alias.
pub fn engine_config_failure(opening: bool, cause: &str, auth: &CitadelAuth) -> (s: RpcStatus)
    ensures
        s.code == RpcCode::Internal,
        opening ==> s.message@ == "Failed to open tenant DB: "@ + replaced(cause@, auth.tenant_id@, auth.public_id@),
        !opening ==> s.message@ == replaced(cause@, auth.tenant_id@, auth.public_id@),
{
    let safe = sanitize_error(cause, auth.tenant_id.as_str(), auth.public_id.as_str());
    if opening {
        RpcStatus { code: RpcCode::Internal, message: concat2("Failed to open tenant DB: ", safe.as_str()) }
    } else {
        RpcStatus { code: RpcCode::Internal, message: safe }
    }
}

// ---------------------------------------------------------------------------
// Passwords
// ---------------------------------------------------------------------------

/// The SHA-256 digest of some bytes.
pub uninterp spec fn sha256(bytes: Seq<u8>) -> Seq<u8>;

/// `Sha256::new()`, `update(bytes)`, `finalize()` of the `sha2` crate: the
/// 32 bytes of the digest, which `sha256` names.
#[verifier::external_body]
fn sha256_digest(bytes: &[u8]) -> (d: Vec<u8>)
    ensures
        d@ == sha256(bytes@),
        d@.len() == 32,
{
    let mut hasher = sha2::Sha256::new();
    hasher.update(bytes);
    hasher.finalize().to_vec()
}

pub open spec fn hex_digit(v: int) -> char {
    if 0 <= v < 10 {
        (48 + v) as char
    } else {
        (97 + v - 10) as char
    }
}

/// Lower-case hexadecimal, two digits a byte (`{:x}` of a digest).
pub open spec fn lower_hex(b: Seq<u8>) -> Seq<char>
    decreases b.len(),
{
    if b.len() == 0 {
        Seq::empty()
    } else {
        lower_hex(b.drop_last()) + seq![hex_digit(b.last() as int / 16), hex_digit(b.last() as int % 16)]
    }
}

fn hex_char(v: u8) -> (c: char)
    requires
        v < 16,
    ensures
        c == hex_digit(v as int),
{
    let table = crate::text::chars_of("0123456789abcdef");
    proof {
        reveal_strlit("0123456789abcdef");
    }
    let c = table[v as usize];
    proof {
        let i = v as int;
        assert(table@[i] == "0123456789abcdef"@[i]);
    }
    c
}

/// The stored form of a password: its SHA-256 digest in lower-case hex.
pub open spec fn password_hash(password: Seq<char>) -> Seq<char> {
    lower_hex(sha256(vstd::utf8::encode_utf8(password)))
}

pub fn hash_password(password: &str) -> (h: String)
    ensures
        h@ == password_hash(password@),
        h@.len() == 64,
{
    let d = sha256_digest(password.as_bytes());
    let mut out: Vec<char> = Vec::new();
    let mut i: usize = 0;
    while i < d.len()
        invariant
            i <= d@.len(),
            out@ == lower_hex(d@.subrange(0, i as int)),
            out@.len() == 2 * i,
        decreases d@.len() - i,
    {
        let b = d[i];
        out.push(hex_char(b / 16));
        out.push(hex_char(b % 16));
        proof {
            let sub = d@.subrange(0, i + 1);
            assert(sub.drop_last() =~= d@.subrange(0, i as int));
            assert(sub.last() == b);
        }
        i = i + 1;
    }
    assert(d@.subrange(0, d@.len() as int) =~= d@);
    crate::text::string_from_chars(&out)
}

/// Whether a passphrase matches a stored hash.
pub fn password_matches(stored_hash: &str, passphrase: &str) -> (b: bool)
    ensures
        b == (stored_hash@ == password_hash(passphrase@)),
{
    let h = hash_password(passphrase);
    str_eq(h.as_str(), stored_hash)
}


proof fn lemma_hex_digit_injective(a: int, b: int)
    requires
        0 <= a < 16,
        0 <= b < 16,
        hex_digit(a) == hex_digit(b),
    ensures
        a == b,
{
    assert(hex_digit(a) as int == (if a < 10 { 48 + a } else { 87 + a }));
    assert(hex_digit(b) as int == (if b < 10 { 48 + b } else { 87 + b }));
}

proof fn lemma_lower_hex_injective(a: Seq<u8>, b: Seq<u8>)
    requires
        lower_hex(a) == lower_hex(b),
    ensures
        a == b,
    decreases a.len(),
{
    lemma_lower_hex_len(a);
    lemma_lower_hex_len(b);
    if a.len() > 0 {
        let ha = lower_hex(a);
        let hb = lower_hex(b);
        let n = ha.len();
        assert(ha[n - 2] == hex_digit(a.last() as int / 16));
        assert(hb[n - 2] == hex_digit(b.last() as int / 16));
        assert(ha[n - 1] == hex_digit(a.last() as int % 16));
        assert(hb[n - 1] == hex_digit(b.last() as int % 16));
        lemma_hex_digit_injective(a.last() as int / 16, b.last() as int / 16);
        lemma_hex_digit_injective(a.last() as int % 16, b.last() as int % 16);
        assert(a.last() == b.last());
        assert(lower_hex(a.drop_last()) =~= ha.subrange(0, n - 2));
        assert(lower_hex(b.drop_last()) =~= hb.subrange(0, n - 2));
        lemma_lower_hex_injective(a.drop_last(), b.drop_last());
        assert(a =~= a.drop_last().push(a.last()));
        assert(b =~= b.drop_last().push(b.last()));
    }
}

proof fn lemma_lower_hex_len(b: Seq<u8>)
    ensures
        lower_hex(b).len() == 2 * b.len(),
    decreases b.len(),
{
    if b.len() > 0 {
        lemma_lower_hex_len(b.drop_last());
    }
}

/// The hash stored for a passphrase accepts exactly the passphrases whose
/// SHA-256 digest is the same, and so always the passphrase itself.
pub proof fn law_stored_hash_accepts_same_digest(password: Seq<char>, attempt: Seq<char>)
    ensures
        password_hash(password) == password_hash(attempt) <==> sha256(
            vstd::utf8::encode_utf8(password),
        ) == sha256(vstd::utf8::encode_utf8(attempt)),
{
    if password_hash(password) == password_hash(attempt) {
        lemma_lower_hex_injective(
            sha256(vstd::utf8::encode_utf8(password)),
            sha256(vstd::utf8::encode_utf8(attempt)),
        );
    }
}

} // verus!
