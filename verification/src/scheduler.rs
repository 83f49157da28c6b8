//! Process control blocks and the cognitive scheduler's decisions.
use vstd::prelude::*;
use crate::ids::{is_v4_uuid, new_uuid_v4};
use crate::server::{lemma_owned_by_append, owned_by, push_visible, summarize, summarizes, ProcessSummary};
use crate::text::{concat2, str_eq};

verus! {

/// Life cycle of a cognitive process.
#[derive(Debug, Clone, Copy, PartialEq, Eq)]
pub enum ProcessState {
    New,
    Ready,
    Running,
    WaitingSyscall,
    Completed,
    Failed,
}

/// Where a process may be run.
#[derive(Debug, Clone, Copy, PartialEq, Eq)]
pub enum ModelPreference {
    LocalOnly,
    CloudOnly,
    HybridSmart,
}

/// The memory a process refers to: its instruction (L1), files it wants in
/// context (L2) and queries into long-term memory (L3).
#[derive(Debug)]
pub struct MemoryPointers {
    pub l1_instruction: String,
    pub l2_context_refs: Vec<String>,
    pub swap_refs: Vec<String>,
}

/// Scratch values of a process, by name.
#[derive(Debug)]
pub struct Registers {
    pub temp_vars: Vec<(String, String)>,
}

/// An instant in UTC: whole seconds since the Unix epoch and the
/// nanoseconds past them.
#[derive(Debug, Clone, Copy, PartialEq, Eq)]
pub struct Timestamp {
    pub seconds: i64,
    pub nanos: u32,
}

/// `chrono::Utc::now()`, taken apart into its Unix seconds
/// (`DateTime::timestamp`) and the nanoseconds past them
/// (`DateTime::timestamp_subsec_nanos`). Which instant is read is left open.
/// chrono reads the system clock as a duration since the Unix epoch, so the
/// seconds are not negative and the nanoseconds stay below a second (chrono
/// panics on a clock set before 1970, which no precondition can rule out).
#[verifier::external_body]
pub(crate) fn utc_now() -> (t: Timestamp)
    ensures
        0 <= t.seconds,
        t.nanos < 1_000_000_000,
{
    let now = chrono::Utc::now();
    Timestamp { seconds: now.timestamp(), nanos: now.timestamp_subsec_nanos() }
}

/// Process control block.
#[derive(Debug)]
pub struct PCB {
    pub pid: String,
    pub parent_pid: Option<String>,
    pub process_name: String,
    pub priority: u32,
    pub state: ProcessState,
    pub model_pref: ModelPreference,
    pub memory_pointers: MemoryPointers,
    pub registers: Registers,
    pub current_node: String,
    pub cycles_executed: u64,
    pub inlined_context: String,
    pub tenant_id: Option<String>,
    pub public_id: Option<String>,
    pub session_key: Option<String>,
    /// When the process was made.
    pub created_at: Timestamp,
}

pub open spec fn pid_prefix() -> Seq<char> {
    "proc_"@
}

impl PCB {
    /// A new process with a fresh pid (`proc_` and a random UUID).
    pub fn new(process_name: String, priority: u32, instruction: String) -> (p: PCB)
        ensures
            p.pid@ == pid_prefix() + p.pid@.subrange(5, p.pid@.len() as int),
            is_v4_uuid(p.pid@.subrange(5, p.pid@.len() as int)),
            p.parent_pid is None,
            p.process_name == process_name,
            p.priority == priority,
            p.state == ProcessState::New,
            p.model_pref == ModelPreference::HybridSmart,
            p.memory_pointers.l1_instruction == instruction,
            p.memory_pointers.l2_context_refs@.len() == 0,
            p.memory_pointers.swap_refs@.len() == 0,
            p.registers.temp_vars@.len() == 0,
            p.current_node@.len() == 0,
            p.cycles_executed == 0,
            p.inlined_context@.len() == 0,
            p.tenant_id is None,
            p.public_id is None,
            p.session_key is None,
            0 <= p.created_at.seconds,
            p.created_at.nanos < 1_000_000_000,
    {
        let id = new_uuid_v4();
        let created_at = utc_now();
        let pid = concat2("proc_", id.as_str());
        proof {
            reveal_strlit("proc_");
            assert(pid@.subrange(5, pid@.len() as int) =~= id@);
        }
        PCB {
            pid,
            parent_pid: None,
            process_name,
            priority,
            state: ProcessState::New,
            model_pref: ModelPreference::HybridSmart,
            memory_pointers: MemoryPointers {
                l1_instruction: instruction,
                l2_context_refs: Vec::new(),
                swap_refs: Vec::new(),
            },
            registers: Registers { temp_vars: Vec::new() },
            current_node: String::new(),
            cycles_executed: 0,
            inlined_context: String::new(),
            tenant_id: None,
            public_id: None,
            session_key: None,
            created_at,
        }
    }
}

/// Position of the first binding of `name` among `vars`.
pub open spec fn var_index(vars: Seq<(String, String)>, name: Seq<char>) -> Option<int>
    decreases vars.len(),
{
    if vars.len() == 0 {
        None
    } else if vars.last().0@ == name && var_index(vars.drop_last(), name) is None {
        Some(vars.len() - 1)
    } else {
        var_index(vars.drop_last(), name)
    }
}

/// `vars` with `name` bound to `value`: the first binding of the name gets
/// the value, or the binding is added at the end (what a map insert keeps).
pub open spec fn with_var(vars: Seq<(String, String)>, name: String, value: String) -> Seq<
    (String, String),
> {
    match var_index(vars, name@) {
        Some(i) => vars.update(i, (vars[i].0, value)),
        None => vars.push((name, value)),
    }
}

proof fn lemma_var_index_prefix(vars: Seq<(String, String)>, name: Seq<char>, k: int)
    requires
        0 <= k <= vars.len(),
        forall|j: int| 0 <= j < k ==> vars[j].0@ != name,
    ensures
        var_index(vars.subrange(0, k), name) is None,
    decreases k,
{
    if k > 0 {
        let sub = vars.subrange(0, k);
        assert(sub.drop_last() =~= vars.subrange(0, k - 1));
        lemma_var_index_prefix(vars, name, k - 1);
    }
}

proof fn lemma_var_index_extend(vars: Seq<(String, String)>, name: Seq<char>, k: int)
    requires
        0 <= k < vars.len(),
        var_index(vars.subrange(0, k + 1), name) == Some(k),
    ensures
        var_index(vars, name) == Some(k),
    decreases vars.len(),
{
    if vars.len() > k + 1 {
        assert(vars.drop_last().subrange(0, k + 1) =~= vars.subrange(0, k + 1));
        lemma_var_index_extend(vars.drop_last(), name, k);
    } else {
        assert(vars.subrange(0, k + 1) =~= vars);
    }
}

proof fn lemma_var_index_range(vars: Seq<(String, String)>, name: Seq<char>)
    ensures
        var_index(vars, name) matches Some(i) ==> 0 <= i < vars.len() && vars[i].0@ == name
            && forall|j: int| 0 <= j < i ==> vars[j].0@ != name,
        var_index(vars, name) is None ==> forall|j: int| 0 <= j < vars.len() ==> vars[j].0@ != name,
    decreases vars.len(),
{
    if vars.len() > 0 {
        lemma_var_index_range(vars.drop_last(), name);
        assert forall|j: int| 0 <= j < vars.len() - 1 implies vars[j] == vars.drop_last()[j] by {}
    }
}

proof fn lemma_var_index_same_keys(a: Seq<(String, String)>, b: Seq<(String, String)>, name: Seq<char>)
    requires
        a.len() == b.len(),
        forall|j: int| 0 <= j < a.len() ==> #[trigger] a[j].0@ == b[j].0@,
    ensures
        var_index(a, name) == var_index(b, name),
    decreases a.len(),
{
    if a.len() > 0 {
        assert forall|j: int| 0 <= j < a.len() - 1 implies #[trigger] a.drop_last()[j].0@ == b.drop_last()[j].0@ by {
            assert(a.drop_last()[j] == a[j] && b.drop_last()[j] == b[j]);
        }
        lemma_var_index_same_keys(a.drop_last(), b.drop_last(), name);
        assert(a.last().0@ == b[b.len() - 1].0@);
    }
}

/// A register that is set reads back the value it was given, and every
/// other register reads as before.
pub proof fn law_register_reads_back(vars: Seq<(String, String)>, name: String, value: String, other: Seq<char>)
    ensures
        var_index(with_var(vars, name, value), name@) matches Some(k) && with_var(vars, name, value)[k].1
            == value,
        other != name@ ==> var_index(with_var(vars, name, value), other) == var_index(vars, other),
        other != name@ ==> (var_index(vars, other) matches Some(k) ==> with_var(vars, name, value)[k]
            == vars[k]),
{
    lemma_var_index_range(vars, name@);
    lemma_var_index_range(vars, other);
    let u = with_var(vars, name, value);
    match var_index(vars, name@) {
        Some(i) => {
            assert forall|j: int| 0 <= j < i implies u[j].0@ != name@ by {}
            lemma_var_index_prefix(u, name@, i);
            assert(u.subrange(0, i + 1).drop_last() =~= u.subrange(0, i));
            lemma_var_index_extend(u, name@, i);
            assert forall|j: int| 0 <= j < vars.len() implies #[trigger] u[j].0@ == vars[j].0@ by {}
            lemma_var_index_same_keys(u, vars, other);
        },
        None => {
            let n = vars.len() as int;
            assert forall|j: int| 0 <= j < n implies u[j].0@ != name@ by {}
            lemma_var_index_prefix(u, name@, n);
            assert(u.subrange(0, n + 1).drop_last() =~= u.subrange(0, n));
            lemma_var_index_extend(u, name@, n);
            assert(u.drop_last() =~= vars);
        },
    }
}

proof fn lemma_pid_prefix(q: Seq<PCB>, pid: Seq<char>, k: int)
    requires
        0 <= k <= q.len(),
        forall|j: int| 0 <= j < k ==> q[j].pid@ != pid,
    ensures
        pid_index(q.subrange(0, k), pid) is None,
    decreases k,
{
    if k > 0 {
        assert(q.subrange(0, k).drop_last() =~= q.subrange(0, k - 1));
        lemma_pid_prefix(q, pid, k - 1);
    }
}

proof fn lemma_pid_extend(q: Seq<PCB>, pid: Seq<char>, k: int)
    requires
        0 <= k < q.len(),
        pid_index(q.subrange(0, k + 1), pid) == Some(k),
    ensures
        pid_index(q, pid) == Some(k),
    decreases q.len(),
{
    if q.len() > k + 1 {
        assert(q.drop_last().subrange(0, k + 1) =~= q.subrange(0, k + 1));
        lemma_pid_extend(q.drop_last(), pid, k);
    } else {
        assert(q.subrange(0, k + 1) =~= q);
    }
}

/// The first process with the pid is found where the search stops.
proof fn lemma_pid_first(q: Seq<PCB>, pid: Seq<char>, k: int)
    requires
        0 <= k < q.len(),
        q[k].pid@ == pid,
        forall|j: int| 0 <= j < k ==> q[j].pid@ != pid,
    ensures
        pid_index(q, pid) == Some(k),
{
    lemma_pid_prefix(q, pid, k);
    assert(q.subrange(0, k + 1).drop_last() =~= q.subrange(0, k));
    lemma_pid_extend(q, pid, k);
}

proof fn lemma_pid_absent(q: Seq<PCB>, pid: Seq<char>)
    requires
        forall|j: int| 0 <= j < q.len() ==> q[j].pid@ != pid,
    ensures
        pid_index(q, pid) is None,
{
    lemma_pid_prefix(q, pid, q.len() as int);
    assert(q.subrange(0, q.len() as int) =~= q);
}

/// Binds `name` to `value` among the scratch values of a process.
pub fn set_var(vars: &mut Vec<(String, String)>, name: String, value: String)
    ensures
        final(vars)@ == with_var(old(vars)@, name, value),
{
    let mut i: usize = 0;
    while i < vars.len()
        invariant
            vars@ == old(vars)@,
            i <= vars@.len(),
            forall|j: int| 0 <= j < i ==> vars@[j].0@ != name@,
        decreases vars@.len() - i,
    {
        if str_eq(vars[i].0.as_str(), name.as_str()) {
            proof {
                lemma_var_index_prefix(vars@, name@, i as int);
                let sub = vars@.subrange(0, i + 1);
                assert(sub.drop_last() =~= vars@.subrange(0, i as int));
                lemma_var_index_extend(vars@, name@, i as int);
            }
            let key = vars[i].0.clone();
            vars.set(i, (key, value));
            return;
        }
        i = i + 1;
    }
    proof {
        lemma_var_index_prefix(vars@, name@, vars@.len() as int);
        assert(vars@.subrange(0, vars@.len() as int) =~= vars@);
    }
    vars.push((name, value));
}

// ---------------------------------------------------------------------------
// Scheduler
// ---------------------------------------------------------------------------

/// What arrives on the scheduler's event bus.
pub enum SchedulerEvent {
    RegisterProcess(PCB),
    SyscallCompleted { pid: String, result: String },
    ProcessTerminated { pid: String, success: bool },
}

/// What handling an event did, for the caller to report.
#[derive(Debug, PartialEq, Eq)]
pub enum SchedulerNotice {
    /// A process joined the ready queue; `preempts` when it has top priority
    /// and what runs now does not.
    Registered { preempts: bool },
    /// A waiting process got its syscall result and is ready again.
    Resumed,
    /// No waiting process had that pid.
    UnknownWaiter,
    /// The running process ended and the processor is free.
    Released,
    /// A process ended that was not the running one.
    NotRunning,
}

/// Priority from which a new process preempts a running one.
pub const PREEMPT_PRIORITY: u32 = 10;

/// Name of the register that receives the result of a syscall.
pub open spec fn last_result_register() -> Seq<char> {
    "last_syscall_res"@
}

/// `p` is the waiting process `w` made ready again with `result` in its
/// result register: nothing else of it changes.
pub open spec fn resumed_with(w: PCB, p: PCB, result: String) -> bool {
    &&& p == PCB { state: ProcessState::Ready, registers: p.registers, ..w }
    &&& exists|k: String|
        k@ == last_result_register() && p.registers.temp_vars@ == #[trigger] with_var(
            w.registers.temp_vars@,
            k,
            result,
        )
}

pub struct SchedulerModel {
    pub ready: Seq<PCB>,
    pub waiting: Seq<PCB>,
    pub running: Option<PCB>,
}

/// Position of the first process with the highest priority.
pub open spec fn top_index(q: Seq<PCB>) -> int
    decreases q.len(),
{
    if q.len() <= 1 {
        0
    } else {
        let k = top_index(q.drop_last());
        if q.last().priority > q[k].priority {
            q.len() - 1
        } else {
            k
        }
    }
}

/// Position of the first process with pid `pid`.
pub open spec fn pid_index(q: Seq<PCB>, pid: Seq<char>) -> Option<int>
    decreases q.len(),
{
    if q.len() == 0 {
        None
    } else if q.last().pid@ == pid && pid_index(q.drop_last(), pid) is None {
        Some(q.len() - 1)
    } else {
        pid_index(q.drop_last(), pid)
    }
}

pub open spec fn with_state(p: PCB, s: ProcessState) -> PCB {
    PCB { state: s, ..p }
}

/// The scheduler after a process registers: it is ready, at the back.
pub open spec fn after_register(m: SchedulerModel, p: PCB) -> SchedulerModel {
    SchedulerModel { ready: m.ready.push(with_state(p, ProcessState::Ready)), ..m }
}

/// The scheduler after the running process `pid` ends.
pub open spec fn after_terminate(m: SchedulerModel, pid: Seq<char>) -> SchedulerModel {
    match m.running {
        Some(r) => if r.pid@ == pid {
            SchedulerModel { running: None, ..m }
        } else {
            m
        },
        None => m,
    }
}

/// The scheduler when it hands the processor out: with nothing running and a
/// process ready, the first ready process of highest priority runs.
pub open spec fn after_dispatch(m: SchedulerModel) -> SchedulerModel {
    if m.running is None && m.ready.len() > 0 {
        let k = top_index(m.ready);
        SchedulerModel {
            ready: m.ready.remove(k),
            waiting: m.waiting,
            running: Some(with_state(m.ready[k], ProcessState::Running)),
        }
    } else {
        m
    }
}

/// The running process, as a sequence of at most one.
pub open spec fn running_seq(m: SchedulerModel) -> Seq<PCB> {
    match m.running {
        Some(p) => seq![p],
        None => Seq::empty(),
    }
}

/// Every process the scheduler holds: the running one, the ready queue and
/// the waiting ones.
pub open spec fn all_processes(m: SchedulerModel) -> Seq<PCB> {
    running_seq(m) + m.ready + m.waiting
}

proof fn lemma_top_index(q: Seq<PCB>)
    requires
        q.len() > 0,
    ensures
        0 <= top_index(q) < q.len(),
        forall|j: int| 0 <= j < q.len() ==> #[trigger] q[j].priority <= q[top_index(q)].priority,
        forall|j: int| 0 <= j < top_index(q) ==> #[trigger] q[j].priority < q[top_index(q)].priority,
    decreases q.len(),
{
    if q.len() > 1 {
        let d = q.drop_last();
        lemma_top_index(d);
        let k = top_index(d);
        assert(q[k] == d[k]);
        assert forall|j: int| 0 <= j < q.len() implies #[trigger] q[j].priority <= q[top_index(q)].priority by {
            if j < q.len() - 1 {
                assert(q[j] == d[j]);
            }
        }
        assert forall|j: int| 0 <= j < top_index(q) implies #[trigger] q[j].priority < q[top_index(q)].priority by {
            if j < q.len() - 1 {
                assert(q[j] == d[j]);
            }
        }
    }
}

proof fn lemma_pid_index(q: Seq<PCB>, pid: Seq<char>)
    ensures
        pid_index(q, pid) matches Some(i) ==> 0 <= i < q.len() && q[i].pid@ == pid,
        pid_index(q, pid) is None ==> forall|j: int| 0 <= j < q.len() ==> q[j].pid@ != pid,
    decreases q.len(),
{
    if q.len() > 0 {
        lemma_pid_index(q.drop_last(), pid);
        assert forall|j: int| 0 <= j < q.len() - 1 implies q[j] == q.drop_last()[j] by {}
    }
}

/// Decides which cognitive process holds the processor.
pub struct Scheduler {
    ready_queue: Vec<PCB>,
    waiting_queue: Vec<PCB>,
    current_running: Option<PCB>,
}

impl View for Scheduler {
    type V = SchedulerModel;

    closed spec fn view(&self) -> SchedulerModel {
        SchedulerModel {
            ready: self.ready_queue@,
            waiting: self.waiting_queue@,
            running: self.current_running,
        }
    }
}

impl Scheduler {
    pub fn new() -> (s: Scheduler)
        ensures
            s@.ready.len() == 0,
            s@.waiting.len() == 0,
            s@.running is None,
    {
        Scheduler { ready_queue: Vec::new(), waiting_queue: Vec::new(), current_running: None }
    }

    fn find_waiting(&self, pid: &str) -> (r: Option<usize>)
        ensures
            r matches Some(i) ==> pid_index(self@.waiting, pid@) == Some(i as int) && i < self@.waiting.len(),
            r is None ==> pid_index(self@.waiting, pid@) is None,
    {
        let mut i: usize = 0;
        while i < self.waiting_queue.len()
            invariant
                i <= self.waiting_queue@.len(),
                forall|j: int| 0 <= j < i ==> self.waiting_queue@[j].pid@ != pid@,
            decreases self.waiting_queue@.len() - i,
        {
            if str_eq(self.waiting_queue[i].pid.as_str(), pid) {
                proof {
                    lemma_pid_first(self@.waiting, pid@, i as int);
                }
                return Some(i);
            }
            i = i + 1;
        }
        proof {
            lemma_pid_absent(self@.waiting, pid@);
        }
        None
    }

    /// Takes an event of the bus.
    pub fn handle_event(&mut self, event: SchedulerEvent) -> (n: SchedulerNotice)
        ensures
            match event {
                SchedulerEvent::RegisterProcess(p) => {
                    &&& final(self)@ == after_register(old(self)@, p)
                    &&& n == SchedulerNotice::Registered {
                        preempts: p.priority >= PREEMPT_PRIORITY && (old(self)@.running matches Some(r)
                            && r.priority < PREEMPT_PRIORITY),
                    }
                },
                SchedulerEvent::SyscallCompleted { pid, result } => match pid_index(
                    old(self)@.waiting,
                    pid@,
                ) {
                    Some(i) => {
                        let w = old(self)@.waiting[i];
                        &&& n == SchedulerNotice::Resumed
                        &&& final(self)@.waiting == old(self)@.waiting.remove(i)
                        &&& final(self)@.running == old(self)@.running
                        &&& final(self)@.ready.len() == old(self)@.ready.len() + 1
                        &&& final(self)@.ready.drop_last() == old(self)@.ready
                        &&& resumed_with(w, final(self)@.ready.last(), result)
                        &&& var_index(final(self)@.ready.last().registers.temp_vars@, last_result_register())
                            matches Some(k) && final(self)@.ready.last().registers.temp_vars@[k].1 == result
                    },
                    None => n == SchedulerNotice::UnknownWaiter && final(self)@ == old(self)@,
                },
                SchedulerEvent::ProcessTerminated { pid, success } => {
                    &&& final(self)@ == after_terminate(old(self)@, pid@)
                    &&& n == (if old(self)@.running matches Some(r) && r.pid@ == pid@ {
                        SchedulerNotice::Released
                    } else {
                        SchedulerNotice::NotRunning
                    })
                },
            },
    {
        match event {
            SchedulerEvent::RegisterProcess(pcb) => {
                let mut pcb = pcb;
                pcb.state = ProcessState::Ready;
                let preempts = if pcb.priority >= PREEMPT_PRIORITY {
                    match &self.current_running {
                        Some(running) => running.priority < PREEMPT_PRIORITY,
                        None => false,
                    }
                } else {
                    false
                };
                self.ready_queue.push(pcb);
                SchedulerNotice::Registered { preempts }
            },
            SchedulerEvent::SyscallCompleted { pid, result } => {
                match self.find_waiting(pid.as_str()) {
                    Some(i) => {
                        let mut w = self.waiting_queue.remove(i);
                        let ghost w0 = w;
                        let key = String::from_str("last_syscall_res");
                        let ghost vars0 = w.registers.temp_vars@;
                        let ghost key0 = key;
                        let ghost result0 = result;
                        set_var(&mut w.registers.temp_vars, key, result);
                        proof {
                            reveal_strlit("last_syscall_res");
                            law_register_reads_back(vars0, key0, result0, Seq::empty());
                        }
                        w.state = ProcessState::Ready;
                        proof {
                            assert(w == PCB { state: ProcessState::Ready, registers: w.registers, ..w0 });
                            assert(key0@ == last_result_register());
                        }
                        self.ready_queue.push(w);
                        SchedulerNotice::Resumed
                    },
                    None => SchedulerNotice::UnknownWaiter,
                }
            },
            SchedulerEvent::ProcessTerminated { pid, success: _ } => {
                let ends = match &self.current_running {
                    Some(running) => str_eq(running.pid.as_str(), pid.as_str()),
                    None => false,
                };
                if ends {
                    self.current_running = None;
                    SchedulerNotice::Released
                } else {
                    SchedulerNotice::NotRunning
                }
            },
        }
    }

    /// The processes of `tenant_id` that the scheduler holds, summarised:
    /// the running one, then the ready queue, then the waiting ones.
    pub fn list_processes(&self, tenant_id: &str) -> (r: Vec<ProcessSummary>)
        ensures
            r@.len() == owned_by(all_processes(self@), tenant_id@).len(),
            forall|i: int|
                0 <= i < r@.len() ==> summarizes(
                    #[trigger] r@[i],
                    owned_by(all_processes(self@), tenant_id@)[i],
                ),
    {
        let mut r: Vec<ProcessSummary> = Vec::new();
        let ghost running = running_seq(self@);
        match &self.current_running {
            Some(p) => {
                let mine = match &p.tenant_id {
                    Some(t) => str_eq(t.as_str(), tenant_id),
                    None => false,
                };
                assert(running.drop_last() =~= Seq::<PCB>::empty());
                assert(running.last() == *p);
                assert(owned_by(running.drop_last(), tenant_id@) =~= Seq::<PCB>::empty());
                if mine {
                    r.push(summarize(p));
                    assert(owned_by(running, tenant_id@) =~= seq![*p]);
                } else {
                    assert(owned_by(running, tenant_id@) =~= Seq::<PCB>::empty());
                }
            },
            None => {},
        }
        assert(r@.len() == owned_by(running, tenant_id@).len());
        let ghost after_running = r@;
        push_visible(&mut r, &self.ready_queue, tenant_id);
        let ghost after_ready = r@;
        push_visible(&mut r, &self.waiting_queue, tenant_id);
        proof {
            let t = tenant_id@;
            lemma_owned_by_append(running, self@.ready, t);
            lemma_owned_by_append(running + self@.ready, self@.waiting, t);
            assert(all_processes(self@) =~= running + self@.ready + self@.waiting);
            let o1 = owned_by(running, t);
            let o2 = owned_by(self@.ready, t);
            let o3 = owned_by(self@.waiting, t);
            let all = owned_by(all_processes(self@), t);
            assert(all =~= o1 + o2 + o3);
            assert forall|i: int| 0 <= i < r@.len() implies summarizes(#[trigger] r@[i], all[i]) by {
                if i < o1.len() {
                    assert(r@[i] == after_ready[i]);
                    assert(after_ready[i] == after_running[i]);
                } else if i < o1.len() + o2.len() {
                    let j = i - o1.len();
                    assert(r@[i] == after_ready[i]);
                    assert(after_ready[after_running.len() + j] == after_ready[i]);
                } else {
                    let j = i - o1.len() - o2.len();
                    assert(r@[after_ready.len() + j] == r@[i]);
                }
            }
        }
        r
    }

    /// Hands the processor to the first ready process of highest priority,
    /// when nothing runs. Returns the pid of the process that now runs.
    pub fn dispatch(&mut self) -> (r: Option<String>)
        ensures
            final(self)@ == after_dispatch(old(self)@),
            r matches Some(pid) ==> final(self)@.running matches Some(p) && p.pid == pid,
            r is Some <==> (old(self)@.running is None && old(self)@.ready.len() > 0),
    {
        if self.current_running.is_some() || self.ready_queue.len() == 0 {
            return None;
        }
        let mut best: usize = 0;
        let mut i: usize = 1;
        while i < self.ready_queue.len()
            invariant
                1 <= i <= self.ready_queue@.len(),
                best < i,
                best == top_index(self.ready_queue@.subrange(0, i as int)),
            decreases self.ready_queue@.len() - i,
        {
            proof {
                let sub = self.ready_queue@.subrange(0, i + 1);
                assert(sub.drop_last() =~= self.ready_queue@.subrange(0, i as int));
            }
            if self.ready_queue[i].priority > self.ready_queue[best].priority {
                best = i;
            }
            i = i + 1;
        }
        proof {
            assert(self.ready_queue@.subrange(0, i as int) =~= self.ready_queue@);
        }
        let mut p = self.ready_queue.remove(best);
        p.state = ProcessState::Running;
        let pid = p.pid.clone();
        self.current_running = Some(p);
        Some(pid)
    }
}


/// Handing out the processor picks a ready process of the highest priority,
/// the one that has waited longest among those of that priority, and takes
/// it off the ready queue.
pub proof fn law_dispatch_runs_highest_priority(m: SchedulerModel)
    requires
        m.running is None,
        m.ready.len() > 0,
    ensures
        after_dispatch(m).running matches Some(p) && {
            &&& p.state == ProcessState::Running
            &&& forall|j: int| 0 <= j < m.ready.len() ==> #[trigger] m.ready[j].priority <= p.priority
            &&& exists|k: int|
                0 <= k < m.ready.len() && #[trigger] m.ready[k].pid == p.pid && (forall|j: int|
                    0 <= j < k ==> #[trigger] m.ready[j].priority < p.priority)
        },
        after_dispatch(m).ready.len() == m.ready.len() - 1,
        after_dispatch(m).waiting == m.waiting,
{
    lemma_top_index(m.ready);
    let k = top_index(m.ready);
    assert(m.ready[k].pid == with_state(m.ready[k], ProcessState::Running).pid);
}

/// Once a process runs, handing out the processor again changes nothing.
pub proof fn law_second_dispatch_is_idle(m: SchedulerModel)
    ensures
        after_dispatch(after_dispatch(m)) == after_dispatch(m),
{
}

/// A process registered while nothing runs, with a priority above every
/// ready process, is the one that runs next.
pub proof fn law_register_then_dispatch(m: SchedulerModel, p: PCB)
    requires
        m.running is None,
        forall|j: int| 0 <= j < m.ready.len() ==> #[trigger] m.ready[j].priority < p.priority,
    ensures
        after_dispatch(after_register(m, p)).running == Some(with_state(p, ProcessState::Running)),
        after_dispatch(after_register(m, p)).ready == m.ready,
{
    let q = after_register(m, p).ready;
    assert(q.drop_last() =~= m.ready);
    if m.ready.len() > 0 {
        lemma_top_index(m.ready);
        let k = top_index(m.ready);
        assert(m.ready[k].priority < p.priority);
    }
    assert(top_index(q) == m.ready.len());
    assert(q.remove(m.ready.len() as int) =~= m.ready);
}

/// When the running process ends, the processor is free and both queues
/// stay as they were.
pub proof fn law_terminate_frees_processor(m: SchedulerModel, p: PCB)
    requires
        m.running == Some(p),
    ensures
        after_terminate(m, p.pid@).running is None,
        after_terminate(m, p.pid@).ready == m.ready,
        after_terminate(m, p.pid@).waiting == m.waiting,
{
}

} // verus!
