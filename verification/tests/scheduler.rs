use ank_kernel::scheduler::{
    set_var, ModelPreference, ProcessState, Scheduler, SchedulerEvent, SchedulerNotice, PCB,
};

fn register(s: &mut Scheduler, name: &str, priority: u32) -> (String, SchedulerNotice) {
    let p = PCB::new(name.to_string(), priority, format!("Prompt of {}", name));
    let pid = p.pid.clone();
    let n = s.handle_event(SchedulerEvent::RegisterProcess(p));
    (pid, n)
}

fn terminate(s: &mut Scheduler, pid: &str) -> SchedulerNotice {
    s.handle_event(SchedulerEvent::ProcessTerminated { pid: pid.to_string(), success: true })
}

#[test]
fn test_scheduler_priority_and_preemption() {
    let mut s = Scheduler::new();

    let (med, n) = register(&mut s, "MedPriority", 5);
    assert_eq!(n, SchedulerNotice::Registered { preempts: false });
    assert_eq!(s.dispatch(), Some(med.clone()));

    // A critical process arriving while a lower one runs asks for preemption
    // and waits at the top of the ready queue.
    let (high, n) = register(&mut s, "HighPriority", 10);
    assert_eq!(n, SchedulerNotice::Registered { preempts: true });
    assert_eq!(s.dispatch(), None);

    assert_eq!(terminate(&mut s, &med), SchedulerNotice::Released);
    assert_eq!(s.dispatch(), Some(high));
}

#[test]
fn dispatch_is_first_come_first_served_among_equals() {
    let mut s = Scheduler::new();
    let (a, _) = register(&mut s, "A", 5);
    let (b, _) = register(&mut s, "B", 5);
    let (c, _) = register(&mut s, "C", 7);

    assert_eq!(s.dispatch(), Some(c.clone()));
    assert_eq!(terminate(&mut s, &c), SchedulerNotice::Released);
    assert_eq!(s.dispatch(), Some(a.clone()));
    assert_eq!(terminate(&mut s, &a), SchedulerNotice::Released);
    assert_eq!(s.dispatch(), Some(b.clone()));
    assert_eq!(terminate(&mut s, &b), SchedulerNotice::Released);
    assert_eq!(s.dispatch(), None);
}

#[test]
fn critical_process_does_not_preempt_a_critical_one() {
    let mut s = Scheduler::new();
    let (first, _) = register(&mut s, "First", 10);
    assert_eq!(s.dispatch(), Some(first));
    let (_, n) = register(&mut s, "Second", 10);
    assert_eq!(n, SchedulerNotice::Registered { preempts: false });
}

#[test]
fn nothing_runs_on_an_empty_queue() {
    let mut s = Scheduler::new();
    assert_eq!(s.dispatch(), None);
    let (_, n) = register(&mut s, "Alone", 10);
    // Nothing runs yet, so there is nothing to preempt.
    assert_eq!(n, SchedulerNotice::Registered { preempts: false });
}

#[test]
fn termination_of_another_process_changes_nothing() {
    let mut s = Scheduler::new();
    let (a, _) = register(&mut s, "A", 3);
    assert_eq!(s.dispatch(), Some(a.clone()));
    assert_eq!(terminate(&mut s, "proc_other"), SchedulerNotice::NotRunning);
    assert_eq!(s.dispatch(), None);
    assert_eq!(terminate(&mut s, &a), SchedulerNotice::Released);
}

#[test]
fn syscall_result_for_unknown_waiter_is_reported() {
    let mut s = Scheduler::new();
    let n = s.handle_event(SchedulerEvent::SyscallCompleted {
        pid: "proc_missing".to_string(),
        result: "42".to_string(),
    });
    assert_eq!(n, SchedulerNotice::UnknownWaiter);
}

#[test]
fn new_pcb_has_a_process_id_and_defaults() {
    let p = PCB::new("Task".to_string(), 7, "Do it".to_string());
    assert!(p.pid.starts_with("proc_"));
    assert_eq!(p.pid.len(), 5 + 36);
    assert_eq!(p.priority, 7);
    assert_eq!(p.state, ProcessState::New);
    assert_eq!(p.model_pref, ModelPreference::HybridSmart);
    assert_eq!(p.memory_pointers.l1_instruction, "Do it");
    assert!(p.tenant_id.is_none());
    let q = PCB::new("Task".to_string(), 7, "Do it".to_string());
    assert_ne!(p.pid, q.pid);
}

#[test]
fn registers_are_set_in_place_or_appended() {
    let mut vars: Vec<(String, String)> = Vec::new();
    set_var(&mut vars, "a".to_string(), "1".to_string());
    set_var(&mut vars, "b".to_string(), "2".to_string());
    set_var(&mut vars, "a".to_string(), "3".to_string());
    assert_eq!(
        vars,
        vec![("a".to_string(), "3".to_string()), ("b".to_string(), "2".to_string())]
    );
}

#[test]
fn listing_shows_a_tenant_its_own_processes() {
    let mut s = Scheduler::new();
    let mut a = PCB::new("A".to_string(), 1, "a".to_string());
    a.tenant_id = Some("t1".to_string());
    let mut b = PCB::new("B".to_string(), 9, "b".to_string());
    b.tenant_id = Some("t2".to_string());
    let mut c = PCB::new("C".to_string(), 5, "c".to_string());
    c.tenant_id = Some("t1".to_string());
    s.handle_event(SchedulerEvent::RegisterProcess(a));
    s.handle_event(SchedulerEvent::RegisterProcess(b));
    s.handle_event(SchedulerEvent::RegisterProcess(c));
    assert!(s.dispatch().is_some());

    let mine = s.list_processes("t1");
    assert_eq!(mine.len(), 2);
    assert_eq!(mine[0].process_name, "A");
    assert_eq!(mine[1].process_name, "C");
    let theirs = s.list_processes("t2");
    assert_eq!(theirs.len(), 1);
    assert_eq!(theirs[0].process_name, "B");
    assert_eq!(theirs[0].state, ank_kernel::server::WireState::Running);
    assert!(s.list_processes("t3").is_empty());
}
