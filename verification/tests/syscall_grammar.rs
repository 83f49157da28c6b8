use ank_kernel::plugins::{plan_plugin_input, PluginManager};
use ank_kernel::syscalls::{
    parse_syscall, plan_syscall, plugin_failure, plugin_result_text, read_failure,
    read_result_text, write_failure, write_result_text, CommitMetadata, InterceptorResult,
    StreamInterceptor, Syscall, SyscallError, SyscallPlan,
};

#[test]
fn test_parse_plugin_call() {
    let stream = "El resultado es: [SYS_CALL_PLUGIN(\"weather\", {\"city\": \"Paris\"})]";
    let syscall = parse_syscall(stream).expect("Should parse plugin call");

    if let Syscall::PluginCall {
        plugin_name,
        args_json,
    } = syscall
    {
        assert_eq!(plugin_name, "weather");
        assert_eq!(args_json, "{\"city\": \"Paris\"}");
    } else {
        panic!("Wrong syscall type");
    }
}

#[test]
fn test_parse_read_file() {
    let stream = "Necesito ver el código: [READ_FILE(\"src/main.rs\")]";
    let syscall = parse_syscall(stream).expect("Should parse read call");

    if let Syscall::ReadFile { uri } = syscall {
        assert_eq!(uri, "src/main.rs");
    } else {
        panic!("Wrong syscall type");
    }
}

#[test]
fn test_parse_write_file() {
    let stream = "[WRITE_FILE(\"output.txt\", \"Hello World\", {\"task_id\": \"ANK-101\", \"version_increment\": \"patch\", \"summary\": \"test\", \"impact\": \"low\"})]";
    let syscall = parse_syscall(stream).expect("Should parse write call");

    if let Syscall::WriteFile { uri, content, .. } = syscall {
        assert_eq!(uri, "output.txt");
        assert_eq!(content, "Hello World");
    } else {
        panic!("Wrong syscall type");
    }
}

#[test]
fn write_metadata_is_read_from_its_json() {
    let stream = "[WRITE_FILE(\"a.txt\", \"x\", {\"task_id\": \"T1\", \"version_increment\": \"minor\", \"summary\": \"s\", \"impact\": \"high\", \"extra\": 1})]";
    match parse_syscall(stream) {
        Some(Syscall::WriteFile { metadata, .. }) => {
            assert_eq!(metadata.task_id, "T1");
            assert_eq!(metadata.version_increment, "minor");
            assert_eq!(metadata.summary, "s");
            assert_eq!(metadata.impact, "high");
        }
        other => panic!("unexpected {:?}", other),
    }
}

#[test]
fn write_with_incomplete_metadata_is_not_a_syscall() {
    let stream = "[WRITE_FILE(\"a.txt\", \"x\", {\"task_id\": \"T1\"})]";
    assert_eq!(parse_syscall(stream), None);
}

#[test]
fn write_content_is_the_shortest_that_fits() {
    let stream = "[WRITE_FILE(\"a\", \"x\", \"y\", {\"task_id\": \"t\", \"version_increment\": \"v\", \"summary\": \"s\", \"impact\": \"i\"})]";
    match parse_syscall(stream) {
        Some(Syscall::WriteFile { content, .. }) => assert_eq!(content, "x\", \"y"),
        other => panic!("unexpected {:?}", other),
    }
}

#[test]
fn write_whose_metadata_is_not_json_is_not_a_syscall() {
    // The shortest content is "one"; what follows as metadata is not JSON.
    let stream = "[WRITE_FILE(\"a\", \"one\", {}\", {\"task_id\": \"t\", \"version_increment\": \"v\", \"summary\": \"s\", \"impact\": \"i\"})]";
    assert_eq!(parse_syscall(stream), None);
}

#[test]
fn plugin_call_is_preferred_over_read() {
    let stream = "[READ_FILE(\"x\")] then [SYS_CALL_PLUGIN(\"p\",{})]";
    match parse_syscall(stream) {
        Some(Syscall::PluginCall { plugin_name, args_json }) => {
            assert_eq!(plugin_name, "p");
            assert_eq!(args_json, "{}");
        }
        other => panic!("unexpected {:?}", other),
    }
}

#[test]
fn plugin_arguments_stop_at_the_first_close() {
    let stream = "[SYS_CALL_PLUGIN(\"p\",\t {\"a\": {\"b\": 1}})] trailing })]";
    match parse_syscall(stream) {
        Some(Syscall::PluginCall { args_json, .. }) => assert_eq!(args_json, "{\"a\": {\"b\": 1}}"),
        other => panic!("unexpected {:?}", other),
    }
}

#[test]
fn plugin_arguments_do_not_cross_a_line_break() {
    assert_eq!(parse_syscall("[SYS_CALL_PLUGIN(\"p\", {\n})]"), None);
}

#[test]
fn empty_name_is_not_a_syscall() {
    assert_eq!(parse_syscall("[READ_FILE(\"\")]"), None);
    assert_eq!(parse_syscall("plain text"), None);
}

#[test]
fn interceptor_waits_for_the_whole_call() {
    let mut i = StreamInterceptor::new();
    assert_eq!(i.push_token("Hola "), InterceptorResult::Continue);
    assert_eq!(i.push_token("[READ"), InterceptorResult::PossibleSyscall);
    assert_eq!(i.push_token("_FILE(\"a.md\""), InterceptorResult::PossibleSyscall);
    assert_eq!(
        i.push_token(")]"),
        InterceptorResult::SyscallReady(Syscall::ReadFile { uri: "a.md".to_string() })
    );
    assert_eq!(i.buffer(), "Hola [READ_FILE(\"a.md\")]");
}

#[test]
fn interceptor_keeps_the_last_window_of_bytes() {
    let mut i = StreamInterceptor::new();
    let chunk = "a".repeat(1000);
    assert_eq!(i.push_token(&chunk), InterceptorResult::Continue);
    assert_eq!(i.push_token(&chunk), InterceptorResult::Continue);
    assert_eq!(i.buffer().len(), 1024);
}

#[test]
fn interceptor_cuts_the_window_at_a_character_boundary() {
    let mut i = StreamInterceptor::new();
    assert_eq!(i.push_token("é"), InterceptorResult::Continue);
    let token = "a".repeat(1023);
    // 1025 bytes: the cut at byte 1 falls inside "é", so it moves to byte 2.
    assert_eq!(i.push_token(&token), InterceptorResult::Continue);
    assert_eq!(i.buffer(), token);
    assert!(i.buffer().len() <= 1024);
}

#[test]
fn test_syscall_execution_format() {
    let manager = PluginManager::new().unwrap();
    let syscall = Syscall::PluginCall {
        plugin_name: "non_existent".to_string(),
        args_json: "{}".to_string(),
    };
    let res = match plan_syscall(&None, syscall).unwrap() {
        SyscallPlan::RunPlugin { plugin_name, args_json, .. } => {
            plan_plugin_input(&manager, &plugin_name, &args_json).map_err(|e| plugin_failure(&e))
        }
        _ => panic!("a plugin call runs a plugin"),
    };
    assert!(matches!(res, Err(SyscallError::PluginError(_))));
    assert_eq!(
        res.err().unwrap().message(),
        "Plugin Execution Failed: Function Not Found: Plugin non_existent not loaded"
    );
}

#[test]
fn call_in_the_taught_format_is_read_back() {
    let text = "[SYS_CALL_PLUGIN(\"std_fs\", {\"action\": \"list_dir\"})]";
    match parse_syscall(text) {
        Some(Syscall::PluginCall { plugin_name, args_json }) => {
            assert_eq!(plugin_name, "std_fs");
            assert_eq!(args_json, "{\"action\": \"list_dir\"}");
        }
        _ => panic!("the master prompt's own format must parse"),
    }
}

#[test]
fn syscalls_are_planned_in_the_tenant_workspace() {
    match plan_syscall(&Some("t7".to_string()), Syscall::ReadFile { uri: "file://src/main.rs".to_string() }).unwrap() {
        SyscallPlan::ReadWorkspaceFile { uri, path } => {
            assert_eq!(uri, "file://src/main.rs");
            assert_eq!(path, "./users/t7/workspace/src/main.rs");
        }
        _ => panic!("a read reads the workspace"),
    }
    match plan_syscall(&None, Syscall::ReadFile { uri: "notes.txt".to_string() }).unwrap() {
        SyscallPlan::ReadWorkspaceFile { path, .. } => assert_eq!(path, "./users/default/workspace/notes.txt"),
        _ => panic!("a read reads the workspace"),
    }
    let metadata = CommitMetadata {
        task_id: "T1".to_string(),
        version_increment: "patch".to_string(),
        summary: "s".to_string(),
        impact: "i".to_string(),
    };
    match plan_syscall(
        &None,
        Syscall::WriteFile { uri: "file://out.txt".to_string(), content: "Hi".to_string(), metadata },
    )
    .unwrap()
    {
        SyscallPlan::CommitWrite { tenant_id, uri, file_path, content, metadata } => {
            assert_eq!(tenant_id, "default");
            assert_eq!(uri, "file://out.txt");
            assert_eq!(file_path, "out.txt");
            assert_eq!(content, "Hi");
            assert_eq!(metadata.task_id, "T1");
        }
        _ => panic!("a write is committed"),
    }
}

#[test]
fn syscall_results_and_failures() {
    assert_eq!(plugin_result_text("42"), "[SYSTEM_RESULT: 42]");
    assert_eq!(read_result_text("a.txt", "body"), "[SYSTEM_RESULT: Content of a.txt]\nbody");
    assert_eq!(write_result_text("b.txt"), "[SYSTEM_RESULT: File b.txt written and committed to Git]");
    assert_eq!(
        read_failure("a.txt", "No such file").message(),
        "IO Error: Read failed for a.txt: No such file"
    );
    assert_eq!(write_failure("locked").message(), "IO Error: Scribe write failed: locked");
    assert_eq!(
        SyscallError::AccessDenied("x".to_string()).message(),
        "File Access Denied: x"
    );
    assert_eq!(
        SyscallError::SecurityViolation("y".to_string()).message(),
        "Security Violation (SSRF Guard): y"
    );
    assert_eq!(
        SyscallError::InternalError("z".to_string()).message(),
        "Internal Kernel Error: z"
    );
}

#[test]
fn syscalls_that_leave_the_workspace_are_refused() {
    let read = plan_syscall(&None, Syscall::ReadFile { uri: "file://../../etc/passwd".to_string() });
    assert_eq!(read.err(), Some(SyscallError::AccessDenied("../../etc/passwd".to_string())));
    let abs = plan_syscall(&Some("t1".to_string()), Syscall::ReadFile { uri: "/etc/passwd".to_string() });
    assert_eq!(
        abs.err().unwrap().message(),
        "File Access Denied: /etc/passwd"
    );
    let metadata = CommitMetadata {
        task_id: "T".to_string(),
        version_increment: "patch".to_string(),
        summary: "s".to_string(),
        impact: "i".to_string(),
    };
    let write = plan_syscall(
        &None,
        Syscall::WriteFile { uri: "file://a/../../x".to_string(), content: String::new(), metadata },
    );
    assert_eq!(write.err(), Some(SyscallError::AccessDenied("a/../../x".to_string())));
}
