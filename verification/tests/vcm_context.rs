use ank_kernel::paths::is_safe_path;
use ank_kernel::vcm::{
    estimate_tokens, next_l2_file, resolve_l2_reference, LanceSwapManager, SwapError, VCMError,
    VirtualContextManager, SYSTEM_INSTRUCTIONS,
};

fn is_uuid_text(s: &str) -> bool {
    s.len() == 36
        && s.char_indices().all(|(i, c)| {
            if i == 8 || i == 13 || i == 18 || i == 23 {
                c == '-'
            } else {
                c.is_ascii_hexdigit() && !c.is_ascii_uppercase()
            }
        })
}

#[test]
fn test_path_traversal_audit() {
    assert!(is_safe_path("tenant_1", "docs/contract.md"));
    assert!(!is_safe_path("tenant_1", "../etc/passwd"));
    assert!(!is_safe_path("tenant_1", "/absolute/path"));
}

#[test]
fn path_audit_counts_depth() {
    assert!(is_safe_path("t", "a/../b"));
    assert!(is_safe_path("t", "./a/./b/"));
    assert!(!is_safe_path("t", "a/../../b"));
    assert!(is_safe_path("t", ""));
    assert!(!is_safe_path("t", ".."));
}

#[test]
fn test_assemble_basic_context() {
    let vcm = VirtualContextManager::new();
    let _swap = LanceSwapManager::new("./test_users");
    let window = vcm.begin_context("Summarize this", 1000).unwrap();
    let context = window.finish();

    assert!(context.contains("SYSTEM: Aegis Neural Kernel VCM"));
    assert!(context.contains("Summarize this"));
    assert_eq!(context, format!("{}\n\n## INSTRUCTION\nSummarize this\n", SYSTEM_INSTRUCTIONS));
}

#[test]
fn test_vcm_file_omission_on_overflow() {
    let vcm = VirtualContextManager::new();
    let large_content = "X".repeat(2000);
    let file_name = "test_overflow_dummy.txt";
    let reference = format!("file://{}", file_name);

    let mut window = vcm.begin_context("Small task", 100).unwrap();
    let file = resolve_l2_reference("default", &reference).unwrap().unwrap();
    assert_eq!(file.path_part, file_name);
    assert_eq!(file.full_path, "./users/default/workspace/test_overflow_dummy.txt");
    let admitted = window.admit_file(&reference, large_content.len() as u64);
    assert!(admitted.is_none());
    let context = window.finish();

    assert!(
        context.contains("omitido por falta de memoria")
            || context.contains("omitido por tamaño excesivo")
    );
    assert!(!context.contains(&large_content));
    assert!(context.contains("Small task"));
}

#[test]
fn test_vcm_l3_memory_injection() {
    let vcm = VirtualContextManager::new();
    let swap = LanceSwapManager::new("./test_users");
    let window = vcm.begin_context("Check memory", 1000).unwrap();
    assert!(window.wants_memory(1));
    assert!(swap.init_tenant("default").is_ok());
    // The store keeps no vectors yet: the search finds nothing to add.
    let context = window.finish();
    assert!(context.contains("Check memory"));
    assert!(!context.contains("L3 SEMANTIC MEMORY"));
}

#[test]
fn window_over_budget_from_the_start_is_refused() {
    let vcm = VirtualContextManager::new();
    // 42 + 3 + 2 + 4 tokens are needed before anything is attached.
    assert!(vcm.begin_context("Small task", 51).is_ok());
    match vcm.begin_context("Small task", 50) {
        Err(e) => assert_eq!(e, VCMError::ContextOverflow(50)),
        Ok(_) => panic!("the window cannot hold its own instruction"),
    }
}

#[test]
fn oversized_file_is_noted_as_too_large() {
    let vcm = VirtualContextManager::new();
    let mut window = vcm.begin_context("T", 10_000_000).unwrap();
    assert!(window.admit_file("file://big.bin", 2_097_153).is_none());
    let context = window.finish();
    assert!(context.contains(
        "## ATTACHED CONTEXT\n[SYSTEM: file://big.bin omitido por tamaño excesivo]\n\n## INSTRUCTION\nT\n"
    ));
}

#[test]
fn admitted_file_and_fragment_are_attached_in_order() {
    let vcm = VirtualContextManager::new();
    let mut window = vcm.begin_context("Go", 1000).unwrap();
    let admission = window.admit_file("file://a.txt", 8).unwrap();
    window.add_file(admission, "a.txt", "contents");
    assert!(window.add_fragment("m1", "remembered"));
    assert!(!window.budget_spent());
    let context = window.finish();
    assert_eq!(
        context,
        format!(
            "{}\n\n## ATTACHED CONTEXT\n[File: a.txt]\ncontents\n\n## L3 SEMANTIC MEMORY\n[Memory ID: m1]\nremembered\n\n## INSTRUCTION\nGo\n",
            SYSTEM_INSTRUCTIONS
        )
    );
}

#[test]
fn fragment_over_budget_is_refused() {
    let vcm = VirtualContextManager::new();
    // The base of this window is 49 tokens; a fragment costs its tokens + 20.
    let mut window = vcm.begin_context("", 69).unwrap();
    assert!(window.add_fragment("m", "abc"));
    assert!(!window.add_fragment("n", "abcd"));
    assert!(window.budget_spent());
    assert!(!window.wants_memory(3));
}

#[test]
fn references_outside_the_workspace_are_refused() {
    match resolve_l2_reference("t", "file://../secret") {
        Err(e) => {
            assert_eq!(e, VCMError::PathTraversalDetected("../secret".to_string()));
            assert_eq!(
                e.message(),
                "Path Traversal Detected: attempt to access ../secret outside sandbox"
            );
        }
        _ => panic!("a path above the workspace must be refused"),
    }
    assert!(resolve_l2_reference("t", "https://example.com").unwrap().is_none());
}

#[test]
fn vcm_error_messages() {
    assert_eq!(
        VCMError::ContextOverflow(100).message(),
        "Context Overflow: assembled context exceeds limit of 100 tokens"
    );
    assert_eq!(
        VCMError::FileTooLarge("f".to_string(), 3000000).message(),
        "File too large: f exceeds 3000000 bytes"
    );
    assert_eq!(VCMError::FileNotFound("f".to_string()).message(), "File Not Found: f");
    assert_eq!(VCMError::IOError("x".to_string()).message(), "IO Error: x");
}

#[test]
fn token_estimate_is_a_quarter_of_the_bytes() {
    assert_eq!(estimate_tokens(""), 0);
    assert_eq!(estimate_tokens("abc"), 0);
    assert_eq!(estimate_tokens("abcd"), 1);
    assert_eq!(estimate_tokens("ñññ"), 1);
}

#[test]
fn swap_paths_and_ids() {
    let swap = LanceSwapManager::new("./users");
    assert_eq!(swap.compute_db_path("t1"), "./users/t1/.aegis_swap");
    let id = swap.store_fragment("t1", "text").unwrap();
    assert!(is_uuid_text(&id));
    let other = swap.store_fragment("t1", "text").unwrap();
    assert_ne!(id, other);
    assert_eq!(SwapError::StorageError("x".to_string()).message(), "Storage Error: x");
    assert_eq!(SwapError::ConnectionError("c".to_string()).message(), "LanceDB Connection Error: c");
    assert_eq!(SwapError::TableNotFound("t".to_string()).message(), "Table Not Found: t");
    assert_eq!(SwapError::SearchError("s".to_string()).message(), "Search Error: s");
    assert_eq!(SwapError::SerializationError("z".to_string()).message(), "Serialization Error: z");
}

#[test]
fn attached_files_are_taken_in_order_and_stop_at_a_traversal() {
    let refs: Vec<String> = vec![
        "mem://note".to_string(),
        "file://a.txt".to_string(),
        "https://x".to_string(),
        "file://../../etc/passwd".to_string(),
        "file://b.txt".to_string(),
    ];
    let (i, f) = next_l2_file("t1", &refs, 0).unwrap().unwrap();
    assert_eq!(i, 1);
    assert_eq!(f.path_part, "a.txt");
    assert_eq!(f.full_path, "./users/t1/workspace/a.txt");
    match next_l2_file("t1", &refs, 2) {
        Err(VCMError::PathTraversalDetected(p)) => assert_eq!(p, "../../etc/passwd"),
        _ => panic!("a path leaving the workspace stops the assembly"),
    }
    let (i, f) = next_l2_file("t1", &refs, 4).unwrap().unwrap();
    assert_eq!(i, 4);
    assert_eq!(f.path_part, "b.txt");
    assert!(next_l2_file("t1", &refs, 5).unwrap().is_none());
    assert!(next_l2_file("t1", &refs[..1].to_vec(), 0).unwrap().is_none());
}
