use ank_kernel::syscalls::{syscall_error_from_plugin, SyscallError};
use ank_kernel::plugins::{
    download_target, guard_resolved_addresses, plan_plugin_input, plugin_name_from_path,
    engine_settings, IpAddress, Optimization, PluginError, PluginInput, PluginManager,
    PluginMetadata, ResolvedAddress, PLUGIN_MEMORY_RESERVATION_BYTES,
};

/// A module that exports an empty `_start`.
const START_MODULE: [u8; 37] = [
    0x00, 0x61, 0x73, 0x6d, 0x01, 0x00, 0x00, 0x00, 0x01, 0x04, 0x01, 0x60, 0x00, 0x00, 0x03,
    0x02, 0x01, 0x00, 0x07, 0x0a, 0x01, 0x06, 0x5f, 0x73, 0x74, 0x61, 0x72, 0x74, 0x00, 0x00,
    0x0a, 0x05, 0x01, 0x03, 0x00, 0x00, 0x0b,
];

fn addr(a: u8, b: u8, c: u8, d: u8) -> ResolvedAddress {
    ResolvedAddress { ip: IpAddress::V4(a, b, c, d), text: format!("{}.{}.{}.{}", a, b, c, d) }
}

#[test]
fn test_plugin_manager_init() {
    let manager = PluginManager::new();
    assert!(manager.is_ok());
}

#[test]
fn loaded_plugins_are_named_after_their_file() {
    let mut m = PluginManager::new().unwrap();
    assert_eq!(m.get_available_tools_prompt(), "No hay plugins Wasm cargados actualmente.");
    m.load_plugin("./plugins/std_sys.wasm", &START_MODULE).unwrap();
    assert!(m.is_loaded("std_sys"));
    assert!(m.module("std_sys").is_some());
    assert!(m.module("std_fs").is_none());
    assert_eq!(
        m.get_available_tools_prompt(),
        "HERRAMIENTAS (PLUGINS) DISPONIBLES:\n- std_sys: Obtiene la fecha y hora actual del sistema en formato UTC. -> Uso: [SYS_CALL_PLUGIN(\"std_sys\", {\"action\": \"get_time\"})]\n"
    );
    // Loading the same name again replaces the plugin.
    m.load_plugin("other/std_sys.wasm", &START_MODULE).unwrap();
    assert_eq!(m.get_available_tools_prompt().lines().count(), 2);
    m.load_plugin("x/custom.wasm", &START_MODULE).unwrap();
    assert!(m.get_available_tools_prompt().ends_with(
        "- custom: ANK Wasm Plugin (Metadata pendiente) -> Uso: [SYS_CALL_PLUGIN(\"custom\", {})]\n"
    ));
}

#[test]
fn bad_modules_and_paths_are_refused() {
    let mut m = PluginManager::new().unwrap();
    match m.load_plugin("bad.wasm", &[0, 1, 2, 3]) {
        Err(PluginError::CompilationFailed(_)) => {}
        _ => panic!("bytes that are not a module must not compile"),
    }
    assert!(!m.is_loaded("bad"));
    assert_eq!(
        m.load_plugin("/", &START_MODULE),
        Err(PluginError::IOError("Invalid plugin path".to_string()))
    );
    assert_eq!(plugin_name_from_path("dir/std_net.wasm").unwrap(), "std_net");
    assert_eq!(plugin_name_from_path("archive.tar.gz").unwrap(), "archive.tar");
    assert_eq!(plugin_name_from_path(".hidden").unwrap(), ".hidden");
}

#[test]
fn metadata_of_known_plugins() {
    let m = PluginMetadata::for_plugin("std_net");
    assert_eq!(m.description, "Acceso a red seguro: descarga e interpreta el contenido de una URL.");
    assert_eq!(m.parameter_example, "{\"action\": \"fetch\", \"url\": \"https://example.com\"}");
    assert_eq!(m.version, "1.0.0");
    assert_eq!(m.author, "Aegis Kernel Team");
}

#[test]
fn plugin_input_is_planned_per_plugin() {
    let mut m = PluginManager::new().unwrap();
    m.load_plugin("std_net.wasm", &START_MODULE).unwrap();
    m.load_plugin("std_fs.wasm", &START_MODULE).unwrap();

    assert_eq!(
        plan_plugin_input(&m, "weather", "{}").err(),
        Some(PluginError::FunctionNotFound("Plugin weather not loaded".to_string()))
    );
    match plan_plugin_input(&m, "std_fs", "{\"action\": \"list_dir\"}").unwrap() {
        PluginInput::Direct(s) => assert_eq!(s, "{\"action\": \"list_dir\"}"),
        _ => panic!("std_fs gets its JSON as it is"),
    }
    match plan_plugin_input(&m, "std_net", "{\"url\": \"https://example.com\"}").unwrap() {
        PluginInput::FetchThenRun(u) => assert_eq!(u, "https://example.com"),
        _ => panic!("std_net gets the page of its url"),
    }
    assert_eq!(
        plan_plugin_input(&m, "std_net", "{\"action\": \"fetch\"}").err(),
        Some(PluginError::ExecutionFailed("std_net requires 'url' parameter".to_string()))
    );
    match plan_plugin_input(&m, "std_net", "not json") {
        Err(PluginError::ExecutionFailed(msg)) => assert!(msg.starts_with("Invalid JSON for std_net: ")),
        _ => panic!("invalid JSON must be refused"),
    }
}

#[test]
fn test_ssrf_guard_blocking() {
    let t1 = download_target("http://127.0.0.1:8080/admin").unwrap();
    assert_eq!(t1, "127.0.0.1:8080");
    assert!(guard_resolved_addresses(&vec![addr(127, 0, 0, 1)]).is_err());

    let t2 = download_target("http://192.168.1.1/config").unwrap();
    assert_eq!(t2, "192.168.1.1:80");
    let refused = guard_resolved_addresses(&vec![addr(192, 168, 1, 1)]).unwrap_err();
    // Seen from the syscall layer the refusal stays a security violation.
    assert!(matches!(syscall_error_from_plugin(&refused), SyscallError::SecurityViolation(_)));
    let dns = PluginError::IOError("DNS Resolution failed".to_string());
    assert!(matches!(syscall_error_from_plugin(&dns), SyscallError::IOError(_)));
}

#[test]
fn guard_messages_name_the_refused_address() {
    assert_eq!(
        guard_resolved_addresses(&vec![addr(8, 8, 8, 8), addr(127, 0, 0, 1)]),
        Err(PluginError::SecurityViolation(
            "SSRF Guard: Loopback/Internal access denied for 127.0.0.1".to_string()
        ))
    );
    assert_eq!(
        guard_resolved_addresses(&vec![addr(10, 1, 2, 3)]),
        Err(PluginError::SecurityViolation(
            "SSRF Guard: Private/Local network access denied for 10.1.2.3".to_string()
        ))
    );
    let v6 = ResolvedAddress { ip: IpAddress::V6(0xfd00, 0, 0, 0, 0, 0, 0, 1), text: "fd00::1".to_string() };
    assert_eq!(
        guard_resolved_addresses(&vec![v6]),
        Err(PluginError::SecurityViolation("SSRF Guard: Private IPv6 access denied for fd00::1".to_string()))
    );
    assert!(guard_resolved_addresses(&vec![addr(8, 8, 8, 8), addr(1, 1, 1, 1)]).is_ok());
    assert!(guard_resolved_addresses(&vec![addr(172, 32, 0, 1)]).is_ok());
    assert!(guard_resolved_addresses(&vec![addr(172, 31, 0, 1)]).is_err());
    assert!(guard_resolved_addresses(&vec![addr(0, 0, 0, 0)]).is_err());
    assert!(guard_resolved_addresses(&vec![]).is_ok());
}

#[test]
fn download_targets() {
    assert_eq!(download_target("https://example.com/a").unwrap(), "example.com:443");
    match download_target("not a url") {
        Err(PluginError::SecurityViolation(m)) => assert!(m.starts_with("Invalid URL: ")),
        _ => panic!("a text that is not a URL is refused"),
    }
    assert_eq!(
        download_target("data:text/plain,hi"),
        Err(PluginError::SecurityViolation("Missing host in URL".to_string()))
    );
}

#[test]
fn plugin_error_messages() {
    assert_eq!(PluginError::OutOfFuel.message(), "Out of Fuel: The plugin exceeded its CPU budget");
    assert_eq!(PluginError::IOError("x".to_string()).message(), "IO Error: x");
    assert_eq!(
        PluginError::ExecutionFailed("y".to_string()).message(),
        "Plugin Execution Failed: y"
    );
}

#[test]
fn remaining_plugin_error_messages() {
    assert_eq!(PluginError::CompilationFailed("c".to_string()).message(), "Compilation Failed: c");
    assert_eq!(PluginError::SecurityViolation("s".to_string()).message(), "Security Violation: s");
    assert_eq!(PluginError::FunctionNotFound("f".to_string()).message(), "Function Not Found: f");
    assert_eq!(PluginError::ExecutionTrap("t".to_string()).message(), "Execution Trap: t");
}

#[test]
fn mapped_ipv4_addresses_are_judged_as_ipv4() {
    let mapped = |a: u16, b: u16, text: &str| ResolvedAddress {
        ip: IpAddress::V6(0, 0, 0, 0, 0, 0xffff, a, b),
        text: text.to_string(),
    };
    assert_eq!(
        guard_resolved_addresses(&vec![mapped(0x7f00, 0x0001, "::ffff:127.0.0.1")]),
        Err(PluginError::SecurityViolation(
            "SSRF Guard: Loopback/Internal access denied for ::ffff:127.0.0.1".to_string()
        ))
    );
    assert_eq!(
        guard_resolved_addresses(&vec![mapped(0xc0a8, 0x0101, "::ffff:192.168.1.1")]),
        Err(PluginError::SecurityViolation(
            "SSRF Guard: Private/Local network access denied for ::ffff:192.168.1.1".to_string()
        ))
    );
    assert!(guard_resolved_addresses(&vec![mapped(0x0808, 0x0808, "::ffff:8.8.8.8")]).is_ok());
    let loopback6 = ResolvedAddress { ip: IpAddress::V6(0, 0, 0, 0, 0, 0, 0, 1), text: "::1".to_string() };
    assert!(guard_resolved_addresses(&vec![loopback6]).is_err());
}

#[test]
fn kernel_engine_settings() {
    let s = engine_settings();
    assert!(s.async_support);
    assert!(s.consume_fuel);
    assert_eq!(s.optimization, Optimization::Speed);
    assert_eq!(s.memory_reservation, PLUGIN_MEMORY_RESERVATION_BYTES);
    assert_eq!(PLUGIN_MEMORY_RESERVATION_BYTES, 512 * 1024 * 1024);
}
