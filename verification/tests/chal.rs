use ank_kernel::chal::{
    assemble_master_prompt, CloudCredentials, CognitiveHAL, DummyDriver, ExecutionError,
    LlamaNativeDriver, SystemError, SYSTEM_PROMPT_MASTER,
};
use ank_kernel::scheduler::{ModelPreference, PCB};

/// Registers both test drivers and answers as the routed one would.
fn run_routed(pcb: &PCB) -> Result<String, SystemError> {
    let mut hal = CognitiveHAL::new(None);
    hal.register_driver("local-driver");
    hal.register_driver("cloud-driver");
    let drivers = vec![
        ("local-driver", DummyDriver { name: "local".to_string() }),
        ("cloud-driver", DummyDriver { name: "cloud".to_string() }),
    ];
    let (id, _prompt) = hal.route(pcb, true, "", "")?;
    let driver = drivers.iter().find(|(k, _)| *k == id).map(|(_, d)| d).unwrap();
    Ok(driver.response())
}

#[test]
fn test_hybrid_smart_routing_high_priority() {
    let mut pcb = PCB::new("Complex Mission".to_string(), 10, "Complex Mission".to_string());
    pcb.model_pref = ModelPreference::HybridSmart;
    let tokens = vec![run_routed(&pcb)];
    assert_eq!(tokens.len(), 1);
    let response = tokens[0].as_ref().unwrap();
    assert!(
        response.contains("[cloud]"),
        "Debe haber seleccionado el driver cloud por alta prioridad"
    );
}

#[test]
fn test_hybrid_smart_routing_low_priority() {
    let mut pcb = PCB::new("Simple task".to_string(), 5, "Simple task".to_string());
    pcb.model_pref = ModelPreference::HybridSmart;
    let response = run_routed(&pcb).unwrap();
    assert!(
        response.contains("[local]"),
        "Debe haber seleccionado el driver local por baja prioridad"
    );
}

#[test]
fn long_instructions_go_to_the_cloud() {
    let hal = {
        let mut h = CognitiveHAL::new(None);
        h.register_driver("local-driver");
        h.register_driver("cloud-driver");
        h
    };
    let mut pcb = PCB::new("Long".to_string(), 1, "x".repeat(1001));
    pcb.model_pref = ModelPreference::HybridSmart;
    assert_eq!(hal.select_driver(pcb.model_pref, 1, 1001, true).unwrap(), "cloud-driver");
    assert_eq!(hal.select_driver(pcb.model_pref, 1, 1000, true).unwrap(), "local-driver");
    assert_eq!(hal.select_driver(pcb.model_pref, 8, 10, true).unwrap(), "local-driver");
    assert_eq!(hal.select_driver(pcb.model_pref, 9, 10, true).unwrap(), "cloud-driver");
    // Without a local engine built in, hybrid work falls back to the cloud.
    assert_eq!(hal.select_driver(pcb.model_pref, 1, 10, false).unwrap(), "cloud-driver");
}

#[test]
fn local_only_without_engine_is_a_hardware_failure() {
    let hal = CognitiveHAL::new(None);
    let e = hal.select_driver(ModelPreference::LocalOnly, 1, 1, false).unwrap_err();
    assert_eq!(
        e,
        SystemError::HardwareFailure(
            "Motor local no compilado. Reinicie con feature 'local_llm' o use Cloud.".to_string()
        )
    );
}

#[test]
fn missing_drivers_are_named() {
    let hal = CognitiveHAL::new(None);
    assert_eq!(
        hal.select_driver(ModelPreference::CloudOnly, 1, 1, true).unwrap_err(),
        SystemError::HardwareFailure("Driver cloud no configurado o sin credenciales.".to_string())
    );
    assert_eq!(
        hal.select_driver(ModelPreference::LocalOnly, 1, 1, true).unwrap_err(),
        SystemError::DriverOffline("local-driver".to_string())
    );
}

#[test]
fn cloud_credentials_register_the_cloud_driver() {
    let mut hal = CognitiveHAL::new(None);
    assert!(!hal.contains("cloud-driver"));
    hal.update_cloud_credentials(
        "https://api.example.com".to_string(),
        "model-x".to_string(),
        "SECRET-REDACTED".to_string(),
    );
    assert!(hal.contains("cloud-driver"));
    assert_eq!(hal.select_driver(ModelPreference::CloudOnly, 1, 1, true).unwrap(), "cloud-driver");

    let with_env = CognitiveHAL::new(Some(CloudCredentials {
        api_url: "u".to_string(),
        model: "m".to_string(),
        api_key: "k".to_string(),
    }));
    assert!(with_env.contains("cloud-driver"));
}

#[test]
fn routed_prompt_frames_the_instruction() {
    let mut hal = CognitiveHAL::new(None);
    hal.register_driver("cloud-driver");
    let mut pcb = PCB::new("P".to_string(), 1, "Summarize".to_string());
    pcb.model_pref = ModelPreference::CloudOnly;
    let (id, prompt) = hal.route(&pcb, false, "TOOLS", "MCP").unwrap();
    assert_eq!(id, "cloud-driver");
    assert_eq!(
        prompt,
        format!("{}\nTOOLS\nMCP\n\n[USER_PROCESS_INSTRUCTION]\nSummarize", SYSTEM_PROMPT_MASTER)
    );
    assert_eq!(prompt, assemble_master_prompt("TOOLS", "MCP", "Summarize"));
}

#[test]
fn dummy_and_native_drivers() {
    let d = DummyDriver { name: "x".to_string() };
    assert_eq!(d.response(), "[x] OK");
    assert!(d.health_status().is_ready);
    let n = LlamaNativeDriver::new(0, 2048).unwrap();
    assert!(!n.health_status().is_ready);
    assert_eq!(
        n.generate("hi"),
        SystemError::ModelNotFound("Native driver disabled for tests".to_string())
    );
}

#[test]
fn error_messages() {
    assert_eq!(
        SystemError::DriverOffline("d".to_string()).message(),
        "Driver Offline: the inference engine d is not responding"
    );
    assert_eq!(SystemError::VramExhausted.message(), "VRAM Exhausted: cannot load model or process prompt");
    assert_eq!(ExecutionError::Timeout.message(), "Processing Timeout");
    assert_eq!(ExecutionError::Interrupted("x".to_string()).message(), "Stream Interrupted: x");
}

#[test]
fn remaining_error_messages() {
    assert_eq!(SystemError::ModelNotFound("m".to_string()).message(), "Model Not Found: m");
    assert_eq!(SystemError::HardwareFailure("h".to_string()).message(), "Hardware Failure: h");
    assert_eq!(SystemError::DecisionError("d".to_string()).message(), "Decision Error: d");
    assert_eq!(
        ExecutionError::SafetyViolation.message(),
        "Safety Violation: Content blocked by filter"
    );
}
