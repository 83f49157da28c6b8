//! Cognitive hardware abstraction layer: the errors and status of inference
//! drivers, the drivers that need no engine, and the routing policy that
//! picks a driver for a process.
use vstd::prelude::*;
use crate::scheduler::{ModelPreference, PCB};
use crate::text::{byte_len, concat2, concat3, owned, str_eq};

verus! {

/// Failures of the inference hardware.
#[derive(Debug, Clone, PartialEq)]
pub enum SystemError {
    VramExhausted,
    DriverOffline(String),
    ModelNotFound(String),
    HardwareFailure(String),
    DecisionError(String),
}

impl SystemError {
    pub fn message(&self) -> (m: String)
        ensures
            m@ == match *self {
                SystemError::VramExhausted => "VRAM Exhausted: cannot load model or process prompt"@,
                SystemError::DriverOffline(d) => "Driver Offline: the inference engine "@ + d@
                    + " is not responding"@,
                SystemError::ModelNotFound(d) => "Model Not Found: "@ + d@,
                SystemError::HardwareFailure(d) => "Hardware Failure: "@ + d@,
                SystemError::DecisionError(d) => "Decision Error: "@ + d@,
            },
    {
        match self {
            SystemError::VramExhausted => owned("VRAM Exhausted: cannot load model or process prompt"),
            SystemError::DriverOffline(d) => concat3(
                "Driver Offline: the inference engine ",
                d.as_str(),
                " is not responding",
            ),
            SystemError::ModelNotFound(d) => concat2("Model Not Found: ", d.as_str()),
            SystemError::HardwareFailure(d) => concat2("Hardware Failure: ", d.as_str()),
            SystemError::DecisionError(d) => concat2("Decision Error: ", d.as_str()),
        }
    }
}

/// Failures while a stream of tokens is produced.
#[derive(Debug, Clone, PartialEq)]
pub enum ExecutionError {
    Interrupted(String),
    SafetyViolation,
    Timeout,
}

impl ExecutionError {
    pub fn message(&self) -> (m: String)
        ensures
            m@ == match *self {
                ExecutionError::Interrupted(d) => "Stream Interrupted: "@ + d@,
                ExecutionError::SafetyViolation => "Safety Violation: Content blocked by filter"@,
                ExecutionError::Timeout => "Processing Timeout"@,
            },
    {
        match self {
            ExecutionError::Interrupted(d) => concat2("Stream Interrupted: ", d.as_str()),
            ExecutionError::SafetyViolation => owned("Safety Violation: Content blocked by filter"),
            ExecutionError::Timeout => owned("Processing Timeout"),
        }
    }
}

/// Health of a driver.
#[derive(Debug, Clone)]
pub struct DriverStatus {
    pub is_ready: bool,
    pub vram_usage_bytes: u64,
    pub active_models: Vec<String>,
}

impl DriverStatus {
    /// No engine ready, nothing in memory.
    pub fn idle() -> (s: DriverStatus)
        ensures
            !s.is_ready,
            s.vram_usage_bytes == 0,
            s.active_models@.len() == 0,
    {
        DriverStatus { is_ready: false, vram_usage_bytes: 0, active_models: Vec::new() }
    }
}

/// A driver for tests: it answers every prompt with `[<name>] OK`.
pub struct DummyDriver {
    pub name: String,
}

impl DummyDriver {
    /// The single token the driver streams.
    pub fn response(&self) -> (r: String)
        ensures
            r@ == "["@ + self.name@ + "] OK"@,
    {
        concat3("[", self.name.as_str(), "] OK")
    }

    pub fn health_status(&self) -> (s: DriverStatus)
        ensures
            s.is_ready,
            s.vram_usage_bytes == 0,
            s.active_models@.len() == 0,
    {
        DriverStatus { is_ready: true, vram_usage_bytes: 0, active_models: Vec::new() }
    }

    pub fn load_model(&mut self, _model_id: &str) -> (r: Result<(), SystemError>)
        ensures
            r is Ok,
            final(self).name == old(self).name,
    {
        Ok(())
    }
}

/// The native llama.cpp driver. It is built without an engine: it reports
/// itself not ready and refuses to generate.
pub struct LlamaNativeDriver {
    n_gpu_layers: u32,
    ctx_size: u32,
}

impl LlamaNativeDriver {
    /// A driver instance without a loaded model.
    pub fn new(n_gpu_layers: u32, ctx_size: u32) -> (r: Result<LlamaNativeDriver, SystemError>)
        ensures
            r matches Ok(d) && d.gpu_layers() == n_gpu_layers && d.context_size() == ctx_size,
    {
        Ok(LlamaNativeDriver { n_gpu_layers, ctx_size })
    }

    pub closed spec fn gpu_layers(&self) -> u32 {
        self.n_gpu_layers
    }

    pub closed spec fn context_size(&self) -> u32 {
        self.ctx_size
    }

    /// Generation is refused: the driver carries no engine.
    pub fn generate(&self, _prompt: &str) -> (r: SystemError)
        ensures
            r matches SystemError::ModelNotFound(m) && m@ == "Native driver disabled for tests"@,
    {
        SystemError::ModelNotFound(owned("Native driver disabled for tests"))
    }

    pub fn health_status(&self) -> (s: DriverStatus)
        ensures
            !s.is_ready,
            s.vram_usage_bytes == 0,
            s.active_models@.len() == 0,
    {
        DriverStatus::idle()
    }

    pub fn load_model(&mut self, _path: &str) -> (r: Result<(), SystemError>)
        ensures
            r is Ok,
    {
        Ok(())
    }
}

// ---------------------------------------------------------------------------
// Routing
// ---------------------------------------------------------------------------

pub open spec fn local_driver_id() -> Seq<char> {
    "local-driver"@
}

pub open spec fn cloud_driver_id() -> Seq<char> {
    "cloud-driver"@
}

/// Instructions longer than this many bytes count as complex.
pub const COMPLEX_INSTRUCTION_BYTES: usize = 1000;

/// Priorities above this count as complex.
pub const COMPLEX_PRIORITY: u32 = 8;

/// Which driver a policy asks for.
pub enum RouteTarget {
    Local,
    Cloud,
}

/// The driver that the policy picks, before it is looked up.
pub open spec fn route_target(
    pref: ModelPreference,
    priority: u32,
    instruction_bytes: usize,
    has_local_driver: bool,
) -> RouteTarget {
    match pref {
        ModelPreference::LocalOnly => RouteTarget::Local,
        ModelPreference::CloudOnly => RouteTarget::Cloud,
        ModelPreference::HybridSmart => if priority > COMPLEX_PRIORITY || instruction_bytes
            > COMPLEX_INSTRUCTION_BYTES || !has_local_driver {
            RouteTarget::Cloud
        } else {
            RouteTarget::Local
        },
    }
}

/// The id of the driver the policy picks, before it is looked up.
pub open spec fn target_id(target: RouteTarget) -> Seq<char> {
    match target {
        RouteTarget::Local => local_driver_id(),
        RouteTarget::Cloud => cloud_driver_id(),
    }
}

/// What the policy answers for a process: the id of the chosen driver when
/// it is registered, else the error that says which one is missing. A
/// process that must run locally fails when no local engine is built in.
pub open spec fn routes_to(
    ids: Seq<Seq<char>>,
    pref: ModelPreference,
    priority: u32,
    instruction_bytes: usize,
    local_engine: bool,
    r: Result<String, SystemError>,
) -> bool {
    if pref == ModelPreference::LocalOnly && !local_engine {
        r matches Err(SystemError::HardwareFailure(m))
            && m@ == "Motor local no compilado. Reinicie con feature 'local_llm' o use Cloud."@
    } else {
        let target = route_target(
            pref,
            priority,
            instruction_bytes,
            local_engine && ids.contains(local_driver_id()),
        );
        if ids.contains(target_id(target)) {
            r matches Ok(d) && d@ == target_id(target)
        } else {
            match target {
                RouteTarget::Cloud => r matches Err(SystemError::HardwareFailure(m))
                    && m@ == "Driver cloud no configurado o sin credenciales."@,
                RouteTarget::Local => r matches Err(SystemError::DriverOffline(m)) && m@
                    == local_driver_id(),
            }
        }
    }
}

/// The credentials the cloud driver is made with.
pub struct CloudCredentials {
    pub api_url: String,
    pub model: String,
    pub api_key: String,
}

/// The cognitive hardware abstraction layer: the ids of the registered
/// drivers, one entry per id, and the credentials of the cloud driver.
pub struct CognitiveHAL {
    ids: Vec<String>,
    cloud: Option<CloudCredentials>,
}

impl View for CognitiveHAL {
    type V = Seq<Seq<char>>;

    closed spec fn view(&self) -> Seq<Seq<char>> {
        self.ids@.map_values(|s: String| s@)
    }
}

impl CognitiveHAL {
    /// A layer with no driver but, when credentials are given, the cloud
    /// driver made with them.
    pub fn new(cloud: Option<CloudCredentials>) -> (r: CognitiveHAL)
        ensures
            cloud is None ==> r@.len() == 0,
            cloud is Some ==> r@ == seq![cloud_driver_id()],
            r.cloud_credentials() == cloud,
    {
        let mut r = CognitiveHAL { ids: Vec::new(), cloud: None };
        proof {
            assert(r@ =~= Seq::<Seq<char>>::empty());
        }
        match cloud {
            Some(c) => {
                r.register_driver("cloud-driver");
                r.cloud = Some(c);
                proof {
                    reveal_strlit("cloud-driver");
                    assert(r@.len() == 1);
                    assert(r@ =~= seq![cloud_driver_id()]);
                }
            },
            None => {},
        }
        r
    }

    /// The credentials the cloud driver was last made with.
    pub closed spec fn cloud_credentials(&self) -> Option<CloudCredentials> {
        self.cloud
    }

    /// Makes the cloud driver anew with these credentials and registers it.
    pub fn update_cloud_credentials(&mut self, api_url: String, model: String, api_key: String)
        ensures
            final(self).cloud_credentials() == Some(CloudCredentials { api_url, model, api_key }),
            final(self)@.contains(cloud_driver_id()),
            forall|x: Seq<char>| final(self)@.contains(x) <==> (old(self)@.contains(x) || x == cloud_driver_id()),
    {
        self.register_driver("cloud-driver");
        self.cloud = Some(CloudCredentials { api_url, model, api_key });
        proof {
            reveal_strlit("cloud-driver");
        }
    }

    pub fn contains(&self, id: &str) -> (b: bool)
        ensures
            b == self@.contains(id@),
    {
        let mut i: usize = 0;
        while i < self.ids.len()
            invariant
                i <= self.ids@.len(),
                forall|j: int| 0 <= j < i ==> self@[j] != id@,
            decreases self.ids@.len() - i,
        {
            if str_eq(self.ids[i].as_str(), id) {
                assert(self@[i as int] == id@);
                return true;
            }
            i = i + 1;
        }
        false
    }

    /// Registers a driver under `id`; an id registered before is kept once.
    pub fn register_driver(&mut self, id: &str)
        ensures
            final(self).cloud_credentials() == old(self).cloud_credentials(),
            old(self)@.contains(id@) ==> final(self)@ == old(self)@,
            !old(self)@.contains(id@) ==> final(self)@ == old(self)@.push(id@),
            final(self)@.contains(id@),
            forall|x: Seq<char>| old(self)@.contains(x) ==> final(self)@.contains(x),
            forall|x: Seq<char>| final(self)@.contains(x) ==> old(self)@.contains(x) || x == id@,
    {
        if !self.contains(id) {
            let ghost before = self@;
            self.ids.push(owned(id));
            proof {
                assert(self@ =~= before.push(id@));
                assert(self@[before.len() as int] == id@);
                assert forall|x: Seq<char>| before.contains(x) implies self@.contains(x) by {
                    let j = choose|j: int| 0 <= j < before.len() && before[j] == x;
                    assert(self@[j] == x);
                }
                assert forall|x: Seq<char>| self@.contains(x) implies before.contains(x) || x == id@ by {
                    let j = choose|j: int| 0 <= j < self@.len() && self@[j] == x;
                    if j < before.len() {
                        assert(before[j] == x);
                    }
                }
            }
        }
    }

    /// Picks the driver for a process with the given policy, priority and
    /// instruction size. `local_engine` tells whether a local engine is part
    /// of the build.
    pub fn select_driver(
        &self,
        pref: ModelPreference,
        priority: u32,
        instruction_bytes: usize,
        local_engine: bool,
    ) -> (r: Result<String, SystemError>)
        ensures
            routes_to(self@, pref, priority, instruction_bytes, local_engine, r),
    {
        let cloud = match pref {
            ModelPreference::LocalOnly => {
                if !local_engine {
                    return Err(
                        SystemError::HardwareFailure(
                            owned("Motor local no compilado. Reinicie con feature 'local_llm' o use Cloud."),
                        ),
                    );
                }
                false
            },
            ModelPreference::CloudOnly => true,
            ModelPreference::HybridSmart => {
                let has_local = local_engine && self.contains("local-driver");
                priority > COMPLEX_PRIORITY || instruction_bytes > COMPLEX_INSTRUCTION_BYTES || !has_local
            },
        };
        if cloud {
            if self.contains("cloud-driver") {
                Ok(owned("cloud-driver"))
            } else {
                Err(SystemError::HardwareFailure(owned("Driver cloud no configurado o sin credenciales.")))
            }
        } else {
            if self.contains("local-driver") {
                Ok(owned("local-driver"))
            } else {
                Err(SystemError::DriverOffline(owned("local-driver")))
            }
        }
    }

    /// The routing decision of a run of `pcb`: the driver its policy picks
    /// and the prompt that driver receives, with the given plugin and MCP
    /// tool cards. The run itself is the driver's.
    pub fn route(
        &self,
        pcb: &PCB,
        local_engine: bool,
        tools_prompt: &str,
        mcp_tools_prompt: &str,
    ) -> (r: Result<(String, String), SystemError>)
        ensures
            match r {
                Ok((d, prompt)) => routes_to(
                    self@,
                    pcb.model_pref,
                    pcb.priority,
                    byte_len(pcb.memory_pointers.l1_instruction@),
                    local_engine,
                    Ok(d),
                ) && prompt@ == master_prompt(
                    tools_prompt@,
                    mcp_tools_prompt@,
                    pcb.memory_pointers.l1_instruction@,
                ),
                Err(e) => routes_to(
                    self@,
                    pcb.model_pref,
                    pcb.priority,
                    byte_len(pcb.memory_pointers.l1_instruction@),
                    local_engine,
                    Err(e),
                ),
            },
    {
        let instruction = pcb.memory_pointers.l1_instruction.as_str();
        let bytes = instruction.len();
        match self.select_driver(pcb.model_pref, pcb.priority, bytes, local_engine) {
            Ok(d) => {
                let prompt = assemble_master_prompt(tools_prompt, mcp_tools_prompt, instruction);
                Ok((d, prompt))
            },
            Err(e) => Err(e),
        }
    }
}

pub open spec fn system_prompt_master() -> Seq<char> {
    "\n[AEGIS NEURAL KERNEL - ISA v1.0]\nEres una ALU Cognitiva (Unidad Lógica Aritmética) operando dentro del Aegis Neural Kernel.\nTu objetivo es ejecutar procesos con precisión matemática y cero lenguaje de cortesía.\nNo saludes. No pidas disculpas. No uses frases de relleno.\n\nREGLAS DE EJECUCIÓN:\n1. Si necesitas usar una herramienta, detén tu generación e inserta una Syscall.\n2. Formato de Syscall: [SYS_CALL_PLUGIN(\"nombre_plugin\", {\"clave\": \"valor\"})]\n3. Solo puedes usar los plugins listados a continuación.\n"@
}

/// The rules every process is given before its instruction.
pub const SYSTEM_PROMPT_MASTER: &'static str = "\n[AEGIS NEURAL KERNEL - ISA v1.0]\nEres una ALU Cognitiva (Unidad Lógica Aritmética) operando dentro del Aegis Neural Kernel.\nTu objetivo es ejecutar procesos con precisión matemática y cero lenguaje de cortesía.\nNo saludes. No pidas disculpas. No uses frases de relleno.\n\nREGLAS DE EJECUCIÓN:\n1. Si necesitas usar una herramienta, detén tu generación e inserta una Syscall.\n2. Formato de Syscall: [SYS_CALL_PLUGIN(\"nombre_plugin\", {\"clave\": \"valor\"})]\n3. Solo puedes usar los plugins listados a continuación.\n";

/// The prompt a driver receives: the master rules, the plugin and MCP tool
/// cards, then the process instruction under its heading.
pub open spec fn master_prompt(tools: Seq<char>, mcp_tools: Seq<char>, instruction: Seq<char>) -> Seq<char> {
    system_prompt_master() + "\n"@ + tools + "\n"@ + mcp_tools + "\n\n[USER_PROCESS_INSTRUCTION]\n"@
        + instruction
}

pub fn assemble_master_prompt(tools: &str, mcp_tools: &str, instruction: &str) -> (r: String)
    ensures
        r@ == master_prompt(tools@, mcp_tools@, instruction@),
{
    let mut r = concat2(SYSTEM_PROMPT_MASTER, "\n");
    r.append(tools);
    r.append("\n");
    r.append(mcp_tools);
    r.append("\n\n[USER_PROCESS_INSTRUCTION]\n");
    r.append(instruction);
    r
}

} // verus!
