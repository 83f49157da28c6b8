//! Plugins: their errors, the metadata the kernel keeps of them, the tool
//! cards given to the model, what a plugin run receives as input, and the
//! network guard in front of the downloads the kernel makes for plugins.
use vstd::prelude::*;
use crate::json::{as_text, index_key, json_document, parse_json};
use crate::paths::{file_stem, path_file_stem};
use crate::text::{concat2, concat3, decimal, decimal_string, owned, str_eq};

verus! {

/// Failures of the plugin subsystem.
#[derive(Debug, Clone, PartialEq)]
pub enum PluginError {
    CompilationFailed(String),
    SecurityViolation(String),
    ExecutionFailed(String),
    FunctionNotFound(String),
    ExecutionTrap(String),
    OutOfFuel,
    IOError(String),
}

pub open spec fn plugin_error_message(e: PluginError) -> Seq<char> {
    match e {
        PluginError::CompilationFailed(d) => "Compilation Failed: "@ + d@,
        PluginError::SecurityViolation(d) => "Security Violation: "@ + d@,
        PluginError::ExecutionFailed(d) => "Plugin Execution Failed: "@ + d@,
        PluginError::FunctionNotFound(d) => "Function Not Found: "@ + d@,
        PluginError::ExecutionTrap(d) => "Execution Trap: "@ + d@,
        PluginError::OutOfFuel => "Out of Fuel: The plugin exceeded its CPU budget"@,
        PluginError::IOError(d) => "IO Error: "@ + d@,
    }
}

impl PluginError {
    pub fn message(&self) -> (m: String)
        ensures
            m@ == plugin_error_message(*self),
    {
        match self {
            PluginError::CompilationFailed(d) => concat2("Compilation Failed: ", d.as_str()),
            PluginError::SecurityViolation(d) => concat2("Security Violation: ", d.as_str()),
            PluginError::ExecutionFailed(d) => concat2("Plugin Execution Failed: ", d.as_str()),
            PluginError::FunctionNotFound(d) => concat2("Function Not Found: ", d.as_str()),
            PluginError::ExecutionTrap(d) => concat2("Execution Trap: ", d.as_str()),
            PluginError::OutOfFuel => owned("Out of Fuel: The plugin exceeded its CPU budget"),
            PluginError::IOError(d) => concat2("IO Error: ", d.as_str()),
        }
    }
}

/// What the kernel knows of a loaded plugin.
#[derive(Debug, Clone)]
pub struct PluginMetadata {
    pub name: String,
    pub description: String,
    pub version: String,
    pub author: String,
    pub parameter_example: String,
}

/// Description and parameter example the kernel gives a plugin by name.
pub open spec fn tool_card(name: Seq<char>) -> (Seq<char>, Seq<char>) {
    if name == "std_sys"@ {
        ("Obtiene la fecha y hora actual del sistema en formato UTC."@, "{\"action\": \"get_time\"}"@)
    } else if name == "std_fs"@ {
        (
            "Explora el sistema de archivos del workspace (listado de directorios y lectura)."@,
            "{\"action\": \"list_dir\", \"path\": \"/workspace\"}"@,
        )
    } else if name == "std_net"@ {
        (
            "Acceso a red seguro: descarga e interpreta el contenido de una URL."@,
            "{\"action\": \"fetch\", \"url\": \"https://example.com\"}"@,
        )
    } else {
        ("ANK Wasm Plugin (Metadata pendiente)"@, "{}"@)
    }
}

/// `m` is the metadata the kernel gives a plugin named `name`.
pub open spec fn is_metadata_of(m: PluginMetadata, name: Seq<char>) -> bool {
    &&& m.name@ == name
    &&& m.description@ == tool_card(name).0
    &&& m.parameter_example@ == tool_card(name).1
    &&& m.version@ == "1.0.0"@
    &&& m.author@ == "Aegis Kernel Team"@
}

impl PluginMetadata {
    /// The metadata of a plugin named `name` (tool discovery).
    pub fn for_plugin(name: &str) -> (m: PluginMetadata)
        ensures
            m.name@ == name@,
            m.description@ == tool_card(name@).0,
            m.parameter_example@ == tool_card(name@).1,
            m.version@ == "1.0.0"@,
            m.author@ == "Aegis Kernel Team"@,
    {
        let (description, example) = if str_eq(name, "std_sys") {
            ("Obtiene la fecha y hora actual del sistema en formato UTC.", "{\"action\": \"get_time\"}")
        } else if str_eq(name, "std_fs") {
            (
                "Explora el sistema de archivos del workspace (listado de directorios y lectura).",
                "{\"action\": \"list_dir\", \"path\": \"/workspace\"}",
            )
        } else if str_eq(name, "std_net") {
            (
                "Acceso a red seguro: descarga e interpreta el contenido de una URL.",
                "{\"action\": \"fetch\", \"url\": \"https://example.com\"}",
            )
        } else {
            ("ANK Wasm Plugin (Metadata pendiente)", "{}")
        };
        PluginMetadata {
            name: owned(name),
            description: owned(description),
            version: owned("1.0.0"),
            author: owned("Aegis Kernel Team"),
            parameter_example: owned(example),
        }
    }
}

/// The name a plugin gets from the path of its module: the file stem.
pub fn plugin_name_from_path(path: &str) -> (r: Result<String, PluginError>)
    ensures
        r matches Ok(n) ==> file_stem(path@) == Some(n@),
        r matches Err(e) ==> e == PluginError::IOError(e->IOError_0) && e->IOError_0@ == "Invalid plugin path"@,
        r is Err <==> file_stem(path@) is None,
{
    match path_file_stem(path) {
        Some(n) => Ok(n),
        None => Err(PluginError::IOError(owned("Invalid plugin path"))),
    }
}

/// One line of the tool card list.
pub open spec fn tool_line(m: PluginMetadata) -> Seq<char> {
    "- "@ + m.name@ + ": "@ + m.description@ + " -> Uso: [SYS_CALL_PLUGIN(\""@ + m.name@ + "\", "@
        + m.parameter_example@ + ")]\n"@
}

pub open spec fn tool_lines(ms: Seq<PluginMetadata>) -> Seq<char>
    decreases ms.len(),
{
    if ms.len() == 0 {
        Seq::empty()
    } else {
        tool_lines(ms.drop_last()) + tool_line(ms.last())
    }
}

/// The tool cards injected in the system prompt.
pub open spec fn tools_prompt(ms: Seq<PluginMetadata>) -> Seq<char> {
    if ms.len() == 0 {
        "No hay plugins Wasm cargados actualmente."@
    } else {
        "HERRAMIENTAS (PLUGINS) DISPONIBLES:\n"@ + tool_lines(ms)
    }
}

/// The compiler and runtime of WebAssembly modules.
#[verifier::external_type_specification]
#[verifier::external_body]
pub struct ExEngine(wasmtime::Engine);

/// A compiled WebAssembly module.
#[verifier::external_type_specification]
#[verifier::external_body]
pub struct ExModule(wasmtime::Module);

/// How much the code generator optimises.
#[derive(Debug, Clone, Copy, PartialEq, Eq)]
pub enum Optimization {
    Unoptimized,
    Speed,
    SpeedAndSize,
}

/// The settings of the engine that compiles and runs plugins.
#[derive(Debug, Clone, Copy, PartialEq, Eq)]
pub struct EngineSettings {
    pub async_support: bool,
    pub consume_fuel: bool,
    pub optimization: Optimization,
    pub memory_reservation: u64,
}

/// Linear memory reserved for each plugin instance: 512 MiB.
pub const PLUGIN_MEMORY_RESERVATION_BYTES: u64 = 536870912;

/// The engine settings of the kernel: async calls, fuel metering (each run
/// gets a CPU budget), speed-optimised code and the plugin memory reservation.
pub open spec fn kernel_engine_settings() -> EngineSettings {
    EngineSettings {
        async_support: true,
        consume_fuel: true,
        optimization: Optimization::Speed,
        memory_reservation: PLUGIN_MEMORY_RESERVATION_BYTES,
    }
}

pub fn engine_settings() -> (s: EngineSettings)
    ensures
        s == kernel_engine_settings(),
{
    EngineSettings {
        async_support: true,
        consume_fuel: true,
        optimization: Optimization::Speed,
        memory_reservation: PLUGIN_MEMORY_RESERVATION_BYTES,
    }
}

/// An engine together with the settings it was made with.
pub struct BuiltEngine {
    engine: wasmtime::Engine,
    settings: Ghost<EngineSettings>,
}

/// `wasmtime::Engine::new` on a `Config` made from `settings`, field by field;
/// the engine comes back with the settings it was made with. Whether the
/// engine can be made depends on the machine: nothing is claimed of the
/// outcome but its error text.
#[verifier::external_body]
fn new_engine(settings: &EngineSettings) -> (r: Result<BuiltEngine, String>)
    ensures
        r matches Ok(b) ==> b.settings@ == *settings,
{
    let mut config = wasmtime::Config::new();
    config.async_support(settings.async_support);
    config.consume_fuel(settings.consume_fuel);
    config.cranelift_opt_level(match settings.optimization {
        Optimization::Unoptimized => wasmtime::OptLevel::None,
        Optimization::Speed => wasmtime::OptLevel::Speed,
        Optimization::SpeedAndSize => wasmtime::OptLevel::SpeedAndSize,
    });
    config.memory_reservation(settings.memory_reservation);
    match wasmtime::Engine::new(&config) {
        Ok(engine) => Ok(BuiltEngine { engine, settings: Ghost(*settings) }),
        Err(e) => Err(e.to_string()),
    }
}

/// A compiled module together with the bytes it was compiled from and the
/// engine that compiled it.
pub struct CompiledModule {
    module: wasmtime::Module,
    source: Ghost<Seq<u8>>,
    engine: Ghost<wasmtime::Engine>,
}

/// `wasmtime::Module::new(engine, bytes)`: compiles a module, which comes
/// back with the bytes and the engine it was compiled with. Whether the
/// bytes compile is wasmtime's to decide; nothing is claimed of it.
#[verifier::external_body]
fn compile_module(engine: &wasmtime::Engine, bytes: &[u8]) -> (r: Result<CompiledModule, String>)
    ensures
        r matches Ok(c) ==> c.source@ == bytes@ && c.engine@ == *engine,
{
    match wasmtime::Module::new(engine, bytes) {
        Ok(module) => Ok(CompiledModule { module, source: Ghost(bytes@), engine: Ghost(*engine) }),
        Err(e) => Err(e.to_string()),
    }
}

/// A loaded plugin: its metadata, its compiled module, and the bytes and
/// the engine it was compiled with.
pub struct Plugin {
    pub metadata: PluginMetadata,
    pub module: wasmtime::Module,
    pub source: Ghost<Seq<u8>>,
    pub compiled_by: Ghost<wasmtime::Engine>,
}

/// The plugins the kernel has loaded, one per name, and the engine that
/// compiled them.
pub struct PluginManager {
    engine: wasmtime::Engine,
    settings: Ghost<EngineSettings>,
    plugins: Vec<Plugin>,
}

/// The loaded plugins after `p` is loaded: one loaded before under its name
/// is replaced in place, a new one goes last.
pub open spec fn with_plugin_entry(ps: Seq<Plugin>, p: Plugin) -> Seq<Plugin> {
    match plugin_index(ps.map_values(|q: Plugin| q.metadata), p.metadata.name@) {
        Some(i) => ps.update(i, p),
        None => ps.push(p),
    }
}

impl View for PluginManager {
    type V = Seq<PluginMetadata>;

    closed spec fn view(&self) -> Seq<PluginMetadata> {
        self.plugins@.map_values(|p: Plugin| p.metadata)
    }
}

/// Position of the plugin named `name`.
pub open spec fn plugin_index(ms: Seq<PluginMetadata>, name: Seq<char>) -> Option<int>
    decreases ms.len(),
{
    if ms.len() == 0 {
        None
    } else if ms.last().name@ == name {
        Some(ms.len() - 1)
    } else {
        plugin_index(ms.drop_last(), name)
    }
}

/// No two plugins share a name.
pub open spec fn unique_names(ms: Seq<PluginMetadata>) -> bool {
    forall|i: int, j: int| 0 <= i < j < ms.len() ==> ms[i].name@ != ms[j].name@
}

/// The loaded plugins after one named `m.name` is loaded: one loaded before
/// under that name is replaced in place, a new one goes last.
pub open spec fn with_plugin(ms: Seq<PluginMetadata>, m: PluginMetadata) -> Seq<PluginMetadata> {
    match plugin_index(ms, m.name@) {
        Some(i) => ms.update(i, m),
        None => ms.push(m),
    }
}

proof fn lemma_plugin_index(ms: Seq<PluginMetadata>, name: Seq<char>)
    ensures
        plugin_index(ms, name) matches Some(i) ==> 0 <= i < ms.len() && ms[i].name@ == name,
        plugin_index(ms, name) is None ==> forall|j: int| 0 <= j < ms.len() ==> ms[j].name@ != name,
    decreases ms.len(),
{
    if ms.len() > 0 {
        lemma_plugin_index(ms.drop_last(), name);
        assert forall|j: int| 0 <= j < ms.len() - 1 implies ms[j] == ms.drop_last()[j] by {}
    }
}

proof fn lemma_plugin_index_found(ms: Seq<PluginMetadata>, name: Seq<char>, k: int)
    requires
        unique_names(ms),
        0 <= k < ms.len(),
        ms[k].name@ == name,
    ensures
        plugin_index(ms, name) == Some(k),
    decreases ms.len(),
{
    if k < ms.len() - 1 {
        assert(ms.drop_last()[k] == ms[k]);
        lemma_plugin_index_found(ms.drop_last(), name, k);
    }
}

impl PluginManager {
    /// A manager with no plugin, on a new engine made with the kernel's
    /// engine settings.
    pub fn new() -> (r: Result<PluginManager, PluginError>)
        ensures
            r matches Ok(m) ==> m@.len() == 0 && m.settings() == kernel_engine_settings(),
            r matches Err(e) ==> e is CompilationFailed,
    {
        let settings = engine_settings();
        match new_engine(&settings) {
            Ok(built) => {
                let m = PluginManager { engine: built.engine, settings: built.settings, plugins: Vec::new() };
                proof {
                    assert(m@ =~= Seq::<PluginMetadata>::empty());
                }
                Ok(m)
            },
            Err(e) => Err(PluginError::CompilationFailed(e)),
        }
    }

    /// No two loaded plugins share a name.
    #[verifier::type_invariant]
    spec fn inv(self) -> bool {
        unique_names(self.plugins@.map_values(|p: Plugin| p.metadata))
    }

    /// The settings the manager's engine was made with.
    pub closed spec fn settings(&self) -> EngineSettings {
        self.settings@
    }

    /// The loaded plugins, in order.
    pub closed spec fn plugins(&self) -> Seq<Plugin> {
        self.plugins@
    }

    /// The engine the manager compiles its plugins with.
    pub closed spec fn compiler(&self) -> wasmtime::Engine {
        self.engine
    }

    /// The engine that compiles and runs the plugins.
    pub fn engine(&self) -> (e: &wasmtime::Engine)
        ensures
            *e == self.compiler(),
    {
        &self.engine
    }

    /// Position of the plugin named `name`.
    fn find(&self, name: &str) -> (r: Option<usize>)
        ensures
            r matches Some(i) ==> plugin_index(self@, name@) == Some(i as int) && i < self@.len(),
            r is None ==> plugin_index(self@, name@) is None,
    {
        proof {
            use_type_invariant(self);
        }
        let mut i: usize = 0;
        while i < self.plugins.len()
            invariant
                unique_names(self@),
                i <= self.plugins@.len(),
                forall|j: int| 0 <= j < i ==> self@[j].name@ != name@,
            decreases self.plugins@.len() - i,
        {
            if str_eq(self.plugins[i].metadata.name.as_str(), name) {
                proof {
                    assert(self@[i as int] == self.plugins@[i as int].metadata);
                    lemma_plugin_index_found(self@, name@, i as int);
                }
                return Some(i);
            }
            assert(self@[i as int] == self.plugins@[i as int].metadata);
            i = i + 1;
        }
        proof {
            lemma_plugin_index(self@, name@);
            if plugin_index(self@, name@) is Some {
                let k = plugin_index(self@, name@)->0;
                assert(self@[k].name@ == name@);
            }
        }
        None
    }

    /// Whether a plugin of that name is loaded.
    pub fn is_loaded(&self, name: &str) -> (b: bool)
        ensures
            b == (plugin_index(self@, name@) is Some),
    {
        self.find(name).is_some()
    }

    /// The compiled module of the plugin named `name`, when one is loaded.
    pub fn module(&self, name: &str) -> (r: Option<&wasmtime::Module>)
        ensures
            r is Some <==> plugin_index(self@, name@) is Some,
            r matches Some(m) ==> *m == self.plugins()[plugin_index(self@, name@)->0].module,
    {
        match self.find(name) {
            Some(i) => Some(&self.plugins[i].module),
            None => None,
        }
    }

    /// Records a plugin; one loaded before under the same name is replaced in
    /// place, a new one goes last.
    fn register(&mut self, p: Plugin)
        ensures
            final(self)@ == with_plugin(old(self)@, p.metadata),
            final(self).plugins() == with_plugin_entry(old(self).plugins(), p),
            final(self).compiler() == old(self).compiler(),
            final(self).settings() == old(self).settings(),
    {
        proof {
            use_type_invariant(&*self);
        }
        let ghost before = self@;
        let ghost m = p.metadata;
        let found = self.find(p.metadata.name.as_str());
        let mut plugins: Vec<Plugin> = Vec::new();
        std::mem::swap(&mut plugins, &mut self.plugins);
        assert(plugins@.map_values(|q: Plugin| q.metadata) == before);
        match found {
            Some(i) => {
                proof {
                    lemma_plugin_index(before, m.name@);
                }
                plugins.set(i, p);
                assert(plugins@ == with_plugin_entry(old(self).plugins(), p));
                let ghost after = plugins@.map_values(|q: Plugin| q.metadata);
                proof {
                    assert(after =~= before.update(i as int, m));
                    assert forall|a: int, b: int| 0 <= a < b < after.len() implies after[a].name@ != after[b].name@ by {
                        if a != i as int && b != i as int {
                            assert(before[a] == after[a] && before[b] == after[b]);
                        } else if a == i as int {
                            assert(before[b] == after[b]);
                        } else {
                            assert(before[a] == after[a]);
                        }
                    }
                }
            },
            None => {
                proof {
                    lemma_plugin_index(before, m.name@);
                }
                plugins.push(p);
                assert(plugins@ == with_plugin_entry(old(self).plugins(), p));
                let ghost after = plugins@.map_values(|q: Plugin| q.metadata);
                proof {
                    assert(after =~= before.push(m));
                    assert forall|a: int, b: int| 0 <= a < b < after.len() implies after[a].name@ != after[b].name@ by {
                        assert(before.push(m)[a] == after[a]);
                        if b < before.len() {
                            assert(before[a] == after[a] && before[b] == after[b]);
                        } else {
                            assert(before[a] == after[a]);
                        }
                    }
                }
            },
        }
        self.plugins = plugins;
    }

    /// Loads the module read from `path`: the plugin is named after the
    /// file stem, compiled from `wasm`, and given the metadata of its name.
    /// A path without a file stem is refused before anything is compiled;
    /// a module that does not compile leaves the manager as it was.
    pub fn load_plugin(&mut self, path: &str, wasm: &[u8]) -> (r: Result<(), PluginError>)
        ensures
            final(self).compiler() == old(self).compiler(),
            final(self).settings() == old(self).settings(),
            r is Err ==> final(self).plugins() == old(self).plugins(),
            r is Ok ==> exists|p: Plugin|
                #![trigger with_plugin_entry(old(self).plugins(), p)]
                is_metadata_of(p.metadata, file_stem(path@)->0) && p.source@ == wasm@ && p.compiled_by@
                    == old(self).compiler() && final(self).plugins() == with_plugin_entry(old(self).plugins(), p),
            file_stem(path@) is None ==> (r matches Err(PluginError::IOError(msg)) && msg@
                == "Invalid plugin path"@),
            file_stem(path@) is Some ==> r is Ok || r matches Err(PluginError::CompilationFailed(_)),
            r is Err ==> final(self)@ == old(self)@,
            r is Ok ==> file_stem(path@) is Some && exists|m: PluginMetadata|
                is_metadata_of(m, file_stem(path@)->0) && final(self)@ == with_plugin(old(self)@, m),
    {
        let name = match plugin_name_from_path(path) {
            Ok(n) => n,
            Err(e) => return Err(e),
        };
        let compiled = match compile_module(&self.engine, wasm) {
            Ok(c) => c,
            Err(e) => return Err(PluginError::CompilationFailed(e)),
        };
        let metadata = PluginMetadata::for_plugin(name.as_str());
        let ghost m = metadata;
        let plugin = Plugin {
            metadata,
            module: compiled.module,
            source: compiled.source,
            compiled_by: compiled.engine,
        };
        let ghost entry = plugin;
        self.register(plugin);
        assert(is_metadata_of(m, name@) && self@ == with_plugin(old(self)@, m));
        assert(is_metadata_of(entry.metadata, file_stem(path@)->0) && entry.source@ == wasm@
            && entry.compiled_by@ == old(self).compiler() && self.plugins() == with_plugin_entry(old(self).plugins(), entry));
        Ok(())
    }

    /// The tool cards of the loaded plugins, for the system prompt.
    pub fn get_available_tools_prompt(&self) -> (r: String)
        ensures
            r@ == tools_prompt(self@),
    {
        if self.plugins.len() == 0 {
            return owned("No hay plugins Wasm cargados actualmente.");
        }
        let mut r = owned("HERRAMIENTAS (PLUGINS) DISPONIBLES:\n");
        let ghost head = r@;
        let mut i: usize = 0;
        while i < self.plugins.len()
            invariant
                i <= self.plugins@.len(),
                r@ == head + tool_lines(self@.subrange(0, i as int)),
            decreases self.plugins@.len() - i,
        {
            let m = &self.plugins[i].metadata;
            let ghost prev = r@;
            r.append("- ");
            r.append(m.name.as_str());
            r.append(": ");
            r.append(m.description.as_str());
            r.append(" -> Uso: [SYS_CALL_PLUGIN(\"");
            r.append(m.name.as_str());
            r.append("\", ");
            r.append(m.parameter_example.as_str());
            r.append(")]\n");
            proof {
                let sub = self@.subrange(0, i + 1);
                assert(sub.drop_last() =~= self@.subrange(0, i as int));
                assert(sub.last() == self@[i as int]);
                assert(self@[i as int] == self.plugins@[i as int].metadata);
                assert(r@ =~= prev + tool_line(self@[i as int]));
            }
            i = i + 1;
        }
        proof {
            assert(self@.subrange(0, i as int) =~= self@);
        }
        r
    }
}

// ---------------------------------------------------------------------------
// Plugin runs
// ---------------------------------------------------------------------------

/// CPU budget of one plugin run, in fuel units.
pub const PLUGIN_FUEL: u64 = 1000000;

/// Size of the output buffer of a plugin run, in bytes.
pub const PLUGIN_OUTPUT_BYTES: usize = 40960;

/// What a plugin run receives on its standard input.
pub enum PluginInput {
    /// The caller's JSON, as it is.
    Direct(String),
    /// The body of this URL, which the kernel downloads first.
    FetchThenRun(String),
}

/// Decides the input of a run of `plugin_name`. `std_net` does not reach the
/// network itself: the kernel reads the `url` of its JSON and downloads the
/// page for it.
pub fn plan_plugin_input(
    manager: &PluginManager,
    plugin_name: &str,
    input_json: &str,
) -> (r: Result<PluginInput, PluginError>)
    ensures
        plugin_index(manager@, plugin_name@) is None ==> (r matches Err(PluginError::FunctionNotFound(m))
            && m@ == "Plugin "@ + plugin_name@ + " not loaded"@),
        plugin_index(manager@, plugin_name@) is Some && plugin_name@ != "std_net"@ ==> (r matches Ok(
            PluginInput::Direct(s),
        ) && s@ == input_json@),
        plugin_index(manager@, plugin_name@) is Some && plugin_name@ == "std_net"@ ==> match json_document(
            input_json@,
        ) {
            None => r matches Err(PluginError::ExecutionFailed(m)) && m@.len() >= 26 && m@.subrange(0, 26)
                == "Invalid JSON for std_net: "@,
            Some(j) => match as_text(index_key(j, "url"@)) {
                None => r matches Err(PluginError::ExecutionFailed(m)) && m@
                    == "std_net requires 'url' parameter"@,
                Some(url) => r matches Ok(PluginInput::FetchThenRun(u)) && u@ == url,
            },
        },
{
    if !manager.is_loaded(plugin_name) {
        return Err(PluginError::FunctionNotFound(concat3("Plugin ", plugin_name, " not loaded")));
    }
    if !str_eq(plugin_name, "std_net") {
        return Ok(PluginInput::Direct(owned(input_json)));
    }
    match parse_json(input_json) {
        Err(e) => {
            let m = concat2("Invalid JSON for std_net: ", e.as_str());
            proof {
                reveal_strlit("Invalid JSON for std_net: ");
                assert(m@.subrange(0, 26) =~= "Invalid JSON for std_net: "@);
            }
            Err(PluginError::ExecutionFailed(m))
        },
        Ok(j) => {
            let url = match j.get("url") {
                Some(v) => v.as_text(),
                None => None,
            };
            match url {
                Some(u) => Ok(PluginInput::FetchThenRun(u)),
                None => Err(PluginError::ExecutionFailed(owned("std_net requires 'url' parameter"))),
            }
        },
    }
}

// ---------------------------------------------------------------------------
// Network guard (SSRF shield)
// ---------------------------------------------------------------------------

/// An IP address that a host name resolved to.
#[derive(Debug, Clone, Copy, PartialEq, Eq)]
pub enum IpAddress {
    V4(u8, u8, u8, u8),
    V6(u16, u16, u16, u16, u16, u16, u16, u16),
}

/// A resolved address and its text, as it is shown in messages.
pub struct ResolvedAddress {
    pub ip: IpAddress,
    pub text: String,
}

pub open spec fn is_loopback(ip: IpAddress) -> bool {
    match ip {
        IpAddress::V4(a, _, _, _) => a == 127,
        IpAddress::V6(a, b, c, d, e, f, g, h) => a == 0 && b == 0 && c == 0 && d == 0 && e == 0 && f
            == 0 && g == 0 && h == 1,
    }
}

pub open spec fn is_unspecified(ip: IpAddress) -> bool {
    match ip {
        IpAddress::V4(a, b, c, d) => a == 0 && b == 0 && c == 0 && d == 0,
        IpAddress::V6(a, b, c, d, e, f, g, h) => a == 0 && b == 0 && c == 0 && d == 0 && e == 0 && f
            == 0 && g == 0 && h == 0,
    }
}

/// Private (10/8, 172.16/12, 192.168/16), link-local (169.254/16),
/// broadcast, or documentation (192.0.2/24, 198.51.100/24, 203.0.113/24).
pub open spec fn is_local_v4(a: u8, b: u8, c: u8, d: u8) -> bool {
    ||| a == 10
    ||| a == 172 && 16 <= b <= 31
    ||| a == 192 && b == 168
    ||| a == 169 && b == 254
    ||| a == 255 && b == 255 && c == 255 && d == 255
    ||| a == 192 && b == 0 && c == 2
    ||| a == 198 && b == 51 && c == 100
    ||| a == 203 && b == 0 && c == 113
}

/// Unique local (fc00::/7) or link-local (fe80::/10).
pub open spec fn is_local_v6(first: u16) -> bool {
    (first & 0xfe00u16) == 0xfc00u16 || (first & 0xffc0u16) == 0xfe80u16
}

/// Why an address is refused, if it is.
pub enum Refusal {
    Internal,
    PrivateV4,
    PrivateV6,
}

/// How an IPv4 address is judged: loopback (127/8) and unspecified
/// addresses are internal, the local ranges private.
pub open spec fn v4_refusal(a: u8, b: u8, c: u8, d: u8) -> Option<Refusal> {
    if a == 127 || (a == 0 && b == 0 && c == 0 && d == 0) {
        Some(Refusal::Internal)
    } else if is_local_v4(a, b, c, d) {
        Some(Refusal::PrivateV4)
    } else {
        None
    }
}

/// The IPv4 address inside an IPv4-mapped IPv6 address (`::ffff:0:0/96`).
pub open spec fn mapped_v4(ip: IpAddress) -> Option<(u8, u8, u8, u8)> {
    match ip {
        IpAddress::V6(a, b, c, d, e, f, g, h) => if a == 0 && b == 0 && c == 0 && d == 0 && e == 0
            && f == 0xffff {
            Some(((g / 256) as u8, (g % 256) as u8, (h / 256) as u8, (h % 256) as u8))
        } else {
            None
        },
        IpAddress::V4(..) => None,
    }
}

/// Why an address is refused: an IPv4 address, and the IPv4 address that an
/// IPv4-mapped IPv6 address carries, by the IPv4 rules; any other IPv6
/// address when it is loopback, unspecified, unique local or link-local.
pub open spec fn refusal(ip: IpAddress) -> Option<Refusal> {
    match ip {
        IpAddress::V4(a, b, c, d) => v4_refusal(a, b, c, d),
        IpAddress::V6(a, _, _, _, _, _, _, _) => match mapped_v4(ip) {
            Some((w, x, y, z)) => v4_refusal(w, x, y, z),
            None => if is_loopback(ip) || is_unspecified(ip) {
                Some(Refusal::Internal)
            } else if is_local_v6(a) {
                Some(Refusal::PrivateV6)
            } else {
                None
            },
        },
    }
}

pub open spec fn refusal_message(r: Refusal, text: Seq<char>) -> Seq<char> {
    match r {
        Refusal::Internal => "SSRF Guard: Loopback/Internal access denied for "@ + text,
        Refusal::PrivateV4 => "SSRF Guard: Private/Local network access denied for "@ + text,
        Refusal::PrivateV6 => "SSRF Guard: Private IPv6 access denied for "@ + text,
    }
}

/// Position of the first refused address.
pub open spec fn first_refused(addrs: Seq<ResolvedAddress>, i: int) -> Option<int>
    decreases addrs.len() - i,
{
    if i < 0 || i >= addrs.len() {
        None
    } else if refusal(addrs[i].ip) is Some {
        Some(i)
    } else {
        first_refused(addrs, i + 1)
    }
}

fn v4_refusal_of(a: u8, b: u8, c: u8, d: u8) -> (r: Option<Refusal>)
    ensures
        r == v4_refusal(a, b, c, d),
{
    if a == 127 || (a == 0 && b == 0 && c == 0 && d == 0) {
        Some(Refusal::Internal)
    } else if a == 10 || (a == 172 && 16 <= b && b <= 31) || (a == 192 && b == 168) || (a == 169
        && b == 254) || (a == 255 && b == 255 && c == 255 && d == 255) || (a == 192 && b == 0 && c
        == 2) || (a == 198 && b == 51 && c == 100) || (a == 203 && b == 0 && c == 113) {
        Some(Refusal::PrivateV4)
    } else {
        None
    }
}

fn refusal_of(ip: IpAddress) -> (r: Option<Refusal>)
    ensures
        r == refusal(ip),
{
    match ip {
        IpAddress::V4(a, b, c, d) => v4_refusal_of(a, b, c, d),
        IpAddress::V6(a, b, c, d, e, f, g, h) => {
            if a == 0 && b == 0 && c == 0 && d == 0 && e == 0 && f == 0xffff {
                v4_refusal_of((g / 256) as u8, (g % 256) as u8, (h / 256) as u8, (h % 256) as u8)
            } else if a == 0 && b == 0 && c == 0 && d == 0 && e == 0 && f == 0 && g == 0 && (h == 1
                || h == 0) {
                Some(Refusal::Internal)
            } else if (a & 0xfe00u16) == 0xfc00u16 || (a & 0xffc0u16) == 0xfe80u16 {
                Some(Refusal::PrivateV6)
            } else {
                None
            }
        },
    }
}

/// Refuses a download when any address its host resolves to is loopback,
/// unspecified, or on a private or local network.
pub fn guard_resolved_addresses(addrs: &Vec<ResolvedAddress>) -> (r: Result<(), PluginError>)
    ensures
        first_refused(addrs@, 0) is None ==> r is Ok,
        first_refused(addrs@, 0) matches Some(i) ==> (r matches Err(PluginError::SecurityViolation(m))
            && m@ == refusal_message(refusal(addrs@[i].ip)->0, addrs@[i].text@)),
{
    let mut i: usize = 0;
    while i < addrs.len()
        invariant
            i <= addrs@.len(),
            first_refused(addrs@, 0) == first_refused(addrs@, i as int),
        decreases addrs@.len() - i,
    {
        match refusal_of(addrs[i].ip) {
            Some(Refusal::Internal) => {
                return Err(PluginError::SecurityViolation(concat2(
                    "SSRF Guard: Loopback/Internal access denied for ",
                    addrs[i].text.as_str(),
                )));
            },
            Some(Refusal::PrivateV4) => {
                return Err(PluginError::SecurityViolation(concat2(
                    "SSRF Guard: Private/Local network access denied for ",
                    addrs[i].text.as_str(),
                )));
            },
            Some(Refusal::PrivateV6) => {
                return Err(PluginError::SecurityViolation(concat2(
                    "SSRF Guard: Private IPv6 access denied for ",
                    addrs[i].text.as_str(),
                )));
            },
            None => {},
        }
        i = i + 1;
    }
    Ok(())
}

proof fn lemma_first_refused(addrs: Seq<ResolvedAddress>, i: int)
    requires
        0 <= i <= addrs.len(),
    ensures
        first_refused(addrs, i) is None <==> forall|k: int| i <= k < addrs.len() ==> #[trigger] refusal(
            addrs[k].ip,
        ) is None,
        first_refused(addrs, i) matches Some(k) ==> i <= k < addrs.len() && refusal(addrs[k].ip) is Some,
    decreases addrs.len() - i,
{
    if i < addrs.len() {
        lemma_first_refused(addrs, i + 1);
    }
}

/// A host is let through exactly when none of the addresses it resolves to
/// is a loopback, unspecified or private one; otherwise the refusal names a
/// refused address.
pub proof fn law_guard_passes_only_public_hosts(addrs: Seq<ResolvedAddress>)
    ensures
        first_refused(addrs, 0) is None <==> forall|k: int| 0 <= k < addrs.len() ==> #[trigger] refusal(
            addrs[k].ip,
        ) is None,
        first_refused(addrs, 0) matches Some(k) ==> 0 <= k < addrs.len() && refusal(addrs[k].ip) is Some,
{
    lemma_first_refused(addrs, 0);
}

/// Host and port (the scheme's default when none is given) that
/// `reqwest::Url::parse` finds in a URL, `None` when it does not parse.
pub uninterp spec fn url_target(text: Seq<char>) -> Option<(Option<Seq<char>>, Option<u16>)>;

/// `reqwest::Url::parse(text)`, then `host_str()` and
/// `port_or_known_default()`. Claims that the result is `Ok` exactly when
/// `url_target` has a target for the text, and that host and port are that
/// target's. The text of a parse error is the `url` crate's; nothing is
/// claimed of it.
#[verifier::external_body]
fn parse_url_target(text: &str) -> (r: Result<(Option<String>, Option<u16>), String>)
    ensures
        r is Ok <==> url_target(text@) is Some,
        r matches Ok((h, p)) ==> url_target(text@) == Some(
            (
                match h {
                    Some(s) => Some(s@),
                    None => None,
                },
                p,
            ),
        ),
{
    match reqwest::Url::parse(text) {
        Ok(url) => Ok((url.host_str().map(|h| h.to_string()), url.port_or_known_default())),
        Err(e) => Err(e.to_string()),
    }
}

/// Where to resolve a URL's host: `host:port`, with port 80 when the URL has
/// none and its scheme has no default.
pub fn download_target(url: &str) -> (r: Result<String, PluginError>)
    ensures
        url_target(url@) is None ==> (r matches Err(PluginError::SecurityViolation(m)) && m@.len() >= 13
            && m@.subrange(0, 13) == "Invalid URL: "@),
        url_target(url@) matches Some((None, _)) ==> (r matches Err(PluginError::SecurityViolation(m))
            && m@ == "Missing host in URL"@),
        url_target(url@) matches Some((Some(h), p)) ==> (r matches Ok(t) && t@ == h + ":"@ + decimal(
            match p {
                Some(n) => n as nat,
                None => 80,
            },
        )),
{
    match parse_url_target(url) {
        Err(e) => {
            let m = concat2("Invalid URL: ", e.as_str());
            proof {
                reveal_strlit("Invalid URL: ");
                assert(m@.subrange(0, 13) =~= "Invalid URL: "@);
            }
            Err(PluginError::SecurityViolation(m))
        },
        Ok((None, _)) => Err(PluginError::SecurityViolation(owned("Missing host in URL"))),
        Ok((Some(h), p)) => {
            let port: u16 = match p {
                Some(n) => n,
                None => 80,
            };
            let digits = decimal_string(port as u64);
            Ok(concat3(h.as_str(), ":", digits.as_str()))
        },
    }
}

} // verus!
