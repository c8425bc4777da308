//! Models, runtimes and the wording of prompts, as configuration files give them.
use vstd::prelude::*;
use crate::config::identifiers;
use crate::config::profile::ProfileDefinition;
use crate::contents;
use crate::error;
use crate::error::CompressionError;
use crate::runtime::model_download;
use crate::runtime::model_download::ModelDownloadSpec;
use crate::text;
use crate::text_map::TextMap;

verus! {

/// The number of tokens that a model reads where nothing else is said.
pub const DEFAULT_CONTEXT_LENGTH: u32 = 32768;

/// The number of tokens that a model writes where nothing else is said.
pub const DEFAULT_MAX_OUTPUT: u32 = 256;

/// The style of prompts where nothing else is said.
pub const DEFAULT_PROMPT_STYLE: &'static str = "detailed";

/// The threads of a runtime where nothing else is said.
pub const DEFAULT_THREADS: &'static str = "auto";

/// The milliseconds that a runtime may take where nothing else is said.
pub const DEFAULT_TIMEOUT_MS: u64 = 12000;

/// The milliseconds that a runtime may take to start where nothing else is said.
pub const DEFAULT_STARTUP_TIMEOUT_MS: u64 = 30000;

/// The error for a name that cannot be used.
pub open spec fn unusable_id_fault(kind: Seq<char>) -> Seq<char> {
    kind + " id cannot be empty or contain control characters"@
}

/// Checks that a name can be used.
pub fn validate_catalog_id(kind: &str, id: &str) -> (r: Result<(), CompressionError>)
    ensures
        match r {
            Ok(_) => identifiers::spec_is_usable_id(id@),
            Err(error) => !identifiers::spec_is_usable_id(id@) && error@
                == error::ErrorView::InvalidConfig(unusable_id_fault(kind@)),
        },
{
    if identifiers::is_usable_id(id) {
        Ok(())
    } else {
        Err(
            CompressionError::InvalidConfig(
                text::concat2(kind, " id cannot be empty or contain control characters"),
            ),
        )
    }
}

/// The error for a catalogue of a version that is not known.
pub open spec fn schema_fault(catalogue: Seq<char>, schema_version: u32) -> Seq<char> {
    "unsupported "@ + catalogue + " schema_version: "@ + text::spec_decimal(schema_version as nat)
}

/// The error for a catalogue of a version that is not known.
fn schema_error(catalogue: &str, schema_version: u32) -> (r: CompressionError)
    ensures
        r@ == error::ErrorView::InvalidConfig(schema_fault(catalogue@, schema_version)),
{
    CompressionError::InvalidConfig(
        text::concat4(
            "unsupported ",
            catalogue,
            " schema_version: ",
            &text::decimal(schema_version as u64),
        ),
    )
}

/// Copies an optional text.
fn copy_option(value: &Option<String>) -> (r: Option<String>)
    ensures
        contents::view_option(r) == contents::view_option(*value),
{
    match value {
        Some(text) => Some(text.clone()),
        None => None,
    }
}

/// Where a model comes from, as a configuration file gives it.
#[derive(Debug)]
pub struct HuggingFaceModelEntry {
    pub repository: String,
    pub revision: String,
    pub filename: String,
    pub sha256: String,
    pub size_bytes: u64,
}

/// A model as a configuration file gives it, under its name.
#[derive(Debug)]
pub struct ModelEntry {
    pub label: String,
    pub adapter: String,
    pub runtime_ref: String,
    pub model_path: Option<String>,
    pub hugging_face: Option<HuggingFaceModelEntry>,
    pub api_model: Option<String>,
    pub quantization: String,
    pub context_length: u32,
    pub thinking: bool,
    pub default_max_output: u32,
    pub prompt_template: String,
    pub prompt_style: String,
    pub supports_json_schema: bool,
}

/// A model that requests can be served with.
#[derive(Debug, Clone)]
pub struct ModelDefinition {
    pub id: String,
    pub label: String,
    pub adapter: String,
    pub runtime_ref: String,
    pub model_path: Option<String>,
    pub download: Option<ModelDownloadSpec>,
    pub api_model: Option<String>,
    pub quantization: String,
    pub context_length: u32,
    pub thinking: bool,
    pub default_max_output: u32,
    pub prompt_template: String,
    pub prompt_style: String,
    pub supports_json_schema: bool,
}

/// Contents of a [`ModelDefinition`].
pub struct ModelView {
    pub id: Seq<char>,
    pub label: Seq<char>,
    pub adapter: Seq<char>,
    pub runtime_ref: Seq<char>,
    pub model_path: Option<Seq<char>>,
    pub download: Option<model_download::SourceView>,
    pub api_model: Option<Seq<char>>,
    pub quantization: Seq<char>,
    pub context_length: u32,
    pub thinking: bool,
    pub default_max_output: u32,
    pub prompt_template: Seq<char>,
    pub prompt_style: Seq<char>,
    pub supports_json_schema: bool,
}

/// The contents of an optional source.
pub open spec fn view_source(source: Option<ModelDownloadSpec>) -> Option<
    model_download::SourceView,
> {
    match source {
        Some(source) => Some(source@),
        None => None,
    }
}

impl View for ModelDefinition {
    type V = ModelView;

    open spec fn view(&self) -> ModelView {
        ModelView {
            id: self.id@,
            label: self.label@,
            adapter: self.adapter@,
            runtime_ref: self.runtime_ref@,
            model_path: contents::view_option(self.model_path),
            download: view_source(self.download),
            api_model: contents::view_option(self.api_model),
            quantization: self.quantization@,
            context_length: self.context_length,
            thinking: self.thinking,
            default_max_output: self.default_max_output,
            prompt_template: self.prompt_template@,
            prompt_style: self.prompt_style@,
            supports_json_schema: self.supports_json_schema,
        }
    }
}

/// The source that an entry gives, if any.
pub open spec fn source_of_entry(entry: ModelEntry) -> Option<model_download::SourceView> {
    match entry.hugging_face {
        Some(source) => Some(
            model_download::SourceView {
                repository: source.repository@,
                revision: source.revision@,
                filename: source.filename@,
                sha256: source.sha256@,
                size_bytes: source.size_bytes as int,
            },
        ),
        None => None,
    }
}

/// The model that an entry under a name gives.
pub open spec fn model_of_entry(id: Seq<char>, entry: ModelEntry) -> ModelView {
    ModelView {
        id,
        label: entry.label@,
        adapter: entry.adapter@,
        runtime_ref: entry.runtime_ref@,
        model_path: contents::view_option(entry.model_path),
        download: source_of_entry(entry),
        api_model: contents::view_option(entry.api_model),
        quantization: entry.quantization@,
        context_length: entry.context_length,
        thinking: entry.thinking,
        default_max_output: entry.default_max_output,
        prompt_template: entry.prompt_template@,
        prompt_style: entry.prompt_style@,
        supports_json_schema: entry.supports_json_schema,
    }
}

/// What is wrong with the first entry from a position on that cannot be used.
pub open spec fn first_model_fault(
    ids: Seq<Seq<char>>,
    entries: Map<Seq<char>, ModelEntry>,
    i: int,
) -> Option<Seq<char>>
    decreases ids.len() - i,
{
    if i >= ids.len() {
        None
    } else if !identifiers::spec_is_usable_id(ids[i]) {
        Some(unusable_id_fault("model"@))
    } else {
        let fault = match source_of_entry(entries[ids[i]]) {
            Some(source) => model_download::source_fault(
                source.repository,
                source.revision,
                source.filename,
                source.sha256,
                source.size_bytes,
            ),
            None => None,
        };
        match fault {
            Some(reason) => Some(reason),
            None => first_model_fault(ids, entries, i + 1),
        }
    }
}

/// What is wrong with a catalogue of models, if anything is.
pub open spec fn model_catalogue_fault(
    schema_version: u32,
    ids: Seq<Seq<char>>,
    entries: Map<Seq<char>, ModelEntry>,
) -> Option<Seq<char>> {
    if schema_version != 1 {
        Some(schema_fault("models"@, schema_version))
    } else {
        match first_model_fault(ids, entries, 0) {
            Some(reason) => Some(reason),
            None => if ids.len() == 0 {
                Some("model catalog must define at least one model"@)
            } else {
                None
            },
        }
    }
}

/// The models of a registry by name.
pub open spec fn model_views(models: Map<Seq<char>, ModelDefinition>) -> Map<Seq<char>, ModelView> {
    Map::new(|id: Seq<char>| models.contains_key(id), |id: Seq<char>| models[id]@)
}

/// The source that an entry gives, if any, unless something is wrong with it.
fn download_of_entry(entry: &ModelEntry) -> (r: Result<Option<ModelDownloadSpec>, CompressionError>)
    ensures
        match r {
            Ok(source) => view_source(source) == source_of_entry(*entry) && (source_of_entry(
                *entry,
            ) matches Some(view) ==> model_download::source_fault(
                view.repository,
                view.revision,
                view.filename,
                view.sha256,
                view.size_bytes,
            ) is None),
            Err(error) => source_of_entry(*entry) matches Some(view)
                && model_download::source_fault(
                view.repository,
                view.revision,
                view.filename,
                view.sha256,
                view.size_bytes,
            ) matches Some(reason) && error@ == error::ErrorView::InvalidConfig(reason),
        },
{
    match &entry.hugging_face {
        Some(source) => match ModelDownloadSpec::new(
            source.repository.clone(),
            source.revision.clone(),
            source.filename.clone(),
            source.sha256.clone(),
            source.size_bytes,
        ) {
            Ok(download) => Ok(Some(download)),
            Err(error) => Err(error),
        },
        None => Ok(None),
    }
}

/// The model that an entry under a name gives.
fn model_from_entry(id: &String, entry: &ModelEntry, download: Option<ModelDownloadSpec>) -> (r:
    ModelDefinition)
    requires
        view_source(download) == source_of_entry(*entry),
    ensures
        r@ == model_of_entry(id@, *entry),
{
    ModelDefinition {
        id: id.clone(),
        label: entry.label.clone(),
        adapter: entry.adapter.clone(),
        runtime_ref: entry.runtime_ref.clone(),
        model_path: copy_option(&entry.model_path),
        download,
        api_model: copy_option(&entry.api_model),
        quantization: entry.quantization.clone(),
        context_length: entry.context_length,
        thinking: entry.thinking,
        default_max_output: entry.default_max_output,
        prompt_template: entry.prompt_template.clone(),
        prompt_style: entry.prompt_style.clone(),
        supports_json_schema: entry.supports_json_schema,
    }
}

/// A longer start of a list holds what a shorter one holds, and the item after it.
proof fn longer_start(ids: Seq<Seq<char>>, i: int)
    requires
        0 <= i < ids.len(),
    ensures
        forall|id: Seq<char>| #[trigger]
            ids.take(i + 1).contains(id) <==> (ids.take(i).contains(id) || id == ids[i]),
{
    let shorter = ids.take(i);
    let longer = ids.take(i + 1);
    assert forall|id: Seq<char>| #[trigger] longer.contains(id) <==> (shorter.contains(id) || id
        == ids[i]) by {
        if shorter.contains(id) {
            assert(longer[shorter.index_of(id)] == id);
        }
        assert(longer[i] == ids[i]);
        if longer.contains(id) {
            let k = longer.index_of(id);
            if k < i {
                assert(shorter[k] == id);
            }
        }
    }
}

/// The models that requests can be served with.
#[derive(Debug, Clone)]
pub struct ModelRegistry {
    models: TextMap<ModelDefinition>,
}

impl ModelRegistry {
    /// The models by name.
    pub closed spec fn models(&self) -> Map<Seq<char>, ModelView> {
        model_views(self.models@)
    }

    /// The models that a configuration file gives, unless something is wrong with it.
    #[verifier::loop_isolation(false)]
    pub fn from_entries(schema_version: u32, entries: &TextMap<ModelEntry>) -> (r: Result<
        ModelRegistry,
        CompressionError,
    >)
        ensures
            match r {
                Ok(registry) => model_catalogue_fault(
                    schema_version,
                    entries.keys(),
                    entries@,
                ) is None && registry.models() == Map::new(
                    |id: Seq<char>| entries@.contains_key(id),
                    |id: Seq<char>| model_of_entry(id, entries@[id]),
                ),
                Err(error) => model_catalogue_fault(
                    schema_version,
                    entries.keys(),
                    entries@,
                ) matches Some(reason) && error@ == error::ErrorView::InvalidConfig(reason),
            },
    {
        if schema_version != 1 {
            return Err(schema_error("models", schema_version));
        }
        let mut models: TextMap<ModelDefinition> = TextMap::new();
        let total: usize = entries.len();
        let ghost ids = entries.keys();
        assert(ids.take(0) =~= Seq::empty());
        let mut i: usize = 0;
        while i < total
            invariant
                i <= total,
                first_model_fault(ids, entries@, 0) == first_model_fault(ids, entries@, i as int),
                forall|id: Seq<char>| #[trigger]
                    models@.contains_key(id) <==> ids.take(i as int).contains(id),
                forall|id: Seq<char>| #[trigger]
                    models@.contains_key(id) ==> entries@.contains_key(id) && models@[id]@
                        == model_of_entry(id, entries@[id]),
            decreases total - i,
        {
            let id: &String = entries.key_at(i);
            let entry: &ModelEntry = entries.value_at(i);
            match validate_catalog_id("model", id) {
                Ok(_) => {},
                Err(error) => {
                    return Err(error);
                },
            }
            let download: Option<ModelDownloadSpec> = match download_of_entry(entry) {
                Ok(download) => download,
                Err(error) => {
                    return Err(error);
                },
            };
            let replaced: Option<ModelDefinition> = models.insert(
                id.clone(),
                model_from_entry(id, entry, download),
            );
            proof {
                longer_start(ids, i as int);
            }
            i = i + 1;
        }
        if total == 0 {
            return Err(
                CompressionError::InvalidConfig(
                    "model catalog must define at least one model".to_owned(),
                ),
            );
        }
        proof {
            assert(ids.take(total as int) =~= ids);
            assert(model_views(models@) =~= Map::new(
                |id: Seq<char>| entries@.contains_key(id),
                |id: Seq<char>| model_of_entry(id, entries@[id]),
            ));
        }
        Ok(ModelRegistry { models })
    }

    /// The model with the name, where there is one.
    pub fn resolve(&self, id: &str) -> (r: Result<&ModelDefinition, CompressionError>)
        ensures
            match r {
                Ok(model) => self.models().contains_key(id@) && model@ == self.models()[id@],
                Err(error) => !self.models().contains_key(id@) && error@
                    == error::ErrorView::UnknownModel(id@),
            },
    {
        match self.models.get(id) {
            Some(model) => Ok(model),
            None => Err(CompressionError::UnknownModel(id.to_owned())),
        }
    }
}

/// How a runtime is started.
#[derive(Debug, Clone, Copy, PartialEq, Eq, Structural)]
pub enum RuntimeLaunchMode {
    External,
    OneShot,
    ManagedSidecar,
    Embedded,
}

/// The name of a way to start a runtime.
pub open spec fn launch_mode_name(mode: RuntimeLaunchMode) -> Seq<char> {
    match mode {
        RuntimeLaunchMode::External => "External"@,
        RuntimeLaunchMode::OneShot => "OneShot"@,
        RuntimeLaunchMode::ManagedSidecar => "ManagedSidecar"@,
        RuntimeLaunchMode::Embedded => "Embedded"@,
    }
}

impl RuntimeLaunchMode {
    /// The name of the way to start a runtime.
    pub fn name(&self) -> (r: &'static str)
        ensures
            r@ == launch_mode_name(*self),
    {
        match self {
            RuntimeLaunchMode::External => "External",
            RuntimeLaunchMode::OneShot => "OneShot",
            RuntimeLaunchMode::ManagedSidecar => "ManagedSidecar",
            RuntimeLaunchMode::Embedded => "Embedded",
        }
    }
}

/// A runtime as a configuration file gives it, under its name.
#[derive(Debug)]
pub struct RuntimeEntry {
    pub backend_kind: String,
    pub launch_mode: Option<RuntimeLaunchMode>,
    pub executable_path: Option<String>,
    pub base_url: Option<String>,
    pub api_token_env: Option<String>,
    pub health_path: Option<String>,
    pub startup_timeout_ms: u64,
    pub threads: String,
    pub timeout_ms: u64,
}

/// A runtime that models run on.
#[derive(Debug, Clone)]
pub struct RuntimeDefinition {
    pub id: String,
    pub backend_kind: String,
    pub launch_mode: RuntimeLaunchMode,
    pub executable_path: Option<String>,
    pub base_url: Option<String>,
    pub api_token_env: Option<String>,
    pub health_path: Option<String>,
    pub startup_timeout_ms: u64,
    pub threads: String,
    pub timeout_ms: u64,
}

/// Contents of a [`RuntimeDefinition`].
pub struct RuntimeView {
    pub id: Seq<char>,
    pub backend_kind: Seq<char>,
    pub launch_mode: RuntimeLaunchMode,
    pub executable_path: Option<Seq<char>>,
    pub base_url: Option<Seq<char>>,
    pub api_token_env: Option<Seq<char>>,
    pub health_path: Option<Seq<char>>,
    pub startup_timeout_ms: u64,
    pub threads: Seq<char>,
    pub timeout_ms: u64,
}

impl View for RuntimeDefinition {
    type V = RuntimeView;

    open spec fn view(&self) -> RuntimeView {
        RuntimeView {
            id: self.id@,
            backend_kind: self.backend_kind@,
            launch_mode: self.launch_mode,
            executable_path: contents::view_option(self.executable_path),
            base_url: contents::view_option(self.base_url),
            api_token_env: contents::view_option(self.api_token_env),
            health_path: contents::view_option(self.health_path),
            startup_timeout_ms: self.startup_timeout_ms,
            threads: self.threads@,
            timeout_ms: self.timeout_ms,
        }
    }
}

/// How a runtime of the kind is started: as the entry says, else once for each request where it is
/// llama.cpp, and not at all where it is not.
pub open spec fn launch_mode_of(backend_kind: Seq<char>, mode: Option<RuntimeLaunchMode>) -> RuntimeLaunchMode {
    match mode {
        Some(mode) => mode,
        None => if backend_kind == "llama.cpp"@ {
            RuntimeLaunchMode::OneShot
        } else {
            RuntimeLaunchMode::External
        },
    }
}

/// The runtime that an entry under a name gives.
pub open spec fn runtime_of_entry(id: Seq<char>, entry: RuntimeEntry) -> RuntimeView {
    RuntimeView {
        id,
        backend_kind: entry.backend_kind@,
        launch_mode: launch_mode_of(entry.backend_kind@, entry.launch_mode),
        executable_path: contents::view_option(entry.executable_path),
        base_url: contents::view_option(entry.base_url),
        api_token_env: contents::view_option(entry.api_token_env),
        health_path: contents::view_option(entry.health_path),
        startup_timeout_ms: entry.startup_timeout_ms,
        threads: entry.threads@,
        timeout_ms: entry.timeout_ms,
    }
}

/// The runtime that an entry under a name gives.
fn runtime_from_entry(id: &String, entry: &RuntimeEntry) -> (r: RuntimeDefinition)
    ensures
        r@ == runtime_of_entry(id@, *entry),
{
    let launch_mode: RuntimeLaunchMode = match entry.launch_mode {
        Some(mode) => mode,
        None => if text::same(&entry.backend_kind, "llama.cpp") {
            RuntimeLaunchMode::OneShot
        } else {
            RuntimeLaunchMode::External
        },
    };
    RuntimeDefinition {
        id: id.clone(),
        backend_kind: entry.backend_kind.clone(),
        launch_mode,
        executable_path: copy_option(&entry.executable_path),
        base_url: copy_option(&entry.base_url),
        api_token_env: copy_option(&entry.api_token_env),
        health_path: copy_option(&entry.health_path),
        startup_timeout_ms: entry.startup_timeout_ms,
        threads: entry.threads.clone(),
        timeout_ms: entry.timeout_ms,
    }
}

/// What is wrong with a catalogue of runtimes, if anything is.
pub open spec fn runtime_catalogue_fault(schema_version: u32, ids: Seq<Seq<char>>) -> Option<
    Seq<char>,
> {
    if schema_version != 1 {
        Some(schema_fault("runtimes"@, schema_version))
    } else if identifiers::spec_first_unusable(ids, 0) is Some {
        Some(unusable_id_fault("runtime"@))
    } else if ids.len() == 0 {
        Some("runtime catalog must define at least one runtime"@)
    } else {
        None
    }
}

/// The runtimes of a registry by name.
pub open spec fn runtime_views(runtimes: Map<Seq<char>, RuntimeDefinition>) -> Map<
    Seq<char>,
    RuntimeView,
> {
    Map::new(|id: Seq<char>| runtimes.contains_key(id), |id: Seq<char>| runtimes[id]@)
}

/// The runtimes that models run on.
#[derive(Debug, Clone)]
pub struct RuntimeRegistry {
    runtimes: TextMap<RuntimeDefinition>,
}

impl RuntimeRegistry {
    /// The runtimes by name.
    pub closed spec fn runtimes(&self) -> Map<Seq<char>, RuntimeView> {
        runtime_views(self.runtimes@)
    }

    /// The runtimes that a configuration file gives, unless something is wrong with it.
    #[verifier::loop_isolation(false)]
    pub fn from_entries(schema_version: u32, entries: &TextMap<RuntimeEntry>) -> (r: Result<
        RuntimeRegistry,
        CompressionError,
    >)
        ensures
            match r {
                Ok(registry) => runtime_catalogue_fault(schema_version, entries.keys()) is None
                    && registry.runtimes() == Map::new(
                    |id: Seq<char>| entries@.contains_key(id),
                    |id: Seq<char>| runtime_of_entry(id, entries@[id]),
                ),
                Err(error) => runtime_catalogue_fault(
                    schema_version,
                    entries.keys(),
                ) matches Some(reason) && error@ == error::ErrorView::InvalidConfig(reason),
            },
    {
        if schema_version != 1 {
            return Err(schema_error("runtimes", schema_version));
        }
        let mut runtimes: TextMap<RuntimeDefinition> = TextMap::new();
        let total: usize = entries.len();
        let ghost ids = entries.keys();
        assert(ids.take(0) =~= Seq::empty());
        let mut i: usize = 0;
        while i < total
            invariant
                i <= total,
                identifiers::spec_first_unusable(ids, 0) == identifiers::spec_first_unusable(
                    ids,
                    i as int,
                ),
                forall|id: Seq<char>| #[trigger]
                    runtimes@.contains_key(id) <==> ids.take(i as int).contains(id),
                forall|id: Seq<char>| #[trigger]
                    runtimes@.contains_key(id) ==> entries@.contains_key(id) && runtimes@[id]@
                        == runtime_of_entry(id, entries@[id]),
            decreases total - i,
        {
            let id: &String = entries.key_at(i);
            match validate_catalog_id("runtime", id) {
                Ok(_) => {},
                Err(error) => {
                    return Err(error);
                },
            }
            let replaced: Option<RuntimeDefinition> = runtimes.insert(
                id.clone(),
                runtime_from_entry(id, entries.value_at(i)),
            );
            proof {
                longer_start(ids, i as int);
            }
            i = i + 1;
        }
        if total == 0 {
            return Err(
                CompressionError::InvalidConfig(
                    "runtime catalog must define at least one runtime".to_owned(),
                ),
            );
        }
        proof {
            assert(ids.take(total as int) =~= ids);
            assert(runtime_views(runtimes@) =~= Map::new(
                |id: Seq<char>| entries@.contains_key(id),
                |id: Seq<char>| runtime_of_entry(id, entries@[id]),
            ));
        }
        Ok(RuntimeRegistry { runtimes })
    }

    /// The runtime with the name, where there is one.
    pub fn resolve(&self, id: &str) -> (r: Result<&RuntimeDefinition, CompressionError>)
        ensures
            match r {
                Ok(runtime) => self.runtimes().contains_key(id@) && runtime@
                    == self.runtimes()[id@],
                Err(error) => !self.runtimes().contains_key(id@) && error@
                    == error::ErrorView::UnknownRuntime(id@),
            },
    {
        match self.runtimes.get(id) {
            Some(runtime) => Ok(runtime),
            None => Err(CompressionError::UnknownRuntime(id.to_owned())),
        }
    }
}

/// The error for a model that is meant for another runtime than its profile names.
pub open spec fn runtime_mismatch(
    model: ModelView,
    profile_id: Seq<char>,
    runtime_id: Seq<char>,
) -> Seq<char> {
    "model '"@ + model.id + "' uses runtime '"@ + model.runtime_ref + "', but profile '"@
        + profile_id + "' points to '"@ + runtime_id + "'"@
}

/// The model and the runtime that serve a profile.
pub fn resolve_model_and_runtime<'a>(
    models: &'a ModelRegistry,
    runtimes: &'a RuntimeRegistry,
    profile: &ProfileDefinition,
) -> (r: Result<(&'a ModelDefinition, &'a RuntimeDefinition), CompressionError>)
    ensures
        ({
            let model = models.models()[profile@.model_ref];
            let runtime = runtimes.runtimes()[profile@.runtime_ref];
            if !models.models().contains_key(profile@.model_ref) {
                r matches Err(error) && error@ == error::ErrorView::UnknownModel(profile@.model_ref)
            } else if !runtimes.runtimes().contains_key(profile@.runtime_ref) {
                r matches Err(error) && error@ == error::ErrorView::UnknownRuntime(
                    profile@.runtime_ref,
                )
            } else if model.runtime_ref != runtime.id {
                r matches Err(error) && error@ == error::ErrorView::InvalidConfig(
                    runtime_mismatch(model, profile@.id, runtime.id),
                )
            } else {
                r matches Ok((found_model, found_runtime)) && found_model@ == model
                    && found_runtime@ == runtime
            }
        }),
{
    let model: &ModelDefinition = match models.resolve(&profile.model_ref) {
        Ok(model) => model,
        Err(error) => {
            return Err(error);
        },
    };
    let runtime: &RuntimeDefinition = match runtimes.resolve(&profile.runtime_ref) {
        Ok(runtime) => runtime,
        Err(error) => {
            return Err(error);
        },
    };
    if !text::same(&model.runtime_ref, &runtime.id) {
        let start: String = text::concat4(
            "model '",
            &model.id,
            "' uses runtime '",
            &model.runtime_ref,
        );
        let end: String = text::concat4("' points to '", &runtime.id, "'", "");
        proof {
            reveal_strlit("");
            assert(end@ =~= "' points to '"@ + runtime.id@ + "'"@);
        }
        let reason: String = text::concat4(&start, "', but profile '", &profile.id, &end);
        assert(reason@ =~= runtime_mismatch(model@, profile@.id, runtime@.id));
        return Err(CompressionError::InvalidConfig(reason));
    }
    Ok((model, runtime))
}

/// How the requests of a profile are served.
#[derive(Debug, Clone, Copy, PartialEq, Eq, Structural)]
pub enum RuntimeRoute {
    /// A process of llama.cpp for each request.
    OneShot,
    /// A server of llama.cpp that is kept running.
    ManagedServer,
    /// A model inside the application.
    Embedded,
    /// A server of LM Studio.
    LmStudio,
}

/// How requests are served on a runtime, where that is possible.
pub open spec fn spec_route(backend_kind: Seq<char>, mode: RuntimeLaunchMode) -> Option<
    RuntimeRoute,
> {
    if backend_kind == "llama.cpp"@ {
        match mode {
            RuntimeLaunchMode::OneShot => Some(RuntimeRoute::OneShot),
            RuntimeLaunchMode::ManagedSidecar => Some(RuntimeRoute::ManagedServer),
            RuntimeLaunchMode::Embedded => Some(RuntimeRoute::Embedded),
            RuntimeLaunchMode::External => None,
        }
    } else if (backend_kind == "lmstudio"@ || backend_kind == "lm_studio"@ || backend_kind
        == "lm-studio"@) && mode == RuntimeLaunchMode::External {
        Some(RuntimeRoute::LmStudio)
    } else {
        None
    }
}

impl RuntimeDefinition {
    /// How requests are served on the runtime, where that is possible.
    pub fn route(&self) -> (r: Option<RuntimeRoute>)
        ensures
            r == spec_route(self@.backend_kind, self@.launch_mode),
    {
        if text::same(&self.backend_kind, "llama.cpp") {
            match self.launch_mode {
                RuntimeLaunchMode::OneShot => Some(RuntimeRoute::OneShot),
                RuntimeLaunchMode::ManagedSidecar => Some(RuntimeRoute::ManagedServer),
                RuntimeLaunchMode::Embedded => Some(RuntimeRoute::Embedded),
                RuntimeLaunchMode::External => None,
            }
        } else if (text::same(&self.backend_kind, "lmstudio") || text::same(
            &self.backend_kind,
            "lm_studio",
        ) || text::same(&self.backend_kind, "lm-studio")) && self.launch_mode
            == RuntimeLaunchMode::External {
            Some(RuntimeRoute::LmStudio)
        } else {
            None
        }
    }

    /// How requests are served on the runtime, or the error where that is not possible.
    pub fn require_route(&self) -> (r: Result<RuntimeRoute, CompressionError>)
        ensures
            match spec_route(self@.backend_kind, self@.launch_mode) {
                Some(route) => r == Ok::<RuntimeRoute, CompressionError>(route),
                None => r matches Err(error) && error@ == error::ErrorView::Runtime(
                    "unsupported runtime backend '"@ + self@.backend_kind + "' with launch_mode '"@
                        + launch_mode_name(self@.launch_mode) + "' for runtime '"@ + self@.id
                        + "'"@,
                ),
            },
    {
        match self.route() {
            Some(route) => Ok(route),
            None => {
                let start: String = text::concat5(
                    "unsupported runtime backend '",
                    &self.backend_kind,
                    "' with launch_mode '",
                    self.launch_mode.name(),
                    "' for runtime '",
                );
                Err(CompressionError::Runtime(text::concat3(&start, &self.id, "'")))
            },
        }
    }

    /// Whether the model runs inside the application.
    pub fn is_embedded(&self) -> (r: bool)
        ensures
            r == (spec_route(self@.backend_kind, self@.launch_mode) == Some(
                RuntimeRoute::Embedded,
            )),
    {
        text::same(&self.backend_kind, "llama.cpp") && self.launch_mode
            == RuntimeLaunchMode::Embedded
    }
}

/// How prompts of a level are worded.
#[derive(Debug, Clone)]
pub struct PromptProfileDefinition {
    pub target_ratio: String,
    pub instruction: String,
    pub format_instruction: String,
    pub allow_semantic_shortening: bool,
}

/// Contents of a [`PromptProfileDefinition`].
pub struct WordingView {
    pub target_ratio: Seq<char>,
    pub instruction: Seq<char>,
    pub format_instruction: Seq<char>,
    pub allow_semantic_shortening: bool,
}

impl View for PromptProfileDefinition {
    type V = WordingView;

    open spec fn view(&self) -> WordingView {
        WordingView {
            target_ratio: self.target_ratio@,
            instruction: self.instruction@,
            format_instruction: self.format_instruction@,
            allow_semantic_shortening: self.allow_semantic_shortening,
        }
    }
}

/// The wording of a level as a configuration file gives it, under its name.
#[derive(Debug)]
pub struct PromptProfileEntry {
    pub level: u8,
    pub target_ratio: String,
    pub instruction: String,
    pub format_instruction: String,
    pub allow_semantic_shortening: bool,
}

/// The wording that an entry gives.
pub open spec fn wording_of_entry(entry: PromptProfileEntry) -> WordingView {
    WordingView {
        target_ratio: entry.target_ratio@,
        instruction: entry.instruction@,
        format_instruction: entry.format_instruction@,
        allow_semantic_shortening: entry.allow_semantic_shortening,
    }
}

/// The wording that an entry gives.
fn wording_from_entry(entry: &PromptProfileEntry) -> (r: PromptProfileDefinition)
    ensures
        r@ == wording_of_entry(*entry),
{
    PromptProfileDefinition {
        target_ratio: entry.target_ratio.clone(),
        instruction: entry.instruction.clone(),
        format_instruction: entry.format_instruction.clone(),
        allow_semantic_shortening: entry.allow_semantic_shortening,
    }
}

/// The first position below `n` whose entry is for the level.
pub open spec fn entry_for_level(
    ids: Seq<Seq<char>>,
    entries: Map<Seq<char>, PromptProfileEntry>,
    level: u8,
    n: int,
) -> Option<int>
    decreases n,
{
    if n <= 0 {
        None
    } else {
        match entry_for_level(ids, entries, level, n - 1) {
            Some(i) => Some(i),
            None => if entries[ids[n - 1]].level == level {
                Some(n - 1)
            } else {
                None
            },
        }
    }
}

/// What is wrong with the first entry from a position on that cannot be used.
pub open spec fn first_wording_fault(
    ids: Seq<Seq<char>>,
    entries: Map<Seq<char>, PromptProfileEntry>,
    i: int,
) -> Option<Seq<char>>
    decreases ids.len() - i,
{
    if i >= ids.len() {
        None
    } else {
        let level = entries[ids[i]].level;
        if !identifiers::spec_is_usable_id(ids[i]) {
            Some(unusable_id_fault("prompt profile"@))
        } else if !(1 <= level <= 3) {
            Some(
                "prompt profile '"@ + ids[i] + "' has unsupported level "@ + text::spec_decimal(
                    level as nat,
                ),
            )
        } else if entry_for_level(ids, entries, level, i) is Some {
            Some(
                "multiple prompt profiles target compression level "@ + text::spec_decimal(
                    level as nat,
                ),
            )
        } else {
            first_wording_fault(ids, entries, i + 1)
        }
    }
}

/// The error for a level without a wording.
pub open spec fn missing_level_fault(level: u8) -> Seq<char> {
    "level prompt profiles do not define compression level "@ + text::spec_decimal(level as nat)
}

/// What is wrong with a catalogue of wordings, if anything is.
pub open spec fn wording_catalogue_fault(
    schema_version: u32,
    catalogue_id: Seq<char>,
    ids: Seq<Seq<char>>,
    entries: Map<Seq<char>, PromptProfileEntry>,
) -> Option<Seq<char>> {
    let total = ids.len() as int;
    if schema_version != 1 {
        Some(schema_fault("level prompt profiles"@, schema_version))
    } else if text::spec_trim(catalogue_id).len() == 0 {
        Some("level prompt profile id cannot be empty"@)
    } else {
        match first_wording_fault(ids, entries, 0) {
            Some(reason) => Some(reason),
            None => if entry_for_level(ids, entries, 1, total) is None {
                Some(missing_level_fault(1))
            } else if entry_for_level(ids, entries, 2, total) is None {
                Some(missing_level_fault(2))
            } else if entry_for_level(ids, entries, 3, total) is None {
                Some(missing_level_fault(3))
            } else {
                None
            },
        }
    }
}

/// How prompts are worded: what all levels share, and what each has of its own.
#[derive(Debug, Clone)]
pub struct PromptProfileRegistry {
    shared_instruction: String,
    first: PromptProfileDefinition,
    second: PromptProfileDefinition,
    third: PromptProfileDefinition,
}

/// The error for a level without a wording.
fn missing_level(level: u8) -> (r: CompressionError)
    ensures
        r@ == error::ErrorView::InvalidConfig(missing_level_fault(level)),
{
    CompressionError::InvalidConfig(
        text::concat2(
            "level prompt profiles do not define compression level ",
            &text::decimal(level as u64),
        ),
    )
}

/// A position that is found holds an entry for the level.
proof fn entry_for_level_fits(
    ids: Seq<Seq<char>>,
    entries: Map<Seq<char>, PromptProfileEntry>,
    level: u8,
    n: int,
)
    ensures
        entry_for_level(ids, entries, level, n) matches Some(i) ==> 0 <= i < n
            && entries[ids[i]].level == level,
    decreases n,
{
    if n > 0 {
        entry_for_level_fits(ids, entries, level, n - 1);
    }
}

/// The first position whose entry is for the level.
fn find_level(entries: &TextMap<PromptProfileEntry>, level: u8, n: usize) -> (r: Option<usize>)
    requires
        n <= entries.keys().len(),
    ensures
        match r {
            Some(i) => entry_for_level(entries.keys(), entries@, level, n as int) == Some(i as int)
                && i < n,
            None => entry_for_level(entries.keys(), entries@, level, n as int) is None,
        },
{
    let ghost ids = entries.keys();
    let mut found: Option<usize> = None;
    let mut i: usize = 0;
    while i < n
        invariant
            i <= n <= ids.len(),
            ids == entries.keys(),
            match found {
                Some(k) => entry_for_level(ids, entries@, level, i as int) == Some(k as int) && k
                    < i,
                None => entry_for_level(ids, entries@, level, i as int) is None,
            },
        decreases n - i,
    {
        if found.is_none() && entries.value_at(i).level == level {
            found = Some(i);
        }
        i = i + 1;
    }
    found
}

impl PromptProfileRegistry {
    /// What all levels share.
    pub closed spec fn spec_shared_instruction(&self) -> Seq<char> {
        self.shared_instruction@
    }

    /// The wording of a level, where there is one.
    pub closed spec fn wording(&self, level: u8) -> Option<WordingView> {
        if level == 1 {
            Some(self.first@)
        } else if level == 2 {
            Some(self.second@)
        } else if level == 3 {
            Some(self.third@)
        } else {
            None
        }
    }

    /// The wordings that a configuration file gives, unless something is wrong with it.
    #[verifier::loop_isolation(false)]
    pub fn from_entries(
        schema_version: u32,
        catalogue_id: &str,
        shared_instruction: String,
        entries: &TextMap<PromptProfileEntry>,
    ) -> (r: Result<PromptProfileRegistry, CompressionError>)
        ensures
            match r {
                Ok(registry) => wording_catalogue_fault(
                    schema_version,
                    catalogue_id@,
                    entries.keys(),
                    entries@,
                ) is None && registry.spec_shared_instruction() == shared_instruction@ && forall|
                    level: u8,
                |
                    #![trigger registry.wording(level)]
                    if 1 <= level <= 3 {
                        entry_for_level(
                            entries.keys(),
                            entries@,
                            level,
                            entries.keys().len() as int,
                        ) matches Some(i) && registry.wording(level) == Some(
                            wording_of_entry(entries@[entries.keys()[i]]),
                        )
                    } else {
                        registry.wording(level) is None
                    },
                Err(error) => wording_catalogue_fault(
                    schema_version,
                    catalogue_id@,
                    entries.keys(),
                    entries@,
                ) matches Some(reason) && error@ == error::ErrorView::InvalidConfig(reason),
            },
    {
        if schema_version != 1 {
            return Err(schema_error("level prompt profiles", schema_version));
        }
        if text::char_count(&text::trim(catalogue_id)) == 0 {
            return Err(
                CompressionError::InvalidConfig(
                    "level prompt profile id cannot be empty".to_owned(),
                ),
            );
        }
        let total: usize = entries.len();
        let ghost ids = entries.keys();
        let mut i: usize = 0;
        while i < total
            invariant
                i <= total,
                first_wording_fault(ids, entries@, 0) == first_wording_fault(
                    ids,
                    entries@,
                    i as int,
                ),
            decreases total - i,
        {
            let id: &String = entries.key_at(i);
            let level: u8 = entries.value_at(i).level;
            match validate_catalog_id("prompt profile", id) {
                Ok(_) => {},
                Err(error) => {
                    return Err(error);
                },
            }
            if !(1 <= level && level <= 3) {
                return Err(
                    CompressionError::InvalidConfig(
                        text::concat4(
                            "prompt profile '",
                            id,
                            "' has unsupported level ",
                            &text::decimal(level as u64),
                        ),
                    ),
                );
            }
            if find_level(entries, level, i).is_some() {
                return Err(
                    CompressionError::InvalidConfig(
                        text::concat2(
                            "multiple prompt profiles target compression level ",
                            &text::decimal(level as u64),
                        ),
                    ),
                );
            }
            i = i + 1;
        }
        let first: PromptProfileDefinition = match find_level(entries, 1, total) {
            Some(i) => wording_from_entry(entries.value_at(i)),
            None => {
                return Err(missing_level(1));
            },
        };
        let second: PromptProfileDefinition = match find_level(entries, 2, total) {
            Some(i) => wording_from_entry(entries.value_at(i)),
            None => {
                return Err(missing_level(2));
            },
        };
        let third: PromptProfileDefinition = match find_level(entries, 3, total) {
            Some(i) => wording_from_entry(entries.value_at(i)),
            None => {
                return Err(missing_level(3));
            },
        };
        Ok(PromptProfileRegistry { shared_instruction, first, second, third })
    }

    /// What all levels share.
    pub fn shared_instruction(&self) -> (r: &str)
        ensures
            r@ == self.spec_shared_instruction(),
    {
        &self.shared_instruction
    }

    /// The wording of a level.
    pub fn resolve(&self, level: u8) -> (r: Result<&PromptProfileDefinition, CompressionError>)
        ensures
            match r {
                Ok(wording) => self.wording(level) == Some(wording@),
                Err(error) => self.wording(level) is None && error@
                    == error::ErrorView::InvalidConfig(missing_level_fault(level)),
            },
    {
        match level {
            1 => Ok(&self.first),
            2 => Ok(&self.second),
            3 => Ok(&self.third),
            _ => Err(missing_level(level)),
        }
    }
}

/// In a catalogue of wordings without faults each level has the wording of exactly one entry.
pub proof fn each_level_has_one_wording(
    ids: Seq<Seq<char>>,
    entries: Map<Seq<char>, PromptProfileEntry>,
    i: int,
    j: int,
)
    requires
        first_wording_fault(ids, entries, 0) is None,
        0 <= i < j < ids.len(),
    ensures
        entries[ids[i]].level != entries[ids[j]].level,
{
    no_fault_from(ids, entries, 0, j);
    if entries[ids[i]].level == entries[ids[j]].level {
        found_by(ids, entries, entries[ids[j]].level, i, j);
    }
}

/// Where nothing is wrong from a position on, nothing is wrong from a later one on.
proof fn no_fault_from(
    ids: Seq<Seq<char>>,
    entries: Map<Seq<char>, PromptProfileEntry>,
    i: int,
    j: int,
)
    requires
        first_wording_fault(ids, entries, i) is None,
        0 <= i <= j <= ids.len(),
    ensures
        first_wording_fault(ids, entries, j) is None,
    decreases j - i,
{
    if i < j {
        no_fault_from(ids, entries, i + 1, j);
    }
}

/// A level with an entry below a position is found below it.
proof fn found_by(
    ids: Seq<Seq<char>>,
    entries: Map<Seq<char>, PromptProfileEntry>,
    level: u8,
    i: int,
    n: int,
)
    requires
        0 <= i < n,
        entries[ids[i]].level == level,
    ensures
        entry_for_level(ids, entries, level, n) is Some,
    decreases n,
{
    if i < n - 1 {
        found_by(ids, entries, level, i, n - 1);
    }
}

/// The models of a configuration are accepted where it is of the first version, holds a model,
/// each name can be used, and nothing is wrong with the source of any of them; only there.
pub proof fn accepted_models(
    schema_version: u32,
    ids: Seq<Seq<char>>,
    entries: Map<Seq<char>, ModelEntry>,
)
    ensures
        model_catalogue_fault(schema_version, ids, entries) is None <==> {
            &&& schema_version == 1
            &&& ids.len() > 0
            &&& forall|k: int|
                0 <= k < ids.len() ==> identifiers::spec_is_usable_id(#[trigger] ids[k])
            &&& forall|k: int|
                #![trigger ids[k]]
                0 <= k < ids.len() && entries[ids[k]].hugging_face is Some
                    ==> model_download::source_fault(
                    entries[ids[k]].hugging_face->0.repository@,
                    entries[ids[k]].hugging_face->0.revision@,
                    entries[ids[k]].hugging_face->0.filename@,
                    entries[ids[k]].hugging_face->0.sha256@,
                    entries[ids[k]].hugging_face->0.size_bytes as int,
                ) is None
        },
{
    models_without_fault(ids, entries, 0);
}

/// Nothing is wrong with models from a position on where each can be used.
proof fn models_without_fault(ids: Seq<Seq<char>>, entries: Map<Seq<char>, ModelEntry>, i: int)
    requires
        0 <= i,
    ensures
        first_model_fault(ids, entries, i) is None <==> {
            &&& forall|k: int|
                i <= k < ids.len() ==> identifiers::spec_is_usable_id(#[trigger] ids[k])
            &&& forall|k: int|
                #![trigger ids[k]]
                i <= k < ids.len() && entries[ids[k]].hugging_face is Some
                    ==> model_download::source_fault(
                    entries[ids[k]].hugging_face->0.repository@,
                    entries[ids[k]].hugging_face->0.revision@,
                    entries[ids[k]].hugging_face->0.filename@,
                    entries[ids[k]].hugging_face->0.sha256@,
                    entries[ids[k]].hugging_face->0.size_bytes as int,
                ) is None
        },
    decreases ids.len() - i,
{
    if i < ids.len() {
        models_without_fault(ids, entries, i + 1);
    }
}

/// The runtimes of a configuration are accepted where it is of the first version, holds a runtime,
/// and each name can be used; only there.
pub proof fn accepted_runtimes(schema_version: u32, ids: Seq<Seq<char>>)
    ensures
        runtime_catalogue_fault(schema_version, ids) is None <==> {
            &&& schema_version == 1
            &&& ids.len() > 0
            &&& forall|k: int|
                0 <= k < ids.len() ==> identifiers::spec_is_usable_id(#[trigger] ids[k])
        },
{
    identifiers::names_are_all_usable(ids, 0);
}

/// The wordings of a configuration are accepted where it is of the first version, its own name is
/// not blank, each name can be used, each wording is for one of the levels from one to three, no
/// two are for the same, and each of these levels has one; only there.
pub proof fn accepted_wordings(
    schema_version: u32,
    catalogue_id: Seq<char>,
    ids: Seq<Seq<char>>,
    entries: Map<Seq<char>, PromptProfileEntry>,
)
    ensures
        wording_catalogue_fault(schema_version, catalogue_id, ids, entries) is None <==> {
            &&& schema_version == 1
            &&& exists|i: int|
                0 <= i < catalogue_id.len() && !text::spec_is_whitespace(
                    #[trigger] catalogue_id[i],
                )
            &&& forall|k: int|
                0 <= k < ids.len() ==> identifiers::spec_is_usable_id(#[trigger] ids[k])
            &&& forall|k: int|
                0 <= k < ids.len() ==> 1 <= entries[#[trigger] ids[k]].level <= 3
            &&& forall|j: int, k: int|
                0 <= j < k < ids.len() ==> entries[#[trigger] ids[j]].level
                    != entries[#[trigger] ids[k]].level
            &&& exists|k: int| 0 <= k < ids.len() && entries[#[trigger] ids[k]].level == 1
            &&& exists|k: int| 0 <= k < ids.len() && entries[#[trigger] ids[k]].level == 2
            &&& exists|k: int| 0 <= k < ids.len() && entries[#[trigger] ids[k]].level == 3
        },
{
    text::texts_with_more_than_white_space(catalogue_id);
    wordings_without_fault(ids, entries, 0);
    level_is_found(ids, entries, 1, ids.len() as int);
    level_is_found(ids, entries, 2, ids.len() as int);
    level_is_found(ids, entries, 3, ids.len() as int);
}

/// A level is found below a position where an entry below it is for the level, and only there.
proof fn level_is_found(
    ids: Seq<Seq<char>>,
    entries: Map<Seq<char>, PromptProfileEntry>,
    level: u8,
    n: int,
)
    ensures
        entry_for_level(ids, entries, level, n) is Some <==> exists|k: int|
            0 <= k < n && entries[#[trigger] ids[k]].level == level,
{
    entry_for_level_fits(ids, entries, level, n);
    if exists|k: int| 0 <= k < n && entries[#[trigger] ids[k]].level == level {
        let k = choose|k: int| 0 <= k < n && entries[#[trigger] ids[k]].level == level;
        found_by(ids, entries, level, k, n);
    }
}

/// Nothing is wrong with wordings from a position on where each can be used and is for a level of
/// its own.
proof fn wordings_without_fault(
    ids: Seq<Seq<char>>,
    entries: Map<Seq<char>, PromptProfileEntry>,
    i: int,
)
    requires
        0 <= i,
    ensures
        first_wording_fault(ids, entries, i) is None <==> {
            &&& forall|k: int|
                i <= k < ids.len() ==> identifiers::spec_is_usable_id(#[trigger] ids[k])
            &&& forall|k: int|
                i <= k < ids.len() ==> 1 <= entries[#[trigger] ids[k]].level <= 3
            &&& forall|j: int, k: int|
                0 <= j < k < ids.len() && i <= k ==> entries[#[trigger] ids[j]].level
                    != entries[#[trigger] ids[k]].level
        },
    decreases ids.len() - i,
{
    if i < ids.len() {
        wordings_without_fault(ids, entries, i + 1);
        level_is_found(ids, entries, entries[ids[i]].level, i);
    }
}

/// A runtime is started as its entry says. Where the entry says nothing, llama.cpp is started once
/// for each request, and any other runtime is not started.
pub proof fn runtimes_are_started_as_told(id: Seq<char>, entry: RuntimeEntry)
    ensures
        entry.launch_mode matches Some(mode) ==> runtime_of_entry(id, entry).launch_mode == mode,
        entry.launch_mode is None && entry.backend_kind@ == "llama.cpp"@ ==> runtime_of_entry(
            id,
            entry,
        ).launch_mode == RuntimeLaunchMode::OneShot,
        entry.launch_mode is None && entry.backend_kind@ != "llama.cpp"@ ==> runtime_of_entry(
            id,
            entry,
        ).launch_mode == RuntimeLaunchMode::External,
{
}

/// Requests are served by llama.cpp where it is started in some way, and by LM Studio, under any
/// of its three names, where it is not started. Nothing else serves requests.
pub proof fn routes_of_requests(backend_kind: Seq<char>, mode: RuntimeLaunchMode)
    ensures
        spec_route(backend_kind, mode) == Some(RuntimeRoute::OneShot) <==> backend_kind
            == "llama.cpp"@ && mode == RuntimeLaunchMode::OneShot,
        spec_route(backend_kind, mode) == Some(RuntimeRoute::ManagedServer) <==> backend_kind
            == "llama.cpp"@ && mode == RuntimeLaunchMode::ManagedSidecar,
        spec_route(backend_kind, mode) == Some(RuntimeRoute::Embedded) <==> backend_kind
            == "llama.cpp"@ && mode == RuntimeLaunchMode::Embedded,
        spec_route(backend_kind, mode) == Some(RuntimeRoute::LmStudio) <==> (backend_kind
            == "lmstudio"@ || backend_kind == "lm_studio"@ || backend_kind == "lm-studio"@) && mode
            == RuntimeLaunchMode::External,
{
    reveal_strlit("llama.cpp");
    reveal_strlit("lmstudio");
    reveal_strlit("lm_studio");
    reveal_strlit("lm-studio");
    assert("llama.cpp"@[1] == 'l' && "lmstudio"@[1] == 'm');
    assert("lm_studio"@[1] == 'm' && "lm-studio"@[1] == 'm');
}

/// A model is what its entry says, under the name of the entry.
pub proof fn models_are_their_entries(id: Seq<char>, entry: ModelEntry)
    ensures
        ({
            let model = model_of_entry(id, entry);
            &&& model.id == id
            &&& model.label == entry.label@
            &&& model.adapter == entry.adapter@
            &&& model.runtime_ref == entry.runtime_ref@
            &&& model.model_path == contents::view_option(entry.model_path)
            &&& model.api_model == contents::view_option(entry.api_model)
            &&& model.quantization == entry.quantization@
            &&& model.context_length == entry.context_length
            &&& model.thinking == entry.thinking
            &&& model.default_max_output == entry.default_max_output
            &&& model.prompt_template == entry.prompt_template@
            &&& model.prompt_style == entry.prompt_style@
            &&& model.supports_json_schema == entry.supports_json_schema
            &&& model.download is Some <==> entry.hugging_face is Some
            &&& entry.hugging_face matches Some(source) ==> model.download->0.repository
                == source.repository@ && model.download->0.revision == source.revision@
                && model.download->0.filename == source.filename@ && model.download->0.sha256
                == source.sha256@ && model.download->0.size_bytes == source.size_bytes
        }),
{
}

/// A runtime is what its entry says, under the name of the entry.
pub proof fn runtimes_are_their_entries(id: Seq<char>, entry: RuntimeEntry)
    ensures
        ({
            let runtime = runtime_of_entry(id, entry);
            &&& runtime.id == id
            &&& runtime.backend_kind == entry.backend_kind@
            &&& runtime.executable_path == contents::view_option(entry.executable_path)
            &&& runtime.base_url == contents::view_option(entry.base_url)
            &&& runtime.api_token_env == contents::view_option(entry.api_token_env)
            &&& runtime.health_path == contents::view_option(entry.health_path)
            &&& runtime.startup_timeout_ms == entry.startup_timeout_ms
            &&& runtime.threads == entry.threads@
            &&& runtime.timeout_ms == entry.timeout_ms
        }),
{
}

/// A wording is what its entry says.
pub proof fn wordings_are_their_entries(entry: PromptProfileEntry)
    ensures
        wording_of_entry(entry).target_ratio == entry.target_ratio@,
        wording_of_entry(entry).instruction == entry.instruction@,
        wording_of_entry(entry).format_instruction == entry.format_instruction@,
        wording_of_entry(entry).allow_semantic_shortening == entry.allow_semantic_shortening,
{
}

} // verus!
