//! Running a model outside the application: as a process for one request, or behind a server.
use vstd::prelude::*;
use crate::config::catalog::{ModelDefinition, RuntimeDefinition};
use crate::contents;
use crate::error;
use crate::error::CompressionError;
use crate::runtime::budget;
use crate::runtime::draft;
use crate::runtime::draft::RuntimeCompressionObservation;
use crate::runtime::http;
use crate::runtime::http::HttpBaseUrl;
use crate::runtime::output_parser;
use crate::runtime::thread_tuning::Elapsed;
use crate::text;
use crate::types::CompressionRequest;

verus! {

broadcast use crate::contents::group_contents;

/// What a model behind a server is told before every prompt.
pub const CHAT_SYSTEM_MESSAGE: &'static str = "返答は JSON オブジェクトだけにしてください。日本語入力には日本語で返答し、コード、識別子、API 名、ファイル名は原文のまま保持してください。";

/// The path under which a server says that it is ready where nothing else is said.
pub const DEFAULT_HEALTH_PATH: &'static str = "/health";

/// What is asked of a model behind a server.
#[derive(Debug)]
pub struct ChatPlan {
    pub model: String,
    pub system_message: String,
    pub user_message: String,
    pub max_tokens: u32,
    pub answers_by_schema: bool,
}

/// What is asked of a model behind a server for the request.
pub fn plan_chat(
    request: &CompressionRequest,
    prompt: &str,
    model: &ModelDefinition,
    model_name: &str,
) -> (r: ChatPlan)
    ensures
        r.model@ == model_name@,
        r.system_message@ == CHAT_SYSTEM_MESSAGE@,
        r.user_message@ == prompt@,
        r.max_tokens == budget::spec_effective_max_output_tokens(
            request@.level,
            request@.input_text,
            model@.default_max_output,
        ),
        r.answers_by_schema == model@.supports_json_schema,
{
    ChatPlan {
        model: model_name.to_owned(),
        system_message: CHAT_SYSTEM_MESSAGE.to_owned(),
        user_message: prompt.to_owned(),
        max_tokens: budget::effective_max_output_tokens(request, model),
        answers_by_schema: model.supports_json_schema,
    }
}

/// The contents of the messages of a server's choices.
pub open spec fn choice_views(choices: Seq<Option<String>>) -> Seq<Option<Seq<char>>> {
    choices.map_values(|content: Option<String>| contents::view_option(content))
}

/// The message of the first choice, where it has one.
pub fn first_choice_content(choices: &Vec<Option<String>>) -> (r: Result<String, CompressionError>)
    ensures
        ({
            let views = choice_views(choices@);
            if views.len() > 0 && views[0] is Some {
                r matches Ok(content) && views[0] == Some(content@)
            } else {
                r matches Err(error) && error@ == error::ErrorView::Runtime(
                    "local runtime response did not include choices[0].message.content"@,
                )
            }
        }),
{
    if choices.len() > 0 {
        match &choices[0] {
            Some(content) => {
                return Ok(content.clone());
            },
            None => {},
        }
    }
    Err(
        CompressionError::Runtime(
            "local runtime response did not include choices[0].message.content".to_owned(),
        ),
    )
}

/// Reads, completes and checks what a model behind a server answered.
pub fn observe_chat_content(request: &CompressionRequest, content: &str) -> (r: Result<
    RuntimeCompressionObservation,
    CompressionError,
>)
    ensures
        draft::observation_outcome(r) == (match output_parser::spec_parse_compression_output(
            content@,
        ) {
            Ok(raw) => draft::spec_finalize_observed_model_draft(request@, raw),
            Err(error) => Err(error),
        }),
{
    match output_parser::parse_compression_output(content) {
        Ok(raw) => draft::finalize_observed_model_draft(request, raw),
        Err(error) => Err(error),
    }
}

/// The name that the model has with a server by its configuration.
pub open spec fn configured_name(id: Seq<char>, api_model: Option<Seq<char>>) -> Seq<char> {
    match api_model {
        Some(name) => name,
        None => id,
    }
}

/// The name that the model has with LM Studio; none where the first that it offers is taken.
pub fn lmstudio_model_name(model: &ModelDefinition) -> (r: Option<String>)
    ensures
        contents::view_option(r) == (if configured_name(model@.id, model@.api_model) == "auto"@ {
            None
        } else {
            Some(configured_name(model@.id, model@.api_model))
        }),
{
    let configured: String = match &model.api_model {
        Some(name) => name.clone(),
        None => model.id.clone(),
    };
    if text::same(&configured, "auto") {
        None
    } else {
        Some(configured)
    }
}

/// The first model that LM Studio offers.
pub fn first_offered_model(ids: &Vec<String>) -> (r: Result<String, CompressionError>)
    ensures
        if ids@.len() > 0 {
            r matches Ok(id) && id@ == ids@[0]@
        } else {
            r matches Err(error) && error@ == error::ErrorView::Runtime(
                "LM Studio returned no available models from /v1/models"@,
            )
        },
{
    if ids.len() > 0 {
        Ok(ids[0].clone())
    } else {
        Err(
            CompressionError::Runtime(
                "LM Studio returned no available models from /v1/models".to_owned(),
            ),
        )
    }
}

/// The name that the model has with a server that the application runs.
pub fn managed_model_name(model: &ModelDefinition) -> (r: String)
    ensures
        r@ == (match model@.api_model {
            Some(name) => if name == "auto"@ {
                model@.id
            } else {
                name
            },
            None => model@.id,
        }),
{
    match &model.api_model {
        Some(name) => {
            if text::same(name, "auto") {
                model.id.clone()
            } else {
                name.clone()
            }
        },
        None => model.id.clone(),
    }
}

/// The error for a runtime that lacks a setting.
fn missing_setting(runtime: &RuntimeDefinition, setting: &str, purpose: &str) -> (r:
    CompressionError)
    ensures
        r@ == error::ErrorView::InvalidConfig(
            "runtime '"@ + runtime@.id + "' is missing "@ + setting@ + purpose@,
        ),
{
    CompressionError::InvalidConfig(
        text::concat5("runtime '", &runtime.id, "' is missing ", setting, purpose),
    )
}

/// The address of LM Studio.
pub fn lmstudio_base_url(runtime: &RuntimeDefinition) -> (r: Result<String, CompressionError>)
    ensures
        error::text_outcome(r) == (match runtime@.base_url {
            Some(base_url) => Ok(base_url),
            None => Err(
                error::ErrorView::InvalidConfig(
                    "runtime '"@ + runtime@.id + "' is missing "@ + "base_url"@
                        + " for LM Studio"@,
                ),
            ),
        }),
{
    match &runtime.base_url {
        Some(base_url) => Ok(base_url.clone()),
        None => Err(missing_setting(runtime, "base_url", " for LM Studio")),
    }
}

/// The program that is run for each request.
pub fn llama_cpp_executable(runtime: &RuntimeDefinition) -> (r: Result<String, CompressionError>)
    ensures
        error::text_outcome(r) == (match runtime@.executable_path {
            Some(path) => Ok(path),
            None => Err(
                error::ErrorView::InvalidConfig(
                    "runtime '"@ + runtime@.id + "' is missing "@ + "executable_path"@
                        + " for llama.cpp"@,
                ),
            ),
        }),
{
    match &runtime.executable_path {
        Some(path) => Ok(path.clone()),
        None => Err(missing_setting(runtime, "executable_path", " for llama.cpp")),
    }
}

/// The program of a server that the application runs.
pub fn managed_executable(runtime: &RuntimeDefinition) -> (r: Result<String, CompressionError>)
    ensures
        error::text_outcome(r) == (match runtime@.executable_path {
            Some(path) => Ok(path),
            None => Err(
                error::ErrorView::InvalidConfig(
                    "runtime '"@ + runtime@.id + "' is missing "@ + "executable_path"@
                        + " for a managed llama.cpp server"@,
                ),
            ),
        }),
{
    match &runtime.executable_path {
        Some(path) => Ok(path.clone()),
        None => Err(
            missing_setting(runtime, "executable_path", " for a managed llama.cpp server"),
        ),
    }
}

/// What a program is given.
#[derive(Debug, Clone, PartialEq, Eq)]
pub enum ProcessArgument {
    /// A text.
    Text(String),
    /// The path of the model's file, whatever it is made of.
    ModelPath,
}

/// Contents of a [`ProcessArgument`].
pub enum ArgumentView {
    Text(Seq<char>),
    ModelPath,
}

impl View for ProcessArgument {
    type V = ArgumentView;

    open spec fn view(&self) -> ArgumentView {
        match *self {
            ProcessArgument::Text(text) => ArgumentView::Text(text@),
            ProcessArgument::ModelPath => ArgumentView::ModelPath,
        }
    }
}

/// The contents of what a program is given.
pub open spec fn argument_views(arguments: Seq<ProcessArgument>) -> Seq<ArgumentView> {
    arguments.map_values(|argument: ProcessArgument| argument@)
}

/// Gives a program the path of the model's file.
fn model_argument() -> (r: Vec<ProcessArgument>)
    ensures
        argument_views(r@) == seq![ArgumentView::Text("-m"@), ArgumentView::ModelPath],
{
    let mut arguments: Vec<ProcessArgument> = Vec::new();
    arguments.push(ProcessArgument::Text("-m".to_owned()));
    arguments.push(ProcessArgument::ModelPath);
    assert(argument_views(arguments@) =~= seq![
        ArgumentView::Text("-m"@),
        ArgumentView::ModelPath,
    ]);
    arguments
}

/// Gives a program a setting.
fn push_setting(arguments: &mut Vec<ProcessArgument>, name: &str, value: &str)
    ensures
        argument_views(final(arguments)@) == argument_views(old(arguments)@).push(
            ArgumentView::Text(name@),
        ).push(ArgumentView::Text(value@)),
{
    arguments.push(ProcessArgument::Text(name.to_owned()));
    arguments.push(ProcessArgument::Text(value.to_owned()));
    assert(argument_views(arguments@) =~= argument_views(old(arguments)@).push(
        ArgumentView::Text(name@),
    ).push(ArgumentView::Text(value@)));
}

/// What the program that is run for each request is given, but for the threads.
pub open spec fn llama_cpp_base_arguments(
    prompt: Seq<char>,
    max_tokens: int,
    context_length: u32,
) -> Seq<ArgumentView> {
    seq![
        ArgumentView::Text("-m"@),
        ArgumentView::ModelPath,
        ArgumentView::Text("-p"@),
        ArgumentView::Text(prompt),
        ArgumentView::Text("-n"@),
        ArgumentView::Text(text::spec_decimal_of(max_tokens)),
        ArgumentView::Text("--temp"@),
        ArgumentView::Text("0"@),
        ArgumentView::Text("--ctx-size"@),
        ArgumentView::Text(text::spec_decimal(context_length as nat)),
    ]
}

/// What a program of llama.cpp is told of the threads.
pub open spec fn thread_arguments(threads: Seq<char>) -> Seq<ArgumentView> {
    if threads == "auto"@ {
        Seq::empty()
    } else {
        seq![ArgumentView::Text("--threads"@), ArgumentView::Text(threads)]
    }
}

/// Tells a program of llama.cpp of the threads.
fn push_thread_arguments(arguments: &mut Vec<ProcessArgument>, runtime: &RuntimeDefinition)
    ensures
        argument_views(final(arguments)@) == argument_views(old(arguments)@) + thread_arguments(
            runtime@.threads,
        ),
{
    let ghost before = argument_views(arguments@);
    if !text::same(&runtime.threads, "auto") {
        push_setting(arguments, "--threads", &runtime.threads);
        assert(argument_views(arguments@) =~= before + thread_arguments(runtime@.threads));
    } else {
        assert(before + Seq::<ArgumentView>::empty() =~= before);
    }
}

/// What the program that is run for the request is given.
pub fn llama_cpp_arguments(
    request: &CompressionRequest,
    prompt: &str,
    model: &ModelDefinition,
    runtime: &RuntimeDefinition,
) -> (r: Vec<ProcessArgument>)
    ensures
        argument_views(r@) == llama_cpp_base_arguments(
            prompt@,
            budget::spec_effective_max_output_tokens(
                request@.level,
                request@.input_text,
                model@.default_max_output,
            ),
            model@.context_length,
        ) + thread_arguments(runtime@.threads),
{
    let max_tokens: u32 = budget::effective_max_output_tokens(request, model);
    let mut arguments: Vec<ProcessArgument> = model_argument();
    push_setting(&mut arguments, "-p", prompt);
    push_setting(&mut arguments, "-n", &text::decimal(max_tokens as u64));
    push_setting(&mut arguments, "--temp", "0");
    push_setting(&mut arguments, "--ctx-size", &text::decimal(model.context_length as u64));
    assert(argument_views(arguments@) =~= llama_cpp_base_arguments(
        prompt@,
        max_tokens as int,
        model@.context_length,
    ));
    push_thread_arguments(&mut arguments, runtime);
    arguments
}

/// The error of a process that failed.
pub open spec fn process_failure(status: Seq<char>, stderr_bytes: int) -> Seq<char> {
    "llama.cpp process exited with status "@ + status + "; stderr was "@ + text::spec_decimal_of(
        stderr_bytes,
    ) + " bytes"@
}

/// What a process wrote, where it succeeded.
pub fn read_process_output(success: bool, status: &str, stdout: &[u8], stderr_bytes: usize) -> (r:
    Result<String, CompressionError>)
    ensures
        error::text_outcome(r) == (if success {
            Ok(http::lossy_text(stdout@))
        } else {
            Err(error::ErrorView::Runtime(process_failure(status@, stderr_bytes as int)))
        }),
{
    if success {
        Ok(http::lossy_text_of_bytes(stdout))
    } else {
        Err(
            CompressionError::Runtime(
                text::concat5(
                    "llama.cpp process exited with status ",
                    status,
                    "; stderr was ",
                    &text::decimal_of(stderr_bytes),
                    " bytes",
                ),
            ),
        )
    }
}

/// Reads what a process wrote; it is taken as the model wrote it.
pub fn observe_process_output(output: &str) -> (r: Result<
    RuntimeCompressionObservation,
    CompressionError,
>)
    ensures
        draft::observation_outcome(r) == (match output_parser::spec_parse_compression_output(
            output@,
        ) {
            Ok(raw) => Ok(
                draft::ObservationView {
                    raw_model_draft: Some(raw),
                    final_draft: raw,
                    transformations: Seq::empty(),
                },
            ),
            Err(error) => Err(error),
        }),
{
    match output_parser::parse_compression_output(output) {
        Ok(raw) => Ok(RuntimeCompressionObservation::raw_model(raw)),
        Err(error) => Err(error),
    }
}

/// Where a server that the application runs listens, and how it is waited for.
#[derive(Debug)]
pub struct ManagedServerPlan {
    pub base_url: String,
    pub host: String,
    pub port: u16,
    pub health_base_url: String,
    pub health_path: String,
    pub startup_timeout_ms: u64,
}

/// Contents of a [`ManagedServerPlan`].
pub struct ServerPlanView {
    pub base_url: Seq<char>,
    pub host: Seq<char>,
    pub port: u16,
    pub health_base_url: Seq<char>,
    pub health_path: Seq<char>,
    pub startup_timeout_ms: u64,
}

impl View for ManagedServerPlan {
    type V = ServerPlanView;

    open spec fn view(&self) -> ServerPlanView {
        ServerPlanView {
            base_url: self.base_url@,
            host: self.host@,
            port: self.port,
            health_base_url: self.health_base_url@,
            health_path: self.health_path@,
            startup_timeout_ms: self.startup_timeout_ms,
        }
    }
}

/// The contents of an outcome that is a plan.
pub open spec fn plan_outcome(result: Result<ManagedServerPlan, CompressionError>) -> Result<
    ServerPlanView,
    error::ErrorView,
> {
    match result {
        Ok(plan) => Ok(plan@),
        Err(error) => Err(error@),
    }
}

/// The address is one of this machine.
pub open spec fn is_local_host(host: Seq<char>) -> bool {
    host == "127.0.0.1"@ || host == "localhost"@
}

/// Value of [`plan_managed_server`].
pub open spec fn spec_plan_managed_server(
    id: Seq<char>,
    base_url: Option<Seq<char>>,
    health_path: Option<Seq<char>>,
    startup_timeout_ms: u64,
) -> Result<ServerPlanView, error::ErrorView> {
    match base_url {
        None => Err(
            error::ErrorView::InvalidConfig(
                "runtime '"@ + id + "' is missing "@ + "base_url"@
                    + " for a managed llama.cpp server"@,
            ),
        ),
        Some(base_url) => match http::spec_parse_http_base_url(base_url) {
            Err(error) => Err(error),
            Ok(base) => if !is_local_host(base.host) {
                Err(
                    error::ErrorView::InvalidConfig(
                        "managed runtime '"@ + id + "' must bind to 127.0.0.1 or localhost, not '"@
                            + base.host + "'"@,
                    ),
                )
            } else {
                Ok(
                    ServerPlanView {
                        base_url,
                        host: base.host,
                        port: base.port as u16,
                        health_base_url: "http://"@ + base.host + ":"@ + text::spec_decimal(
                            base.port as nat,
                        ),
                        health_path: match health_path {
                            Some(path) => path,
                            None => DEFAULT_HEALTH_PATH@,
                        },
                        startup_timeout_ms,
                    },
                )
            },
        },
    }
}

/// Where a server for the runtime listens. It has to be this machine.
pub fn plan_managed_server(runtime: &RuntimeDefinition) -> (r: Result<
    ManagedServerPlan,
    CompressionError,
>)
    ensures
        plan_outcome(r) == spec_plan_managed_server(
            runtime@.id,
            runtime@.base_url,
            runtime@.health_path,
            runtime@.startup_timeout_ms,
        ),
{
    let base_url: &String = match &runtime.base_url {
        Some(base_url) => base_url,
        None => {
            return Err(
                missing_setting(runtime, "base_url", " for a managed llama.cpp server"),
            );
        },
    };
    let base: HttpBaseUrl = match http::parse_http_base_url(base_url) {
        Ok(base) => base,
        Err(error) => {
            return Err(error);
        },
    };
    if !(text::same(&base.host, "127.0.0.1") || text::same(&base.host, "localhost")) {
        return Err(
            CompressionError::InvalidConfig(
                text::concat5(
                    "managed runtime '",
                    &runtime.id,
                    "' must bind to 127.0.0.1 or localhost, not '",
                    &base.host,
                    "'",
                ),
            ),
        );
    }
    let health_path: String = match &runtime.health_path {
        Some(path) => path.clone(),
        None => DEFAULT_HEALTH_PATH.to_owned(),
    };
    let health_base_url: String = text::concat4(
        "http://",
        &base.host,
        ":",
        &text::decimal(base.port as u64),
    );
    Ok(
        ManagedServerPlan {
            base_url: base_url.clone(),
            host: base.host,
            port: base.port,
            health_base_url,
            health_path,
            startup_timeout_ms: runtime.startup_timeout_ms,
        },
    )
}

/// A server that the application runs listens on this machine alone.
pub proof fn managed_servers_are_local(
    id: Seq<char>,
    base_url: Option<Seq<char>>,
    health_path: Option<Seq<char>>,
    startup_timeout_ms: u64,
)
    ensures
        spec_plan_managed_server(id, base_url, health_path, startup_timeout_ms) matches Ok(plan)
            ==> is_local_host(plan.host),
{
}

/// What the program of a server that the application runs is given.
pub fn managed_server_arguments(
    plan: &ManagedServerPlan,
    model: &ModelDefinition,
    runtime: &RuntimeDefinition,
) -> (r: Vec<ProcessArgument>)
    ensures
        argument_views(r@) == seq![
            ArgumentView::Text("-m"@),
            ArgumentView::ModelPath,
            ArgumentView::Text("--host"@),
            ArgumentView::Text(plan@.host),
            ArgumentView::Text("--port"@),
            ArgumentView::Text(text::spec_decimal(plan@.port as nat)),
            ArgumentView::Text("--ctx-size"@),
            ArgumentView::Text(text::spec_decimal(model@.context_length as nat)),
        ] + thread_arguments(runtime@.threads),
{
    let mut arguments: Vec<ProcessArgument> = model_argument();
    push_setting(&mut arguments, "--host", &plan.host);
    push_setting(&mut arguments, "--port", &text::decimal(plan.port as u64));
    push_setting(&mut arguments, "--ctx-size", &text::decimal(model.context_length as u64));
    assert(argument_views(arguments@) =~= seq![
        ArgumentView::Text("-m"@),
        ArgumentView::ModelPath,
        ArgumentView::Text("--host"@),
        ArgumentView::Text(plan@.host),
        ArgumentView::Text("--port"@),
        ArgumentView::Text(text::spec_decimal(plan@.port as nat)),
        ArgumentView::Text("--ctx-size"@),
        ArgumentView::Text(text::spec_decimal(model@.context_length as nat)),
    ]);
    push_thread_arguments(&mut arguments, runtime);
    arguments
}

/// What is done about a process that is waited for.
#[derive(Debug, Clone, Copy, PartialEq, Eq, Structural)]
pub enum ProcessStep {
    /// Its output is read.
    Collect,
    /// It is ended, as time has run out.
    GiveUp,
    /// It is waited for.
    Wait,
}

/// What is done about a process after it has run for a time.
pub fn next_process_step(exited: bool, elapsed: Elapsed, timeout_ms: u64) -> (r: ProcessStep)
    ensures
        r == (if exited {
            ProcessStep::Collect
        } else if elapsed.spec_nanos() >= timeout_ms * 1000000 {
            ProcessStep::GiveUp
        } else {
            ProcessStep::Wait
        }),
{
    if exited {
        ProcessStep::Collect
    } else if elapsed.nanos() >= timeout_ms as u128 * 1000000 {
        ProcessStep::GiveUp
    } else {
        ProcessStep::Wait
    }
}

/// Whether a server that is starting is asked once more whether it is ready.
pub fn keeps_probing(elapsed: Elapsed, timeout_ms: u64) -> (r: bool)
    ensures
        r == (elapsed.spec_nanos() < timeout_ms * 1000000),
{
    elapsed.nanos() < timeout_ms as u128 * 1000000
}

/// The error for a server that did not become ready in time.
pub fn unhealthy_server(last_error: &Option<CompressionError>, timeout_ms: u64) -> (r:
    CompressionError)
    ensures
        r@ == error::ErrorView::Runtime(
            "managed local runtime did not become healthy within "@ + text::spec_decimal(
                timeout_ms as nat,
            ) + " ms: "@ + (match last_error {
                Some(error) => error::spec_message(error@),
                None => "no health response received"@,
            }),
        ),
{
    let detail: String = match last_error {
        Some(error) => error.message(),
        None => "no health response received".to_owned(),
    };
    CompressionError::Runtime(
        text::concat4(
            "managed local runtime did not become healthy within ",
            &text::decimal(timeout_ms),
            " ms: ",
            &detail,
        ),
    )
}

/// A server is managed where its address can be read and names this machine, and only there. It
/// listens where the address says, and is asked for its health at the path that is given, else at
/// `/health`.
pub proof fn managed_servers_listen_at_their_address(
    id: Seq<char>,
    base_url: Option<Seq<char>>,
    health_path: Option<Seq<char>>,
    startup_timeout_ms: u64,
)
    ensures
        base_url is None ==> spec_plan_managed_server(
            id,
            base_url,
            health_path,
            startup_timeout_ms,
        ) is Err,
        base_url matches Some(address) ==> (spec_plan_managed_server(
            id,
            base_url,
            health_path,
            startup_timeout_ms,
        ) is Ok <==> (http::spec_parse_http_base_url(address) matches Ok(base) && (base.host
            == "127.0.0.1"@ || base.host == "localhost"@))),
        spec_plan_managed_server(id, base_url, health_path, startup_timeout_ms) matches Ok(plan)
            ==> plan.base_url == base_url->0 && plan.startup_timeout_ms == startup_timeout_ms && (
        health_path matches Some(path) ==> plan.health_path == path) && (health_path is None
            ==> plan.health_path == "/health"@),
{
}

/// The health of a managed server is asked for at the host and port of its address, whatever its
/// path.
pub proof fn health_is_asked_for_at_the_server(
    id: Seq<char>,
    host: Seq<char>,
    port: nat,
    path: Seq<char>,
    health_path: Option<Seq<char>>,
    startup_timeout_ms: u64,
)
    requires
        host == "127.0.0.1"@ || host == "localhost"@,
        port <= 65535,
        path.len() == 0 || path.last() != '/',
    ensures
        ({
            let address = host + ":"@ + text::spec_decimal(port);
            spec_plan_managed_server(
                id,
                Some("http://"@ + (address + "/"@ + path)),
                health_path,
                startup_timeout_ms,
            ) matches Ok(plan) && plan.host == host && plan.port == port && plan.health_base_url
                == "http://"@ + address
        }),
{
    reveal_strlit("127.0.0.1");
    reveal_strlit("localhost");
    http::written_addresses_are_read_back(host, port, path);
    assert("http://"@ + (host + ":"@ + text::spec_decimal(port)) =~= "http://"@ + host + ":"@
        + text::spec_decimal(port));
}

/// The program that is run for each request is given the model, the prompt, the most tokens it may
/// write and the size of its context, each behind its name, and chooses the likeliest token.
pub proof fn programs_are_given_the_request(
    prompt: Seq<char>,
    max_tokens: int,
    context_length: u32,
)
    ensures
        ({
            let given = llama_cpp_base_arguments(prompt, max_tokens, context_length);
            let value = |name: Seq<char>|
                (choose|i: int|
                    0 <= i < given.len() - 1 && i % 2 == 0 && given[i] == ArgumentView::Text(name))
                    + 1;
            &&& given.len() == 10
            &&& given[value("-m"@)] == ArgumentView::ModelPath
            &&& given[value("-p"@)] == ArgumentView::Text(prompt)
            &&& given[value("-n"@)] == ArgumentView::Text(text::spec_decimal(max_tokens as nat))
            &&& given[value("--temp"@)] == ArgumentView::Text("0"@)
            &&& given[value("--ctx-size"@)] == ArgumentView::Text(
                text::spec_decimal(context_length as nat),
            )
        }),
{
    reveal_strlit("-m");
    reveal_strlit("-p");
    reveal_strlit("-n");
    reveal_strlit("--temp");
    reveal_strlit("--ctx-size");
    let given = llama_cpp_base_arguments(prompt, max_tokens, context_length);
    assert("-m"@[1] == 'm' && "-p"@[1] == 'p' && "-n"@[1] == 'n' && "--temp"@[1] == '-'
        && "--ctx-size"@[1] == '-');
    assert("--temp"@.len() != "--ctx-size"@.len());
    assert(given[0] == ArgumentView::Text("-m"@));
    assert(given[2] == ArgumentView::Text("-p"@));
    assert(given[4] == ArgumentView::Text("-n"@));
    assert(given[6] == ArgumentView::Text("--temp"@));
    assert(given[8] == ArgumentView::Text("--ctx-size"@));
}

/// The number of threads is given as it is configured, and not where the program is to find it.
pub proof fn threads_are_given_as_configured(threads: Seq<char>)
    ensures
        thread_arguments(threads).len() == 0 <==> threads == "auto"@,
        threads != "auto"@ ==> thread_arguments(threads) == seq![
            ArgumentView::Text("--threads"@),
            ArgumentView::Text(threads),
        ],
{
}

/// A model has the name that is configured for the server, else its own.
pub proof fn models_have_their_configured_names(id: Seq<char>, name: Seq<char>)
    ensures
        configured_name(id, Some(name)) == name,
        configured_name(id, None) == id,
{
}

} // verus!
