//! Running an embedded model: what is asked of its engine next, and what follows from the replies.
//!
//! A run is a state machine. [`EmbeddedRun::phase`] says what the engine is to do, and
//! [`EmbeddedRun::advance`] takes its reply.
use vstd::prelude::*;
use crate::config::catalog;
use crate::config::catalog::{ModelDefinition, RuntimeDefinition};
use crate::contents;
use crate::error;
use crate::error::CompressionError;
use crate::runtime::benchmark::SessionParams;
use crate::runtime::budget;
use crate::runtime::draft;
use crate::runtime::draft::{CompressionDraft, RuntimeCompressionObservation};
use crate::runtime::fragments;
use crate::runtime::output_parser;
use crate::runtime::prompts;
use crate::runtime::prompts::PromptParts;
use crate::runtime::sessions;
use crate::runtime::thread_tuning;
use crate::runtime::thread_tuning::{RuntimeInferenceConfig, RuntimeThreadCounts};
use crate::text;
use crate::types;
use crate::types::CompressionRequest;

verus! {

broadcast use crate::contents::group_contents;

/// What a run is for.
#[derive(Debug, Clone, Copy, PartialEq, Eq, Structural)]
pub enum RunPurpose {
    /// A request is answered.
    Complete,
    /// A session is prepared with what prompts share.
    PreparePrefix,
    /// A session is prepared with a whole prompt.
    PrepareInput,
}

/// What the engine is to do.
#[derive(Debug, Clone, Copy, PartialEq, Eq, Structural)]
pub enum RunPhase {
    /// Find and load the model, so that it is there.
    Preload,
    /// Build the prompt.
    Build,
    /// Find the file of the model.
    Find,
    /// Load the model.
    Load,
    /// Look up the settings.
    Settings,
    /// Count the tokens of the shared part.
    CountPrefix,
    /// Count the tokens of the own part.
    CountSuffix,
    /// Find a session that has read the whole prompt. One that answers takes it away.
    FindInput,
    /// Find a session that has read the shared part. One that goes on copies it.
    FindPrompt,
    /// Create a session.
    Create,
    /// Give the new session its deadline.
    LimitFirst,
    /// Have the session read the shared part.
    FeedPrefix,
    /// Keep a copy of the session that has read the shared part.
    StoreCopy,
    /// Give the session its deadline.
    Limit,
    /// Have the session read the own part.
    FeedSuffix,
    /// Copy the session.
    Copy,
    /// Begin to write.
    Start,
    /// Write on.
    Token,
    /// Look at the clock once more.
    Finish,
    /// Keep the copy that has read the shared part.
    StorePrompt,
    /// Keep the session that has read the whole prompt.
    StoreInput,
    /// Nothing.
    Ended,
}

/// What the engine replied.
#[derive(Debug)]
pub enum RunReply {
    /// It is done.
    Done,
    /// The prompt is built.
    Prompt(PromptParts),
    /// The file of the model is here.
    Path(String),
    /// These are the settings.
    Settings(RuntimeInferenceConfig),
    /// There are so many tokens.
    Count(usize),
    /// Whether there is such a session.
    Found(bool),
    /// The model wrote this.
    Token(String),
    /// The model wrote all that it writes.
    End,
    /// It failed.
    Failed(CompressionError),
    /// The engine failed, with its message.
    Fault(String),
}

/// Contents of a [`RunReply`].
pub enum ReplyView {
    Done,
    Prompt(prompts::PartsView),
    Path(Seq<char>),
    Settings(RuntimeInferenceConfig),
    Count(usize),
    Found(bool),
    Token(Seq<char>),
    End,
    Failed(error::ErrorView),
    Fault(Seq<char>),
}

impl View for RunReply {
    type V = ReplyView;

    open spec fn view(&self) -> ReplyView {
        match *self {
            RunReply::Done => ReplyView::Done,
            RunReply::Prompt(parts) => ReplyView::Prompt(parts@),
            RunReply::Path(path) => ReplyView::Path(path@),
            RunReply::Settings(configuration) => ReplyView::Settings(configuration),
            RunReply::Count(tokens) => ReplyView::Count(tokens),
            RunReply::Found(found) => ReplyView::Found(found),
            RunReply::Token(token) => ReplyView::Token(token@),
            RunReply::End => ReplyView::End,
            RunReply::Failed(error) => ReplyView::Failed(error@),
            RunReply::Fault(message) => ReplyView::Fault(message@),
        }
    }
}

/// What became of a run.
#[derive(Debug)]
pub enum RunOutcome {
    /// Whether a session is prepared.
    Prepared(bool),
    /// The model wrote this.
    Output(String),
    /// Time ran out, and the request speaks for itself.
    Fallback(CompressionDraft),
    /// The run failed.
    Failed(CompressionError),
}

/// Contents of a [`RunOutcome`].
pub enum OutcomeView {
    Prepared(bool),
    Output(Seq<char>),
    Fallback(draft::DraftView),
    Failed(error::ErrorView),
}

impl View for RunOutcome {
    type V = OutcomeView;

    open spec fn view(&self) -> OutcomeView {
        match *self {
            RunOutcome::Prepared(prepared) => OutcomeView::Prepared(prepared),
            RunOutcome::Output(output) => OutcomeView::Output(output@),
            RunOutcome::Fallback(draft) => OutcomeView::Fallback(draft@),
            RunOutcome::Failed(error) => OutcomeView::Failed(error@),
        }
    }
}

/// The contents of an outcome, where there is one.
pub open spec fn view_outcome(outcome: Option<RunOutcome>) -> Option<OutcomeView> {
    match outcome {
        Some(outcome) => Some(outcome@),
        None => None,
    }
}

/// The reply is one to what the engine was to do.
pub open spec fn fits(phase: RunPhase, reply: ReplyView) -> bool {
    match phase {
        RunPhase::Preload | RunPhase::Load | RunPhase::StoreCopy | RunPhase::StorePrompt
        | RunPhase::StoreInput => reply is Done || reply is Failed,
        RunPhase::Build => reply is Prompt || reply is Failed,
        RunPhase::Find => reply is Path || reply is Failed,
        RunPhase::Settings => reply is Settings || reply is Failed,
        RunPhase::CountPrefix | RunPhase::CountSuffix => reply is Count || reply is Fault,
        RunPhase::FindInput | RunPhase::FindPrompt => reply is Found || reply is Failed,
        RunPhase::Create | RunPhase::LimitFirst | RunPhase::FeedPrefix | RunPhase::Limit
        | RunPhase::FeedSuffix | RunPhase::Copy | RunPhase::Start => reply is Done || reply is Fault,
        RunPhase::Token => reply is Token || reply is End || reply is Fault,
        RunPhase::Finish => reply is Done,
        RunPhase::Ended => false,
    }
}

/// The state of a run.
pub struct RunView {
    pub purpose: RunPurpose,
    pub request: types::RequestView,
    pub model_id: Seq<char>,
    pub model_context: u32,
    pub max_tokens: u32,
    pub timeout_ms: u64,
    pub phase: RunPhase,
    pub prefix: Seq<char>,
    pub suffix: Seq<char>,
    pub use_prompt_cache: bool,
    pub path: Seq<char>,
    pub configuration: RuntimeInferenceConfig,
    pub prefix_tokens: usize,
    pub context_length: u32,
    pub input_cache_hit: bool,
    pub output: Seq<char>,
    pub outcome: Option<OutcomeView>,
}

/// The run moves on.
pub open spec fn going_to(run: RunView, phase: RunPhase) -> RunView {
    RunView { phase, ..run }
}

/// The run ends.
pub open spec fn ended(run: RunView, outcome: OutcomeView) -> RunView {
    RunView { phase: RunPhase::Ended, outcome: Some(outcome), ..run }
}

/// The run fails with an error.
pub open spec fn failed(run: RunView, error: error::ErrorView) -> RunView {
    ended(run, OutcomeView::Failed(error))
}

/// Time ran out. A request that speaks for itself is then answered by what it says.
pub open spec fn timed_out(run: RunView) -> RunView {
    let fallback = draft::spec_trusted_precompacted_fallback_draft(run.request);
    if run.purpose == RunPurpose::Complete && fallback is Some {
        ended(run, OutcomeView::Fallback(fallback->0))
    } else {
        failed(run, error::ErrorView::RuntimeTimeout(run.timeout_ms))
    }
}

/// What a failure of the engine is called, before the name of the model.
pub open spec fn fault_start(purpose: RunPurpose, phase: RunPhase) -> Seq<char> {
    let completing = purpose == RunPurpose::Complete;
    match phase {
        RunPhase::Create => if completing {
            "failed to create embedded llama.cpp session for '"@
        } else {
            "failed to create prepared embedded llama.cpp session for '"@
        },
        RunPhase::LimitFirst => if completing {
            "failed to configure embedded llama.cpp timeout for '"@
        } else {
            "failed to configure prepared embedded llama.cpp timeout for '"@
        },
        RunPhase::FeedPrefix => if completing {
            "failed to feed prepared prompt prefix to embedded llama.cpp model '"@
        } else {
            "failed to prepare prompt prefix for embedded llama.cpp model '"@
        },
        RunPhase::Limit => if completing {
            "failed to configure embedded llama.cpp timeout for '"@
        } else {
            "failed to configure prepared input timeout for '"@
        },
        RunPhase::FeedSuffix => if completing {
            "failed to feed prompt to embedded llama.cpp model '"@
        } else {
            "failed to prepare input for embedded llama.cpp model '"@
        },
        RunPhase::Copy => "failed to pre-copy prepared embedded prompt session for '"@,
        RunPhase::Start => if completing {
            "failed to start embedded llama.cpp completion for '"@
        } else {
            "failed to warm embedded llama.cpp generation for '"@
        },
        _ => if completing {
            "embedded llama.cpp generation failed for '"@
        } else {
            "failed to warm embedded llama.cpp generation for '"@
        },
    }
}

/// The run fails with a message of the engine.
pub open spec fn faulted(run: RunView, message: Seq<char>) -> RunView {
    failed(
        run,
        error::ErrorView::Runtime(
            fault_start(run.purpose, run.phase) + run.model_id + "': "@ + message,
        ),
    )
}

/// The prompt is built. Its parts are read one after the other where the first can be kept.
pub open spec fn with_prompt(run: RunView, parts: prompts::PartsView) -> RunView {
    let shared = text::spec_trim(parts.prefix).len() > 0;
    if run.purpose == RunPurpose::PreparePrefix && !shared {
        ended(run, OutcomeView::Prepared(false))
    } else {
        RunView {
            phase: RunPhase::Find,
            use_prompt_cache: shared,
            prefix: if shared {
                prompts::spec_format_embedded_llama_prompt_prefix(parts.prefix)
            } else {
                Seq::empty()
            },
            suffix: if run.purpose == RunPurpose::PreparePrefix {
                Seq::empty()
            } else if shared {
                prompts::spec_format_embedded_llama_prompt_suffix(parts.suffix)
            } else {
                prompts::spec_format_embedded_llama_prompt(parts.prefix + parts.suffix)
            },
            ..run
        }
    }
}

/// The tokens of the prompt are counted: the context is chosen, or the prompt is too long.
pub open spec fn with_tokens(run: RunView, suffix_tokens: usize) -> RunView {
    let prompt_tokens = budget::capped_sum(run.prefix_tokens as int, suffix_tokens as int);
    if budget::required_tokens(prompt_tokens, run.max_tokens as int) > run.model_context {
        failed(
            run,
            error::ErrorView::Runtime(
                budget::exceeded_context(
                    prompt_tokens,
                    run.max_tokens as int,
                    run.model_context as int,
                ),
            ),
        )
    } else {
        RunView {
            context_length: budget::selected_context(
                prompt_tokens,
                run.max_tokens as int,
                run.model_context as int,
            ) as u32,
            phase: if run.purpose == RunPurpose::PreparePrefix {
                RunPhase::FindPrompt
            } else {
                RunPhase::FindInput
            },
            ..run
        }
    }
}

/// It is known whether there is a session that has read the whole prompt.
pub open spec fn with_input_session(run: RunView, found: bool) -> RunView {
    if found {
        if run.purpose == RunPurpose::Complete {
            RunView { input_cache_hit: true, phase: RunPhase::Limit, ..run }
        } else {
            ended(run, OutcomeView::Prepared(true))
        }
    } else if run.use_prompt_cache {
        going_to(run, RunPhase::FindPrompt)
    } else {
        going_to(run, RunPhase::Create)
    }
}

/// It is known whether there is a session that has read the shared part.
pub open spec fn with_prompt_session(run: RunView, found: bool) -> RunView {
    if !found {
        going_to(run, RunPhase::Create)
    } else if run.purpose == RunPurpose::PreparePrefix {
        ended(run, OutcomeView::Prepared(true))
    } else {
        going_to(run, RunPhase::Limit)
    }
}

/// The model wrote something: it is done where a JSON object is complete, up to a mark of its end.
pub open spec fn with_token(run: RunView, token: Seq<char>) -> RunView {
    if run.purpose == RunPurpose::Complete {
        let written = run.output + token;
        match fragments::spec_first_complete_json_object(
            fragments::spec_trim_after_stop_marker(written),
        ) {
            Some(object) => RunView { output: object, phase: RunPhase::Finish, ..run },
            None => RunView { output: written, ..run },
        }
    } else {
        going_to(run, RunPhase::StorePrompt)
    }
}

/// The phase in which a failure comes second to the clock.
pub open spec fn clock_comes_first(phase: RunPhase) -> bool {
    phase == RunPhase::Preload || phase == RunPhase::Load || phase == RunPhase::FeedPrefix || phase
        == RunPhase::FeedSuffix || phase == RunPhase::Copy
}

/// The phase after which a run that has not failed looks at the clock.
pub open spec fn clock_comes_last(run: RunView) -> bool {
    run.phase == RunPhase::Limit || run.phase == RunPhase::Finish || (run.phase
        == RunPhase::LimitFirst && run.purpose == RunPurpose::PreparePrefix)
}

/// What the run does after all went well.
pub open spec fn moved_on(run: RunView) -> RunView {
    match run.phase {
        RunPhase::Preload => going_to(run, RunPhase::Build),
        RunPhase::Load => going_to(run, RunPhase::Settings),
        RunPhase::Create => going_to(
            run,
            if run.use_prompt_cache {
                RunPhase::LimitFirst
            } else {
                RunPhase::Limit
            },
        ),
        RunPhase::LimitFirst => going_to(run, RunPhase::FeedPrefix),
        RunPhase::FeedPrefix => going_to(
            run,
            if run.purpose == RunPurpose::PreparePrefix {
                RunPhase::Copy
            } else {
                RunPhase::StoreCopy
            },
        ),
        RunPhase::StoreCopy => going_to(run, RunPhase::Limit),
        RunPhase::Limit => going_to(
            run,
            if run.input_cache_hit {
                RunPhase::Start
            } else {
                RunPhase::FeedSuffix
            },
        ),
        RunPhase::FeedSuffix => going_to(
            run,
            if run.purpose == RunPurpose::Complete {
                RunPhase::Start
            } else {
                RunPhase::StoreInput
            },
        ),
        RunPhase::Copy => going_to(run, RunPhase::Start),
        RunPhase::Start => going_to(run, RunPhase::Token),
        RunPhase::Finish => ended(
            run,
            OutcomeView::Output(
                text::spec_trim(fragments::spec_trim_after_stop_marker(run.output)),
            ),
        ),
        _ => ended(run, OutcomeView::Prepared(true)),
    }
}

/// What follows from the end of what the model writes.
pub open spec fn with_end(run: RunView, aborted: bool) -> RunView {
    if run.purpose == RunPurpose::Complete {
        going_to(run, RunPhase::Finish)
    } else if aborted {
        timed_out(run)
    } else {
        going_to(run, RunPhase::StorePrompt)
    }
}

/// What follows from a reply of the engine, and whether time has run out by then.
pub open spec fn after(run: RunView, reply: ReplyView, aborted: bool) -> RunView {
    if aborted && clock_comes_first(run.phase) {
        timed_out(run)
    } else {
        match reply {
            ReplyView::Failed(error) => failed(run, error),
            ReplyView::Prompt(parts) => with_prompt(run, parts),
            ReplyView::Path(path) => RunView { path, phase: RunPhase::Load, ..run },
            ReplyView::Settings(configuration) => RunView {
                configuration,
                phase: RunPhase::CountPrefix,
                ..run
            },
            ReplyView::Count(tokens) => if run.phase == RunPhase::CountPrefix {
                RunView { prefix_tokens: tokens, phase: RunPhase::CountSuffix, ..run }
            } else {
                with_tokens(run, tokens)
            },
            ReplyView::Found(found) => if run.phase == RunPhase::FindInput {
                with_input_session(run, found)
            } else {
                with_prompt_session(run, found)
            },
            ReplyView::Token(token) => if aborted {
                timed_out(run)
            } else {
                with_token(run, token)
            },
            ReplyView::End => with_end(run, aborted),
            ReplyView::Fault(message) => if run.phase == RunPhase::CountPrefix {
                failed(
                    run,
                    error::ErrorView::Runtime("failed to tokenize prompt prefix: "@ + message),
                )
            } else if run.phase == RunPhase::CountSuffix {
                failed(
                    run,
                    error::ErrorView::Runtime("failed to tokenize prompt input: "@ + message),
                )
            } else if run.phase == RunPhase::Token && aborted {
                timed_out(run)
            } else {
                faulted(run, message)
            },
            ReplyView::Done => if aborted && clock_comes_last(run) {
                timed_out(run)
            } else {
                moved_on(run)
            },
        }
    }
}

/// A run of an embedded model.
#[derive(Debug)]
pub struct EmbeddedRun {
    purpose: RunPurpose,
    request: CompressionRequest,
    model_id: String,
    model_context: u32,
    max_tokens: u32,
    timeout_ms: u64,
    phase: RunPhase,
    prefix: String,
    suffix: String,
    use_prompt_cache: bool,
    path: String,
    configuration: RuntimeInferenceConfig,
    prefix_tokens: usize,
    context_length: u32,
    input_cache_hit: bool,
    output: String,
    outcome: Option<RunOutcome>,
}

impl View for EmbeddedRun {
    type V = RunView;

    closed spec fn view(&self) -> RunView {
        RunView {
            purpose: self.purpose,
            request: self.request@,
            model_id: self.model_id@,
            model_context: self.model_context,
            max_tokens: self.max_tokens,
            timeout_ms: self.timeout_ms,
            phase: self.phase,
            prefix: self.prefix@,
            suffix: self.suffix@,
            use_prompt_cache: self.use_prompt_cache,
            path: self.path@,
            configuration: self.configuration,
            prefix_tokens: self.prefix_tokens,
            context_length: self.context_length,
            input_cache_hit: self.input_cache_hit,
            output: self.output@,
            outcome: view_outcome(self.outcome),
        }
    }
}

/// Settings before any are looked up.
pub open spec fn no_settings() -> RuntimeInferenceConfig {
    thread_tuning::spec_runtime_config_for_threads(RuntimeThreadCounts { generation: 1, batch: 1 })
}

/// The state in which a run begins.
pub open spec fn initial(
    purpose: RunPurpose,
    request: types::RequestView,
    model_id: Seq<char>,
    model_context: u32,
    default_max_output: u32,
    timeout_ms: u64,
) -> RunView {
    RunView {
        purpose,
        request,
        model_id,
        model_context,
        max_tokens: budget::spec_effective_max_output_tokens(
            request.level,
            request.input_text,
            default_max_output,
        ) as u32,
        timeout_ms,
        phase: if purpose == RunPurpose::Complete {
            RunPhase::Build
        } else {
            RunPhase::Preload
        },
        prefix: Seq::empty(),
        suffix: Seq::empty(),
        use_prompt_cache: false,
        path: Seq::empty(),
        configuration: no_settings(),
        prefix_tokens: 0,
        context_length: 0,
        input_cache_hit: false,
        output: Seq::empty(),
        outcome: None,
    }
}

impl EmbeddedRun {
    /// Begins a run for the request on the model, with so many milliseconds.
    pub fn start(
        purpose: RunPurpose,
        request: &CompressionRequest,
        model: &ModelDefinition,
        timeout_ms: u64,
    ) -> (r: EmbeddedRun)
        ensures
            r@ == initial(
                purpose,
                request@,
                model@.id,
                model@.context_length,
                model@.default_max_output,
                timeout_ms,
            ),
    {
        let phase: RunPhase = if purpose == RunPurpose::Complete {
            RunPhase::Build
        } else {
            RunPhase::Preload
        };
        EmbeddedRun {
            purpose,
            request: request.clone(),
            model_id: model.id.clone(),
            model_context: model.context_length,
            max_tokens: budget::effective_max_output_tokens(request, model),
            timeout_ms,
            phase,
            prefix: String::new(),
            suffix: String::new(),
            use_prompt_cache: false,
            path: String::new(),
            configuration: thread_tuning::runtime_config_for_threads(
                RuntimeThreadCounts { generation: 1, batch: 1 },
            ),
            prefix_tokens: 0,
            context_length: 0,
            input_cache_hit: false,
            output: String::new(),
            outcome: None,
        }
    }

    /// What the engine is to do.
    pub fn phase(&self) -> (r: RunPhase)
        ensures
            r == self@.phase,
    {
        self.phase
    }

    /// The shared part of the prompt.
    pub fn prefix(&self) -> (r: &str)
        ensures
            r@ == self@.prefix,
    {
        &self.prefix
    }

    /// The own part of the prompt.
    pub fn suffix(&self) -> (r: &str)
        ensures
            r@ == self@.suffix,
    {
        &self.suffix
    }

    /// The number of tokens that the model may write.
    pub fn prediction_limit(&self) -> (r: u32)
        ensures
            r == (if self@.purpose == RunPurpose::Complete {
                self@.max_tokens
            } else {
                1
            }),
    {
        if self.purpose == RunPurpose::Complete {
            self.max_tokens
        } else {
            1
        }
    }

    /// How the session is set up.
    pub fn session_params(&self) -> (r: SessionParams)
        ensures
            r == (SessionParams {
                n_ctx: self@.context_length,
                n_batch: self@.configuration.batch_sizes.logical,
                n_ubatch: self@.configuration.batch_sizes.physical,
                n_threads: self@.configuration.threads.generation,
                n_threads_batch: self@.configuration.threads.batch,
            }),
    {
        sessions::embedded_session_params(self.context_length, self.configuration)
    }

    /// The name of the session that has read the shared part of the prompt.
    pub fn prompt_key(&self) -> (r: String)
        ensures
            r@ == prompt_key_of(self@),
    {
        sessions::embedded_prompt_cache_key(
            &self.model_id,
            &self.path,
            self.context_length,
            self.configuration,
            &self.prefix,
        )
    }

    /// The name of the session that has read the whole prompt.
    pub fn input_key(&self) -> (r: String)
        ensures
            r@ == sessions::spec_embedded_input_cache_key(
                self@.model_id,
                self@.path,
                self@.context_length,
                self@.configuration,
                self@.prefix,
                self@.suffix,
            ),
    {
        sessions::input_cache_key(
            &self.model_id,
            &self.path,
            self.context_length,
            self.configuration,
            &self.prefix,
            &self.suffix,
        )
    }

    /// What became of the run, once it has ended.
    pub fn into_outcome(self) -> (r: Option<RunOutcome>)
        ensures
            view_outcome(r) == self@.outcome,
    {
        self.outcome
    }

    /// Whether the reply is one to what the engine was to do.
    pub fn expects(&self, reply: &RunReply) -> (r: bool)
        ensures
            r == fits(self@.phase, reply@),
    {
        match self.phase {
            RunPhase::Preload | RunPhase::Load | RunPhase::StoreCopy | RunPhase::StorePrompt
            | RunPhase::StoreInput => {
                matches!(reply, RunReply::Done) || matches!(reply, RunReply::Failed(_))
            },
            RunPhase::Build => {
                matches!(reply, RunReply::Prompt(_)) || matches!(reply, RunReply::Failed(_))
            },
            RunPhase::Find => {
                matches!(reply, RunReply::Path(_)) || matches!(reply, RunReply::Failed(_))
            },
            RunPhase::Settings => {
                matches!(reply, RunReply::Settings(_)) || matches!(reply, RunReply::Failed(_))
            },
            RunPhase::CountPrefix | RunPhase::CountSuffix => {
                matches!(reply, RunReply::Count(_)) || matches!(reply, RunReply::Fault(_))
            },
            RunPhase::FindInput | RunPhase::FindPrompt => {
                matches!(reply, RunReply::Found(_)) || matches!(reply, RunReply::Failed(_))
            },
            RunPhase::Create | RunPhase::LimitFirst | RunPhase::FeedPrefix | RunPhase::Limit
            | RunPhase::FeedSuffix | RunPhase::Copy | RunPhase::Start => {
                matches!(reply, RunReply::Done) || matches!(reply, RunReply::Fault(_))
            },
            RunPhase::Token => {
                matches!(reply, RunReply::Token(_)) || matches!(reply, RunReply::End) || matches!(
                    reply,
                    RunReply::Fault(_)
                )
            },
            RunPhase::Finish => matches!(reply, RunReply::Done),
            RunPhase::Ended => false,
        }
    }

    /// Ends the run.
    fn end(&mut self, outcome: RunOutcome)
        ensures
            final(self)@ == ended(old(self)@, outcome@),
    {
        self.phase = RunPhase::Ended;
        self.outcome = Some(outcome);
    }

    /// Ends the run as time has run out.
    fn end_by_clock(&mut self)
        ensures
            final(self)@ == timed_out(old(self)@),
    {
        if self.purpose == RunPurpose::Complete {
            match draft::trusted_precompacted_fallback_draft(&self.request) {
                Some(fallback) => {
                    self.end(RunOutcome::Fallback(fallback));
                    return;
                },
                None => {},
            }
        }
        let timeout_ms: u64 = self.timeout_ms;
        self.end(RunOutcome::Failed(CompressionError::RuntimeTimeout(timeout_ms)));
    }

    /// What a failure of the engine is called.
    fn fault_message(&self, message: &str) -> (r: String)
        ensures
            r@ == fault_start(self@.purpose, self@.phase) + self@.model_id + "': "@ + message@,
    {
        let completing: bool = self.purpose == RunPurpose::Complete;
        let start: &str = match self.phase {
            RunPhase::Create => {
                if completing {
                    "failed to create embedded llama.cpp session for '"
                } else {
                    "failed to create prepared embedded llama.cpp session for '"
                }
            },
            RunPhase::LimitFirst => {
                if completing {
                    "failed to configure embedded llama.cpp timeout for '"
                } else {
                    "failed to configure prepared embedded llama.cpp timeout for '"
                }
            },
            RunPhase::FeedPrefix => {
                if completing {
                    "failed to feed prepared prompt prefix to embedded llama.cpp model '"
                } else {
                    "failed to prepare prompt prefix for embedded llama.cpp model '"
                }
            },
            RunPhase::Limit => {
                if completing {
                    "failed to configure embedded llama.cpp timeout for '"
                } else {
                    "failed to configure prepared input timeout for '"
                }
            },
            RunPhase::FeedSuffix => {
                if completing {
                    "failed to feed prompt to embedded llama.cpp model '"
                } else {
                    "failed to prepare input for embedded llama.cpp model '"
                }
            },
            RunPhase::Copy => "failed to pre-copy prepared embedded prompt session for '",
            RunPhase::Start => {
                if completing {
                    "failed to start embedded llama.cpp completion for '"
                } else {
                    "failed to warm embedded llama.cpp generation for '"
                }
            },
            _ => {
                if completing {
                    "embedded llama.cpp generation failed for '"
                } else {
                    "failed to warm embedded llama.cpp generation for '"
                }
            },
        };
        text::concat4(start, &self.model_id, "': ", message)
    }

    /// Takes in the prompt.
    fn take_prompt(&mut self, parts: &PromptParts)
        ensures
            final(self)@ == with_prompt(old(self)@, parts@),
    {
        let shared: bool = text::char_count(&text::trim(&parts.prefix)) > 0;
        if self.purpose == RunPurpose::PreparePrefix && !shared {
            self.end(RunOutcome::Prepared(false));
            return;
        }
        self.phase = RunPhase::Find;
        self.use_prompt_cache = shared;
        self.prefix = if shared {
            prompts::format_embedded_llama_prompt_prefix(&parts.prefix)
        } else {
            String::new()
        };
        self.suffix = if self.purpose == RunPurpose::PreparePrefix {
            String::new()
        } else if shared {
            prompts::format_embedded_llama_prompt_suffix(&parts.suffix)
        } else {
            prompts::format_embedded_llama_prompt(&parts.combined())
        };
    }

    /// Takes in the number of tokens of the own part.
    fn take_tokens(&mut self, suffix_tokens: usize)
        ensures
            final(self)@ == with_tokens(old(self)@, suffix_tokens),
    {
        let prompt_tokens: usize = self.prefix_tokens.saturating_add(suffix_tokens);
        match budget::select_context_length_for_token_budget(
            prompt_tokens,
            self.max_tokens as usize,
            self.model_context as usize,
        ) {
            Ok(context_length) => {
                self.context_length = context_length;
                self.phase = if self.purpose == RunPurpose::PreparePrefix {
                    RunPhase::FindPrompt
                } else {
                    RunPhase::FindInput
                };
            },
            Err(error) => {
                self.end(RunOutcome::Failed(error));
            },
        }
    }

    /// Takes in whether there is a session that has read the whole prompt.
    fn take_input_session(&mut self, found: bool)
        ensures
            final(self)@ == with_input_session(old(self)@, found),
    {
        if found {
            if self.purpose == RunPurpose::Complete {
                self.input_cache_hit = true;
                self.phase = RunPhase::Limit;
            } else {
                self.end(RunOutcome::Prepared(true));
            }
        } else if self.use_prompt_cache {
            self.phase = RunPhase::FindPrompt;
        } else {
            self.phase = RunPhase::Create;
        }
    }

    /// Takes in whether there is a session that has read the shared part.
    fn take_prompt_session(&mut self, found: bool)
        ensures
            final(self)@ == with_prompt_session(old(self)@, found),
    {
        if !found {
            self.phase = RunPhase::Create;
        } else if self.purpose == RunPurpose::PreparePrefix {
            self.end(RunOutcome::Prepared(true));
        } else {
            self.phase = RunPhase::Limit;
        }
    }

    /// Takes in what the model wrote.
    fn take_token(&mut self, token: &str)
        ensures
            final(self)@ == with_token(old(self)@, token@),
    {
        if self.purpose == RunPurpose::Complete {
            let written: String = text::concat2(&self.output, token);
            match fragments::first_complete_json_object(
                &fragments::trim_after_stop_marker(&written),
            ) {
                Some(object) => {
                    self.output = object;
                    self.phase = RunPhase::Finish;
                },
                None => {
                    self.output = written;
                },
            }
        } else {
            self.phase = RunPhase::StorePrompt;
        }
    }

    /// Takes in that all went well.
    fn move_on(&mut self)
        ensures
            final(self)@ == moved_on(old(self)@),
    {
        match self.phase {
            RunPhase::Preload => {
                self.phase = RunPhase::Build;
            },
            RunPhase::Load => {
                self.phase = RunPhase::Settings;
            },
            RunPhase::Create => {
                self.phase = if self.use_prompt_cache {
                    RunPhase::LimitFirst
                } else {
                    RunPhase::Limit
                };
            },
            RunPhase::LimitFirst => {
                self.phase = RunPhase::FeedPrefix;
            },
            RunPhase::FeedPrefix => {
                self.phase = if self.purpose == RunPurpose::PreparePrefix {
                    RunPhase::Copy
                } else {
                    RunPhase::StoreCopy
                };
            },
            RunPhase::StoreCopy => {
                self.phase = RunPhase::Limit;
            },
            RunPhase::Limit => {
                self.phase = if self.input_cache_hit {
                    RunPhase::Start
                } else {
                    RunPhase::FeedSuffix
                };
            },
            RunPhase::FeedSuffix => {
                self.phase = if self.purpose == RunPurpose::Complete {
                    RunPhase::Start
                } else {
                    RunPhase::StoreInput
                };
            },
            RunPhase::Copy => {
                self.phase = RunPhase::Start;
            },
            RunPhase::Start => {
                self.phase = RunPhase::Token;
            },
            RunPhase::Finish => {
                let output: String = text::trim(&fragments::trim_after_stop_marker(&self.output));
                self.end(RunOutcome::Output(output));
            },
            _ => {
                self.end(RunOutcome::Prepared(true));
            },
        }
    }

    /// Takes a reply of the engine, and whether time has run out by then.
    pub fn advance(&mut self, reply: RunReply, aborted: bool)
        requires
            fits(old(self)@.phase, reply@),
        ensures
            final(self)@ == after(old(self)@, reply@, aborted),
    {
        if aborted && (self.phase == RunPhase::Preload || self.phase == RunPhase::Load || self.phase
            == RunPhase::FeedPrefix || self.phase == RunPhase::FeedSuffix || self.phase
            == RunPhase::Copy) {
            self.end_by_clock();
            return;
        }
        match reply {
            RunReply::Failed(error) => {
                self.end(RunOutcome::Failed(error));
            },
            RunReply::Prompt(parts) => {
                self.take_prompt(&parts);
            },
            RunReply::Path(path) => {
                self.path = path;
                self.phase = RunPhase::Load;
            },
            RunReply::Settings(configuration) => {
                self.configuration = configuration;
                self.phase = RunPhase::CountPrefix;
            },
            RunReply::Count(tokens) => {
                if self.phase == RunPhase::CountPrefix {
                    self.prefix_tokens = tokens;
                    self.phase = RunPhase::CountSuffix;
                } else {
                    self.take_tokens(tokens);
                }
            },
            RunReply::Found(found) => {
                if self.phase == RunPhase::FindInput {
                    self.take_input_session(found);
                } else {
                    self.take_prompt_session(found);
                }
            },
            RunReply::Token(token) => {
                if aborted {
                    self.end_by_clock();
                } else {
                    self.take_token(&token);
                }
            },
            RunReply::End => {
                if self.purpose == RunPurpose::Complete {
                    self.phase = RunPhase::Finish;
                } else if aborted {
                    self.end_by_clock();
                } else {
                    self.phase = RunPhase::StorePrompt;
                }
            },
            RunReply::Fault(message) => {
                if self.phase == RunPhase::CountPrefix {
                    self.end(
                        RunOutcome::Failed(
                            CompressionError::Runtime(
                                text::concat2("failed to tokenize prompt prefix: ", &message),
                            ),
                        ),
                    );
                } else if self.phase == RunPhase::CountSuffix {
                    self.end(
                        RunOutcome::Failed(
                            CompressionError::Runtime(
                                text::concat2("failed to tokenize prompt input: ", &message),
                            ),
                        ),
                    );
                } else if self.phase == RunPhase::Token && aborted {
                    self.end_by_clock();
                } else {
                    let reason: String = self.fault_message(&message);
                    self.end(RunOutcome::Failed(CompressionError::Runtime(reason)));
                }
            },
            RunReply::Done => {
                let looks: bool = self.phase == RunPhase::Limit || self.phase == RunPhase::Finish
                    || (self.phase == RunPhase::LimitFirst && self.purpose
                    == RunPurpose::PreparePrefix);
                if aborted && looks {
                    self.end_by_clock();
                } else {
                    self.move_on();
                }
            },
        }
    }
}

/// What is prepared for the request on the runtime: nothing where it is not shortened or the model
/// is not embedded; what prompts share where the request says nothing yet; else its whole prompt.
pub fn prepare_purpose(request: &CompressionRequest, runtime: &RuntimeDefinition) -> (r: Option<
    RunPurpose,
>)
    ensures
        r == (if request@.level == 0 || catalog::spec_route(
            runtime@.backend_kind,
            runtime@.launch_mode,
        ) != Some(catalog::RuntimeRoute::Embedded) {
            None
        } else if text::spec_trim(request@.input_text).len() == 0 {
            Some(RunPurpose::PreparePrefix)
        } else {
            Some(RunPurpose::PrepareInput)
        }),
{
    if request.compression_level.is_original() || !runtime.is_embedded() {
        None
    } else if text::char_count(&text::trim(&request.input_text)) == 0 {
        Some(RunPurpose::PreparePrefix)
    } else {
        Some(RunPurpose::PrepareInput)
    }
}

/// How far a run still is from its end.
pub open spec fn remaining(phase: RunPhase) -> int {
    match phase {
        RunPhase::Preload => 21,
        RunPhase::Build => 20,
        RunPhase::Find => 19,
        RunPhase::Load => 18,
        RunPhase::Settings => 17,
        RunPhase::CountPrefix => 16,
        RunPhase::CountSuffix => 15,
        RunPhase::FindInput => 14,
        RunPhase::FindPrompt => 13,
        RunPhase::Create => 12,
        RunPhase::LimitFirst => 11,
        RunPhase::FeedPrefix => 10,
        RunPhase::StoreCopy => 9,
        RunPhase::Limit => 8,
        RunPhase::FeedSuffix => 7,
        RunPhase::Copy => 6,
        RunPhase::Start => 5,
        RunPhase::Token => 4,
        RunPhase::Finish => 3,
        RunPhase::StorePrompt => 2,
        RunPhase::StoreInput => 1,
        RunPhase::Ended => 0,
    }
}

/// A run never goes back: every reply brings it nearer to its end, but for one that hands on what
/// the model writes, which may leave it where it is.
pub proof fn runs_come_to_an_end(run: RunView, reply: ReplyView, aborted: bool)
    requires
        fits(run.phase, reply),
    ensures
        ({
            let next = after(run, reply, aborted);
            ||| remaining(next.phase) < remaining(run.phase)
            ||| run.phase == RunPhase::Token && reply is Token && next.phase == RunPhase::Token
        }),
{
}

/// A run has an outcome when it has ended, and not before.
pub proof fn outcome_comes_with_the_end(run: RunView, reply: ReplyView, aborted: bool)
    requires
        fits(run.phase, reply),
        run.outcome is None,
    ensures
        ({
            let next = after(run, reply, aborted);
            next.outcome is Some <==> next.phase == RunPhase::Ended
        }),
{
}

/// A reply that comes too late is answered by what the request says of itself, where that can be
/// trusted, and with the error that time ran out where not: so it is wherever a request is answered
/// and the clock is looked at.
pub proof fn late_replies_fall_back(run: RunView, reply: ReplyView)
    requires
        run.purpose == RunPurpose::Complete,
        fits(run.phase, reply),
        clock_comes_first(run.phase) || (clock_comes_last(run) && reply is Done) || (run.phase
            == RunPhase::Token && !(reply is End)),
    ensures
        after(run, reply, true).outcome == Some(
            match draft::spec_trusted_precompacted_fallback_draft(run.request) {
                Some(fallback) => OutcomeView::Fallback(fallback),
                None => OutcomeView::Failed(error::ErrorView::RuntimeTimeout(run.timeout_ms)),
            },
        ),
{
}

/// Where a session was prepared with the whole prompt, the model begins to write without reading
/// anything again.
pub proof fn prepared_input_is_not_read_again(run: RunView)
    requires
        run.purpose == RunPurpose::Complete,
        run.phase == RunPhase::FindInput,
    ensures
        ({
            let found = after(run, ReplyView::Found(true), false);
            let limited = after(found, ReplyView::Done, false);
            found.phase == RunPhase::Limit && limited.phase == RunPhase::Start
        }),
{
}

/// The name under which a session is prepared with a whole prompt is that under which a later run
/// for the same request, model and settings looks for it.
pub proof fn prepared_input_is_found(prepared: RunView, run: RunView, parts: prompts::PartsView)
    requires
        prepared.purpose == RunPurpose::PrepareInput,
        run.purpose == RunPurpose::Complete,
    ensures
        with_prompt(prepared, parts).prefix == with_prompt(run, parts).prefix,
        with_prompt(prepared, parts).suffix == with_prompt(run, parts).suffix,
        with_prompt(prepared, parts).use_prompt_cache == with_prompt(run, parts).use_prompt_cache,
{
}

/// The name of the session that has read the shared part of a run's prompt.
pub open spec fn prompt_key_of(run: RunView) -> Seq<char> {
    sessions::spec_embedded_prompt_cache_key(
        run.model_id,
        run.path,
        run.context_length,
        run.configuration,
        run.prefix,
    )
}

/// The name under which a session is prepared with the shared part of a prompt is that under which
/// a later run for the same prompt looks for it, on the same model and with the same settings.
pub proof fn prepared_prefix_is_found(prepared: RunView, run: RunView, parts: prompts::PartsView)
    requires
        prepared.purpose == RunPurpose::PreparePrefix,
        run.purpose != RunPurpose::PreparePrefix,
        text::spec_trim(parts.prefix).len() > 0,
        prepared.model_id == run.model_id,
        prepared.path == run.path,
        prepared.context_length == run.context_length,
        prepared.configuration == run.configuration,
    ensures
        prompt_key_of(with_prompt(prepared, parts)) == prompt_key_of(with_prompt(run, parts)),
{
}

/// The run answers a request, and nothing that is only prepared comes of it.
pub open spec fn is_answering(run: RunView) -> bool {
    &&& run.purpose == RunPurpose::Complete
    &&& run.phase != RunPhase::Preload
    &&& run.phase != RunPhase::Copy
    &&& run.phase != RunPhase::StorePrompt
    &&& run.phase != RunPhase::StoreInput
    &&& !(run.outcome matches Some(OutcomeView::Prepared(_)))
}

/// A run that begins to answer a request ends with an output, with what the request says of itself,
/// or with an error.
pub proof fn answering_runs_answer(
    request: types::RequestView,
    model_id: Seq<char>,
    model_context: u32,
    default_max_output: u32,
    timeout_ms: u64,
    run: RunView,
    reply: ReplyView,
    aborted: bool,
)
    ensures
        is_answering(
            initial(
                RunPurpose::Complete,
                request,
                model_id,
                model_context,
                default_max_output,
                timeout_ms,
            ),
        ),
        is_answering(run) && fits(run.phase, reply) ==> is_answering(after(run, reply, aborted)),
{
}

/// What a request was answered with, once the run for it has ended.
pub open spec fn observed(request: types::RequestView, outcome: OutcomeView) -> Result<
    draft::ObservationView,
    error::ErrorView,
>
    recommends
        !(outcome is Prepared),
{
    match outcome {
        OutcomeView::Output(output) => match output_parser::spec_parse_compression_output(output) {
            Ok(raw) => draft::spec_finalize_observed_model_draft(request, raw),
            Err(error) => Err(error),
        },
        OutcomeView::Fallback(fallback) => Ok(
            draft::ObservationView {
                raw_model_draft: None,
                final_draft: fallback,
                transformations: seq![draft::RuntimeTransformation::RuntimeFallback],
            },
        ),
        OutcomeView::Failed(error) => Err(error),
        OutcomeView::Prepared(_) => arbitrary(),
    }
}

/// Reads, completes and checks what the model wrote.
pub fn observe_outcome(request: &CompressionRequest, outcome: RunOutcome) -> (r: Result<
    RuntimeCompressionObservation,
    CompressionError,
>)
    requires
        !(outcome@ is Prepared),
    ensures
        draft::observation_outcome(r) == observed(request@, outcome@),
{
    match outcome {
        RunOutcome::Output(output) => match output_parser::parse_compression_output(&output) {
            Ok(raw) => draft::finalize_observed_model_draft(request, raw),
            Err(error) => Err(error),
        },
        RunOutcome::Fallback(fallback) => Ok(
            RuntimeCompressionObservation::runtime_fallback(fallback),
        ),
        RunOutcome::Failed(error) => Err(error),
        RunOutcome::Prepared(_) => vstd::pervasive::unreached(),
    }
}

} // verus!
