//! Requests and results.
use vstd::prelude::*;
use crate::contents;
use crate::error::CompressionError;
use crate::error;

verus! {

broadcast use crate::contents::group_contents;

/// The highest level of compression.
pub const MAX_COMPRESSION_LEVEL: u8 = 3;

/// How much a request is shortened: from 0, which leaves it as it is, to 3.
#[derive(Debug, Clone, Copy, PartialEq, Eq, Structural)]
pub struct CompressionLevel {
    value: u8,
}

impl CompressionLevel {
    /// There are four levels.
    #[verifier::type_invariant]
    spec fn well_formed(self) -> bool {
        self.value <= MAX_COMPRESSION_LEVEL
    }

    /// The number of the level.
    pub closed spec fn spec_value(self) -> u8 {
        self.value
    }

    /// The level with the number, where there is one.
    pub fn from_u8(value: u8) -> (r: Result<CompressionLevel, CompressionError>)
        ensures
            match r {
                Ok(level) => value <= MAX_COMPRESSION_LEVEL && level.spec_value() == value,
                Err(error) => value > MAX_COMPRESSION_LEVEL && error@
                    == error::ErrorView::InvalidCompressionLevel(value),
            },
    {
        if value <= MAX_COMPRESSION_LEVEL {
            Ok(CompressionLevel { value })
        } else {
            Err(CompressionError::InvalidCompressionLevel(value))
        }
    }

    /// The number of the level.
    pub fn value(&self) -> (r: u8)
        ensures
            r == self.spec_value(),
            r <= MAX_COMPRESSION_LEVEL,
    {
        proof {
            use_type_invariant(self);
        }
        self.value
    }

    /// Whether the level leaves a request as it is.
    pub fn is_original(&self) -> (r: bool)
        ensures
            r == (self.spec_value() == 0),
    {
        self.value == 0
    }
}

/// What of a request must not be lost.
#[derive(Debug, Clone, Copy, PartialEq, Eq, Structural)]
pub struct CompressionConstraints {
    pub preserve_code_blocks: bool,
    pub preserve_file_names: bool,
    pub preserve_error_messages: bool,
    pub preserve_numbers: bool,
    pub preserve_negations: bool,
}

impl Default for CompressionConstraints {
    /// Everything is to be kept.
    fn default() -> (r: Self)
        ensures
            r.preserve_code_blocks,
            r.preserve_file_names,
            r.preserve_error_messages,
            r.preserve_numbers,
            r.preserve_negations,
    {
        CompressionConstraints {
            preserve_code_blocks: true,
            preserve_file_names: true,
            preserve_error_messages: true,
            preserve_numbers: true,
            preserve_negations: true,
        }
    }
}

/// Who reads the result, and how their tokens are counted.
#[derive(Debug)]
pub struct RequestTarget {
    pub destination: String,
    pub tokenizer_profile: String,
}

impl RequestTarget {
    /// The target of requests for Codex.
    pub fn codex_default() -> (r: RequestTarget)
        ensures
            r.destination@ == "codex"@,
            r.tokenizer_profile@ == "codex_default"@,
    {
        RequestTarget {
            destination: "codex".to_owned(),
            tokenizer_profile: "codex_default".to_owned(),
        }
    }
}

/// Where a request comes from.
#[derive(Debug, Clone, Copy, PartialEq, Eq, Structural)]
pub enum RequestSource {
    Cli,
    Desktop,
}

/// A prompt to shorten, and how.
#[derive(Debug)]
pub struct CompressionRequest {
    pub input_text: String,
    pub compression_level: CompressionLevel,
    pub profile: String,
    pub constraints: CompressionConstraints,
    pub target: RequestTarget,
    pub source: RequestSource,
}

/// Contents of a [`CompressionRequest`].
pub struct RequestView {
    pub input_text: Seq<char>,
    pub level: u8,
    pub profile: Seq<char>,
    pub constraints: CompressionConstraints,
    pub destination: Seq<char>,
    pub tokenizer_profile: Seq<char>,
    pub source: RequestSource,
}

impl View for CompressionRequest {
    type V = RequestView;

    open spec fn view(&self) -> RequestView {
        RequestView {
            input_text: self.input_text@,
            level: self.compression_level.spec_value(),
            profile: self.profile@,
            constraints: self.constraints,
            destination: self.target.destination@,
            tokenizer_profile: self.target.tokenizer_profile@,
            source: self.source,
        }
    }
}

impl Clone for RequestTarget {
    fn clone(&self) -> (r: Self)
        ensures
            r.destination@ == self.destination@,
            r.tokenizer_profile@ == self.tokenizer_profile@,
    {
        RequestTarget {
            destination: self.destination.clone(),
            tokenizer_profile: self.tokenizer_profile.clone(),
        }
    }
}

impl Clone for CompressionRequest {
    fn clone(&self) -> (r: Self)
        ensures
            r@ == self@,
    {
        CompressionRequest {
            input_text: self.input_text.clone(),
            compression_level: self.compression_level,
            profile: self.profile.clone(),
            constraints: self.constraints,
            target: self.target.clone(),
            source: self.source,
        }
    }
}

/// A requirement of a request that the result was found to keep.
#[derive(Debug, Clone)]
pub struct PreservedRequirement {
    pub kind: String,
    pub text: String,
}

/// The kinds and names of requirements.
pub open spec fn requirement_views(list: Seq<PreservedRequirement>) -> Seq<(Seq<char>, Seq<char>)> {
    list.map_values(|requirement: PreservedRequirement| (requirement.kind@, requirement.text@))
}

/// How grave a risk is.
#[derive(Debug, Clone, Copy, PartialEq, Eq, Structural)]
pub enum RiskSeverity {
    Low,
    Medium,
    High,
}

/// A reason to be wary of a result.
#[derive(Debug, Clone)]
pub struct RiskFlag {
    pub code: String,
    pub severity: RiskSeverity,
    pub message: String,
}

/// The codes, severities and messages of risks.
pub open spec fn risk_views(list: Seq<RiskFlag>) -> Seq<(Seq<char>, RiskSeverity, Seq<char>)> {
    list.map_values(|risk: RiskFlag| (risk.code@, risk.severity, risk.message@))
}

/// How long input and output are, in estimated tokens and in characters, and how long it took.
#[derive(Debug, Clone, Copy, PartialEq, Eq, Structural)]
pub struct CompressionMetrics {
    pub input_tokens_est: usize,
    pub output_tokens_est: usize,
    pub input_characters: usize,
    pub output_characters: usize,
    pub latency_ms: u64,
}

/// What became of a request.
#[derive(Debug, Clone)]
pub struct CompressionResult {
    pub request_id: String,
    pub profile: String,
    pub model_id: String,
    pub runtime: String,
    pub distilled_prompt: String,
    pub preserved_requirements: Vec<PreservedRequirement>,
    pub removed_content_summary: Vec<String>,
    pub risk_flags: Vec<RiskFlag>,
    pub should_send_original: bool,
    pub fallback_reason: Option<String>,
    pub metrics: CompressionMetrics,
}

/// Contents of a [`CompressionResult`] but for its identifier and the time that it took.
pub struct ResultView {
    pub profile: Seq<char>,
    pub model_id: Seq<char>,
    pub runtime: Seq<char>,
    pub distilled_prompt: Seq<char>,
    pub preserved_requirements: Seq<(Seq<char>, Seq<char>)>,
    pub removed_content_summary: Seq<Seq<char>>,
    pub risk_flags: Seq<(Seq<char>, RiskSeverity, Seq<char>)>,
    pub should_send_original: bool,
    pub fallback_reason: Option<Seq<char>>,
    pub input_tokens_est: int,
    pub output_tokens_est: int,
    pub input_characters: int,
    pub output_characters: int,
}

impl View for CompressionResult {
    type V = ResultView;

    open spec fn view(&self) -> ResultView {
        ResultView {
            profile: self.profile@,
            model_id: self.model_id@,
            runtime: self.runtime@,
            distilled_prompt: self.distilled_prompt@,
            preserved_requirements: requirement_views(self.preserved_requirements@),
            removed_content_summary: contents::views(self.removed_content_summary@),
            risk_flags: risk_views(self.risk_flags@),
            should_send_original: self.should_send_original,
            fallback_reason: contents::view_option(self.fallback_reason),
            input_tokens_est: self.metrics.input_tokens_est as int,
            output_tokens_est: self.metrics.output_tokens_est as int,
            input_characters: self.metrics.input_characters as int,
            output_characters: self.metrics.output_characters as int,
        }
    }
}

} // verus!
