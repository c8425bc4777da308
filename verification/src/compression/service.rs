//! The service that answers requests: it runs a backend, checks what came of it, and hands the
//! original back where anything went wrong.
use std::time::Instant;
use vstd::prelude::*;
use crate::clock;
use crate::compression::literals;
use crate::compression::token_estimator;
use crate::compression::token_estimator::SimpleTokenEstimator;
use crate::compression::verification;
use crate::compression::verification::{SimpleVerifier, VerificationSummary};
use crate::config::profile;
use crate::config::profile::{ProfileDefinition, ProfileRegistry};
use crate::contents;
use crate::error;
use crate::error::CompressionError;
use crate::parts;
use crate::runtime::backend::RuntimeBackend;
use crate::runtime::corrections;
use crate::runtime::draft;
use crate::runtime::draft::{CompressionDraft, RuntimeCompressionObservation};
use crate::text;
use crate::types;
use crate::types::{
    CompressionMetrics,
    CompressionRequest,
    CompressionResult,
    RiskFlag,
    RiskSeverity,
};

verus! {

broadcast use crate::contents::group_contents;

/// A result, how the runtime came to it, and whether the original took its place.
#[derive(Debug, Clone)]
pub struct ObservedCompression {
    pub result: CompressionResult,
    pub runtime_observation: Option<RuntimeCompressionObservation>,
    pub application_fallback_applied: bool,
}

/// Contents of an [`ObservedCompression`].
#[verifier::ext_equal]
pub struct ObservedView {
    pub result: types::ResultView,
    pub runtime_observation: Option<draft::ObservationView>,
    pub application_fallback_applied: bool,
}

/// The contents of an optional observation.
pub open spec fn view_observation(observation: Option<RuntimeCompressionObservation>) -> Option<
    draft::ObservationView,
> {
    match observation {
        Some(observation) => Some(observation@),
        None => None,
    }
}

impl View for ObservedCompression {
    type V = ObservedView;

    open spec fn view(&self) -> ObservedView {
        ObservedView {
            result: self.result@,
            runtime_observation: view_observation(self.runtime_observation),
            application_fallback_applied: self.application_fallback_applied,
        }
    }
}

/// What a backend answers: a draft, with or without how it came about, or an error.
pub type BackendAnswer = Result<
    (CompressionDraft, Option<RuntimeCompressionObservation>),
    CompressionError,
>;

/// Contents of a [`BackendAnswer`].
pub type AnswerView = Result<
    (draft::DraftView, Option<draft::ObservationView>),
    error::ErrorView,
>;

/// The contents of what a backend answers.
pub open spec fn answer_view(answer: BackendAnswer) -> AnswerView {
    match answer {
        Ok((made, observation)) => Ok((made@, view_observation(observation))),
        Err(error) => Err(error@),
    }
}

/// The answer that an observed run of a backend stands for.
pub open spec fn observed_answer(
    outcome: Result<RuntimeCompressionObservation, CompressionError>,
) -> AnswerView {
    match outcome {
        Ok(observation) => Ok((observation@.final_draft, Some(observation@))),
        Err(error) => Err(error@),
    }
}

/// The answer that an unobserved run of a backend stands for.
pub open spec fn plain_answer(outcome: Result<CompressionDraft, CompressionError>) -> AnswerView {
    match outcome {
        Ok(made) => Ok((made@, None)),
        Err(error) => Err(error@),
    }
}

/// A draft that holds the request itself, with the reason.
pub open spec fn original_draft(input_text: Seq<char>, reason: Seq<char>) -> draft::DraftView {
    draft::DraftView {
        distilled_prompt: text::spec_trim(input_text),
        removed_content_summary: seq![reason],
    }
}

/// A draft that holds the request itself, with the reason.
fn original_prompt_draft(request: &CompressionRequest, reason: &str) -> (r: CompressionDraft)
    ensures
        r@ == original_draft(request@.input_text, reason@),
{
    let mut summary: Vec<String> = Vec::new();
    summary.push(reason.to_owned());
    assert(contents::views(summary@) =~= seq![reason@]);
    CompressionDraft {
        distilled_prompt: text::trim(&request.input_text),
        removed_content_summary: summary,
    }
}

/// What is said of a request that is to stay as it is.
pub const ORIGINAL_LEVEL_SUMMARY: &'static str = "Original level selected; no compression applied.";

/// What is said of a request whose runtime failed.
pub const RUNTIME_FAILURE_SUMMARY: &'static str = "圧縮ランタイムが失敗したため原文を返しました。";

/// What is said of a request whose result did not keep what it had to.
pub const VERIFICATION_FAILURE_SUMMARY: &'static str = "圧縮結果の要件保持を確認できなかったため原文を返しました。";

/// The risk that is flagged where the runtime failed.
pub open spec fn runtime_failure_risk() -> (Seq<char>, RiskSeverity, Seq<char>) {
    (
        "RUNTIME_FALLBACK"@,
        RiskSeverity::High,
        "圧縮ランタイムが失敗したため、原文返しを選択しました。"@,
    )
}

/// Why the original is handed back after a failure of the runtime.
pub open spec fn runtime_failure_reason(profile_id: Seq<char>, error: error::ErrorView) -> Seq<
    char,
> {
    "原文返し理由: 圧縮ランタイムが失敗しました（profile: '"@ + profile_id + "', error: "@
        + error::spec_message(error) + "）。再推論せず原文を返しました。"@
}

/// Why the original is handed back after a check failed.
pub open spec fn verification_failure_reason(reason: Seq<char>) -> Seq<char> {
    "原文返し理由: 圧縮結果の要件保持を確認できませんでした（"@ + reason
        + "）。原文を返しました。"@
}

/// A draft that holds something else than the request gives way to it after a check failed.
pub open spec fn gives_way(
    input_text: Seq<char>,
    prompt: Seq<char>,
    should_send_original: bool,
) -> bool {
    &&& should_send_original
    &&& text::spec_trim(prompt).len() > 0
    &&& text::spec_trim(prompt) != text::spec_trim(input_text)
}

/// What is said of a draft, and of a failure before it. The reason is put in a sentence where a
/// draft gives way to the request.
pub open spec fn judged(
    request: types::RequestView,
    profile_id: Seq<char>,
    answer: AnswerView,
    prompt: Seq<char>,
) -> verification::SummaryView {
    let summary = verification::spec_verify(request, prompt);
    match answer {
        Ok(_) => verification::SummaryView {
            fallback_reason: match summary.fallback_reason {
                Some(reason) => if gives_way(
                    request.input_text,
                    prompt,
                    summary.should_send_original,
                ) {
                    Some(verification_failure_reason(reason))
                } else {
                    Some(reason)
                },
                None => None,
            },
            ..summary
        },
        Err(error) => verification::SummaryView {
            preserved_requirements: summary.preserved_requirements,
            risk_flags: summary.risk_flags.push(runtime_failure_risk()),
            should_send_original: true,
            fallback_reason: Some(runtime_failure_reason(profile_id, error)),
        },
    }
}

/// What a request is answered after what the backend answered: the draft where it keeps what the
/// request protects, else the request itself.
pub open spec fn spec_conclude(
    request: types::RequestView,
    profile: profile::ProfileView,
    answer: AnswerView,
) -> ObservedView {
    let made = match answer {
        Ok((made, _)) => made,
        Err(_) => original_draft(request.input_text, RUNTIME_FAILURE_SUMMARY@),
    };
    let summary = judged(request, profile.id, answer, made.distilled_prompt);
    let replaced = summary.should_send_original && text::spec_trim(made.distilled_prompt)
        != text::spec_trim(request.input_text);
    let last = if replaced {
        original_draft(request.input_text, VERIFICATION_FAILURE_SUMMARY@)
    } else {
        made
    };
    ObservedView {
        result: types::ResultView {
            profile: profile.id,
            model_id: profile.model_ref,
            runtime: profile.runtime_ref,
            distilled_prompt: last.distilled_prompt,
            preserved_requirements: summary.preserved_requirements,
            removed_content_summary: last.removed_content_summary,
            risk_flags: summary.risk_flags,
            should_send_original: summary.should_send_original,
            fallback_reason: summary.fallback_reason,
            input_tokens_est: token_estimator::spec_estimate(request.input_text),
            output_tokens_est: token_estimator::spec_estimate(last.distilled_prompt),
            input_characters: request.input_text.len() as int,
            output_characters: last.distilled_prompt.len() as int,
        },
        runtime_observation: match answer {
            Ok((_, observation)) => observation,
            Err(_) => None,
        },
        application_fallback_applied: answer is Err || replaced,
    }
}

/// The number of characters of a text.
pub fn count_characters(text: &str) -> (r: usize)
    ensures
        r == text@.len(),
{
    text::char_count(text)
}

/// Adds a risk to a list.
fn flag_runtime_failure(flags: &mut Vec<RiskFlag>)
    ensures
        types::risk_views(final(flags)@) == types::risk_views(old(flags)@).push(
            runtime_failure_risk(),
        ),
{
    flags.push(
        RiskFlag {
            code: "RUNTIME_FALLBACK".to_owned(),
            severity: RiskSeverity::High,
            message: "圧縮ランタイムが失敗したため、原文返しを選択しました。".to_owned(),
        },
    );
    assert(types::risk_views(flags@) =~= types::risk_views(old(flags)@).push(
        runtime_failure_risk(),
    ));
}

/// Answers a request after what the backend answered: with the draft where it keeps what the
/// request protects, else with the request itself.
pub fn conclude(
    request: &CompressionRequest,
    profile: &ProfileDefinition,
    answer: BackendAnswer,
    request_id: String,
    started_at: &Instant,
) -> (r: ObservedCompression)
    ensures
        r@ == spec_conclude(request@, profile@, answer_view(answer)),
        r.result.request_id@ == request_id@,
{
    let ghost answered = answer_view(answer);
    let mut failure: Option<String> = None;
    let mut observation: Option<RuntimeCompressionObservation> = None;
    let mut made: CompressionDraft = match answer {
        Ok((made, observed)) => {
            observation = observed;
            made
        },
        Err(error) => {
            failure =
            Some(
                text::concat5(
                    "原文返し理由: 圧縮ランタイムが失敗しました（profile: '",
                    &profile.id,
                    "', error: ",
                    &error.message(),
                    "）。再推論せず原文を返しました。",
                ),
            );
            original_prompt_draft(request, RUNTIME_FAILURE_SUMMARY)
        },
    };
    let mut replaced: bool = failure.is_some();
    let mut summary: VerificationSummary = SimpleVerifier.verify(request, &made.distilled_prompt);
    let trimmed: String = text::trim(&made.distilled_prompt);
    let differs: bool = !text::same(&trimmed, &text::trim(&request.input_text));
    match failure {
        Some(reason) => {
            summary.should_send_original = true;
            summary.fallback_reason = Some(reason);
            flag_runtime_failure(&mut summary.risk_flags);
        },
        None => {
            summary.fallback_reason =
            match summary.fallback_reason {
                Some(reason) => if summary.should_send_original && text::char_count(&trimmed) > 0
                    && differs {
                    Some(
                        text::concat3(
                            "原文返し理由: 圧縮結果の要件保持を確認できませんでした（",
                            &reason,
                            "）。原文を返しました。",
                        ),
                    )
                } else {
                    Some(reason)
                },
                None => None,
            };
        },
    }
    assert(summary@ == judged(request@, profile@.id, answered, made@.distilled_prompt));
    if summary.should_send_original && differs {
        made = original_prompt_draft(request, VERIFICATION_FAILURE_SUMMARY);
        replaced = true;
    }
    let input_tokens: usize = SimpleTokenEstimator.estimate(
        &request.input_text,
        &profile.target_tokenizer_profile,
    );
    let output_tokens: usize = SimpleTokenEstimator.estimate(
        &made.distilled_prompt,
        &profile.target_tokenizer_profile,
    );
    let metrics: CompressionMetrics = CompressionMetrics {
        input_tokens_est: input_tokens,
        output_tokens_est: output_tokens,
        input_characters: count_characters(&request.input_text),
        output_characters: count_characters(&made.distilled_prompt),
        latency_ms: clock::elapsed_millis(started_at),
    };
    ObservedCompression {
        result: CompressionResult {
            request_id,
            profile: profile.id.clone(),
            model_id: profile.model_ref.clone(),
            runtime: profile.runtime_ref.clone(),
            distilled_prompt: made.distilled_prompt,
            preserved_requirements: summary.preserved_requirements,
            removed_content_summary: made.removed_content_summary,
            risk_flags: summary.risk_flags,
            should_send_original: summary.should_send_original,
            fallback_reason: summary.fallback_reason,
            metrics,
        },
        runtime_observation: observation,
        application_fallback_applied: replaced,
    }
}

/// The backend may give the answer for the request: what a run of it returned, or the request
/// itself at the level that leaves it as it is, for which nothing is run.
pub open spec fn may_answer<B: RuntimeBackend>(
    backend: &B,
    request: &CompressionRequest,
    profile: &ProfileDefinition,
    observe: bool,
    answer: AnswerView,
) -> bool {
    if request@.level == 0 {
        answer == Ok::<(draft::DraftView, Option<draft::ObservationView>), error::ErrorView>(
            (original_draft(request@.input_text, ORIGINAL_LEVEL_SUMMARY@), None),
        )
    } else if observe {
        exists|outcome: Result<RuntimeCompressionObservation, CompressionError>| #[trigger]
            call_ensures(B::compress_observed, (backend, request, profile), outcome) && answer
                == observed_answer(outcome)
    } else {
        exists|outcome: Result<CompressionDraft, CompressionError>| #[trigger]
            call_ensures(B::compress, (backend, request, profile), outcome) && answer
                == plain_answer(outcome)
    }
}

/// The service may answer the request so. A blank request and one for an unknown profile are
/// refused; any other is answered, whatever the backend does.
pub open spec fn may_return<B: RuntimeBackend>(
    service: &CompressionService<B>,
    request: &CompressionRequest,
    observe: bool,
    outcome: Result<ObservedView, error::ErrorView>,
) -> bool {
    let profiles = service.registry().profiles();
    if text::spec_trim(request@.input_text).len() == 0 {
        outcome == Err::<ObservedView, error::ErrorView>(error::ErrorView::EmptyInput)
    } else if !profiles.contains_key(request@.profile) {
        outcome == Err::<ObservedView, error::ErrorView>(
            error::ErrorView::UnknownProfile(request@.profile),
        )
    } else {
        exists|profile: &ProfileDefinition, answer: AnswerView|
            profile@ == profiles[request@.profile] && #[trigger] may_answer(
                &service.backend(),
                request,
                profile,
                observe,
                answer,
            ) && outcome == Ok::<ObservedView, error::ErrorView>(
                spec_conclude(request@, profile@, answer),
            )
    }
}

/// The contents of an outcome that is an observed result.
pub open spec fn observed_outcome(outcome: Result<ObservedCompression, CompressionError>) -> Result<
    ObservedView,
    error::ErrorView,
> {
    match outcome {
        Ok(observed) => Ok(observed@),
        Err(error) => Err(error@),
    }
}

/// The outcome is that of an observed one without the observation.
pub open spec fn result_of(
    outcome: Result<CompressionResult, CompressionError>,
    observed: Result<ObservedView, error::ErrorView>,
) -> bool {
    match outcome {
        Ok(result) => observed matches Ok(view) && view.result == result@
            && clock::is_random_identifier(result.request_id@),
        Err(error) => observed == Err::<ObservedView, error::ErrorView>(error@),
    }
}

/// The request with another profile.
pub open spec fn with_profile(request: types::RequestView, profile: Seq<char>) -> types::RequestView {
    types::RequestView { profile, ..request }
}

/// The service may answer the request so for the profile.
pub open spec fn may_answer_for<B: RuntimeBackend>(
    service: &CompressionService<B>,
    base_request: types::RequestView,
    profile: Seq<char>,
    outcome: Result<CompressionResult, CompressionError>,
) -> bool {
    exists|request: CompressionRequest, observed: Result<ObservedView, error::ErrorView>|
        request@ == with_profile(base_request, profile) && #[trigger] may_return(
            service,
            &request,
            false,
            observed,
        ) && result_of(outcome, observed)
}

/// Answers requests with the help of a backend.
#[derive(Debug)]
pub struct CompressionService<B> {
    registry: ProfileRegistry,
    backend: B,
}

impl<B: RuntimeBackend> CompressionService<B> {
    /// The profiles that are served.
    pub closed spec fn registry(&self) -> ProfileRegistry {
        self.registry
    }

    /// What serves them.
    pub closed spec fn backend(&self) -> B {
        self.backend
    }

    /// A service for the profiles.
    pub fn new(registry: ProfileRegistry, backend: B) -> (r: Self)
        ensures
            r.registry() == registry,
            r.backend() == backend,
    {
        CompressionService { registry, backend }
    }

    /// Answers a request.
    pub fn compress(&self, request: CompressionRequest) -> (r: Result<
        CompressionResult,
        CompressionError,
    >)
        ensures
            exists|observed: Result<ObservedView, error::ErrorView>| #[trigger]
                may_return(self, &request, false, observed) && result_of(r, observed),
    {
        match self.compress_internal(&request, false) {
            Ok(observed) => {
                assert(may_return(self, &request, false, Ok(observed@)));
                Ok(observed.result)
            },
            Err(error) => {
                assert(may_return(self, &request, false, Err(error@)));
                Err(error)
            },
        }
    }

    /// Answers a request, and tells how the runtime came to the answer.
    pub fn compress_with_observation(&self, request: CompressionRequest) -> (r: Result<
        ObservedCompression,
        CompressionError,
    >)
        ensures
            may_return(self, &request, true, observed_outcome(r)),
            r matches Ok(observed) ==> clock::is_random_identifier(observed.result.request_id@),
    {
        self.compress_internal(&request, true)
    }

    /// Answers a request, with or without how the runtime came to the answer.
    fn compress_internal(&self, request: &CompressionRequest, observe_runtime: bool) -> (r: Result<
        ObservedCompression,
        CompressionError,
    >)
        ensures
            may_return(self, request, observe_runtime, observed_outcome(r)),
            r matches Ok(observed) ==> clock::is_random_identifier(observed.result.request_id@),
    {
        let started_at: Instant = Instant::now();
        if text::char_count(&text::trim(&request.input_text)) == 0 {
            return Err(CompressionError::EmptyInput);
        }
        let profile: &ProfileDefinition = match self.registry.resolve(&request.profile) {
            Ok(profile) => profile,
            Err(error) => {
                return Err(error);
            },
        };
        let request_id: String = clock::new_identifier();
        let answer: BackendAnswer = if request.compression_level.is_original() {
            Ok((original_prompt_draft(request, ORIGINAL_LEVEL_SUMMARY), None))
        } else if observe_runtime {
            match self.backend.compress_observed(request, profile) {
                Ok(observation) => Ok((observation.final_draft.clone(), Some(observation))),
                Err(error) => Err(error),
            }
        } else {
            match self.backend.compress(request, profile) {
                Ok(made) => Ok((made, None)),
                Err(error) => Err(error),
            }
        };
        let ghost answered = answer_view(answer);
        assert(may_answer(&self.backend(), request, profile, observe_runtime, answered));
        Ok(conclude(request, profile, answer, request_id, &started_at))
    }

    /// Lets the backend get ready for a request. At the level that leaves requests as they are
    /// there is nothing to get ready for.
    pub fn prepare(&self, request: CompressionRequest) -> (r: Result<bool, CompressionError>)
        ensures
            if request@.level == 0 {
                r == Ok::<bool, CompressionError>(false)
            } else if !self.registry().profiles().contains_key(request@.profile) {
                error::outcome(r) == Err::<bool, error::ErrorView>(
                    error::ErrorView::UnknownProfile(request@.profile),
                )
            } else {
                exists|profile: &ProfileDefinition|
                    profile@ == self.registry().profiles()[request@.profile] && #[trigger]
                    call_ensures(B::prepare, (&self.backend(), &request, profile), r)
            },
    {
        if request.compression_level.is_original() {
            return Ok(false);
        }
        match self.registry.resolve(&request.profile) {
            Ok(profile) => {
                let prepared: Result<bool, CompressionError> = self.backend.prepare(
                    &request,
                    profile,
                );
                assert(call_ensures(B::prepare, (&self.backend(), &request, profile), prepared));
                prepared
            },
            Err(error) => Err(error),
        }
    }

    /// The names of the profiles in order.
    pub fn list_profiles(&self) -> (r: Vec<String>)
        ensures
            contents::views(r@) == self.registry().ids(),
    {
        let listed: Vec<&ProfileDefinition> = self.registry.list();
        let mut names: Vec<String> = Vec::new();
        let ghost views = profile::listed_views(listed@);
        let mut i: usize = 0;
        while i < listed.len()
            invariant
                i <= listed@.len(),
                names@.len() == i,
                forall|j: int| 0 <= j < i ==> #[trigger] names@[j]@ == listed@[j].id@,
            decreases listed@.len() - i,
        {
            names.push(listed[i].id.clone());
            i = i + 1;
        }
        proof {
            let ids = views.map_values(|profile: profile::ProfileView| profile.id);
            assert(ids.len() == listed@.len());
            assert forall|j: int| 0 <= j < ids.len() implies contents::views(names@)[j]
                == ids[j] by {
                assert(names@[j]@ == listed@[j].id@);
                assert(views[j] == listed@[j]@);
            }
            assert(contents::views(names@) =~= ids);
        }
        names
    }

    /// Answers a request once for each of the profiles.
    pub fn compare_profiles(&self, base_request: CompressionRequest, profiles: &[String]) -> (r: Vec<
        Result<CompressionResult, CompressionError>,
    >)
        ensures
            r@.len() == profiles@.len(),
            forall|i: int|
                0 <= i < r@.len() ==> may_answer_for(
                    self,
                    base_request@,
                    profiles@[i]@,
                    #[trigger] r@[i],
                ),
    {
        let mut results: Vec<Result<CompressionResult, CompressionError>> = Vec::new();
        let mut i: usize = 0;
        while i < profiles.len()
            invariant
                i <= profiles@.len(),
                results@.len() == i,
                forall|j: int|
                    0 <= j < i ==> may_answer_for(
                        self,
                        base_request@,
                        profiles@[j]@,
                        #[trigger] results@[j],
                    ),
            decreases profiles@.len() - i,
        {
            let mut request: CompressionRequest = base_request.clone();
            request.profile = profiles[i].clone();
            assert(request@ == with_profile(base_request@, profiles@[i as int]@));
            let ghost asked = request;
            let result: Result<CompressionResult, CompressionError> = self.compress(request);
            proof {
                let observed = choose|observed: Result<ObservedView, error::ErrorView>| #[trigger]
                    may_return(self, &asked, false, observed) && result_of(result, observed);
                assert(may_return(self, &asked, false, observed));
                assert(may_answer_for(
                    self,
                    base_request@,
                    profiles@[i as int]@,
                    result,
                ));
            }
            results.push(result);
            i = i + 1;
        }
        results
    }
}

/// Where the original is to be sent, the answer is the request itself, up to white space at its
/// ends.
pub proof fn original_is_handed_back(
    request: types::RequestView,
    profile: profile::ProfileView,
    answer: AnswerView,
)
    requires
        spec_conclude(request, profile, answer).result.should_send_original,
    ensures
        text::spec_trim(spec_conclude(request, profile, answer).result.distilled_prompt)
            == text::spec_trim(request.input_text),
        spec_conclude(request, profile, answer).result.fallback_reason is Some,
        spec_conclude(request, profile, answer).result.risk_flags.len() > 0,
{
    text::trim_is_idempotent(request.input_text);
    let made = match answer {
        Ok((made, _)) => made,
        Err(_) => original_draft(request.input_text, RUNTIME_FAILURE_SUMMARY@),
    };
    verification::original_is_sent_where_something_is_missing(request, made.distilled_prompt);
}

/// A failure of the backend is never handed on: the request itself is the answer, marked as such
/// and with the reason.
pub proof fn backend_failure_is_answered_with_the_original(
    request: types::RequestView,
    profile: profile::ProfileView,
    error: error::ErrorView,
)
    ensures
        ({
            let observed = spec_conclude(request, profile, Err(error));
            &&& observed.result.distilled_prompt == text::spec_trim(request.input_text)
            &&& observed.result.should_send_original
            &&& observed.result.fallback_reason == Some(runtime_failure_reason(profile.id, error))
            &&& observed.result.risk_flags.last() == runtime_failure_risk()
            &&& observed.application_fallback_applied
        }),
{
    text::trim_is_idempotent(request.input_text);
}

/// An answer that is not the original is the draft of the backend, and every check that had
/// something to compare found it kept.
pub proof fn shorter_answers_are_verified(
    request: types::RequestView,
    profile: profile::ProfileView,
    answer: AnswerView,
)
    requires
        !spec_conclude(request, profile, answer).result.should_send_original,
    ensures
        answer matches Ok((made, _)) && spec_conclude(
            request,
            profile,
            answer,
        ).result.distilled_prompt == made.distilled_prompt && text::spec_trim(
            made.distilled_prompt,
        ).len() > 0 && forall|i: int|
            0 <= i < 5 ==> #[trigger] verification::check_statuses(
                request,
                made.distilled_prompt,
            )[i] != verification::CheckStatus::Missing,
{
    match answer {
        Ok((made, _)) => {
            verification::original_is_sent_where_something_is_missing(
                request,
                made.distilled_prompt,
            );
        },
        Err(_) => {},
    }
}

/// A draft that passes every check is the answer as it is, with what was left out and how it came
/// about, and without a risk or a reason for the original.
pub proof fn sound_drafts_are_the_answer(
    request: types::RequestView,
    profile: profile::ProfileView,
    made: draft::DraftView,
    observation: Option<draft::ObservationView>,
)
    requires
        text::spec_trim(made.distilled_prompt).len() > 0,
        forall|i: int|
            0 <= i < 5 ==> #[trigger] verification::check_statuses(
                request,
                made.distilled_prompt,
            )[i] != verification::CheckStatus::Missing,
    ensures
        ({
            let answer: AnswerView = Ok((made, observation));
            let observed = spec_conclude(request, profile, answer);
            &&& observed.result.distilled_prompt == made.distilled_prompt
            &&& observed.result.removed_content_summary == made.removed_content_summary
            &&& !observed.result.should_send_original
            &&& observed.result.fallback_reason is None
            &&& observed.result.risk_flags.len() == 0
            &&& observed.runtime_observation == observation
            &&& !observed.application_fallback_applied
        }),
{
    verification::original_is_sent_where_something_is_missing(request, made.distilled_prompt);
}

/// An answer names the profile, the model and the runtime, and measures the request and what it was
/// answered with.
pub proof fn answers_are_attributed_and_measured(
    request: types::RequestView,
    profile: profile::ProfileView,
    answer: AnswerView,
)
    ensures
        ({
            let result = spec_conclude(request, profile, answer).result;
            &&& result.profile == profile.id
            &&& result.model_id == profile.model_ref
            &&& result.runtime == profile.runtime_ref
            &&& result.input_characters == request.input_text.len()
            &&& result.output_characters == result.distilled_prompt.len()
            &&& result.input_tokens_est == token_estimator::tokens_from(request.input_text, 0)
            &&& result.output_tokens_est == token_estimator::tokens_from(
                result.distilled_prompt,
                0,
            )
        }),
{
    let result = spec_conclude(request, profile, answer).result;
    token_estimator::estimate_counts_the_tokens(request.input_text);
    token_estimator::estimate_counts_the_tokens(result.distilled_prompt);
}

/// Where a draft drops something that the request protects, the request itself is the answer. It is
/// marked as such, with a reason that tells what the checks said.
pub proof fn unsound_drafts_give_way(
    request: types::RequestView,
    profile: profile::ProfileView,
    made: draft::DraftView,
    observation: Option<draft::ObservationView>,
)
    requires
        verification::spec_verify(request, made.distilled_prompt).should_send_original,
        text::spec_trim(made.distilled_prompt).len() > 0,
        text::spec_trim(made.distilled_prompt) != text::spec_trim(request.input_text),
    ensures
        ({
            let answer: AnswerView = Ok((made, observation));
            let observed = spec_conclude(request, profile, answer);
            let said = verification::spec_verify(request, made.distilled_prompt).fallback_reason;
            &&& observed.result.distilled_prompt == text::spec_trim(request.input_text)
            &&& observed.result.should_send_original
            &&& observed.application_fallback_applied
            &&& said matches Some(said) && (observed.result.fallback_reason matches Some(reason)
                && text::spec_contains(reason, said))
        }),
{
    let summary = verification::spec_verify(request, made.distilled_prompt);
    verification::original_is_sent_where_something_is_missing(request, made.distilled_prompt);
    text::trim_is_idempotent(request.input_text);
    let said = summary.fallback_reason->Some_0;
    parts::parts_are_held(
        "原文返し理由: 圧縮結果の要件保持を確認できませんでした（"@,
        said,
        "）。原文を返しました。"@,
    );
}

/// The reason that is given for a failure of the backend tells the profile and the error.
pub proof fn failures_are_explained(profile_id: Seq<char>, error: error::ErrorView)
    ensures
        text::spec_contains(runtime_failure_reason(profile_id, error), profile_id),
        text::spec_contains(
            runtime_failure_reason(profile_id, error),
            error::spec_message(error),
        ),
{
    let start = "原文返し理由: 圧縮ランタイムが失敗しました（profile: '"@;
    let middle = "', error: "@;
    let end = "）。再推論せず原文を返しました。"@;
    let said = error::spec_message(error);
    parts::parts_are_held(start, profile_id, middle + said + end);
    assert(start + profile_id + (middle + said + end) =~= runtime_failure_reason(
        profile_id,
        error,
    ));
    parts::parts_are_held(start + profile_id + middle, said, end);
}

/// A request that is answered with a shorter prompt has each of its error literals in it, where
/// these are to be kept.
pub proof fn shorter_answers_keep_error_literals(
    request: types::RequestView,
    profile: profile::ProfileView,
    answer: AnswerView,
    value: Seq<char>,
)
    requires
        !spec_conclude(request, profile, answer).result.should_send_original,
        request.constraints.preserve_error_messages,
        literals::spec_extract_error_literals(
            corrections::spec_normalized_verification_input(request.input_text),
        ).contains(value),
    ensures
        text::spec_contains(
            spec_conclude(request, profile, answer).result.distilled_prompt,
            value,
        ),
{
    shorter_answers_are_verified(request, profile, answer);
    match answer {
        Ok((made, _)) => {
            verification::original_is_sent_where_something_is_missing(
                request,
                made.distilled_prompt,
            );
            verification::accepted_prompts_keep_protected_content(request, made.distilled_prompt);
        },
        Err(_) => {},
    }
}

/// A request for the original is answered with it: without the white space around it, unmarked by
/// any failure, and whatever the backend would say.
pub proof fn requests_for_the_original_get_it<B: RuntimeBackend>(
    service: &CompressionService<B>,
    request: &CompressionRequest,
    observe: bool,
    outcome: Result<ObservedView, error::ErrorView>,
)
    requires
        may_return(service, request, observe, outcome),
        request@.level == 0,
        text::spec_trim(request@.input_text).len() > 0,
        service.registry().profiles().contains_key(request@.profile),
    ensures
        outcome matches Ok(observed) && observed.result.distilled_prompt == text::spec_trim(
            request@.input_text,
        ) && observed.runtime_observation is None && observed.result.profile
            == service.registry().profiles()[request@.profile].id,
{
    text::trim_is_idempotent(request@.input_text);
}

/// A blank request is refused, and so is one for a profile that is not known. No other is.
pub proof fn refused_requests<B: RuntimeBackend>(
    service: &CompressionService<B>,
    request: &CompressionRequest,
    observe: bool,
    outcome: Result<ObservedView, error::ErrorView>,
)
    requires
        may_return(service, request, observe, outcome),
    ensures
        outcome is Err <==> (forall|i: int|
            0 <= i < request@.input_text.len() ==> text::spec_is_whitespace(
                #[trigger] request@.input_text[i],
            )) || !service.registry().profiles().contains_key(request@.profile),
{
    text::texts_with_more_than_white_space(request@.input_text);
}

} // verus!
