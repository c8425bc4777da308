//! Drafts of shorter prompts: how they are completed, checked and, where they fail, replaced.
use vstd::prelude::*;
use crate::contents;
use crate::error;
use crate::error::CompressionError;
use crate::parts;
use crate::runtime::constraints;
use crate::runtime::corrections;
use crate::runtime::matching;
use crate::runtime::polish;
use crate::runtime::restoration;
use crate::runtime::terms;
use crate::compression::numbers;
use crate::text;
use crate::types;
use crate::types::CompressionRequest;

verus! {

broadcast use crate::contents::group_contents;

/// A shorter prompt, and what was left out of it.
#[derive(Debug, PartialEq, Eq)]
pub struct CompressionDraft {
    pub distilled_prompt: String,
    pub removed_content_summary: Vec<String>,
}

/// Contents of a [`CompressionDraft`].
#[verifier::ext_equal]
pub struct DraftView {
    pub distilled_prompt: Seq<char>,
    pub removed_content_summary: Seq<Seq<char>>,
}

impl View for CompressionDraft {
    type V = DraftView;

    open spec fn view(&self) -> DraftView {
        DraftView {
            distilled_prompt: self.distilled_prompt@,
            removed_content_summary: contents::views(self.removed_content_summary@),
        }
    }
}

impl Clone for CompressionDraft {
    fn clone(&self) -> (r: Self)
        ensures
            r@ == self@,
    {
        CompressionDraft {
            distilled_prompt: self.distilled_prompt.clone(),
            removed_content_summary: text::copy_list(&self.removed_content_summary),
        }
    }
}

/// Whether two lists hold the same texts.
fn same_list(a: &Vec<String>, b: &Vec<String>) -> (r: bool)
    ensures
        r == (contents::views(a@) == contents::views(b@)),
{
    if a.len() != b.len() {
        assert(contents::views(a@).len() != contents::views(b@).len());
        return false;
    }
    let mut i: usize = 0;
    while i < a.len()
        invariant
            i <= a@.len(),
            a@.len() == b@.len(),
            forall|j: int| 0 <= j < i ==> #[trigger] a@[j]@ == b@[j]@,
        decreases a@.len() - i,
    {
        if !text::same(&a[i], &b[i]) {
            assert(contents::views(a@)[i as int] != contents::views(b@)[i as int]);
            return false;
        }
        i = i + 1;
    }
    assert(contents::views(a@) =~= contents::views(b@));
    true
}

impl CompressionDraft {
    /// Whether the drafts hold the same.
    pub fn same_as(&self, other: &CompressionDraft) -> (r: bool)
        ensures
            r == (self@ == other@),
    {
        text::same(&self.distilled_prompt, &other.distilled_prompt) && same_list(
            &self.removed_content_summary,
            &other.removed_content_summary,
        )
    }
}

/// What was done to the draft of a model.
#[derive(Debug, Clone, Copy, PartialEq, Eq, Structural)]
pub enum RuntimeTransformation {
    RestoredRequiredConstraints,
    RestoredRequiredTerms,
    PolishedModelOutput,
    RuntimeFallback,
}

/// The draft of a model, the one that came of it, and what was done in between.
#[derive(Debug, Clone)]
pub struct RuntimeCompressionObservation {
    pub raw_model_draft: Option<CompressionDraft>,
    pub final_draft: CompressionDraft,
    pub transformations: Vec<RuntimeTransformation>,
}

/// Contents of a [`RuntimeCompressionObservation`].
#[verifier::ext_equal]
pub struct ObservationView {
    pub raw_model_draft: Option<DraftView>,
    pub final_draft: DraftView,
    pub transformations: Seq<RuntimeTransformation>,
}

/// The contents of an optional draft.
pub open spec fn view_draft(draft: Option<CompressionDraft>) -> Option<DraftView> {
    match draft {
        Some(draft) => Some(draft@),
        None => None,
    }
}

/// The contents of an outcome that is a draft.
pub open spec fn draft_outcome(result: Result<CompressionDraft, CompressionError>) -> Result<
    DraftView,
    error::ErrorView,
> {
    match result {
        Ok(draft) => Ok(draft@),
        Err(error) => Err(error@),
    }
}

/// The contents of an outcome that is an observation.
pub open spec fn observation_outcome(
    result: Result<RuntimeCompressionObservation, CompressionError>,
) -> Result<ObservationView, error::ErrorView> {
    match result {
        Ok(observation) => Ok(observation@),
        Err(error) => Err(error@),
    }
}

impl View for RuntimeCompressionObservation {
    type V = ObservationView;

    open spec fn view(&self) -> ObservationView {
        ObservationView {
            raw_model_draft: view_draft(self.raw_model_draft),
            final_draft: self.final_draft@,
            transformations: self.transformations@,
        }
    }
}

/// A draft whose making was not observed.
pub open spec fn unobserved_view(draft: DraftView) -> ObservationView {
    ObservationView { raw_model_draft: None, final_draft: draft, transformations: Seq::empty() }
}

impl RuntimeCompressionObservation {
    /// A draft whose making was not observed.
    pub fn unobserved(final_draft: CompressionDraft) -> (r: Self)
        ensures
            r@ == unobserved_view(final_draft@),
    {
        RuntimeCompressionObservation {
            raw_model_draft: None,
            final_draft,
            transformations: Vec::new(),
        }
    }

    /// A draft that is taken as the model wrote it.
    pub fn raw_model(final_draft: CompressionDraft) -> (r: Self)
        ensures
            r@ == (ObservationView {
                raw_model_draft: Some(final_draft@),
                final_draft: final_draft@,
                transformations: Seq::empty(),
            }),
    {
        RuntimeCompressionObservation {
            raw_model_draft: Some(final_draft.clone()),
            final_draft,
            transformations: Vec::new(),
        }
    }

    /// A draft in place of one that the model did not finish.
    pub fn runtime_fallback(final_draft: CompressionDraft) -> (r: Self)
        ensures
            r@ == (ObservationView {
                raw_model_draft: None,
                final_draft: final_draft@,
                transformations: seq![RuntimeTransformation::RuntimeFallback],
            }),
    {
        let mut transformations: Vec<RuntimeTransformation> = Vec::new();
        transformations.push(RuntimeTransformation::RuntimeFallback);
        assert(transformations@ =~= seq![RuntimeTransformation::RuntimeFallback]);
        RuntimeCompressionObservation { raw_model_draft: None, final_draft, transformations }
    }
}

/// The draft with another prompt.
pub open spec fn with_prompt(draft: DraftView, prompt: Seq<char>) -> DraftView {
    DraftView { distilled_prompt: prompt, removed_content_summary: draft.removed_content_summary }
}

/// The draft with the required terms of the request put back.
pub open spec fn terms_restored(request: types::RequestView, draft: DraftView) -> DraftView {
    with_prompt(
        draft,
        restoration::spec_with_required_terms(request.input_text, draft.distilled_prompt),
    )
}

/// The draft with the constraints of the request put back.
pub open spec fn constraints_restored(request: types::RequestView, draft: DraftView) -> DraftView {
    with_prompt(
        draft,
        restoration::spec_with_required_constraints(
            request.input_text,
            request.constraints.preserve_negations,
            draft.distilled_prompt,
        ),
    )
}

/// The draft polished.
pub open spec fn polished(request: types::RequestView, draft: DraftView) -> DraftView {
    with_prompt(
        draft,
        polish::spec_with_polish(request.input_text, request.level as int, draft.distilled_prompt),
    )
}

/// Corrects misspelt required terms of the draft and puts missing ones back, as long as it stays
/// shorter than the request.
pub fn restore_missing_required_terms(request: &CompressionRequest, draft: &mut CompressionDraft)
    ensures
        final(draft)@ == terms_restored(request@, old(draft)@),
{
    draft.distilled_prompt =
    restoration::with_required_terms(&request.input_text, &draft.distilled_prompt);
}

/// Puts missing constraints of the request back into the draft, as long as it stays shorter than
/// the request.
pub fn restore_missing_required_constraints(
    request: &CompressionRequest,
    draft: &mut CompressionDraft,
)
    ensures
        final(draft)@ == constraints_restored(request@, old(draft)@),
{
    draft.distilled_prompt =
    restoration::with_required_constraints(
        &request.input_text,
        request.constraints.preserve_negations,
        &draft.distilled_prompt,
    );
}

/// Polishes the draft, or puts the verified short form of the request in its place.
pub fn polish_model_output_for_request(request: &CompressionRequest, draft: &mut CompressionDraft)
    ensures
        final(draft)@ == polished(request@, old(draft)@),
{
    let level: usize = request.compression_level.value() as usize;
    draft.distilled_prompt =
    polish::with_polish(&request.input_text, level, &draft.distilled_prompt);
}

/// The request is written in Japanese.
pub open spec fn spec_request_is_japanese(request: types::RequestView) -> bool {
    matching::spec_contains_japanese_text(request.input_text)
}

/// Whether the request is written in Japanese.
pub fn request_is_japanese(request: &CompressionRequest) -> (r: bool)
    ensures
        r == spec_request_is_japanese(request@),
{
    matching::contains_japanese_text(&request.input_text)
}

/// The language that the result is to be written in.
pub open spec fn spec_request_output_language(request: types::RequestView) -> Seq<char> {
    if text::spec_trim(request.input_text).len() == 0 || spec_request_is_japanese(request) {
        "日本語"@
    } else {
        "入力と同じ言語"@
    }
}

/// The language that the result is to be written in.
pub fn request_output_language(request: &CompressionRequest) -> (r: &'static str)
    ensures
        r@ == spec_request_output_language(request@),
{
    if text::char_count(&text::trim(&request.input_text)) == 0 || request_is_japanese(request) {
        "日本語"
    } else {
        "入力と同じ言語"
    }
}

/// The output keeps the negations of the request, as far as these are to be kept.
pub open spec fn spec_preserves_requested_negations(
    request: types::RequestView,
    output: Seq<char>,
) -> bool {
    polish::spec_keeps_requested_negations(
        request.input_text,
        request.constraints.preserve_negations,
        output,
    )
}

/// Whether the output keeps the negations of the request, as far as these are to be kept.
pub fn preserves_requested_negations(request: &CompressionRequest, output: &str) -> (r: bool)
    ensures
        r == spec_preserves_requested_negations(request@, output@),
{
    polish::keeps_requested_negations(
        &request.input_text,
        request.constraints.preserve_negations,
        output,
    )
}

/// Why a draft cannot be used, if it cannot.
pub open spec fn draft_fault(request: types::RequestView, draft: DraftView) -> Option<Seq<char>> {
    let output = text::spec_trim(draft.distilled_prompt);
    let input = corrections::spec_normalized_verification_input(request.input_text);
    let missing = matching::spec_absent_terms(terms::spec_required_technical_terms(input), output);
    if output.len() == 0 {
        Some("local runtime returned an empty distilled_prompt"@)
    } else if matching::spec_is_meta_task_restatement(output) {
        Some("local runtime described the request instead of producing a Codex task prompt"@)
    } else if spec_request_is_japanese(request) && !matching::spec_contains_japanese_text(output) {
        Some("local runtime did not return a Japanese distilled_prompt"@)
    } else if output.len() >= text::spec_trim(request.input_text).len() {
        Some("local runtime did not reduce the prompt"@)
    } else if missing.len() > 0 {
        Some(
            "local runtime omitted required technical terms: "@ + text::spec_join(missing, ", "@),
        )
    } else if request.constraints.preserve_numbers && !numbers::spec_preserves_requested_numbers(
        input,
        output,
    ) {
        Some("local runtime omitted a required number"@)
    } else if !spec_preserves_requested_negations(request, output) {
        Some("local runtime omitted a required prohibition or negative constraint"@)
    } else {
        None
    }
}

/// Checks that a draft is a shorter form of the request which keeps what the request requires.
pub fn validate_compression_draft(request: &CompressionRequest, draft: &CompressionDraft) -> (r:
    Result<(), CompressionError>)
    ensures
        match r {
            Ok(_) => draft_fault(request@, draft@) is None,
            Err(error) => draft_fault(request@, draft@) matches Some(reason) && error@
                == error::ErrorView::Runtime(reason),
        },
{
    let output: String = text::trim(&draft.distilled_prompt);
    if text::char_count(&output) == 0 {
        return Err(
            CompressionError::Runtime(
                "local runtime returned an empty distilled_prompt".to_owned(),
            ),
        );
    }
    if matching::is_meta_task_restatement(&output) {
        return Err(
            CompressionError::Runtime(
                "local runtime described the request instead of producing a Codex task prompt".to_owned(),
            ),
        );
    }
    if request_is_japanese(request) && !matching::contains_japanese_text(&output) {
        return Err(
            CompressionError::Runtime(
                "local runtime did not return a Japanese distilled_prompt".to_owned(),
            ),
        );
    }
    if text::char_count(&output) >= text::char_count(&text::trim(&request.input_text)) {
        return Err(
            CompressionError::Runtime("local runtime did not reduce the prompt".to_owned()),
        );
    }
    let validation_input: String = corrections::normalized_verification_input(&request.input_text);
    let missing: Vec<String> = matching::absent_terms(
        &terms::required_technical_terms(&validation_input),
        &output,
    );
    assert(contents::views(missing@).len() == missing@.len());
    if missing.len() > 0 {
        return Err(
            CompressionError::Runtime(
                text::concat2(
                    "local runtime omitted required technical terms: ",
                    &text::join(&missing, ", "),
                ),
            ),
        );
    }
    if request.constraints.preserve_numbers && !numbers::preserves_requested_numbers(
        &validation_input,
        &output,
    ) {
        return Err(
            CompressionError::Runtime("local runtime omitted a required number".to_owned()),
        );
    }
    if !preserves_requested_negations(request, &output) {
        return Err(
            CompressionError::Runtime(
                "local runtime omitted a required prohibition or negative constraint".to_owned(),
            ),
        );
    }
    Ok(())
}

/// What is said of a draft that no model wrote.
pub const PRECOMPACTED_SUMMARY: &'static str = "Local runtime returned unusable output; used verified preprocessed compact instruction.";

/// The draft made of the facts of the request alone, where it can be trusted.
pub open spec fn spec_trusted_precompacted_fallback_draft(
    request: types::RequestView,
) -> Option<DraftView> {
    match polish::spec_trusted_candidate(
        request.input_text,
        request.constraints.preserve_numbers,
    ) {
        Some(candidate) => Some(
            DraftView {
                distilled_prompt: candidate,
                removed_content_summary: seq![PRECOMPACTED_SUMMARY@],
            },
        ),
        None => None,
    }
}

/// The draft made of the facts of the request alone, where it can be trusted.
pub fn trusted_precompacted_fallback_draft(request: &CompressionRequest) -> (r: Option<
    CompressionDraft,
>)
    ensures
        view_draft(r) == spec_trusted_precompacted_fallback_draft(request@),
{
    match polish::trusted_candidate(&request.input_text, request.constraints.preserve_numbers) {
        Some(candidate) => {
            let mut summary: Vec<String> = Vec::new();
            summary.push(PRECOMPACTED_SUMMARY.to_owned());
            assert(contents::views(summary@) =~= seq![PRECOMPACTED_SUMMARY@]);
            Some(
                CompressionDraft { distilled_prompt: candidate, removed_content_summary: summary },
            )
        },
        None => None,
    }
}

/// The number of characters of an output that an error quotes.
pub const SNIPPET_CHARACTERS: usize = 240;

/// The start of an output, for errors to quote.
pub open spec fn spec_output_snippet(output: Seq<char>) -> Seq<char> {
    text::spec_take(output, SNIPPET_CHARACTERS as int)
}

/// The start of an output, for errors to quote.
pub fn output_snippet(output: &str) -> (r: String)
    ensures
        r@ == spec_output_snippet(output@),
{
    text::take(output, SNIPPET_CHARACTERS)
}

/// The draft where it can be used, else the trusted draft completed and polished, else the error.
pub open spec fn spec_validated_draft_or_fallback(
    request: types::RequestView,
    draft: DraftView,
) -> Result<DraftView, error::ErrorView> {
    match draft_fault(request, draft) {
        None => Ok(draft),
        Some(reason) => match spec_trusted_precompacted_fallback_draft(request) {
            Some(fallback) => Ok(
                polished(
                    request,
                    terms_restored(request, constraints_restored(request, fallback)),
                ),
            ),
            None => Err(
                error::ErrorView::Runtime(
                    error::spec_message(error::ErrorView::Runtime(reason))
                        + "; invalid draft starts with: "@ + spec_output_snippet(
                        draft.distilled_prompt,
                    ),
                ),
            ),
        },
    }
}

/// The draft where it can be used, else the trusted draft completed and polished, else the error.
pub fn validated_draft_or_fallback(request: &CompressionRequest, draft: CompressionDraft) -> (r:
    Result<CompressionDraft, CompressionError>)
    ensures
        draft_outcome(r) == spec_validated_draft_or_fallback(request@, draft@),
{
    match validate_compression_draft(request, &draft) {
        Ok(_) => Ok(draft),
        Err(error) => match trusted_precompacted_fallback_draft(request) {
            Some(mut fallback) => {
                restore_missing_required_constraints(request, &mut fallback);
                restore_missing_required_terms(request, &mut fallback);
                polish_model_output_for_request(request, &mut fallback);
                Ok(fallback)
            },
            None => Err(
                CompressionError::Runtime(
                    text::concat3(
                        &error.message(),
                        "; invalid draft starts with: ",
                        &output_snippet(&draft.distilled_prompt),
                    ),
                ),
            ),
        },
    }
}

/// The list with the step after it where the step changed the draft.
pub open spec fn noted(
    transformations: Seq<RuntimeTransformation>,
    step: RuntimeTransformation,
    before: DraftView,
    after: DraftView,
) -> Seq<RuntimeTransformation> {
    if after != before {
        transformations.push(step)
    } else {
        transformations
    }
}

/// Notes the step where it changed the draft.
fn note(
    transformations: &mut Vec<RuntimeTransformation>,
    step: RuntimeTransformation,
    before: &CompressionDraft,
    after: &CompressionDraft,
)
    ensures
        final(transformations)@ == noted(old(transformations)@, step, before@, after@),
{
    if !after.same_as(before) {
        transformations.push(step);
    }
}

/// What becomes of the draft of a model: constraints and terms are put back, it is polished and
/// checked, and each step that changes it is noted.
pub open spec fn spec_finalize_observed_model_draft(
    request: types::RequestView,
    raw: DraftView,
) -> Result<ObservationView, error::ErrorView> {
    let constrained = constraints_restored(request, raw);
    let termed = terms_restored(request, constrained);
    let smooth = polished(request, termed);
    match spec_validated_draft_or_fallback(request, smooth) {
        Err(error) => Err(error),
        Ok(last) => Ok(
            ObservationView {
                raw_model_draft: Some(raw),
                final_draft: last,
                transformations: noted(
                    noted(
                        noted(
                            noted(
                                Seq::empty(),
                                RuntimeTransformation::RestoredRequiredConstraints,
                                raw,
                                constrained,
                            ),
                            RuntimeTransformation::RestoredRequiredTerms,
                            constrained,
                            termed,
                        ),
                        RuntimeTransformation::PolishedModelOutput,
                        termed,
                        smooth,
                    ),
                    RuntimeTransformation::RuntimeFallback,
                    smooth,
                    last,
                ),
            },
        ),
    }
}

/// Completes, polishes and checks the draft of a model, and notes each step that changes it.
pub fn finalize_observed_model_draft(
    request: &CompressionRequest,
    raw_model_draft: CompressionDraft,
) -> (r: Result<RuntimeCompressionObservation, CompressionError>)
    ensures
        observation_outcome(r) == spec_finalize_observed_model_draft(request@, raw_model_draft@),
{
    let mut transformations: Vec<RuntimeTransformation> = Vec::new();
    let mut draft: CompressionDraft = raw_model_draft.clone();
    restore_missing_required_constraints(request, &mut draft);
    note(
        &mut transformations,
        RuntimeTransformation::RestoredRequiredConstraints,
        &raw_model_draft,
        &draft,
    );
    let constrained: CompressionDraft = draft.clone();
    restore_missing_required_terms(request, &mut draft);
    note(
        &mut transformations,
        RuntimeTransformation::RestoredRequiredTerms,
        &constrained,
        &draft,
    );
    let termed: CompressionDraft = draft.clone();
    polish_model_output_for_request(request, &mut draft);
    note(&mut transformations, RuntimeTransformation::PolishedModelOutput, &termed, &draft);
    let smooth: CompressionDraft = draft.clone();
    match validated_draft_or_fallback(request, draft) {
        Err(error) => Err(error),
        Ok(last) => {
            note(&mut transformations, RuntimeTransformation::RuntimeFallback, &smooth, &last);
            Ok(
                RuntimeCompressionObservation {
                    raw_model_draft: Some(raw_model_draft),
                    final_draft: last,
                    transformations,
                },
            )
        },
    }
}

/// A draft that is accepted is shorter than the request, and keeps its required terms, and its
/// numbers and negations as far as these are to be kept.
pub proof fn accepted_draft_keeps_requirements(request: types::RequestView, draft: DraftView)
    requires
        draft_fault(request, draft) is None,
    ensures
        0 < text::spec_trim(draft.distilled_prompt).len() < text::spec_trim(
            request.input_text,
        ).len(),
        matching::spec_absent_terms(
            terms::spec_required_technical_terms(
                corrections::spec_normalized_verification_input(request.input_text),
            ),
            text::spec_trim(draft.distilled_prompt),
        ).len() == 0,
        request.constraints.preserve_numbers ==> numbers::spec_preserves_requested_numbers(
            corrections::spec_normalized_verification_input(request.input_text),
            text::spec_trim(draft.distilled_prompt),
        ),
        spec_preserves_requested_negations(request, text::spec_trim(draft.distilled_prompt)),
{
}

/// A trusted draft is shorter than the request and keeps what the request requires.
pub proof fn trusted_draft_keeps_requirements(request: types::RequestView)
    ensures
        spec_trusted_precompacted_fallback_draft(request) matches Some(draft)
            ==> draft.distilled_prompt.len() < text::spec_trim(request.input_text).len()
            && polish::spec_structured_candidate_preserves_requirements(
            corrections::spec_normalized_verification_input(request.input_text),
            draft.distilled_prompt,
        ),
{
    reveal(polish::spec_trusted_candidate);
}

/// Polishing leaves a prompt as it is, or gives one that is shorter than the request or its
/// verified short form, and that keeps what the request requires.
pub proof fn polish_gives_verified_prompts(input_text: Seq<char>, level: int, prompt: Seq<char>)
    ensures
        ({
            let input = corrections::spec_normalized_verification_input(input_text);
            let result = polish::spec_with_polish(input_text, level, prompt);
            result == prompt || polish::spec_verified_structured_candidate(input) == Some(result)
                || (result.len() < text::spec_trim(input_text).len()
                && polish::spec_structured_candidate_preserves_requirements(input, result))
        }),
{
    reveal(polish::spec_with_polish);
}

/// What comes of the draft of a model keeps that draft, and is an accepted draft unless the
/// fallback took its place.
pub proof fn finished_draft_is_accepted_or_fallback(request: types::RequestView, raw: DraftView)
    ensures
        spec_finalize_observed_model_draft(request, raw) matches Ok(observation)
            ==> observation.raw_model_draft == Some(raw) && (draft_fault(
            request,
            observation.final_draft,
        ) is None || (spec_trusted_precompacted_fallback_draft(request) matches Some(fallback)
            && observation.final_draft == polished(
            request,
            terms_restored(request, constraints_restored(request, fallback)),
        ))),
{
}

/// A request whose facts give a trusted short form never fails for the draft of its model.
pub proof fn trusted_request_never_fails(request: types::RequestView, raw: DraftView)
    requires
        spec_trusted_precompacted_fallback_draft(request) is Some,
    ensures
        spec_finalize_observed_model_draft(request, raw) is Ok,
{
}

/// A draft is accepted exactly where it is not blank, does not describe the request, is in Japanese
/// if the request is, is shorter than the request, and keeps its required terms, and its numbers and
/// negations as far as these are to be kept.
pub proof fn drafts_are_accepted_for_what_they_keep(request: types::RequestView, draft: DraftView)
    ensures
        draft_fault(request, draft) is None <==> {
            let output = text::spec_trim(draft.distilled_prompt);
            let input = corrections::spec_normalized_verification_input(request.input_text);
            &&& output.len() > 0
            &&& !matching::speaks_of_the_request(output)
            &&& matching::spec_contains_japanese_text(request.input_text)
                ==> matching::spec_contains_japanese_text(output)
            &&& output.len() < text::spec_trim(request.input_text).len()
            &&& forall|k: int|
                0 <= k < terms::spec_required_technical_terms(input).len()
                    ==> matching::spec_contains_ascii_case_insensitive(
                    output,
                    #[trigger] terms::spec_required_technical_terms(input)[k],
                )
            &&& request.constraints.preserve_numbers ==> forall|k: int|
                0 <= k < numbers::spec_requested_numbers(input).len() ==> numbers::is_number_of(
                    output,
                    #[trigger] numbers::spec_requested_numbers(input)[k],
                )
            &&& request.constraints.preserve_negations ==> {
                &&& constraints::spec_preserves_constraint_clause_roles(input, output)
                &&& constraints::spec_preserves_targeted_change_constraints(input, output)
                &&& constraints::spec_preserves_negative_constraints(input, output)
            }
        },
{
    let output = text::spec_trim(draft.distilled_prompt);
    let input = corrections::spec_normalized_verification_input(request.input_text);
    let required = terms::spec_required_technical_terms(input);
    let missing = matching::spec_absent_terms(required, output);
    text::trim_is_idempotent(draft.distilled_prompt);
    matching::descriptions_speak_of_the_request(output);
    numbers::kept_numbers_stand_in_the_output(input, output);
    polish::kept_negations_are_of_every_kind(request.input_text, output);
    assert forall|k: int| 0 <= k < required.len() && missing.len() == 0 implies
        matching::spec_contains_ascii_case_insensitive(output, #[trigger] required[k]) by {
        assert(required.contains(required[k]));
        matching::absent_terms_are_not_held(required, output, required[k]);
        if missing.contains(required[k]) {
            let n = choose|n: int| 0 <= n < missing.len() && missing[n] == required[k];
        }
    }
    if missing.len() > 0 {
        assert(missing.contains(missing[0]));
        matching::absent_terms_are_not_held(required, output, missing[0]);
        let k = choose|k: int| 0 <= k < required.len() && required[k] == missing[0];
        assert(!matching::spec_contains_ascii_case_insensitive(output, required[k]));
    }
}

/// The reason for refusing a draft that keeps its language and length names each required term that
/// it lacks.
pub proof fn refusals_name_the_missing_terms(
    request: types::RequestView,
    draft: DraftView,
    term: Seq<char>,
)
    requires
        ({
            let output = text::spec_trim(draft.distilled_prompt);
            let input = corrections::spec_normalized_verification_input(request.input_text);
            &&& output.len() > 0
            &&& !matching::speaks_of_the_request(output)
            &&& matching::spec_contains_japanese_text(request.input_text)
                ==> matching::spec_contains_japanese_text(output)
            &&& output.len() < text::spec_trim(request.input_text).len()
            &&& terms::spec_required_technical_terms(input).contains(term)
            &&& !matching::spec_contains_ascii_case_insensitive(output, term)
        }),
    ensures
        draft_fault(request, draft) matches Some(reason) && text::spec_contains(reason, term),
{
    let output = text::spec_trim(draft.distilled_prompt);
    let input = corrections::spec_normalized_verification_input(request.input_text);
    let required = terms::spec_required_technical_terms(input);
    let missing = matching::spec_absent_terms(required, output);
    let heading = "local runtime omitted required technical terms: "@;
    let nothing = Seq::<char>::empty();
    text::trim_is_idempotent(draft.distilled_prompt);
    matching::descriptions_speak_of_the_request(output);
    matching::absent_terms_are_not_held(required, output, term);
    let n = choose|n: int| 0 <= n < missing.len() && missing[n] == term;
    parts::joined_texts_are_held(missing, ", "@, n);
    let listed = text::spec_join(missing, ", "@);
    parts::held_by_the_whole(heading, listed, nothing, term);
    assert(heading + listed + nothing =~= heading + listed);
}

/// Each step is noted exactly where it changed the draft.
pub proof fn steps_that_change_the_draft_are_noted(request: types::RequestView, raw: DraftView)
    ensures
        spec_finalize_observed_model_draft(request, raw) matches Ok(observation) ==> {
            let constrained = constraints_restored(request, raw);
            let termed = terms_restored(request, constrained);
            let smooth = polished(request, termed);
            let steps = observation.transformations;
            &&& steps.contains(RuntimeTransformation::RestoredRequiredConstraints) <==> constrained
                != raw
            &&& steps.contains(RuntimeTransformation::RestoredRequiredTerms) <==> termed
                != constrained
            &&& steps.contains(RuntimeTransformation::PolishedModelOutput) <==> smooth != termed
            &&& steps.contains(RuntimeTransformation::RuntimeFallback) <==> observation.final_draft
                != smooth
        },
{
    match spec_finalize_observed_model_draft(request, raw) {
        Ok(observation) => {
            let constrained = constraints_restored(request, raw);
            let termed = terms_restored(request, constrained);
            let smooth = polished(request, termed);
            let none = Seq::<RuntimeTransformation>::empty();
            let first = noted(
                none,
                RuntimeTransformation::RestoredRequiredConstraints,
                raw,
                constrained,
            );
            let second = noted(
                first,
                RuntimeTransformation::RestoredRequiredTerms,
                constrained,
                termed,
            );
            let third = noted(second, RuntimeTransformation::PolishedModelOutput, termed, smooth);
            noted_steps(
                none,
                RuntimeTransformation::RestoredRequiredConstraints,
                raw,
                constrained,
            );
            noted_steps(
                first,
                RuntimeTransformation::RestoredRequiredTerms,
                constrained,
                termed,
            );
            noted_steps(second, RuntimeTransformation::PolishedModelOutput, termed, smooth);
            noted_steps(
                third,
                RuntimeTransformation::RuntimeFallback,
                smooth,
                observation.final_draft,
            );
        },
        Err(_) => {},
    }
}

/// What is noted after a step is what was noted before, and the step where it changed the draft.
proof fn noted_steps(
    steps: Seq<RuntimeTransformation>,
    step: RuntimeTransformation,
    before: DraftView,
    after: DraftView,
)
    ensures
        forall|other: RuntimeTransformation| #[trigger]
            noted(steps, step, before, after).contains(other) <==> steps.contains(other) || (other
                == step && after != before),
{
    assert forall|other: RuntimeTransformation| #[trigger]
        noted(steps, step, before, after).contains(other) <==> steps.contains(other) || (other
            == step && after != before) by {
        parts::pushed_item(steps, step, other);
    }
}

/// A result is to be written in Japanese exactly where the request is Japanese or blank.
pub proof fn answers_are_in_the_language_of_the_request(request: types::RequestView)
    ensures
        spec_request_output_language(request) == "日本語"@ <==> text::spec_trim(
            request.input_text,
        ).len() == 0 || matching::spec_contains_japanese_text(request.input_text),
{
    reveal_strlit("日本語");
    reveal_strlit("入力と同じ言語");
    assert("日本語"@.len() != "入力と同じ言語"@.len());
}

/// A draft that can be used is the answer. One that cannot is replaced by the trusted draft where
/// there is one; else the error tells why, and quotes the first 240 characters of the draft.
pub proof fn unsound_drafts_are_replaced_or_refused(request: types::RequestView, made: DraftView)
    ensures
        draft_fault(request, made) is None ==> spec_validated_draft_or_fallback(request, made)
            == Ok::<DraftView, error::ErrorView>(made),
        draft_fault(request, made) is Some && spec_trusted_precompacted_fallback_draft(
            request,
        ) is Some ==> spec_validated_draft_or_fallback(request, made) is Ok,
        draft_fault(request, made) matches Some(reason)
            ==> spec_trusted_precompacted_fallback_draft(request) is None ==> (
        spec_validated_draft_or_fallback(request, made) matches Err(error::ErrorView::Runtime(said))
            && text::spec_contains(said, reason) && text::spec_ends_with(
            said,
            if made.distilled_prompt.len() <= 240 {
                made.distilled_prompt
            } else {
                made.distilled_prompt.take(240)
            },
        )),
{
    match draft_fault(request, made) {
        Some(reason) => {
            let start = "runtime error: "@;
            let middle = "; invalid draft starts with: "@;
            let quoted = spec_output_snippet(made.distilled_prompt);
            let said = start + reason + middle + quoted;
            parts::parts_are_held(start, reason, middle + quoted);
            assert(start + reason + (middle + quoted) =~= said);
            let size = said.len() as int;
            assert(said.subrange(size - quoted.len(), size) =~= quoted);
            assert(quoted =~= if made.distilled_prompt.len() <= 240 {
                made.distilled_prompt
            } else {
                made.distilled_prompt.take(240)
            });
        },
        None => {},
    }
}

/// The trusted draft is shorter than the request and keeps what the request requires.
pub proof fn trusted_drafts_keep_requirements(request: types::RequestView)
    ensures
        spec_trusted_precompacted_fallback_draft(request) matches Some(made) ==> {
            let input = corrections::spec_normalized_verification_input(request.input_text);
            &&& made.distilled_prompt.len() < text::spec_trim(request.input_text).len()
            &&& polish::spec_structured_candidate_preserves_requirements(
                input,
                made.distilled_prompt,
            )
            &&& made.removed_content_summary.len() == 1
        },
{
    reveal(polish::spec_trusted_candidate);
}

} // verus!
