//! What serves a request: a runtime that a program connects.
use vstd::prelude::*;
use crate::config::profile::ProfileDefinition;
use crate::contents;
use crate::error::CompressionError;
use crate::runtime::draft;
use crate::runtime::draft::{CompressionDraft, RuntimeCompressionObservation};
use crate::text;
use crate::types::CompressionRequest;

verus! {

broadcast use crate::contents::group_contents;

/// What is told of an answer of which nothing was observed: its draft alone, or its error.
pub open spec fn unobserved_answer(answer: Result<CompressionDraft, CompressionError>) -> Result<
    draft::ObservationView,
    crate::error::ErrorView,
> {
    match answer {
        Ok(made) => Ok(draft::unobserved_view(made@)),
        Err(error) => Err(error@),
    }
}

/// What is told of an answer of which nothing was observed.
pub fn observe_nothing(answer: Result<CompressionDraft, CompressionError>) -> (r: Result<
    RuntimeCompressionObservation,
    CompressionError,
>)
    ensures
        draft::observation_outcome(r) == unobserved_answer(answer),
{
    match answer {
        Ok(made) => Ok(RuntimeCompressionObservation::unobserved(made)),
        Err(error) => Err(error),
    }
}

/// A runtime that turns requests into drafts.
pub trait RuntimeBackend {
    /// Makes a draft for the request.
    fn compress(&self, request: &CompressionRequest, profile: &ProfileDefinition) -> (r: Result<
        CompressionDraft,
        CompressionError,
    >);

    /// Makes a draft for the request and tells how it came about. A runtime that does not say
    /// otherwise tells nothing.
    fn compress_observed(
        &self,
        request: &CompressionRequest,
        profile: &ProfileDefinition,
    ) -> (r: Result<RuntimeCompressionObservation, CompressionError>)
        default_ensures
            exists|answer: Result<CompressionDraft, CompressionError>| #[trigger]
                call_ensures(Self::compress, (self, request, profile), answer)
                    && draft::observation_outcome(r) == unobserved_answer(answer),
    {
        observe_nothing(self.compress(request, profile))
    }

    /// Gets ready for the request. Returns whether there was anything to do; a runtime that does
    /// not say otherwise does nothing.
    fn prepare(&self, _request: &CompressionRequest, _profile: &ProfileDefinition) -> (r: Result<
        bool,
        CompressionError,
    >)
        default_ensures
            r == Ok::<bool, CompressionError>(false),
    {
        Ok(false)
    }
}

/// A runtime that hands every request back.
#[derive(Debug, Clone, Copy)]
pub struct NoopRuntimeBackend;

impl Default for NoopRuntimeBackend {
    fn default() -> (r: Self) {
        NoopRuntimeBackend
    }
}

/// The draft of a runtime that hands requests back.
pub open spec fn passthrough_draft(input_text: Seq<char>, profile_id: Seq<char>) -> draft::DraftView {
    draft::DraftView {
        distilled_prompt: text::spec_trim(input_text),
        removed_content_summary: seq![
            "No runtime backend is connected yet; returning passthrough output for profile '"@
                + profile_id + "'."@,
        ],
    }
}

impl RuntimeBackend for NoopRuntimeBackend {
    fn compress(&self, request: &CompressionRequest, profile: &ProfileDefinition) -> (r: Result<
        CompressionDraft,
        CompressionError,
    >)
        ensures
            r matches Ok(made) && made@ == passthrough_draft(request@.input_text, profile@.id),
    {
        let mut summary: Vec<String> = Vec::new();
        summary.push(
            text::concat3(
                "No runtime backend is connected yet; returning passthrough output for profile '",
                &profile.id,
                "'.",
            ),
        );
        assert(contents::views(summary@)
            =~= passthrough_draft(request@.input_text, profile@.id).removed_content_summary);
        Ok(
            CompressionDraft {
                distilled_prompt: text::trim(&request.input_text),
                removed_content_summary: summary,
            },
        )
    }
}

/// Of an answer of which nothing was observed the draft is told, and neither what a model wrote nor
/// any change to it; an error is told as it is.
pub proof fn unobserved_answers_tell_the_draft_alone(
    answer: Result<CompressionDraft, CompressionError>,
)
    ensures
        match answer {
            Ok(made) => unobserved_answer(answer) == Ok::<
                draft::ObservationView,
                crate::error::ErrorView,
            >(
                draft::ObservationView {
                    raw_model_draft: None,
                    final_draft: made@,
                    transformations: Seq::empty(),
                },
            ),
            Err(error) => unobserved_answer(answer) == Err::<
                draft::ObservationView,
                crate::error::ErrorView,
            >(error@),
        },
{
}

/// A runtime that hands every request back, and does not say how it answers, tells the draft alone.
pub proof fn passthrough_is_not_observed(
    backend: &NoopRuntimeBackend,
    request: &CompressionRequest,
    profile: &ProfileDefinition,
    outcome: Result<RuntimeCompressionObservation, CompressionError>,
)
    requires
        call_ensures(NoopRuntimeBackend::compress_observed, (backend, request, profile), outcome),
    ensures
        draft::observation_outcome(outcome) == Ok::<draft::ObservationView, crate::error::ErrorView>(
            draft::unobserved_view(passthrough_draft(request@.input_text, profile@.id)),
        ),
{
}

} // verus!
