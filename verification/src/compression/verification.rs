//! Whether a shorter prompt keeps what the request protects.
use vstd::prelude::*;
use crate::compression::literals;
use crate::compression::numbers;
use crate::contents;
use crate::parts;
use crate::runtime::constraints;
use crate::runtime::corrections;
use crate::runtime::draft;
use crate::runtime::polish;
use crate::text;
use crate::types;
use crate::types::{CompressionRequest, PreservedRequirement, RiskFlag, RiskSeverity};

verus! {

broadcast use crate::contents::group_contents;

/// What was found of a shorter prompt.
#[derive(Debug, Clone)]
pub struct VerificationSummary {
    pub preserved_requirements: Vec<PreservedRequirement>,
    pub risk_flags: Vec<RiskFlag>,
    pub should_send_original: bool,
    pub fallback_reason: Option<String>,
}

/// Contents of a [`VerificationSummary`].
#[verifier::ext_equal]
pub struct SummaryView {
    pub preserved_requirements: Seq<(Seq<char>, Seq<char>)>,
    pub risk_flags: Seq<(Seq<char>, RiskSeverity, Seq<char>)>,
    pub should_send_original: bool,
    pub fallback_reason: Option<Seq<char>>,
}

impl View for VerificationSummary {
    type V = SummaryView;

    open spec fn view(&self) -> SummaryView {
        SummaryView {
            preserved_requirements: types::requirement_views(self.preserved_requirements@),
            risk_flags: types::risk_views(self.risk_flags@),
            should_send_original: self.should_send_original,
            fallback_reason: contents::view_option(self.fallback_reason),
        }
    }
}

/// What a check found.
#[derive(Debug, Clone, Copy, PartialEq, Eq, Structural)]
pub enum CheckStatus {
    NotApplicable,
    Preserved,
    Missing,
}

/// What a check finds: nothing to check, or whether what there is was kept.
pub open spec fn status_of(applicable: bool, kept: bool) -> CheckStatus {
    if !applicable {
        CheckStatus::NotApplicable
    } else if kept {
        CheckStatus::Preserved
    } else {
        CheckStatus::Missing
    }
}

/// Whether every value of the input is among those of the output.
pub fn check_exact_values(enabled: bool, input: &Vec<String>, output: &Vec<String>) -> (r:
    CheckStatus)
    ensures
        r == status_of(
            enabled && input@.len() > 0,
            numbers::spec_all_in_list(contents::views(input@), contents::views(output@)),
        ),
{
    if !enabled || input.len() == 0 {
        CheckStatus::NotApplicable
    } else if numbers::all_in_list(input, output) {
        CheckStatus::Preserved
    } else {
        CheckStatus::Missing
    }
}

/// Whether every value of the input is among those of the output, up to the case of ASCII letters.
pub fn check_case_insensitive_values(enabled: bool, input: &Vec<String>, output: &Vec<String>) -> (r:
    CheckStatus)
    ensures
        r == status_of(
            enabled && input@.len() > 0,
            literals::spec_all_in_list_ignoring_case(
                contents::views(input@),
                contents::views(output@),
            ),
        ),
{
    if !enabled || input.len() == 0 {
        CheckStatus::NotApplicable
    } else if literals::all_in_list_ignoring_case(input, output) {
        CheckStatus::Preserved
    } else {
        CheckStatus::Missing
    }
}

/// Whether the output holds every value of the input.
pub fn check_values_in_text(enabled: bool, input: &Vec<String>, output: &str) -> (r: CheckStatus)
    ensures
        r == status_of(
            enabled && input@.len() > 0,
            literals::spec_all_in_text(contents::views(input@), output@),
        ),
{
    if !enabled || input.len() == 0 {
        CheckStatus::NotApplicable
    } else if literals::all_in_text(input, output) {
        CheckStatus::Preserved
    } else {
        CheckStatus::Missing
    }
}

/// Whether the output keeps the negations of the request.
pub fn check_negations(request: &CompressionRequest, output: &str) -> (r: CheckStatus)
    ensures
        r == status_of(
            request@.constraints.preserve_negations && literals::spec_contains_constraint_marker(
                request@.input_text,
            ),
            draft::spec_preserves_requested_negations(request@, output@),
        ),
{
    if !request.constraints.preserve_negations || !literals::contains_constraint_marker(
        &request.input_text,
    ) {
        CheckStatus::NotApplicable
    } else if draft::preserves_requested_negations(request, output) {
        CheckStatus::Preserved
    } else {
        CheckStatus::Missing
    }
}

/// The names of the checks, in the order in which they are made.
pub const CHECK_NAMES: [&'static str; 5] = [
    "preserve_code_blocks",
    "preserve_file_names",
    "preserve_error_messages",
    "preserve_numbers",
    "preserve_negations",
];

/// What the checks find of an output, in the order of their names.
pub open spec fn check_statuses(request: types::RequestView, output: Seq<char>) -> Seq<
    CheckStatus,
> {
    let input = corrections::spec_normalized_verification_input(request.input_text);
    let blocks = literals::spec_extract_fenced_code_blocks(input);
    let files = literals::spec_extract_file_names(input);
    let errors = literals::spec_extract_error_literals(input);
    let values = numbers::spec_extract_numbers(input);
    seq![
        status_of(
            request.constraints.preserve_code_blocks && blocks.len() > 0,
            numbers::spec_all_in_list(blocks, literals::spec_extract_fenced_code_blocks(output)),
        ),
        status_of(
            request.constraints.preserve_file_names && files.len() > 0,
            literals::spec_all_in_list_ignoring_case(
                files,
                literals::spec_extract_file_names(output),
            ),
        ),
        status_of(
            request.constraints.preserve_error_messages && errors.len() > 0,
            literals::spec_all_in_text(errors, output),
        ),
        status_of(
            request.constraints.preserve_numbers && values.len() > 0,
            numbers::spec_all_in_list(values, numbers::spec_extract_all_numbers(output)),
        ),
        status_of(
            request.constraints.preserve_negations && literals::spec_contains_constraint_marker(
                request.input_text,
            ),
            draft::spec_preserves_requested_negations(request, output),
        ),
    ]
}

/// Makes the checks.
pub fn run_checks(request: &CompressionRequest, output: &str) -> (r: Vec<CheckStatus>)
    ensures
        r@ == check_statuses(request@, output@),
{
    let input: String = corrections::normalized_verification_input(&request.input_text);
    let mut statuses: Vec<CheckStatus> = Vec::new();
    statuses.push(
        check_exact_values(
            request.constraints.preserve_code_blocks,
            &literals::extract_fenced_code_blocks(&input),
            &literals::extract_fenced_code_blocks(output),
        ),
    );
    statuses.push(
        check_case_insensitive_values(
            request.constraints.preserve_file_names,
            &literals::extract_file_names(&input),
            &literals::extract_file_names(output),
        ),
    );
    statuses.push(
        check_values_in_text(
            request.constraints.preserve_error_messages,
            &literals::extract_error_literals(&input),
            output,
        ),
    );
    statuses.push(
        check_exact_values(
            request.constraints.preserve_numbers,
            &numbers::extract_numbers(&input),
            &numbers::extract_all_numbers(output),
        ),
    );
    statuses.push(check_negations(request, output));
    assert(statuses@ =~= check_statuses(request@, output@));
    statuses
}

/// The names of the first checks that found the status.
pub open spec fn names_with(statuses: Seq<CheckStatus>, status: CheckStatus, n: int) -> Seq<
    Seq<char>,
>
    decreases n,
{
    if n <= 0 {
        Seq::empty()
    } else {
        let before = names_with(statuses, status, n - 1);
        if statuses[n - 1] == status {
            before.push(CHECK_NAMES@[n - 1]@)
        } else {
            before
        }
    }
}

/// The names of the checks that found the status.
fn check_names_with(statuses: &Vec<CheckStatus>, status: CheckStatus) -> (r: Vec<String>)
    requires
        statuses@.len() == 5,
    ensures
        contents::views(r@) == names_with(statuses@, status, 5),
{
    let mut names: Vec<String> = Vec::new();
    let mut i: usize = 0;
    while i < 5
        invariant
            i <= 5,
            statuses@.len() == 5,
            contents::views(names@) == names_with(statuses@, status, i as int),
        decreases 5 - i,
    {
        if statuses[i] == status {
            names.push(CHECK_NAMES[i].to_owned());
        }
        i = i + 1;
    }
    names
}

/// The requirements with the names.
pub open spec fn requirements_named(names: Seq<Seq<char>>) -> Seq<(Seq<char>, Seq<char>)> {
    names.map_values(|name: Seq<char>| ("constraint"@, name))
}

/// The requirements with the names.
fn named_requirements(names: &Vec<String>) -> (r: Vec<PreservedRequirement>)
    ensures
        types::requirement_views(r@) == requirements_named(contents::views(names@)),
{
    let mut requirements: Vec<PreservedRequirement> = Vec::new();
    let mut i: usize = 0;
    while i < names.len()
        invariant
            i <= names@.len(),
            requirements@.len() == i,
            forall|j: int|
                0 <= j < i ==> #[trigger] requirements@[j].kind@ == "constraint"@
                    && requirements@[j].text@ == names@[j]@,
        decreases names@.len() - i,
    {
        requirements.push(
            PreservedRequirement { kind: "constraint".to_owned(), text: names[i].clone() },
        );
        i = i + 1;
    }
    assert(types::requirement_views(requirements@) =~= requirements_named(
        contents::views(names@),
    ));
    requirements
}

/// What is said of an output without contents.
pub open spec fn empty_output_summary() -> SummaryView {
    SummaryView {
        preserved_requirements: Seq::empty(),
        risk_flags: seq![
            (
                "EMPTY_OUTPUT"@,
                RiskSeverity::High,
                "Compression produced an empty output; sending the original is safer."@,
            ),
        ],
        should_send_original: true,
        fallback_reason: Some("empty_distilled_prompt"@),
    }
}

/// What is said of an output, by what the checks found.
pub open spec fn summary_of(statuses: Seq<CheckStatus>) -> SummaryView {
    let preserved = requirements_named(names_with(statuses, CheckStatus::Preserved, 5));
    let missing = names_with(statuses, CheckStatus::Missing, 5);
    if missing.len() == 0 {
        SummaryView {
            preserved_requirements: preserved,
            risk_flags: Seq::empty(),
            should_send_original: false,
            fallback_reason: None,
        }
    } else {
        SummaryView {
            preserved_requirements: preserved,
            risk_flags: seq![
                (
                    "VERIFICATION_FAILED"@,
                    RiskSeverity::High,
                    "Compression omitted protected content for: "@ + text::spec_join(missing, ", "@)
                        + ". Sending the original is safer."@,
                ),
            ],
            should_send_original: true,
            fallback_reason: Some("verification_failed: "@ + text::spec_join(missing, ", "@)),
        }
    }
}

/// What is said of an output.
pub open spec fn spec_verify(request: types::RequestView, output: Seq<char>) -> SummaryView {
    if text::spec_trim(output).len() == 0 {
        empty_output_summary()
    } else {
        summary_of(check_statuses(request, output))
    }
}

/// A list of one risk.
fn single_risk(code: &str, message: String) -> (r: Vec<RiskFlag>)
    ensures
        types::risk_views(r@) == seq![(code@, RiskSeverity::High, message@)],
{
    let mut flags: Vec<RiskFlag> = Vec::new();
    flags.push(RiskFlag { code: code.to_owned(), severity: RiskSeverity::High, message });
    assert(types::risk_views(flags@) =~= seq![(code@, RiskSeverity::High, message@)]);
    flags
}

/// Compares what a request protects with what a shorter prompt holds.
#[derive(Debug, Clone, Copy)]
pub struct SimpleVerifier;

impl Default for SimpleVerifier {
    fn default() -> (r: Self) {
        SimpleVerifier
    }
}

impl SimpleVerifier {
    /// What is to be said of a shorter prompt. A check that has nothing to compare is not reported.
    pub fn verify(&self, request: &CompressionRequest, distilled_prompt: &str) -> (r:
        VerificationSummary)
        ensures
            r@ == spec_verify(request@, distilled_prompt@),
    {
        if text::char_count(&text::trim(distilled_prompt)) == 0 {
            let none: Vec<PreservedRequirement> = Vec::new();
            assert(types::requirement_views(none@) =~= Seq::empty());
            return VerificationSummary {
                preserved_requirements: none,
                risk_flags: single_risk(
                    "EMPTY_OUTPUT",
                    "Compression produced an empty output; sending the original is safer.".to_owned(),
                ),
                should_send_original: true,
                fallback_reason: Some("empty_distilled_prompt".to_owned()),
            };
        }
        let statuses: Vec<CheckStatus> = run_checks(request, distilled_prompt);
        let preserved: Vec<PreservedRequirement> = named_requirements(
            &check_names_with(&statuses, CheckStatus::Preserved),
        );
        let missing: Vec<String> = check_names_with(&statuses, CheckStatus::Missing);
        assert(contents::views(missing@).len() == missing@.len());
        if missing.len() == 0 {
            let none: Vec<RiskFlag> = Vec::new();
            assert(types::risk_views(none@) =~= Seq::empty());
            return VerificationSummary {
                preserved_requirements: preserved,
                risk_flags: none,
                should_send_original: false,
                fallback_reason: None,
            };
        }
        let listed: String = text::join(&missing, ", ");
        VerificationSummary {
            preserved_requirements: preserved,
            risk_flags: single_risk(
                "VERIFICATION_FAILED",
                text::concat3(
                    "Compression omitted protected content for: ",
                    &listed,
                    ". Sending the original is safer.",
                ),
            ),
            should_send_original: true,
            fallback_reason: Some(text::concat2("verification_failed: ", &listed)),
        }
    }
}

/// A name is listed exactly where one of the first checks found the status.
proof fn names_with_lists(statuses: Seq<CheckStatus>, status: CheckStatus, n: int)
    requires
        0 <= n <= 5,
    ensures
        names_with(statuses, status, n).len() <= n,
        forall|name: Seq<char>|
            #![trigger names_with(statuses, status, n).contains(name)]
            names_with(statuses, status, n).contains(name) <==> exists|i: int|
                0 <= i < n && statuses[i] == status && #[trigger] CHECK_NAMES@[i]@ == name,
    decreases n,
{
    if n > 0 {
        names_with_lists(statuses, status, n - 1);
        let before = names_with(statuses, status, n - 1);
        let after = names_with(statuses, status, n);
        assert forall|name: Seq<char>| after.contains(name) <==> exists|i: int|
            0 <= i < n && statuses[i] == status && #[trigger] CHECK_NAMES@[i]@ == name by {
            if after.contains(name) {
                let k = after.index_of(name);
                if k < before.len() {
                    assert(before[k] == name);
                    assert(before.contains(name));
                } else {
                    assert(CHECK_NAMES@[n - 1]@ == name);
                }
            }
            if exists|i: int|
                0 <= i < n && statuses[i] == status && #[trigger] CHECK_NAMES@[i]@ == name {
                let i = choose|i: int|
                    0 <= i < n && statuses[i] == status && #[trigger] CHECK_NAMES@[i]@ == name;
                if i < n - 1 {
                    assert(before.contains(name));
                    assert(after[before.index_of(name)] == name);
                } else {
                    assert(after[n - 1 - (n - 1 - before.len())] == name);
                }
            }
        }
    } else {
        assert forall|name: Seq<char>| !names_with(statuses, status, n).contains(name) by {}
    }
}

/// The original is sent exactly where the output is blank or some check finds a requirement
/// missing. A reason is given, and a risk flagged, exactly then.
pub proof fn original_is_sent_where_something_is_missing(
    request: types::RequestView,
    output: Seq<char>,
)
    ensures
        ({
            let summary = spec_verify(request, output);
            let statuses = check_statuses(request, output);
            &&& summary.should_send_original <==> (text::spec_trim(output).len() == 0 || exists|
                i: int,
            |
                0 <= i < 5 && #[trigger] statuses[i] == CheckStatus::Missing)
            &&& summary.should_send_original <==> summary.fallback_reason is Some
            &&& summary.should_send_original <==> summary.risk_flags.len() == 1
            &&& !summary.should_send_original <==> summary.risk_flags.len() == 0
        }),
{
    let statuses = check_statuses(request, output);
    let missing = names_with(statuses, CheckStatus::Missing, 5);
    names_with_lists(statuses, CheckStatus::Missing, 5);
    if missing.len() > 0 {
        assert(missing.contains(missing[0]));
    }
    if exists|i: int| 0 <= i < 5 && #[trigger] statuses[i] == CheckStatus::Missing {
        let i = choose|i: int| 0 <= i < 5 && #[trigger] statuses[i] == CheckStatus::Missing;
        assert(missing.contains(CHECK_NAMES@[i]@));
    }
}

/// A requirement is reported as preserved only where its check compared something and found all
/// of it.
pub proof fn reported_requirements_are_preserved(
    request: types::RequestView,
    output: Seq<char>,
    name: Seq<char>,
)
    requires
        spec_verify(request, output).preserved_requirements.contains(("constraint"@, name)),
    ensures
        exists|i: int|
            0 <= i < 5 && check_statuses(request, output)[i] == CheckStatus::Preserved
                && #[trigger] CHECK_NAMES@[i]@ == name,
{
    let statuses = check_statuses(request, output);
    let names = names_with(statuses, CheckStatus::Preserved, 5);
    names_with_lists(statuses, CheckStatus::Preserved, 5);
    let listed = spec_verify(request, output).preserved_requirements;
    let k = listed.index_of(("constraint"@, name));
    if text::spec_trim(output).len() == 0 {
        assert(listed.len() == 0);
    } else {
        assert(listed[k] == ("constraint"@, names[k]));
        assert(names.contains(name));
    }
}

/// A prompt that is sent in place of the original keeps all that the request protects: its blocks
/// of code, names of files, error literals, numbers and negations, as far as each is to be kept.
pub proof fn accepted_prompts_keep_protected_content(request: types::RequestView, output: Seq<char>)
    requires
        !spec_verify(request, output).should_send_original,
    ensures
        text::spec_trim(output).len() > 0,
        request.constraints.preserve_code_blocks ==> forall|block: Seq<char>|
            #[trigger] literals::spec_extract_fenced_code_blocks(
                corrections::spec_normalized_verification_input(request.input_text),
            ).contains(block) ==> literals::spec_extract_fenced_code_blocks(output).contains(block),
        request.constraints.preserve_file_names ==> forall|name: Seq<char>|
            #[trigger] literals::spec_extract_file_names(
                corrections::spec_normalized_verification_input(request.input_text),
            ).contains(name) ==> text::spec_list_has_ignoring_case(
                literals::spec_extract_file_names(output),
                name,
            ),
        request.constraints.preserve_error_messages ==> forall|value: Seq<char>|
            #[trigger] literals::spec_extract_error_literals(
                corrections::spec_normalized_verification_input(request.input_text),
            ).contains(value) ==> text::spec_contains(output, value),
        request.constraints.preserve_numbers ==> forall|number: Seq<char>|
            #[trigger] numbers::spec_extract_numbers(
                corrections::spec_normalized_verification_input(request.input_text),
            ).contains(number) ==> numbers::is_number_of(output, number),
        request.constraints.preserve_negations && literals::speaks_of_constraint(
            request.input_text,
        ) ==> draft::spec_preserves_requested_negations(request, output),
{
    let input = corrections::spec_normalized_verification_input(request.input_text);
    let statuses = check_statuses(request, output);
    original_is_sent_where_something_is_missing(request, output);
    literals::constraint_words_state_constraints(request.input_text);
    assert(statuses[0] != CheckStatus::Missing);
    assert(statuses[1] != CheckStatus::Missing);
    assert(statuses[2] != CheckStatus::Missing);
    assert(statuses[3] != CheckStatus::Missing);
    assert(statuses[4] != CheckStatus::Missing);
    let blocks = literals::spec_extract_fenced_code_blocks(input);
    let files = literals::spec_extract_file_names(input);
    let errors = literals::spec_extract_error_literals(input);
    let values = numbers::spec_extract_numbers(input);
    if request.constraints.preserve_code_blocks {
        assert forall|block: Seq<char>| #[trigger] blocks.contains(block) implies
            literals::spec_extract_fenced_code_blocks(output).contains(block) by {
            let k = choose|k: int| 0 <= k < blocks.len() && blocks[k] == block;
            assert(blocks[k] == block);
        }
    }
    if request.constraints.preserve_file_names {
        assert forall|name: Seq<char>| #[trigger] files.contains(name) implies
            text::spec_list_has_ignoring_case(
            literals::spec_extract_file_names(output),
            name,
        ) by {
            let k = choose|k: int| 0 <= k < files.len() && files[k] == name;
            assert(files[k] == name);
        }
    }
    if request.constraints.preserve_error_messages {
        assert forall|value: Seq<char>| #[trigger] errors.contains(value) implies
            text::spec_contains(output, value) by {
            let k = choose|k: int| 0 <= k < errors.len() && errors[k] == value;
            assert(errors[k] == value);
        }
    }
    if request.constraints.preserve_numbers {
        assert forall|number: Seq<char>| #[trigger] values.contains(number) implies
            numbers::is_number_of(output, number) by {
            let k = choose|k: int| 0 <= k < values.len() && values[k] == number;
            assert(values[k] == number);
            assert(numbers::spec_extract_all_numbers(output).contains(number));
            numbers::extracted_numbers_are_those_of_the_text(output, number);
        }
    }
}

/// A request that speaks of a constraint, in whatever case of ASCII letters, has its negations
/// checked, and the original is sent where they are dropped.
pub proof fn stated_constraints_are_checked(request: types::RequestView, output: Seq<char>)
    requires
        request.constraints.preserve_negations,
        literals::speaks_of_constraint(request.input_text),
    ensures
        check_statuses(request, output)[4] != CheckStatus::NotApplicable,
        !draft::spec_preserves_requested_negations(request, output) ==> spec_verify(
            request,
            output,
        ).should_send_original,
{
    literals::constraint_words_state_constraints(request.input_text);
    original_is_sent_where_something_is_missing(request, output);
    if !draft::spec_preserves_requested_negations(request, output) {
        assert(check_statuses(request, output)[4] == CheckStatus::Missing);
    }
}

/// A sentence of the request that speaks of an error protects what stands in it between 「 and 」, or
/// between 『 and 』: the original is sent in place of a prompt that lacks it.
pub proof fn dropped_errors_send_the_original(
    request: types::RequestView,
    output: Seq<char>,
    k: int,
    before: Seq<char>,
    open: char,
    inner: Seq<char>,
    close: char,
    after: Seq<char>,
)
    requires
        request.constraints.preserve_error_messages,
        ({
            let input = corrections::spec_normalized_verification_input(request.input_text);
            let clauses = text::spec_split_any(input, "。！？\n;"@);
            &&& 0 <= k < clauses.len()
            &&& clauses[k] == before + seq![open] + inner + seq![close] + after
            &&& literals::speaks_of_error(clauses[k])
        }),
        (open == '「' && close == '」') || (open == '『' && close == '』'),
        literals::is_closed_up(before, open, close),
        text::lacks(inner, close),
        text::spec_trim(inner).len() > 0,
        !text::spec_contains(output, text::spec_trim(inner)),
    ensures
        spec_verify(request, output).should_send_original,
{
    let input = corrections::spec_normalized_verification_input(request.input_text);
    literals::quoted_errors_are_literals(input, k, before, open, inner, close, after);
    if !spec_verify(request, output).should_send_original {
        accepted_prompts_keep_protected_content(request, output);
    }
}

/// The checks have names, which tell what each is for.
proof fn checks_have_names()
    ensures
        CHECK_NAMES@[0]@ == "preserve_code_blocks"@,
        CHECK_NAMES@[1]@ == "preserve_file_names"@,
        CHECK_NAMES@[2]@ == "preserve_error_messages"@,
        CHECK_NAMES@[3]@ == "preserve_numbers"@,
        CHECK_NAMES@[4]@ == "preserve_negations"@,
{
}

/// A name that is listed stands in the reason.
proof fn listed_names_stand_in_the_reason(
    request: types::RequestView,
    output: Seq<char>,
    i: int,
)
    requires
        text::spec_trim(output).len() > 0,
        0 <= i < 5,
        check_statuses(request, output)[i] == CheckStatus::Missing,
    ensures
        spec_verify(request, output).fallback_reason matches Some(reason) && text::spec_contains(
            reason,
            CHECK_NAMES@[i]@,
        ),
{
    let statuses = check_statuses(request, output);
    let missing = names_with(statuses, CheckStatus::Missing, 5);
    names_with_lists(statuses, CheckStatus::Missing, 5);
    assert(missing.contains(CHECK_NAMES@[i]@));
    let n = choose|n: int| 0 <= n < missing.len() && missing[n] == CHECK_NAMES@[i]@;
    parts::joined_texts_are_held(missing, ", "@, n);
    let listed = text::spec_join(missing, ", "@);
    let nothing = Seq::<char>::empty();
    parts::held_by_the_whole("verification_failed: "@, listed, nothing, missing[n]);
    assert("verification_failed: "@ + listed + nothing =~= "verification_failed: "@ + listed);
}

/// The reason for sending the original names what is missing.
pub proof fn reasons_name_what_is_missing(request: types::RequestView, output: Seq<char>)
    requires
        text::spec_trim(output).len() > 0,
    ensures
        ({
            let statuses = check_statuses(request, output);
            let reason = spec_verify(request, output).fallback_reason;
            &&& statuses[0] == CheckStatus::Missing ==> (reason matches Some(reason)
                && text::spec_contains(reason, "preserve_code_blocks"@))
            &&& statuses[1] == CheckStatus::Missing ==> (reason matches Some(reason)
                && text::spec_contains(reason, "preserve_file_names"@))
            &&& statuses[2] == CheckStatus::Missing ==> (reason matches Some(reason)
                && text::spec_contains(reason, "preserve_error_messages"@))
            &&& statuses[3] == CheckStatus::Missing ==> (reason matches Some(reason)
                && text::spec_contains(reason, "preserve_numbers"@))
            &&& statuses[4] == CheckStatus::Missing ==> (reason matches Some(reason)
                && text::spec_contains(reason, "preserve_negations"@))
        }),
{
    let statuses = check_statuses(request, output);
    checks_have_names();
    assert forall|i: int|
        0 <= i < 5 && #[trigger] statuses[i] == CheckStatus::Missing implies spec_verify(
        request,
        output,
    ).fallback_reason matches Some(reason) && text::spec_contains(reason, CHECK_NAMES@[i]@) by {
        listed_names_stand_in_the_reason(request, output, i);
    }
}

/// Nothing is checked that is not to be kept, and nothing is missing from a prompt that holds
/// nothing to check.
pub proof fn only_what_is_asked_for_is_checked(request: types::RequestView, output: Seq<char>)
    ensures
        ({
            let input = corrections::spec_normalized_verification_input(request.input_text);
            let statuses = check_statuses(request, output);
            &&& statuses.len() == 5
            &&& statuses[0] == CheckStatus::NotApplicable <==> (
            !request.constraints.preserve_code_blocks
                || literals::spec_extract_fenced_code_blocks(input).len() == 0)
            &&& statuses[1] == CheckStatus::NotApplicable <==> (
            !request.constraints.preserve_file_names || literals::spec_extract_file_names(
                input,
            ).len() == 0)
            &&& statuses[2] == CheckStatus::NotApplicable <==> (
            !request.constraints.preserve_error_messages || literals::spec_extract_error_literals(
                input,
            ).len() == 0)
            &&& statuses[3] == CheckStatus::NotApplicable <==> (
            !request.constraints.preserve_numbers || numbers::spec_extract_numbers(input).len()
                == 0)
            &&& statuses[4] == CheckStatus::NotApplicable <==> (
            !request.constraints.preserve_negations || !literals::speaks_of_constraint(
                request.input_text,
            ))
        }),
{
    literals::constraint_words_state_constraints(request.input_text);
}

/// A request that forbids something, in whatever case, is not answered with a prompt that forbids
/// nothing: the original is sent in its place.
pub proof fn dropped_prohibitions_send_the_original(
    request: types::RequestView,
    output: Seq<char>,
    word: Seq<char>,
)
    requires
        request.constraints.preserve_negations,
        literals::speaks_of_constraint(request.input_text),
        word == "避け"@ || word == "禁止"@ || word == "avoid"@ || word == "must not"@ || word
            == "do not"@ || word == "don't"@ || word == "never"@,
        parts::holds_in_some_case(
            corrections::spec_normalized_verification_input(request.input_text),
            word,
        ),
        forall|j: int|
            0 <= j < constraints::listed(
                "避け|回避|禁止|しない|avoid|must not|do not|don't|never",
            ).len() ==> !parts::holds_in_some_case(
                output,
                #[trigger] constraints::listed(
                    "避け|回避|禁止|しない|avoid|must not|do not|don't|never",
                )[j],
            ),
    ensures
        spec_verify(request, output).should_send_original,
{
    let input = corrections::spec_normalized_verification_input(request.input_text);
    stated_constraints_are_checked(request, output);
    if draft::spec_preserves_requested_negations(request, output) {
        polish::kept_negations_are_of_every_kind(request.input_text, output);
        constraints::prohibitions_survive(input, output);
        let words = seq![
            "避け"@,
            "禁止"@,
            "avoid"@,
            "must not"@,
            "do not"@,
            "don't"@,
            "never"@,
        ];
        assert(words[0] == "避け"@ && words[1] == "禁止"@ && words[2] == "avoid"@ && words[3]
            == "must not"@ && words[4] == "do not"@ && words[5] == "don't"@ && words[6] == "never"@);
        assert(exists|i: int|
            0 <= i < words.len() && parts::holds_in_some_case(input, #[trigger] words[i]));
    }
}

} // verus!
