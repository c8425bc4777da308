//! The last polish of what a model wrote, and the short form that needs no model.
use vstd::prelude::*;
use crate::parts;
use crate::runtime::clauses;
use crate::runtime::constraints;
use crate::contents;
use crate::runtime::corrections;
use crate::runtime::matching;
use crate::compression::numbers;
use crate::runtime::preprocess;
use crate::runtime::restoration;
use crate::runtime::structure;
use crate::runtime::terms;
use crate::text;
use crate::runtime::clauses::SharedPredicateList;

verus! {

broadcast use crate::contents::group_contents;

/// Remarks that announce that only the listed items are meant.
pub const LIMITING_WORDS: [&'static str; 2] = ["だけ", "のみ"];

/// The condition of [`structured_candidate_preserves_requirements`]: the candidate keeps what the
/// input requires: its terms, its numbers, and each kind of constraint.
#[verifier::opaque]
pub open spec fn spec_structured_candidate_preserves_requirements(
    input: Seq<char>,
    candidate: Seq<char>,
) -> bool {
    terms::spec_contains_required_technical_terms(input, candidate)
        && numbers::spec_preserves_requested_numbers(input, candidate)
        && constraints::spec_preserves_targeted_change_constraints(input, candidate)
        && constraints::spec_preserves_negative_constraints(input, candidate)
        && constraints::spec_preserves_list_constraints(input, candidate)
        && constraints::spec_preserves_state_persistence_constraints(input, candidate)
        && constraints::spec_preserves_verification_constraints(input, candidate)
}

/// Whether the candidate keeps what the input requires: its terms, its numbers, and each kind of
/// constraint.
pub fn structured_candidate_preserves_requirements(input: &str, candidate: &str) -> (r: bool)
    ensures
        r == spec_structured_candidate_preserves_requirements(input@, candidate@),
{
    proof {
        reveal(spec_structured_candidate_preserves_requirements);
    }
    terms::contains_required_technical_terms(input, candidate)
        && numbers::preserves_requested_numbers(input, candidate)
        && constraints::preserves_targeted_change_constraints(input, candidate)
        && constraints::preserves_negative_constraints(input, candidate)
        && constraints::preserves_list_constraints(input, candidate)
        && constraints::preserves_state_persistence_constraints(input, candidate)
        && constraints::preserves_verification_constraints(input, candidate)
}

/// The condition of [`keeps_third_of`]: the candidate is shorter than the original, and no
/// shorter than a third of it.
pub open spec fn spec_keeps_third_of(candidate: Seq<char>, original: Seq<char>) -> bool {
    candidate.len() < original.len() && candidate.len() * 3 >= original.len()
}

/// Whether the candidate is shorter than the original, and no shorter than a third of it.
pub fn keeps_third_of(candidate: &str, original: &str) -> (r: bool)
    ensures
        r == spec_keeps_third_of(candidate@, original@),
{
    text::char_count(candidate) < text::char_count(original)
        && (text::char_count(candidate) as u128) * 3 >= text::char_count(original) as u128
}

/// Value of [`verified_structured_candidate`].
#[verifier::opaque]
pub open spec fn spec_verified_structured_candidate(input: Seq<char>) -> Option<Seq<char>> {
    let normalized_input = corrections::spec_normalized_verification_input(input);
    let required_terms = terms::spec_required_technical_terms(normalized_input);
    match structure::spec_candidate_of_facts(
        structure::spec_analyzed_facts(normalized_input, required_terms),
    ) {
        None => None,
        Some(candidate) => {
            if spec_keeps_third_of(candidate, text::spec_trim(normalized_input))
                && spec_structured_candidate_preserves_requirements(normalized_input, candidate) {
                Some(candidate)
            } else {
                None
            }
        },
    }
}

/// The short form of a request made of its facts, where it is shorter, not too short, and keeps
/// what the request requires.
pub fn verified_structured_candidate(input: &str) -> (r: Option<String>)
    ensures
        contents::view_option(r) == spec_verified_structured_candidate(input@),
{
    proof {
        reveal(spec_verified_structured_candidate);
    }
    let normalized_input: String = corrections::normalized_verification_input(input);
    let required_terms: Vec<String> = terms::required_technical_terms(&normalized_input);
    let candidate: String = match structure::candidate_of_facts(
        &structure::analyzed_facts(&normalized_input, &required_terms),
    ) {
        Some(value) => value,
        None => {
            return None;
        },
    };
    if keeps_third_of(&candidate, &text::trim(&normalized_input))
        && structured_candidate_preserves_requirements(&normalized_input, &candidate) {
        return Some(candidate);
    }
    None
}

/// Value of [`trusted_candidate`].
#[verifier::opaque]
pub open spec fn spec_trusted_candidate(
    input_text: Seq<char>,
    preserve_numbers: bool,
) -> Option<Seq<char>> {
    match spec_verified_structured_candidate(input_text) {
        None => None,
        Some(candidate) => {
            let safety_input = corrections::spec_normalized_verification_input(input_text);
            if candidate.len() >= text::spec_trim(input_text).len()
                || (preserve_numbers
                    && !numbers::spec_preserves_requested_numbers(safety_input, candidate))
                || !spec_structured_candidate_preserves_requirements(safety_input, candidate) {
                None
            } else {
                Some(candidate)
            }
        },
    }
}

/// The verified short form of a request, where it is shorter than the request as given and keeps
/// its numbers if they are to be kept.
pub fn trusted_candidate(input_text: &str, preserve_numbers: bool) -> (r: Option<String>)
    ensures
        contents::view_option(r) == spec_trusted_candidate(input_text@, preserve_numbers),
{
    proof {
        reveal(spec_trusted_candidate);
    }
    let candidate: String = match verified_structured_candidate(input_text) {
        Some(value) => value,
        None => {
            return None;
        },
    };
    let safety_input: String = corrections::normalized_verification_input(input_text);
    if text::char_count(&candidate) >= text::char_count(&text::trim(input_text))
        || (preserve_numbers && !numbers::preserves_requested_numbers(&safety_input, &candidate))
        || !structured_candidate_preserves_requirements(&safety_input, &candidate) {
        return None;
    }
    Some(candidate)
}

/// The condition of [`repeats_counted_items`]: the segment says again that only the counted items
/// are meant.
#[verifier::opaque]
pub open spec fn spec_repeats_counted_items(segment: Seq<char>, count: int) -> bool {
    let number = text::spec_decimal_of(count);
    (text::spec_contains(segment, "この"@ + number + "項目"@)
        || text::spec_contains(segment, "この "@ + number + " 項目"@))
        && matching::spec_contains_any_marker(segment, LIMITING_WORDS@)
}

/// Whether the segment says again that only the counted items are meant.
pub fn repeats_counted_items(segment: &str, count: usize) -> (r: bool)
    ensures
        r == spec_repeats_counted_items(segment@, count as int),
{
    proof {
        reveal(spec_repeats_counted_items);
    }
    let number: String = text::decimal_of(count);
    (text::contains(segment, &text::concat3("この", &number, "項目"))
        || text::contains(segment, &text::concat3("この ", &number, " 項目")))
        && matching::contains_any_marker(segment, &LIMITING_WORDS)
}

/// The state of [`without_counted_reference`] after the given items.
pub open spec fn spec_references_dropped(
    items: Seq<Seq<char>>,
    count: int,
) -> (bool, Seq<Seq<char>>)
    decreases items.len(),
{
    if items.len() == 0 {
        (false, Seq::<Seq<char>>::empty())
    } else {
        let (saw_restore, kept) = spec_references_dropped(items.drop_last(), count);
        let segment = items.last();
        if spec_repeats_counted_items(segment, count)
            || (segment == "次回起動時に復元"@ && saw_restore) {
            (saw_restore, kept)
        } else {
            let saw_restore = if text::spec_contains(segment, "復元"@) {
                true
            } else {
                saw_restore
            };
            let kept = kept.push(segment);
            (saw_restore, kept)
        }
    }
}

/// Value of [`without_counted_reference`].
#[verifier::opaque]
pub open spec fn spec_without_counted_reference(
    segments: Seq<Seq<char>>,
    count: int,
) -> Seq<Seq<char>> {
    let (saw_restore, kept) = spec_references_dropped(segments, count);
    kept
}

/// The segments without those that say again that only the counted items are meant, or again that
/// the state is restored.
pub fn without_counted_reference(segments: &Vec<String>, count: usize) -> (r: Vec<String>)
    ensures
        contents::views(r@)
            == spec_without_counted_reference(contents::views(segments@), count as int),
{
    proof {
        reveal(spec_without_counted_reference);
    }
    let mut saw_restore: bool = false;
    let mut kept: Vec<String> = Vec::new();
    let mut i: usize = 0;
    while i < segments.len()
        invariant
            i <= segments@.len(),
            (saw_restore, contents::views(kept@)) == spec_references_dropped(
                contents::views(segments@).take(i as int),
                count as int,
            ),
        decreases segments@.len() - i,
    {
        assert(contents::views(segments@).take(i + 1).drop_last()
            =~= contents::views(segments@).take(i as int));
        let segment: &str = &segments[i];
        i = i + 1;
        if repeats_counted_items(segment, count)
            || (text::same(segment, "次回起動時に復元") && saw_restore) {
            continue;
        }
        if text::contains(segment, "復元") {
            saw_restore = true;
        }
        kept.push(segment.to_owned());
    }
    assert(contents::views(segments@).take(segments@.len() as int) =~= contents::views(segments@));
    kept
}

/// Value of [`remove_redundant_counted_reference`].
#[verifier::opaque]
pub open spec fn spec_remove_redundant_counted_reference(
    input: Seq<char>,
    output: Seq<char>,
) -> Seq<char> {
    match clauses::spec_parse_counted_item_reference_list(input) {
        None => output,
        Some(counted) => {
            if !constraints::spec_all_targets_satisfied(counted.targets, output) {
                output
            } else {
                let kept = spec_without_counted_reference(
                    text::spec_segments(
                        text::spec_trim_end_any(text::spec_trim(output), "。"@),
                        "、"@,
                    ),
                    counted.targets.len() as int,
                );
                if kept.len() == 0 {
                    output
                } else {
                    let listed = text::spec_join(kept, "、"@);
                    listed + "。"@
                }
            }
        },
    }
}

/// The output without a reference to counted items, where it names every one of them.
pub fn remove_redundant_counted_reference(input: &str, output: &str) -> (r: String)
    ensures
        r@ == spec_remove_redundant_counted_reference(input@, output@),
{
    proof {
        reveal(spec_remove_redundant_counted_reference);
    }
    let counted: SharedPredicateList = match clauses::parse_counted_item_reference_list(input) {
        Some(value) => value,
        None => {
            return output.to_owned();
        },
    };
    if !constraints::all_targets_satisfied(&counted.targets, output) {
        return output.to_owned();
    }
    let kept: Vec<String> = without_counted_reference(
        &text::segments(&text::trim_end_any(&text::trim(output), "。"), "、"),
        counted.targets.len(),
    );
    if kept.len() == 0 {
        return output.to_owned();
    }
    let listed: String = text::join(&kept, "、");
    text::concat2(&listed, "。")
}

/// Value of [`separator_kept`].
pub open spec fn spec_separator_kept(pattern: Seq<char>) -> Seq<char> {
    if text::spec_starts_with(pattern, "/"@) && text::spec_ends_with(pattern, "/"@) {
        "/"@
    } else {
        if text::spec_starts_with(pattern, ":"@) {
            ":"@
        } else {
            if text::spec_starts_with(pattern, "："@) {
                "："@
            } else {
                if text::spec_ends_with(pattern, "、"@) {
                    "、"@
                } else {
                    if text::spec_ends_with(pattern, ","@) {
                        ","@
                    } else {
                        Seq::<char>::empty()
                    }
                }
            }
        }
    }
}

/// What stays of a pattern that is dropped: one of its separators.
pub fn separator_kept(pattern: &str) -> (r: String)
    ensures
        r@ == spec_separator_kept(pattern@),
{
    if text::starts_with(pattern, "/") && text::ends_with(pattern, "/") {
        return "/".to_owned();
    }
    if text::starts_with(pattern, ":") {
        return ":".to_owned();
    }
    if text::starts_with(pattern, "：") {
        return "：".to_owned();
    }
    if text::ends_with(pattern, "、") {
        return "、".to_owned();
    }
    if text::ends_with(pattern, ",") {
        return ",".to_owned();
    }
    String::new()
}

/// Value of [`without_pattern`].
#[verifier::opaque]
pub open spec fn spec_without_pattern(text: Seq<char>, pattern: Seq<char>) -> Seq<char> {
    text::spec_replace(text, pattern, spec_separator_kept(pattern))
}

/// The text with only a separator at each place of the pattern.
pub fn without_pattern(text: &str, pattern: &str) -> (r: String)
    ensures
        r@ == spec_without_pattern(text@, pattern@),
{
    proof {
        reveal(spec_without_pattern);
    }
    text::replace(text, pattern, &separator_kept(pattern))
}

/// Value of [`without_repeated_value`].
#[verifier::opaque]
pub open spec fn spec_without_repeated_value(text: Seq<char>, value: Seq<char>) -> Seq<char> {
    let coloned = spec_without_pattern(text, ": "@ + value + ","@);
    let wide_coloned = spec_without_pattern(coloned, "："@ + value + "、"@);
    let listed = spec_without_pattern(wide_coloned, ", "@ + value + ","@);
    let wide_listed = spec_without_pattern(listed, "、"@ + value + "、"@);
    let ended = spec_without_pattern(wide_listed, ", "@ + value);
    let wide_ended = spec_without_pattern(ended, "、"@ + value);
    let slashed = spec_without_pattern(wide_ended, "/"@ + value + "/"@);
    spec_without_pattern(slashed, " "@ + value + " "@)
}

/// The text without the value where it stands alone between separators.
pub fn without_repeated_value(text: &str, value: &str) -> (r: String)
    ensures
        r@ == spec_without_repeated_value(text@, value@),
{
    proof {
        reveal(spec_without_repeated_value);
    }
    let coloned: String = without_pattern(text, &text::concat3(": ", value, ","));
    let wide_coloned: String = without_pattern(&coloned, &text::concat3("：", value, "、"));
    let listed: String = without_pattern(&wide_coloned, &text::concat3(", ", value, ","));
    let wide_listed: String = without_pattern(&listed, &text::concat3("、", value, "、"));
    let ended: String = without_pattern(&wide_listed, &text::concat2(", ", value));
    let wide_ended: String = without_pattern(&ended, &text::concat2("、", value));
    let slashed: String = without_pattern(&wide_ended, &text::concat3("/", value, "/"));
    without_pattern(&slashed, &text::concat3(" ", value, " "))
}

/// The state of [`remove_duplicate_assignment_values`] after the given items.
pub open spec fn spec_values_dropped(items: Seq<Seq<char>>, polished: Seq<char>) -> Seq<char>
    decreases items.len(),
{
    if items.len() == 0 {
        polished
    } else {
        let polished = spec_values_dropped(items.drop_last(), polished);
        let term = items.last();
        match text::spec_split_once(term, "="@) {
            None => polished,
            Some(sides) => {
                if sides.1.len() > 0 && text::spec_contains(polished, term) {
                    spec_without_repeated_value(polished, sides.1)
                } else {
                    polished
                }
            },
        }
    }
}

/// Value of [`remove_duplicate_assignment_values`].
#[verifier::opaque]
pub open spec fn spec_remove_duplicate_assignment_values(
    input: Seq<char>,
    output: Seq<char>,
) -> Seq<char> {
    let polished = output;
    spec_values_dropped(terms::spec_required_technical_terms(input), polished)
}

/// The output without the values of required assignments where they stand a second time, apart
/// from their keys.
pub fn remove_duplicate_assignment_values(input: &str, output: &str) -> (r: String)
    ensures
        r@ == spec_remove_duplicate_assignment_values(input@, output@),
{
    proof {
        reveal(spec_remove_duplicate_assignment_values);
    }
    let mut polished: String = output.to_owned();
    let items: Vec<String> = terms::required_technical_terms(input);
    let ghost initial_polished = polished@;
    let mut i: usize = 0;
    while i < items.len()
        invariant
            i <= items@.len(),
            polished@ == spec_values_dropped(
                contents::views(items@).take(i as int),
                initial_polished,
            ),
        decreases items@.len() - i,
    {
        assert(contents::views(items@).take(i + 1).drop_last()
            =~= contents::views(items@).take(i as int));
        let term: &str = &items[i];
        i = i + 1;
        let sides = match text::split_once(term, "=") {
            Some(value) => value,
            None => {
                continue;
            },
        };
        if text::char_count(&sides.1) > 0 && text::contains(&polished, term) {
            polished = without_repeated_value(&polished, &sides.1);
        }
    }
    assert(contents::views(items@).take(items@.len() as int) =~= contents::views(items@));
    polished
}

/// Value of [`compacted_constraint_clauses`].
#[verifier::opaque]
pub open spec fn spec_compacted_constraint_clauses(input: Seq<char>) -> Seq<Seq<char>> {
    clauses::spec_required_constraint_clauses(input).map_values(
        |clause: Seq<char>| clauses::spec_compact_constraint_clause(clause),
    )
}

/// The clauses of the input that state constraints, in short form.
pub fn compacted_constraint_clauses(input: &str) -> (r: Vec<String>)
    ensures
        contents::views(r@) == spec_compacted_constraint_clauses(input@),
{
    proof {
        reveal(spec_compacted_constraint_clauses);
    }
    let mut out: Vec<String> = Vec::new();
    let items: Vec<String> = clauses::required_constraint_clauses(input);
    let mut i: usize = 0;
    while i < items.len()
        invariant
            i <= items@.len(),
            out@.len() == i,
            forall|j: int|
                #![trigger contents::views(out@)[j]]
                0 <= j < i ==> contents::views(out@)[j] == clauses::spec_compact_constraint_clause(contents::views(items@)[j]),
        decreases items@.len() - i,
    {
        assert(contents::views(items@)[i as int] == items@[i as int]@);
        let clause: &str = &items[i];
        i = i + 1;
        out.push(clauses::compact_constraint_clause(clause));
    }
    assert(contents::views(out@) =~= spec_compacted_constraint_clauses(input@));
    out
}

/// The condition of [`says_the_same`]: one of a constraint and a text, both without white space,
/// holds the other.
pub open spec fn spec_says_the_same(clause: Seq<char>, compact_tail: Seq<char>) -> bool {
    let compact_clause = text::spec_compact_all_whitespace(clause);
    compact_clause.len() > 0
        && (text::spec_contains(compact_tail, compact_clause)
            || text::spec_contains(compact_clause, compact_tail))
}

/// Whether one of a constraint and a text, both without white space, holds the other.
pub fn says_the_same(clause: &str, compact_tail: &str) -> (r: bool)
    ensures
        r == spec_says_the_same(clause@, compact_tail@),
{
    let compact_clause: String = text::compact_all_whitespace(clause);
    text::char_count(&compact_clause) > 0
        && (text::contains(compact_tail, &compact_clause)
            || text::contains(&compact_clause, compact_tail))
}

/// The condition of [`any_says_the_same`]: some constraint says what the text says.
#[verifier::opaque]
pub open spec fn spec_any_says_the_same(clauses: Seq<Seq<char>>, compact_tail: Seq<char>) -> bool {
    exists|i: int|
        #![trigger clauses[i]] 0 <= i < clauses.len()
        && spec_says_the_same(clauses[i], compact_tail)
}

/// Whether some constraint says what the text says.
pub fn any_says_the_same(clauses: &Vec<String>, compact_tail: &str) -> (r: bool)
    ensures
        r == spec_any_says_the_same(contents::views(clauses@), compact_tail@),
{
    proof {
        reveal(spec_any_says_the_same);
    }
    let mut i: usize = 0;
    while i < clauses.len()
        invariant
            i <= clauses@.len(),
            forall|j: int|
                #![trigger contents::views(clauses@)[j]] 0 <= j < i ==> !(spec_says_the_same(
                    contents::views(clauses@)[j],
                    compact_tail@,
                )),
        decreases clauses@.len() - i,
    {
        proof {
            reveal(spec_any_says_the_same);
        }
        let clause: &str = &clauses[i];
        assert(contents::views(clauses@)[i as int] == clauses@[i as int]@);
        if says_the_same(clause, compact_tail) {
            return true;
        }
        i = i + 1;
    }
    false
}

/// The condition of [`keeps_terms_and_negations`]: the candidate keeps the required terms and
/// negations of the input.
#[verifier::opaque]
pub open spec fn spec_keeps_terms_and_negations(input: Seq<char>, candidate: Seq<char>) -> bool {
    terms::spec_contains_required_technical_terms(input, candidate)
        && constraints::spec_preserves_negative_constraints(input, candidate)
}

/// Whether the candidate keeps the required terms and negations of the input.
pub fn keeps_terms_and_negations(input: &str, candidate: &str) -> (r: bool)
    ensures
        r == spec_keeps_terms_and_negations(input@, candidate@),
{
    proof {
        reveal(spec_keeps_terms_and_negations);
    }
    terms::contains_required_technical_terms(input, candidate)
        && constraints::preserves_negative_constraints(input, candidate)
}

/// Value of [`after_constraint`].
pub open spec fn spec_after_constraint(
    head: Seq<char>,
    tail: Seq<char>,
    clause: Seq<char>,
) -> Seq<char> {
    let remainder = text::spec_trim_start_space_or(
        text::spec_skip(tail, clause.len() as int),
        "。、,;；"@,
    );
    if remainder.len() == 0 {
        head
    } else {
        head + "。"@ + remainder
    }
}

/// The head, and what the tail holds after the constraint that it begins with.
pub fn after_constraint(head: &str, tail: &str, clause: &str) -> (r: String)
    ensures
        r@ == spec_after_constraint(head@, tail@, clause@),
{
    let remainder: String = text::trim_start_space_or(
        &text::skip(tail, text::char_count(clause)),
        "。、,;；",
    );
    if text::char_count(&remainder) == 0 {
        return head.to_owned();
    }
    text::concat3(head, "。", &remainder)
}

/// What [`without_leading_constraint`] comes to from position `i` of the items on.
pub open spec fn spec_leading_constraint(
    items: Seq<Seq<char>>,
    i: int,
    tail: Seq<char>,
    head: Seq<char>,
    input: Seq<char>,
) -> Option<Seq<char>>
    decreases items.len() - i,
{
    if i >= items.len() {
        None
    } else {
        let listed = items[i];
        let clause = text::spec_trim(listed);
        if clause.len() > 0 && text::spec_starts_with(tail, clause) {
            let candidate = spec_after_constraint(head, tail, clause);
            if spec_keeps_terms_and_negations(input, candidate) {
                Some(candidate)
            } else {
                None
            }
        } else {
            spec_leading_constraint(items, i + 1, tail, head, input)
        }
    }
}

/// Value of [`without_leading_constraint`].
#[verifier::opaque]
pub open spec fn spec_without_leading_constraint(
    input: Seq<char>,
    head: Seq<char>,
    tail: Seq<char>,
    clauses: Seq<Seq<char>>,
) -> Option<Seq<char>> {
    spec_leading_constraint(clauses, 0, tail, head, input)
}

/// The head and the tail without the first constraint that the tail begins with, where terms and
/// negations are kept.
pub fn without_leading_constraint(
    input: &str,
    head: &str,
    tail: &str,
    clauses: &Vec<String>,
) -> (r: Option<String>)
    ensures
        contents::view_option(r)
            == spec_without_leading_constraint(input@, head@, tail@, contents::views(clauses@)),
{
    proof {
        reveal(spec_without_leading_constraint);
    }
    let ghost goal = spec_leading_constraint(contents::views(clauses@), 0, tail@, head@, input@);
    let mut i: usize = 0;
    while i < clauses.len()
        invariant
            i <= clauses@.len(),
            goal == spec_leading_constraint(
                contents::views(clauses@),
                i as int,
                tail@,
                head@,
                input@,
            ),
            goal == spec_without_leading_constraint(input@, head@, tail@, contents::views(clauses@)),
        decreases clauses@.len() - i,
    {
        assert(contents::views(clauses@)[i as int] == clauses@[i as int]@);
        let listed: &str = &clauses[i];
        i = i + 1;
        let clause: String = text::trim(listed);
        if text::char_count(&clause) > 0 && text::starts_with(tail, &clause) {
            let candidate: String = after_constraint(head, tail, &clause);
            if keeps_terms_and_negations(input, &candidate) {
                return Some(candidate);
            }
            return None;
        }
    }
    None
}

/// Value of [`without_tail_once`].
#[verifier::opaque]
pub open spec fn spec_without_tail_once(input: Seq<char>, text: Seq<char>) -> Option<Seq<char>> {
    match text::spec_rsplit_once(text, ";"@) {
        None => None,
        Some(sides) => {
            let head = text::spec_trim(sides.0);
            let tail = text::spec_trim(sides.1);
            if head.len() == 0 || tail.len() == 0 {
                None
            } else {
                let clauses = spec_compacted_constraint_clauses(input);
                if spec_any_says_the_same(clauses, text::spec_compact_all_whitespace(tail))
                    && spec_keeps_terms_and_negations(input, head) {
                    Some(head)
                } else {
                    spec_without_leading_constraint(input, head, tail, clauses)
                }
            }
        },
    }
}

/// The text without a last part that repeats a constraint of the input; nothing where there is
/// none to drop.
pub fn without_tail_once(input: &str, text: &str) -> (r: Option<String>)
    ensures
        contents::view_option(r) == spec_without_tail_once(input@, text@),
{
    proof {
        reveal(spec_without_tail_once);
    }
    let sides = match text::rsplit_once(text, ";") {
        Some(value) => value,
        None => {
            return None;
        },
    };
    let head: String = text::trim(&sides.0);
    let tail: String = text::trim(&sides.1);
    if text::char_count(&head) == 0 || text::char_count(&tail) == 0 {
        return None;
    }
    let clauses: Vec<String> = compacted_constraint_clauses(input);
    if any_says_the_same(&clauses, &text::compact_all_whitespace(&tail))
        && keeps_terms_and_negations(input, &head) {
        return Some(head);
    }
    without_leading_constraint(input, &head, &tail, &clauses)
}

/// The text without last parts that repeat constraints of the input, as long as each leaves it
/// shorter.
pub open spec fn spec_without_tails(input: Seq<char>, text: Seq<char>) -> Seq<char>
    decreases text.len(),
{
    match spec_without_tail_once(input, text) {
        None => text,
        Some(next) => if next.len() < text.len() {
            spec_without_tails(input, next)
        } else {
            next
        },
    }
}

/// Drops last parts that repeat constraints of the input, one after the other.
pub fn without_tails(input: &str, text: &str) -> (r: String)
    ensures
        r@ == spec_without_tails(input@, text@),
{
    let mut current: String = text.to_owned();
    loop
        invariant
            spec_without_tails(input@, text@) == spec_without_tails(input@, current@),
        decreases current@.len(),
    {
        match without_tail_once(input, &current) {
            None => {
                return current;
            },
            Some(next) => {
                if text::char_count(&next) >= text::char_count(&current) {
                    return next;
                }
                current = next;
            },
        }
    }
}

/// Value of [`remove_redundant_constraint_tail`].
#[verifier::opaque]
pub open spec fn spec_remove_redundant_constraint_tail(
    input: Seq<char>,
    output: Seq<char>,
) -> Seq<char> {
    spec_without_tails(
        input,
        text::spec_trim(restoration::spec_normalize_required_constraint_terms(input, output)),
    )
}

/// The output without last parts after semicolons that repeat constraints of the input.
pub fn remove_redundant_constraint_tail(input: &str, output: &str) -> (r: String)
    ensures
        r@ == spec_remove_redundant_constraint_tail(input@, output@),
{
    proof {
        reveal(spec_remove_redundant_constraint_tail);
    }
    without_tails(
        input,
        &text::trim(&restoration::normalize_required_constraint_terms(input, output)),
    )
}

/// Value of [`polished_candidate`].
#[verifier::opaque]
pub open spec fn spec_polished_candidate(
    validation_input: Seq<char>,
    level: int,
    model_output: Seq<char>,
) -> Seq<char> {
    let candidate = restoration::spec_strip_leading_output_label(model_output);
    if level < 2 {
        candidate
    } else {
        let single = spec_remove_duplicate_assignment_values(validation_input, candidate);
        let uncounted = spec_remove_redundant_counted_reference(validation_input, single);
        let short = spec_remove_redundant_constraint_tail(validation_input, uncounted);
        preprocess::spec_remove_polite_request_fillers(short)
    }
}

/// What a model wrote without a label, and from the second level on without repetitions and
/// politeness.
pub fn polished_candidate(validation_input: &str, level: usize, model_output: &str) -> (r: String)
    ensures
        r@ == spec_polished_candidate(validation_input@, level as int, model_output@),
{
    proof {
        reveal(spec_polished_candidate);
    }
    let candidate: String = restoration::strip_leading_output_label(model_output);
    if level < 2 {
        return candidate;
    }
    let single: String = remove_duplicate_assignment_values(validation_input, &candidate);
    let uncounted: String = remove_redundant_counted_reference(validation_input, &single);
    let short: String = remove_redundant_constraint_tail(validation_input, &uncounted);
    preprocess::remove_polite_request_fillers(&short)
}

/// The condition of [`over_nine_tenths`]: the candidate has more than nine tenths of the
/// characters of the original.
pub open spec fn spec_over_nine_tenths(candidate: Seq<char>, original: Seq<char>) -> bool {
    candidate.len() * 10 > original.len() * 9
}

/// Whether the candidate has more than nine tenths of the characters of the original.
pub fn over_nine_tenths(candidate: &str, original: &str) -> (r: bool)
    ensures
        r == spec_over_nine_tenths(candidate@, original@),
{
    (text::char_count(candidate) as u128) * 10 > (text::char_count(original) as u128) * 9
}

/// Value of [`with_polish`].
#[verifier::opaque]
pub open spec fn spec_with_polish(input_text: Seq<char>, level: int, prompt: Seq<char>) -> Seq<char> {
    let model_output = text::spec_trim(prompt);
    if model_output.len() == 0 {
        prompt
    } else {
        let validation_input = corrections::spec_normalized_verification_input(input_text);
        let candidate = spec_polished_candidate(validation_input, level, model_output);
        if candidate.len() < text::spec_trim(input_text).len()
            && !(level == 2 && spec_over_nine_tenths(candidate, text::spec_trim(input_text)))
            && spec_structured_candidate_preserves_requirements(validation_input, candidate) {
            candidate
        } else {
            match spec_verified_structured_candidate(validation_input) {
                Some(structured) => structured,
                None => prompt,
            }
        }
    }
}

/// The prompt polished, where that is short enough and keeps what the request requires; else the
/// verified short form of the request, if there is one.
pub fn with_polish(input_text: &str, level: usize, prompt: &str) -> (r: String)
    ensures
        r@ == spec_with_polish(input_text@, level as int, prompt@),
{
    proof {
        reveal(spec_with_polish);
    }
    let model_output: String = text::trim(prompt);
    if text::char_count(&model_output) == 0 {
        return prompt.to_owned();
    }
    let validation_input: String = corrections::normalized_verification_input(input_text);
    let candidate: String = polished_candidate(&validation_input, level, &model_output);
    if text::char_count(&candidate) < text::char_count(&text::trim(input_text))
        && !(level == 2 && over_nine_tenths(&candidate, &text::trim(input_text)))
        && structured_candidate_preserves_requirements(&validation_input, &candidate) {
        return candidate;
    }
    match verified_structured_candidate(&validation_input) {
        Some(structured) => {
            structured
        },
        None => {
            prompt.to_owned()
        },
    }
}

/// The condition of [`keeps_requested_negations`]: the output keeps the roles of constraints, the
/// limits of change and the negations of the request, as far as these are to be kept.
#[verifier::opaque]
pub open spec fn spec_keeps_requested_negations(
    input_text: Seq<char>,
    preserve_negations: bool,
    output: Seq<char>,
) -> bool {
    if !preserve_negations {
        true
    } else {
        let validation_input = corrections::spec_normalized_verification_input(input_text);
        constraints::spec_preserves_constraint_clause_roles(validation_input, output)
            && constraints::spec_preserves_targeted_change_constraints(validation_input, output)
            && constraints::spec_preserves_negative_constraints(validation_input, output)
    }
}

/// Whether the output keeps the roles of constraints, the limits of change and the negations of
/// the request, as far as these are to be kept.
pub fn keeps_requested_negations(
    input_text: &str,
    preserve_negations: bool,
    output: &str,
) -> (r: bool)
    ensures
        r == spec_keeps_requested_negations(input_text@, preserve_negations, output@),
{
    proof {
        reveal(spec_keeps_requested_negations);
    }
    if !preserve_negations {
        return true;
    }
    let validation_input: String = corrections::normalized_verification_input(input_text);
    constraints::preserves_constraint_clause_roles(&validation_input, output)
        && constraints::preserves_targeted_change_constraints(&validation_input, output)
        && constraints::preserves_negative_constraints(&validation_input, output)
}

/// An output keeps the negations of a request exactly where it keeps the roles of its constraints,
/// the limits of change and every negative constraint; where negations need not be kept, any output
/// does.
pub proof fn kept_negations_are_of_every_kind(input_text: Seq<char>, output: Seq<char>)
    ensures
        spec_keeps_requested_negations(input_text, false, output),
        spec_keeps_requested_negations(input_text, true, output) <==> {
            let input = corrections::spec_normalized_verification_input(input_text);
            &&& constraints::spec_preserves_constraint_clause_roles(input, output)
            &&& constraints::spec_preserves_targeted_change_constraints(input, output)
            &&& constraints::spec_preserves_negative_constraints(input, output)
        },
{
    reveal(spec_keeps_requested_negations);
}

/// A short form keeps what a request requires exactly where it keeps its terms, its numbers and each
/// kind of constraint.
pub proof fn kept_requirements_are_of_every_kind(input: Seq<char>, candidate: Seq<char>)
    ensures
        spec_structured_candidate_preserves_requirements(input, candidate) <==> {
            &&& forall|k: int|
                0 <= k < terms::spec_required_technical_terms(input).len()
                    ==> matching::spec_contains_ascii_case_insensitive(
                    candidate,
                    #[trigger] terms::spec_required_technical_terms(input)[k],
                )
            &&& forall|k: int|
                0 <= k < numbers::spec_requested_numbers(input).len() ==> numbers::is_number_of(
                    candidate,
                    #[trigger] numbers::spec_requested_numbers(input)[k],
                )
            &&& constraints::spec_preserves_targeted_change_constraints(input, candidate)
            &&& constraints::spec_preserves_negative_constraints(input, candidate)
            &&& constraints::spec_preserves_list_constraints(input, candidate)
            &&& constraints::spec_preserves_state_persistence_constraints(input, candidate)
            &&& constraints::spec_preserves_verification_constraints(input, candidate)
        },
{
    reveal(spec_structured_candidate_preserves_requirements);
    reveal(terms::spec_contains_required_technical_terms);
    reveal(matching::spec_all_terms_present);
    numbers::kept_numbers_stand_in_the_output(input, candidate);
}

/// A short form that needs no model is shorter than the request and no shorter than a third of it,
/// and keeps what the request requires.
pub proof fn verified_short_forms_keep_requirements(input: Seq<char>)
    ensures
        spec_verified_structured_candidate(input) matches Some(candidate) ==> {
            let normalized = corrections::spec_normalized_verification_input(input);
            &&& candidate.len() < text::spec_trim(normalized).len() <= candidate.len() * 3
            &&& spec_structured_candidate_preserves_requirements(normalized, candidate)
        },
{
    reveal(spec_verified_structured_candidate);
}

/// A polished answer is the answer itself, or a shorter form of the request that keeps what the
/// request requires. At the second level it is at least a tenth shorter than the request, unless it
/// is the verified short form.
pub proof fn polished_answers_keep_requirements(
    input_text: Seq<char>,
    level: int,
    prompt: Seq<char>,
)
    ensures
        ({
            let input = corrections::spec_normalized_verification_input(input_text);
            let polished = spec_with_polish(input_text, level, prompt);
            ||| polished == prompt
            ||| spec_verified_structured_candidate(input) == Some(polished)
            ||| spec_structured_candidate_preserves_requirements(input, polished) && polished.len()
                < text::spec_trim(input_text).len() && (level == 2 ==> polished.len() * 10
                <= text::spec_trim(input_text).len() * 9)
        }),
        text::spec_trim(prompt).len() == 0 ==> spec_with_polish(input_text, level, prompt) == prompt,
{
    reveal(spec_with_polish);
}

/// Below the second level nothing but a label before the answer is dropped by polishing.
pub proof fn light_polishing_drops_labels_alone(
    input_text: Seq<char>,
    level: int,
    prompt: Seq<char>,
)
    requires
        level < 2,
        text::spec_trim(prompt).len() > 0,
    ensures
        ({
            let input = corrections::spec_normalized_verification_input(input_text);
            let plain = restoration::spec_strip_leading_output_label(text::spec_trim(prompt));
            plain.len() < text::spec_trim(input_text).len()
                && spec_structured_candidate_preserves_requirements(input, plain)
                ==> spec_with_polish(input_text, level, prompt) == plain
        }),
{
    reveal(spec_with_polish);
    reveal(spec_polished_candidate);
}

/// What is left when repetitions are cut off at the end of an answer is the answer itself, or it
/// still holds the required terms and keeps the prohibitions of the request.
pub proof fn cut_answers_keep_terms_and_negations(input: Seq<char>, answer: Seq<char>)
    ensures
        ({
            let left = spec_without_tails(input, answer);
            left == answer || (terms::spec_contains_required_technical_terms(input, left)
                && constraints::spec_preserves_negative_constraints(input, left))
        }),
    decreases answer.len(),
{
    reveal(spec_without_tail_once);
    reveal(spec_without_leading_constraint);
    reveal(spec_keeps_terms_and_negations);
    match spec_without_tail_once(input, answer) {
        None => {},
        Some(next) => {
            match text::spec_rsplit_once(answer, ";"@) {
                None => {},
                Some(sides) => {
                    leading_constraint_keeps(
                        spec_compacted_constraint_clauses(input),
                        0,
                        text::spec_trim(sides.1),
                        text::spec_trim(sides.0),
                        input,
                    );
                },
            }
            if next.len() < answer.len() {
                cut_answers_keep_terms_and_negations(input, next);
            }
        },
    }
}

/// What stays without a repeated constraint keeps terms and negations.
proof fn leading_constraint_keeps(
    items: Seq<Seq<char>>,
    i: int,
    tail: Seq<char>,
    head: Seq<char>,
    input: Seq<char>,
)
    ensures
        spec_leading_constraint(items, i, tail, head, input) matches Some(candidate)
            ==> spec_keeps_terms_and_negations(input, candidate),
    decreases items.len() - i,
{
    if i < items.len() {
        leading_constraint_keeps(items, i + 1, tail, head, input);
    }
}

/// A part behind the last semicolon that says the same as a constraint of the request, or that a
/// constraint says too, is cut off where what stands before it is enough.
pub proof fn repeated_constraints_are_cut_off(
    input: Seq<char>,
    head: Seq<char>,
    tail: Seq<char>,
    k: int,
)
    requires
        text::spec_trim(head).len() > 0,
        text::spec_trim(tail).len() > 0,
        text::lacks(tail, ';'),
        0 <= k < clauses::spec_required_constraint_clauses(input).len(),
        ({
            let clause = text::spec_compact_all_whitespace(
                clauses::spec_compact_constraint_clause(
                    clauses::spec_required_constraint_clauses(input)[k],
                ),
            );
            let said = text::spec_compact_all_whitespace(text::spec_trim(tail));
            clause.len() > 0 && (text::spec_contains(said, clause) || text::spec_contains(
                clause,
                said,
            ))
        }),
        terms::spec_contains_required_technical_terms(input, text::spec_trim(head)),
        constraints::spec_preserves_negative_constraints(input, text::spec_trim(head)),
    ensures
        spec_without_tail_once(input, head + ";"@ + tail) == Some(text::spec_trim(head)),
{
    reveal(spec_without_tail_once);
    reveal(spec_keeps_terms_and_negations);
    reveal(spec_any_says_the_same);
    reveal(spec_says_the_same);
    reveal(spec_compacted_constraint_clauses);
    reveal_strlit(";");
    let whole = head + ";"@ + tail;
    let clauses = spec_compacted_constraint_clauses(input);
    text::texts_split_from_the_end_go_together(whole, ";"@);
    assert(whole.subrange(head.len() as int, head.len() as int + 1) =~= ";"@);
    assert(text::occurs_at(whole, ";"@, head.len() as int));
    match text::spec_rsplit_once(whole, ";"@) {
        Some((first, last)) => {
            let place = first.len() as int;
            if place > head.len() {
                assert(whole[place] == ";"@[0]);
                assert(whole[place] == tail[place - head.len() - 1]);
            }
            assert(first =~= whole.take(place) && head =~= whole.take(place));
            assert(last =~= whole.skip(place + 1) && tail =~= whole.skip(place + 1));
        },
        None => {},
    }
    assert(clauses[k] == clauses::spec_compact_constraint_clause(
        clauses::spec_required_constraint_clauses(input)[k],
    ));
    assert(spec_says_the_same(
        clauses[k],
        text::spec_compact_all_whitespace(text::spec_trim(tail)),
    ));
}

/// A part that says again that the counted items alone are meant is dropped. Any other stays, but
/// for a repeated remark that they are restored at the next start.
pub proof fn repeated_counts_are_dropped(items: Seq<Seq<char>>, count: int, part: Seq<char>)
    requires
        part != "次回起動時に復元"@,
    ensures
        spec_without_counted_reference(items, count).contains(part) <==> items.contains(part)
            && !spec_repeats_counted_items(part, count),
    decreases items.len(),
{
    reveal(spec_without_counted_reference);
    if items.len() > 0 {
        let before = items.drop_last();
        repeated_counts_are_dropped(before, count, part);
        let kept = spec_references_dropped(before, count).1;
        parts::pushed_item(kept, items.last(), part);
        parts::pushed_item(before, items.last(), part);
        assert(before.push(items.last()) =~= items);
    } else {
        assert(!items.contains(part));
    }
}

/// A part says again that the counted items alone are meant where it names their number and a word
/// of limitation.
pub proof fn counted_items_are_limited(part: Seq<char>, count: int)
    ensures
        spec_repeats_counted_items(part, count) <==> (text::spec_contains(
            part,
            "この"@ + text::spec_decimal_of(count) + "項目"@,
        ) || text::spec_contains(part, "この "@ + text::spec_decimal_of(count) + " 項目"@))
            && (parts::holds_in_some_case(part, "だけ"@) || parts::holds_in_some_case(
            part,
            "のみ"@,
        )),
{
    reveal(spec_repeats_counted_items);
    matching::markers_are_found_in_some_case(part, LIMITING_WORDS@);
    assert(LIMITING_WORDS@[0]@ == "だけ"@ && LIMITING_WORDS@[1]@ == "のみ"@);
}

} // verus!
