//! Numbers in text, and those of a request that a shorter version must keep.
use vstd::prelude::*;
use crate::contents;
use crate::runtime::matching;
use crate::runtime::structure;
use crate::runtime::terms;
use crate::text;

verus! {

broadcast use crate::contents::group_contents;

/// Remarks that make the numbers of a sentence void.
pub const VOID_CLAUSE_MARKERS: [&'static str; 5] = [
    "関係ありません",
    "関係ない",
    "意味ない",
    "無視してください",
    "タッチミス",
];

/// Remarks after which the final value of a correction stands.
pub const FINAL_VALUE_MARKERS: [&'static str; 5] = [
    "最終的には",
    "最終的に",
    "正しくは",
    "ここは",
    "ではなく",
];

/// The state of [`with_numbers`] after the given items.
pub open spec fn spec_numbers_within(
    items: Seq<char>,
    numbers: Seq<Seq<char>>,
) -> (Seq<char>, Seq<Seq<char>>)
    decreases items.len(),
{
    if items.len() == 0 {
        (Seq::<char>::empty(), numbers)
    } else {
        let (current, numbers) = spec_numbers_within(items.drop_last(), numbers);
        let c = items.last();
        if text::spec_is_digit(c) {
            let current = current.push(c);
            (current, numbers)
        } else {
            let (numbers, current) = if current.len() > 0 {
                let numbers = if !numbers.contains(current) {
                    numbers.push(current)
                } else {
                    numbers
                };
                let current = Seq::<char>::empty();
                (numbers, current)
            } else {
                (numbers, current)
            };
            (current, numbers)
        }
    }
}

/// Value of [`with_numbers`].
pub open spec fn spec_with_numbers(values: Seq<Seq<char>>, text: Seq<char>) -> Seq<Seq<char>> {
    let numbers = values;
    let (current, numbers) = spec_numbers_within(text, numbers);
    if current.len() > 0 && !numbers.contains(current) {
        numbers.push(current)
    } else {
        numbers
    }
}

/// The values followed by the runs of digits in the text that are new among them.
pub fn with_numbers(values: &Vec<String>, text: &str) -> (r: Vec<String>)
    ensures
        contents::views(r@) == spec_with_numbers(contents::views(values@), text@),
{
    let mut numbers: Vec<String> = text::copy_list(values);
    let mut current: String = String::new();
    let characters: Vec<char> = text::to_chars(text);
    let ghost initial_numbers = contents::views(numbers@);
    let mut i: usize = 0;
    while i < characters.len()
        invariant
            i <= characters@.len(),
            (current@, contents::views(numbers@)) == spec_numbers_within(
                characters@.take(i as int),
                initial_numbers,
            ),
        decreases characters@.len() - i,
    {
        assert(characters@.take(i + 1).drop_last() =~= characters@.take(i as int));
        let c: char = characters[i];
        i = i + 1;
        if text::is_digit(c) {
            current.push(c);
        } else if text::char_count(&current) > 0 {
            if !text::list_has(&numbers, &current) {
                numbers.push(current.clone());
            }
            current = String::new();
        }
    }
    assert(characters@.take(characters@.len() as int) =~= characters@);
    if text::char_count(&current) > 0 && !text::list_has(&numbers, &current) {
        numbers.push(current);
    }
    numbers
}

/// Value of [`extract_all_numbers`].
#[verifier::opaque]
pub open spec fn spec_extract_all_numbers(input: Seq<char>) -> Seq<Seq<char>> {
    let none = Seq::<Seq<char>>::empty();
    spec_with_numbers(none, input)
}

/// The runs of digits in the text, each once.
pub fn extract_all_numbers(input: &str) -> (r: Vec<String>)
    ensures
        contents::views(r@) == spec_extract_all_numbers(input@),
{
    proof {
        reveal(spec_extract_all_numbers);
    }
    let none: Vec<String> = Vec::new();
    with_numbers(&none, input)
}

/// The state of [`corrected_clause_tail`] after the given items.
pub open spec fn spec_final_value_after(
    items: Seq<&str>,
    clause: Seq<char>,
    best: int,
    tail: Seq<char>,
) -> (int, bool, Seq<char>)
    decreases items.len(),
{
    if items.len() == 0 {
        (best, false, tail)
    } else {
        let (best, found, tail) = spec_final_value_after(items.drop_last(), clause, best, tail);
        let marker = items.last()@;
        match text::spec_rfind(clause, marker) {
            Some(index) => {
                if !found || index >= best {
                    let best: int = index;
                    let found = true;
                    let tail = text::spec_skip(text::spec_skip(clause, index), marker.len() as int);
                    (best, found, tail)
                } else {
                    (best, found, tail)
                }
            },
            None => (best, found, tail),
        }
    }
}

/// Value of [`corrected_clause_tail`].
pub open spec fn spec_corrected_clause_tail(clause: Seq<char>) -> Seq<char> {
    let tail = clause;
    let best: int = 0;
    let (best, found, tail) = spec_final_value_after(FINAL_VALUE_MARKERS@, clause, best, tail);
    tail
}

/// What follows the last remark of correction in a sentence; the sentence itself where there is
/// none.
pub fn corrected_clause_tail(clause: &str) -> (r: String)
    ensures
        r@ == spec_corrected_clause_tail(clause@),
{
    let mut tail: String = clause.to_owned();
    let mut best: usize = 0;
    let mut found: bool = false;
    let ghost initial_best = best as int;
    let ghost initial_tail = tail@;
    let mut i: usize = 0;
    while i < FINAL_VALUE_MARKERS.len()
        invariant
            i <= FINAL_VALUE_MARKERS@.len(),
            (best as int, found, tail@) == spec_final_value_after(
                FINAL_VALUE_MARKERS@.take(i as int),
                clause@,
                initial_best,
                initial_tail,
            ),
        decreases FINAL_VALUE_MARKERS@.len() - i,
    {
        assert(FINAL_VALUE_MARKERS@.take(i + 1).drop_last()
            =~= FINAL_VALUE_MARKERS@.take(i as int));
        let marker: &str = FINAL_VALUE_MARKERS[i];
        i = i + 1;
        match text::rfind(clause, marker) {
            Some(index) => {
                if !found || index >= best {
                    best = index;
                    found = true;
                    tail = text::skip(&text::skip(clause, index), text::char_count(marker));
                }
            },
            None => {
            },
        }
    }
    assert(FINAL_VALUE_MARKERS@.take(FINAL_VALUE_MARKERS@.len() as int) =~= FINAL_VALUE_MARKERS@);
    tail
}

/// The state of [`extract_numbers`] after the given items.
pub open spec fn spec_numbers_of_clauses(items: Seq<Seq<char>>) -> Seq<Seq<char>>
    decreases items.len(),
{
    if items.len() == 0 {
        Seq::<Seq<char>>::empty()
    } else {
        let values = spec_numbers_of_clauses(items.drop_last());
        let clause = items.last();
        if !matching::spec_holds_marker(clause, VOID_CLAUSE_MARKERS@) {
            spec_with_numbers(values, spec_corrected_clause_tail(clause))
        } else {
            values
        }
    }
}

/// Value of [`extract_numbers`].
#[verifier::opaque]
pub open spec fn spec_extract_numbers(input: Seq<char>) -> Seq<Seq<char>> {
    spec_numbers_of_clauses(text::spec_split_any(input, "。！？\n;"@))
}

/// The numbers that a request asks for, each once: those of its sentences that are not void,
/// after the last correction in each.
pub fn extract_numbers(input: &str) -> (r: Vec<String>)
    ensures
        contents::views(r@) == spec_extract_numbers(input@),
{
    proof {
        reveal(spec_extract_numbers);
    }
    let mut values: Vec<String> = Vec::new();
    let items: Vec<String> = text::split_any(input, "。！？\n;");
    let mut i: usize = 0;
    while i < items.len()
        invariant
            i <= items@.len(),
            contents::views(values@) == spec_numbers_of_clauses(
                contents::views(items@).take(i as int),
            ),
        decreases items@.len() - i,
    {
        assert(contents::views(items@).take(i + 1).drop_last()
            =~= contents::views(items@).take(i as int));
        let clause: &str = &items[i];
        i = i + 1;
        if !matching::holds_marker(clause, &VOID_CLAUSE_MARKERS) {
            values = with_numbers(&values, &corrected_clause_tail(clause));
        }
    }
    assert(contents::views(items@).take(items@.len() as int) =~= contents::views(items@));
    values
}

/// The condition of [`all_in_list`]: the second list holds every text of the first.
pub open spec fn spec_all_in_list(required: Seq<Seq<char>>, actual: Seq<Seq<char>>) -> bool {
    forall|i: int| #![trigger required[i]] 0 <= i < required.len() ==> actual.contains(required[i])
}

/// Whether the second list holds every text of the first.
pub fn all_in_list(required: &Vec<String>, actual: &Vec<String>) -> (r: bool)
    ensures
        r == spec_all_in_list(contents::views(required@), contents::views(actual@)),
{
    let mut i: usize = 0;
    while i < required.len()
        invariant
            i <= required@.len(),
            forall|j: int|
                #![trigger contents::views(required@)[j]] 0 <= j < i ==> contents::views(actual@).contains(contents::views(required@)[j]),
        decreases required@.len() - i,
    {
        let value: &str = &required[i];
        assert(contents::views(required@)[i as int] == required@[i as int]@);
        if !text::list_has(actual, value) {
            return false;
        }
        i = i + 1;
    }
    true
}

/// The condition of [`reports_fault`]: the sentence only reports a fault that shows at present,
/// and asks for nothing.
#[verifier::opaque]
pub open spec fn spec_reports_fault(clause: Seq<char>) -> bool {
    text::spec_contains(clause, "エラー"@)
        && structure::spec_is_current_state_clause(clause)
        && !structure::spec_is_request_clause(clause)
        && !structure::spec_is_actionable_clause(clause)
}

/// Whether the sentence only reports a fault that shows at present, and asks for nothing.
pub fn reports_fault(clause: &str) -> (r: bool)
    ensures
        r == spec_reports_fault(clause@),
{
    proof {
        reveal(spec_reports_fault);
    }
    text::contains(clause, "エラー")
        && structure::is_current_state_clause(clause)
        && !structure::is_request_clause(clause)
        && !structure::is_actionable_clause(clause)
}

/// The status under which a sentence reports a fault: the three digits right before the word for
/// an error, where it does nothing but report.
#[verifier::opaque]
pub open spec fn spec_fault_status(clause: Seq<char>) -> Option<Seq<char>> {
    match text::spec_split_once(clause, "エラー"@) {
        Some((head, _)) => {
            let before = text::spec_trim_end(head);
            let words = text::spec_trim_end_any(before, "0123456789"@);
            let status = text::spec_skip(before, words.len() as int);
            if spec_reports_fault(clause) && status.len() == 3 {
                Some(status)
            } else {
                None
            }
        },
        None => None,
    }
}

/// The status under which a sentence reports a fault.
pub fn fault_status(clause: &str) -> (r: Option<String>)
    ensures
        contents::view_option(r) == spec_fault_status(clause@),
{
    proof {
        reveal(spec_fault_status);
    }
    let sides: (String, String) = match text::split_once(clause, "エラー") {
        Some(sides) => sides,
        None => {
            return None;
        },
    };
    let before: String = text::trim_end(&sides.0);
    let words: String = text::trim_end_any(&before, "0123456789");
    let status: String = text::skip(&before, text::char_count(&words));
    if reports_fault(clause) && text::char_count(&status) == 3 {
        Some(status)
    } else {
        None
    }
}

/// The condition of [`asks_for_status`]: the sentence says what to do, and names the HTTP status
/// that is to be given.
#[verifier::opaque]
pub open spec fn spec_asks_for_status(clause: Seq<char>) -> bool {
    structure::spec_is_actionable_clause(clause) && terms::spec_http_status_terms(clause).len() > 0
}

/// Whether the sentence says what to do, and names the HTTP status that is to be given.
pub fn asks_for_status(clause: &str) -> (r: bool)
    ensures
        r == spec_asks_for_status(clause@),
{
    proof {
        reveal(spec_asks_for_status);
    }
    let statuses: Vec<String> = terms::http_status_terms(clause);
    assert(contents::views(statuses@).len() == statuses@.len());
    structure::is_actionable_clause(clause) && statuses.len() > 0
}

/// The condition of [`gives_way`]: the number is the status under which a fault is reported and
/// stands in no sentence but such reports, and another sentence asks for a status in its place.
pub open spec fn spec_gives_way(clauses: Seq<Seq<char>>, number: Seq<char>) -> bool {
    &&& exists|i: int|
        #![trigger clauses[i]]
        0 <= i < clauses.len() && spec_fault_status(clauses[i]) == Some(number)
    &&& exists|i: int|
        #![trigger clauses[i]]
        0 <= i < clauses.len() && spec_asks_for_status(clauses[i])
    &&& forall|i: int|
        #![trigger clauses[i]]
        0 <= i < clauses.len() && spec_extract_all_numbers(clauses[i]).contains(number)
            ==> spec_fault_status(clauses[i]) == Some(number)
}

/// Whether the number is the status under which a fault is reported and stands in no sentence but
/// such reports, and another sentence asks for a status in its place.
pub fn gives_way(clauses: &Vec<String>, number: &str) -> (r: bool)
    ensures
        r == spec_gives_way(contents::views(clauses@), number@),
{
    let ghost views = contents::views(clauses@);
    let mut reported: bool = false;
    let mut asked: bool = false;
    let mut i: usize = 0;
    while i < clauses.len()
        invariant
            i <= clauses@.len(),
            views == contents::views(clauses@),
            reported == exists|j: int|
                #![trigger views[j]]
                0 <= j < i && spec_fault_status(views[j]) == Some(number@),
            asked == exists|j: int|
                #![trigger views[j]]
                0 <= j < i && spec_asks_for_status(views[j]),
            forall|j: int|
                #![trigger views[j]]
                0 <= j < i && spec_extract_all_numbers(views[j]).contains(number@)
                    ==> spec_fault_status(views[j]) == Some(number@),
        decreases clauses@.len() - i,
    {
        let clause: &str = &clauses[i];
        assert(views[i as int] == clause@);
        let is_status: bool = match fault_status(clause) {
            Some(status) => text::same(&status, number),
            None => false,
        };
        if is_status {
            reported = true;
        } else if text::list_has(&extract_all_numbers(clause), number) {
            return false;
        }
        if asks_for_status(clause) {
            asked = true;
        }
        i = i + 1;
    }
    reported && asked
}

/// Value of [`requested_numbers`].
#[verifier::opaque]
pub open spec fn spec_requested_numbers(input: Seq<char>) -> Seq<Seq<char>> {
    let clauses = text::spec_split_any(input, "。！？\n;"@);
    spec_extract_numbers(input).filter(|number: Seq<char>| !spec_gives_way(clauses, number))
}

/// The numbers that a shorter version must hold, each once: all that the request asks for, but for
/// the status of a fault that gives way to another. Where a request reports "a 500 error" and asks
/// for "HTTP 400" in its place, a prompt that says 400 alone is complete.
pub fn requested_numbers(input: &str) -> (r: Vec<String>)
    ensures
        contents::views(r@) == spec_requested_numbers(input@),
{
    proof {
        reveal(spec_requested_numbers);
        reveal(Seq::filter);
    }
    let clauses: Vec<String> = text::split_any(input, "。！？\n;");
    let all: Vec<String> = extract_numbers(input);
    let ghost sentences = contents::views(clauses@);
    let ghost stays = |number: Seq<char>| !spec_gives_way(sentences, number);
    let mut values: Vec<String> = Vec::new();
    let mut i: usize = 0;
    while i < all.len()
        invariant
            i <= all@.len(),
            sentences == contents::views(clauses@),
            stays == (|number: Seq<char>| !spec_gives_way(sentences, number)),
            contents::views(values@) == contents::views(all@).take(i as int).filter(stays),
        decreases all@.len() - i,
    {
        proof {
            reveal(Seq::filter);
        }
        assert(contents::views(all@).take(i + 1).drop_last()
            =~= contents::views(all@).take(i as int));
        let number: &str = &all[i];
        i = i + 1;
        if !gives_way(&clauses, number) {
            values.push(number.to_owned());
        }
    }
    assert(contents::views(all@).take(all@.len() as int) =~= contents::views(all@));
    values
}

/// The condition of [`preserves_requested_numbers`]: the output holds every number that a shorter
/// version of the input must hold.
#[verifier::opaque]
pub open spec fn spec_preserves_requested_numbers(input: Seq<char>, output: Seq<char>) -> bool {
    spec_all_in_list(spec_requested_numbers(input), spec_extract_all_numbers(output))
}

/// Whether the output holds every number that a shorter version of the input must hold.
pub fn preserves_requested_numbers(input: &str, output: &str) -> (r: bool)
    ensures
        r == spec_preserves_requested_numbers(input@, output@),
{
    proof {
        reveal(spec_preserves_requested_numbers);
    }
    all_in_list(&requested_numbers(input), &extract_all_numbers(output))
}

/// The digits from one position up to another are a whole number of the text.
pub open spec fn is_number_at(text: Seq<char>, start: int, end: int) -> bool {
    &&& 0 <= start < end <= text.len()
    &&& forall|i: int| start <= i < end ==> text::spec_is_digit(#[trigger] text[i])
    &&& start > 0 ==> !text::spec_is_digit(text[start - 1])
    &&& end < text.len() ==> !text::spec_is_digit(text[end])
}

/// The number stands in the text as a whole.
pub open spec fn is_number_of(text: Seq<char>, number: Seq<char>) -> bool {
    exists|start: int, end: int| #[trigger]
        is_number_at(text, start, end) && text.subrange(start, end) == number
}

/// The digits with which a text ends begin at the position.
spec fn ends_in_digits_from(text: Seq<char>, start: int) -> bool {
    &&& 0 <= start <= text.len()
    &&& forall|i: int| start <= i < text.len() ==> text::spec_is_digit(#[trigger] text[i])
    &&& start > 0 ==> !text::spec_is_digit(text[start - 1])
}

/// A number that ends before the text does is one of a longer text too.
proof fn number_of_longer_text(text: Seq<char>, number: Seq<char>)
    requires
        text.len() > 0,
        exists|start: int, end: int| #[trigger]
            is_number_at(text.drop_last(), start, end) && end < text.len() - 1
                && text.drop_last().subrange(start, end) == number,
    ensures
        exists|start: int, end: int| #[trigger]
            is_number_at(text, start, end) && end < text.len() && text.subrange(start, end)
                == number,
{
    let (start, end) = choose|start: int, end: int| #[trigger]
        is_number_at(text.drop_last(), start, end) && end < text.len() - 1
            && text.drop_last().subrange(start, end) == number;
    assert(text.drop_last()[end] == text[end]);
    assert(is_number_at(text, start, end)) by {
        assert forall|i: int| start <= i < end implies text::spec_is_digit(#[trigger] text[i]) by {
            assert(text.drop_last()[i] == text[i]);
        }
    }
    assert(text.subrange(start, end) =~= number);
}

/// What [`with_numbers`] has gathered after the given text: the digits with which it ends, and the
/// values and numbers that ended before.
proof fn gathered_numbers(text: Seq<char>, values: Seq<Seq<char>>)
    ensures
        ({
            let (current, numbers) = spec_numbers_within(text, values);
            &&& ends_in_digits_from(text, text.len() - current.len())
            &&& text.skip(text.len() - current.len()) == current
            &&& forall|number: Seq<char>| #[trigger]
                numbers.contains(number) <==> values.contains(number) || exists|
                    start: int,
                    end: int,
                | #[trigger]
                    is_number_at(text, start, end) && end < text.len() && text.subrange(start, end)
                        == number
        }),
    decreases text.len(),
{
    let (current, numbers) = spec_numbers_within(text, values);
    if text.len() == 0 {
        assert(text.skip(0) =~= current);
    } else {
        let before = text.drop_last();
        gathered_numbers(before, values);
        let (digits, earlier) = spec_numbers_within(before, values);
        let start = before.len() - digits.len();
        let c = text.last();
        assert forall|i: int| 0 <= i < before.len() implies before[i] == text[i] by {}
        if text::spec_is_digit(c) {
            assert(current == digits.push(c));
            assert(text.skip(start) =~= current) by {
                assert(before.skip(start) == digits);
                assert forall|i: int| 0 <= i < digits.len() implies digits[i] == text[start + i] by {
                    assert(before.skip(start)[i] == before[start + i]);
                }
            }
            assert forall|number: Seq<char>| #[trigger]
                numbers.contains(number) <==> values.contains(number) || exists|
                    start: int,
                    end: int,
                | #[trigger]
                    is_number_at(text, start, end) && end < text.len() && text.subrange(start, end)
                        == number by {
                if exists|start: int, end: int| #[trigger]
                    is_number_at(text, start, end) && end < text.len() && text.subrange(start, end)
                        == number {
                    let (a, b) = choose|start: int, end: int| #[trigger]
                        is_number_at(text, start, end) && end < text.len() && text.subrange(
                            start,
                            end,
                        ) == number;
                    assert(b < before.len());
                    assert(is_number_at(before, a, b));
                    assert(before.subrange(a, b) =~= number);
                }
                if exists|start: int, end: int| #[trigger]
                    is_number_at(before, start, end) && end < before.len() && before.subrange(
                        start,
                        end,
                    ) == number {
                    number_of_longer_text(text, number);
                }
            }
        } else {
            assert(current.len() == 0);
            assert(text.skip(text.len() as int) =~= current);
            if digits.len() > 0 {
                assert(is_number_at(text, start, before.len() as int)) by {
                    assert forall|i: int| start <= i < before.len() implies text::spec_is_digit(
                        #[trigger] text[i],
                    ) by {
                        assert(before[i] == text[i]);
                    }
                }
                assert(text.subrange(start, before.len() as int) =~= digits) by {
                    assert(before.skip(start) == digits);
                    assert forall|i: int| 0 <= i < digits.len() implies digits[i] == text[start
                        + i] by {
                        assert(before.skip(start)[i] == before[start + i]);
                    }
                }
            }
            assert forall|number: Seq<char>| #[trigger]
                numbers.contains(number) <==> values.contains(number) || exists|
                    start: int,
                    end: int,
                | #[trigger]
                    is_number_at(text, start, end) && end < text.len() && text.subrange(start, end)
                        == number by {
                assert(numbers.contains(number) <==> earlier.contains(number) || (digits.len() > 0
                    && number == digits)) by {
                    if digits.len() > 0 && !earlier.contains(digits) {
                        assert(numbers == earlier.push(digits));
                        assert(numbers.last() == digits);
                        if earlier.contains(number) {
                            let k = choose|k: int|
                                0 <= k < earlier.len() && #[trigger] earlier[k] == number;
                            assert(numbers[k] == number);
                        }
                        if numbers.contains(number) && number != digits {
                            let k = choose|k: int|
                                0 <= k < numbers.len() && #[trigger] numbers[k] == number;
                            assert(earlier[k] == number);
                        }
                    }
                }
                if exists|start: int, end: int| #[trigger]
                    is_number_at(text, start, end) && end < text.len() && text.subrange(start, end)
                        == number {
                    let (a, b) = choose|start: int, end: int| #[trigger]
                        is_number_at(text, start, end) && end < text.len() && text.subrange(
                            start,
                            end,
                        ) == number;
                    if b < before.len() {
                        assert(is_number_at(before, a, b));
                        assert(before.subrange(a, b) =~= number);
                    } else {
                        if a < start {
                            assert(!text::spec_is_digit(before[start - 1]));
                            assert(text::spec_is_digit(text[start - 1]));
                        }
                        if start < a {
                            assert(text::spec_is_digit(before[a - 1]));
                        }
                        assert(a == start);
                    }
                }
                if exists|start: int, end: int| #[trigger]
                    is_number_at(before, start, end) && end < before.len() && before.subrange(
                        start,
                        end,
                    ) == number {
                    number_of_longer_text(text, number);
                }
            }
        }
    }
}

/// The numbers of a text join the values, and nothing else does.
pub proof fn numbers_join_the_values(values: Seq<Seq<char>>, text: Seq<char>, number: Seq<char>)
    ensures
        spec_with_numbers(values, text).contains(number) <==> values.contains(number)
            || is_number_of(text, number),
{
    gathered_numbers(text, values);
    let (current, numbers) = spec_numbers_within(text, values);
    let all = spec_with_numbers(values, text);
    let start = text.len() - current.len();
    if current.len() > 0 {
        assert(is_number_at(text, start, text.len() as int));
        assert(text.subrange(start, text.len() as int) =~= current) by {
            assert(text.skip(start) =~= text.subrange(start, text.len() as int));
        }
    }
    assert(all.contains(number) <==> numbers.contains(number) || (current.len() > 0 && number
        == current)) by {
        if current.len() > 0 && !numbers.contains(current) {
            assert(all == numbers.push(current));
            assert(all.last() == current);
            if numbers.contains(number) {
                let k = choose|k: int| 0 <= k < numbers.len() && #[trigger] numbers[k] == number;
                assert(all[k] == number);
            }
            if all.contains(number) && number != current {
                let k = choose|k: int| 0 <= k < all.len() && #[trigger] all[k] == number;
                assert(numbers[k] == number);
            }
        }
    }
    if is_number_of(text, number) {
        let (a, b) = choose|start: int, end: int| #[trigger]
            is_number_at(text, start, end) && text.subrange(start, end) == number;
        if b == text.len() {
            if a < start {
                assert(text::spec_is_digit(text[start - 1]));
            }
            if start < a {
                assert(text::spec_is_digit(text[a - 1]));
            }
            assert(a == start);
        }
    }
}

/// The numbers that are taken out of a text are those that stand in it as a whole.
pub proof fn extracted_numbers_are_those_of_the_text(text: Seq<char>, number: Seq<char>)
    ensures
        spec_extract_all_numbers(text).contains(number) <==> is_number_of(text, number),
{
    reveal(spec_extract_all_numbers);
    numbers_join_the_values(Seq::empty(), text, number);
}

/// A part of the text, from one position up to another, that no digits reach into or out of.
spec fn lies_between_numbers(text: Seq<char>, start: int, end: int) -> bool {
    &&& 0 <= start <= end <= text.len()
    &&& start > 0 ==> !text::spec_is_digit(text[start - 1])
    &&& end < text.len() ==> !text::spec_is_digit(text[end])
}

/// The numbers of such a part are numbers of the text.
proof fn part_has_numbers_of_the_text(text: Seq<char>, start: int, end: int, number: Seq<char>)
    requires
        lies_between_numbers(text, start, end),
        is_number_of(text.subrange(start, end), number),
    ensures
        is_number_of(text, number),
{
    let part = text.subrange(start, end);
    let (a, b) = choose|a: int, b: int| #[trigger]
        is_number_at(part, a, b) && part.subrange(a, b) == number;
    assert(is_number_at(text, start + a, start + b)) by {
        assert forall|i: int| start + a <= i < start + b implies text::spec_is_digit(
            #[trigger] text[i],
        ) by {
            assert(part[i - start] == text[i]);
        }
        if a > 0 {
            assert(part[a - 1] == text[start + a - 1]);
        }
        if b < part.len() {
            assert(part[b] == text[start + b]);
        }
    }
    assert(text.subrange(start + a, start + b) =~= number);
}

/// The separators of sentences are no digits.
proof fn sentences_end_without_digits()
    ensures
        forall|c: char| #[trigger] "。！？\n;"@.contains(c) ==> !text::spec_is_digit(c),
{
    reveal_strlit("。！？\n;");
}

/// Remarks of correction do not end in a digit.
proof fn remarks_end_without_digits()
    ensures
        forall|i: int|
            #![trigger FINAL_VALUE_MARKERS@[i]]
            0 <= i < FINAL_VALUE_MARKERS@.len() ==> FINAL_VALUE_MARKERS@[i]@.len() > 0
                && !text::spec_is_digit(FINAL_VALUE_MARKERS@[i]@.last()),
{
    reveal_strlit("最終的には");
    reveal_strlit("最終的に");
    reveal_strlit("正しくは");
    reveal_strlit("ここは");
    reveal_strlit("ではなく");
}

/// What follows the last remark of correction reaches to the end of the sentence, and no digits
/// reach into it.
proof fn corrected_tail_has_its_place(items: Seq<&str>, clause: Seq<char>) -> (start: int)
    requires
        forall|i: int|
            #![trigger items[i]]
            0 <= i < items.len() ==> items[i]@.len() > 0 && !text::spec_is_digit(items[i]@.last()),
    ensures
        lies_between_numbers(clause, start, clause.len() as int),
        spec_final_value_after(items, clause, 0, clause).2 == clause.subrange(
            start,
            clause.len() as int,
        ),
    decreases items.len(),
{
    if items.len() == 0 {
        assert(clause.subrange(0, clause.len() as int) =~= clause);
        0
    } else {
        let earlier = items.drop_last();
        assert forall|i: int| #![trigger earlier[i]] 0 <= i < earlier.len() implies earlier[i]@.len()
            > 0 && !text::spec_is_digit(earlier[i]@.last()) by {
            assert(earlier[i] == items[i]);
        }
        let start = corrected_tail_has_its_place(earlier, clause);
        let marker = items.last()@;
        assert(items[items.len() - 1] == items.last());
        let (best, found, tail) = spec_final_value_after(earlier, clause, 0, clause);
        text::lemma_rfind_from(clause, marker, clause.len() as int);
        match text::spec_rfind(clause, marker) {
            Some(index) => {
                if !found || index >= best {
                    let after = index + marker.len();
                    assert(text::occurs_at(clause, marker, index));
                    assert(clause.subrange(index, after)[marker.len() - 1] == marker.last());
                    let rest = text::spec_skip(text::spec_skip(clause, index), marker.len() as int);
                    assert(rest =~= clause.subrange(after, clause.len() as int));
                    after
                } else {
                    start
                }
            },
            None => start,
        }
    }
}

/// The numbers of a corrected sentence are numbers of the text that holds the sentence.
proof fn corrected_numbers_are_those_of_the_text(input: Seq<char>, k: int, number: Seq<char>)
    requires
        0 <= k < text::spec_split_any(input, "。！？\n;"@).len(),
        is_number_of(
            spec_corrected_clause_tail(text::spec_split_any(input, "。！？\n;"@)[k]),
            number,
        ),
    ensures
        is_number_of(input, number),
{
    let clause = text::spec_split_any(input, "。！？\n;"@)[k];
    sentences_end_without_digits();
    remarks_end_without_digits();
    let (start, end) = text::piece_has_its_place(input, "。！？\n;"@, k);
    let inner = corrected_tail_has_its_place(FINAL_VALUE_MARKERS@, clause);
    part_has_numbers_of_the_text(clause, inner, clause.len() as int, number);
    part_has_numbers_of_the_text(input, start, end, number);
}

/// The numbers gathered from sentences are numbers of the text that holds them.
proof fn requested_numbers_stand_in_the_text(input: Seq<char>, n: int, number: Seq<char>)
    requires
        0 <= n <= text::spec_split_any(input, "。！？\n;"@).len(),
    ensures
        spec_numbers_of_clauses(text::spec_split_any(input, "。！？\n;"@).take(n)).contains(number)
            ==> is_number_of(input, number),
    decreases n,
{
    let clauses = text::spec_split_any(input, "。！？\n;"@);
    if n > 0 {
        requested_numbers_stand_in_the_text(input, n - 1, number);
        assert(clauses.take(n).drop_last() =~= clauses.take(n - 1));
        let tail = spec_corrected_clause_tail(clauses[n - 1]);
        numbers_join_the_values(
            spec_numbers_of_clauses(clauses.take(n - 1)),
            tail,
            number,
        );
        if is_number_of(tail, number) {
            corrected_numbers_are_those_of_the_text(input, n - 1, number);
        }
    }
}

/// What stays of a list after some of its texts were taken out stood in it.
proof fn kept_texts_were_listed(
    list: Seq<Seq<char>>,
    stays: spec_fn(Seq<char>) -> bool,
    text: Seq<char>,
)
    ensures
        list.filter(stays).contains(text) <==> list.contains(text) && stays(text),
    decreases list.len(),
{
    reveal(Seq::filter);
    if list.len() > 0 {
        let earlier = list.drop_last();
        let before = earlier.filter(stays);
        let kept = list.filter(stays);
        kept_texts_were_listed(earlier, stays, text);
        assert(list.contains(text) <==> earlier.contains(text) || text == list.last()) by {
            if earlier.contains(text) {
                let k = choose|k: int| 0 <= k < earlier.len() && earlier[k] == text;
                assert(list[k] == text);
            }
            if list.contains(text) && text != list.last() {
                let k = choose|k: int| 0 <= k < list.len() && list[k] == text;
                assert(earlier[k] == text);
            }
            assert(list[list.len() - 1] == list.last());
        }
        if stays(list.last()) {
            assert(kept == before.push(list.last()));
            assert(kept[kept.len() - 1] == list.last());
            if before.contains(text) {
                let k = choose|k: int| 0 <= k < before.len() && before[k] == text;
                assert(kept[k] == text);
            }
            if kept.contains(text) && text != list.last() {
                let k = choose|k: int| 0 <= k < kept.len() && kept[k] == text;
                assert(before[k] == text);
            }
        }
    }
}

/// A shorter version must hold every number that the request asks for, and no other, but for the
/// status of a fault that gives way to the one that is asked for.
pub proof fn numbers_are_requested_unless_they_give_way(input: Seq<char>, number: Seq<char>)
    ensures
        spec_requested_numbers(input).contains(number) <==> spec_extract_numbers(input).contains(
            number,
        ) && !spec_gives_way(text::spec_split_any(input, "。！？\n;"@), number),
{
    reveal(spec_requested_numbers);
    let clauses = text::spec_split_any(input, "。！？\n;"@);
    kept_texts_were_listed(
        spec_extract_numbers(input),
        |number: Seq<char>| !spec_gives_way(clauses, number),
        number,
    );
}

/// The numbers that a shorter version must hold stand in the request.
pub proof fn requested_numbers_are_those_of_the_text(input: Seq<char>, number: Seq<char>)
    requires
        spec_requested_numbers(input).contains(number),
    ensures
        is_number_of(input, number),
{
    reveal(spec_extract_numbers);
    numbers_are_requested_unless_they_give_way(input, number);
    let clauses = text::spec_split_any(input, "。！？\n;"@);
    requested_numbers_stand_in_the_text(input, clauses.len() as int, number);
    assert(clauses.take(clauses.len() as int) =~= clauses);
}

/// A request that is left as it is keeps its numbers.
pub proof fn requests_keep_their_own_numbers(input: Seq<char>)
    ensures
        spec_preserves_requested_numbers(input, input),
{
    reveal(spec_preserves_requested_numbers);
    let required = spec_requested_numbers(input);
    assert forall|i: int| #![trigger required[i]] 0 <= i < required.len() implies
        spec_extract_all_numbers(input).contains(required[i]) by {
        requested_numbers_are_those_of_the_text(input, required[i]);
        extracted_numbers_are_those_of_the_text(input, required[i]);
    }
}

/// A number of a text is one of a longer text too, where no digit goes on from the end of the text.
proof fn number_of_grown_text(text: Seq<char>, more: Seq<char>, number: Seq<char>)
    requires
        text.len() == 0 || more.len() == 0 || !text::spec_is_digit(text.last())
            || !text::spec_is_digit(more[0]),
        is_number_of(text, number),
    ensures
        is_number_of(text + more, number),
{
    let (start, end) = choose|start: int, end: int| #[trigger]
        is_number_at(text, start, end) && text.subrange(start, end) == number;
    let whole = text + more;
    assert(is_number_at(whole, start, end)) by {
        assert forall|i: int| start <= i < end implies text::spec_is_digit(#[trigger] whole[i]) by {
            assert(whole[i] == text[i]);
        }
        if end < text.len() {
            assert(whole[end] == text[end]);
        } else if more.len() > 0 {
            assert(text::spec_is_digit(text[end - 1]));
            assert(whole[end] == more[0]);
        }
    }
    assert(whole.subrange(start, end) =~= number);
}

/// An output that grows loses no number, as long as no digit goes on from its end: it keeps the
/// numbers of the request still.
pub proof fn grown_outputs_keep_their_numbers(
    input: Seq<char>,
    output: Seq<char>,
    more: Seq<char>,
)
    requires
        spec_preserves_requested_numbers(input, output),
        output.len() == 0 || more.len() == 0 || !text::spec_is_digit(output.last())
            || !text::spec_is_digit(more[0]),
    ensures
        spec_preserves_requested_numbers(input, output + more),
{
    reveal(spec_preserves_requested_numbers);
    let required = spec_requested_numbers(input);
    assert forall|i: int| #![trigger required[i]] 0 <= i < required.len() implies
        spec_extract_all_numbers(output + more).contains(required[i]) by {
        assert(spec_extract_all_numbers(output).contains(required[i]));
        extracted_numbers_are_those_of_the_text(output, required[i]);
        number_of_grown_text(output, more, required[i]);
        extracted_numbers_are_those_of_the_text(output + more, required[i]);
    }
}

/// An output keeps the numbers of a request exactly where each of those that a shorter version must
/// hold stands in it as a whole.
pub proof fn kept_numbers_stand_in_the_output(input: Seq<char>, output: Seq<char>)
    ensures
        spec_preserves_requested_numbers(input, output) <==> forall|k: int|
            0 <= k < spec_requested_numbers(input).len() ==> is_number_of(
                output,
                #[trigger] spec_requested_numbers(input)[k],
            ),
{
    reveal(spec_preserves_requested_numbers);
    let required = spec_requested_numbers(input);
    assert forall|k: int| 0 <= k < required.len() implies (spec_extract_all_numbers(output).contains(
        #[trigger] required[k],
    ) <==> is_number_of(output, required[k])) by {
        extracted_numbers_are_those_of_the_text(output, required[k]);
    }
}

/// The clause declares itself void.
pub open spec fn is_void(clause: Seq<char>) -> bool {
    ||| text::spec_contains(clause, "関係ありません"@)
    ||| text::spec_contains(clause, "関係ない"@)
    ||| text::spec_contains(clause, "意味ない"@)
    ||| text::spec_contains(clause, "無視してください"@)
    ||| text::spec_contains(clause, "タッチミス"@)
}

/// The phrase announces the final value of a correction.
pub open spec fn announces_final_value(phrase: Seq<char>) -> bool {
    ||| phrase == "最終的には"@
    ||| phrase == "最終的に"@
    ||| phrase == "正しくは"@
    ||| phrase == "ここは"@
    ||| phrase == "ではなく"@
}

/// The latest phrase of a list that a clause holds, and what follows it.
proof fn last_phrase_counts(items: Seq<&str>, clause: Seq<char>)
    ensures
        ({
            let (best, found, tail) = spec_final_value_after(items, clause, 0, clause);
            &&& found ==> exists|k: int|
                0 <= k < items.len() && text::occurs_at(clause, (#[trigger] items[k])@, best)
                    && tail == clause.skip(best + items[k]@.len())
            &&& !found ==> tail == clause
            &&& forall|k: int, i: int|
                #![trigger text::occurs_at(clause, items[k]@, i)]
                0 <= k < items.len() && text::occurs_at(clause, items[k]@, i) ==> found && i <= best
        }),
    decreases items.len(),
{
    if items.len() > 0 {
        let before = items.drop_last();
        let marker = items.last()@;
        last_phrase_counts(before, clause);
        let (earlier, was_found, _) = spec_final_value_after(before, clause, 0, clause);
        let (best, found, tail) = spec_final_value_after(items, clause, 0, clause);
        text::lemma_rfind_from(clause, marker, clause.len() as int);
        let last = items.len() - 1;
        assert(items[last]@ == marker);
        if was_found {
            let k = choose|k: int|
                0 <= k < before.len() && text::occurs_at(clause, (#[trigger] before[k])@, earlier)
                    && spec_final_value_after(before, clause, 0, clause).2 == clause.skip(
                    earlier + before[k]@.len(),
                );
            assert(items[k] == before[k]);
        }
        match text::spec_rfind(clause, marker) {
            Some(index) => {
                assert(text::spec_skip(text::spec_skip(clause, index), marker.len() as int)
                    =~= clause.skip(index + marker.len()));
            },
            None => {},
        }
        assert forall|k: int, i: int|
            #![trigger text::occurs_at(clause, items[k]@, i)]
            0 <= k < items.len() && text::occurs_at(clause, items[k]@, i) implies found && i
            <= best by {
            if k < last {
                assert(before[k] == items[k]);
                assert(text::occurs_at(clause, before[k]@, i));
            } else {
                assert(text::occurs_at(clause, marker, i));
            }
        }
    }
}

/// The final value of a clause stands behind the last phrase that announces one: what is looked at
/// follows such a phrase and holds none itself. It is the whole clause where that holds none.
pub proof fn final_values_follow_the_last_phrase(clause: Seq<char>)
    ensures
        ({
            let tail = spec_corrected_clause_tail(clause);
            &&& tail == clause || exists|before: Seq<char>, phrase: Seq<char>|
                announces_final_value(phrase) && clause == #[trigger] (before + phrase + tail)
            &&& forall|phrase: Seq<char>| #[trigger]
                announces_final_value(phrase) ==> !text::spec_contains(tail, phrase)
        }),
{
    let markers = FINAL_VALUE_MARKERS@;
    assert(markers[0]@ == "最終的には"@);
    assert(markers[1]@ == "最終的に"@);
    assert(markers[2]@ == "正しくは"@);
    assert(markers[3]@ == "ここは"@);
    assert(markers[4]@ == "ではなく"@);
    last_phrase_counts(markers, clause);
    let (best, found, tail) = spec_final_value_after(markers, clause, 0, clause);
    if found {
        let k = choose|k: int|
            0 <= k < markers.len() && text::occurs_at(clause, (#[trigger] markers[k])@, best) && tail
                == clause.skip(best + markers[k]@.len());
        let phrase = markers[k]@;
        assert(announces_final_value(phrase));
        assert(clause.subrange(best, best + phrase.len()) == phrase);
        assert(clause =~= clause.take(best) + clause.subrange(best, best + phrase.len()) + tail);
        assert(clause == clause.take(best) + phrase + tail);
        let place = phrase_has_its_place(phrase);
        assert(clause.len() - tail.len() > best);
    }
    assert forall|phrase: Seq<char>| #[trigger] announces_final_value(phrase) implies
        !text::spec_contains(tail, phrase) by {
        if text::spec_contains(tail, phrase) {
            let i = choose|i: int| #[trigger] text::occurs_at(tail, phrase, i);
            let place = clause.len() - tail.len() + i;
            assert(clause.subrange(place, place + phrase.len()) =~= tail.subrange(
                i,
                i + phrase.len(),
            ));
            assert(text::occurs_at(clause, phrase, place));
            let k = phrase_has_its_place(phrase);
            assert(text::occurs_at(clause, markers[k]@, place));
        }
    }
}

/// A phrase that announces a final value is one of those that are looked for.
proof fn phrase_has_its_place(phrase: Seq<char>) -> (k: int)
    requires
        announces_final_value(phrase),
    ensures
        0 <= k < FINAL_VALUE_MARKERS@.len(),
        FINAL_VALUE_MARKERS@[k]@ == phrase,
        phrase.len() > 0,
{
    reveal_strlit("最終的には");
    reveal_strlit("最終的に");
    reveal_strlit("正しくは");
    reveal_strlit("ここは");
    reveal_strlit("ではなく");
    assert(FINAL_VALUE_MARKERS@[0]@ == "最終的には"@);
    assert(FINAL_VALUE_MARKERS@[1]@ == "最終的に"@);
    assert(FINAL_VALUE_MARKERS@[2]@ == "正しくは"@);
    assert(FINAL_VALUE_MARKERS@[3]@ == "ここは"@);
    assert(FINAL_VALUE_MARKERS@[4]@ == "ではなく"@);
    if phrase == "最終的には"@ {
        0
    } else if phrase == "最終的に"@ {
        1
    } else if phrase == "正しくは"@ {
        2
    } else if phrase == "ここは"@ {
        3
    } else {
        4
    }
}

/// The numbers that are taken out of a request are those that stand, in a clause that does not
/// declare itself void, behind the last phrase that announces a final value.
pub proof fn extracted_numbers_are_those_of_the_clauses(input: Seq<char>, number: Seq<char>)
    ensures
        spec_extract_numbers(input).contains(number) <==> exists|k: int|
            0 <= k < text::spec_split_any(input, "。！？\n;"@).len() && !is_void(
                #[trigger] text::spec_split_any(input, "。！？\n;"@)[k],
            ) && is_number_of(
                spec_corrected_clause_tail(text::spec_split_any(input, "。！？\n;"@)[k]),
                number,
            ),
{
    reveal(spec_extract_numbers);
    numbers_of_clauses(text::spec_split_any(input, "。！？\n;"@), number);
}

/// The numbers of clauses.
proof fn numbers_of_clauses(items: Seq<Seq<char>>, number: Seq<char>)
    ensures
        spec_numbers_of_clauses(items).contains(number) <==> exists|k: int|
            0 <= k < items.len() && !is_void(#[trigger] items[k]) && is_number_of(
                spec_corrected_clause_tail(items[k]),
                number,
            ),
    decreases items.len(),
{
    if items.len() > 0 {
        let before = items.drop_last();
        let clause = items.last();
        numbers_of_clauses(before, number);
        let values = spec_numbers_of_clauses(before);
        void_clauses_are_marked(clause);
        numbers_join_the_values(values, spec_corrected_clause_tail(clause), number);
        assert(items[items.len() - 1] == clause);
        if exists|k: int|
            0 <= k < before.len() && !is_void(#[trigger] before[k]) && is_number_of(
                spec_corrected_clause_tail(before[k]),
                number,
            ) {
            let k = choose|k: int|
                0 <= k < before.len() && !is_void(#[trigger] before[k]) && is_number_of(
                    spec_corrected_clause_tail(before[k]),
                    number,
                );
            assert(items[k] == before[k]);
        }
        if exists|k: int|
            0 <= k < items.len() && !is_void(#[trigger] items[k]) && is_number_of(
                spec_corrected_clause_tail(items[k]),
                number,
            ) {
            let k = choose|k: int|
                0 <= k < items.len() && !is_void(#[trigger] items[k]) && is_number_of(
                    spec_corrected_clause_tail(items[k]),
                    number,
                );
            if k < before.len() {
                assert(before[k] == items[k]);
            }
        }
    } else {
        assert(!spec_numbers_of_clauses(items).contains(number));
    }
}

/// A clause declares itself void by the words that are looked for.
proof fn void_clauses_are_marked(clause: Seq<char>)
    ensures
        matching::spec_holds_marker(clause, VOID_CLAUSE_MARKERS@) <==> is_void(clause),
{
    assert(VOID_CLAUSE_MARKERS@[0]@ == "関係ありません"@);
    assert(VOID_CLAUSE_MARKERS@[1]@ == "関係ない"@);
    assert(VOID_CLAUSE_MARKERS@[2]@ == "意味ない"@);
    assert(VOID_CLAUSE_MARKERS@[3]@ == "無視してください"@);
    assert(VOID_CLAUSE_MARKERS@[4]@ == "タッチミス"@);
}

} // verus!
