//! An estimate of the tokens in a text that needs no tokenizer.
use vstd::prelude::*;
use crate::runtime::matching;
use crate::text;

verus! {

/// Kinds of characters that form runs.
#[derive(Debug, Clone, Copy, PartialEq, Eq, Structural)]
pub enum RunKind {
    Japanese,
    Latin,
    Number,
}

/// The kind of run that a character belongs to, if any.
pub open spec fn spec_run_kind(c: char) -> Option<RunKind> {
    if matching::spec_is_japanese_character(c) {
        Some(RunKind::Japanese)
    } else if text::spec_is_alpha(c) || c == '_' {
        Some(RunKind::Latin)
    } else if text::spec_is_digit(c) {
        Some(RunKind::Number)
    } else {
        None
    }
}

/// The kind of run that a character belongs to, if any.
pub fn run_kind(c: char) -> (r: Option<RunKind>)
    ensures
        r == spec_run_kind(c),
{
    if matching::is_japanese_character(c) {
        Some(RunKind::Japanese)
    } else if text::is_alpha(c) || c == '_' {
        Some(RunKind::Latin)
    } else if text::is_digit(c) {
        Some(RunKind::Number)
    } else {
        None
    }
}

/// The position after the run of the kind that goes on at a position.
pub open spec fn run_end(text: Seq<char>, kind: RunKind, i: int) -> int
    decreases text.len() - i,
{
    if 0 <= i < text.len() && spec_run_kind(text[i]) == Some(kind) {
        run_end(text, kind, i + 1)
    } else {
        i
    }
}

/// The tokens of a run: two for three Japanese characters, one for four letters, one for three
/// digits, rounded up.
pub open spec fn run_tokens(kind: RunKind, length: int) -> int {
    match kind {
        RunKind::Japanese => (2 * length + 2) / 3,
        RunKind::Latin => (length + 3) / 4,
        RunKind::Number => (length + 2) / 3,
    }
}

/// The tokens of a text from a position on: those of its runs, and one for each other character
/// that is not white space.
pub open spec fn tokens_from(text: Seq<char>, i: int) -> int
    decreases text.len() - i,
    via tokens_from_decreases
{
    if i < 0 || i >= text.len() {
        0
    } else {
        match spec_run_kind(text[i]) {
            Some(kind) => run_tokens(kind, run_end(text, kind, i) - i) + tokens_from(
                text,
                run_end(text, kind, i),
            ),
            None => (if text::spec_is_whitespace(text[i]) {
                0int
            } else {
                1int
            }) + tokens_from(text, i + 1),
        }
    }
}

#[via_fn]
proof fn tokens_from_decreases(text: Seq<char>, i: int) {
    if 0 <= i < text.len() {
        match spec_run_kind(text[i]) {
            Some(kind) => {
                run_goes_on(text, kind, i + 1);
            },
            None => {},
        }
    }
}

/// A run ends at or after the position that it is looked at from.
proof fn run_goes_on(text: Seq<char>, kind: RunKind, i: int)
    requires
        0 <= i <= text.len(),
    ensures
        i <= run_end(text, kind, i) <= text.len(),
    decreases text.len() - i,
{
    if i < text.len() && spec_run_kind(text[i]) == Some(kind) {
        run_goes_on(text, kind, i + 1);
    }
}

/// The estimated tokens of a text: none where it is blank, at least one where it is not.
pub open spec fn spec_estimate(input: Seq<char>) -> int {
    let trimmed = text::spec_trim(input);
    if trimmed.len() == 0 {
        0
    } else {
        let tokens = tokens_from(trimmed, 0);
        if tokens < 1 {
            1
        } else {
            tokens
        }
    }
}

/// A text has no more tokens than characters.
proof fn tokens_are_bounded(text: Seq<char>, i: int)
    requires
        0 <= i <= text.len(),
    ensures
        0 <= tokens_from(text, i) <= text.len() - i,
    decreases text.len() - i,
{
    if i < text.len() {
        match spec_run_kind(text[i]) {
            Some(kind) => {
                run_goes_on(text, kind, i + 1);
                tokens_are_bounded(text, run_end(text, kind, i));
            },
            None => {
                tokens_are_bounded(text, i + 1);
            },
        }
    }
}

/// The tokens of a run.
fn tokens_of_run(kind: RunKind, length: usize) -> (r: usize)
    requires
        length > 0,
    ensures
        r == run_tokens(kind, length as int),
        r <= length,
{
    match kind {
        RunKind::Japanese => length - length / 3,
        RunKind::Latin => (length - 1) / 4 + 1,
        RunKind::Number => (length - 1) / 3 + 1,
    }
}

/// Estimates tokens from the kinds of characters alone.
#[derive(Debug, Clone, Copy)]
pub struct SimpleTokenEstimator;

impl Default for SimpleTokenEstimator {
    fn default() -> (r: Self) {
        SimpleTokenEstimator
    }
}

impl SimpleTokenEstimator {
    /// The estimated tokens of a text. All tokenizers are estimated alike.
    pub fn estimate(&self, input: &str, _tokenizer_profile: &str) -> (r: usize)
        ensures
            r == spec_estimate(input@),
    {
        let trimmed: Vec<char> = text::to_chars(&text::trim(input));
        if trimmed.len() == 0 {
            return 0;
        }
        let mut tokens: usize = 0;
        let mut i: usize = 0;
        while i < trimmed.len()
            invariant
                trimmed@ == text::spec_trim(input@),
                i <= trimmed@.len(),
                tokens <= i,
                tokens_from(trimmed@, 0) == tokens + tokens_from(trimmed@, i as int),
            decreases trimmed@.len() - i,
        {
            match run_kind(trimmed[i]) {
                Some(kind) => {
                    let start: usize = i;
                    proof {
                        run_goes_on(trimmed@, kind, i + 1);
                    }
                    i = i + 1;
                    while i < trimmed.len() && run_kind(trimmed[i]) == Some(kind)
                        invariant
                            start < i <= trimmed@.len(),
                            run_end(trimmed@, kind, start as int) == run_end(
                                trimmed@,
                                kind,
                                i as int,
                            ),
                        decreases trimmed@.len() - i,
                    {
                        i = i + 1;
                    }
                    tokens = tokens + tokens_of_run(kind, i - start);
                },
                None => {
                    if !text::is_whitespace(trimmed[i]) {
                        tokens = tokens + 1;
                    }
                    i = i + 1;
                },
            }
        }
        if tokens < 1 {
            1
        } else {
            tokens
        }
    }
}

/// A blank text has no tokens. Any other has at least one, and no more than it has characters.
pub proof fn estimate_is_bounded(input: Seq<char>)
    ensures
        spec_estimate(input) == 0 <==> text::spec_trim(input).len() == 0,
        text::spec_trim(input).len() > 0 ==> 1 <= spec_estimate(input) <= text::spec_trim(
            input,
        ).len(),
{
    if text::spec_trim(input).len() > 0 {
        tokens_are_bounded(text::spec_trim(input), 0);
    }
}

/// A run of the first text ends where white space follows it.
proof fn run_ends_at_white_space(
    first: Seq<char>,
    space: char,
    second: Seq<char>,
    kind: RunKind,
    i: int,
)
    requires
        text::spec_is_whitespace(space),
        0 <= i <= first.len(),
    ensures
        run_end(first.push(space) + second, kind, i) == run_end(first, kind, i),
    decreases first.len() - i,
{
    let whole = first.push(space) + second;
    if i < first.len() {
        assert(whole[i] == first[i]);
        if spec_run_kind(first[i]) == Some(kind) {
            run_ends_at_white_space(first, space, second, kind, i + 1);
        }
    } else {
        assert(whole[i] == space);
    }
}

/// The runs at the end of a text are those of the end alone.
proof fn run_of_an_end(start: Seq<char>, end: Seq<char>, kind: RunKind, i: int)
    requires
        0 <= i <= end.len(),
    ensures
        run_end(start + end, kind, start.len() + i) == start.len() + run_end(end, kind, i),
    decreases end.len() - i,
{
    if i < end.len() {
        assert((start + end)[start.len() + i] == end[i]);
        if spec_run_kind(end[i]) == Some(kind) {
            run_of_an_end(start, end, kind, i + 1);
        }
    }
}

/// The tokens from a position on, where no run reaches back over it, are those of the end alone.
proof fn tokens_of_an_end(start: Seq<char>, end: Seq<char>, i: int)
    requires
        0 <= i <= end.len(),
    ensures
        tokens_from(start + end, start.len() + i) == tokens_from(end, i),
    decreases end.len() - i,
{
    if i < end.len() {
        assert((start + end)[start.len() + i] == end[i]);
        match spec_run_kind(end[i]) {
            Some(kind) => {
                run_of_an_end(start, end, kind, i);
                run_goes_on(end, kind, i + 1);
                tokens_of_an_end(start, end, run_end(end, kind, i));
            },
            None => {
                tokens_of_an_end(start, end, i + 1);
            },
        }
    }
}

/// The tokens of two texts with white space between them are those of both.
proof fn tokens_add_up(first: Seq<char>, space: char, second: Seq<char>, i: int)
    requires
        text::spec_is_whitespace(space),
        0 <= i <= first.len(),
    ensures
        tokens_from(first.push(space) + second, i) == tokens_from(first, i) + tokens_from(
            second,
            0,
        ),
    decreases first.len() - i,
{
    let whole = first.push(space) + second;
    if i < first.len() {
        assert(whole[i] == first[i]);
        match spec_run_kind(first[i]) {
            Some(kind) => {
                run_ends_at_white_space(first, space, second, kind, i);
                run_goes_on(first, kind, i + 1);
                tokens_add_up(first, space, second, run_end(first, kind, i));
            },
            None => {
                tokens_add_up(first, space, second, i + 1);
            },
        }
    } else {
        assert(whole[i] == space);
        assert(spec_run_kind(space) is None);
        tokens_of_an_end(first.push(space), second, 0);
    }
}

/// White space at the start of a text has no tokens.
proof fn start_has_no_tokens(input: Seq<char>)
    ensures
        tokens_from(text::spec_trim_start(input), 0) == tokens_from(input, 0),
    decreases input.len(),
{
    if input.len() > 0 && text::spec_is_whitespace(input.first()) {
        let nothing = Seq::<char>::empty();
        start_has_no_tokens(input.drop_first());
        tokens_add_up(nothing, input.first(), input.drop_first(), 0);
        assert(nothing.push(input.first()) + input.drop_first() =~= input);
    }
}

/// White space at the end of a text has no tokens.
proof fn end_has_no_tokens(input: Seq<char>)
    ensures
        tokens_from(text::spec_trim_end(input), 0) == tokens_from(input, 0),
    decreases input.len(),
{
    if input.len() > 0 && text::spec_is_whitespace(input.last()) {
        let nothing = Seq::<char>::empty();
        end_has_no_tokens(input.drop_last());
        tokens_add_up(input.drop_last(), input.last(), nothing, 0);
        assert(input.drop_last().push(input.last()) + nothing =~= input);
    }
}

/// The estimate of a text is the tokens of its runs and signs, white space at its ends or not.
pub proof fn estimate_counts_the_tokens(input: Seq<char>)
    ensures
        spec_estimate(input) == tokens_from(input, 0),
{
    let started = text::spec_trim_start(input);
    let trimmed = text::spec_trim(input);
    start_has_no_tokens(input);
    end_has_no_tokens(started);
    text::trim_start_of(input);
    text::trim_end_of(started);
    if trimmed.len() > 0 {
        assert(trimmed[0] == started[0]);
        match spec_run_kind(trimmed[0]) {
            Some(kind) => {
                run_goes_on(trimmed, kind, 1);
                tokens_are_bounded(trimmed, run_end(trimmed, kind, 0));
            },
            None => {
                tokens_are_bounded(trimmed, 1);
            },
        }
    }
}

/// The estimate adds up over white space: two texts with white space between them have the tokens
/// of both, and no more.
pub proof fn estimates_add_up_over_white_space(first: Seq<char>, space: char, second: Seq<char>)
    requires
        text::spec_is_whitespace(space),
    ensures
        spec_estimate(first.push(space) + second) == spec_estimate(first) + spec_estimate(second),
{
    estimate_counts_the_tokens(first);
    estimate_counts_the_tokens(second);
    estimate_counts_the_tokens(first.push(space) + second);
    tokens_add_up(first, space, second, 0);
}

/// Characters of a kind make one run.
proof fn run_reaches_the_end(text: Seq<char>, kind: RunKind, i: int)
    requires
        0 <= i <= text.len(),
        forall|k: int| 0 <= k < text.len() ==> spec_run_kind(#[trigger] text[k]) == Some(kind),
    ensures
        run_end(text, kind, i) == text.len(),
    decreases text.len() - i,
{
    if i < text.len() {
        assert(spec_run_kind(text[i]) == Some(kind));
        run_reaches_the_end(text, kind, i + 1);
    }
}

/// Four letters or underscores make a token, three digits make one, and three kana or ideographs
/// make two; what is left over counts as one more. Any other character that is no white space is a
/// token.
pub proof fn characters_make_tokens(text: Seq<char>)
    requires
        text.len() > 0,
    ensures
        (forall|k: int|
            0 <= k < text.len() ==> 'a' <= #[trigger] text[k] <= 'z' || 'A' <= text[k] <= 'Z'
                || text[k] == '_') ==> spec_estimate(text) == (text.len() + 3) / 4,
        (forall|k: int| 0 <= k < text.len() ==> '0' <= #[trigger] text[k] <= '9') ==> spec_estimate(
            text,
        ) == (text.len() + 2) / 3,
        (forall|k: int|
            0 <= k < text.len() ==> '\u{3040}' <= #[trigger] text[k] <= '\u{30ff}' || '\u{3400}'
                <= text[k] <= '\u{9fff}') ==> spec_estimate(text) == (2 * text.len() + 2) / 3,
        text.len() == 1 && !text::spec_is_whitespace(text[0]) ==> spec_estimate(text) == 1,
{
    estimate_counts_the_tokens(text);
    if forall|k: int|
        0 <= k < text.len() ==> 'a' <= #[trigger] text[k] <= 'z' || 'A' <= text[k] <= 'Z' || text[k]
            == '_' {
        one_run_is_counted(text, RunKind::Latin);
    }
    if forall|k: int| 0 <= k < text.len() ==> '0' <= #[trigger] text[k] <= '9' {
        one_run_is_counted(text, RunKind::Number);
    }
    if forall|k: int|
        0 <= k < text.len() ==> '\u{3040}' <= #[trigger] text[k] <= '\u{30ff}' || '\u{3400}'
            <= text[k] <= '\u{9fff}' {
        one_run_is_counted(text, RunKind::Japanese);
    }
    if text.len() == 1 {
        estimate_is_bounded(text);
        text::texts_with_more_than_white_space(text);
        let (start, end) = text::trimmed_texts_are_parts(text);
    }
}

/// A text of one kind of characters is one run.
proof fn one_run_is_counted(text: Seq<char>, kind: RunKind)
    requires
        text.len() > 0,
        forall|k: int| 0 <= k < text.len() ==> spec_run_kind(#[trigger] text[k]) == Some(kind),
    ensures
        tokens_from(text, 0) == run_tokens(kind, text.len() as int),
{
    run_reaches_the_end(text, kind, 0);
    assert(spec_run_kind(text[0]) == Some(kind));
    assert(tokens_from(text, text.len() as int) == 0);
}

} // verus!
