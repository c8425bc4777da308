//! Judging how well requests are shortened: which levels and cases are run, and what an output
//! lacks.
use vstd::prelude::*;
use crate::contents;
use crate::integers;
use crate::integers::NumberFault;
use crate::parts;
use crate::text;
use crate::text_map::TextMap;

verus! {

broadcast use crate::contents::group_contents;

/// Ways to say that something stays as it is.
pub const KEEPING_ALIASES: [&'static str; 11] = [
    "変更せず",
    "変更しない",
    "変更なし",
    "変えない",
    "改変せず",
    "改変しない",
    "改変なし",
    "維持",
    "保持",
    "そのまま",
    "残す",
];

/// Ways to say that something does not grow.
pub const NO_INCREASE_ALIASES: [&'static str; 6] = [
    "増やさない",
    "増えない",
    "増加させない",
    "回避",
    "抑制",
    "最小限",
];

/// Ways to say that something does not break.
pub const UNBROKEN_ALIASES: [&'static str; 4] = [
    "壊れない",
    "壊れず",
    "壊さない",
    "破損しない",
];

/// Ways to say that something is not done.
pub const AVOIDING_ALIASES: [&'static str; 9] = [
    "避ける",
    "避け",
    "回避",
    "禁止",
    "しない",
    "行わない",
    "不可",
    "不要",
    "なし",
];

/// Ways to say that something is all.
pub const ONLY_ALIASES: [&'static str; 3] = ["のみ", "だけ", "only"];

/// The characters besides letters, digits and white space that stand in code.
pub const CODE_CHARACTERS: &'static str = "_-./:+#@=()";

/// A text in lower case.
pub uninterp spec fn lowercased(text: Seq<char>) -> Seq<char>;

/// `str::to_lowercase`: the text in lower case, by the rules of Unicode.
#[verifier::external_body]
pub(crate) fn lower_text(text: &str) -> (r: String)
    ensures
        r@ == lowercased(text@),
{
    text.to_lowercase()
}

/// A character in lower case, which may take several characters.
pub uninterp spec fn lowercased_character(c: char) -> Seq<char>;

/// `char::to_lowercase`: the character in lower case, by the rules of Unicode and without regard to
/// what stands around it.
#[verifier::external_body]
pub(crate) fn lower_character(c: char) -> (r: String)
    ensures
        r@ == lowercased_character(c),
{
    c.to_lowercase().to_string()
}

/// The characters in lower case, one by one.
pub open spec fn lowered_one_by_one(text: Seq<char>) -> Seq<char>
    decreases text.len(),
{
    if text.len() == 0 {
        Seq::empty()
    } else {
        lowered_one_by_one(text.drop_last()) + lowercased_character(text.last())
    }
}

/// The characters in lower case, one by one.
fn lower_one_by_one(text: &str) -> (r: String)
    ensures
        r@ == lowered_one_by_one(text@),
{
    let chars: Vec<char> = text::to_chars(text);
    let mut lowered: String = String::new();
    let mut i: usize = 0;
    while i < chars.len()
        invariant
            i <= chars@.len(),
            lowered@ == lowered_one_by_one(chars@.take(i as int)),
        decreases chars@.len() - i,
    {
        assert(chars@.take(i + 1).drop_last() =~= chars@.take(i as int));
        lowered = text::concat2(&lowered, &lower_character(chars[i]));
        i = i + 1;
    }
    assert(chars@.take(chars@.len() as int) =~= chars@);
    lowered
}

/// Value of [`contains_text`].
pub open spec fn spec_contains_text(haystack: Seq<char>, needle: Seq<char>) -> bool {
    text::spec_contains(lowercased(haystack), lowercased(text::spec_trim(needle)))
}

/// Whether the text holds another, in whatever case.
pub fn contains_text(haystack: &str, needle: &str) -> (r: bool)
    ensures
        r == spec_contains_text(haystack@, needle@),
{
    text::contains(&lower_text(haystack), &lower_text(&text::trim(needle)))
}

/// Value of [`compact_all_whitespace`].
pub open spec fn spec_compact_all_whitespace(value: Seq<char>) -> Seq<char> {
    lowered_one_by_one(text::spec_compact_all_whitespace(text::spec_trim(value)))
}

/// The text in lower case and without white space.
pub fn compact_all_whitespace(value: &str) -> (r: String)
    ensures
        r@ == spec_compact_all_whitespace(value@),
{
    lower_one_by_one(&text::compact_all_whitespace(&text::trim(value)))
}

/// The character stands in code.
pub open spec fn is_code_character(c: char) -> bool {
    text::spec_is_alnum(c) || text::spec_is_whitespace(c) || CODE_CHARACTERS@.contains(c)
}

/// The text looks like code: it holds letters or digits and white space, and nothing that does not
/// stand in code.
pub open spec fn spec_is_code_like(trimmed: Seq<char>) -> bool {
    &&& exists|i: int| 0 <= i < trimmed.len() && text::spec_is_alnum(#[trigger] trimmed[i])
    &&& exists|i: int| 0 <= i < trimmed.len() && text::spec_is_whitespace(#[trigger] trimmed[i])
    &&& forall|i: int| 0 <= i < trimmed.len() ==> is_code_character(#[trigger] trimmed[i])
}

/// Whether the text looks like code.
fn is_code_like(trimmed: &str) -> (r: bool)
    ensures
        r == spec_is_code_like(trimmed@),
{
    let chars: Vec<char> = text::to_chars(trimmed);
    let mut has_alnum: bool = false;
    let mut has_whitespace: bool = false;
    let mut i: usize = 0;
    while i < chars.len()
        invariant
            i <= chars@.len(),
            chars@ == trimmed@,
            has_alnum == exists|j: int| 0 <= j < i && text::spec_is_alnum(#[trigger] chars@[j]),
            has_whitespace == exists|j: int|
                0 <= j < i && text::spec_is_whitespace(#[trigger] chars@[j]),
            forall|j: int| 0 <= j < i ==> is_code_character(#[trigger] chars@[j]),
        decreases chars@.len() - i,
    {
        let c: char = chars[i];
        if text::is_alnum(c) {
            has_alnum = true;
        } else if text::is_whitespace(c) {
            has_whitespace = true;
        } else if !text::char_in(c, CODE_CHARACTERS) {
            assert(!is_code_character(trimmed@[i as int]));
            return false;
        }
        if text::is_whitespace(c) {
            has_whitespace = true;
        }
        i = i + 1;
    }
    has_alnum && has_whitespace
}

/// Value of [`compact_ascii_whitespace_if_code_like`].
pub open spec fn spec_compact_if_code_like(value: Seq<char>) -> Seq<char> {
    let trimmed = text::spec_trim(value);
    if spec_is_code_like(trimmed) {
        lowered_one_by_one(text::spec_compact_all_whitespace(trimmed))
    } else {
        lowercased(trimmed)
    }
}

/// The text in lower case, and without white space where it looks like code.
pub fn compact_ascii_whitespace_if_code_like(value: &str) -> (r: String)
    ensures
        r@ == spec_compact_if_code_like(value@),
{
    let trimmed: String = text::trim(value);
    if is_code_like(&trimmed) {
        lower_one_by_one(&text::compact_all_whitespace(&trimmed))
    } else {
        lower_text(&trimmed)
    }
}

/// The text holds a part of a term, with or without its white space.
pub open spec fn holds_part(haystack: Seq<char>, compact_haystack: Seq<char>, part: Seq<char>) -> bool {
    let lowered = lowercased(part);
    text::spec_contains(haystack, lowered) || text::spec_contains(
        compact_haystack,
        spec_compact_all_whitespace(lowered),
    )
}

/// Value of [`contains_natural_compound_term`].
pub open spec fn spec_contains_natural_compound_term(
    haystack: Seq<char>,
    needle: Seq<char>,
) -> bool {
    let parts = text::spec_words(needle);
    let lowered = lowercased(haystack);
    let compact = spec_compact_all_whitespace(lowered);
    &&& parts.len() >= 2
    &&& exists|i: int| 0 <= i < parts.len() && !text::spec_is_ascii(#[trigger] parts[i])
    &&& forall|i: int|
        0 <= i < parts.len() ==> holds_part(lowered, compact, #[trigger] parts[i])
}

/// Whether the text holds every word of a term that is not ASCII alone.
#[verifier::loop_isolation(false)]
pub fn contains_natural_compound_term(haystack: &str, needle: &str) -> (r: bool)
    ensures
        r == spec_contains_natural_compound_term(haystack@, needle@),
{
    let parts: Vec<String> = text::words(needle);
    let ghost views = contents::views(parts@);
    if parts.len() < 2 {
        return false;
    }
    let mut natural: bool = false;
    let mut i: usize = 0;
    while i < parts.len()
        invariant
            i <= parts@.len(),
            views == contents::views(parts@),
            natural == exists|j: int| 0 <= j < i && !text::spec_is_ascii(#[trigger] views[j]),
        decreases parts@.len() - i,
    {
        assert(views[i as int] == parts@[i as int]@);
        if !text::is_ascii(&parts[i]) {
            natural = true;
        }
        i = i + 1;
    }
    if !natural {
        return false;
    }
    let lowered: String = lower_text(haystack);
    let compact: String = compact_all_whitespace(&lowered);
    let mut k: usize = 0;
    while k < parts.len()
        invariant
            k <= parts@.len(),
            views == contents::views(parts@),
            forall|j: int| 0 <= j < k ==> holds_part(lowered@, compact@, #[trigger] views[j]),
        decreases parts@.len() - k,
    {
        assert(views[k as int] == parts@[k as int]@);
        let part: String = lower_text(&parts[k]);
        if !text::contains(&lowered, &part) && !text::contains(
            &compact,
            &compact_all_whitespace(&part),
        ) {
            assert(!holds_part(lowered@, compact@, views[k as int]));
            return false;
        }
        k = k + 1;
    }
    true
}

/// The forms in which a term is looked for in a text.
#[derive(Debug)]
pub struct TermForms {
    /// Whether the text holds the term, in whatever case.
    pub contained: bool,
    /// The term without white space.
    pub compact_needle: String,
    /// The trimmed term in lower case.
    pub trimmed_needle: String,
    /// The text without white space.
    pub compact_haystack: String,
    /// The term, without white space where it looks like code.
    pub code_needle: String,
    /// The term in lower case.
    pub lower_needle: String,
    /// The text, without white space where it looks like code.
    pub code_haystack: String,
    /// Whether the text holds every word of a term that is not ASCII alone.
    pub compound: bool,
}

/// The term stands in the text in one of its forms.
pub open spec fn stands_in(
    contained: bool,
    compact_needle: Seq<char>,
    trimmed_needle: Seq<char>,
    compact_haystack: Seq<char>,
    code_needle: Seq<char>,
    lower_needle: Seq<char>,
    code_haystack: Seq<char>,
    compound: bool,
) -> bool {
    contained || (compact_needle != trimmed_needle && text::spec_contains(
        compact_haystack,
        compact_needle,
    )) || (code_needle != lower_needle && text::spec_contains(code_haystack, code_needle))
        || compound
}

/// Whether the term stands in the text in one of its forms.
pub fn stands_in_form(forms: &TermForms) -> (r: bool)
    ensures
        r == stands_in(
            forms.contained,
            forms.compact_needle@,
            forms.trimmed_needle@,
            forms.compact_haystack@,
            forms.code_needle@,
            forms.lower_needle@,
            forms.code_haystack@,
            forms.compound,
        ),
{
    forms.contained || (!text::same(&forms.compact_needle, &forms.trimmed_needle)
        && text::contains(&forms.compact_haystack, &forms.compact_needle)) || (!text::same(
        &forms.code_needle,
        &forms.lower_needle,
    ) && text::contains(&forms.code_haystack, &forms.code_needle)) || forms.compound
}

/// Value of [`contains_required_term`].
pub open spec fn spec_contains_required_term(haystack: Seq<char>, needle: Seq<char>) -> bool {
    stands_in(
        spec_contains_text(haystack, needle),
        spec_compact_all_whitespace(needle),
        lowercased(text::spec_trim(needle)),
        spec_compact_all_whitespace(haystack),
        spec_compact_if_code_like(needle),
        lowercased(needle),
        spec_compact_if_code_like(haystack),
        spec_contains_natural_compound_term(haystack, needle),
    )
}

/// Whether the text holds the term, in whatever case and, as far as that does not matter, whatever
/// white space.
pub fn contains_required_term(haystack: &str, needle: &str) -> (r: bool)
    ensures
        r == spec_contains_required_term(haystack@, needle@),
{
    stands_in_form(
        &TermForms {
            contained: contains_text(haystack, needle),
            compact_needle: compact_all_whitespace(needle),
            trimmed_needle: lower_text(&text::trim(needle)),
            compact_haystack: compact_all_whitespace(haystack),
            code_needle: compact_ascii_whitespace_if_code_like(needle),
            lower_needle: lower_text(needle),
            code_haystack: compact_ascii_whitespace_if_code_like(haystack),
            compound: contains_natural_compound_term(haystack, needle),
        },
    )
}

/// The terms that the output does not hold, in their order.
pub open spec fn spec_missing_required_terms(output: Seq<char>, terms: Seq<Seq<char>>) -> Seq<
    Seq<char>,
> {
    terms.filter(|term: Seq<char>| !spec_contains_required_term(output, term))
}

/// The terms that the output does not hold, in their order.
pub fn missing_required_terms(output: &str, required_terms: &Vec<String>) -> (r: Vec<String>)
    ensures
        contents::views(r@) == spec_missing_required_terms(
            output@,
            contents::views(required_terms@),
        ),
{
    proof {
        reveal(Seq::filter);
    }
    let ghost terms = contents::views(required_terms@);
    let mut missing: Vec<String> = Vec::new();
    let mut i: usize = 0;
    while i < required_terms.len()
        invariant
            i <= required_terms@.len(),
            terms == contents::views(required_terms@),
            contents::views(missing@) == spec_missing_required_terms(output@, terms.take(i as int)),
        decreases required_terms@.len() - i,
    {
        proof {
            reveal(Seq::filter);
        }
        assert(terms.take(i + 1).drop_last() =~= terms.take(i as int));
        if !contains_required_term(output, &required_terms[i]) {
            missing.push(required_terms[i].clone());
        }
        i = i + 1;
    }
    assert(terms.take(terms.len() as int) =~= terms);
    missing
}

/// One of the ways to say a thing stands in the text.
pub open spec fn holds_alias(text: Seq<char>, aliases: Seq<&str>) -> bool {
    exists|i: int| 0 <= i < aliases.len() && spec_contains_text(text, #[trigger] aliases[i]@)
}

/// Whether one of the ways to say a thing stands in the text.
fn has_alias(text: &str, aliases: &[&str]) -> (r: bool)
    ensures
        r == holds_alias(text@, aliases@),
{
    let total: usize = aliases.len();
    let mut i: usize = 0;
    while i < total
        invariant
            i <= total == aliases@.len(),
            forall|j: int|
                0 <= j < i ==> !spec_contains_text(text@, #[trigger] aliases@[j]@),
        decreases total - i,
    {
        if contains_text(text, aliases[i]) {
            return true;
        }
        i = i + 1;
    }
    false
}

/// The marker and the text say the same thing, in one way or another.
pub open spec fn share_alias(haystack: Seq<char>, marker: Seq<char>, aliases: Seq<&str>) -> bool {
    holds_alias(marker, aliases) && holds_alias(haystack, aliases)
}

/// Value of [`contains_marker_text`].
pub open spec fn spec_contains_marker_text(haystack: Seq<char>, marker: Seq<char>) -> bool {
    spec_contains_text(haystack, marker) || share_alias(haystack, marker, KEEPING_ALIASES@)
        || share_alias(haystack, marker, NO_INCREASE_ALIASES@) || share_alias(
        haystack,
        marker,
        UNBROKEN_ALIASES@,
    ) || share_alias(haystack, marker, AVOIDING_ALIASES@) || share_alias(
        haystack,
        marker,
        ONLY_ALIASES@,
    )
}

/// Whether the text says what the marker says.
pub fn contains_marker_text(haystack: &str, marker: &str) -> (r: bool)
    ensures
        r == spec_contains_marker_text(haystack@, marker@),
{
    contains_text(haystack, marker) || (has_alias(marker, &KEEPING_ALIASES) && has_alias(
        haystack,
        &KEEPING_ALIASES,
    )) || (has_alias(marker, &NO_INCREASE_ALIASES) && has_alias(haystack, &NO_INCREASE_ALIASES))
        || (has_alias(marker, &UNBROKEN_ALIASES) && has_alias(haystack, &UNBROKEN_ALIASES)) || (
    has_alias(marker, &AVOIDING_ALIASES) && has_alias(haystack, &AVOIDING_ALIASES)) || (has_alias(
        marker,
        &ONLY_ALIASES,
    ) && has_alias(haystack, &ONLY_ALIASES))
}

/// The output says what one of the markers of a group says. Markers stand between bars.
pub open spec fn spec_satisfies_group(output: Seq<char>, group: Seq<char>) -> bool {
    let markers = text::spec_segments(group, "|"@);
    exists|i: int|
        0 <= i < markers.len() && spec_contains_marker_text(output, #[trigger] markers[i])
}

/// Whether the output says what one of the markers of a group says.
#[verifier::loop_isolation(false)]
fn satisfies_group(output: &str, group: &str) -> (r: bool)
    ensures
        r == spec_satisfies_group(output@, group@),
{
    let markers: Vec<String> = text::segments(group, "|");
    let ghost views = contents::views(markers@);
    let mut i: usize = 0;
    while i < markers.len()
        invariant
            i <= markers@.len(),
            views == contents::views(markers@),
            forall|j: int|
                0 <= j < i ==> !spec_contains_marker_text(output@, #[trigger] views[j]),
        decreases markers@.len() - i,
    {
        assert(views[i as int] == markers@[i as int]@);
        if contains_marker_text(output, &markers[i]) {
            return true;
        }
        i = i + 1;
    }
    false
}

/// The groups of which the output says nothing, in their order.
pub open spec fn spec_missing_required_marker_groups(
    output: Seq<char>,
    groups: Seq<Seq<char>>,
) -> Seq<Seq<char>> {
    groups.filter(|group: Seq<char>| !spec_satisfies_group(output, group))
}

/// The groups of which the output says nothing, in their order.
pub fn missing_required_marker_groups(output: &str, marker_groups: &Vec<String>) -> (r: Vec<String>)
    ensures
        contents::views(r@) == spec_missing_required_marker_groups(
            output@,
            contents::views(marker_groups@),
        ),
{
    proof {
        reveal(Seq::filter);
    }
    let ghost groups = contents::views(marker_groups@);
    let mut missing: Vec<String> = Vec::new();
    let mut i: usize = 0;
    while i < marker_groups.len()
        invariant
            i <= marker_groups@.len(),
            groups == contents::views(marker_groups@),
            contents::views(missing@) == spec_missing_required_marker_groups(
                output@,
                groups.take(i as int),
            ),
        decreases marker_groups@.len() - i,
    {
        proof {
            reveal(Seq::filter);
        }
        assert(groups.take(i + 1).drop_last() =~= groups.take(i as int));
        if !satisfies_group(output, &marker_groups[i]) {
            missing.push(marker_groups[i].clone());
        }
        i = i + 1;
    }
    assert(groups.take(groups.len() as int) =~= groups);
    missing
}

/// Value of [`trim_preview`].
pub open spec fn spec_trim_preview(value: Seq<char>, max_chars: int) -> Seq<char> {
    if value.len() > max_chars {
        value.take(max_chars).push('…')
    } else {
        value
    }
}

/// The beginning of a text, with a mark where it goes on.
pub fn trim_preview(value: &str, max_chars: usize) -> (r: String)
    ensures
        r@ == spec_trim_preview(value@, max_chars as int),
{
    if text::char_count(value) > max_chars {
        let mut preview: String = text::take(value, max_chars);
        preview.push('…');
        preview
    } else {
        value.to_owned()
    }
}

/// A preview has at most one character more than it may show, and begins as its text does.
pub proof fn previews_are_short(value: Seq<char>, max_chars: int)
    requires
        0 <= max_chars,
    ensures
        spec_trim_preview(value, max_chars).len() <= max_chars + 1,
        value.len() <= max_chars ==> spec_trim_preview(value, max_chars) == value,
        value.len() > max_chars ==> spec_trim_preview(value, max_chars).drop_last() == value.take(
            max_chars,
        ),
{
    if value.len() > max_chars {
        assert(spec_trim_preview(value, max_chars).drop_last() =~= value.take(max_chars));
    }
}

/// Why levels cannot be evaluated.
#[derive(Debug)]
pub enum LevelFault {
    /// The name of a level is no number, and why.
    InvalidKey(String, NumberFault),
    /// There are no limits for the level.
    Undefined(u8),
}

/// Contents of a [`LevelFault`].
pub enum LevelFaultView {
    InvalidKey(Seq<char>, NumberFault),
    Undefined(u8),
}

impl View for LevelFault {
    type V = LevelFaultView;

    open spec fn view(&self) -> LevelFaultView {
        match *self {
            LevelFault::InvalidKey(key, fault) => LevelFaultView::InvalidKey(key@, fault),
            LevelFault::Undefined(level) => LevelFaultView::Undefined(level),
        }
    }
}

impl LevelFault {
    /// The text that reports the fault.
    pub fn message(&self) -> (r: String)
        ensures
            r@ == (match self@ {
                LevelFaultView::InvalidKey(key, _) => "invalid evaluation level key: "@ + key,
                LevelFaultView::Undefined(level) => "evaluation fixture does not define level "@
                    + text::spec_decimal(level as nat),
            }),
    {
        match self {
            LevelFault::InvalidKey(key, _) => text::concat2("invalid evaluation level key: ", key),
            LevelFault::Undefined(level) => text::concat2(
                "evaluation fixture does not define level ",
                &text::decimal(*level as u64),
            ),
        }
    }
}

/// The first name from a position on that is no level.
pub open spec fn first_invalid_key(keys: Seq<Seq<char>>, i: int) -> Option<(Seq<char>, NumberFault)>
    decreases keys.len() - i,
{
    if i >= keys.len() {
        None
    } else {
        match integers::spec_parse(keys[i], 10, 255) {
            Err(fault) => Some((keys[i], fault)),
            Ok(_) => first_invalid_key(keys, i + 1),
        }
    }
}

/// The level is asked for: by name where none is asked for, else in the list.
pub open spec fn is_asked_for(keys: Seq<Seq<char>>, requested: Seq<u8>, level: int) -> bool {
    if requested.len() == 0 {
        exists|i: int|
            0 <= i < keys.len() && integers::spec_parse(#[trigger] keys[i], 10, 255) == Ok::<
                int,
                NumberFault,
            >(level)
    } else {
        exists|i: int| 0 <= i < requested.len() && #[trigger] requested[i] == level
    }
}

/// The levels below a number that are asked for, from the smallest on.
pub open spec fn levels_up_to(keys: Seq<Seq<char>>, requested: Seq<u8>, level: int) -> Seq<u8>
    decreases level,
{
    if level <= 0 {
        Seq::empty()
    } else if is_asked_for(keys, requested, level - 1) {
        levels_up_to(keys, requested, level - 1).push((level - 1) as u8)
    } else {
        levels_up_to(keys, requested, level - 1)
    }
}

/// The first level from a position on without limits of its own.
pub open spec fn first_undefined(levels: Seq<u8>, keys: Seq<Seq<char>>, i: int) -> Option<u8>
    decreases levels.len() - i,
{
    if i >= levels.len() {
        None
    } else if !keys.contains(text::spec_decimal(levels[i] as nat)) {
        Some(levels[i])
    } else {
        first_undefined(levels, keys, i + 1)
    }
}

/// Value of [`resolve_evaluation_levels`].
pub open spec fn spec_resolve_evaluation_levels(
    keys: Seq<Seq<char>>,
    requested: Seq<u8>,
) -> Result<Seq<u8>, LevelFaultView> {
    let levels = levels_up_to(keys, requested, 256);
    let invalid = if requested.len() == 0 {
        first_invalid_key(keys, 0)
    } else {
        None
    };
    match invalid {
        Some((key, fault)) => Err(LevelFaultView::InvalidKey(key, fault)),
        None => match first_undefined(levels, keys, 0) {
            Some(level) => Err(LevelFaultView::Undefined(level)),
            None => Ok(levels),
        },
    }
}

/// The contents of an outcome that is a list of levels.
pub open spec fn levels_outcome(result: Result<Vec<u8>, LevelFault>) -> Result<
    Seq<u8>,
    LevelFaultView,
> {
    match result {
        Ok(levels) => Ok(levels@),
        Err(fault) => Err(fault@),
    }
}

/// Whether the level is asked for.
#[verifier::loop_isolation(false)]
fn asked_for<T>(limits: &TextMap<T>, requested: &[u8], level: u8) -> (r: bool)
    ensures
        r == is_asked_for(limits.keys(), requested@, level as int),
{
    let total: usize = requested.len();
    if total == 0 {
        let names: usize = limits.len();
        let ghost keys = limits.keys();
        let mut i: usize = 0;
        while i < names
            invariant
                i <= names == keys.len(),
                keys == limits.keys(),
                forall|j: int|
                    0 <= j < i ==> integers::spec_parse(#[trigger] keys[j], 10, 255) != Ok::<
                        int,
                        NumberFault,
                    >(level as int),
            decreases names - i,
        {
            match integers::parse(limits.key_at(i), 10, 255) {
                Ok(value) => {
                    if value == level as u64 {
                        return true;
                    }
                },
                Err(_) => {},
            }
            i = i + 1;
        }
        false
    } else {
        let mut i: usize = 0;
        while i < total
            invariant
                i <= total == requested@.len(),
                forall|j: int| 0 <= j < i ==> #[trigger] requested@[j] != level,
            decreases total - i,
        {
            if requested[i] == level {
                return true;
            }
            i = i + 1;
        }
        false
    }
}

/// The levels that are evaluated, from the smallest on and each once: those asked for, or all that
/// have limits.
#[verifier::loop_isolation(false)]
pub fn resolve_evaluation_levels<T>(limits: &TextMap<T>, requested_levels: &[u8]) -> (r: Result<
    Vec<u8>,
    LevelFault,
>)
    ensures
        levels_outcome(r) == spec_resolve_evaluation_levels(limits.keys(), requested_levels@),
{
    let ghost keys = limits.keys();
    let names: usize = limits.len();
    if requested_levels.len() == 0 {
        let mut i: usize = 0;
        while i < names
            invariant
                i <= names == keys.len(),
                keys == limits.keys(),
                first_invalid_key(keys, 0) == first_invalid_key(keys, i as int),
            decreases names - i,
        {
            let key: &String = limits.key_at(i);
            match integers::parse(key, 10, 255) {
                Ok(_) => {},
                Err(fault) => {
                    assert(requested_levels@.len() == 0 ==> first_invalid_key(keys, 0) == Some(
                        (key@, fault),
                    ));
                    return Err(LevelFault::InvalidKey(key.clone(), fault));
                },
            }
            i = i + 1;
        }
    }
    let mut levels: Vec<u8> = Vec::new();
    let mut level: u16 = 0;
    while level < 256
        invariant
            level <= 256,
            keys == limits.keys(),
            levels@ == levels_up_to(keys, requested_levels@, level as int),
        decreases 256 - level,
    {
        if asked_for(limits, requested_levels, level as u8) {
            levels.push(level as u8);
        }
        level = level + 1;
    }
    let mut k: usize = 0;
    while k < levels.len()
        invariant
            k <= levels@.len(),
            keys == limits.keys(),
            forall|key: Seq<char>| limits@.contains_key(key) <==> keys.contains(key),
            first_undefined(levels@, keys, 0) == first_undefined(levels@, keys, k as int),
            requested_levels@.len() == 0 ==> first_invalid_key(keys, 0) is None,
            levels@ == levels_up_to(keys, requested_levels@, 256),
        decreases levels@.len() - k,
    {
        if !limits.contains_key(&text::decimal(levels[k] as u64)) {
            return Err(LevelFault::Undefined(levels[k]));
        }
        k = k + 1;
    }
    Ok(levels)
}

/// What the levels that are evaluated are.
proof fn levels_hold(keys: Seq<Seq<char>>, requested: Seq<u8>, level: int)
    requires
        0 <= level <= 256,
    ensures
        ({
            let levels = levels_up_to(keys, requested, level);
            &&& forall|i: int|
                0 <= i < levels.len() ==> is_asked_for(
                    keys,
                    requested,
                    #[trigger] levels[i] as int,
                ) && levels[i] < level
            &&& forall|i: int, j: int|
                0 <= i < j < levels.len() ==> #[trigger] levels[i] < #[trigger] levels[j]
            &&& forall|l: u8|
                l < level && #[trigger] is_asked_for(keys, requested, l as int) ==> levels.contains(
                    l,
                )
        }),
    decreases level,
{
    if level > 0 {
        levels_hold(keys, requested, level - 1);
        let shorter = levels_up_to(keys, requested, level - 1);
        let levels = levels_up_to(keys, requested, level);
        assert forall|l: u8|
            l < level && #[trigger] is_asked_for(keys, requested, l as int) implies levels.contains(
            l,
        ) by {
            if l == level - 1 {
                assert(levels[levels.len() - 1] == l);
            } else {
                let i = choose|i: int| 0 <= i < shorter.len() && shorter[i] == l;
                assert(levels[i] == l);
            }
        }
    }
}

/// The levels that are evaluated ascend, so that none comes twice, and are those that were asked
/// for.
pub proof fn evaluated_levels_are_those_asked_for(
    keys: Seq<Seq<char>>,
    requested: Seq<u8>,
    level: u8,
)
    ensures
        spec_resolve_evaluation_levels(keys, requested) matches Ok(levels) ==> {
            &&& levels.contains(level) <==> is_asked_for(keys, requested, level as int)
            &&& forall|i: int, j: int|
                0 <= i < j < levels.len() ==> #[trigger] levels[i] < #[trigger] levels[j]
        },
{
    levels_hold(keys, requested, 256);
    let levels = levels_up_to(keys, requested, 256);
    if levels.contains(level) {
        let i = choose|i: int| 0 <= i < levels.len() && levels[i] == level;
        assert(is_asked_for(keys, requested, levels[i] as int));
    }
}

/// The positions of the cases that are run: so many at most, from a position on.
pub fn case_range(total: usize, offset: usize, limit: Option<usize>) -> (r: (usize, usize))
    ensures
        r.0 <= r.1 <= total,
        r.0 == (if offset < total {
            offset
        } else {
            total
        }),
        r.1 - r.0 == (match limit {
            Some(limit) => if limit < total - r.0 {
                limit as int
            } else {
                total - r.0
            },
            None => total - r.0,
        }),
{
    let start: usize = if offset < total {
        offset
    } else {
        total
    };
    let end: usize = match limit {
        Some(limit) => {
            if limit < total - start {
                start + limit
            } else {
                total
            }
        },
        None => total,
    };
    (start, end)
}

/// The levels of a case that are evaluated, in its order.
pub open spec fn levels_of_case(own: Seq<u8>, evaluated: Seq<u8>) -> Seq<u8> {
    own.filter(|level: u8| evaluated.contains(level))
}

/// The levels at which a case is run: its own as far as they are evaluated, or all that are.
pub fn case_levels(own: &Option<Vec<u8>>, evaluated: &Vec<u8>) -> (r: Vec<u8>)
    ensures
        r@ == levels_of_case(
            match *own {
                Some(levels) => levels@,
                None => evaluated@,
            },
            evaluated@,
        ),
{
    proof {
        reveal(Seq::filter);
    }
    let levels: &Vec<u8> = match own {
        Some(levels) => levels,
        None => evaluated,
    };
    let mut kept: Vec<u8> = Vec::new();
    let mut i: usize = 0;
    while i < levels.len()
        invariant
            i <= levels@.len(),
            kept@ == levels_of_case(levels@.take(i as int), evaluated@),
        decreases levels@.len() - i,
    {
        proof {
            reveal(Seq::filter);
        }
        assert(levels@.take(i + 1).drop_last() =~= levels@.take(i as int));
        let level: u8 = levels[i];
        let mut found: bool = false;
        let mut k: usize = 0;
        while k < evaluated.len()
            invariant
                k <= evaluated@.len(),
                found == exists|j: int| 0 <= j < k && #[trigger] evaluated@[j] == level,
            decreases evaluated@.len() - k,
        {
            if evaluated[k] == level {
                found = true;
            }
            k = k + 1;
        }
        if found {
            kept.push(level);
        }
        i = i + 1;
    }
    assert(levels@.take(levels@.len() as int) =~= levels@);
    kept
}

/// The output that is judged.
#[derive(Debug, Clone, Copy, PartialEq, Eq, Structural)]
pub enum EvaluationStage {
    /// What the model wrote.
    RawModel,
    /// What a request was answered with.
    FinalPipeline,
}

/// What is wrong with an output.
#[derive(Debug)]
pub struct OutputJudgement {
    pub reasons: Vec<String>,
    pub missing_terms: Vec<String>,
    pub missing_marker_groups: Vec<String>,
}

/// The reasons to fail an output, given what it lacks and what its length says.
pub open spec fn failure_reasons(
    sends_original: bool,
    output: Option<Seq<char>>,
    ratio_reasons: Seq<Seq<char>>,
    terms: Seq<Seq<char>>,
    groups: Seq<Seq<char>>,
) -> Seq<Seq<char>> {
    let first = if sends_original {
        seq!["should_send_original"@]
    } else {
        Seq::empty()
    };
    match output {
        None => first.push("selected_output_unavailable"@),
        Some(output) => {
            let long = first + ratio_reasons;
            let lacking = if spec_missing_required_terms(output, terms).len() > 0 {
                long.push("missing_required_terms"@)
            } else {
                long
            };
            if spec_missing_required_marker_groups(output, groups).len() > 0 {
                lacking.push("missing_required_marker_groups"@)
            } else {
                lacking
            }
        },
    }
}

/// Judges an output, given what its length says. Whether the original is sent counts for what a
/// request was answered with alone.
pub fn judge_output(
    stage: EvaluationStage,
    should_send_original: bool,
    output: &Option<String>,
    ratio_reasons: &Vec<String>,
    required_terms: &Vec<String>,
    required_marker_groups: &Vec<String>,
) -> (r: OutputJudgement)
    ensures
        contents::views(r.reasons@) == failure_reasons(
            stage == EvaluationStage::FinalPipeline && should_send_original,
            contents::view_option(*output),
            contents::views(ratio_reasons@),
            contents::views(required_terms@),
            contents::views(required_marker_groups@),
        ),
        match *output {
            Some(output) => {
                &&& contents::views(r.missing_terms@) == spec_missing_required_terms(
                    output@,
                    contents::views(required_terms@),
                )
                &&& contents::views(r.missing_marker_groups@)
                    == spec_missing_required_marker_groups(
                    output@,
                    contents::views(required_marker_groups@),
                )
            },
            None => r.missing_terms@.len() == 0 && r.missing_marker_groups@.len() == 0,
        },
{
    let mut reasons: Vec<String> = Vec::new();
    assert(contents::views(reasons@) =~= Seq::empty());
    if stage == EvaluationStage::FinalPipeline && should_send_original {
        reasons.push("should_send_original".to_owned());
        assert(contents::views(reasons@) =~= seq!["should_send_original"@]);
    }
    match output {
        None => {
            reasons.push("selected_output_unavailable".to_owned());
            OutputJudgement {
                reasons,
                missing_terms: Vec::new(),
                missing_marker_groups: Vec::new(),
            }
        },
        Some(output) => {
            text::extend(&mut reasons, ratio_reasons);
            let missing_terms: Vec<String> = missing_required_terms(output, required_terms);
            assert(missing_terms@.len() == contents::views(missing_terms@).len());
            if missing_terms.len() > 0 {
                reasons.push("missing_required_terms".to_owned());
            }
            let missing_marker_groups: Vec<String> = missing_required_marker_groups(
                output,
                required_marker_groups,
            );
            assert(missing_marker_groups@.len() == contents::views(missing_marker_groups@).len());
            if missing_marker_groups.len() > 0 {
                reasons.push("missing_required_marker_groups".to_owned());
            }
            OutputJudgement { reasons, missing_terms, missing_marker_groups }
        },
    }
}

/// Where the prompt comes from.
#[derive(Debug, Clone, Copy, PartialEq, Eq, Structural)]
pub enum InputSource {
    Prompt,
    File,
    Stdin,
}

/// Where the prompt comes from: exactly one place may be given.
pub fn choose_input_source(prompt: bool, file: bool, stdin: bool) -> (r: Result<
    InputSource,
    &'static str,
>)
    ensures
        ({
            let several = (prompt && file) || (prompt && stdin) || (file && stdin);
            if !prompt && !file && !stdin {
                r matches Err(reason) && reason@ == "provide a prompt, --file, or --stdin"@
            } else if several {
                r matches Err(reason) && reason@ == "use only one input source at a time"@
            } else {
                r == Ok::<InputSource, &'static str>(
                    if prompt {
                        InputSource::Prompt
                    } else if file {
                        InputSource::File
                    } else {
                        InputSource::Stdin
                    },
                )
            }
        }),
{
    if !prompt && !file && !stdin {
        Err("provide a prompt, --file, or --stdin")
    } else if (prompt && file) || (prompt && stdin) || (file && stdin) {
        Err("use only one input source at a time")
    } else if prompt {
        Ok(InputSource::Prompt)
    } else if file {
        Ok(InputSource::File)
    } else {
        Ok(InputSource::Stdin)
    }
}

/// An output says what a marker says where it holds another way to say the same: that something
/// stays as it is, does not grow, does not break, is not done, or is all.
pub proof fn ways_to_say_the_same_are_alike(
    output: Seq<char>,
    marker: Seq<char>,
    ways: Seq<Seq<char>>,
    said: int,
    held: int,
)
    requires
        ways == seq![
            "変更せず"@, "変更しない"@, "変更なし"@, "変えない"@, "改変せず"@, "改変しない"@, "改変なし"@, "維持"@, "保持"@, "そのまま"@,
            "残す"@,
        ]
            || ways == seq!["増やさない"@, "増えない"@, "増加させない"@, "回避"@, "抑制"@, "最小限"@]
            || ways == seq!["壊れない"@, "壊れず"@, "壊さない"@, "破損しない"@]
            || ways == seq!["避ける"@, "避け"@, "回避"@, "禁止"@, "しない"@, "行わない"@, "不可"@, "不要"@, "なし"@]
            || ways == seq!["のみ"@, "だけ"@, "only"@],
        0 <= said < ways.len(),
        0 <= held < ways.len(),
        spec_contains_text(marker, ways[said]),
        spec_contains_text(output, ways[held]),
    ensures
        spec_contains_marker_text(output, marker),
{
    if ways == seq![
        "変更せず"@, "変更しない"@, "変更なし"@, "変えない"@, "改変せず"@, "改変しない"@, "改変なし"@, "維持"@, "保持"@, "そのまま"@,
        "残す"@,
    ] {
        assert(KEEPING_ALIASES@[0]@ == ways[0]);
        assert(KEEPING_ALIASES@[1]@ == ways[1]);
        assert(KEEPING_ALIASES@[2]@ == ways[2]);
        assert(KEEPING_ALIASES@[3]@ == ways[3]);
        assert(KEEPING_ALIASES@[4]@ == ways[4]);
        assert(KEEPING_ALIASES@[5]@ == ways[5]);
        assert(KEEPING_ALIASES@[6]@ == ways[6]);
        assert(KEEPING_ALIASES@[7]@ == ways[7]);
        assert(KEEPING_ALIASES@[8]@ == ways[8]);
        assert(KEEPING_ALIASES@[9]@ == ways[9]);
        assert(KEEPING_ALIASES@[10]@ == ways[10]);
        assert(KEEPING_ALIASES@[said]@ == ways[said] && KEEPING_ALIASES@[held]@ == ways[held]);
        assert(share_alias(output, marker, KEEPING_ALIASES@));
    }
    if ways == seq!["増やさない"@, "増えない"@, "増加させない"@, "回避"@, "抑制"@, "最小限"@] {
        assert(NO_INCREASE_ALIASES@[0]@ == ways[0]);
        assert(NO_INCREASE_ALIASES@[1]@ == ways[1]);
        assert(NO_INCREASE_ALIASES@[2]@ == ways[2]);
        assert(NO_INCREASE_ALIASES@[3]@ == ways[3]);
        assert(NO_INCREASE_ALIASES@[4]@ == ways[4]);
        assert(NO_INCREASE_ALIASES@[5]@ == ways[5]);
        assert(NO_INCREASE_ALIASES@[said]@ == ways[said] && NO_INCREASE_ALIASES@[held]@ == ways[held]);
        assert(share_alias(output, marker, NO_INCREASE_ALIASES@));
    }
    if ways == seq!["壊れない"@, "壊れず"@, "壊さない"@, "破損しない"@] {
        assert(UNBROKEN_ALIASES@[0]@ == ways[0]);
        assert(UNBROKEN_ALIASES@[1]@ == ways[1]);
        assert(UNBROKEN_ALIASES@[2]@ == ways[2]);
        assert(UNBROKEN_ALIASES@[3]@ == ways[3]);
        assert(UNBROKEN_ALIASES@[said]@ == ways[said] && UNBROKEN_ALIASES@[held]@ == ways[held]);
        assert(share_alias(output, marker, UNBROKEN_ALIASES@));
    }
    if ways == seq!["避ける"@, "避け"@, "回避"@, "禁止"@, "しない"@, "行わない"@, "不可"@, "不要"@, "なし"@] {
        assert(AVOIDING_ALIASES@[0]@ == ways[0]);
        assert(AVOIDING_ALIASES@[1]@ == ways[1]);
        assert(AVOIDING_ALIASES@[2]@ == ways[2]);
        assert(AVOIDING_ALIASES@[3]@ == ways[3]);
        assert(AVOIDING_ALIASES@[4]@ == ways[4]);
        assert(AVOIDING_ALIASES@[5]@ == ways[5]);
        assert(AVOIDING_ALIASES@[6]@ == ways[6]);
        assert(AVOIDING_ALIASES@[7]@ == ways[7]);
        assert(AVOIDING_ALIASES@[8]@ == ways[8]);
        assert(AVOIDING_ALIASES@[said]@ == ways[said] && AVOIDING_ALIASES@[held]@ == ways[held]);
        assert(share_alias(output, marker, AVOIDING_ALIASES@));
    }
    if ways == seq!["のみ"@, "だけ"@, "only"@] {
        assert(ONLY_ALIASES@[0]@ == ways[0]);
        assert(ONLY_ALIASES@[1]@ == ways[1]);
        assert(ONLY_ALIASES@[2]@ == ways[2]);
        assert(ONLY_ALIASES@[said]@ == ways[said] && ONLY_ALIASES@[held]@ == ways[held]);
        assert(share_alias(output, marker, ONLY_ALIASES@));
    }
}

/// An output says a marker that it holds, in whatever case.
pub proof fn held_markers_are_said(output: Seq<char>, marker: Seq<char>)
    requires
        text::spec_contains(lowercased(output), lowercased(text::spec_trim(marker))),
    ensures
        spec_contains_marker_text(output, marker),
{
}

/// The output says what one of the markers of a group says, which stand in it between bars.
pub open spec fn says_group(output: Seq<char>, group: Seq<char>) -> bool {
    exists|k: int|
        0 <= k < text::spec_split_any(group, seq!['|']).len() && text::spec_trim(
            #[trigger] text::spec_split_any(group, seq!['|'])[k],
        ).len() > 0 && spec_contains_marker_text(
            output,
            text::spec_trim(text::spec_split_any(group, seq!['|'])[k]),
        )
}

/// A group is satisfied by each of its markers.
proof fn groups_are_satisfied_by_their_markers(output: Seq<char>, group: Seq<char>)
    ensures
        spec_satisfies_group(output, group) <==> says_group(output, group),
{
    reveal_strlit("|");
    assert("|"@ =~= seq!['|']);
    let pieces = text::spec_split_any(group, seq!['|']);
    let trimmed = pieces.map_values(|piece: Seq<char>| text::spec_trim(piece));
    let markers = text::spec_segments(group, "|"@);
    let is_said = |piece: Seq<char>| piece.len() > 0;
    assert(markers == trimmed.filter(is_said));
    if spec_satisfies_group(output, group) {
        let i = choose|i: int|
            0 <= i < markers.len() && spec_contains_marker_text(output, #[trigger] markers[i]);
        parts::kept_items_were_listed(trimmed, is_said, markers[i]);
        assert(markers.contains(markers[i]));
        let k = choose|k: int| 0 <= k < trimmed.len() && trimmed[k] == markers[i];
        assert(text::spec_trim(pieces[k]) == markers[i]);
    }
    if says_group(output, group) {
        let k = choose|k: int|
            0 <= k < pieces.len() && text::spec_trim(#[trigger] pieces[k]).len() > 0
                && spec_contains_marker_text(output, text::spec_trim(pieces[k]));
        assert(trimmed[k] == text::spec_trim(pieces[k]));
        parts::kept_items_were_listed(trimmed, is_said, trimmed[k]);
        let i = choose|i: int| 0 <= i < markers.len() && markers[i] == trimmed[k];
        assert(spec_contains_marker_text(output, markers[i]));
    }
}

/// What an output lacks are those of the required terms that it does not hold, and those of the
/// groups of which it says no marker: all of these, and nothing else.
pub proof fn lacking_terms_and_groups_are_reported(
    output: Seq<char>,
    terms: Seq<Seq<char>>,
    groups: Seq<Seq<char>>,
    term: Seq<char>,
    group: Seq<char>,
)
    ensures
        spec_missing_required_terms(output, terms).contains(term) <==> terms.contains(term)
            && !spec_contains_required_term(output, term),
        spec_missing_required_marker_groups(output, groups).contains(group) <==> groups.contains(
            group,
        ) && !says_group(output, group),
{
    parts::kept_items_were_listed(
        terms,
        |term: Seq<char>| !spec_contains_required_term(output, term),
        term,
    );
    parts::kept_items_were_listed(
        groups,
        |group: Seq<char>| !spec_satisfies_group(output, group),
        group,
    );
    groups_are_satisfied_by_their_markers(output, group);
}

/// A term is held where the output holds it as it is written, in whatever case.
pub proof fn written_terms_are_held(output: Seq<char>, term: Seq<char>)
    requires
        text::spec_contains(lowercased(output), lowercased(text::spec_trim(term))),
    ensures
        spec_contains_required_term(output, term),
{
}

/// An output fails where the original is sent, where it is not there, where its length fails it, and
/// where it lacks a required term or says no marker of a required group. It passes otherwise.
pub proof fn outputs_fail_for_what_they_lack(
    sends_original: bool,
    output: Option<Seq<char>>,
    ratio_reasons: Seq<Seq<char>>,
    terms: Seq<Seq<char>>,
    groups: Seq<Seq<char>>,
)
    ensures
        ({
            let reasons = failure_reasons(sends_original, output, ratio_reasons, terms, groups);
            &&& sends_original ==> reasons.contains("should_send_original"@)
            &&& output is None ==> reasons.contains("selected_output_unavailable"@)
            &&& output matches Some(output) ==> {
                &&& forall|k: int|
                    0 <= k < ratio_reasons.len() ==> reasons.contains(#[trigger] ratio_reasons[k])
                &&& (exists|k: int|
                    0 <= k < terms.len() && !spec_contains_required_term(
                        output,
                        #[trigger] terms[k],
                    )) ==> reasons.contains("missing_required_terms"@)
                &&& (exists|k: int|
                    0 <= k < groups.len() && !says_group(output, #[trigger] groups[k]))
                    ==> reasons.contains("missing_required_marker_groups"@)
                &&& !sends_original && ratio_reasons.len() == 0 && (forall|k: int|
                    0 <= k < terms.len() ==> spec_contains_required_term(
                        output,
                        #[trigger] terms[k],
                    )) && (forall|k: int|
                    0 <= k < groups.len() ==> says_group(output, #[trigger] groups[k]))
                    ==> reasons.len() == 0
            }
        }),
{
    let reasons = failure_reasons(sends_original, output, ratio_reasons, terms, groups);
    let first = if sends_original {
        seq!["should_send_original"@]
    } else {
        Seq::empty()
    };
    if sends_original {
        assert(reasons[0] == "should_send_original"@);
    }
    match output {
        None => {
            assert(reasons[reasons.len() - 1] == "selected_output_unavailable"@);
        },
        Some(output) => {
            let long = first + ratio_reasons;
            let missing_terms = spec_missing_required_terms(output, terms);
            let missing_groups = spec_missing_required_marker_groups(output, groups);
            let lacking = if missing_terms.len() > 0 {
                long.push("missing_required_terms"@)
            } else {
                long
            };
            assert forall|k: int| 0 <= k < ratio_reasons.len() implies reasons.contains(
                #[trigger] ratio_reasons[k],
            ) by {
                assert(long[first.len() + k] == ratio_reasons[k]);
                assert(reasons[first.len() + k] == ratio_reasons[k]);
            }
            if missing_terms.len() > 0 {
                assert(reasons[long.len() as int] == "missing_required_terms"@);
                assert(missing_terms.contains(missing_terms[0]));
                lacking_terms_and_groups_are_reported(
                    output,
                    terms,
                    groups,
                    missing_terms[0],
                    Seq::empty(),
                );
                let k = choose|k: int| 0 <= k < terms.len() && terms[k] == missing_terms[0];
                assert(!spec_contains_required_term(output, terms[k]));
            } else {
                assert forall|k: int| 0 <= k < terms.len() implies spec_contains_required_term(
                    output,
                    #[trigger] terms[k],
                ) by {
                    assert(terms.contains(terms[k]));
                    lacking_terms_and_groups_are_reported(
                        output,
                        terms,
                        groups,
                        terms[k],
                        Seq::empty(),
                    );
                }
            }
            if missing_groups.len() > 0 {
                assert(reasons[lacking.len() as int] == "missing_required_marker_groups"@);
                assert(missing_groups.contains(missing_groups[0]));
                lacking_terms_and_groups_are_reported(
                    output,
                    terms,
                    groups,
                    Seq::empty(),
                    missing_groups[0],
                );
                let k = choose|k: int| 0 <= k < groups.len() && groups[k] == missing_groups[0];
                assert(!says_group(output, groups[k]));
            } else {
                assert forall|k: int| 0 <= k < groups.len() implies says_group(
                    output,
                    #[trigger] groups[k],
                ) by {
                    assert(groups.contains(groups[k]));
                    lacking_terms_and_groups_are_reported(
                        output,
                        terms,
                        groups,
                        Seq::empty(),
                        groups[k],
                    );
                }
            }
        },
    }
}

/// A case is run at those of its levels that are evaluated, and at no other.
pub proof fn cases_run_at_their_levels(own: Seq<u8>, evaluated: Seq<u8>, level: u8)
    ensures
        levels_of_case(own, evaluated).contains(level) <==> own.contains(level)
            && evaluated.contains(level),
{
    parts::kept_items_were_listed(own, |level: u8| evaluated.contains(level), level);
}

/// A preview that is cut short ends with a mark of omission.
pub proof fn cut_previews_are_marked(value: Seq<char>, max_chars: int)
    requires
        0 <= max_chars < value.len(),
    ensures
        spec_trim_preview(value, max_chars).len() == max_chars + 1,
        spec_trim_preview(value, max_chars).last() == '…',
{
}

/// A term with white space in it is held where the output holds it without any.
pub proof fn terms_are_held_without_white_space(output: Seq<char>, term: Seq<char>)
    requires
        text::spec_contains(
            lowered_one_by_one(text::spec_compact_all_whitespace(text::spec_trim(output))),
            lowered_one_by_one(text::spec_compact_all_whitespace(text::spec_trim(term))),
        ),
        lowered_one_by_one(text::spec_compact_all_whitespace(text::spec_trim(term)))
            != lowercased(text::spec_trim(term)),
    ensures
        spec_contains_required_term(output, term),
{
}

/// A term of several words, not all of them ASCII, is held where the output holds each of its words.
pub proof fn compound_terms_are_held_word_by_word(output: Seq<char>, term: Seq<char>, k: int)
    requires
        text::spec_words(term).len() >= 2,
        0 <= k < text::spec_words(term).len(),
        exists|i: int|
            0 <= i < text::spec_words(term)[k].len() && #[trigger] text::spec_words(term)[k][i]
                > '\u{7f}',
        forall|i: int|
            0 <= i < text::spec_words(term).len() ==> text::spec_contains(
                lowercased(output),
                lowercased(#[trigger] text::spec_words(term)[i]),
            ),
    ensures
        spec_contains_required_term(output, term),
{
    let words = text::spec_words(term);
    let i = choose|i: int| 0 <= i < words[k].len() && #[trigger] words[k][i] > '\u{7f}';
    assert(!text::spec_is_ascii(words[k]));
    let lowered = lowercased(output);
    assert forall|i: int| 0 <= i < words.len() implies holds_part(
        lowered,
        spec_compact_all_whitespace(lowered),
        #[trigger] words[i],
    ) by {
        assert(text::spec_contains(lowered, lowercased(words[i])));
    }
}

/// A term of one word is held only where the output holds it as it is written, without white space,
/// or in the form of code.
pub proof fn single_words_are_held_as_written(output: Seq<char>, term: Seq<char>)
    requires
        text::spec_words(term).len() < 2,
        spec_contains_required_term(output, term),
    ensures
        text::spec_contains(lowercased(output), lowercased(text::spec_trim(term)))
            || text::spec_contains(
            spec_compact_all_whitespace(output),
            spec_compact_all_whitespace(term),
        ) || text::spec_contains(
            spec_compact_if_code_like(output),
            spec_compact_if_code_like(term),
        ),
{
}

} // verus!
