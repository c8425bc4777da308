//! Reading what a model wrote: a JSON object as it was asked for, or whatever comes close to one.
use vstd::prelude::*;
use crate::contents;
use crate::error;
use crate::error::CompressionError;
use crate::parts;
use crate::runtime::draft;
use crate::runtime::draft::CompressionDraft;
use crate::runtime::fragments;
use crate::runtime::json;
use crate::runtime::json::JsonMember;
use crate::runtime::structure;
use crate::text;

verus! {

broadcast use crate::contents::group_contents;

/// The key of the prompt in the object that a model is asked for.
pub const PROMPT_KEY: &'static str = "distilled_prompt";

/// The key of the summary in the object that a model is asked for.
pub const SUMMARY_KEY: &'static str = "removed_content_summary";

/// Keys under which models put the prompt, in the order of preference.
pub const PROMPT_ALIASES: [&'static str; 13] = [
    "distilled_prompt",
    "compressed_prompt",
    "compressed_text",
    "compressed",
    "output",
    "result",
    "prompt",
    "text",
    "summary",
    "圧縮結果",
    "圧縮文",
    "短縮文",
    "要約",
];

/// Keys under which models put the summary, in the order of preference.
pub const SUMMARY_ALIASES: [&'static str; 5] = [
    "removed_content_summary",
    "removed_summary",
    "removed",
    "omitted",
    "削除内容",
];

/// The trimmed text of a member, if it is a string that holds more than white space.
pub open spec fn member_text(member: Option<json::MemberView>) -> Option<Seq<char>> {
    match member {
        Some((_, Some(text), _)) => if text::spec_trim(text).len() > 0 {
            Some(text::spec_trim(text))
        } else {
            None
        },
        _ => None,
    }
}

/// The trimmed text under the first of the keys from a position on that gives one.
pub open spec fn aliased_text(members: Seq<json::MemberView>, i: int) -> Option<Seq<char>>
    decreases PROMPT_ALIASES@.len() - i,
{
    if i >= PROMPT_ALIASES@.len() {
        None
    } else {
        match member_text(json::find_member(members, PROMPT_ALIASES@[i]@, 0)) {
            Some(text) => Some(text),
            None => aliased_text(members, i + 1),
        }
    }
}

/// The trimmed texts of the members that are strings with more than white space.
pub open spec fn member_texts(members: Seq<json::MemberView>) -> Seq<Seq<char>>
    decreases members.len(),
{
    if members.len() == 0 {
        Seq::empty()
    } else {
        let before = member_texts(members.drop_last());
        match member_text(Some(members.last())) {
            Some(text) => before.push(text),
            None => before,
        }
    }
}

/// The prompt of an object: under the first known key that gives one, else the only text there is.
pub open spec fn spec_extract_distilled_prompt_alias(members: Seq<json::MemberView>) -> Option<
    Seq<char>,
> {
    match aliased_text(members, 0) {
        Some(text) => Some(text),
        None => if member_texts(members).len() == 1 {
            Some(member_texts(members)[0])
        } else {
            None
        },
    }
}

/// The trimmed text of a member, if it is a string that holds more than white space.
fn text_of_member(member: &JsonMember) -> (r: Option<String>)
    ensures
        contents::view_option(r) == member_text(Some(json::member_view(*member))),
{
    match &member.1 {
        Some(text) => {
            let trimmed: String = text::trim(text);
            if text::char_count(&trimmed) > 0 {
                Some(trimmed)
            } else {
                None
            }
        },
        None => None,
    }
}

/// The prompt of an object: under the first known key that gives one, else the only text there is.
pub fn extract_distilled_prompt_alias(members: &Vec<JsonMember>) -> (r: Option<String>)
    ensures
        contents::view_option(r) == spec_extract_distilled_prompt_alias(
            json::member_views(members@),
        ),
{
    let ghost views = json::member_views(members@);
    let mut i: usize = 0;
    while i < PROMPT_ALIASES.len()
        invariant
            i <= PROMPT_ALIASES@.len(),
            views == json::member_views(members@),
            aliased_text(views, 0) == aliased_text(views, i as int),
        decreases PROMPT_ALIASES@.len() - i,
    {
        match json::member_named(members, PROMPT_ALIASES[i]) {
            Some(member) => {
                let found: Option<String> = text_of_member(member);
                if found.is_some() {
                    return found;
                }
            },
            None => {},
        }
        i = i + 1;
    }
    let mut texts: Vec<String> = Vec::new();
    let mut i: usize = 0;
    while i < members.len()
        invariant
            i <= members@.len(),
            views == json::member_views(members@),
            contents::views(texts@) == member_texts(views.take(i as int)),
        decreases members@.len() - i,
    {
        assert(views.take(i + 1).drop_last() =~= views.take(i as int));
        assert(views[i as int] == json::member_view(members@[i as int]));
        match text_of_member(&members[i]) {
            Some(text) => {
                texts.push(text);
            },
            None => {},
        }
        i = i + 1;
    }
    assert(views.take(members@.len() as int) =~= views);
    assert(contents::views(texts@).len() == texts@.len());
    if texts.len() == 1 {
        assert(contents::views(texts@)[0] == texts@[0]@);
        texts.pop()
    } else {
        None
    }
}

/// The trimmed texts of a list that hold more than white space.
pub open spec fn item_texts(items: Seq<Option<Seq<char>>>) -> Seq<Seq<char>>
    decreases items.len(),
{
    if items.len() == 0 {
        Seq::empty()
    } else {
        let before = item_texts(items.drop_last());
        match items.last() {
            Some(text) => if text::spec_trim(text).len() > 0 {
                before.push(text::spec_trim(text))
            } else {
                before
            },
            None => before,
        }
    }
}

/// The trimmed texts of a list that hold more than white space.
fn texts_of_items(items: &Vec<Option<String>>) -> (r: Vec<String>)
    ensures
        contents::views(r@) == item_texts(json::item_views(items@)),
{
    let ghost views = json::item_views(items@);
    let mut texts: Vec<String> = Vec::new();
    let mut i: usize = 0;
    while i < items.len()
        invariant
            i <= items@.len(),
            views == json::item_views(items@),
            contents::views(texts@) == item_texts(views.take(i as int)),
        decreases items@.len() - i,
    {
        assert(views.take(i + 1).drop_last() =~= views.take(i as int));
        assert(views[i as int] == contents::view_option(items@[i as int]));
        match &items[i] {
            Some(text) => {
                let trimmed: String = text::trim(text);
                if text::char_count(&trimmed) > 0 {
                    texts.push(trimmed);
                }
            },
            None => {},
        }
        i = i + 1;
    }
    assert(views.take(items@.len() as int) =~= views);
    texts
}

/// The texts of the first list under one of the keys from a position on.
pub open spec fn aliased_items(members: Seq<json::MemberView>, i: int) -> Seq<Seq<char>>
    decreases SUMMARY_ALIASES@.len() - i,
{
    if i >= SUMMARY_ALIASES@.len() {
        Seq::empty()
    } else {
        match json::find_member(members, SUMMARY_ALIASES@[i]@, 0) {
            Some((_, _, Some(items))) => item_texts(items),
            _ => aliased_items(members, i + 1),
        }
    }
}

/// The summary of an object: the texts of the first list under a known key.
pub fn extract_removed_summary_alias(members: &Vec<JsonMember>) -> (r: Vec<String>)
    ensures
        contents::views(r@) == aliased_items(json::member_views(members@), 0),
{
    let ghost views = json::member_views(members@);
    let mut i: usize = 0;
    while i < SUMMARY_ALIASES.len()
        invariant
            i <= SUMMARY_ALIASES@.len(),
            views == json::member_views(members@),
            aliased_items(views, 0) == aliased_items(views, i as int),
        decreases SUMMARY_ALIASES@.len() - i,
    {
        match json::member_named(members, SUMMARY_ALIASES[i]) {
            Some(member) => {
                match &member.2 {
                    Some(items) => {
                        return texts_of_items(items);
                    },
                    None => {},
                }
            },
            None => {},
        }
        i = i + 1;
    }
    Vec::new()
}

/// How often the key is among those of an object, as they are written.
pub open spec fn times_given(keys: Seq<Seq<char>>, key: Seq<char>) -> nat
    decreases keys.len(),
{
    if keys.len() == 0 {
        0
    } else {
        times_given(keys.drop_last(), key) + (if json::json_string("\""@ + keys.last() + "\""@)
            == Some(key) {
            1nat
        } else {
            0nat
        })
    }
}

/// Whether the key is given more than once among those of an object, as they are written.
pub fn given_twice(keys: &Vec<String>, key: &str) -> (r: bool)
    ensures
        r == (times_given(contents::views(keys@), key@) > 1),
{
    let ghost views = contents::views(keys@);
    let mut count: usize = 0;
    let mut i: usize = 0;
    while i < keys.len()
        invariant
            i <= keys@.len(),
            views == contents::views(keys@),
            count == times_given(views.take(i as int), key@),
            count <= i,
        decreases keys@.len() - i,
    {
        assert(views.take(i + 1).drop_last() =~= views.take(i as int));
        assert(views[i as int] == keys@[i as int]@);
        match json::parse_json_string(&text::concat3("\"", &keys[i], "\"")) {
            Some(name) => {
                if text::same(&name, key) {
                    count = count + 1;
                }
            },
            None => {},
        }
        i = i + 1;
    }
    assert(views.take(keys@.len() as int) =~= views);
    count > 1
}

/// The draft that an object as it was asked for stands for: a prompt, and a summary unless it is
/// left out, each given once.
pub open spec fn asked_for_draft(
    fields: Seq<(Seq<char>, Seq<char>)>,
    keys: Seq<Seq<char>>,
) -> Option<draft::DraftView> {
    if times_given(keys, PROMPT_KEY@) > 1 || times_given(keys, SUMMARY_KEY@) > 1 {
        None
    } else {
        let prompt = match json::find_field(fields, PROMPT_KEY@, 0) {
            Some(text) => json::json_string(text),
            None => None,
        };
        let summary = match json::find_field(fields, SUMMARY_KEY@, 0) {
            Some(text) => json::json_strings(text),
            None => Some(Seq::empty()),
        };
        match (prompt, summary) {
            (Some(prompt), Some(summary)) => Some(
                draft::DraftView { distilled_prompt: prompt, removed_content_summary: summary },
            ),
            _ => None,
        }
    }
}

/// The draft that an object as it was asked for stands for: a prompt, and a summary unless it is
/// left out, each given once.
pub fn draft_of_fields(fields: &Vec<(String, String)>, keys: &Vec<String>) -> (r: Option<
    CompressionDraft,
>)
    ensures
        draft::view_draft(r) == asked_for_draft(
            json::field_views(fields@),
            contents::views(keys@),
        ),
{
    if given_twice(keys, PROMPT_KEY) || given_twice(keys, SUMMARY_KEY) {
        return None;
    }
    let prompt: Option<String> = match json::field_named(fields, PROMPT_KEY) {
        Some(text) => json::parse_json_string(&text),
        None => None,
    };
    let summary: Option<Vec<String>> = match json::field_named(fields, SUMMARY_KEY) {
        Some(text) => json::parse_json_strings(&text),
        None => Some(Vec::new()),
    };
    match (prompt, summary) {
        (Some(distilled_prompt), Some(removed_content_summary)) => Some(
            CompressionDraft { distilled_prompt, removed_content_summary },
        ),
        _ => None,
    }
}

/// The draft that a list stands for: a prompt, and a summary unless it is left out, without keys.
pub open spec fn listed_draft(items: Seq<Seq<char>>) -> Option<draft::DraftView> {
    if items.len() < 1 || items.len() > 2 {
        None
    } else {
        let summary = if items.len() == 2 {
            json::json_strings(items[1])
        } else {
            Some(Seq::empty())
        };
        match (json::json_string(items[0]), summary) {
            (Some(prompt), Some(summary)) => Some(
                draft::DraftView { distilled_prompt: prompt, removed_content_summary: summary },
            ),
            _ => None,
        }
    }
}

/// The draft that a list stands for: a prompt, and a summary unless it is left out, without keys.
pub fn draft_of_items(items: &Vec<String>) -> (r: Option<CompressionDraft>)
    ensures
        draft::view_draft(r) == listed_draft(contents::views(items@)),
{
    if items.len() < 1 || items.len() > 2 {
        return None;
    }
    let summary: Option<Vec<String>> = if items.len() == 2 {
        json::parse_json_strings(&items[1])
    } else {
        Some(Vec::new())
    };
    match (json::parse_json_string(&items[0]), summary) {
        (Some(distilled_prompt), Some(removed_content_summary)) => Some(
            CompressionDraft { distilled_prompt, removed_content_summary },
        ),
        _ => None,
    }
}

/// The draft that the members of an object stand for, under keys that models use.
pub open spec fn aliased_draft(members: Seq<json::MemberView>) -> Option<draft::DraftView> {
    match spec_extract_distilled_prompt_alias(members) {
        Some(prompt) => Some(
            draft::DraftView {
                distilled_prompt: prompt,
                removed_content_summary: aliased_items(members, 0),
            },
        ),
        None => None,
    }
}

/// The draft that the members of an object stand for, under keys that models use.
pub fn draft_of_members(members: &Vec<JsonMember>) -> (r: Option<CompressionDraft>)
    ensures
        draft::view_draft(r) == aliased_draft(json::member_views(members@)),
{
    match extract_distilled_prompt_alias(members) {
        Some(distilled_prompt) => Some(
            CompressionDraft {
                distilled_prompt,
                removed_content_summary: extract_removed_summary_alias(members),
            },
        ),
        None => None,
    }
}

/// What is wrong with an object that gives no draft.
pub open spec fn object_fault(keys: Seq<Seq<char>>) -> Seq<char> {
    if times_given(keys, PROMPT_KEY@) == 0 {
        "missing field `distilled_prompt`"@
    } else if times_given(keys, PROMPT_KEY@) > 1 {
        "duplicate field `distilled_prompt`"@
    } else if times_given(keys, SUMMARY_KEY@) > 1 {
        "duplicate field `removed_content_summary`"@
    } else {
        "invalid type of a field"@
    }
}

/// The draft that a JSON text stands for, by what was read of it: the fields of an object as it was
/// asked for, or their values in a list, else the members of the object under keys that models use.
pub open spec fn draft_of_json(
    json_text: Seq<char>,
    fields: Option<Seq<(Seq<char>, Seq<char>)>>,
    items: Option<Seq<Seq<char>>>,
    members: Result<Option<Seq<json::MemberView>>, Seq<char>>,
) -> Result<draft::DraftView, error::ErrorView> {
    let keys = fragments::spec_top_level_keys(json_text);
    let asked_for = match (fields, items) {
        (Some(fields), _) => asked_for_draft(fields, keys),
        (None, Some(items)) => listed_draft(items),
        (None, None) => None,
    };
    match asked_for {
        Some(made) => Ok(made),
        None => match members {
            Err(reason) => Err(
                error::ErrorView::Runtime(
                    "llama.cpp output was not valid JSON: "@ + reason + "; output starts with: "@
                        + draft::spec_output_snippet(json_text),
                ),
            ),
            Ok(members) => {
                let aliased = match members {
                    Some(members) => aliased_draft(members),
                    None => None,
                };
                match aliased {
                    Some(made) => Ok(made),
                    None => Err(
                        error::ErrorView::Runtime(
                            "llama.cpp output was not valid compression JSON: "@ + object_fault(keys)
                                + "; output starts with: "@ + draft::spec_output_snippet(json_text),
                        ),
                    ),
                }
            },
        },
    }
}

/// What is wrong with an object that gives no draft, by its keys.
fn given_fault(keys: &Vec<String>) -> (r: String)
    ensures
        r@ == object_fault(contents::views(keys@)),
{
    let ghost views = contents::views(keys@);
    let mut found: bool = false;
    let mut i: usize = 0;
    while i < keys.len()
        invariant
            i <= keys@.len(),
            views == contents::views(keys@),
            found == (times_given(views.take(i as int), PROMPT_KEY@) > 0),
        decreases keys@.len() - i,
    {
        assert(views.take(i + 1).drop_last() =~= views.take(i as int));
        assert(views[i as int] == keys@[i as int]@);
        match json::parse_json_string(&text::concat3("\"", &keys[i], "\"")) {
            Some(name) => {
                if text::same(&name, PROMPT_KEY) {
                    found = true;
                }
            },
            None => {},
        }
        i = i + 1;
    }
    assert(views.take(keys@.len() as int) =~= views);
    if !found {
        "missing field `distilled_prompt`".to_owned()
    } else if given_twice(keys, PROMPT_KEY) {
        "duplicate field `distilled_prompt`".to_owned()
    } else if given_twice(keys, SUMMARY_KEY) {
        "duplicate field `removed_content_summary`".to_owned()
    } else {
        "invalid type of a field".to_owned()
    }
}

/// The draft that a JSON text stands for, by what was read of it.
pub fn draft_of_parsed_json(
    json_text: &str,
    fields: Option<Vec<(String, String)>>,
    items: Option<Vec<String>>,
    members: Result<Option<Vec<JsonMember>>, String>,
) -> (r: Result<CompressionDraft, CompressionError>)
    ensures
        draft::draft_outcome(r) == draft_of_json(
            json_text@,
            json::view_fields(fields),
            contents::view_list(items),
            json::view_members(members),
        ),
{
    let keys: Vec<String> = fragments::top_level_keys(json_text);
    let asked_for: Option<CompressionDraft> = match (&fields, &items) {
        (Some(fields), _) => draft_of_fields(fields, &keys),
        (None, Some(items)) => draft_of_items(items),
        (None, None) => None,
    };
    match asked_for {
        Some(made) => {
            return Ok(made);
        },
        None => {},
    }
    match members {
        Err(reason) => Err(
            CompressionError::Runtime(
                text::concat4(
                    "llama.cpp output was not valid JSON: ",
                    &reason,
                    "; output starts with: ",
                    &draft::output_snippet(json_text),
                ),
            ),
        ),
        Ok(members) => {
            match &members {
                Some(members) => {
                    match draft_of_members(members) {
                        Some(made) => {
                            return Ok(made);
                        },
                        None => {},
                    }
                },
                None => {},
            }
            Err(
                CompressionError::Runtime(
                    text::concat4(
                        "llama.cpp output was not valid compression JSON: ",
                        &given_fault(&keys),
                        "; output starts with: ",
                        &draft::output_snippet(json_text),
                    ),
                ),
            )
        },
    }
}

/// The draft that a JSON text stands for.
pub open spec fn spec_parse_model_compression_json(json_text: Seq<char>) -> Result<
    draft::DraftView,
    error::ErrorView,
> {
    draft_of_json(
        json_text,
        json::json_fields(json_text),
        json::json_items(json_text),
        json::json_members(json_text),
    )
}

/// Reads the draft that a JSON text stands for: an object as it was asked for or the values of its
/// fields in a list, or an object with keys that models use in its place.
pub fn parse_model_compression_json(json_text: &str) -> (r: Result<
    CompressionDraft,
    CompressionError,
>)
    ensures
        draft::draft_outcome(r) == spec_parse_model_compression_json(json_text@),
{
    let fields: Option<Vec<(String, String)>> = json::parse_json_fields(json_text);
    let items: Option<Vec<String>> = json::parse_json_items(json_text);
    let members: Result<Option<Vec<JsonMember>>, String> = json::parse_json_members(json_text);
    draft_of_parsed_json(json_text, fields, items, members)
}

/// The first draft that a complete object from a position on stands for.
pub open spec fn first_valid_draft(output: Seq<char>, i: int) -> Option<draft::DraftView>
    decreases output.len() - i,
{
    if i >= output.len() {
        None
    } else if output[i] != '{' {
        first_valid_draft(output, i + 1)
    } else {
        match fragments::spec_first_complete_json_object(output.skip(i)) {
            Some(object) => match spec_parse_model_compression_json(object) {
                Ok(made) => Some(made),
                Err(_) => first_valid_draft(output, i + 1),
            },
            None => first_valid_draft(output, i + 1),
        }
    }
}

/// The first draft that a complete object in the output stands for.
pub fn parse_first_valid_compression_json_object(output: &str) -> (r: Option<CompressionDraft>)
    ensures
        draft::view_draft(r) == first_valid_draft(output@, 0),
{
    let chars: Vec<char> = text::to_chars(output);
    let mut i: usize = 0;
    while i < chars.len()
        invariant
            i <= chars@.len(),
            chars@ == output@,
            first_valid_draft(output@, 0) == first_valid_draft(output@, i as int),
        decreases chars@.len() - i,
    {
        if chars[i] == '{' {
            let candidate: String = text::from_range(&chars, i, chars.len());
            assert(candidate@ =~= output@.skip(i as int));
            match fragments::first_complete_json_object(&candidate) {
                Some(object) => {
                    match parse_model_compression_json(&object) {
                        Ok(made) => {
                            return Some(made);
                        },
                        Err(_) => {},
                    }
                },
                None => {},
            }
        }
        i = i + 1;
    }
    None
}

/// The draft with labels around its prompt dropped.
pub open spec fn cleaned(made: draft::DraftView) -> draft::DraftView {
    draft::with_prompt(made, fragments::spec_clean_distilled_prompt_text(made.distilled_prompt))
}

/// The draft with labels around its prompt dropped.
fn clean_draft(made: CompressionDraft) -> (r: CompressionDraft)
    ensures
        r@ == cleaned(made@),
{
    CompressionDraft {
        distilled_prompt: fragments::clean_distilled_prompt_text(&made.distilled_prompt),
        removed_content_summary: made.removed_content_summary,
    }
}

/// A draft of a prompt alone, with labels around it dropped.
pub open spec fn prompt_alone(prompt: Seq<char>) -> draft::DraftView {
    cleaned(
        draft::DraftView { distilled_prompt: prompt, removed_content_summary: Seq::empty() },
    )
}

/// A draft of a prompt alone, with labels around it dropped.
fn draft_of_prompt(prompt: String) -> (r: CompressionDraft)
    ensures
        r@ == prompt_alone(prompt@),
{
    clean_draft(CompressionDraft { distilled_prompt: prompt, removed_content_summary: Vec::new() })
}

/// The error for an output without an object.
pub open spec fn no_json_error(output: Seq<char>) -> error::ErrorView {
    error::ErrorView::Runtime(
        "llama.cpp output did not contain JSON; output starts with: "@ + draft::spec_output_snippet(
            output,
        ),
    )
}

/// The error for an output without an object.
fn no_json(output: &str) -> (r: CompressionError)
    ensures
        r@ == no_json_error(output@),
{
    CompressionError::Runtime(
        text::concat2(
            "llama.cpp output did not contain JSON; output starts with: ",
            &draft::output_snippet(output),
        ),
    )
}

/// The draft in an output that is no JSON string: in an object without its braces, in the text
/// from the first to the last brace, in the first object that gives one, or in an object that was
/// cut off. Where the last brace closes something before the first opens anything, there is no
/// object.
pub open spec fn draft_in_output(output: Seq<char>) -> Result<draft::DraftView, error::ErrorView> {
    let trimmed = text::spec_trim(output);
    let wrapped = spec_parse_model_compression_json("{"@ + trimmed + "}"@);
    if text::spec_starts_with(trimmed, "\""@) && text::spec_contains(
        trimmed,
        "\"distilled_prompt\""@,
    ) && wrapped is Ok {
        Ok(cleaned(wrapped->Ok_0))
    } else {
        match text::spec_find(output, "{"@) {
            None => Err(no_json_error(output)),
            Some(start) => match text::spec_rfind(output, "}"@) {
                None => match fragments::spec_extract_incomplete_distilled_prompt(output) {
                    Some(prompt) => Ok(prompt_alone(prompt)),
                    None => Err(no_json_error(output)),
                },
                Some(end) => if start > end + 1 {
                    Err(no_json_error(output))
                } else {
                    match spec_parse_model_compression_json(output.subrange(start, end + 1)) {
                        Ok(made) => Ok(cleaned(made)),
                        Err(error) => match first_valid_draft(output, 0) {
                            Some(made) => Ok(cleaned(made)),
                            None => Err(error),
                        },
                    }
                },
            },
        }
    }
}

/// The draft that a model wrote, by the string that its output stands for, if it is one.
pub open spec fn draft_of_output(output: Seq<char>, string: Option<Seq<char>>) -> Result<
    draft::DraftView,
    error::ErrorView,
> {
    match string {
        Some(prompt) => Ok(prompt_alone(prompt)),
        None => draft_in_output(output),
    }
}

/// The draft that a model wrote, by the string that its output stands for, if it is one.
pub fn draft_of_read_output(output: &str, string: Option<String>) -> (r: Result<
    CompressionDraft,
    CompressionError,
>)
    ensures
        draft::draft_outcome(r) == draft_of_output(output@, contents::view_option(string)),
{
    match string {
        Some(prompt) => {
            return Ok(draft_of_prompt(prompt));
        },
        None => {},
    }
    let trimmed: String = text::trim(output);
    if text::starts_with(&trimmed, "\"") && text::contains(&trimmed, "\"distilled_prompt\"") {
        match parse_model_compression_json(&text::concat3("{", &trimmed, "}")) {
            Ok(made) => {
                return Ok(clean_draft(made));
            },
            Err(_) => {},
        }
    }
    let start: usize = match text::find(output, "{") {
        Some(start) => start,
        None => {
            return Err(no_json(output));
        },
    };
    let end: usize = match text::rfind(output, "}") {
        Some(end) => end,
        None => {
            return match fragments::extract_incomplete_distilled_prompt(output) {
                Some(prompt) => Ok(draft_of_prompt(prompt)),
                None => Err(no_json(output)),
            };
        },
    };
    proof {
        text::lemma_rfind_from(output@, "}"@, output@.len() as int);
        reveal_strlit("}");
    }
    if start > end && start - end > 1 {
        return Err(no_json(output));
    }
    let chars: Vec<char> = text::to_chars(output);
    let object: String = text::from_range(&chars, start, end + 1);
    match parse_model_compression_json(&object) {
        Ok(made) => Ok(clean_draft(made)),
        Err(error) => match parse_first_valid_compression_json_object(output) {
            Some(made) => Ok(clean_draft(made)),
            None => Err(error),
        },
    }
}

/// The draft that a model wrote.
pub open spec fn spec_parse_compression_output(output: Seq<char>) -> Result<
    draft::DraftView,
    error::ErrorView,
> {
    draft_of_output(output, json::json_string(text::spec_trim(output)))
}

/// Reads the draft that a model wrote: a JSON string, an object as it was asked for, or whatever
/// comes close to one.
pub fn parse_compression_output(output: &str) -> (r: Result<CompressionDraft, CompressionError>)
    ensures
        draft::draft_outcome(r) == spec_parse_compression_output(output@),
{
    let string: Option<String> = json::parse_json_string(&text::trim(output));
    draft_of_read_output(output, string)
}

/// The number of bytes up to the end of the first complete JSON object in the output.
pub fn first_complete_json_object_end(output: &str) -> (r: Option<usize>)
    ensures
        match r {
            Some(end) => fragments::spec_first_complete_json_object(output@) matches Some(object)
                && end == structure::spec_byte_length(object),
            None => fragments::spec_first_complete_json_object(output@) is None,
        },
{
    match fragments::first_complete_json_object(output) {
        Some(object) => Some(structure::byte_length(&object)),
        None => None,
    }
}

/// The key is one under which models put the prompt.
pub open spec fn is_prompt_key(name: Seq<char>) -> bool {
    ||| name == "distilled_prompt"@
    ||| name == "compressed_prompt"@
    ||| name == "compressed_text"@
    ||| name == "compressed"@
    ||| name == "output"@
    ||| name == "result"@
    ||| name == "prompt"@
    ||| name == "text"@
    ||| name == "summary"@
    ||| name == "圧縮結果"@
    ||| name == "圧縮文"@
    ||| name == "短縮文"@
    ||| name == "要約"@
}

/// The key is one under which models put the summary.
pub open spec fn is_summary_key(name: Seq<char>) -> bool {
    ||| name == "removed_content_summary"@
    ||| name == "removed_summary"@
    ||| name == "removed"@
    ||| name == "omitted"@
    ||| name == "削除内容"@
}

/// A found member has the name.
proof fn found_members_have_the_name(members: Seq<json::MemberView>, name: Seq<char>, i: int)
    requires
        0 <= i,
    ensures
        json::find_member(members, name, i) matches Some(member) ==> member.0 == name
            && members.contains(member),
    decreases members.len() - i,
{
    if i < members.len() {
        if members[i].0 == name {
            assert(members.contains(members[i]));
        } else {
            found_members_have_the_name(members, name, i + 1);
        }
    }
}

/// The first known key that gives a prompt is taken.
proof fn keys_are_tried_in_order(members: Seq<json::MemberView>, i: int, k: int)
    requires
        0 <= i <= k < PROMPT_ALIASES@.len(),
        member_text(json::find_member(members, PROMPT_ALIASES@[k]@, 0)) is Some,
    ensures
        aliased_text(members, i) is Some,
        i == k ==> aliased_text(members, i) == member_text(
            json::find_member(members, PROMPT_ALIASES@[k]@, 0),
        ),
    decreases k - i,
{
    if i < k {
        keys_are_tried_in_order(members, i + 1, k);
    }
}

/// What is found under known keys is the text of a member with such a key.
proof fn prompts_stand_under_known_keys(members: Seq<json::MemberView>, i: int)
    requires
        0 <= i,
    ensures
        aliased_text(members, i) matches Some(prompt) ==> exists|k: int|
            0 <= k < members.len() && is_prompt_key((#[trigger] members[k]).0) && member_text(
                Some(members[k]),
            ) == Some(prompt),
    decreases PROMPT_ALIASES@.len() - i,
{
    if i < PROMPT_ALIASES@.len() {
        assert(PROMPT_ALIASES@[0]@ == "distilled_prompt"@);
        assert(PROMPT_ALIASES@[1]@ == "compressed_prompt"@);
        assert(PROMPT_ALIASES@[2]@ == "compressed_text"@);
        assert(PROMPT_ALIASES@[3]@ == "compressed"@);
        assert(PROMPT_ALIASES@[4]@ == "output"@);
        assert(PROMPT_ALIASES@[5]@ == "result"@);
        assert(PROMPT_ALIASES@[6]@ == "prompt"@);
        assert(PROMPT_ALIASES@[7]@ == "text"@);
        assert(PROMPT_ALIASES@[8]@ == "summary"@);
        assert(PROMPT_ALIASES@[9]@ == "圧縮結果"@);
        assert(PROMPT_ALIASES@[10]@ == "圧縮文"@);
        assert(PROMPT_ALIASES@[11]@ == "短縮文"@);
        assert(PROMPT_ALIASES@[12]@ == "要約"@);
        let name = PROMPT_ALIASES@[i]@;
        found_members_have_the_name(members, name, 0);
        match json::find_member(members, name, 0) {
            Some(member) => {
                let k = choose|k: int| 0 <= k < members.len() && members[k] == member;
                assert(is_prompt_key(members[k].0));
                if member_text(Some(member)) is None {
                    prompts_stand_under_known_keys(members, i + 1);
                }
            },
            None => {
                prompts_stand_under_known_keys(members, i + 1);
            },
        }
    }
}

/// An object with a text under a key that models use gives a prompt: the trimmed text under such a
/// key. The key that was asked for comes first.
pub proof fn known_keys_give_the_prompt(members: Seq<json::MemberView>, name: Seq<char>)
    requires
        is_prompt_key(name),
        json::find_member(members, name, 0) matches Some((_, Some(text), _)) && text::spec_trim(
            text,
        ).len() > 0,
    ensures
        aliased_draft(members) matches Some(made) && (exists|k: int|
            0 <= k < members.len() && is_prompt_key((#[trigger] members[k]).0) && member_text(
                Some(members[k]),
            ) == Some(made.distilled_prompt)) && (name == "distilled_prompt"@
            ==> made.distilled_prompt == text::spec_trim(
            json::find_member(members, name, 0)->Some_0.1->Some_0,
        )),
{
    assert(PROMPT_ALIASES@[0]@ == "distilled_prompt"@);
    assert(PROMPT_ALIASES@[1]@ == "compressed_prompt"@);
    assert(PROMPT_ALIASES@[2]@ == "compressed_text"@);
    assert(PROMPT_ALIASES@[3]@ == "compressed"@);
    assert(PROMPT_ALIASES@[4]@ == "output"@);
    assert(PROMPT_ALIASES@[5]@ == "result"@);
    assert(PROMPT_ALIASES@[6]@ == "prompt"@);
    assert(PROMPT_ALIASES@[7]@ == "text"@);
    assert(PROMPT_ALIASES@[8]@ == "summary"@);
    assert(PROMPT_ALIASES@[9]@ == "圧縮結果"@);
    assert(PROMPT_ALIASES@[10]@ == "圧縮文"@);
    assert(PROMPT_ALIASES@[11]@ == "短縮文"@);
    assert(PROMPT_ALIASES@[12]@ == "要約"@);
    let k = choose|k: int| 0 <= k < PROMPT_ALIASES@.len() && #[trigger] PROMPT_ALIASES@[k]@ == name;
    keys_are_tried_in_order(members, 0, k);
    if name == "distilled_prompt"@ {
        keys_are_tried_in_order(members, 0, 0);
    }
    prompts_stand_under_known_keys(members, 0);
}

/// An object without a text under a known key gives its only text as the prompt, and nothing where it
/// has none or several.
pub proof fn only_texts_are_the_prompt(members: Seq<json::MemberView>)
    requires
        aliased_text(members, 0) is None,
    ensures
        match aliased_draft(members) {
            Some(made) => member_texts(members) == seq![made.distilled_prompt],
            None => member_texts(members).len() != 1,
        },
{
    if member_texts(members).len() == 1 {
        assert(seq![member_texts(members)[0]] =~= member_texts(members));
    }
}

/// The texts of a list are its strings that hold more than white space, trimmed.
pub proof fn texts_of_lists_are_trimmed(items: Seq<Option<Seq<char>>>, text: Seq<char>)
    ensures
        item_texts(items).contains(text) <==> text.len() > 0 && exists|k: int|
            #![trigger items[k]]
            0 <= k < items.len() && (items[k] matches Some(item) && text::spec_trim(item) == text),
    decreases items.len(),
{
    if items.len() > 0 {
        let fewer = items.drop_last();
        let before = item_texts(fewer);
        texts_of_lists_are_trimmed(fewer, text);
        assert(items[items.len() - 1] == items.last());
        match items.last() {
            Some(item) => {
                parts::pushed_item(before, text::spec_trim(item), text);
            },
            None => {},
        }
        if before.contains(text) {
            let k = choose|k: int|
                #![trigger fewer[k]]
                0 <= k < fewer.len() && (fewer[k] matches Some(item) && text::spec_trim(item)
                    == text);
            assert(items[k] == fewer[k]);
        }
        assert forall|k: int|
            #![trigger items[k]]
            text.len() > 0 && 0 <= k < items.len() && (items[k] matches Some(item)
                && text::spec_trim(item) == text) implies item_texts(items).contains(text) by {
            if k < items.len() - 1 {
                assert(fewer[k] == items[k]);
            }
        }
    }
}

/// The summary of an object is the list under the first known key that has one.
pub proof fn known_keys_give_the_summary(
    members: Seq<json::MemberView>,
    name: Seq<char>,
    items: Seq<Option<Seq<char>>>,
)
    requires
        is_summary_key(name),
        json::find_member(members, name, 0) matches Some((_, _, Some(given))) && given == items,
        forall|other: Seq<char>|
            is_summary_key(other) && other != name ==> !(
            #[trigger] json::find_member(members, other, 0) matches Some((_, _, Some(_)))),
    ensures
        aliased_items(members, 0) == item_texts(items),
{
    assert(SUMMARY_ALIASES@[0]@ == "removed_content_summary"@);
    assert(SUMMARY_ALIASES@[1]@ == "removed_summary"@);
    assert(SUMMARY_ALIASES@[2]@ == "removed"@);
    assert(SUMMARY_ALIASES@[3]@ == "omitted"@);
    assert(SUMMARY_ALIASES@[4]@ == "削除内容"@);
    summaries_are_tried_in_order(members, name, items, 0);
}

/// Keys of summaries are tried in order.
proof fn summaries_are_tried_in_order(
    members: Seq<json::MemberView>,
    name: Seq<char>,
    items: Seq<Option<Seq<char>>>,
    i: int,
)
    requires
        0 <= i < SUMMARY_ALIASES@.len(),
        json::find_member(members, name, 0) matches Some((_, _, Some(given))) && given == items,
        exists|k: int| i <= k < SUMMARY_ALIASES@.len() && #[trigger] SUMMARY_ALIASES@[k]@ == name,
        forall|k: int|
            0 <= k < SUMMARY_ALIASES@.len() && #[trigger] SUMMARY_ALIASES@[k]@ != name ==> !(
            json::find_member(members, SUMMARY_ALIASES@[k]@, 0) matches Some((_, _, Some(_)))),
    ensures
        aliased_items(members, i) == item_texts(items),
    decreases SUMMARY_ALIASES@.len() - i,
{
    if SUMMARY_ALIASES@[i]@ != name {
        summaries_are_tried_in_order(members, name, items, i + 1);
    }
}

/// An object as it was asked for is read as it is written: the string under the key of the prompt,
/// and the strings under that of the summary, none where it is left out.
pub proof fn asked_for_objects_are_read_as_written(
    json_text: Seq<char>,
    fields: Seq<(Seq<char>, Seq<char>)>,
    items: Option<Seq<Seq<char>>>,
    members: Result<Option<Seq<json::MemberView>>, Seq<char>>,
    prompt: Seq<char>,
    summary: Seq<Seq<char>>,
)
    requires
        times_given(fragments::spec_top_level_keys(json_text), "distilled_prompt"@) <= 1,
        times_given(fragments::spec_top_level_keys(json_text), "removed_content_summary"@) <= 1,
        json::find_field(fields, "distilled_prompt"@, 0) matches Some(text) && json::json_string(
            text,
        ) == Some(prompt),
        match json::find_field(fields, "removed_content_summary"@, 0) {
            Some(text) => json::json_strings(text) == Some(summary),
            None => summary.len() == 0,
        },
    ensures
        draft_of_json(json_text, Some(fields), items, members) == Ok::<
            draft::DraftView,
            error::ErrorView,
        >(draft::DraftView { distilled_prompt: prompt, removed_content_summary: summary }),
{
    if summary.len() == 0 {
        assert(summary =~= Seq::empty());
    }
}

/// An output that stands for a string is the prompt, without labels around it; one without a brace,
/// and without the key that was asked for at its start, is refused.
pub proof fn plain_outputs_are_read_or_refused(output: Seq<char>, prompt: Seq<char>)
    ensures
        draft_of_output(output, Some(prompt)) == Ok::<draft::DraftView, error::ErrorView>(
            draft::DraftView {
                distilled_prompt: fragments::spec_clean_distilled_prompt_text(prompt),
                removed_content_summary: Seq::empty(),
            },
        ),
        text::lacks(output, '{') && !text::spec_starts_with(text::spec_trim(output), "\""@)
            ==> draft_of_output(output, None) is Err,
{
    reveal_strlit("{");
    if text::lacks(output, '{') {
        text::lemma_find_from(output, "{"@, 0);
        if text::spec_find(output, "{"@) is Some {
            let k = text::spec_find(output, "{"@)->Some_0;
            assert(output.subrange(k, k + 1)[0] == output[k]);
        }
    }
}

} // verus!
