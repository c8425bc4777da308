//! Pieces of what a model writes: labels around the answer, JSON objects among other text, and objects that were cut off.
use vstd::prelude::*;
use crate::contents;
use crate::parts;
use crate::text;

verus! {

broadcast use crate::contents::group_contents;

/// Labels that models put before an answer.
pub const ANSWER_PREFIXES: [&'static str; 4] = ["実行指示:", "実行指示：", "短縮文:", "短縮文："];

/// Labels that models put after an answer.
pub const ANSWER_SUFFIXES: [&'static str; 6] = [
    ": 短縮文",
    "：短縮文",
    "： 短縮文",
    "; 短縮文",
    "；短縮文",
    "； 短縮文",
];

/// Keys under which an answer that was cut off may stand.
pub const INCOMPLETE_KEYS: [&'static str; 9] = [
    "distilled_prompt",
    "compressed_prompt",
    "compressed_text",
    "compressed",
    "output",
    "result",
    "prompt",
    "text",
    "summary",
];

/// Marks at which a model says that it is done.
pub const STOP_MARKERS: [&'static str; 3] = ["<|im_end|>", "<|endoftext|>", "</s>"];

/// The state of [`clean_distilled_prompt_text`] after the given items.
pub open spec fn spec_prefixes_dropped(items: Seq<&str>, cleaned: Seq<char>) -> Seq<char>
    decreases items.len(),
{
    if items.len() == 0 {
        cleaned
    } else {
        let cleaned = spec_prefixes_dropped(items.drop_last(), cleaned);
        let prefix = items.last()@;
        match text::spec_strip_prefix(cleaned, prefix) {
            Some(stripped) => text::spec_trim(stripped),
            None => cleaned,
        }
    }
}

/// The state of [`clean_distilled_prompt_text`] after the given items.
pub open spec fn spec_suffixes_dropped(items: Seq<&str>, cleaned: Seq<char>) -> Seq<char>
    decreases items.len(),
{
    if items.len() == 0 {
        cleaned
    } else {
        let cleaned = spec_suffixes_dropped(items.drop_last(), cleaned);
        let suffix = items.last()@;
        match text::spec_strip_suffix(cleaned, suffix) {
            Some(stripped) => text::spec_trim(stripped),
            None => cleaned,
        }
    }
}

/// Value of [`clean_distilled_prompt_text`].
pub open spec fn spec_clean_distilled_prompt_text(text: Seq<char>) -> Seq<char> {
    let cleaned = text::spec_trim(text);
    let cleaned = spec_prefixes_dropped(ANSWER_PREFIXES@, cleaned);
    spec_suffixes_dropped(ANSWER_SUFFIXES@, cleaned)
}

/// The text without labels around it.
pub fn clean_distilled_prompt_text(text: &str) -> (r: String)
    ensures
        r@ == spec_clean_distilled_prompt_text(text@),
{
    let mut cleaned: String = text::trim(text);
    let ghost initial_cleaned = cleaned@;
    let mut i: usize = 0;
    while i < ANSWER_PREFIXES.len()
        invariant
            i <= ANSWER_PREFIXES@.len(),
            cleaned@ == spec_prefixes_dropped(ANSWER_PREFIXES@.take(i as int), initial_cleaned),
        decreases ANSWER_PREFIXES@.len() - i,
    {
        assert(ANSWER_PREFIXES@.take(i + 1).drop_last() =~= ANSWER_PREFIXES@.take(i as int));
        let prefix: &str = ANSWER_PREFIXES[i];
        i = i + 1;
        match text::strip_prefix(&cleaned, prefix) {
            Some(stripped) => {
                cleaned = text::trim(&stripped);
            },
            None => {
            },
        }
    }
    assert(ANSWER_PREFIXES@.take(ANSWER_PREFIXES@.len() as int) =~= ANSWER_PREFIXES@);
    let ghost initial_cleaned_ = cleaned@;
    let mut i: usize = 0;
    while i < ANSWER_SUFFIXES.len()
        invariant
            i <= ANSWER_SUFFIXES@.len(),
            cleaned@ == spec_suffixes_dropped(ANSWER_SUFFIXES@.take(i as int), initial_cleaned_),
        decreases ANSWER_SUFFIXES@.len() - i,
    {
        assert(ANSWER_SUFFIXES@.take(i + 1).drop_last() =~= ANSWER_SUFFIXES@.take(i as int));
        let suffix: &str = ANSWER_SUFFIXES[i];
        i = i + 1;
        match text::strip_suffix(&cleaned, suffix) {
            Some(stripped) => {
                cleaned = text::trim(&stripped);
            },
            None => {
            },
        }
    }
    assert(ANSWER_SUFFIXES@.take(ANSWER_SUFFIXES@.len() as int) =~= ANSWER_SUFFIXES@);
    cleaned
}

/// The state of [`trim_after_stop_marker`] after the given items.
pub open spec fn spec_stop_reached(items: Seq<&str>, stopped: Seq<char>) -> Seq<char>
    decreases items.len(),
{
    if items.len() == 0 {
        stopped
    } else {
        let stopped = spec_stop_reached(items.drop_last(), stopped);
        let marker = items.last()@;
        match text::spec_split_once(stopped, marker) {
            Some(sides) => sides.0,
            None => stopped,
        }
    }
}

/// Value of [`trim_after_stop_marker`].
pub open spec fn spec_trim_after_stop_marker(output: Seq<char>) -> Seq<char> {
    let stopped = output;
    spec_stop_reached(STOP_MARKERS@, stopped)
}

/// The output up to the first mark at which the model says that it is done.
pub fn trim_after_stop_marker(output: &str) -> (r: String)
    ensures
        r@ == spec_trim_after_stop_marker(output@),
{
    let mut stopped: String = output.to_owned();
    let ghost initial_stopped = stopped@;
    let mut i: usize = 0;
    while i < STOP_MARKERS.len()
        invariant
            i <= STOP_MARKERS@.len(),
            stopped@ == spec_stop_reached(STOP_MARKERS@.take(i as int), initial_stopped),
        decreases STOP_MARKERS@.len() - i,
    {
        assert(STOP_MARKERS@.take(i + 1).drop_last() =~= STOP_MARKERS@.take(i as int));
        let marker: &str = STOP_MARKERS[i];
        i = i + 1;
        match text::split_once(&stopped, marker) {
            Some(sides) => {
                stopped = sides.0.clone();
            },
            None => {
            },
        }
    }
    assert(STOP_MARKERS@.take(STOP_MARKERS@.len() as int) =~= STOP_MARKERS@);
    stopped
}

/// The character that stands for the given one after a backslash.
pub open spec fn spec_unescaped(c: char) -> char {
    if c == 'n' {
        '\n'
    } else if c == 'r' {
        '\r'
    } else if c == 't' {
        '\t'
    } else {
        c
    }
}

/// The character that stands for the given one after a backslash.
pub fn unescaped(c: char) -> (r: char)
    ensures
        r == spec_unescaped(c),
{
    match c {
        'n' => '\n',
        'r' => '\r',
        't' => '\t',
        other => other,
    }
}

/// What [`quoted_start`] comes to from position `i` of the items on.
pub open spec fn spec_quote_read(
    items: Seq<char>,
    i: int,
    text: Seq<char>,
    escaped: bool,
) -> (Seq<char>, bool)
    decreases items.len() - i,
{
    if i >= items.len() {
        (text, escaped)
    } else {
        let c = items[i];
        if escaped {
            let text = text.push(spec_unescaped(c));
            let escaped = false;
            spec_quote_read(items, i + 1, text, escaped)
        } else {
            if c == '\\' {
                let escaped = true;
                spec_quote_read(items, i + 1, text, escaped)
            } else {
                if c == '"' {
                    (text, escaped)
                } else {
                    let text = text.push(c);
                    spec_quote_read(items, i + 1, text, escaped)
                }
            }
        }
    }
}

/// Value of [`quoted_start`].
pub open spec fn spec_quoted_start(value: Seq<char>) -> Seq<char> {
    let text = Seq::<char>::empty();
    let escaped = false;
    let (text, escaped) = spec_quote_read(value, 0, text, escaped);
    text
}

/// The text up to the next quote, with what backslashes stand for.
pub fn quoted_start(value: &str) -> (r: String)
    ensures
        r@ == spec_quoted_start(value@),
{
    let mut text: String = String::new();
    let mut escaped: bool = false;
    let characters: Vec<char> = text::to_chars(value);
    let ghost goal = spec_quote_read(characters@, 0, text@, escaped);
    let mut i: usize = 0;
    while i < characters.len()
        invariant_except_break
            goal == spec_quote_read(characters@, i as int, text@, escaped),
        invariant
            i <= characters@.len(),
        ensures
            goal == (text@, escaped),
        decreases characters@.len() - i,
    {
        let c: char = characters[i];
        i = i + 1;
        if escaped {
            text.push(unescaped(c));
            escaped = false;
            continue;
        }
        if c == '\\' {
            escaped = true;
        } else {
            if c == '"' {
                break;
            }
            text.push(c);
        }
    }
    text
}

/// Value of [`incomplete_value`].
#[verifier::opaque]
pub open spec fn spec_incomplete_value(after_key: Seq<char>) -> Seq<char> {
    match text::spec_split_once(after_key, ":"@) {
        Some(sides) => {
            let value = text::spec_trim_start(sides.1);
            match text::spec_strip_prefix(value, "\""@) {
                Some(quoted) => {
                    text::spec_trim(
                        text::spec_trim_end_any(text::spec_trim(spec_quoted_start(quoted)), "\\"@),
                    )
                },
                None => {
                    text::spec_trim_any(
                        text::spec_trim(text::spec_head_until(value, ",\n\r}"@)),
                        "\""@,
                    )
                },
            }
        },
        None => Seq::<char>::empty(),
    }
}

/// The value after a key and a colon, as far as it goes.
pub fn incomplete_value(after_key: &str) -> (r: String)
    ensures
        r@ == spec_incomplete_value(after_key@),
{
    proof {
        reveal(spec_incomplete_value);
    }
    match text::split_once(after_key, ":") {
        Some(sides) => {
            let value: String = text::trim_start(&sides.1);
            match text::strip_prefix(&value, "\"") {
                Some(quoted) => {
                    text::trim(&text::trim_end_any(&text::trim(&quoted_start(&quoted)), "\\"))
                },
                None => {
                    text::trim_any(&text::trim(&text::head_until(&value, ",\n\r}")), "\"")
                },
            }
        },
        None => {
            String::new()
        },
    }
}

/// What [`extract_incomplete_distilled_prompt`] comes to from position `i` of the items on.
pub open spec fn spec_incomplete_found(
    items: Seq<&str>,
    i: int,
    output: Seq<char>,
) -> Option<Seq<char>>
    decreases items.len() - i,
{
    if i >= items.len() {
        None
    } else {
        let key = items[i]@;
        match text::spec_split_once(output, "\""@ + key + "\""@) {
            None => spec_incomplete_found(items, i + 1, output),
            Some(sides) => {
                if !text::spec_contains(sides.1, ":"@) {
                    None
                } else {
                    let value = spec_incomplete_value(sides.1);
                    if value.len() > 0 {
                        Some(value)
                    } else {
                        spec_incomplete_found(items, i + 1, output)
                    }
                }
            },
        }
    }
}

/// Value of [`extract_incomplete_distilled_prompt`].
#[verifier::opaque]
pub open spec fn spec_extract_incomplete_distilled_prompt(output: Seq<char>) -> Option<Seq<char>> {
    spec_incomplete_found(INCOMPLETE_KEYS@, 0, output)
}

/// The answer in an object that was cut off, under the first known key that has one.
pub fn extract_incomplete_distilled_prompt(output: &str) -> (r: Option<String>)
    ensures
        contents::view_option(r) == spec_extract_incomplete_distilled_prompt(output@),
{
    proof {
        reveal(spec_extract_incomplete_distilled_prompt);
    }
    let ghost goal = spec_incomplete_found(INCOMPLETE_KEYS@, 0, output@);
    let mut i: usize = 0;
    while i < INCOMPLETE_KEYS.len()
        invariant
            i <= INCOMPLETE_KEYS@.len(),
            goal == spec_incomplete_found(INCOMPLETE_KEYS@, i as int, output@),
            goal == spec_extract_incomplete_distilled_prompt(output@),
        decreases INCOMPLETE_KEYS@.len() - i,
    {
        let key: &str = INCOMPLETE_KEYS[i];
        i = i + 1;
        let sides = match text::split_once(output, &text::concat3("\"", key, "\"")) {
            Some(value) => value,
            None => {
                continue;
            },
        };
        if !text::contains(&sides.1, ":") {
            return None;
        }
        let value: String = incomplete_value(&sides.1);
        if text::char_count(&value) > 0 {
            return Some(value);
        }
    }
    None
}

/// Where in JSON a text ends: how many objects are open, and whether a string is, with an escape
/// open in it.
pub struct ObjectScan {
    pub depth: int,
    pub in_string: bool,
    pub escaped: bool,
}

/// The place after one more character. Strings count inside objects only.
pub open spec fn object_step(scan: ObjectScan, c: char) -> ObjectScan {
    if scan.in_string {
        ObjectScan {
            depth: scan.depth,
            in_string: scan.escaped || c != '"',
            escaped: !scan.escaped && c == '\\',
        }
    } else {
        ObjectScan {
            depth: if c == '{' {
                scan.depth + 1
            } else if c == '}' && scan.depth > 0 {
                scan.depth - 1
            } else {
                scan.depth
            },
            in_string: c == '"' && scan.depth > 0,
            escaped: false,
        }
    }
}

/// Where in JSON a text ends.
pub open spec fn object_scan(text: Seq<char>) -> ObjectScan
    decreases text.len(),
{
    if text.len() == 0 {
        ObjectScan { depth: 0, in_string: false, escaped: false }
    } else {
        object_step(object_scan(text.drop_last()), text.last())
    }
}

/// The text ends with the brace that closes the one object that is open.
pub open spec fn closes_object(text: Seq<char>) -> bool {
    &&& text.len() > 0
    &&& text.last() == '}'
    &&& !object_scan(text.drop_last()).in_string
    &&& object_scan(text.drop_last()).depth == 1
}

/// An object is complete at the end, and none was before it.
pub open spec fn is_first_object_end(text: Seq<char>, end: int) -> bool {
    &&& 0 < end <= text.len()
    &&& closes_object(text.take(end))
    &&& forall|k: int| 0 <= k < end ==> !closes_object(#[trigger] text.take(k))
}

/// Value of [`first_complete_json_object`].
pub open spec fn spec_first_complete_json_object(output: Seq<char>) -> Option<Seq<char>> {
    if exists|end: int| is_first_object_end(output, end) {
        Some(output.take(choose|end: int| is_first_object_end(output, end)))
    } else {
        None
    }
}

/// There is one first place at which an object is complete.
pub proof fn first_object_end_is_unique(text: Seq<char>, a: int, b: int)
    requires
        is_first_object_end(text, a),
        is_first_object_end(text, b),
    ensures
        a == b,
{
    if a < b {
        assert(!closes_object(text.take(a)));
    } else if b < a {
        assert(!closes_object(text.take(b)));
    }
}

/// Wherever an object is complete, one was complete first.
proof fn some_object_is_first(text: Seq<char>, end: int)
    requires
        0 < end <= text.len(),
        closes_object(text.take(end)),
    ensures
        exists|first: int| first <= end && #[trigger] is_first_object_end(text, first),
    decreases end,
{
    if exists|k: int| 0 <= k < end && closes_object(#[trigger] text.take(k)) {
        let k = choose|k: int| 0 <= k < end && closes_object(#[trigger] text.take(k));
        assert(text.take(0).len() == 0);
        some_object_is_first(text, k);
    } else {
        assert(is_first_object_end(text, end));
    }
}

/// An object is found exactly where one is complete somewhere. What is found is the shortest
/// beginning of the text that ends with one.
pub proof fn found_object_is_the_shortest(text: Seq<char>)
    ensures
        spec_first_complete_json_object(text) is Some <==> exists|end: int|
            0 <= end <= text.len() && closes_object(#[trigger] text.take(end)),
        match spec_first_complete_json_object(text) {
            Some(object) => object.is_prefix_of(text) && closes_object(object) && forall|end: int|
                0 <= end < object.len() ==> !closes_object(#[trigger] text.take(end)),
            None => true,
        },
{
    if exists|end: int| 0 <= end <= text.len() && closes_object(#[trigger] text.take(end)) {
        let end = choose|end: int| 0 <= end <= text.len() && closes_object(#[trigger] text.take(end));
        assert(text.take(0).len() == 0);
        some_object_is_first(text, end);
    }
    if exists|end: int| is_first_object_end(text, end) {
        let end = choose|end: int| is_first_object_end(text, end);
        assert(text.take(end).is_prefix_of(text));
        assert(closes_object(text.take(end)));
    }
}

/// What is found does not change where more follows.
pub proof fn later_text_does_not_move_the_object(text: Seq<char>, more: Seq<char>)
    requires
        spec_first_complete_json_object(text) is Some,
    ensures
        spec_first_complete_json_object(text + more) == spec_first_complete_json_object(text),
{
    let end = choose|end: int| is_first_object_end(text, end);
    let whole = text + more;
    assert(whole.take(end) =~= text.take(end));
    assert forall|k: int| 0 <= k < end implies !closes_object(#[trigger] whole.take(k)) by {
        assert(whole.take(k) =~= text.take(k));
    }
    assert(is_first_object_end(whole, end));
    first_object_end_is_unique(
        whole,
        end,
        choose|other: int| is_first_object_end(whole, other),
    );
}

/// The text up to the end of the first complete JSON object in it.
pub fn first_complete_json_object(output: &str) -> (r: Option<String>)
    ensures
        contents::view_option(r) == spec_first_complete_json_object(output@),
{
    let mut read: String = String::new();
    let mut depth: usize = 0;
    let mut in_string: bool = false;
    let mut escaped: bool = false;
    let characters: Vec<char> = text::to_chars(output);
    let mut i: usize = 0;
    while i < characters.len()
        invariant
            i <= characters@.len(),
            characters@ == output@,
            read@ == output@.take(i as int),
            depth <= i,
            (ObjectScan { depth: depth as int, in_string, escaped }) == object_scan(
                output@.take(i as int),
            ),
            escaped ==> in_string,
            forall|k: int| 0 <= k <= i ==> !closes_object(#[trigger] output@.take(k)),
        decreases characters@.len() - i,
    {
        let c: char = characters[i];
        proof {
            assert(output@.take(i + 1).drop_last() =~= output@.take(i as int));
            assert(output@.take(i + 1).last() == c);
        }
        i = i + 1;
        read.push(c);
        assert(read@ =~= output@.take(i as int));
        if in_string {
            if escaped {
                escaped = false;
            } else if c == '\\' {
                escaped = true;
            } else if c == '"' {
                in_string = false;
            }
            continue;
        }
        if c == '"' && depth > 0 {
            in_string = true;
        }
        if c == '{' {
            depth = depth + 1;
        }
        if c == '}' && depth > 0 {
            depth = depth - 1;
            if depth == 0 {
                proof {
                    assert(is_first_object_end(output@, i as int));
                    first_object_end_is_unique(
                        output@,
                        i as int,
                        choose|end: int| is_first_object_end(output@, end),
                    );
                }
                return Some(read);
            }
        }
    }
    proof {
        found_object_is_the_shortest(output@);
        assert forall|end: int| !is_first_object_end(output@, end) by {
            if 0 < end <= output@.len() {
                assert(!closes_object(output@.take(end)));
            }
        }
    }
    None
}

/// How far the keys of an object are read: those that are complete, the one that is being read,
/// and where in JSON the text ends.
pub struct KeyScan {
    pub keys: Seq<Seq<char>>,
    pub current: Seq<char>,
    pub reading: bool,
    pub in_string: bool,
    pub escaped: bool,
    pub expects: bool,
    pub depth: int,
}

/// The keys after one more character of a string.
pub open spec fn key_step_in_string(scan: KeyScan, c: char) -> KeyScan {
    if !scan.escaped && c == '"' {
        KeyScan {
            keys: if scan.reading {
                scan.keys.push(scan.current)
            } else {
                scan.keys
            },
            current: Seq::empty(),
            reading: false,
            in_string: false,
            ..scan
        }
    } else {
        KeyScan {
            current: if scan.reading {
                scan.current.push(c)
            } else {
                scan.current
            },
            escaped: !scan.escaped && c == '\\',
            ..scan
        }
    }
}

/// The keys after one more character. A string is a key where the outermost object expects one:
/// after its brace and after each of its commas, up to the colon.
pub open spec fn key_step(scan: KeyScan, c: char) -> KeyScan {
    if scan.in_string {
        key_step_in_string(scan, c)
    } else {
        KeyScan {
            in_string: c == '"',
            reading: c == '"' && scan.depth == 1 && scan.expects,
            depth: if c == '{' || c == '[' {
                scan.depth + 1
            } else if (c == '}' || c == ']') && scan.depth > 0 {
                scan.depth - 1
            } else {
                scan.depth
            },
            expects: if c == '{' {
                scan.depth == 0
            } else if c == '[' || c == ':' {
                false
            } else {
                scan.expects || (c == ',' && scan.depth == 1)
            },
            ..scan
        }
    }
}

/// How far the keys of an object are read after a text.
pub open spec fn key_scan(text: Seq<char>) -> KeyScan
    decreases text.len(),
{
    if text.len() == 0 {
        KeyScan {
            keys: Seq::empty(),
            current: Seq::empty(),
            reading: false,
            in_string: false,
            escaped: false,
            expects: false,
            depth: 0,
        }
    } else {
        key_step(key_scan(text.drop_last()), text.last())
    }
}

/// Value of [`top_level_keys`].
pub open spec fn spec_top_level_keys(json: Seq<char>) -> Seq<Seq<char>> {
    key_scan(json).keys
}

/// The keys of an object as they are written between their quotes, those of objects inside it
/// left out.
pub fn top_level_keys(json: &str) -> (r: Vec<String>)
    ensures
        contents::views(r@) == spec_top_level_keys(json@),
{
    let mut keys: Vec<String> = Vec::new();
    let mut current: String = String::new();
    let mut depth: usize = 0;
    let mut in_string: bool = false;
    let mut escaped: bool = false;
    let mut reading: bool = false;
    let mut expects: bool = false;
    let characters: Vec<char> = text::to_chars(json);
    assert(contents::views(keys@) =~= Seq::empty());
    let mut i: usize = 0;
    while i < characters.len()
        invariant
            i <= characters@.len(),
            depth <= i,
            reading ==> in_string,
            escaped ==> in_string,
            !reading ==> current@.len() == 0,
            (KeyScan {
                keys: contents::views(keys@),
                current: current@,
                reading,
                in_string,
                escaped,
                expects,
                depth: depth as int,
            }) == key_scan(characters@.take(i as int)),
        decreases characters@.len() - i,
    {
        assert(characters@.take(i + 1).drop_last() =~= characters@.take(i as int));
        let c: char = characters[i];
        i = i + 1;
        if in_string {
            if !escaped && c == '"' {
                in_string = false;
                if reading {
                    keys.push(current);
                    current = String::new();
                    reading = false;
                }
                assert(current@ =~= Seq::empty());
                continue;
            }
            if reading {
                current.push(c);
            }
            escaped = !escaped && c == '\\';
            continue;
        }
        if c == '"' {
            in_string = true;
            reading = depth == 1 && expects;
        }
        if c == '{' || c == '[' {
            expects = c == '{' && depth == 0;
            depth = depth + 1;
        }
        if (c == '}' || c == ']') && depth > 0 {
            depth = depth - 1;
        }
        if c == ',' && depth == 1 {
            expects = true;
        }
        if c == ':' {
            expects = false;
        }
    }
    assert(characters@.take(characters@.len() as int) =~= characters@);
    keys
}

/// Keys that were read stay where more follows.
pub proof fn later_text_keeps_the_keys(text: Seq<char>, more: Seq<char>)
    ensures
        spec_top_level_keys(text).is_prefix_of(spec_top_level_keys(text + more)),
    decreases more.len(),
{
    if more.len() == 0 {
        assert(text + more =~= text);
    } else {
        later_text_keeps_the_keys(text, more.drop_last());
        assert((text + more).drop_last() =~= text + more.drop_last());
        let before = spec_top_level_keys(text + more.drop_last());
        let after = spec_top_level_keys(text + more);
        assert(before.is_prefix_of(after)) by {
            assert(after == before || after.drop_last() =~= before);
        }
        let keys = spec_top_level_keys(text);
        assert(keys =~= after.take(keys.len() as int));
    }
}

/// The key stands in the text from the position on, between quotes.
pub open spec fn is_quoted_at(text: Seq<char>, key: Seq<char>, start: int) -> bool {
    &&& 0 < start
    &&& start + key.len() < text.len()
    &&& text[start - 1] == '"'
    &&& text.subrange(start, start + key.len()) == key
    &&& text[start + key.len()] == '"'
}

/// The key stands somewhere in the text, between quotes.
pub open spec fn stands_quoted(text: Seq<char>, key: Seq<char>) -> bool {
    exists|start: int| is_quoted_at(text, key, start)
}

/// What is read of a key stands at the end of the text after a quote, and every key that is
/// complete between quotes.
proof fn keys_have_their_places(text: Seq<char>)
    ensures
        ({
            let scan = key_scan(text);
            &&& scan.reading ==> scan.in_string && scan.current.len() < text.len() && text[text.len()
                - scan.current.len() - 1] == '"' && text.skip(text.len() - scan.current.len())
                == scan.current
            &&& !scan.reading ==> scan.current.len() == 0
            &&& forall|n: int|
                0 <= n < scan.keys.len() ==> #[trigger] stands_quoted(text, scan.keys[n])
        }),
    decreases text.len(),
{
    if text.len() > 0 {
        let earlier = text.drop_last();
        let before = key_scan(earlier);
        let scan = key_scan(text);
        let c = text.last();
        keys_have_their_places(earlier);
        assert(text =~= earlier.push(c));
        if scan.reading {
            if before.reading {
                let length = before.current.len();
                assert(text.skip(text.len() - scan.current.len()) =~= earlier.skip(
                    earlier.len() - length,
                ).push(c));
            } else {
                assert(text.skip(text.len() as int) =~= Seq::<char>::empty());
                assert(scan.current =~= Seq::<char>::empty());
            }
        }
        assert forall|n: int| 0 <= n < scan.keys.len() implies #[trigger] stands_quoted(
            text,
            scan.keys[n],
        ) by {
            if n < before.keys.len() {
                assert(scan.keys[n] == before.keys[n]);
                assert(stands_quoted(earlier, before.keys[n]));
                let start = choose|start: int| is_quoted_at(earlier, before.keys[n], start);
                let key = before.keys[n];
                assert(text.subrange(start, start + key.len()) =~= earlier.subrange(
                    start,
                    start + key.len(),
                ));
                assert(is_quoted_at(text, scan.keys[n], start));
            } else {
                let key = before.current;
                let start = earlier.len() - key.len();
                assert(scan.keys[n] == key);
                assert(text.subrange(start, start + key.len()) =~= earlier.skip(start));
                assert(is_quoted_at(text, key, start));
            }
        }
    }
}

/// Every key stands in the text between quotes.
pub proof fn keys_stand_between_quotes(json: Seq<char>, n: int)
    requires
        0 <= n < spec_top_level_keys(json).len(),
    ensures
        stands_quoted(json, spec_top_level_keys(json)[n]),
{
    keys_have_their_places(json);
    assert(stands_quoted(json, key_scan(json).keys[n]));
}

/// What stands before a mark lacks it, and a start of a text lacks what the text lacks.
proof fn starts_lack_what_texts_lack(text: Seq<char>, n: int, marker: Seq<char>)
    requires
        0 <= n <= text.len(),
        !text::spec_contains(text, marker),
    ensures
        !text::spec_contains(text.take(n), marker),
{
    if text::spec_contains(text.take(n), marker) {
        let i = choose|i: int| #[trigger] text::occurs_at(text.take(n), marker, i);
        assert(text.subrange(i, i + marker.len()) =~= text.take(n).subrange(
            i,
            i + marker.len(),
        ));
        assert(text::occurs_at(text, marker, i));
    }
}

/// Outputs are cut at each of the marks.
proof fn outputs_are_cut(items: Seq<&str>, output: Seq<char>)
    requires
        forall|k: int| 0 <= k < items.len() ==> (#[trigger] items[k]@).len() > 0,
    ensures
        spec_stop_reached(items, output).len() <= output.len(),
        spec_stop_reached(items, output) == output.take(
            spec_stop_reached(items, output).len() as int,
        ),
        forall|k: int|
            0 <= k < items.len() ==> !text::spec_contains(
                spec_stop_reached(items, output),
                #[trigger] items[k]@,
            ),
    decreases items.len(),
{
    if items.len() > 0 {
        let fewer = items.drop_last();
        let before = spec_stop_reached(fewer, output);
        let marker = items.last()@;
        let after = spec_stop_reached(items, output);
        assert forall|k: int| 0 <= k < fewer.len() implies (#[trigger] fewer[k]@).len() > 0 by {
            assert(fewer[k] == items[k]);
        }
        outputs_are_cut(fewer, output);
        text::lemma_find_from(before, marker, 0);
        assert(items[items.len() - 1]@ == marker);
        match text::spec_find(before, marker) {
            Some(place) => {
                assert(after == before.take(place));
                assert(after =~= output.take(place));
                if text::spec_contains(after, marker) {
                    let i = choose|i: int| #[trigger] text::occurs_at(after, marker, i);
                    assert(before.subrange(i, i + marker.len()) =~= after.subrange(
                        i,
                        i + marker.len(),
                    ));
                    assert(text::occurs_at(before, marker, i));
                }
            },
            None => {
                if text::spec_contains(before, marker) {
                    let i = choose|i: int| #[trigger] text::occurs_at(before, marker, i);
                }
            },
        }
        assert forall|k: int| 0 <= k < items.len() implies !text::spec_contains(
            after,
            #[trigger] items[k]@,
        ) by {
            if k < items.len() - 1 {
                assert(fewer[k] == items[k]);
                starts_lack_what_texts_lack(before, after.len() as int, items[k]@);
                assert(before.take(after.len() as int) =~= after);
            }
        }
    } else {
        assert(output.take(output.len() as int) =~= output);
    }
}

/// An output ends before the first mark at which the model says that it is done: what stays is a
/// start of it that holds none of the marks.
pub proof fn outputs_end_at_stop_marks(output: Seq<char>, marker: Seq<char>)
    requires
        marker == "<|im_end|>"@ || marker == "<|endoftext|>"@ || marker == "</s>"@,
    ensures
        !text::spec_contains(spec_trim_after_stop_marker(output), marker),
        spec_trim_after_stop_marker(output).len() <= output.len(),
        spec_trim_after_stop_marker(output) == output.take(
            spec_trim_after_stop_marker(output).len() as int,
        ),
{
    reveal_strlit("<|im_end|>");
    reveal_strlit("<|endoftext|>");
    reveal_strlit("</s>");
    assert(STOP_MARKERS@[0]@ == "<|im_end|>"@);
    assert(STOP_MARKERS@[1]@ == "<|endoftext|>"@);
    assert(STOP_MARKERS@[2]@ == "</s>"@);
    outputs_are_cut(STOP_MARKERS@, output);
}

/// The text needs no escape between quotes.
pub open spec fn needs_no_escape(text: Seq<char>) -> bool {
    forall|i: int| 0 <= i < text.len() ==> #[trigger] text[i] != '"' && text[i] != '\\'
}

/// Characters that need no escape are read as they are.
proof fn plain_characters_are_read(items: Seq<char>, i: int, end: int, text: Seq<char>)
    requires
        0 <= i <= end <= items.len(),
        forall|k: int| i <= k < end ==> #[trigger] items[k] != '"' && items[k] != '\\',
    ensures
        spec_quote_read(items, i, text, false) == spec_quote_read(
            items,
            end,
            text + items.subrange(i, end),
            false,
        ),
    decreases end - i,
{
    if i < end {
        plain_characters_are_read(items, i + 1, end, text.push(items[i]));
        assert(text.push(items[i]) + items.subrange(i + 1, end) =~= text + items.subrange(i, end));
    } else {
        assert(text + items.subrange(i, end) =~= text);
    }
}

/// A quoted text is read up to the quote that ends it, or to the end where it was cut off.
pub proof fn quoted_texts_are_read(text: Seq<char>, rest: Seq<char>)
    requires
        needs_no_escape(text),
    ensures
        spec_quoted_start(text + seq!['"'] + rest) == text,
        spec_quoted_start(text) == text,
{
    let whole = text + seq!['"'] + rest;
    let end = text.len() as int;
    let nothing = Seq::<char>::empty();
    assert forall|k: int| 0 <= k < end implies #[trigger] whole[k] != '"' && whole[k] != '\\' by {
        assert(whole[k] == text[k]);
    }
    plain_characters_are_read(whole, 0, end, nothing);
    plain_characters_are_read(text, 0, end, nothing);
    assert(whole[end] == '"');
    assert(nothing + whole.subrange(0, end) =~= text);
    assert(nothing + text.subrange(0, end) =~= text);
}

/// An escape between quotes stands for one character: a line feed, a carriage return, a tabulator,
/// or the character behind the backslash.
pub proof fn escapes_are_read(text: Seq<char>, c: char, rest: Seq<char>)
    requires
        needs_no_escape(text),
    ensures
        spec_quoted_start(text + seq!['\\', c] + seq!['"'] + rest) == text.push(
            if c == 'n' {
                '\n'
            } else if c == 'r' {
                '\r'
            } else if c == 't' {
                '\t'
            } else {
                c
            },
        ),
{
    let whole = text + seq!['\\', c] + seq!['"'] + rest;
    let end = text.len() as int;
    let nothing = Seq::<char>::empty();
    assert forall|k: int| 0 <= k < end implies #[trigger] whole[k] != '"' && whole[k] != '\\' by {
        assert(whole[k] == text[k]);
    }
    plain_characters_are_read(whole, 0, end, nothing);
    assert(nothing + whole.subrange(0, end) =~= text);
    assert(whole[end] == '\\' && whole[end + 1] == c && whole[end + 2] == '"');
    reveal_with_fuel(spec_quote_read, 4);
}

/// The prompt is found in an object that was cut off: what stands behind its key and colon between
/// quotes, up to the end.
pub proof fn prompts_are_found_in_cut_objects(before: Seq<char>, text: Seq<char>)
    requires
        text::lacks(before, '"'),
        needs_no_escape(text),
        text.len() > 0,
        !text::spec_is_whitespace(text[0]),
        !text::spec_is_whitespace(text[text.len() - 1]),
    ensures
        spec_extract_incomplete_distilled_prompt(
            before + "\"distilled_prompt\""@ + (":"@ + ("\""@ + text)),
        ) == Some(text),
{
    reveal(spec_extract_incomplete_distilled_prompt);
    reveal(spec_incomplete_value);
    reveal_strlit("\"distilled_prompt\"");
    reveal_strlit("distilled_prompt");
    reveal_strlit("\"");
    reveal_strlit(":");
    reveal_strlit("\\");
    let key = "\"distilled_prompt\""@;
    let quoted = "\""@ + text;
    let tail = ":"@ + quoted;
    let whole = before + key + tail;
    assert(INCOMPLETE_KEYS@[0]@ == "distilled_prompt"@);
    assert("\""@ + "distilled_prompt"@ + "\""@ =~= key);
    text::split_texts_go_together(whole, key);
    let place = before.len() as int;
    assert(whole.subrange(place, place + key.len()) =~= key);
    assert(text::occurs_at(whole, key, place));
    match text::spec_split_once(whole, key) {
        Some((head, after)) => {
            let found = head.len() as int;
            if found < place {
                assert(whole[found] == key[0]);
                assert(whole[found] == before[found]);
            }
            assert(after =~= whole.skip(found + key.len()));
            assert(tail =~= whole.skip(found + key.len()));
        },
        None => {},
    }
    assert(":"@ =~= seq![':']);
    assert(tail[0] == ':');
    parts::first_place(tail, ':', 0);
    assert(tail.skip(1) =~= quoted);
    assert(tail.subrange(0, 1) =~= ":"@);
    assert(text::occurs_at(tail, ":"@, 0));
    assert(quoted[0] == '"');
    assert(text::spec_trim_start(quoted) == quoted);
    assert(quoted.subrange(0, 1) =~= "\""@);
    assert(quoted.skip(1) =~= text);
    quoted_texts_are_read(text, Seq::empty());
    let (start, end) = text::trimmed_texts_are_parts(text);
    assert(start == 0 && end == text.len());
    assert(text.subrange(0, text.len() as int) =~= text);
    assert("\\"@ =~= seq!['\\']);
    assert(text[text.len() - 1] != '\\');
    assert(text::spec_trim_end_any(text, "\\"@) == text);
}

/// The text is an answer without labels: it begins and ends with no white space, and with none of
/// the characters by which labels begin and end.
pub open spec fn is_bare_answer(text: Seq<char>) -> bool {
    &&& text.len() > 0
    &&& !text::spec_is_whitespace(text[0])
    &&& !text::spec_is_whitespace(text[text.len() - 1])
    &&& text[0] != '実'
    &&& text[0] != '短'
    &&& text[text.len() - 1] != '文'
}

/// A bare answer stays as it is, and a label before it is dropped.
pub proof fn labels_of_answers_are_dropped(label: Seq<char>, answer: Seq<char>)
    requires
        is_bare_answer(answer),
        label == "実行指示:"@ || label == "実行指示："@ || label == "短縮文:"@ || label == "短縮文："@,
    ensures
        spec_clean_distilled_prompt_text(answer) == answer,
        spec_clean_distilled_prompt_text(label + answer) == answer,
{
    reveal_strlit("実行指示:");
    reveal_strlit("実行指示：");
    reveal_strlit("短縮文:");
    reveal_strlit("短縮文：");
    let whole = label + answer;
    firm_answer(answer);
    assert(whole[0] == label[0]);
    assert(whole[whole.len() - 1] == answer[answer.len() - 1]);
    firm_answer(whole);
    no_prefix_is_dropped(answer);
    no_suffix_is_dropped(answer);
    one_prefix_is_dropped(label, answer);
}

/// A text that begins and ends with no white space is its own trimmed form.
proof fn firm_answer(text: Seq<char>)
    requires
        text.len() > 0,
        !text::spec_is_whitespace(text[0]),
        !text::spec_is_whitespace(text[text.len() - 1]),
    ensures
        text::spec_trim(text) == text,
{
    let (start, end) = text::trimmed_texts_are_parts(text);
    assert(start == 0 && end == text.len());
    assert(text.subrange(0, text.len() as int) =~= text);
}

/// A text that begins with another character has not the label before it.
proof fn starts_differ(text: Seq<char>, label: Seq<char>)
    requires
        text.len() > 0,
        label.len() > 0,
        text[0] != label[0],
    ensures
        text::spec_strip_prefix(text, label) is None,
{
    if text::spec_starts_with(text, label) {
        assert(text.subrange(0, label.len() as int)[0] == label[0]);
    }
}

/// No label is dropped before a bare answer.
proof fn no_prefix_is_dropped(answer: Seq<char>)
    requires
        is_bare_answer(answer),
    ensures
        spec_prefixes_dropped(ANSWER_PREFIXES@, answer) == answer,
        spec_prefixes_dropped(ANSWER_PREFIXES@.take(1), answer) == answer,
        spec_prefixes_dropped(ANSWER_PREFIXES@.take(2), answer) == answer,
        spec_prefixes_dropped(ANSWER_PREFIXES@.take(3), answer) == answer,
{
    reveal_strlit("実行指示:");
    reveal_strlit("実行指示：");
    reveal_strlit("短縮文:");
    reveal_strlit("短縮文：");
    let items = ANSWER_PREFIXES@;
    assert(items[0]@ == "実行指示:"@);
    assert(items[1]@ == "実行指示："@);
    assert(items[2]@ == "短縮文:"@);
    assert(items[3]@ == "短縮文："@);
    starts_differ(answer, "実行指示:"@);
    starts_differ(answer, "実行指示："@);
    starts_differ(answer, "短縮文:"@);
    starts_differ(answer, "短縮文："@);
    assert(items.drop_last() =~= items.take(3));
    assert(items.take(3).drop_last() =~= items.take(2));
    assert(items.take(2).drop_last() =~= items.take(1));
    assert(items.take(1).drop_last() =~= Seq::empty());
    reveal_with_fuel(spec_prefixes_dropped, 5);
}

/// One label is dropped before a bare answer.
proof fn one_prefix_is_dropped(label: Seq<char>, answer: Seq<char>)
    requires
        is_bare_answer(answer),
        text::spec_trim(answer) == answer,
        label == "実行指示:"@ || label == "実行指示："@ || label == "短縮文:"@ || label == "短縮文："@,
    ensures
        spec_prefixes_dropped(ANSWER_PREFIXES@, label + answer) == answer,
{
    reveal_strlit("実行指示:");
    reveal_strlit("実行指示：");
    reveal_strlit("短縮文:");
    reveal_strlit("短縮文：");
    let items = ANSWER_PREFIXES@;
    assert(items[0]@ == "実行指示:"@);
    assert(items[1]@ == "実行指示："@);
    assert(items[2]@ == "短縮文:"@);
    assert(items[3]@ == "短縮文："@);
    let whole = label + answer;
    assert(whole.subrange(0, label.len() as int) =~= label);
    assert(whole.skip(label.len() as int) =~= answer);
    assert(text::spec_strip_prefix(whole, label) == Some(answer));
    starts_differ(answer, "実行指示:"@);
    starts_differ(answer, "実行指示："@);
    starts_differ(answer, "短縮文:"@);
    starts_differ(answer, "短縮文："@);
    if label != "実行指示:"@ {
        other_label(whole, label, "実行指示:"@);
    }
    if label != "実行指示："@ && label != "実行指示:"@ {
        other_label(whole, label, "実行指示："@);
    }
    if label == "短縮文："@ {
        assert("短縮文："@[3] == '：' && "短縮文:"@[3] == ':');
        other_label(whole, label, "短縮文:"@);
    }
    assert(items.drop_last() =~= items.take(3));
    assert(items.take(3).drop_last() =~= items.take(2));
    assert(items.take(2).drop_last() =~= items.take(1));
    assert(items.take(1).drop_last() =~= Seq::empty());
    reveal_with_fuel(spec_prefixes_dropped, 5);
}

/// A text with a label has not another one that differs from it in a character.
proof fn other_label(text: Seq<char>, label: Seq<char>, other: Seq<char>)
    requires
        text::spec_starts_with(text, label),
        label.len() > 3,
        other.len() > 3,
        label[0] != other[0] || (label.len() == other.len() && label.last() != other.last()),
    ensures
        text::spec_strip_prefix(text, other) is None,
{
    if text::spec_starts_with(text, other) {
        assert(text.subrange(0, label.len() as int)[0] == label[0]);
        assert(text.subrange(0, other.len() as int)[0] == other[0]);
        let last = label.len() - 1;
        assert(text.subrange(0, label.len() as int)[last] == label[last]);
        if label.len() == other.len() {
            assert(text.subrange(0, other.len() as int)[last] == other[last]);
        }
    }
}

/// No label is dropped behind a bare answer.
proof fn no_suffix_is_dropped(answer: Seq<char>)
    requires
        is_bare_answer(answer),
    ensures
        spec_suffixes_dropped(ANSWER_SUFFIXES@, answer) == answer,
{
    no_suffixes_are_dropped(ANSWER_SUFFIXES@, answer);
}

/// Labels that end with another character are not dropped.
proof fn no_suffixes_are_dropped(items: Seq<&str>, answer: Seq<char>)
    requires
        is_bare_answer(answer),
        forall|i: int|
            0 <= i < items.len() ==> ANSWER_SUFFIXES@.contains(#[trigger] items[i]),
    ensures
        spec_suffixes_dropped(items, answer) == answer,
    decreases items.len(),
{
    if items.len() > 0 {
        let fewer = items.drop_last();
        assert forall|i: int| 0 <= i < fewer.len() implies ANSWER_SUFFIXES@.contains(
            #[trigger] fewer[i],
        ) by {
            assert(fewer[i] == items[i]);
        }
        no_suffixes_are_dropped(fewer, answer);
        assert(ANSWER_SUFFIXES@.contains(items[items.len() - 1]));
        labels_end_alike(items.last());
        let end = items.last()@;
        if text::spec_ends_with(answer, end) {
            let size = answer.len() as int;
            assert(answer.subrange(size - end.len(), size)[end.len() - 1] == end[end.len() - 1]);
        }
    }
}

/// Labels behind an answer end alike.
proof fn labels_end_alike(label: &str)
    requires
        ANSWER_SUFFIXES@.contains(label),
    ensures
        label@.len() > 0,
        label@[label@.len() - 1] == '文',
{
    reveal_strlit(": 短縮文");
    reveal_strlit("：短縮文");
    reveal_strlit("： 短縮文");
    reveal_strlit("; 短縮文");
    reveal_strlit("；短縮文");
    reveal_strlit("； 短縮文");
    let items = ANSWER_SUFFIXES@;
    assert(items[0]@ == ": 短縮文"@);
    assert(items[1]@ == "：短縮文"@);
    assert(items[2]@ == "： 短縮文"@);
    assert(items[3]@ == "; 短縮文"@);
    assert(items[4]@ == "；短縮文"@);
    assert(items[5]@ == "； 短縮文"@);
    let k = choose|k: int| 0 <= k < items.len() && items[k] == label;
}

} // verus!
