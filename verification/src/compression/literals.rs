//! Parts of text that a shorter version has to repeat letter by letter: code, file names and the codes and words of errors.
use vstd::prelude::*;
use crate::contents;
use crate::parts;
use crate::runtime::matching;
use crate::text;

verus! {

broadcast use crate::contents::group_contents;

/// Endings of file names.
pub const FILE_EXTENSIONS: [&'static str; 31] = [
    "bat",
    "cmd",
    "css",
    "csv",
    "dll",
    "env",
    "exe",
    "go",
    "graphql",
    "html",
    "java",
    "js",
    "json",
    "jsx",
    "kt",
    "lock",
    "log",
    "md",
    "pdf",
    "ps1",
    "py",
    "rs",
    "sh",
    "sql",
    "swift",
    "toml",
    "ts",
    "tsx",
    "txt",
    "yaml",
    "yml",
];

/// Names of files without an ending.
pub const FILE_BASENAMES: [&'static str; 3] = ["Dockerfile", "Makefile", "README"];

/// Characters besides letters and digits that a path may hold.
pub const PATH_CHARACTERS: &'static str = "_-./\\:*{}";

/// Words of sentences that speak of errors.
pub const ERROR_MARKERS: [&'static str; 6] = ["エラー", "error", "失敗", "例外", "返", "throw"];

/// Words in capitals that are no codes of errors.
pub const NO_ERROR_CODES: [&'static str; 7] = [
    "API",
    "GET",
    "HTTP",
    "JSON",
    "POST",
    "PUT",
    "DELETE",
];

/// Words that state a constraint.
pub const CONSTRAINT_WORDS: [&'static str; 16] = [
    "しない",
    "せず",
    "禁止",
    "避け",
    "変えない",
    "変更しない",
    "変更せず",
    "維持",
    "保持",
    "だけ",
    "のみ",
    "must not",
    "do not",
    "without",
    "preserve",
    "keep",
];

/// The condition of [`contains_constraint_marker`]: the text states a constraint.
#[verifier::opaque]
pub open spec fn spec_contains_constraint_marker(input: Seq<char>) -> bool {
    matching::spec_holds_marker(text::spec_lowercase(input), CONSTRAINT_WORDS@)
}

/// Whether the text states a constraint.
pub fn contains_constraint_marker(input: &str) -> (r: bool)
    ensures
        r == spec_contains_constraint_marker(input@),
{
    proof {
        reveal(spec_contains_constraint_marker);
    }
    matching::holds_marker(&text::lowercase(input), &CONSTRAINT_WORDS)
}

/// The state of [`extract_fenced_code_blocks`] after the given items.
pub open spec fn spec_blocks_read(items: Seq<Seq<char>>) -> (Seq<Seq<char>>, bool)
    decreases items.len(),
{
    if items.len() == 0 {
        (Seq::<Seq<char>>::empty(), false)
    } else {
        let (blocks, inside) = spec_blocks_read(items.drop_last());
        let piece = items.last();
        let block = text::spec_trim(piece);
        let blocks = if inside && block.len() > 0 {
            blocks.push(block)
        } else {
            blocks
        };
        let inside = !inside;
        (blocks, inside)
    }
}

/// Value of [`extract_fenced_code_blocks`].
pub open spec fn spec_extract_fenced_code_blocks(input: Seq<char>) -> Seq<Seq<char>> {
    let (blocks, inside) = spec_blocks_read(
        text::spec_split_text(text::spec_replace(input, "\r\n"@, "\n"@), "```"@),
    );
    blocks
}

/// The blocks of code between fences, trimmed. A block that nothing closes reaches to the end.
pub fn extract_fenced_code_blocks(input: &str) -> (r: Vec<String>)
    ensures
        contents::views(r@) == spec_extract_fenced_code_blocks(input@),
{
    let mut blocks: Vec<String> = Vec::new();
    let mut inside: bool = false;
    let items: Vec<String> = text::split_text(&text::replace(input, "\r\n", "\n"), "```");
    let mut i: usize = 0;
    while i < items.len()
        invariant
            i <= items@.len(),
            (contents::views(blocks@), inside) == spec_blocks_read(
                contents::views(items@).take(i as int),
            ),
        decreases items@.len() - i,
    {
        assert(contents::views(items@).take(i + 1).drop_last()
            =~= contents::views(items@).take(i as int));
        let piece: &str = &items[i];
        i = i + 1;
        let block: String = text::trim(piece);
        if inside && text::char_count(&block) > 0 {
            blocks.push(block);
        }
        inside = !inside;
    }
    assert(contents::views(items@).take(items@.len() as int) =~= contents::views(items@));
    blocks
}

/// The condition of [`is_path_character`]: a path may hold the character.
pub open spec fn spec_is_path_character(c: char) -> bool {
    text::spec_is_alnum(c) || PATH_CHARACTERS@.contains(c)
}

/// Whether a path may hold the character.
pub fn is_path_character(c: char) -> (r: bool)
    ensures
        r == spec_is_path_character(c),
{
    text::is_alnum(c) || text::char_in(c, PATH_CHARACTERS)
}

/// The state of [`ascii_path_tokens`] after the given items.
pub open spec fn spec_path_tokens_read(items: Seq<char>) -> (Seq<char>, Seq<Seq<char>>)
    decreases items.len(),
{
    if items.len() == 0 {
        (Seq::<char>::empty(), Seq::<Seq<char>>::empty())
    } else {
        let (current, tokens) = spec_path_tokens_read(items.drop_last());
        let c = items.last();
        if spec_is_path_character(c) {
            let current = current.push(c);
            (current, tokens)
        } else {
            let (tokens, current) = if current.len() > 0 {
                let tokens = tokens.push(current);
                let current = Seq::<char>::empty();
                (tokens, current)
            } else {
                (tokens, current)
            };
            (current, tokens)
        }
    }
}

/// Value of [`ascii_path_tokens`].
#[verifier::opaque]
pub open spec fn spec_ascii_path_tokens(input: Seq<char>) -> Seq<Seq<char>> {
    let (current, tokens) = spec_path_tokens_read(input);
    if current.len() > 0 {
        tokens.push(current)
    } else {
        tokens
    }
}

/// The runs of characters of paths in the text.
pub fn ascii_path_tokens(input: &str) -> (r: Vec<String>)
    ensures
        contents::views(r@) == spec_ascii_path_tokens(input@),
{
    proof {
        reveal(spec_ascii_path_tokens);
    }
    let mut tokens: Vec<String> = Vec::new();
    let mut current: String = String::new();
    let characters: Vec<char> = text::to_chars(input);
    let mut i: usize = 0;
    while i < characters.len()
        invariant
            i <= characters@.len(),
            (current@, contents::views(tokens@)) == spec_path_tokens_read(
                characters@.take(i as int),
            ),
        decreases characters@.len() - i,
    {
        assert(characters@.take(i + 1).drop_last() =~= characters@.take(i as int));
        let c: char = characters[i];
        i = i + 1;
        if is_path_character(c) {
            current.push(c);
        } else if text::char_count(&current) > 0 {
            tokens.push(current);
            current = String::new();
        }
    }
    assert(characters@.take(characters@.len() as int) =~= characters@);
    if text::char_count(&current) > 0 {
        tokens.push(current);
    }
    tokens
}

/// Value of [`with_unique`].
pub open spec fn spec_with_unique(values: Seq<Seq<char>>, value: Seq<char>) -> Seq<Seq<char>> {
    let listed = values;
    if !listed.contains(value) {
        listed.push(value)
    } else {
        listed
    }
}

/// The values, with the given one after them if it is new.
pub fn with_unique(values: &Vec<String>, value: &str) -> (r: Vec<String>)
    ensures
        contents::views(r@) == spec_with_unique(contents::views(values@), value@),
{
    let mut listed: Vec<String> = text::copy_list(values);
    if !text::list_has(&listed, value) {
        listed.push(value.to_owned());
    }
    listed
}

/// The condition of [`any_same`]: the text is one of the names up to the case of ASCII letters.
pub open spec fn spec_any_same(names: Seq<&str>, text: Seq<char>) -> bool {
    exists|i: int|
        #![trigger names[i]] 0 <= i < names.len()
        && text::spec_same_ignoring_case(text, names[i]@)
}

/// Whether the text is one of the names up to the case of ASCII letters.
pub fn any_same(names: &[&str], text: &str) -> (r: bool)
    ensures
        r == spec_any_same(names@, text@),
{
    let mut i: usize = 0;
    while i < names.len()
        invariant
            i <= names@.len(),
            forall|j: int|
                #![trigger names@[j]] 0 <= j < i ==> !(text::spec_same_ignoring_case(
                    text@,
                    names@[j]@,
                )),
        decreases names@.len() - i,
    {
        let name: &str = names[i];
        if text::same_ignoring_case(text, name) {
            return true;
        }
        i = i + 1;
    }
    false
}

/// The condition of [`any_extension`]: the text holds one of the endings of file names.
pub open spec fn spec_any_extension(lower: Seq<char>, extensions: Seq<&str>) -> bool {
    exists|i: int|
        #![trigger extensions[i]] 0 <= i < extensions.len()
        && text::spec_contains(lower, "."@ + extensions[i]@)
}

/// Whether the text holds one of the endings of file names.
pub fn any_extension(lower: &str, extensions: &[&str]) -> (r: bool)
    ensures
        r == spec_any_extension(lower@, extensions@),
{
    let mut i: usize = 0;
    while i < extensions.len()
        invariant
            i <= extensions@.len(),
            forall|j: int|
                #![trigger extensions@[j]] 0 <= j < i ==> !(text::spec_contains(
                    lower@,
                    "."@ + extensions@[j]@,
                )),
        decreases extensions@.len() - i,
    {
        let extension: &str = extensions[i];
        if text::contains(lower, &text::concat2(".", extension)) {
            return true;
        }
        i = i + 1;
    }
    false
}

/// The condition of [`file_name_like`]: the text looks like the name of a file.
#[verifier::opaque]
pub open spec fn spec_file_name_like(token: Seq<char>) -> bool {
    spec_any_same(FILE_BASENAMES@, token)
        || spec_any_extension(text::spec_lowercase(token), FILE_EXTENSIONS@)
}

/// Whether the text looks like the name of a file.
pub fn file_name_like(token: &str) -> (r: bool)
    ensures
        r == spec_file_name_like(token@),
{
    proof {
        reveal(spec_file_name_like);
    }
    any_same(&FILE_BASENAMES, token) || any_extension(&text::lowercase(token), &FILE_EXTENSIONS)
}

/// The state of [`with_file_names`] after the given items.
pub open spec fn spec_extensions_found(
    items: Seq<&str>,
    lower: Seq<char>,
    token: Seq<char>,
    collected: Seq<Seq<char>>,
) -> Seq<Seq<char>>
    decreases items.len(),
{
    if items.len() == 0 {
        collected
    } else {
        let collected = spec_extensions_found(items.drop_last(), lower, token, collected);
        let extension = items.last()@;
        let suffix = "."@ + extension;
        match text::spec_find(lower, suffix) {
            None => collected,
            Some(index) => {
                let name = text::spec_take(token, text::spec_span_end(index, suffix.len() as int));
                spec_with_unique(collected, name)
            },
        }
    }
}

/// Value of [`with_file_names`].
#[verifier::opaque]
pub open spec fn spec_with_file_names(token: Seq<char>, values: Seq<Seq<char>>) -> Seq<Seq<char>> {
    let lower = text::spec_lowercase(token);
    if lower == "node.js"@ {
        values
    } else {
        if spec_any_same(FILE_BASENAMES@, token) {
            spec_with_unique(values, token)
        } else {
            let collected = values;
            spec_extensions_found(FILE_EXTENSIONS@, lower, token, collected)
        }
    }
}

/// The values, with the names of files that the text holds after them as far as they are new.
pub fn with_file_names(token: &str, values: &Vec<String>) -> (r: Vec<String>)
    ensures
        contents::views(r@) == spec_with_file_names(token@, contents::views(values@)),
{
    proof {
        reveal(spec_with_file_names);
    }
    let lower: String = text::lowercase(token);
    if text::same(&lower, "node.js") {
        return text::copy_list(values);
    }
    if any_same(&FILE_BASENAMES, token) {
        return with_unique(values, token);
    }
    let mut collected: Vec<String> = text::copy_list(values);
    let ghost initial_collected = contents::views(collected@);
    let mut i: usize = 0;
    while i < FILE_EXTENSIONS.len()
        invariant
            i <= FILE_EXTENSIONS@.len(),
            contents::views(collected@) == spec_extensions_found(
                FILE_EXTENSIONS@.take(i as int),
                lower@,
                token@,
                initial_collected,
            ),
        decreases FILE_EXTENSIONS@.len() - i,
    {
        assert(FILE_EXTENSIONS@.take(i + 1).drop_last() =~= FILE_EXTENSIONS@.take(i as int));
        let extension: &str = FILE_EXTENSIONS[i];
        i = i + 1;
        let suffix: String = text::concat2(".", extension);
        let index: usize = match text::find(&lower, &suffix) {
            Some(value) => value,
            None => {
                continue;
            },
        };
        let name: String = text::take(token, text::span_end(index, text::char_count(&suffix)));
        collected = with_unique(&collected, &name);
    }
    assert(FILE_EXTENSIONS@.take(FILE_EXTENSIONS@.len() as int) =~= FILE_EXTENSIONS@);
    collected
}

/// The state of [`path_components`] after the given items.
pub open spec fn spec_components_read(items: Seq<Seq<char>>) -> Seq<Seq<char>>
    decreases items.len(),
{
    if items.len() == 0 {
        Seq::<Seq<char>>::empty()
    } else {
        let components = spec_components_read(items.drop_last());
        let component = items.last();
        if component.len() > 0 {
            components.push(component)
        } else {
            components
        }
    }
}

/// Value of [`path_components`].
pub open spec fn spec_path_components(token: Seq<char>) -> Seq<Seq<char>> {
    spec_components_read(text::spec_split_any(token, "/\\"@))
}

/// The parts of a path that are not empty.
pub fn path_components(token: &str) -> (r: Vec<String>)
    ensures
        contents::views(r@) == spec_path_components(token@),
{
    let mut components: Vec<String> = Vec::new();
    let items: Vec<String> = text::split_any(token, "/\\");
    let mut i: usize = 0;
    while i < items.len()
        invariant
            i <= items@.len(),
            contents::views(components@) == spec_components_read(
                contents::views(items@).take(i as int),
            ),
        decreases items@.len() - i,
    {
        assert(contents::views(items@).take(i + 1).drop_last()
            =~= contents::views(items@).take(i as int));
        let component: &str = &items[i];
        i = i + 1;
        if text::char_count(component) > 0 {
            components.push(component.to_owned());
        }
    }
    assert(contents::views(items@).take(items@.len() as int) =~= contents::views(items@));
    components
}

/// What [`several_files`] comes to from position `i` of the items on.
pub open spec fn spec_files_counted(items: Seq<Seq<char>>, i: int, seen: bool) -> bool
    decreases items.len() - i,
{
    if i >= items.len() {
        false
    } else {
        let component = items[i];
        if spec_file_name_like(component) {
            if seen {
                true
            } else {
                let seen = true;
                spec_files_counted(items, i + 1, seen)
            }
        } else {
            spec_files_counted(items, i + 1, seen)
        }
    }
}

/// The condition of [`several_files`]: at least two of the parts look like names of files.
#[verifier::opaque]
pub open spec fn spec_several_files(components: Seq<Seq<char>>) -> bool {
    let seen = false;
    spec_files_counted(components, 0, seen)
}

/// Whether at least two of the parts look like names of files.
pub fn several_files(components: &Vec<String>) -> (r: bool)
    ensures
        r == spec_several_files(contents::views(components@)),
{
    proof {
        reveal(spec_several_files);
    }
    let mut seen: bool = false;
    let ghost goal = spec_files_counted(contents::views(components@), 0, seen);
    let mut i: usize = 0;
    while i < components.len()
        invariant
            i <= components@.len(),
            goal == spec_files_counted(contents::views(components@), i as int, seen),
            goal == spec_several_files(contents::views(components@)),
        decreases components@.len() - i,
    {
        assert(contents::views(components@)[i as int] == components@[i as int]@);
        let component: &str = &components[i];
        i = i + 1;
        if file_name_like(component) {
            if seen {
                return true;
            }
            seen = true;
        }
    }
    false
}

/// The state of [`with_all_file_names`] after the given items.
pub open spec fn spec_component_names(
    items: Seq<Seq<char>>,
    collected: Seq<Seq<char>>,
) -> Seq<Seq<char>>
    decreases items.len(),
{
    if items.len() == 0 {
        collected
    } else {
        let collected = spec_component_names(items.drop_last(), collected);
        let component = items.last();
        spec_with_file_names(component, collected)
    }
}

/// Value of [`with_all_file_names`].
#[verifier::opaque]
pub open spec fn spec_with_all_file_names(
    components: Seq<Seq<char>>,
    values: Seq<Seq<char>>,
) -> Seq<Seq<char>> {
    let collected = values;
    spec_component_names(components, collected)
}

/// The values, with the names of files in all the parts after them as far as they are new.
pub fn with_all_file_names(components: &Vec<String>, values: &Vec<String>) -> (r: Vec<String>)
    ensures
        contents::views(r@)
            == spec_with_all_file_names(contents::views(components@), contents::views(values@)),
{
    proof {
        reveal(spec_with_all_file_names);
    }
    let mut collected: Vec<String> = text::copy_list(values);
    let ghost initial_collected = contents::views(collected@);
    let mut i: usize = 0;
    while i < components.len()
        invariant
            i <= components@.len(),
            contents::views(collected@) == spec_component_names(
                contents::views(components@).take(i as int),
                initial_collected,
            ),
        decreases components@.len() - i,
    {
        assert(contents::views(components@).take(i + 1).drop_last()
            =~= contents::views(components@).take(i as int));
        let component: &str = &components[i];
        i = i + 1;
        collected = with_file_names(component, &collected);
    }
    assert(contents::views(components@).take(components@.len() as int)
        =~= contents::views(components@));
    collected
}

/// The state of [`extract_file_names`] after the given items.
pub open spec fn spec_file_names_read(items: Seq<Seq<char>>) -> Seq<Seq<char>>
    decreases items.len(),
{
    if items.len() == 0 {
        Seq::<Seq<char>>::empty()
    } else {
        let values = spec_file_names_read(items.drop_last());
        let path = items.last();
        let token = text::spec_trim_end_any(path, ":*"@);
        let components = spec_path_components(token);
        if spec_several_files(components) {
            spec_with_all_file_names(components, values)
        } else {
            spec_with_file_names(token, values)
        }
    }
}

/// Value of [`extract_file_names`].
#[verifier::opaque]
pub open spec fn spec_extract_file_names(input: Seq<char>) -> Seq<Seq<char>> {
    spec_file_names_read(spec_ascii_path_tokens(input))
}

/// The names of files in the text, each once. A path that names several files gives each of them.
pub fn extract_file_names(input: &str) -> (r: Vec<String>)
    ensures
        contents::views(r@) == spec_extract_file_names(input@),
{
    proof {
        reveal(spec_extract_file_names);
    }
    let mut values: Vec<String> = Vec::new();
    let items: Vec<String> = ascii_path_tokens(input);
    let mut i: usize = 0;
    while i < items.len()
        invariant
            i <= items@.len(),
            contents::views(values@) == spec_file_names_read(contents::views(items@).take(i as int)),
        decreases items@.len() - i,
    {
        assert(contents::views(items@).take(i + 1).drop_last()
            =~= contents::views(items@).take(i as int));
        let path: &str = &items[i];
        i = i + 1;
        let token: String = text::trim_end_any(path, ":*");
        let components: Vec<String> = path_components(&token);
        if several_files(&components) {
            values = with_all_file_names(&components, &values);
        } else {
            values = with_file_names(&token, &values);
        }
    }
    assert(contents::views(items@).take(items@.len() as int) =~= contents::views(items@));
    values
}

/// The condition of [`no_lower`]: the text holds no small ASCII letter.
pub open spec fn spec_no_lower(text: Seq<char>) -> bool {
    forall|i: int| #![trigger text[i]] 0 <= i < text.len() ==> !text::spec_is_lower(text[i])
}

/// Whether the text holds no small ASCII letter.
pub fn no_lower(text: &str) -> (r: bool)
    ensures
        r == spec_no_lower(text@),
{
    let characters: Vec<char> = text::to_chars(text);
    let mut i: usize = 0;
    while i < characters.len()
        invariant
            i <= characters@.len(),
            characters@ == text@,
            forall|j: int|
                #![trigger characters@[j]] 0 <= j < i ==> !text::spec_is_lower(characters@[j]),
        decreases characters@.len() - i,
    {
        let c: char = characters[i];
        if !(!text::is_lower(c)) {
            return false;
        }
        i = i + 1;
    }
    true
}

/// The condition of [`is_error_code`]: the word looks like the code of an error.
#[verifier::opaque]
pub open spec fn spec_is_error_code(token: Seq<char>) -> bool {
    token.len() >= 4
        && matching::spec_any_alpha(token)
        && spec_no_lower(token)
        && !text::spec_is_one_of(text::spec_uppercase(token), NO_ERROR_CODES@)
}

/// Whether the word looks like the code of an error.
pub fn is_error_code(token: &str) -> (r: bool)
    ensures
        r == spec_is_error_code(token@),
{
    proof {
        reveal(spec_is_error_code);
    }
    text::char_count(token) >= 4
        && matching::any_alpha(token)
        && no_lower(token)
        && !text::is_one_of(&text::uppercase(token), &NO_ERROR_CODES)
}

/// The trimmed texts between an opening and a closing mark, without empty ones.
pub open spec fn spec_quoted_values(
    text: Seq<char>,
    open: Seq<char>,
    close: Seq<char>,
) -> Seq<Seq<char>>
    decreases text.len(),
{
    match text::spec_split_once(text, open) {
        Some((before, after)) => match text::spec_split_once(after, close) {
            Some((inner, rest)) => {
                let value = text::spec_trim(inner);
                let first = if value.len() == 0 {
                    Seq::empty()
                } else {
                    seq![value]
                };
                if rest.len() < text.len() {
                    first + spec_quoted_values(rest, open, close)
                } else {
                    first
                }
            },
            None => Seq::empty(),
        },
        None => Seq::empty(),
    }
}

/// The trimmed texts between an opening and a closing mark, without empty ones.
pub fn quoted_values(text: &str, open: &str, close: &str) -> (r: Vec<String>)
    ensures
        contents::views(r@) == spec_quoted_values(text@, open@, close@),
{
    let mut values: Vec<String> = Vec::new();
    let mut remainder: String = text.to_owned();
    loop
        invariant
            spec_quoted_values(text@, open@, close@) == contents::views(values@)
                + spec_quoted_values(remainder@, open@, close@),
        decreases remainder@.len(),
    {
        let ghost before = contents::views(values@);
        let after: String = match text::split_once(&remainder, open) {
            Some((_, after)) => after,
            None => {
                return values;
            },
        };
        match text::split_once(&after, close) {
            Some((inner, rest)) => {
                let value: String = text::trim(&inner);
                if text::char_count(&value) > 0 {
                    values.push(value);
                    assert(contents::views(values@) =~= before + seq![value@]);
                } else {
                    assert(contents::views(values@) =~= before + Seq::empty());
                }
                if text::char_count(&rest) >= text::char_count(&remainder) {
                    return values;
                }
                remainder = rest;
            },
            None => {
                return values;
            },
        }
    }
}

/// The state of [`with_all_unique`] after the given items.
pub open spec fn spec_unique_added(items: Seq<Seq<char>>, listed: Seq<Seq<char>>) -> Seq<Seq<char>>
    decreases items.len(),
{
    if items.len() == 0 {
        listed
    } else {
        let listed = spec_unique_added(items.drop_last(), listed);
        let value = items.last();
        spec_with_unique(listed, value)
    }
}

/// Value of [`with_all_unique`].
#[verifier::opaque]
pub open spec fn spec_with_all_unique(
    values: Seq<Seq<char>>,
    more: Seq<Seq<char>>,
) -> Seq<Seq<char>> {
    let listed = values;
    spec_unique_added(more, listed)
}

/// The values, with the further ones after them as far as they are new.
pub fn with_all_unique(values: &Vec<String>, more: &Vec<String>) -> (r: Vec<String>)
    ensures
        contents::views(r@)
            == spec_with_all_unique(contents::views(values@), contents::views(more@)),
{
    proof {
        reveal(spec_with_all_unique);
    }
    let mut listed: Vec<String> = text::copy_list(values);
    let ghost initial_listed = contents::views(listed@);
    let mut i: usize = 0;
    while i < more.len()
        invariant
            i <= more@.len(),
            contents::views(listed@) == spec_unique_added(
                contents::views(more@).take(i as int),
                initial_listed,
            ),
        decreases more@.len() - i,
    {
        assert(contents::views(more@).take(i + 1).drop_last()
            =~= contents::views(more@).take(i as int));
        let value: &str = &more[i];
        i = i + 1;
        listed = with_unique(&listed, value);
    }
    assert(contents::views(more@).take(more@.len() as int) =~= contents::views(more@));
    listed
}

/// Value of [`error_codes`].
#[verifier::opaque]
pub open spec fn spec_error_codes(clause: Seq<char>) -> Seq<Seq<char>> {
    text::spec_split_tokens(clause, "_-"@).filter(|token: Seq<char>| spec_is_error_code(token))
}

/// The words of a sentence that look like codes of errors.
pub fn error_codes(clause: &str) -> (r: Vec<String>)
    ensures
        contents::views(r@) == spec_error_codes(clause@),
{
    proof {
        reveal(spec_error_codes);
        reveal(Seq::filter);
    }
    let mut codes: Vec<String> = Vec::new();
    let ghost is_code = |token: Seq<char>| spec_is_error_code(token);
    let items: Vec<String> = text::split_tokens(clause, "_-");
    let mut i: usize = 0;
    while i < items.len()
        invariant
            i <= items@.len(),
            is_code == (|token: Seq<char>| spec_is_error_code(token)),
            contents::views(codes@) == contents::views(items@).take(i as int).filter(is_code),
        decreases items@.len() - i,
    {
        proof {
            reveal(Seq::filter);
        }
        assert(contents::views(items@).take(i + 1).drop_last()
            =~= contents::views(items@).take(i as int));
        let token: &str = &items[i];
        i = i + 1;
        if is_error_code(token) {
            codes.push(token.to_owned());
        }
    }
    assert(contents::views(items@).take(items@.len() as int) =~= contents::views(items@));
    codes
}

/// Value of [`with_error_literals`].
#[verifier::opaque]
pub open spec fn spec_with_error_literals(
    values: Seq<Seq<char>>,
    clause: Seq<char>,
) -> Seq<Seq<char>> {
    let coded = spec_with_all_unique(values, spec_error_codes(clause));
    let plain = spec_with_all_unique(coded, spec_quoted_values(clause, "\""@, "\""@));
    let quoted = spec_with_all_unique(plain, spec_quoted_values(clause, "「"@, "」"@));
    spec_with_all_unique(quoted, spec_quoted_values(clause, "『"@, "』"@))
}

/// The values, with the codes and quoted texts of a sentence after them as far as they are new.
pub fn with_error_literals(values: &Vec<String>, clause: &str) -> (r: Vec<String>)
    ensures
        contents::views(r@) == spec_with_error_literals(contents::views(values@), clause@),
{
    proof {
        reveal(spec_with_error_literals);
    }
    let coded: Vec<String> = with_all_unique(values, &error_codes(clause));
    let plain: Vec<String> = with_all_unique(&coded, &quoted_values(clause, "\"", "\""));
    let quoted: Vec<String> = with_all_unique(&plain, &quoted_values(clause, "「", "」"));
    with_all_unique(&quoted, &quoted_values(clause, "『", "』"))
}

/// The state of [`extract_error_literals`] after the given items.
pub open spec fn spec_errors_read(items: Seq<Seq<char>>) -> Seq<Seq<char>>
    decreases items.len(),
{
    if items.len() == 0 {
        Seq::<Seq<char>>::empty()
    } else {
        let values = spec_errors_read(items.drop_last());
        let clause = items.last();
        if matching::spec_holds_marker(text::spec_lowercase(clause), ERROR_MARKERS@) {
            spec_with_error_literals(values, clause)
        } else {
            values
        }
    }
}

/// Value of [`extract_error_literals`].
#[verifier::opaque]
pub open spec fn spec_extract_error_literals(input: Seq<char>) -> Seq<Seq<char>> {
    spec_errors_read(text::spec_split_any(input, "。！？\n;"@))
}

/// The codes and quoted texts of the sentences that speak of errors, each once.
pub fn extract_error_literals(input: &str) -> (r: Vec<String>)
    ensures
        contents::views(r@) == spec_extract_error_literals(input@),
{
    proof {
        reveal(spec_extract_error_literals);
    }
    let mut values: Vec<String> = Vec::new();
    let items: Vec<String> = text::split_any(input, "。！？\n;");
    let mut i: usize = 0;
    while i < items.len()
        invariant
            i <= items@.len(),
            contents::views(values@) == spec_errors_read(contents::views(items@).take(i as int)),
        decreases items@.len() - i,
    {
        assert(contents::views(items@).take(i + 1).drop_last()
            =~= contents::views(items@).take(i as int));
        let clause: &str = &items[i];
        i = i + 1;
        if matching::holds_marker(&text::lowercase(clause), &ERROR_MARKERS) {
            values = with_error_literals(&values, clause);
        }
    }
    assert(contents::views(items@).take(items@.len() as int) =~= contents::views(items@));
    values
}

/// The condition of [`all_in_list_ignoring_case`]: the second list holds every text of the first,
/// up to the case of ASCII letters.
pub open spec fn spec_all_in_list_ignoring_case(
    required: Seq<Seq<char>>,
    actual: Seq<Seq<char>>,
) -> bool {
    forall|i: int|
        #![trigger required[i]] 0 <= i < required.len() ==> text::spec_list_has_ignoring_case(
            actual,
            required[i],
        )
}

/// Whether the second list holds every text of the first, up to the case of ASCII letters.
pub fn all_in_list_ignoring_case(required: &Vec<String>, actual: &Vec<String>) -> (r: bool)
    ensures
        r == spec_all_in_list_ignoring_case(contents::views(required@), contents::views(actual@)),
{
    let mut i: usize = 0;
    while i < required.len()
        invariant
            i <= required@.len(),
            forall|j: int|
                #![trigger contents::views(required@)[j]] 0 <= j < i ==> text::spec_list_has_ignoring_case(
                    contents::views(actual@),
                    contents::views(required@)[j],
                ),
        decreases required@.len() - i,
    {
        let value: &str = &required[i];
        assert(contents::views(required@)[i as int] == required@[i as int]@);
        if !text::list_has_ignoring_case(actual, value) {
            return false;
        }
        i = i + 1;
    }
    true
}

/// The condition of [`all_in_text`]: the text holds every text of the list.
pub open spec fn spec_all_in_text(required: Seq<Seq<char>>, output: Seq<char>) -> bool {
    forall|i: int|
        #![trigger required[i]] 0 <= i < required.len() ==> text::spec_contains(output, required[i])
}

/// Whether the text holds every text of the list.
pub fn all_in_text(required: &Vec<String>, output: &str) -> (r: bool)
    ensures
        r == spec_all_in_text(contents::views(required@), output@),
{
    let mut i: usize = 0;
    while i < required.len()
        invariant
            i <= required@.len(),
            forall|j: int|
                #![trigger contents::views(required@)[j]] 0 <= j < i ==> text::spec_contains(
                    output@,
                    contents::views(required@)[j],
                ),
        decreases required@.len() - i,
    {
        let value: &str = &required[i];
        assert(contents::views(required@)[i as int] == required@[i as int]@);
        if !text::contains(output, value) {
            return false;
        }
        i = i + 1;
    }
    true
}

/// Whether a text states a constraint does not depend on the case of ASCII letters.
pub proof fn constraints_are_stated_in_either_case(input: Seq<char>, other: Seq<char>)
    requires
        text::spec_same_ignoring_case(input, other),
    ensures
        spec_contains_constraint_marker(input) == spec_contains_constraint_marker(other),
{
    reveal(spec_contains_constraint_marker);
}

/// The text holds, in whatever case, a word that forbids something or asks to keep or limit it.
pub open spec fn speaks_of_constraint(input: Seq<char>) -> bool {
    ||| parts::holds_in_some_case(input, "しない"@)
    ||| parts::holds_in_some_case(input, "せず"@)
    ||| parts::holds_in_some_case(input, "禁止"@)
    ||| parts::holds_in_some_case(input, "避け"@)
    ||| parts::holds_in_some_case(input, "変えない"@)
    ||| parts::holds_in_some_case(input, "維持"@)
    ||| parts::holds_in_some_case(input, "保持"@)
    ||| parts::holds_in_some_case(input, "だけ"@)
    ||| parts::holds_in_some_case(input, "のみ"@)
    ||| parts::holds_in_some_case(input, "must not"@)
    ||| parts::holds_in_some_case(input, "do not"@)
    ||| parts::holds_in_some_case(input, "without"@)
    ||| parts::holds_in_some_case(input, "preserve"@)
    ||| parts::holds_in_some_case(input, "keep"@)
}

/// A word of the list that is written in lower case is found in whatever case it stands.
proof fn listed_word_is_found(input: Seq<char>, words: Seq<&str>, k: int)
    requires
        0 <= k < words.len(),
        parts::is_in_lower_case(words[k]@),
    ensures
        parts::holds_in_some_case(input, words[k]@) ==> matching::spec_holds_marker(
            text::spec_lowercase(input),
            words,
        ),
        parts::holds_in_some_case(input, words[k]@) <==> text::spec_contains(
            text::spec_lowercase(input),
            words[k]@,
        ),
{
    parts::held_in_lower_case(input, words[k]@);
    parts::lower_case_stays(words[k]@);
}

/// The words of constraints are written in lower case.
proof fn constraint_words_are_in_lower_case()
    ensures
        forall|k: int|
            0 <= k < CONSTRAINT_WORDS@.len() ==> parts::is_in_lower_case(
                #[trigger] CONSTRAINT_WORDS@[k]@,
            ),
{
    reveal_strlit("しない");
    reveal_strlit("せず");
    reveal_strlit("禁止");
    reveal_strlit("避け");
    reveal_strlit("変えない");
    reveal_strlit("変更しない");
    reveal_strlit("変更せず");
    reveal_strlit("維持");
    reveal_strlit("保持");
    reveal_strlit("だけ");
    reveal_strlit("のみ");
    reveal_strlit("must not");
    reveal_strlit("do not");
    reveal_strlit("without");
    reveal_strlit("preserve");
    reveal_strlit("keep");
}

/// A text states a constraint exactly where it holds, in whatever case, a word that forbids
/// something or asks to keep or limit it.
pub proof fn constraint_words_state_constraints(input: Seq<char>)
    ensures
        spec_contains_constraint_marker(input) <==> speaks_of_constraint(input),
{
    reveal(spec_contains_constraint_marker);
    constraint_words_are_in_lower_case();
    let words = CONSTRAINT_WORDS@;
    let lower = text::spec_lowercase(input);
    assert forall|k: int| 0 <= k < words.len() implies (parts::holds_in_some_case(
        input,
        #[trigger] words[k]@,
    ) <==> text::spec_contains(lower, words[k]@)) by {
        listed_word_is_found(input, words, k);
    }
    assert(words[0]@ == "しない"@ && words[1]@ == "せず"@ && words[2]@ == "禁止"@ && words[3]@
        == "避け"@ && words[4]@ == "変えない"@ && words[5]@ == "変更しない"@ && words[6]@
        == "変更せず"@ && words[7]@ == "維持"@ && words[8]@ == "保持"@ && words[9]@ == "だけ"@
        && words[10]@ == "のみ"@ && words[11]@ == "must not"@ && words[12]@ == "do not"@
        && words[13]@ == "without"@ && words[14]@ == "preserve"@ && words[15]@ == "keep"@);
    if text::spec_contains(lower, "変更しない"@) {
        let (before, after) = parts::held_texts_have_a_place(lower, "変更しない"@);
        reveal_strlit("変更");
        reveal_strlit("変更しない");
        reveal_strlit("しない");
        assert("変更"@ + "しない"@ =~= "変更しない"@);
        parts::parts_are_held(before + "変更"@, "しない"@, after);
        assert(before + "変更"@ + "しない"@ + after =~= before + "変更しない"@ + after);
    }
    if text::spec_contains(lower, "変更せず"@) {
        let (before, after) = parts::held_texts_have_a_place(lower, "変更せず"@);
        reveal_strlit("変更");
        reveal_strlit("変更せず");
        reveal_strlit("せず");
        assert("変更"@ + "せず"@ =~= "変更せず"@);
        parts::parts_are_held(before + "変更"@, "せず"@, after);
        assert(before + "変更"@ + "せず"@ + after =~= before + "変更せず"@ + after);
    }
}

/// Every opening mark of the text is closed by a mark after it.
pub open spec fn is_closed_up(text: Seq<char>, open: char, close: char) -> bool {
    forall|i: int|
        0 <= i < text.len() && #[trigger] text[i] == open ==> exists|j: int|
            i < j < text.len() && #[trigger] text[j] == close
}

/// Marks that are alike, taken in pairs, are closed up.
pub open spec fn is_paired_up(text: Seq<char>, mark: char) -> bool
    decreases text.len(),
{
    if text.len() == 0 {
        true
    } else {
        is_paired_up(text.drop_first(), mark) == (text[0] != mark)
    }
}

/// The text between the first opening mark and the next closing one is the first quoted text.
proof fn first_quoted_text(
    before: Seq<char>,
    open: char,
    inner: Seq<char>,
    close: char,
    after: Seq<char>,
)
    requires
        text::lacks(before, open),
        text::lacks(inner, close),
    ensures
        ({
            let whole = before + seq![open] + inner + seq![close] + after;
            let rest = spec_quoted_values(after, seq![open], seq![close]);
            spec_quoted_values(whole, seq![open], seq![close]) == (if text::spec_trim(inner).len()
                == 0 {
                rest
            } else {
                seq![text::spec_trim(inner)] + rest
            })
        }),
{
    let whole = before + seq![open] + inner + seq![close] + after;
    let tail = inner + seq![close] + after;
    assert forall|j: int| 0 <= j < before.len() implies #[trigger] whole[j] != open by {
        assert(whole[j] == before[j]);
    }
    parts::first_place(whole, open, before.len() as int);
    assert(whole.skip((before.len() + 1) as int) =~= tail);
    assert forall|j: int| 0 <= j < inner.len() implies #[trigger] tail[j] != close by {
        assert(tail[j] == inner[j]);
    }
    parts::first_place(tail, close, inner.len() as int);
    assert(tail.take(inner.len() as int) =~= inner);
    assert(tail.skip((inner.len() + 1) as int) =~= after);
    let rest = spec_quoted_values(after, seq![open], seq![close]);
    assert(Seq::<Seq<char>>::empty() + rest =~= rest);
}

/// A text that stands between an opening mark and the next closing one, outside of other quoted
/// texts, is among the quoted texts, trimmed.
pub proof fn quoted_texts_are_found(
    before: Seq<char>,
    open: char,
    inner: Seq<char>,
    close: char,
    after: Seq<char>,
)
    requires
        open != close,
        is_closed_up(before, open, close),
        text::lacks(inner, close),
        text::spec_trim(inner).len() > 0,
    ensures
        spec_quoted_values(
            before + seq![open] + inner + seq![close] + after,
            seq![open],
            seq![close],
        ).contains(text::spec_trim(inner)),
    decreases before.len(),
{
    let whole = before + seq![open] + inner + seq![close] + after;
    let values = spec_quoted_values(whole, seq![open], seq![close]);
    if text::lacks(before, open) {
        first_quoted_text(before, open, inner, close, after);
        assert(values[0] == text::spec_trim(inner));
    } else {
        let known = choose|i: int| 0 <= i < before.len() && #[trigger] before[i] == open;
        let p = parts::first_place_from(before, open, 0, known);
        let closing = choose|j: int| p < j < before.len() && #[trigger] before[j] == close;
        let q = parts::first_place_from(before, close, p + 1, closing);
        let first = before.take(p);
        let quoted = before.subrange(p + 1, q);
        let shorter = before.skip(q + 1);
        let rest = shorter + seq![open] + inner + seq![close] + after;
        assert(whole =~= first + seq![open] + quoted + seq![close] + rest);
        assert(text::lacks(first, open));
        assert(text::lacks(quoted, close));
        first_quoted_text(first, open, quoted, close, rest);
        assert(is_closed_up(shorter, open, close)) by {
            assert forall|i: int| 0 <= i < shorter.len() && #[trigger] shorter[i] == open implies
                exists|j: int| i < j < shorter.len() && #[trigger] shorter[j] == close by {
                assert(before[i + q + 1] == open);
                let j = choose|j: int|
                    i + q + 1 < j < before.len() && #[trigger] before[j] == close;
                assert(shorter[j - q - 1] == close);
            }
        }
        quoted_texts_are_found(shorter, open, inner, close, after);
        let later = spec_quoted_values(rest, seq![open], seq![close]);
        let n = choose|n: int| 0 <= n < later.len() && later[n] == text::spec_trim(inner);
        if text::spec_trim(quoted).len() == 0 {
            assert(values[n] == text::spec_trim(inner));
        } else {
            assert(values[n + 1] == text::spec_trim(inner));
        }
    }
}

/// Whether marks are paired up changes with each of them.
proof fn pairs_after_a_mark(text: Seq<char>, mark: char, k: int)
    requires
        0 <= k < text.len(),
        text[k] == mark,
        forall|j: int| 0 <= j < k ==> #[trigger] text[j] != mark,
    ensures
        is_paired_up(text.skip(k + 1), mark) != is_paired_up(text, mark),
    decreases k,
{
    if k == 0 {
        assert(text.skip(1) =~= text.drop_first());
    } else {
        let shorter = text.drop_first();
        assert forall|j: int| 0 <= j < k - 1 implies #[trigger] shorter[j] != mark by {
            assert(shorter[j] == text[j + 1]);
        }
        pairs_after_a_mark(shorter, mark, k - 1);
        assert(shorter.skip(k) =~= text.skip(k + 1));
        assert(text[0] != mark);
    }
}

/// A text without the mark has its marks paired up.
proof fn no_marks_are_paired_up(text: Seq<char>, mark: char)
    requires
        text::lacks(text, mark),
    ensures
        is_paired_up(text, mark),
    decreases text.len(),
{
    if text.len() > 0 {
        let shorter = text.drop_first();
        assert forall|j: int| 0 <= j < shorter.len() implies #[trigger] shorter[j] != mark by {
            assert(shorter[j] == text[j + 1]);
        }
        no_marks_are_paired_up(shorter, mark);
        assert(text[0] != mark);
    }
}

/// A text that stands between two like marks, with the marks before it paired up, is among the
/// quoted texts, trimmed.
pub proof fn texts_between_like_marks_are_found(
    before: Seq<char>,
    mark: char,
    inner: Seq<char>,
    after: Seq<char>,
)
    requires
        is_paired_up(before, mark),
        text::lacks(inner, mark),
        text::spec_trim(inner).len() > 0,
    ensures
        spec_quoted_values(
            before + seq![mark] + inner + seq![mark] + after,
            seq![mark],
            seq![mark],
        ).contains(text::spec_trim(inner)),
    decreases before.len(),
{
    let whole = before + seq![mark] + inner + seq![mark] + after;
    let values = spec_quoted_values(whole, seq![mark], seq![mark]);
    if text::lacks(before, mark) {
        first_quoted_text(before, mark, inner, mark, after);
        assert(values[0] == text::spec_trim(inner));
    } else {
        let known = choose|i: int| 0 <= i < before.len() && #[trigger] before[i] == mark;
        let p = parts::first_place_from(before, mark, 0, known);
        let tail = before.skip(p + 1);
        pairs_after_a_mark(before, mark, p);
        if text::lacks(tail, mark) {
            no_marks_are_paired_up(tail, mark);
        }
        let other = choose|i: int| 0 <= i < tail.len() && #[trigger] tail[i] == mark;
        let r = parts::first_place_from(tail, mark, 0, other);
        pairs_after_a_mark(tail, mark, r);
        let q = p + 1 + r;
        let first = before.take(p);
        let quoted = before.subrange(p + 1, q);
        let shorter = before.skip(q + 1);
        let rest = shorter + seq![mark] + inner + seq![mark] + after;
        assert(tail.skip(r + 1) =~= shorter);
        assert(whole =~= first + seq![mark] + quoted + seq![mark] + rest);
        assert(text::lacks(first, mark));
        assert forall|j: int| 0 <= j < quoted.len() implies #[trigger] quoted[j] != mark by {
            assert(quoted[j] == tail[j]);
        }
        first_quoted_text(first, mark, quoted, mark, rest);
        texts_between_like_marks_are_found(shorter, mark, inner, after);
        let later = spec_quoted_values(rest, seq![mark], seq![mark]);
        let n = choose|n: int| 0 <= n < later.len() && later[n] == text::spec_trim(inner);
        if text::spec_trim(quoted).len() == 0 {
            assert(values[n] == text::spec_trim(inner));
        } else {
            assert(values[n + 1] == text::spec_trim(inner));
        }
    }
}

/// A list with further values after it as far as they are new holds what it held and those values,
/// and nothing else.
pub proof fn unique_lists_hold_both(
    values: Seq<Seq<char>>,
    more: Seq<Seq<char>>,
    value: Seq<char>,
)
    ensures
        spec_with_all_unique(values, more).contains(value) <==> values.contains(value)
            || more.contains(value),
    decreases more.len(),
{
    reveal(spec_with_all_unique);
    if more.len() > 0 {
        let fewer = more.drop_last();
        let before = spec_with_all_unique(values, fewer);
        unique_lists_hold_both(values, fewer, value);
        parts::pushed_item(fewer, more.last(), value);
        assert(fewer.push(more.last()) =~= more);
        parts::pushed_item(before, more.last(), value);
    }
}

/// The sentence speaks of an error: it holds, in whatever case, a word for errors, failures or what
/// is given back.
pub open spec fn speaks_of_error(clause: Seq<char>) -> bool {
    ||| parts::holds_in_some_case(clause, "エラー"@)
    ||| parts::holds_in_some_case(clause, "error"@)
    ||| parts::holds_in_some_case(clause, "失敗"@)
    ||| parts::holds_in_some_case(clause, "例外"@)
    ||| parts::holds_in_some_case(clause, "返"@)
    ||| parts::holds_in_some_case(clause, "throw"@)
}

/// The sentences whose literals are gathered are those that speak of errors.
proof fn error_sentences_are_read(clause: Seq<char>)
    ensures
        speaks_of_error(clause) <==> matching::spec_holds_marker(
            text::spec_lowercase(clause),
            ERROR_MARKERS@,
        ),
{
    reveal_strlit("エラー");
    reveal_strlit("error");
    reveal_strlit("失敗");
    reveal_strlit("例外");
    reveal_strlit("返");
    reveal_strlit("throw");
    let words = ERROR_MARKERS@;
    assert forall|k: int| 0 <= k < words.len() implies (parts::holds_in_some_case(
        clause,
        #[trigger] words[k]@,
    ) <==> text::spec_contains(text::spec_lowercase(clause), words[k]@)) by {
        listed_word_is_found(clause, words, k);
    }
    assert(words[0]@ == "エラー"@ && words[1]@ == "error"@ && words[2]@ == "失敗"@ && words[3]@
        == "例外"@ && words[4]@ == "返"@ && words[5]@ == "throw"@);
}

/// The literals of a sentence that speaks of an error: its codes, and what stands in it between
/// marks of quotation.
pub open spec fn is_literal_of(clause: Seq<char>, value: Seq<char>) -> bool {
    ||| spec_error_codes(clause).contains(value)
    ||| spec_quoted_values(clause, seq!['"'], seq!['"']).contains(value)
    ||| spec_quoted_values(clause, seq!['「'], seq!['」']).contains(value)
    ||| spec_quoted_values(clause, seq!['『'], seq!['』']).contains(value)
}

/// A sentence adds its literals to those that were gathered.
proof fn sentence_adds_its_literals(
    values: Seq<Seq<char>>,
    clause: Seq<char>,
    value: Seq<char>,
)
    ensures
        spec_with_error_literals(values, clause).contains(value) <==> values.contains(value)
            || is_literal_of(clause, value),
{
    reveal(spec_with_error_literals);
    reveal_strlit("\"");
    reveal_strlit("「");
    reveal_strlit("」");
    reveal_strlit("『");
    reveal_strlit("』");
    assert("\""@ =~= seq!['"']);
    assert("「"@ =~= seq!['「']);
    assert("」"@ =~= seq!['」']);
    assert("『"@ =~= seq!['『']);
    assert("』"@ =~= seq!['』']);
    let coded = spec_with_all_unique(values, spec_error_codes(clause));
    let plain = spec_with_all_unique(coded, spec_quoted_values(clause, "\""@, "\""@));
    let quoted = spec_with_all_unique(plain, spec_quoted_values(clause, "「"@, "」"@));
    unique_lists_hold_both(values, spec_error_codes(clause), value);
    unique_lists_hold_both(coded, spec_quoted_values(clause, "\""@, "\""@), value);
    unique_lists_hold_both(plain, spec_quoted_values(clause, "「"@, "」"@), value);
    unique_lists_hold_both(quoted, spec_quoted_values(clause, "『"@, "』"@), value);
}

/// What is gathered from sentences are the literals of those that speak of errors.
proof fn gathered_literals(clauses: Seq<Seq<char>>, value: Seq<char>)
    ensures
        spec_errors_read(clauses).contains(value) <==> exists|k: int|
            #![trigger clauses[k]]
            0 <= k < clauses.len() && speaks_of_error(clauses[k]) && is_literal_of(
                clauses[k],
                value,
            ),
    decreases clauses.len(),
{
    if clauses.len() > 0 {
        let earlier = clauses.drop_last();
        let last = clauses.last();
        gathered_literals(earlier, value);
        sentence_adds_its_literals(spec_errors_read(earlier), last, value);
        error_sentences_are_read(last);
        assert(clauses[clauses.len() - 1] == last);
        if spec_errors_read(earlier).contains(value) {
            let k = choose|k: int|
                #![trigger earlier[k]]
                0 <= k < earlier.len() && speaks_of_error(earlier[k]) && is_literal_of(
                    earlier[k],
                    value,
                );
            assert(clauses[k] == earlier[k]);
        }
        if exists|k: int|
            #![trigger clauses[k]]
            0 <= k < clauses.len() && speaks_of_error(clauses[k]) && is_literal_of(
                clauses[k],
                value,
            ) {
            let k = choose|k: int|
                #![trigger clauses[k]]
                0 <= k < clauses.len() && speaks_of_error(clauses[k]) && is_literal_of(
                    clauses[k],
                    value,
                );
            if k < clauses.len() - 1 {
                assert(earlier[k] == clauses[k]);
            }
        }
    }
}

/// The error literals of a text are the codes and quoted texts of those of its sentences that speak
/// of errors: all of them, and nothing else.
pub proof fn error_literals_are_those_of_the_sentences(input: Seq<char>, value: Seq<char>)
    ensures
        spec_extract_error_literals(input).contains(value) <==> exists|k: int|
            #![trigger text::spec_split_any(input, "。！？\n;"@)[k]]
            0 <= k < text::spec_split_any(input, "。！？\n;"@).len() && speaks_of_error(
                text::spec_split_any(input, "。！？\n;"@)[k],
            ) && is_literal_of(text::spec_split_any(input, "。！？\n;"@)[k], value),
{
    reveal(spec_extract_error_literals);
    gathered_literals(text::spec_split_any(input, "。！？\n;"@), value);
}

/// What stands between 「 and the next 」, or between 『 and the next 』, in a sentence that speaks of
/// an error, outside of other quoted texts, is an error literal, trimmed.
pub proof fn quoted_errors_are_literals(
    input: Seq<char>,
    k: int,
    before: Seq<char>,
    open: char,
    inner: Seq<char>,
    close: char,
    after: Seq<char>,
)
    requires
        0 <= k < text::spec_split_any(input, "。！？\n;"@).len(),
        text::spec_split_any(input, "。！？\n;"@)[k] == before + seq![open] + inner + seq![close]
            + after,
        speaks_of_error(text::spec_split_any(input, "。！？\n;"@)[k]),
        (open == '「' && close == '」') || (open == '『' && close == '』'),
        is_closed_up(before, open, close),
        text::lacks(inner, close),
        text::spec_trim(inner).len() > 0,
    ensures
        spec_extract_error_literals(input).contains(text::spec_trim(inner)),
{
    quoted_texts_are_found(before, open, inner, close, after);
    error_literals_are_those_of_the_sentences(input, text::spec_trim(inner));
}

/// What stands between two double quotes in a sentence that speaks of an error is an error literal,
/// trimmed, where the quotes before it are paired up.
pub proof fn errors_in_double_quotes_are_literals(
    input: Seq<char>,
    k: int,
    before: Seq<char>,
    inner: Seq<char>,
    after: Seq<char>,
)
    requires
        0 <= k < text::spec_split_any(input, "。！？\n;"@).len(),
        text::spec_split_any(input, "。！？\n;"@)[k] == before + seq!['"'] + inner + seq!['"']
            + after,
        speaks_of_error(text::spec_split_any(input, "。！？\n;"@)[k]),
        is_paired_up(before, '"'),
        text::lacks(inner, '"'),
        text::spec_trim(inner).len() > 0,
    ensures
        spec_extract_error_literals(input).contains(text::spec_trim(inner)),
{
    texts_between_like_marks_are_found(before, '"', inner, after);
    error_literals_are_those_of_the_sentences(input, text::spec_trim(inner));
}

/// The word looks like the code of an error: four characters or more, a letter among them and no
/// small one, and not one of the words that are written in capitals anyway.
pub open spec fn looks_like_error_code(word: Seq<char>) -> bool {
    &&& word.len() >= 4
    &&& exists|i: int| 0 <= i < word.len() && text::spec_is_upper(#[trigger] word[i])
    &&& forall|i: int| 0 <= i < word.len() ==> !text::spec_is_lower(#[trigger] word[i])
    &&& word != "HTTP"@ && word != "JSON"@ && word != "POST"@ && word != "DELETE"@
}

/// Codes of errors are told by how they look.
proof fn error_codes_are_told_by_their_looks(word: Seq<char>)
    ensures
        spec_is_error_code(word) <==> looks_like_error_code(word),
{
    reveal(spec_is_error_code);
    reveal_strlit("API");
    reveal_strlit("GET");
    reveal_strlit("PUT");
    let words = NO_ERROR_CODES@;
    assert(words[0]@ == "API"@ && words[1]@ == "GET"@ && words[2]@ == "HTTP"@ && words[3]@
        == "JSON"@ && words[4]@ == "POST"@ && words[5]@ == "PUT"@ && words[6]@ == "DELETE"@);
    if word.len() >= 4 && spec_no_lower(word) {
        assert(text::spec_uppercase(word) =~= word) by {
            assert forall|i: int| 0 <= i < word.len() implies #[trigger] text::spec_uppercase(
                word,
            )[i] == word[i] by {
                assert(!text::spec_is_lower(word[i]));
            }
        }
        assert(matching::spec_any_alpha(word) <==> exists|i: int|
            0 <= i < word.len() && text::spec_is_upper(#[trigger] word[i])) by {
            if matching::spec_any_alpha(word) {
                let i = choose|i: int|
                    #![trigger word[i]]
                    0 <= i < word.len() && text::spec_is_alpha(word[i]);
                assert(text::spec_is_upper(word[i]));
            }
        }
    }
}

/// A word of capitals, digits, underscores and hyphens in a sentence that speaks of an error is an
/// error literal, where it looks like the code of one.
pub proof fn error_codes_are_literals(input: Seq<char>, k: int, start: int, end: int)
    requires
        0 <= k < text::spec_split_any(input, "。！？\n;"@).len(),
        speaks_of_error(text::spec_split_any(input, "。！？\n;"@)[k]),
        parts::is_token_at(text::spec_split_any(input, "。！？\n;"@)[k], seq!['_', '-'], start, end),
        looks_like_error_code(
            text::spec_split_any(input, "。！？\n;"@)[k].subrange(start, end),
        ),
    ensures
        spec_extract_error_literals(input).contains(
            text::spec_split_any(input, "。！？\n;"@)[k].subrange(start, end),
        ),
{
    reveal(spec_error_codes);
    reveal_strlit("_-");
    let clause = text::spec_split_any(input, "。！？\n;"@)[k];
    let word = clause.subrange(start, end);
    assert("_-"@ =~= seq!['_', '-']);
    parts::tokens_are_pieces(clause, "_-"@, start, end);
    error_codes_are_told_by_their_looks(word);
    parts::kept_items_were_listed(
        text::spec_split_tokens(clause, "_-"@),
        |token: Seq<char>| spec_is_error_code(token),
        word,
    );
    error_literals_are_those_of_the_sentences(input, word);
}

/// Pieces of a text are blocks of code in turn.
proof fn blocks_are_every_other_piece(pieces: Seq<Seq<char>>, value: Seq<char>)
    ensures
        spec_blocks_read(pieces).1 == (pieces.len() % 2 == 1),
        spec_blocks_read(pieces).0.contains(value) <==> value.len() > 0 && exists|k: int|
            #![trigger pieces[k]]
            0 <= k < pieces.len() && k % 2 == 1 && text::spec_trim(pieces[k]) == value,
    decreases pieces.len(),
{
    if pieces.len() > 0 {
        let earlier = pieces.drop_last();
        let (blocks, inside) = spec_blocks_read(earlier);
        let block = text::spec_trim(pieces.last());
        blocks_are_every_other_piece(earlier, value);
        parts::pushed_item(blocks, block, value);
        assert(pieces[pieces.len() - 1] == pieces.last());
        if blocks.contains(value) {
            let k = choose|k: int|
                #![trigger earlier[k]]
                0 <= k < earlier.len() && k % 2 == 1 && text::spec_trim(earlier[k]) == value;
            assert(pieces[k] == earlier[k]);
        }
        if exists|k: int|
            #![trigger pieces[k]]
            0 <= k < pieces.len() && k % 2 == 1 && text::spec_trim(pieces[k]) == value {
            let k = choose|k: int|
                #![trigger pieces[k]]
                0 <= k < pieces.len() && k % 2 == 1 && text::spec_trim(pieces[k]) == value;
            if k < pieces.len() - 1 {
                assert(earlier[k] == pieces[k]);
            }
        }
    }
}

/// The blocks of code are every other piece between fences, from the second on, trimmed and not
/// blank: all of these, and nothing else.
pub proof fn code_blocks_stand_between_fences(input: Seq<char>, value: Seq<char>)
    ensures
        spec_extract_fenced_code_blocks(input).contains(value) <==> value.len() > 0 && exists|k: int|
            #![trigger text::spec_split_text(
                text::spec_replace(input, "\r\n"@, "\n"@),
                "```"@,
            )[k]]
            0 <= k < text::spec_split_text(
                text::spec_replace(input, "\r\n"@, "\n"@),
                "```"@,
            ).len() && k % 2 == 1 && text::spec_trim(
                text::spec_split_text(text::spec_replace(input, "\r\n"@, "\n"@), "```"@)[k],
            ) == value,
{
    blocks_are_every_other_piece(
        text::spec_split_text(text::spec_replace(input, "\r\n"@, "\n"@), "```"@),
        value,
    );
}

/// A text without backquotes is followed by the first fence.
proof fn first_fence(before: Seq<char>, after: Seq<char>)
    requires
        text::lacks(before, '`'),
    ensures
        text::spec_split_once(before + "```"@ + after, "```"@) == Some((before, after)),
{
    reveal_strlit("```");
    let fence = "```"@;
    let whole = before + fence + after;
    text::lemma_find_from(whole, fence, 0);
    assert(whole.subrange(before.len() as int, (before.len() + 3) as int) =~= fence);
    assert(text::occurs_at(whole, fence, before.len() as int));
    let k = text::spec_find(whole, fence)->Some_0;
    assert(k == before.len()) by {
        if k < before.len() {
            assert(whole.subrange(k, k + 3)[0] == before[k]);
        }
    }
    assert(whole.take(k) =~= before);
    assert(whole.skip(k + fence.len()) =~= after);
}

/// Code that stands between the first two fences of a text is one of its blocks, trimmed; so is
/// code after the first fence that nothing closes.
pub proof fn fenced_code_is_found(before: Seq<char>, inner: Seq<char>, after: Seq<char>)
    requires
        text::lacks(before, '`'),
        text::lacks(inner, '`'),
        text::lacks(before, '\r'),
        text::lacks(inner, '\r'),
        text::lacks(after, '\r'),
        text::spec_trim(inner).len() > 0,
    ensures
        spec_extract_fenced_code_blocks(before + "```"@ + inner + "```"@ + after).contains(
            text::spec_trim(inner),
        ),
        spec_extract_fenced_code_blocks(before + "```"@ + inner).contains(text::spec_trim(inner)),
{
    reveal_strlit("```");
    reveal_strlit("\r\n");
    let fence = "```"@;
    let value = text::spec_trim(inner);
    let tail = inner + fence + after;
    let closed = before + fence + inner + fence + after;
    let open = before + fence + inner;
    assert(closed =~= before + fence + tail);
    text::nothing_is_replaced(closed, "\r\n"@, "\n"@, 0);
    text::nothing_is_replaced(open, "\r\n"@, "\n"@, 0);
    assert(closed.skip(0) =~= closed);
    assert(open.skip(0) =~= open);
    first_fence(before, tail);
    first_fence(inner, after);
    first_fence(before, inner);
    let pieces = text::spec_split_text(closed, fence);
    assert(pieces == seq![before] + text::spec_split_text(tail, fence));
    assert(text::spec_split_text(tail, fence)[0] == inner);
    assert(pieces[1] == inner);
    code_blocks_stand_between_fences(closed, value);
    text::lemma_find_from(inner, fence, 0);
    if text::spec_find(inner, fence) is Some {
        let k = text::spec_find(inner, fence)->Some_0;
        assert(inner.subrange(k, k + fence.len())[0] == inner[k]);
    }
    let halves = text::spec_split_text(open, fence);
    assert(halves == seq![before] + text::spec_split_text(inner, fence));
    assert(halves[1] == inner);
    code_blocks_stand_between_fences(open, value);
}

/// A path stands in the text from one position up to another: characters of paths alone, with none
/// before and none after them.
pub open spec fn is_path_at(text: Seq<char>, start: int, end: int) -> bool {
    &&& 0 <= start < end <= text.len()
    &&& forall|i: int| start <= i < end ==> spec_is_path_character(#[trigger] text[i])
    &&& start > 0 ==> !spec_is_path_character(text[start - 1])
    &&& end < text.len() ==> !spec_is_path_character(text[end])
}

/// The path that a text ends with is the one that is being read.
proof fn path_is_being_read(text: Seq<char>, start: int)
    requires
        0 <= start <= text.len(),
        forall|i: int| start <= i < text.len() ==> spec_is_path_character(#[trigger] text[i]),
        start > 0 ==> !spec_is_path_character(text[start - 1]),
    ensures
        spec_path_tokens_read(text).0 == text.skip(start),
    decreases text.len(),
{
    if text.len() == 0 {
        assert(text.skip(start) =~= Seq::empty());
    } else if start == text.len() {
        assert(text.last() == text[start - 1]);
        assert(text.skip(start) =~= Seq::empty());
    } else {
        let shorter = text.drop_last();
        path_is_being_read(shorter, start);
        assert(shorter.skip(start).push(text.last()) =~= text.skip(start));
    }
}

/// A path before the end of a text was read.
proof fn path_was_read(text: Seq<char>, start: int, end: int)
    requires
        is_path_at(text, start, end),
        end < text.len(),
    ensures
        spec_path_tokens_read(text).1.contains(text.subrange(start, end)),
    decreases text.len(),
{
    let shorter = text.drop_last();
    let (current, tokens) = spec_path_tokens_read(shorter);
    let path = text.subrange(start, end);
    assert(shorter.subrange(start, end) =~= path);
    if end == text.len() - 1 {
        path_is_being_read(shorter, start);
        assert(shorter.skip(start) =~= path);
        assert(text.last() == text[end]);
        parts::pushed_item(tokens, current, path);
    } else {
        path_was_read(shorter, start, end);
        parts::pushed_item(tokens, current, path);
    }
}

/// A path that stands in a text is among its paths.
pub proof fn paths_are_read(input: Seq<char>, start: int, end: int)
    requires
        is_path_at(input, start, end),
    ensures
        spec_ascii_path_tokens(input).contains(input.subrange(start, end)),
{
    reveal(spec_ascii_path_tokens);
    let (current, tokens) = spec_path_tokens_read(input);
    let path = input.subrange(start, end);
    parts::pushed_item(tokens, current, path);
    if end < input.len() {
        path_was_read(input, start, end);
    } else {
        path_is_being_read(input, start);
        assert(input.skip(start) =~= path);
    }
}

/// The ending of a file's name.
pub open spec fn is_file_ending(extension: Seq<char>) -> bool {
    ||| extension == "bat"@
    ||| extension == "cmd"@
    ||| extension == "css"@
    ||| extension == "csv"@
    ||| extension == "dll"@
    ||| extension == "env"@
    ||| extension == "exe"@
    ||| extension == "go"@
    ||| extension == "graphql"@
    ||| extension == "html"@
    ||| extension == "java"@
    ||| extension == "js"@
    ||| extension == "json"@
    ||| extension == "jsx"@
    ||| extension == "kt"@
    ||| extension == "lock"@
    ||| extension == "log"@
    ||| extension == "md"@
    ||| extension == "pdf"@
    ||| extension == "ps1"@
    ||| extension == "py"@
    ||| extension == "rs"@
    ||| extension == "sh"@
    ||| extension == "sql"@
    ||| extension == "swift"@
    ||| extension == "toml"@
    ||| extension == "ts"@
    ||| extension == "tsx"@
    ||| extension == "txt"@
    ||| extension == "yaml"@
    ||| extension == "yml"@
}

/// The endings that are looked for hold the ending.
proof fn file_endings_are_listed(extension: Seq<char>) -> (k: int)
    requires
        is_file_ending(extension),
    ensures
        0 <= k < FILE_EXTENSIONS@.len(),
        FILE_EXTENSIONS@[k]@ == extension,
{
    assert(FILE_EXTENSIONS@[0]@ == "bat"@);
    assert(FILE_EXTENSIONS@[1]@ == "cmd"@);
    assert(FILE_EXTENSIONS@[2]@ == "css"@);
    assert(FILE_EXTENSIONS@[3]@ == "csv"@);
    assert(FILE_EXTENSIONS@[4]@ == "dll"@);
    assert(FILE_EXTENSIONS@[5]@ == "env"@);
    assert(FILE_EXTENSIONS@[6]@ == "exe"@);
    assert(FILE_EXTENSIONS@[7]@ == "go"@);
    assert(FILE_EXTENSIONS@[8]@ == "graphql"@);
    assert(FILE_EXTENSIONS@[9]@ == "html"@);
    assert(FILE_EXTENSIONS@[10]@ == "java"@);
    assert(FILE_EXTENSIONS@[11]@ == "js"@);
    assert(FILE_EXTENSIONS@[12]@ == "json"@);
    assert(FILE_EXTENSIONS@[13]@ == "jsx"@);
    assert(FILE_EXTENSIONS@[14]@ == "kt"@);
    assert(FILE_EXTENSIONS@[15]@ == "lock"@);
    assert(FILE_EXTENSIONS@[16]@ == "log"@);
    assert(FILE_EXTENSIONS@[17]@ == "md"@);
    assert(FILE_EXTENSIONS@[18]@ == "pdf"@);
    assert(FILE_EXTENSIONS@[19]@ == "ps1"@);
    assert(FILE_EXTENSIONS@[20]@ == "py"@);
    assert(FILE_EXTENSIONS@[21]@ == "rs"@);
    assert(FILE_EXTENSIONS@[22]@ == "sh"@);
    assert(FILE_EXTENSIONS@[23]@ == "sql"@);
    assert(FILE_EXTENSIONS@[24]@ == "swift"@);
    assert(FILE_EXTENSIONS@[25]@ == "toml"@);
    assert(FILE_EXTENSIONS@[26]@ == "ts"@);
    assert(FILE_EXTENSIONS@[27]@ == "tsx"@);
    assert(FILE_EXTENSIONS@[28]@ == "txt"@);
    assert(FILE_EXTENSIONS@[29]@ == "yaml"@);
    assert(FILE_EXTENSIONS@[30]@ == "yml"@);
    choose|k: int| 0 <= k < FILE_EXTENSIONS@.len() && #[trigger] FILE_EXTENSIONS@[k]@ == extension
}

/// The names that endings give are added, and none is lost.
proof fn names_by_endings(
    items: Seq<&str>,
    lower: Seq<char>,
    token: Seq<char>,
    collected: Seq<Seq<char>>,
    name: Seq<char>,
)
    ensures
        spec_extensions_found(items, lower, token, collected).contains(name) <==> collected.contains(
            name,
        ) || exists|k: int|
            #![trigger items[k]]
            0 <= k < items.len() && (text::spec_find(lower, "."@ + items[k]@) matches Some(index)
                && name == text::spec_take(
                token,
                text::spec_span_end(index, ("."@ + items[k]@).len() as int),
            )),
    decreases items.len(),
{
    if items.len() > 0 {
        let fewer = items.drop_last();
        let suffix = "."@ + items.last()@;
        let before = spec_extensions_found(fewer, lower, token, collected);
        names_by_endings(fewer, lower, token, collected, name);
        assert(items[items.len() - 1] == items.last());
        match text::spec_find(lower, suffix) {
            Some(index) => {
                let found = text::spec_take(
                    token,
                    text::spec_span_end(index, suffix.len() as int),
                );
                parts::pushed_item(before, found, name);
            },
            None => {},
        }
        if before.contains(name) && !collected.contains(name) {
            let k = choose|k: int|
                #![trigger fewer[k]]
                0 <= k < fewer.len() && (text::spec_find(lower, "."@ + fewer[k]@) matches Some(
                    index,
                ) && name == text::spec_take(
                    token,
                    text::spec_span_end(index, ("."@ + fewer[k]@).len() as int),
                ));
            assert(items[k] == fewer[k]);
        }
        assert forall|k: int|
            #![trigger items[k]]
            0 <= k < items.len() && (text::spec_find(lower, "."@ + items[k]@) matches Some(index)
                && name == text::spec_take(
                token,
                text::spec_span_end(index, ("."@ + items[k]@).len() as int),
            )) implies spec_extensions_found(items, lower, token, collected).contains(name) by {
            if k < items.len() - 1 {
                assert(fewer[k] == items[k]);
            }
        }
    }
}

/// Names of files that were collected stay.
proof fn collected_names_stay(token: Seq<char>, values: Seq<Seq<char>>, name: Seq<char>)
    requires
        values.contains(name),
    ensures
        spec_with_file_names(token, values).contains(name),
{
    reveal(spec_with_file_names);
    parts::pushed_item(values, token, name);
    names_by_endings(FILE_EXTENSIONS@, text::spec_lowercase(token), token, values, name);
}

/// The name of a file up to the first place of its ending is collected.
proof fn name_is_collected(
    token: Seq<char>,
    values: Seq<Seq<char>>,
    extension: Seq<char>,
    dot: int,
)
    requires
        is_file_ending(extension),
        text::spec_find(text::spec_lowercase(token), "."@ + extension) == Some(dot),
        text::spec_lowercase(token) != "node.js"@,
        token.len() <= usize::MAX,
    ensures
        spec_with_file_names(token, values).contains(token.take(dot + 1 + extension.len())),
{
    reveal(spec_with_file_names);
    reveal_strlit(".");
    let lower = text::spec_lowercase(token);
    let k = file_endings_are_listed(extension);
    let name = token.take(dot + 1 + extension.len());
    text::lemma_find_from(lower, "."@ + extension, 0);
    if spec_any_same(FILE_BASENAMES@, token) {
        basenames_have_no_dot(token);
        let part = lower.subrange(dot, dot + 1 + extension.len());
        assert(part[0] == ("."@ + extension)[0]);
        assert(lower[dot] == '.');
    }
    names_by_endings(FILE_EXTENSIONS@, lower, token, values, name);
    assert(FILE_EXTENSIONS@[k]@ == extension);
    if dot + 1 + extension.len() == token.len() {
        assert(name =~= token);
    }
}

/// Names of files without an ending hold no dot.
proof fn basenames_have_no_dot(token: Seq<char>)
    requires
        spec_any_same(FILE_BASENAMES@, token),
    ensures
        text::lacks(text::spec_lowercase(token), '.'),
{
    reveal_strlit("Dockerfile");
    reveal_strlit("Makefile");
    reveal_strlit("README");
    let i = choose|i: int|
        #![trigger FILE_BASENAMES@[i]]
        0 <= i < FILE_BASENAMES@.len() && text::spec_same_ignoring_case(token, FILE_BASENAMES@[i]@);
    let name = FILE_BASENAMES@[i]@;
    assert(text::lacks(name, '.'));
    assert forall|j: int| 0 <= j < text::spec_lowercase(token).len() implies
        #[trigger] text::spec_lowercase(token)[j] != '.' by {
        assert(text::spec_lowercase(token)[j] == text::spec_lowercase(name)[j]);
        assert(name[j] != '.');
    }
}

/// Names that the parts of a path give are all collected.
proof fn names_of_parts(
    components: Seq<Seq<char>>,
    values: Seq<Seq<char>>,
    k: int,
    extension: Seq<char>,
    dot: int,
)
    requires
        0 <= k < components.len(),
        is_file_ending(extension),
        text::spec_find(text::spec_lowercase(components[k]), "."@ + extension) == Some(dot),
        text::spec_lowercase(components[k]) != "node.js"@,
        components[k].len() <= usize::MAX,
    ensures
        spec_component_names(components, values).contains(
            components[k].take(dot + 1 + extension.len()),
        ),
    decreases components.len(),
{
    let fewer = components.drop_last();
    let before = spec_component_names(fewer, values);
    if k == components.len() - 1 {
        name_is_collected(components[k], before, extension, dot);
    } else {
        assert(fewer[k] == components[k]);
        names_of_parts(fewer, values, k, extension, dot);
        collected_names_stay(
            components.last(),
            before,
            components[k].take(dot + 1 + extension.len()),
        );
    }
}

/// Names that were collected stay when the parts of another path are read.
proof fn names_stay_with_parts(
    components: Seq<Seq<char>>,
    values: Seq<Seq<char>>,
    name: Seq<char>,
)
    requires
        values.contains(name),
    ensures
        spec_component_names(components, values).contains(name),
    decreases components.len(),
{
    if components.len() > 0 {
        names_stay_with_parts(components.drop_last(), values, name);
        collected_names_stay(
            components.last(),
            spec_component_names(components.drop_last(), values),
            name,
        );
    }
}

/// A path names a file by a part of it: by itself, or by the parts between slashes where several of
/// these look like names of files.
pub open spec fn has_file_part(path: Seq<char>, part: Seq<char>) -> bool {
    if spec_several_files(spec_path_components(text::spec_trim_end_any(path, ":*"@))) {
        spec_path_components(text::spec_trim_end_any(path, ":*"@)).contains(part)
    } else {
        part == text::spec_trim_end_any(path, ":*"@)
    }
}

/// Names of files that paths give are collected from each of them.
proof fn names_of_paths(
    paths: Seq<Seq<char>>,
    k: int,
    part: Seq<char>,
    extension: Seq<char>,
    dot: int,
)
    requires
        0 <= k < paths.len(),
        has_file_part(paths[k], part),
        is_file_ending(extension),
        text::spec_find(text::spec_lowercase(part), "."@ + extension) == Some(dot),
        text::spec_lowercase(part) != "node.js"@,
        part.len() <= usize::MAX,
    ensures
        spec_file_names_read(paths).contains(part.take(dot + 1 + extension.len())),
    decreases paths.len(),
{
    reveal(spec_with_all_file_names);
    let fewer = paths.drop_last();
    let values = spec_file_names_read(fewer);
    let token = text::spec_trim_end_any(paths.last(), ":*"@);
    let components = spec_path_components(token);
    let name = part.take(dot + 1 + extension.len());
    if k == paths.len() - 1 {
        if spec_several_files(components) {
            let n = choose|n: int| 0 <= n < components.len() && components[n] == part;
            names_of_parts(components, values, n, extension, dot);
        } else {
            name_is_collected(token, values, extension, dot);
        }
    } else {
        assert(fewer[k] == paths[k]);
        names_of_paths(fewer, k, part, extension, dot);
        if spec_several_files(components) {
            names_stay_with_parts(components, values, name);
        } else {
            collected_names_stay(token, values, name);
        }
    }
}

/// Where a path of the text names a file, the name up to the first place of its ending is among the
/// names of files; "Node.js" alone is the name of none.
pub proof fn file_names_are_found(
    input: Seq<char>,
    start: int,
    end: int,
    part: Seq<char>,
    extension: Seq<char>,
    dot: int,
)
    requires
        is_path_at(input, start, end),
        has_file_part(input.subrange(start, end), part),
        is_file_ending(extension),
        text::spec_find(text::spec_lowercase(part), "."@ + extension) == Some(dot),
        text::spec_lowercase(part) != "node.js"@,
        part.len() <= usize::MAX,
    ensures
        spec_extract_file_names(input).contains(part.take(dot + 1 + extension.len())),
{
    reveal(spec_extract_file_names);
    paths_are_read(input, start, end);
    let paths = spec_ascii_path_tokens(input);
    let k = choose|k: int| 0 <= k < paths.len() && paths[k] == input.subrange(start, end);
    names_of_paths(paths, k, part, extension, dot);
}

/// The word is the name of a file without an ending, in upper or lower case.
pub open spec fn is_plain_file_name(word: Seq<char>) -> bool {
    text::spec_same_ignoring_case(word, "Dockerfile"@) || text::spec_same_ignoring_case(
        word,
        "Makefile"@,
    ) || text::spec_same_ignoring_case(word, "README"@)
}

/// Names without an ending are looked for, and are not the name of a product.
proof fn plain_names_are_known(word: Seq<char>)
    requires
        is_plain_file_name(word),
    ensures
        spec_any_same(FILE_BASENAMES@, word),
        text::spec_lowercase(word) != "node.js"@,
{
    reveal_strlit("Dockerfile");
    reveal_strlit("Makefile");
    reveal_strlit("README");
    reveal_strlit("node.js");
    assert(FILE_BASENAMES@[0]@ == "Dockerfile"@);
    assert(FILE_BASENAMES@[1]@ == "Makefile"@);
    assert(FILE_BASENAMES@[2]@ == "README"@);
    let lower = text::spec_lowercase(word);
    assert(lower.len() == word.len());
    if text::spec_same_ignoring_case(word, "Dockerfile"@) {
        assert(lower.len() == text::spec_lowercase("Dockerfile"@).len());
    } else if text::spec_same_ignoring_case(word, "Makefile"@) {
        assert(lower.len() == text::spec_lowercase("Makefile"@).len());
    } else {
        assert(lower.len() == text::spec_lowercase("README"@).len());
    }
}

/// A name without an ending is collected as it is written.
proof fn plain_name_is_collected(word: Seq<char>, values: Seq<Seq<char>>)
    requires
        is_plain_file_name(word),
    ensures
        spec_with_file_names(word, values).contains(word),
{
    reveal(spec_with_file_names);
    plain_names_are_known(word);
    parts::pushed_item(values, word, word);
}

/// Names without an ending are collected from the parts of a path.
proof fn plain_names_of_parts(components: Seq<Seq<char>>, values: Seq<Seq<char>>, k: int)
    requires
        0 <= k < components.len(),
        is_plain_file_name(components[k]),
    ensures
        spec_component_names(components, values).contains(components[k]),
    decreases components.len(),
{
    let fewer = components.drop_last();
    let before = spec_component_names(fewer, values);
    if k == components.len() - 1 {
        plain_name_is_collected(components[k], before);
    } else {
        assert(fewer[k] == components[k]);
        plain_names_of_parts(fewer, values, k);
        collected_names_stay(components.last(), before, components[k]);
    }
}

/// Names without an ending are collected from each path.
proof fn plain_names_of_paths(paths: Seq<Seq<char>>, k: int, part: Seq<char>)
    requires
        0 <= k < paths.len(),
        has_file_part(paths[k], part),
        is_plain_file_name(part),
    ensures
        spec_file_names_read(paths).contains(part),
    decreases paths.len(),
{
    reveal(spec_with_all_file_names);
    let fewer = paths.drop_last();
    let values = spec_file_names_read(fewer);
    let token = text::spec_trim_end_any(paths.last(), ":*"@);
    let components = spec_path_components(token);
    if k == paths.len() - 1 {
        if spec_several_files(components) {
            let n = choose|n: int| 0 <= n < components.len() && components[n] == part;
            plain_names_of_parts(components, values, n);
        } else {
            plain_name_is_collected(token, values);
        }
    } else {
        assert(fewer[k] == paths[k]);
        plain_names_of_paths(fewer, k, part);
        if spec_several_files(components) {
            names_stay_with_parts(components, values, part);
        } else {
            collected_names_stay(token, values, part);
        }
    }
}

/// Files that are known by their name alone are among the names of files, in upper or lower case.
pub proof fn plain_file_names_are_found(input: Seq<char>, start: int, end: int, part: Seq<char>)
    requires
        is_path_at(input, start, end),
        has_file_part(input.subrange(start, end), part),
        is_plain_file_name(part),
    ensures
        spec_extract_file_names(input).contains(part),
{
    reveal(spec_extract_file_names);
    paths_are_read(input, start, end);
    let paths = spec_ascii_path_tokens(input);
    let k = choose|k: int| 0 <= k < paths.len() && paths[k] == input.subrange(start, end);
    plain_names_of_paths(paths, k, part);
}

} // verus!
