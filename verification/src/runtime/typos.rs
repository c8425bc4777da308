//! Misspellings in requests that are corrected before anything else is read from them.
use vstd::prelude::*;
use crate::contents;
use crate::runtime::matching;
use crate::runtime::spans;
use crate::text;

verus! {

broadcast use crate::contents::group_contents;

/// The value from `i` on with every match of the token that is a word of its own replaced.
/// Matches are taken from the left.
pub open spec fn replaced_tokens_from(
    value: Seq<char>,
    token: Seq<char>,
    replacement: Seq<char>,
    i: int,
) -> Seq<char>
    decreases value.len() - i,
{
    if i >= value.len() || token.len() == 0 {
        value.skip(i)
    } else if text::occurs_at(value, token, i) {
        (if matching::spec_stands_alone(value, i, token.len() as int) {
            replacement
        } else {
            token
        }) + replaced_tokens_from(value, token, replacement, i + token.len())
    } else {
        seq![value[i]] + replaced_tokens_from(value, token, replacement, i + 1)
    }
}

/// Value of [`replace_exact_ascii_token`].
#[verifier::opaque]
pub open spec fn spec_replace_exact_ascii_token(
    value: Seq<char>,
    typo: Seq<char>,
    replacement: Seq<char>,
) -> Seq<char> {
    replaced_tokens_from(value, typo, replacement, 0)
}

/// Replaces every match of the token, taken from the left, that touches no other character of
/// an identifier. An empty token replaces nothing.
pub fn replace_exact_ascii_token(value: &str, typo: &str, replacement: &str) -> (r: String)
    ensures
        r@ == spec_replace_exact_ascii_token(value@, typo@, replacement@),
{
    proof {
        reveal(spec_replace_exact_ascii_token);
    }
    let chars: Vec<char> = text::to_chars(value);
    let token: Vec<char> = text::to_chars(typo);
    if token.len() == 0 {
        assert(value@.skip(0) =~= value@);
        return value.to_owned();
    }
    let mut out: String = String::new();
    let mut i: usize = 0;
    while i < chars.len()
        invariant
            chars@ == value@,
            token@ == typo@,
            token@.len() > 0,
            i <= chars@.len(),
            replaced_tokens_from(value@, typo@, replacement@, 0) == out@ + replaced_tokens_from(
                value@,
                typo@,
                replacement@,
                i as int,
            ),
        decreases chars@.len() - i,
    {
        let ghost before = out@;
        if text::matches_at(&chars, &token, i) {
            let ghost rest = replaced_tokens_from(value@, typo@, replacement@, i + token@.len());
            if matching::stands_alone(value, i, token.len()) {
                out.append(replacement);
                assert(before + (replacement@ + rest) =~= out@ + rest);
            } else {
                out.append(typo);
                assert(before + (typo@ + rest) =~= out@ + rest);
            }
            i = i + token.len();
        } else {
            let ghost rest = replaced_tokens_from(value@, typo@, replacement@, i + 1);
            out.push(chars[i]);
            assert(before + (seq![value@[i as int]] + rest) =~= out@ + rest);
            i = i + 1;
        }
    }
    assert(out@ + value@.skip(i as int) =~= out@);
    out
}

proof fn tokens_within_words_are_kept(
    value: Seq<char>,
    token: Seq<char>,
    replacement: Seq<char>,
    i: int,
)
    requires
        0 <= i <= value.len(),
        forall|start: int| !#[trigger] matching::is_word_at(value, token, start),
    ensures
        replaced_tokens_from(value, token, replacement, i) == value.skip(i),
    decreases value.len() - i,
{
    if i < value.len() && token.len() > 0 {
        if text::occurs_at(value, token, i) {
            matching::words_stand_alone(value, token, i);
            assert(!matching::is_word_at(value, token, i));
            tokens_within_words_are_kept(value, token, replacement, i + token.len());
            assert(value.skip(i) =~= value.subrange(i, i + token.len()) + value.skip(
                i + token.len(),
            ));
        } else {
            tokens_within_words_are_kept(value, token, replacement, i + 1);
            assert(value.skip(i) =~= seq![value[i]] + value.skip(i + 1));
        }
    }
}

/// A text that does not hold the token as a word of its own stays as it is, though the token may
/// be part of a longer identifier.
pub proof fn longer_identifiers_are_kept(
    value: Seq<char>,
    token: Seq<char>,
    replacement: Seq<char>,
)
    requires
        forall|start: int| !#[trigger] matching::is_word_at(value, token, start),
    ensures
        spec_replace_exact_ascii_token(value, token, replacement) == value,
{
    reveal(spec_replace_exact_ascii_token);
    tokens_within_words_are_kept(value, token, replacement, 0);
    assert(value.skip(0) =~= value);
}

/// Misspellings and spelling variants with what is meant by them.
pub const KNOWN_INPUT_TYPOS: [(&'static str, &'static str); 60] = [
    ("TypeScritp", "TypeScript"),
    ("typeScritp", "TypeScript"),
    ("Recat", "React"),
    ("useSerchParams", "useSearchParams"),
    ("stauts", "status"),
    ("AbortContorller", "AbortController"),
    ("Vitset", "Vitest"),
    ("Shift JSI", "Shift_JIS"),
    ("UTF8 BMO", "UTF-8 BOM"),
    ("10BM", "10MB"),
    ("INVALID_FILE_SISE", "INVALID_FILE_SIZE"),
    ("colmuns", "columns"),
    ("dryrun", "dryRun"),
    ("お願いしまうs", "お願いします"),
    ("ほしです", "ほしいです"),
    ("Nex.js", "Next.js"),
    ("Nextjs", "Next.js"),
    ("POST /api/odrers", "POST /api/orders"),
    ("custmerID", "customerId"),
    ("reqestId", "requestId"),
    ("user-setings.json", "user-settings.json"),
    ("aplication/local/stete", "application/local/state"),
    ("せってい", "設定"),
    ("圧縮れべる", "圧縮レベル"),
    ("ウインドウ", "ウィンドウ"),
    ("保存しなで", "保存しないで"),
    ("WebSoket", "WebSocket"),
    ("指数ばっくおふ", "指数バックオフ"),
    ("2病", "2秒"),
    ("プラマイ20%", "±20%"),
    ("close cord 4001", "close code 4001"),
    ("soket", "socket"),
    ("message hander", "message handler"),
    ("10会", "10回"),
    ("fake timre", "fake timer"),
    ("PawerShell", "PowerShell"),
    ("DataLoder", "DataLoader"),
    ("Sarashna 2.2 3B", "Sarashina 2.2 3B"),
    ("LMStduio", "LM Studio"),
    ("LMStudio", "LM Studio"),
    ("custmerId", "customerId"),
    ("INVALID_CUSTMER", "INVALID_CUSTOMER"),
    ("avaterUrl", "avatarUrl"),
    ("clpboard", "clipboard"),
    ("Shift JIS", "Shift_JIS"),
    ("UTF8 BOM", "UTF-8 BOM"),
    ("UTF8", "UTF-8"),
    ("HTTP400", "HTTP 400"),
    ("HTTP429", "HTTP 429"),
    ("10 %", "10%"),
    ("--dryrun", "--dry-run"),
    ("ja.josn", "ja.json"),
    ("読みこまず", "読み込まず"),
    ("こえる", "超える"),
    ("変更しなで", "変更しないで"),
    ("テスと", "テスト"),
    ("空もじ列", "空文字列"),
    ("空もじ", "空文字"),
    ("いりません", "不要"),
    ("LMS Studio", "LM Studio"),
];

/// The state of [`correct_known_typos`] after the given items.
pub open spec fn spec_corrected_by(items: Seq<(&str, &str)>, corrected: Seq<char>) -> Seq<char>
    decreases items.len(),
{
    if items.len() == 0 {
        corrected
    } else {
        let corrected = spec_corrected_by(items.drop_last(), corrected);
        let typo = items.last().0@;
        let meant = items.last().1@;
        if matching::spec_all_identifier(typo) {
            spec_replace_exact_ascii_token(corrected, typo, meant)
        } else {
            text::spec_replace(corrected, typo, meant)
        }
    }
}

/// Value of [`correct_known_typos`].
#[verifier::opaque]
pub open spec fn spec_correct_known_typos(span: Seq<char>) -> Seq<char> {
    let corrected = span;
    spec_corrected_by(KNOWN_INPUT_TYPOS@, corrected)
}

/// Corrects the known misspellings one after the other: an identifier where it is a word of its
/// own, anything else wherever it stands.
pub fn correct_known_typos(span: &str) -> (r: String)
    ensures
        r@ == spec_correct_known_typos(span@),
{
    proof {
        reveal(spec_correct_known_typos);
    }
    let mut corrected: String = span.to_owned();
    let ghost initial_corrected = corrected@;
    let mut i: usize = 0;
    while i < KNOWN_INPUT_TYPOS.len()
        invariant
            i <= KNOWN_INPUT_TYPOS@.len(),
            corrected@ == spec_corrected_by(KNOWN_INPUT_TYPOS@.take(i as int), initial_corrected),
        decreases KNOWN_INPUT_TYPOS@.len() - i,
    {
        assert(KNOWN_INPUT_TYPOS@.take(i + 1).drop_last() =~= KNOWN_INPUT_TYPOS@.take(i as int));
        let typo: &str = KNOWN_INPUT_TYPOS[i].0;
        let meant: &str = KNOWN_INPUT_TYPOS[i].1;
        i = i + 1;
        if matching::all_identifier(typo) {
            corrected = replace_exact_ascii_token(&corrected, typo, meant);
        } else {
            corrected = text::replace(&corrected, typo, meant);
        }
    }
    assert(KNOWN_INPUT_TYPOS@.take(KNOWN_INPUT_TYPOS@.len() as int) =~= KNOWN_INPUT_TYPOS@);
    corrected
}

/// Value of [`apply_known_input_typo_replacements`].
#[verifier::opaque]
pub open spec fn spec_apply_known_input_typo_replacements(input: Seq<char>) -> Seq<char> {
    spans::spec_map_unquoted_spans(input, |s: Seq<char>| spec_correct_known_typos(s))
}

/// Corrects the known misspellings outside quoted literals.
pub fn apply_known_input_typo_replacements(input: &str) -> (r: String)
    ensures
        r@ == spec_apply_known_input_typo_replacements(input@),
{
    proof {
        reveal(spec_apply_known_input_typo_replacements);
    }
    spans::map_unquoted_spans(
        input,
        correct_known_typos,
        Ghost(|s: Seq<char>| spec_correct_known_typos(s)),
    )
}

/// The condition of [`should_preserve_line_spacing`]: the line is indented, opens a code block,
/// or belongs to a table or a quotation.
pub open spec fn spec_should_preserve_line_spacing(line: Seq<char>) -> bool {
    let trimmed = text::spec_trim_start(line);
    text::spec_starts_with(line, " "@)
        || text::spec_starts_with(line, "\t"@)
        || text::spec_starts_with(trimmed, "```"@)
        || text::spec_starts_with(trimmed, "|"@)
        || text::spec_starts_with(trimmed, ">"@)
}

/// Whether the line is indented, opens a code block, or belongs to a table or a quotation.
pub fn should_preserve_line_spacing(line: &str) -> (r: bool)
    ensures
        r == spec_should_preserve_line_spacing(line@),
{
    let trimmed: String = text::trim_start(line);
    text::starts_with(line, " ")
        || text::starts_with(line, "\t")
        || text::starts_with(&trimmed, "```")
        || text::starts_with(&trimmed, "|")
        || text::starts_with(&trimmed, ">")
}

/// The condition of [`should_skip_typo_normalization`]: the line is code, data or a stack frame,
/// in which nothing is corrected.
#[verifier::opaque]
pub open spec fn spec_should_skip_typo_normalization(line: Seq<char>) -> bool {
    let trimmed = text::spec_trim_start(line);
    spec_should_preserve_line_spacing(line)
        || text::spec_starts_with(trimmed, "{"@)
        || text::spec_starts_with(trimmed, "["@)
        || text::spec_starts_with(trimmed, "at "@)
        || text::spec_contains(trimmed, "```"@)
}

/// Whether the line is code, data or a stack frame, in which nothing is corrected.
pub fn should_skip_typo_normalization(line: &str) -> (r: bool)
    ensures
        r == spec_should_skip_typo_normalization(line@),
{
    proof {
        reveal(spec_should_skip_typo_normalization);
    }
    let trimmed: String = text::trim_start(line);
    should_preserve_line_spacing(line)
        || text::starts_with(&trimmed, "{")
        || text::starts_with(&trimmed, "[")
        || text::starts_with(&trimmed, "at ")
        || text::contains(&trimmed, "```")
}

/// Value of [`corrected_line`].
#[verifier::opaque]
pub open spec fn spec_corrected_line(line: Seq<char>) -> Seq<char> {
    if spec_should_skip_typo_normalization(line) {
        line
    } else {
        spec_apply_known_input_typo_replacements(line)
    }
}

/// The line with known misspellings corrected, unless it is code, data or a stack frame.
pub fn corrected_line(line: &str) -> (r: String)
    ensures
        r@ == spec_corrected_line(line@),
{
    proof {
        reveal(spec_corrected_line);
    }
    if should_skip_typo_normalization(line) {
        return line.to_owned();
    }
    apply_known_input_typo_replacements(line)
}

/// Value of [`corrected_lines`].
#[verifier::opaque]
pub open spec fn spec_corrected_lines(lines: Seq<Seq<char>>) -> Seq<Seq<char>> {
    lines.map_values(|line: Seq<char>| spec_corrected_line(line))
}

/// The lines with known misspellings corrected.
pub fn corrected_lines(lines: &Vec<String>) -> (r: Vec<String>)
    ensures
        contents::views(r@) == spec_corrected_lines(contents::views(lines@)),
{
    proof {
        reveal(spec_corrected_lines);
    }
    let mut out: Vec<String> = Vec::new();
    let mut i: usize = 0;
    while i < lines.len()
        invariant
            i <= lines@.len(),
            out@.len() == i,
            forall|j: int|
                #![trigger contents::views(out@)[j]]
                0 <= j < i ==> contents::views(out@)[j] == spec_corrected_line(contents::views(lines@)[j]),
        decreases lines@.len() - i,
    {
        assert(contents::views(lines@)[i as int] == lines@[i as int]@);
        let line: &str = &lines[i];
        i = i + 1;
        out.push(corrected_line(line));
    }
    assert(contents::views(out@) =~= spec_corrected_lines(contents::views(lines@)));
    out
}

/// Value of [`normalize_known_input_typos_for_llm`].
#[verifier::opaque]
pub open spec fn spec_normalize_known_input_typos_for_llm(input: Seq<char>) -> Seq<char> {
    text::spec_join(spec_corrected_lines(text::spec_lines(input)), "\n"@)
}

/// Corrects the known misspellings of a request line by line.
pub fn normalize_known_input_typos_for_llm(input: &str) -> (r: String)
    ensures
        r@ == spec_normalize_known_input_typos_for_llm(input@),
{
    proof {
        reveal(spec_normalize_known_input_typos_for_llm);
    }
    text::join(&corrected_lines(&text::lines(input)), "\n")
}

/// Where the first character of a token does not stand, nothing of the value is replaced.
proof fn nothing_to_replace(
    value: Seq<char>,
    token: Seq<char>,
    replacement: Seq<char>,
    i: int,
    end: int,
)
    requires
        0 <= i <= end <= value.len(),
        token.len() > 0,
        forall|k: int| i <= k < end ==> #[trigger] value[k] != token[0],
    ensures
        replaced_tokens_from(value, token, replacement, i) == value.subrange(i, end)
            + replaced_tokens_from(value, token, replacement, end),
    decreases end - i,
{
    if i < end {
        assert(!text::occurs_at(value, token, i)) by {
            if text::occurs_at(value, token, i) {
                assert(value.subrange(i, i + token.len())[0] == value[i]);
            }
        }
        nothing_to_replace(value, token, replacement, i + 1, end);
        assert(value.subrange(i, end) =~= seq![value[i]] + value.subrange(i + 1, end));
        let rest = replaced_tokens_from(value, token, replacement, end);
        assert(seq![value[i]] + (value.subrange(i + 1, end) + rest) =~= value.subrange(i, end)
            + rest);
    } else {
        let rest = replaced_tokens_from(value, token, replacement, end);
        assert(value.subrange(i, end) + rest =~= rest);
    }
}

/// A misspelt word that stands on its own is replaced by what is meant, and the rest stays.
pub proof fn misspelt_words_are_replaced(
    before: Seq<char>,
    typo: Seq<char>,
    after: Seq<char>,
    meant: Seq<char>,
)
    requires
        typo.len() > 0,
        text::lacks(before, typo[0]),
        text::lacks(after, typo[0]),
        matching::is_word_at(before + typo + after, typo, before.len() as int),
    ensures
        spec_replace_exact_ascii_token(before + typo + after, typo, meant) == before + meant
            + after,
{
    reveal(spec_replace_exact_ascii_token);
    let value = before + typo + after;
    let start = before.len() as int;
    let end = start + typo.len();
    let all = value.len() as int;
    assert forall|k: int| 0 <= k < start implies #[trigger] value[k] != typo[0] by {
        assert(value[k] == before[k]);
    }
    assert forall|k: int| end <= k < all implies #[trigger] value[k] != typo[0] by {
        assert(value[k] == after[k - end]);
    }
    nothing_to_replace(value, typo, meant, 0, start);
    nothing_to_replace(value, typo, meant, end, all);
    assert(value.subrange(start, end) =~= typo);
    assert(text::occurs_at(value, typo, start));
    matching::words_stand_alone(value, typo, start);
    assert(value.subrange(0, start) =~= before);
    assert(value.subrange(end, all) =~= after);
    assert(value.skip(all) =~= Seq::empty());
    assert(before + (meant + (after + Seq::<char>::empty())) =~= before + meant + after);
}

/// Nothing is corrected in a line of code, data or a table: one that is indented, or whose first
/// sign is that of a fence, a table, a quotation, an object or a list.
pub proof fn lines_of_code_are_kept(line: Seq<char>)
    requires
        line.len() > 0,
        line[0] == ' ' || line[0] == '\t' || (text::spec_trim_start(line).len() > 0 && (
        text::spec_trim_start(line)[0] == '|' || text::spec_trim_start(line)[0] == '>'
            || text::spec_trim_start(line)[0] == '{' || text::spec_trim_start(line)[0] == '['))
            || text::spec_contains(text::spec_trim_start(line), "```"@),
    ensures
        spec_corrected_line(line) == line,
{
    reveal(spec_corrected_line);
    reveal(spec_should_skip_typo_normalization);
    reveal_strlit(" ");
    reveal_strlit("\t");
    reveal_strlit("|");
    reveal_strlit(">");
    reveal_strlit("{");
    reveal_strlit("[");
    let trimmed = text::spec_trim_start(line);
    if line[0] == ' ' {
        assert(line.subrange(0, 1) =~= " "@);
    }
    if line[0] == '\t' {
        assert(line.subrange(0, 1) =~= "\t"@);
    }
    if trimmed.len() > 0 {
        if trimmed[0] == '|' {
            assert(trimmed.subrange(0, 1) =~= "|"@);
        }
        if trimmed[0] == '>' {
            assert(trimmed.subrange(0, 1) =~= ">"@);
        }
        if trimmed[0] == '{' {
            assert(trimmed.subrange(0, 1) =~= "{"@);
        }
        if trimmed[0] == '[' {
            assert(trimmed.subrange(0, 1) =~= "["@);
        }
    }
}

/// A request is corrected line by line: it keeps the number of its lines, and each is corrected for
/// itself.
pub proof fn requests_are_corrected_by_lines(input: Seq<char>)
    ensures
        spec_normalize_known_input_typos_for_llm(input) == text::spec_join(
            text::spec_lines(input).map_values(|line: Seq<char>| spec_corrected_line(line)),
            seq!['\n'],
        ),
{
    reveal(spec_normalize_known_input_typos_for_llm);
    reveal(spec_corrected_lines);
    reveal_strlit("\n");
    assert("\n"@ =~= seq!['\n']);
}

} // verus!
