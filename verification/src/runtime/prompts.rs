//! What a model is told: the wording of prompts around a request.
use vstd::prelude::*;
use crate::config::catalog::{ModelDefinition, PromptProfileDefinition, PromptProfileRegistry};
use crate::config::catalog;
use crate::config::profile::ProfileDefinition;
use crate::contents;
use crate::error;
use crate::error::CompressionError;
use crate::parts;
use crate::runtime::draft;
use crate::runtime::preprocess;
use crate::runtime::structure;
use crate::runtime::structure::PromptStructure;
use crate::runtime::terms;
use crate::text;
use crate::types;
use crate::types::{
    CompressionConstraints,
    CompressionLevel,
    CompressionRequest,
    RequestSource,
    RequestTarget,
};

verus! {

broadcast use crate::contents::group_contents;

/// A prompt in two parts: what it shares with other requests, and what is its own.
#[derive(Debug)]
pub struct PromptParts {
    pub prefix: String,
    pub suffix: String,
}

/// Contents of [`PromptParts`].
pub struct PartsView {
    pub prefix: Seq<char>,
    pub suffix: Seq<char>,
}

impl View for PromptParts {
    type V = PartsView;

    open spec fn view(&self) -> PartsView {
        PartsView { prefix: self.prefix@, suffix: self.suffix@ }
    }
}

impl PromptParts {
    /// A prompt that shares nothing.
    pub fn whole(prompt: String) -> (r: PromptParts)
        ensures
            r@ == (PartsView { prefix: Seq::empty(), suffix: prompt@ }),
    {
        PromptParts { prefix: String::new(), suffix: prompt }
    }

    /// The prompt in one piece.
    pub fn combined(&self) -> (r: String)
        ensures
            r@ == self@.prefix + self@.suffix,
    {
        text::concat2(&self.prefix, &self.suffix)
    }
}

/// What opens the prompt of an embedded model.
pub const EMBEDDED_LLAMA_PROMPT_PREAMBLE: &'static str = "<|system|>\nJSONのみ。日本語依頼を短縮。説明/Markdown禁止。キーはdistilled_prompt。識別子/API/URL/ファイル名/数値/否定条件は保持。\n<|user|>\n";

/// What closes the prompt of an embedded model.
pub const EMBEDDED_LLAMA_PROMPT_ASSISTANT_SUFFIX: &'static str = "\n<|assistant|>\n";

/// Value of [`format_embedded_llama_prompt`].
pub open spec fn spec_format_embedded_llama_prompt(prompt: Seq<char>) -> Seq<char> {
    EMBEDDED_LLAMA_PROMPT_PREAMBLE@ + prompt + EMBEDDED_LLAMA_PROMPT_ASSISTANT_SUFFIX@
}

/// The prompt as an embedded model reads it.
pub fn format_embedded_llama_prompt(prompt: &str) -> (r: String)
    ensures
        r@ == spec_format_embedded_llama_prompt(prompt@),
{
    text::concat3(
        EMBEDDED_LLAMA_PROMPT_PREAMBLE,
        prompt,
        EMBEDDED_LLAMA_PROMPT_ASSISTANT_SUFFIX,
    )
}

/// Value of [`format_embedded_llama_prompt_prefix`].
pub open spec fn spec_format_embedded_llama_prompt_prefix(prefix: Seq<char>) -> Seq<char> {
    EMBEDDED_LLAMA_PROMPT_PREAMBLE@ + prefix
}

/// The shared part of a prompt as an embedded model reads it.
pub fn format_embedded_llama_prompt_prefix(prompt_prefix: &str) -> (r: String)
    ensures
        r@ == spec_format_embedded_llama_prompt_prefix(prompt_prefix@),
{
    text::concat2(EMBEDDED_LLAMA_PROMPT_PREAMBLE, prompt_prefix)
}

/// Value of [`format_embedded_llama_prompt_suffix`].
pub open spec fn spec_format_embedded_llama_prompt_suffix(suffix: Seq<char>) -> Seq<char> {
    suffix + EMBEDDED_LLAMA_PROMPT_ASSISTANT_SUFFIX@
}

/// The own part of a prompt as an embedded model reads it.
pub fn format_embedded_llama_prompt_suffix(prompt_suffix: &str) -> (r: String)
    ensures
        r@ == spec_format_embedded_llama_prompt_suffix(prompt_suffix@),
{
    text::concat2(prompt_suffix, EMBEDDED_LLAMA_PROMPT_ASSISTANT_SUFFIX)
}

/// An embedded model reads the same text whether the shared part of a prompt is kept or not.
pub proof fn parts_make_the_whole_prompt(prefix: Seq<char>, suffix: Seq<char>)
    ensures
        spec_format_embedded_llama_prompt_prefix(prefix)
            + spec_format_embedded_llama_prompt_suffix(suffix) == spec_format_embedded_llama_prompt(
            prefix + suffix,
        ),
{
    assert(spec_format_embedded_llama_prompt_prefix(prefix)
        + spec_format_embedded_llama_prompt_suffix(suffix) =~= spec_format_embedded_llama_prompt(
        prefix + suffix,
    ));
}

/// Value of [`organize_input_for_model`].
pub open spec fn spec_organize_input_for_model(
    input: Seq<char>,
    required_terms: Seq<Seq<char>>,
) -> Seq<char> {
    text::spec_join(
        structure::spec_rendered_facts(structure::spec_analyzed_facts(input, required_terms)),
        "\n"@,
    )
}

/// The request as the list of its facts.
pub fn organize_input_for_model(input: &str, required_terms: &Vec<String>) -> (r: String)
    ensures
        r@ == spec_organize_input_for_model(input@, contents::views(required_terms@)),
{
    PromptStructure::analyze(input, required_terms).render_for_model()
}

/// The line that lists the terms that must be kept.
pub open spec fn terms_line(terms: Seq<Seq<char>>) -> Seq<char> {
    if terms.len() == 0 {
        Seq::empty()
    } else {
        "必須語(逐字/各1回):"@ + text::spec_join(terms, ","@) + "\n"@
    }
}

/// The line that lists the expressions that must be kept.
pub open spec fn protected_line(expressions: Seq<Seq<char>>) -> Seq<char> {
    if expressions.len() == 0 {
        Seq::empty()
    } else {
        "保護(逐字/各1回):"@ + text::spec_join(expressions, " | "@) + "\n"@
    }
}

/// A line that lists texts after a heading; none where there are no texts.
fn listing(heading: &str, items: &Vec<String>, separator: &str) -> (r: String)
    ensures
        r@ == (if items@.len() == 0 {
            Seq::empty()
        } else {
            heading@ + text::spec_join(contents::views(items@), separator@) + "\n"@
        }),
{
    if items.len() == 0 {
        String::new()
    } else {
        text::concat3(heading, &text::join(items, separator), "\n")
    }
}

/// What the short prompts of a level share.
pub open spec fn concise_prefix(
    language: Seq<char>,
    shared: Seq<char>,
    wording: catalog::WordingView,
) -> Seq<char> {
    "JSONだけ返す。distilled_promptは"@ + language + "/"@ + wording.target_ratio
        + "/原文より短く。\n守る:"@ + shared + " "@ + wording.instruction + " "@ + (
    if wording.allow_semantic_shortening {
        "同義短縮可。"@
    } else {
        "表現変更最小。"@
    }) + " "@ + wording.format_instruction
        + " ラベル/見出し/接頭辞は禁止。\n入力の[現状]は望む動作ではない。[現状→要求]は矢印後だけを実装指示にする。各行の必須語はその行の役割と一緒に使う。[検証]の成功/失敗/否定も変えない。\n出力前確認:必須語全件/[制約]全件/[検証]全件/限定・否定・条件語の脱落なし/重複なし。\n"@
}

/// What a short prompt says of its request.
pub open spec fn concise_suffix(input: Seq<char>) -> Seq<char> {
    let terms = terms::spec_required_technical_terms(input);
    let facts = structure::spec_analyzed_facts(input, terms);
    terms_line(terms) + protected_line(structure::spec_protected_of_facts(facts)) + "入力整理:\n"@
        + text::spec_join(structure::spec_rendered_facts(facts), "\n"@)
        + "\nJSON:{\"distilled_prompt\":\"\"}"@
}

/// What the short prompts of a level share.
fn concise_prefix_of(language: &str, shared: &str, wording: &PromptProfileDefinition) -> (r: String)
    ensures
        r@ == concise_prefix(language@, shared@, wording@),
{
    let shortening: &str = if wording.allow_semantic_shortening {
        "同義短縮可。"
    } else {
        "表現変更最小。"
    };
    let start: String = text::concat5(
        "JSONだけ返す。distilled_promptは",
        language,
        "/",
        &wording.target_ratio,
        "/原文より短く。\n守る:",
    );
    let middle: String = text::concat5(&start, shared, " ", &wording.instruction, " ");
    text::concat5(
        &middle,
        shortening,
        " ",
        &wording.format_instruction,
        " ラベル/見出し/接頭辞は禁止。\n入力の[現状]は望む動作ではない。[現状→要求]は矢印後だけを実装指示にする。各行の必須語はその行の役割と一緒に使う。[検証]の成功/失敗/否定も変えない。\n出力前確認:必須語全件/[制約]全件/[検証]全件/限定・否定・条件語の脱落なし/重複なし。\n",
    )
}

/// What a short prompt says of its request.
fn concise_suffix_of(input: &str) -> (r: String)
    ensures
        r@ == concise_suffix(input@),
{
    let terms: Vec<String> = terms::required_technical_terms(input);
    let facts: PromptStructure = PromptStructure::analyze(input, &terms);
    let protected: Vec<String> = facts.protected_expressions();
    let start: String = text::concat3(
        &listing("必須語(逐字/各1回):", &terms, ","),
        &listing("保護(逐字/各1回):", &protected, " | "),
        "入力整理:\n",
    );
    text::concat3(&start, &facts.render_for_model(), "\nJSON:{\"distilled_prompt\":\"\"}")
}

/// The short prompt for the request.
pub fn concise_prompt_parts(request: &CompressionRequest, wordings: &PromptProfileRegistry) -> (r:
    Result<PromptParts, CompressionError>)
    ensures
        match r {
            Ok(parts) => wordings.wording(request@.level) matches Some(wording) && parts@ == (
            PartsView {
                prefix: concise_prefix(
                    draft::spec_request_output_language(request@),
                    wordings.spec_shared_instruction(),
                    wording,
                ),
                suffix: concise_suffix(
                    preprocess::spec_preprocess_input_for_llm(request@.input_text),
                ),
            }),
            Err(error) => wordings.wording(request@.level) is None && error@
                == error::ErrorView::InvalidConfig(catalog::missing_level_fault(request@.level)),
        },
{
    let wording: &PromptProfileDefinition = match wordings.resolve(
        request.compression_level.value(),
    ) {
        Ok(wording) => wording,
        Err(error) => {
            return Err(error);
        },
    };
    let language: &str = draft::request_output_language(request);
    let input: String = preprocess::preprocess_input_for_llm(&request.input_text);
    Ok(
        PromptParts {
            prefix: concise_prefix_of(language, wordings.shared_instruction(), wording),
            suffix: concise_suffix_of(&input),
        },
    )
}

/// Two requests in the same language and of the same level share the first part of their short
/// prompts.
pub proof fn short_prompts_share_their_prefix(
    first: types::RequestView,
    second: types::RequestView,
    shared: Seq<char>,
    wording: catalog::WordingView,
)
    requires
        draft::spec_request_is_japanese(first) == draft::spec_request_is_japanese(second),
        text::spec_trim(first.input_text).len() > 0,
        text::spec_trim(second.input_text).len() > 0,
    ensures
        concise_prefix(draft::spec_request_output_language(first), shared, wording)
            == concise_prefix(draft::spec_request_output_language(second), shared, wording),
{
}

/// The line of a prompt after a template that lists the terms that must be kept.
pub open spec fn template_terms_line(terms: Seq<Seq<char>>) -> Seq<char> {
    if terms.len() == 0 {
        Seq::empty()
    } else {
        "次の技術用語は表記を変えず、必ず `distilled_prompt` に含める: "@ + text::spec_join(
            terms,
            ", "@,
        ) + "。\n"@
    }
}

/// The prompt for a request after a template.
pub open spec fn template_prompt(template: Seq<char>, request: types::RequestView) -> Seq<char> {
    template + "\n\n"@ + (if draft::spec_request_output_language(request) == "日本語"@ {
        "`distilled_prompt` は必ず日本語で書く。"@
    } else {
        "`distilled_prompt` は入力と同じ言語で書く。"@
    }) + "\n"@ + template_terms_line(terms::spec_required_technical_terms(request.input_text))
        + "Codex がそのまま実行できる短い実装指示にする。要求、制約、禁止事項を落とさない。\n「実装指示を作成してください」「プロンプトを作成してください」とは書かず、実装作業を直接命令する。\n出力は次の JSON オブジェクトだけにする。`removed_content_summary` に削除内容がなければ空配列を入れる。\n{\"distilled_prompt\":\"...\",\"removed_content_summary\":[\"...\"]}\n\nユーザーの依頼:\n"@
        + preprocess::spec_preprocess_input_for_llm(request.input_text)
}

/// The prompt for the request after a template.
pub fn template_prompt_parts(request: &CompressionRequest, template: &str) -> (r: PromptParts)
    ensures
        r@ == (PartsView { prefix: Seq::empty(), suffix: template_prompt(template@, request@) }),
{
    let language: &str = if text::same(draft::request_output_language(request), "日本語") {
        "`distilled_prompt` は必ず日本語で書く。"
    } else {
        "`distilled_prompt` は入力と同じ言語で書く。"
    };
    let terms: Vec<String> = terms::required_technical_terms(&request.input_text);
    let terms_instruction: String = if terms.len() == 0 {
        String::new()
    } else {
        text::concat3(
            "次の技術用語は表記を変えず、必ず `distilled_prompt` に含める: ",
            &text::join(&terms, ", "),
            "。\n",
        )
    };
    let start: String = text::concat4(template, "\n\n", language, "\n");
    let prompt: String = text::concat4(
        &start,
        &terms_instruction,
        "Codex がそのまま実行できる短い実装指示にする。要求、制約、禁止事項を落とさない。\n「実装指示を作成してください」「プロンプトを作成してください」とは書かず、実装作業を直接命令する。\n出力は次の JSON オブジェクトだけにする。`removed_content_summary` に削除内容がなければ空配列を入れる。\n{\"distilled_prompt\":\"...\",\"removed_content_summary\":[\"...\"]}\n\nユーザーの依頼:\n",
        &preprocess::preprocess_input_for_llm(&request.input_text),
    );
    PromptParts::whole(prompt)
}

/// Whether the model is given short prompts; else its prompts follow a template.
pub fn uses_concise_prompts(model: &ModelDefinition) -> (r: bool)
    ensures
        r == (model@.prompt_style == "concise"@),
{
    text::same(&model.prompt_style, "concise")
}

/// The name of the file with the template of the model's prompts.
pub fn template_file_name(model: &ModelDefinition) -> (r: String)
    ensures
        r@ == model@.prompt_template + ".md"@,
{
    text::concat2(&model.prompt_template, ".md")
}

/// Requests whose answers are compared where sizes of batches are measured.
pub const PHYSICAL_BATCH_QUALITY_INPUTS: [&'static str; 3] = [
    "Next.js の POST /api/orders で、customerId が空のまま送られた時に 500 エラーになっています。入力検証を追加し、空の customerId の場合は HTTP 400 と INVALID_CUSTOMER のエラーコードを返すようにしてください。成功時のレスポンス形式、在庫引当処理、既存の監査ログは変更しないでください。テストでは正常系と customerId 空文字のケースを確認できるようにしてください。",
    "OpenAPI 定義に PATCH /users/{id} を追加してください。name と avatarUrl は任意で更新できるようにし、email は変更不可にしてください。404 と 409 のエラーレスポンス例を入れ、既存の POST /users は変更しないでください。既存の schema_version や共通エラー形式がある場合は、それに合わせてください。",
    "OpenAPI に PATCH /users/{id} を追加してほしいです。name と avaterUrl、正しくは avatarUrl は任意、email は変更しちゃだめです。404 と409のエラーレスポンス例を入れてください。既存の POST /users は変更しないでください。途中でごタップして変な空白や文字が入るかもしれませんが、email 変更不可と POST /users 維持は絶対に落とさないでください。",
];

/// The request of a position whose answers are compared.
pub open spec fn quality_request(profile_id: Seq<char>, i: int) -> types::RequestView {
    types::RequestView {
        input_text: PHYSICAL_BATCH_QUALITY_INPUTS@[i]@,
        level: 2,
        profile: profile_id,
        constraints: CompressionConstraints {
            preserve_code_blocks: true,
            preserve_file_names: true,
            preserve_error_messages: true,
            preserve_numbers: true,
            preserve_negations: true,
        },
        destination: "codex"@,
        tokenizer_profile: "codex_default"@,
        source: RequestSource::Desktop,
    }
}

/// The requests whose answers are compared where sizes of batches are measured.
pub fn physical_batch_quality_requests(profile: &ProfileDefinition) -> (r: Result<
    Vec<CompressionRequest>,
    CompressionError,
>)
    ensures
        r matches Ok(requests) && requests@.len() == 3 && forall|i: int|
            0 <= i < 3 ==> (#[trigger] requests@[i])@ == quality_request(profile@.id, i),
{
    let compression_level: CompressionLevel = match CompressionLevel::from_u8(2) {
        Ok(level) => level,
        Err(error) => {
            return Err(error);
        },
    };
    let mut requests: Vec<CompressionRequest> = Vec::new();
    let mut i: usize = 0;
    while i < 3
        invariant
            i <= 3,
            requests@.len() == i,
            compression_level.spec_value() == 2,
            forall|j: int|
                0 <= j < i ==> (#[trigger] requests@[j])@ == quality_request(profile@.id, j),
        decreases 3 - i,
    {
        let input: &str = PHYSICAL_BATCH_QUALITY_INPUTS[i];
        requests.push(
            CompressionRequest {
                input_text: input.to_owned(),
                compression_level,
                profile: profile.id.clone(),
                constraints: CompressionConstraints::default(),
                target: RequestTarget::codex_default(),
                source: RequestSource::Desktop,
            },
        );
        i = i + 1;
    }
    Ok(requests)
}

/// The short prompt for a request begins with a line that tells the model which terms it must
/// repeat letter by letter, where there are any: each required term stands in it.
pub proof fn required_terms_are_told(input: Seq<char>, term: Seq<char>) -> (line: (
    Seq<char>,
    Seq<char>,
))
    requires
        terms::spec_required_technical_terms(input).contains(term),
    ensures
        concise_suffix(input) == "必須語(逐字/各1回):"@ + line.0 + "\n"@ + line.1,
        text::spec_contains(line.0, term),
        text::all_lack(terms::spec_required_technical_terms(input), ',') ==> text::spec_split_any(
            line.0,
            seq![','],
        ) == terms::spec_required_technical_terms(input),
{
    reveal_strlit(",");
    assert(","@ =~= seq![',']);
    let terms = terms::spec_required_technical_terms(input);
    let facts = structure::spec_analyzed_facts(input, terms);
    let line = text::spec_join(terms, ","@);
    let rest = protected_line(structure::spec_protected_of_facts(facts)) + "入力整理:\n"@
        + text::spec_join(structure::spec_rendered_facts(facts), "\n"@)
        + "\nJSON:{\"distilled_prompt\":\"\"}"@;
    let k = choose|k: int| 0 <= k < terms.len() && terms[k] == term;
    parts::joined_texts_are_held(terms, ","@, k);
    assert(concise_suffix(input) =~= "必須語(逐字/各1回):"@ + line + "\n"@ + rest);
    if text::all_lack(terms, ',') {
        text::joined_texts_are_the_pieces(terms, ',');
    }
    (line, rest)
}

/// The short prompt for a request has a line that tells the model which expressions of its
/// constraints it must repeat letter by letter, where there are any: each of them stands in it.
pub proof fn protected_expressions_are_told(input: Seq<char>, expression: Seq<char>) -> (line: (
    Seq<char>,
    Seq<char>,
    Seq<char>,
))
    requires
        structure::spec_protected_of_facts(
            structure::spec_analyzed_facts(input, terms::spec_required_technical_terms(input)),
        ).contains(expression),
    ensures
        concise_suffix(input) == line.0 + "保護(逐字/各1回):"@ + line.1 + "\n"@ + line.2,
        line.0.len() == 0 || line.0.last() == '\n',
        text::spec_contains(line.1, expression),
{
    reveal_strlit("\n");
    let terms = terms::spec_required_technical_terms(input);
    let facts = structure::spec_analyzed_facts(input, terms);
    let expressions = structure::spec_protected_of_facts(facts);
    let head = terms_line(terms);
    let line = text::spec_join(expressions, " | "@);
    let rest = "入力整理:\n"@ + text::spec_join(structure::spec_rendered_facts(facts), "\n"@)
        + "\nJSON:{\"distilled_prompt\":\"\"}"@;
    let k = choose|k: int| 0 <= k < expressions.len() && expressions[k] == expression;
    parts::joined_texts_are_held(expressions, " | "@, k);
    assert(concise_suffix(input) =~= head + "保護(逐字/各1回):"@ + line + "\n"@ + rest);
    (head, line, rest)
}

/// The short prompt for a request presents its facts, under the heading of the organized input: the
/// label, the terms and the text of each stand in it. It ends with the form of the answer.
pub proof fn facts_are_told(input: Seq<char>, k: int) -> (body: (Seq<char>, Seq<char>))
    requires
        0 <= k < structure::spec_analyzed_facts(
            input,
            terms::spec_required_technical_terms(input),
        ).len(),
    ensures
        concise_suffix(input) == body.0 + "入力整理:\n"@ + body.1
            + "\nJSON:{\"distilled_prompt\":\"\"}"@,
        ({
            let fact = structure::spec_analyzed_facts(
                input,
                terms::spec_required_technical_terms(input),
            )[k];
            &&& text::spec_contains(body.1, "["@ + fact.label)
            &&& text::spec_contains(body.1, "] "@ + fact.text)
            &&& forall|n: int|
                0 <= n < fact.required_terms.len() ==> text::spec_contains(
                    body.1,
                    #[trigger] fact.required_terms[n],
                )
        }),
{
    reveal(structure::spec_rendered_facts);
    let terms = terms::spec_required_technical_terms(input);
    let facts = structure::spec_analyzed_facts(input, terms);
    let fact = facts[k];
    let lines = structure::spec_rendered_facts(facts);
    let head = terms_line(terms) + protected_line(structure::spec_protected_of_facts(facts));
    let body = text::spec_join(lines, "\n"@);
    let line = lines[k];
    assert(line == structure::spec_rendered_fact(fact));
    parts::joined_texts_are_held(lines, "\n"@, k);
    let (before, after) = parts::held_texts_have_a_place(body, line);
    structure::facts_are_presented(fact);
    parts::held_by_the_whole(before, line, after, "["@ + fact.label);
    parts::held_by_the_whole(before, line, after, "] "@ + fact.text);
    assert forall|n: int| 0 <= n < fact.required_terms.len() implies text::spec_contains(
        body,
        #[trigger] fact.required_terms[n],
    ) by {
        parts::held_by_the_whole(before, line, after, fact.required_terms[n]);
    }
    assert(concise_suffix(input) =~= head + "入力整理:\n"@ + body
        + "\nJSON:{\"distilled_prompt\":\"\"}"@);
    (head, body)
}

/// What short prompts share tells the language, the length that is aimed at, and the instructions of
/// the catalogue and of the level.
pub proof fn instructions_are_told(
    language: Seq<char>,
    shared: Seq<char>,
    wording: catalog::WordingView,
)
    ensures
        text::spec_contains(
            concise_prefix(language, shared, wording),
            "distilled_promptは"@ + language + "/"@ + wording.target_ratio + "/原文より短く。"@,
        ),
        text::spec_contains(
            concise_prefix(language, shared, wording),
            "守る:"@ + shared + " "@ + wording.instruction,
        ),
        text::spec_contains(concise_prefix(language, shared, wording), wording.format_instruction),
        wording.allow_semantic_shortening ==> text::spec_contains(
            concise_prefix(language, shared, wording),
            "同義短縮可。"@,
        ),
        !wording.allow_semantic_shortening ==> text::spec_contains(
            concise_prefix(language, shared, wording),
            "表現変更最小。"@,
        ),
{
    let whole = concise_prefix(language, shared, wording);
    let shortening = if wording.allow_semantic_shortening {
        "同義短縮可。"@
    } else {
        "表現変更最小。"@
    };
    let last = " ラベル/見出し/接頭辞は禁止。\n入力の[現状]は望む動作ではない。[現状→要求]は矢印後だけを実装指示にする。各行の必須語はその行の役割と一緒に使う。[検証]の成功/失敗/否定も変えない。\n出力前確認:必須語全件/[制約]全件/[検証]全件/限定・否定・条件語の脱落なし/重複なし。\n"@;
    reveal_strlit("JSONだけ返す。distilled_promptは");
    reveal_strlit("JSONだけ返す。");
    reveal_strlit("distilled_promptは");
    reveal_strlit("/原文より短く。\n守る:");
    reveal_strlit("/原文より短く。");
    reveal_strlit("\n守る:");
    reveal_strlit("\n");
    reveal_strlit("守る:");
    assert("JSONだけ返す。distilled_promptは"@ =~= "JSONだけ返す。"@ + "distilled_promptは"@);
    assert("/原文より短く。\n守る:"@ =~= "/原文より短く。"@ + "\n守る:"@);
    assert("\n守る:"@ =~= "\n"@ + "守る:"@);
    let aim = "distilled_promptは"@ + language + "/"@ + wording.target_ratio + "/原文より短く。"@;
    let rules = "守る:"@ + shared + " "@ + wording.instruction;
    let end = " "@ + shortening + " "@ + wording.format_instruction + last;
    parts::parts_are_held("JSONだけ返す。"@, aim, "\n"@ + rules + end);
    assert("JSONだけ返す。"@ + aim + ("\n"@ + rules + end) =~= whole);
    parts::parts_are_held("JSONだけ返す。"@ + aim + "\n"@, rules, end);
    assert("JSONだけ返す。"@ + aim + "\n"@ + rules + end =~= whole);
    let start = "JSONだけ返す。"@ + aim + "\n"@ + rules + " "@;
    parts::parts_are_held(start, shortening, " "@ + wording.format_instruction + last);
    assert(start + shortening + (" "@ + wording.format_instruction + last) =~= whole);
    parts::parts_are_held(start + shortening + " "@, wording.format_instruction, last);
    assert(start + shortening + " "@ + wording.format_instruction + last =~= whole);
}

/// A prompt after a template begins with the template and ends with the request. In between it tells
/// the language of the answer and each required term.
pub proof fn template_prompts_tell_the_request(
    template: Seq<char>,
    request: types::RequestView,
) -> (middle: Seq<char>)
    ensures
        template_prompt(template, request) == template + middle + "ユーザーの依頼:\n"@
            + preprocess::spec_preprocess_input_for_llm(request.input_text),
        draft::spec_request_output_language(request) == "日本語"@ ==> text::spec_contains(
            middle,
            "必ず日本語で書く。"@,
        ),
        forall|k: int|
            0 <= k < terms::spec_required_technical_terms(request.input_text).len()
                ==> text::spec_contains(
                middle,
                #[trigger] terms::spec_required_technical_terms(request.input_text)[k],
            ),
{
    let terms = terms::spec_required_technical_terms(request.input_text);
    let language = if draft::spec_request_output_language(request) == "日本語"@ {
        "`distilled_prompt` は必ず日本語で書く。"@
    } else {
        "`distilled_prompt` は入力と同じ言語で書く。"@
    };
    let rules = "Codex がそのまま実行できる短い実装指示にする。要求、制約、禁止事項を落とさない。\n「実装指示を作成してください」「プロンプトを作成してください」とは書かず、実装作業を直接命令する。\n出力は次の JSON オブジェクトだけにする。`removed_content_summary` に削除内容がなければ空配列を入れる。\n{\"distilled_prompt\":\"...\",\"removed_content_summary\":[\"...\"]}\n\nユーザーの依頼:\n"@;
    let request_text = preprocess::spec_preprocess_input_for_llm(request.input_text);
    let heading = "ユーザーの依頼:\n"@;
    reveal_strlit("Codex がそのまま実行できる短い実装指示にする。要求、制約、禁止事項を落とさない。\n「実装指示を作成してください」「プロンプトを作成してください」とは書かず、実装作業を直接命令する。\n出力は次の JSON オブジェクトだけにする。`removed_content_summary` に削除内容がなければ空配列を入れる。\n{\"distilled_prompt\":\"...\",\"removed_content_summary\":[\"...\"]}\n\nユーザーの依頼:\n");
    reveal_strlit("ユーザーの依頼:\n");
    let ruled = rules.take(rules.len() - heading.len());
    assert(ruled + heading =~= rules);
    let before = "\n\n"@ + language + "\n"@;
    let line = template_terms_line(terms);
    let middle = before + line + ruled;
    assert(template_prompt(template, request) =~= template + middle + heading + request_text);
    if draft::spec_request_output_language(request) == "日本語"@ {
        reveal_strlit("`distilled_prompt` は必ず日本語で書く。");
        reveal_strlit("`distilled_prompt` は");
        reveal_strlit("必ず日本語で書く。");
        assert(language =~= "`distilled_prompt` は"@ + "必ず日本語で書く。"@);
        let start = "\n\n"@ + "`distilled_prompt` は"@;
        let end = "\n"@ + line + ruled;
        parts::parts_are_held(start, "必ず日本語で書く。"@, end);
        assert(start + "必ず日本語で書く。"@ + end =~= middle);
    }
    assert forall|k: int| 0 <= k < terms.len() implies text::spec_contains(
        middle,
        #[trigger] terms[k],
    ) by {
        let listed = text::spec_join(terms, ", "@);
        let start = "次の技術用語は表記を変えず、必ず `distilled_prompt` に含める: "@;
        parts::joined_texts_are_held(terms, ", "@, k);
        parts::held_by_the_whole(start, listed, "。\n"@, terms[k]);
        parts::held_by_the_whole(before, line, ruled, terms[k]);
    }
    middle
}

/// A request that is organized for a model tells each of its facts on a line.
pub proof fn organized_requests_tell_their_facts(
    input: Seq<char>,
    required_terms: Seq<Seq<char>>,
    k: int,
)
    requires
        0 <= k < structure::spec_rendered_facts(
            structure::spec_analyzed_facts(input, required_terms),
        ).len(),
    ensures
        text::spec_contains(
            spec_organize_input_for_model(input, required_terms),
            structure::spec_rendered_facts(structure::spec_analyzed_facts(input, required_terms))[k],
        ),
{
    parts::joined_texts_are_held(
        structure::spec_rendered_facts(structure::spec_analyzed_facts(input, required_terms)),
        "\n"@,
        k,
    );
}

/// The requests whose answers are compared are at the second level, for the profile, and keep all
/// that can be kept.
pub proof fn compared_requests_keep_everything(profile_id: Seq<char>, i: int)
    ensures
        quality_request(profile_id, i).profile == profile_id,
        quality_request(profile_id, i).level == 2,
        quality_request(profile_id, i).constraints.preserve_code_blocks,
        quality_request(profile_id, i).constraints.preserve_file_names,
        quality_request(profile_id, i).constraints.preserve_error_messages,
        quality_request(profile_id, i).constraints.preserve_numbers,
        quality_request(profile_id, i).constraints.preserve_negations,
{
}

/// A prompt for the model inside the application stands between the marks of the user and of the
/// assistant, behind the rules of the system.
pub proof fn prompts_stand_between_their_marks(prompt: Seq<char>)
    ensures
        text::spec_starts_with(spec_format_embedded_llama_prompt(prompt), "<|system|>\n"@),
        text::spec_ends_with(
            spec_format_embedded_llama_prompt(prompt),
            "\n<|user|>\n"@ + prompt + "\n<|assistant|>\n"@,
        ),
{
    reveal_strlit(
        "<|system|>\nJSONのみ。日本語依頼を短縮。説明/Markdown禁止。キーはdistilled_prompt。識別子/API/URL/ファイル名/数値/否定条件は保持。\n<|user|>\n",
    );
    reveal_strlit("<|system|>\n");
    reveal_strlit("\n<|user|>\n");
    reveal_strlit("\n<|assistant|>\n");
    let whole = spec_format_embedded_llama_prompt(prompt);
    let rules = EMBEDDED_LLAMA_PROMPT_PREAMBLE@;
    let end = "\n<|user|>\n"@ + prompt + "\n<|assistant|>\n"@;
    assert(rules.len() == 100);
    assert(rules.subrange(0, 11) =~= "<|system|>\n"@);
    assert(whole.subrange(0, 11) =~= rules.subrange(0, 11));
    assert(rules.subrange(90, 100) =~= "\n<|user|>\n"@);
    let size = whole.len() as int;
    assert(whole.subrange(size - end.len(), size) =~= rules.subrange(90, 100) + prompt
        + "\n<|assistant|>\n"@);
}

} // verus!
