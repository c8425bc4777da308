use prompt_compressor::config::catalog::{ModelDefinition, RuntimeDefinition, RuntimeLaunchMode};
use prompt_compressor::error::CompressionError;
use prompt_compressor::runtime::http::{
    answer_of_body, api_token, closed_early, decode_chunked_body, find_http_header_end,
    http_content_length, is_complete_chunked_body, join_http_paths, next_read,
    parse_http_base_url, parse_http_response, parse_http_status, request_head, ReadStep,
};
use prompt_compressor::runtime::server::{
    first_choice_content, first_offered_model, keeps_probing, llama_cpp_arguments,
    llama_cpp_executable, lmstudio_base_url, lmstudio_model_name, managed_executable,
    managed_model_name, managed_server_arguments, next_process_step, observe_chat_content,
    observe_process_output, plan_chat, plan_managed_server, read_process_output,
    unhealthy_server, ProcessArgument, ProcessStep,
};
use prompt_compressor::runtime::thread_tuning::Elapsed;
use prompt_compressor::types::{
    CompressionConstraints, CompressionLevel, CompressionRequest, RequestSource, RequestTarget,
};

fn request(input: &str) -> CompressionRequest {
    CompressionRequest {
        input_text: input.to_string(),
        compression_level: CompressionLevel::from_u8(2).expect("valid level"),
        profile: "lmstudio_local".to_string(),
        constraints: CompressionConstraints::default(),
        target: RequestTarget::codex_default(),
        source: RequestSource::Cli,
    }
}

fn written(arguments: Vec<ProcessArgument>, model_path: &str) -> Vec<String> {
    arguments
        .into_iter()
        .map(|argument| match argument {
            ProcessArgument::Text(text) => text,
            ProcessArgument::ModelPath => model_path.to_string(),
        })
        .collect()
}

fn model(api_model: Option<&str>) -> ModelDefinition {
    ModelDefinition {
        id: "m".to_string(),
        label: "M".to_string(),
        adapter: "llama".to_string(),
        runtime_ref: "r".to_string(),
        model_path: None,
        download: None,
        api_model: api_model.map(|name| name.to_string()),
        quantization: "q4".to_string(),
        context_length: 4096,
        thinking: false,
        default_max_output: 256,
        prompt_template: "t".to_string(),
        prompt_style: "detailed".to_string(),
        supports_json_schema: true,
    }
}

fn runtime(base_url: Option<&str>, threads: &str) -> RuntimeDefinition {
    RuntimeDefinition {
        id: "r".to_string(),
        backend_kind: "llama.cpp".to_string(),
        launch_mode: RuntimeLaunchMode::ManagedSidecar,
        executable_path: None,
        base_url: base_url.map(|url| url.to_string()),
        api_token_env: None,
        health_path: None,
        startup_timeout_ms: 30000,
        threads: threads.to_string(),
        timeout_ms: 12000,
    }
}

#[test]
fn a_server_of_the_application_listens_on_this_machine() {
    let plan = plan_managed_server(&runtime(Some("http://127.0.0.1:8080/v1"), "auto")).expect("plan");
    assert_eq!(plan.host, "127.0.0.1");
    assert_eq!(plan.port, 8080);
    assert_eq!(plan.base_url, "http://127.0.0.1:8080/v1");
    assert_eq!(plan.health_base_url, "http://127.0.0.1:8080");
    assert_eq!(plan.health_path, "/health");
    assert_eq!(
        written(managed_server_arguments(&plan, &model(None), &runtime(None, "4")), "/m.gguf"),
        [
            "-m", "/m.gguf", "--host", "127.0.0.1", "--port", "8080", "--ctx-size", "4096",
            "--threads", "4"
        ]
    );
    assert!(plan_managed_server(&runtime(Some("http://localhost"), "auto")).is_ok());
    assert_eq!(
        plan_managed_server(&runtime(Some("http://10.0.0.1:80"), "auto"))
            .err()
            .expect("remote")
            .message(),
        "invalid config: managed runtime 'r' must bind to 127.0.0.1 or localhost, not '10.0.0.1'"
    );
    assert_eq!(
        plan_managed_server(&runtime(None, "auto")).err().expect("missing").message(),
        "invalid config: runtime 'r' is missing base_url for a managed llama.cpp server"
    );
}

#[test]
fn models_have_the_names_that_servers_know() {
    assert_eq!(lmstudio_model_name(&model(None)).as_deref(), Some("m"));
    assert_eq!(lmstudio_model_name(&model(Some("x"))).as_deref(), Some("x"));
    assert_eq!(lmstudio_model_name(&model(Some("auto"))), None);
    assert_eq!(managed_model_name(&model(Some("auto"))), "m");
    assert_eq!(managed_model_name(&model(Some("x"))), "x");
    assert_eq!(managed_model_name(&model(None)), "m");
    assert_eq!(first_offered_model(&vec!["a".to_string(), "b".to_string()]).expect("model"), "a");
    assert_eq!(
        first_offered_model(&Vec::new()).expect_err("none").message(),
        "runtime error: LM Studio returned no available models from /v1/models"
    );
}

#[test]
fn missing_settings_are_named() {
    let bare = runtime(None, "auto");
    assert_eq!(
        lmstudio_base_url(&bare).expect_err("missing").message(),
        "invalid config: runtime 'r' is missing base_url for LM Studio"
    );
    assert_eq!(
        llama_cpp_executable(&bare).expect_err("missing").message(),
        "invalid config: runtime 'r' is missing executable_path for llama.cpp"
    );
    assert_eq!(
        managed_executable(&bare).expect_err("missing").message(),
        "invalid config: runtime 'r' is missing executable_path for a managed llama.cpp server"
    );
}

#[test]
fn a_process_is_given_its_prompt_and_limits() {
    assert_eq!(
        written(
            llama_cpp_arguments(&request("短い依頼"), "p", &model(None), &runtime(None, "auto")),
            "/m"
        ),
        ["-m", "/m", "-p", "p", "-n", "64", "--temp", "0", "--ctx-size", "4096"]
    );
    assert_eq!(
        written(
            llama_cpp_arguments(&request("短い依頼"), "p", &model(None), &runtime(None, "3")),
            "/m"
        )[10..],
        ["--threads", "3"]
    );
}

#[test]
fn a_process_is_waited_for_until_its_time_is_over() {
    assert_eq!(next_process_step(true, Elapsed::from_millis(99), 10), ProcessStep::Collect);
    assert_eq!(next_process_step(false, Elapsed::from_millis(10), 10), ProcessStep::GiveUp);
    assert_eq!(next_process_step(false, Elapsed::from_millis(9), 10), ProcessStep::Wait);
    assert!(keeps_probing(Elapsed::from_millis(9), 10));
    assert!(!keeps_probing(Elapsed::from_millis(10), 10));
    assert_eq!(
        unhealthy_server(&None, 10).message(),
        "runtime error: managed local runtime did not become healthy within 10 ms: no health response received"
    );
    assert_eq!(
        unhealthy_server(&Some(CompressionError::EmptyInput), 10).message(),
        "runtime error: managed local runtime did not become healthy within 10 ms: empty input is not allowed"
    );
}

#[test]
fn what_a_process_writes_is_read_as_text() {
    assert_eq!(
        read_process_output(true, "0", "短縮\u{fffd}".as_bytes(), 0).expect("text"),
        "短縮\u{fffd}"
    );
    assert_eq!(read_process_output(true, "0", b"a\xffb", 0).expect("text"), "a\u{fffd}b");
    assert_eq!(
        read_process_output(false, "exit status: 1", b"", 12).expect_err("failure").message(),
        "runtime error: llama.cpp process exited with status exit status: 1; stderr was 12 bytes"
    );
    let observed = observe_process_output("{\"distilled_prompt\":\"短縮\"}").expect("answer");
    assert_eq!(observed.final_draft.distilled_prompt, "短縮");
    assert!(observed.transformations.is_empty());
}

#[test]
fn parses_first_chat_completion_content() {
    let response: serde_json::Value = serde_json::from_str(
        r#"{"choices":[{"message":{"content":"{\"distilled_prompt\":\"短縮結果\"}"}}]}"#,
    )
    .expect("valid chat completion response");
    let choices: Vec<Option<String>> = response["choices"]
        .as_array()
        .expect("choices")
        .iter()
        .map(|choice| choice["message"]["content"].as_str().map(str::to_string))
        .collect();

    assert_eq!(
        first_choice_content(&choices).ok().as_deref(),
        Some(r#"{"distilled_prompt":"短縮結果"}"#)
    );
}

#[test]
fn a_chat_is_planned_from_the_prompt() {
    let plan = plan_chat(&request("短い依頼"), "prompt", &model(None), "name");
    assert_eq!(plan.model, "name");
    assert_eq!(plan.user_message, "prompt");
    assert!(plan.system_message.starts_with("返答は JSON"));
    assert_eq!(plan.max_tokens, 64);
    assert!(plan.answers_by_schema);
    assert_eq!(
        first_choice_content(&vec![Some("a".to_string()), None]).expect("content"),
        "a"
    );
    for choices in [vec![], vec![None, Some("b".to_string())]] {
        assert_eq!(
            first_choice_content(&choices).expect_err("nothing").message(),
            "runtime error: local runtime response did not include choices[0].message.content"
        );
    }
    let input = "検索画面のボタンの色を変更してください。既存のAPIは変更しないでください。";
    let observed = observe_chat_content(
        &request(input),
        "{\"distilled_prompt\":\"検索画面のボタン色を変更。既存APIは変更しない。\"}",
    )
    .expect("answer");
    assert!(observed.final_draft.distilled_prompt.contains("変更しない"));
}

#[test]
fn base_urls_are_taken_apart() {
    let base = parse_http_base_url("http://host:81/a/b/").expect("address");
    assert_eq!((base.host.as_str(), base.port, base.path_prefix.as_str()), ("host", 81, "/a/b"));
    let base = parse_http_base_url("http://host").expect("address");
    assert_eq!((base.host.as_str(), base.port, base.path_prefix.as_str()), ("host", 80, ""));
    assert_eq!(
        parse_http_base_url("https://host").err().expect("scheme").message(),
        "invalid config: local runtime base_url must use http:// for the local server: https://host"
    );
    assert_eq!(
        parse_http_base_url("http://host:x").err().expect("port").message(),
        "invalid config: invalid local runtime base_url port 'x': invalid digit found in string"
    );
    assert_eq!(
        parse_http_base_url("http://:80").err().expect("host").message(),
        "invalid config: local runtime base_url is missing a host: http://:80"
    );
    assert_eq!(join_http_paths("/v1/", "//models"), "/v1/models");
    assert_eq!(join_http_paths("", "models"), "/models");
}

#[test]
fn requests_have_heads() {
    assert_eq!(
        request_head("GET", "/p", "host", &None, 0),
        "GET /p HTTP/1.1\r\nHost: host\r\nAccept: application/json\r\nConnection: close\r\n\r\n"
    );
    assert_eq!(
        request_head("POST", "/p", "host", &Some("t".to_string()), 5),
        "POST /p HTTP/1.1\r\nHost: host\r\nAccept: application/json\r\nConnection: close\r\nAuthorization: Bearer t\r\nContent-Type: application/json\r\nContent-Length: 5\r\n\r\n"
    );
    assert_eq!(api_token(&Some(" t \n".to_string())).as_deref(), Some("t"));
    assert_eq!(api_token(&Some("  ".to_string())), None);
    assert_eq!(api_token(&None), None);
}

#[test]
fn responses_are_read_until_they_are_complete() {
    assert_eq!(next_read(b"HTTP/1.1 200 OK\r\n").expect("step"), ReadStep::Headers);
    let sized = b"HTTP/1.1 200 OK\r\nContent-Length: 3\r\n\r\n";
    assert_eq!(next_read(sized).expect("step"), ReadStep::Body);
    let mut whole = sized.to_vec();
    whole.extend_from_slice(b"abcd");
    assert_eq!(next_read(&whole).expect("step"), ReadStep::Done(whole.len() - 1));
    let chunked = b"HTTP/1.1 200 OK\r\nTransfer-Encoding: chunked\r\n\r\n3\r\nab";
    assert_eq!(next_read(chunked).expect("step"), ReadStep::Chunks);
    let open = b"HTTP/1.1 200 OK\r\n\r\nbody";
    assert_eq!(next_read(open).expect("step"), ReadStep::ToEnd);
    assert_eq!(
        closed_early(ReadStep::Headers).expect("error").message(),
        "runtime error: local runtime closed the connection before sending HTTP headers"
    );
    assert_eq!(
        closed_early(ReadStep::Body).expect("error").message(),
        "runtime error: local runtime closed the connection before the full response body arrived"
    );
    assert_eq!(
        closed_early(ReadStep::Chunks).expect("error").message(),
        "runtime error: local runtime closed the connection before the chunked response completed"
    );
    assert!(closed_early(ReadStep::ToEnd).is_none());
}

#[test]
fn bodies_that_are_complete_can_be_decoded() {
    let body = b"3;x=y\r\nabc\r\n2\r\nde\r\n0\r\n\r\n";
    assert!(is_complete_chunked_body(body).expect("sizes"));
    assert_eq!(decode_chunked_body(body).expect("body"), b"abcde");
    assert!(!is_complete_chunked_body(b"3\r\nab").expect("sizes"));
    assert!(is_complete_chunked_body(b"zz\r\n").is_err());
    assert_eq!(
        is_complete_chunked_body(b"\xff\r\n").expect_err("bytes").message(),
        "runtime error: chunk size was not UTF-8: invalid utf-8 sequence of 1 bytes from index 0"
    );
}

#[test]
fn only_good_answers_are_handed_on() {
    assert_eq!(parse_http_response(b"HTTP/1.1 200 OK\r\n\r\n{}").expect("body"), "{}");
    assert_eq!(find_http_header_end(b"ab\r\n\r\nc"), Some(2));
    assert_eq!(http_content_length("A: b\r\ncontent-LENGTH: 12").expect("length"), Some(12));
    assert!(http_content_length("Content-Length: x").is_err());
    assert_eq!(parse_http_status("HTTP/1.1 404 Not Found").expect("status"), 404);
    assert!(answer_of_body(404, "gone".to_string()).is_err());
    assert_eq!(answer_of_body(204, "x".to_string()).expect("body"), "x");
    assert!(parse_http_response(b"nothing").is_err());
    assert_eq!(
        parse_http_response(b"HTTP/1.1 200 OK\r\n\r\na\xff").expect("body"),
        "a\u{fffd}"
    );
}
