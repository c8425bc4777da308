//! Outputs of models.
use prompt_compressor::runtime::output_parser::{
    first_complete_json_object_end, parse_compression_output,
};

#[test]
fn finds_complete_object_after_runtime_prefix() {
    let output = "runtime: {\"distilled_prompt\":\"波括弧 } を保持\"} trailing";
    let end = first_complete_json_object_end(output).expect("complete object");

    assert_eq!(
        &output[..end],
        "runtime: {\"distilled_prompt\":\"波括弧 } を保持\"}"
    );
}

#[test]
fn parses_alias_without_changing_the_distilled_text() {
    let draft = parse_compression_output("{\"compressed_text\":\"URLを保持する。\"}")
        .expect("supported alias");

    assert_eq!(draft.distilled_prompt, "URLを保持する。");
    assert!(draft.removed_content_summary.is_empty());
}

#[test]
fn the_first_object_ends_where_it_is_complete() {
    let object = "x {\"a\": \"}\\\"{\", \"b\": {}}";
    assert_eq!(first_complete_json_object_end(object), Some(object.len()));
    let more = format!("{object} {{}} \"");
    assert_eq!(first_complete_json_object_end(&more), Some(object.len()));
    assert_eq!(first_complete_json_object_end(&object[..object.len() - 1]), None);
}
