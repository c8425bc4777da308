use prompt_compressor::evaluation::{
    case_levels, case_range, choose_input_source, contains_required_term, contains_text,
    judge_output, missing_required_marker_groups, missing_required_terms,
    resolve_evaluation_levels, trim_preview, EvaluationStage, InputSource,
};
use prompt_compressor::text_map::TextMap;

fn limits(keys: &[&str]) -> TextMap<()> {
    let mut map = TextMap::new();
    for key in keys {
        map.insert(key.to_string(), ());
    }
    map
}

fn texts(values: &[&str]) -> Vec<String> {
    values.iter().map(|value| value.to_string()).collect()
}

#[test]
fn levels_are_those_asked_for_in_order() {
    let all = limits(&["1", "2", "10"]);
    assert_eq!(resolve_evaluation_levels(&all, &[]).expect("levels"), [1, 2, 10]);
    assert_eq!(resolve_evaluation_levels(&all, &[2, 1, 2]).expect("levels"), [1, 2]);
    assert_eq!(
        resolve_evaluation_levels(&all, &[3]).err().expect("unknown").message(),
        "evaluation fixture does not define level 3"
    );
    assert_eq!(
        resolve_evaluation_levels(&limits(&["x"]), &[]).err().expect("key").message(),
        "invalid evaluation level key: x"
    );
    assert_eq!(
        resolve_evaluation_levels(&limits(&["01"]), &[]).err().expect("key").message(),
        "evaluation fixture does not define level 1"
    );
}

#[test]
fn cases_are_cut_out_of_the_list() {
    assert_eq!(case_range(10, 0, None), (0, 10));
    assert_eq!(case_range(10, 3, Some(4)), (3, 7));
    assert_eq!(case_range(10, 8, Some(4)), (8, 10));
    assert_eq!(case_range(10, 20, Some(4)), (10, 10));
    assert_eq!(case_levels(&None, &vec![1, 2]), [1, 2]);
    assert_eq!(case_levels(&Some(vec![3, 2, 2]), &vec![1, 2]), [2, 2]);
}

#[test]
fn outputs_are_judged_by_what_they_lack() {
    let good = judge_output(
        EvaluationStage::FinalPipeline,
        false,
        &Some("React の検索を維持".to_string()),
        &Vec::new(),
        &texts(&["react"]),
        &texts(&["保持|維持"]),
    );
    assert!(good.reasons.is_empty());
    let bad = judge_output(
        EvaluationStage::FinalPipeline,
        true,
        &Some("検索".to_string()),
        &texts(&["ratio"]),
        &texts(&["React", "検索"]),
        &texts(&["だけ"]),
    );
    assert_eq!(
        bad.reasons,
        [
            "should_send_original",
            "ratio",
            "missing_required_terms",
            "missing_required_marker_groups"
        ]
    );
    assert_eq!(bad.missing_terms, ["React"]);
    assert_eq!(bad.missing_marker_groups, ["だけ"]);
    let none = judge_output(
        EvaluationStage::RawModel,
        true,
        &None,
        &Vec::new(),
        &texts(&["React"]),
        &Vec::new(),
    );
    assert_eq!(none.reasons, ["selected_output_unavailable"]);
}

#[test]
fn words_are_found_in_any_case() {
    assert!(contains_text("ÄÖÜ Straße", " äöü "));
    assert!(contains_text("ΟΔΟΣ", "οδος"));
    assert!(!contains_text("abc", "d"));
    assert!(contains_required_term("getuserById ( )", "GET USER by id"));
    assert_eq!(missing_required_terms("use API", &texts(&["api", "sdk"])), ["sdk"]);
    assert_eq!(
        missing_required_marker_groups("変更なし", &texts(&["維持|残す", "増やさない"])),
        ["増やさない"]
    );
}

#[test]
fn previews_are_cut_with_a_mark() {
    assert_eq!(trim_preview("あいう", 3), "あいう");
    assert_eq!(trim_preview("あいうえ", 3), "あいう…");
    assert_eq!(trim_preview("", 0), "");
}

#[test]
fn one_source_of_input_is_used() {
    assert!(matches!(choose_input_source(true, false, false), Ok(InputSource::Prompt)));
    assert!(matches!(choose_input_source(false, true, false), Ok(InputSource::File)));
    assert!(matches!(choose_input_source(false, false, true), Ok(InputSource::Stdin)));
    assert_eq!(
        choose_input_source(false, false, false).err(),
        Some("provide a prompt, --file, or --stdin")
    );
    assert_eq!(
        choose_input_source(true, false, true).err(),
        Some("use only one input source at a time")
    );
}
