use prompt_compressor::error::CompressionError;
use prompt_compressor::integers::{self, NumberFault};
use prompt_compressor::types::{CompressionConstraints, CompressionLevel, RequestTarget};

#[test]
fn every_error_reports_itself() {
    let reports = [
        (
            CompressionError::UnknownProfile("x".to_string()),
            "unknown profile: x",
        ),
        (
            CompressionError::InvalidCompressionLevel(9),
            "invalid compression level: 9",
        ),
        (CompressionError::EmptyInput, "empty input is not allowed"),
        (CompressionError::Io("gone".to_string()), "i/o error: gone"),
        (
            CompressionError::ConfigYaml("line 2".to_string()),
            "failed to parse yaml config: line 2",
        ),
        (
            CompressionError::InvalidConfig("no".to_string()),
            "invalid config: no",
        ),
        (
            CompressionError::UnknownModel("m".to_string()),
            "unknown model: m",
        ),
        (
            CompressionError::UnknownRuntime("r".to_string()),
            "unknown runtime: r",
        ),
        (
            CompressionError::RuntimeTimeout(12000),
            "runtime timed out after 12000 ms",
        ),
        (
            CompressionError::Runtime("broke".to_string()),
            "runtime error: broke",
        ),
        (
            CompressionError::Cancelled("stopped".to_string()),
            "cancelled: stopped",
        ),
    ];
    for (error, message) in reports {
        assert_eq!(error.message(), message);
        assert_eq!(error.clone().message(), message);
    }
}

#[test]
fn levels_run_from_zero_to_three() {
    for value in 0..=3u8 {
        let level = CompressionLevel::from_u8(value).expect("valid level");
        assert_eq!(level.value(), value);
        assert_eq!(level.is_original(), value == 0);
    }
    let error = CompressionLevel::from_u8(4).expect_err("no such level");
    assert_eq!(error.message(), "invalid compression level: 4");
}

#[test]
fn everything_is_kept_by_default() {
    let constraints = CompressionConstraints::default();
    assert!(constraints.preserve_code_blocks);
    assert!(constraints.preserve_file_names);
    assert!(constraints.preserve_error_messages);
    assert!(constraints.preserve_numbers);
    assert!(constraints.preserve_negations);
    let target = RequestTarget::codex_default();
    assert_eq!(target.tokenizer_profile, "codex_default");
}

#[test]
fn numbers_are_read_as_the_standard_library_reads_them() {
    for text in ["0", "7", "007", "+9", "255", "256", "", "+", "-1", "1a", " 1", "１"] {
        let read = integers::parse(text, 10, 255);
        match text.parse::<u8>() {
            Ok(value) => assert_eq!(read.ok(), Some(value as u64), "{text}"),
            Err(error) => {
                let fault = read.expect_err(text);
                assert_eq!(fault.message(), error.to_string(), "{text}");
            }
        }
    }
    for text in ["ff", "FF", "1G", "", "+a", "fffffffff"] {
        let read = integers::parse(text, 16, u32::MAX as u64);
        match u32::from_str_radix(text, 16) {
            Ok(value) => assert_eq!(read.ok(), Some(value as u64), "{text}"),
            Err(error) => assert_eq!(
                read.expect_err(text).message(),
                error.to_string(),
                "{text}"
            ),
        }
    }
    assert!(matches!(
        integers::parse("256", 10, 255),
        Err(NumberFault::TooLarge)
    ));
}
