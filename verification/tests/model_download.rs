use prompt_compressor::error::CompressionError;
use prompt_compressor::runtime::digest::{encode_hex, sha256_hex, RunningDigest};
use prompt_compressor::runtime::model_download::{
    discards_partial_download, ModelDownloadCancellation, ModelDownloadSpec, PartialDownloadStamp,
    ResumableDownload, VerificationStamp,
};
use prompt_compressor::runtime::model_files::{ModelFileIdentity, VerifiedFiles};

#[test]
fn rejects_unpinned_or_traversing_hugging_face_sources() {
    let valid_hash = "0".repeat(64);
    assert!(ModelDownloadSpec::new(
        "owner/model".to_string(),
        "main".to_string(),
        "model.gguf".to_string(),
        valid_hash.clone(),
        1,
    )
    .is_err());
    assert!(ModelDownloadSpec::new(
        "owner/model".to_string(),
        "a".repeat(40),
        "../model.gguf".to_string(),
        valid_hash,
        1,
    )
    .is_err());
}

fn spec(size_bytes: u64) -> ModelDownloadSpec {
    ModelDownloadSpec::new(
        "owner/model".to_string(),
        "a".repeat(40),
        "model.gguf".to_string(),
        "0".repeat(64),
        size_bytes,
    )
    .expect("valid source")
}

fn refusal(repository: &str, revision: &str, filename: &str, sha256: &str, size: u64) -> String {
    ModelDownloadSpec::new(
        repository.to_string(),
        revision.to_string(),
        filename.to_string(),
        sha256.to_string(),
        size,
    )
    .err()
    .expect("refused")
    .message()
}

#[test]
fn each_part_of_a_source_is_checked_in_turn() {
    let revision = "a".repeat(40);
    let hash = "0".repeat(64);
    for repository in ["owner", "owner/model/x", "/model", "owner/", "owner/..", "own er/m"] {
        assert_eq!(
            refusal(repository, &revision, "model.gguf", &hash, 1),
            format!("invalid config: invalid Hugging Face repository: {repository}")
        );
    }
    for wrong in ["main".to_string(), "A".repeat(40), "a".repeat(41)] {
        assert_eq!(
            refusal("owner/model", &wrong, "model.gguf", &hash, 1),
            "invalid config: Hugging Face revision must be a 40-character lowercase commit SHA"
        );
    }
    for filename in ["model.bin", "a/model.gguf", "モデル.gguf", ""] {
        assert_eq!(
            refusal("owner/model", &revision, filename, &hash, 1),
            format!("invalid config: invalid Hugging Face GGUF filename: {filename}")
        );
    }
    let long = format!("{}.gguf", "a".repeat(251));
    assert_eq!(
        refusal("owner/model", &revision, &long, &hash, 1),
        format!("invalid config: invalid Hugging Face GGUF filename: {long}")
    );
    assert_eq!(
        refusal("owner/model", &revision, "model.gguf", "0", 1),
        "invalid config: model sha256 must be 64 lowercase hexadecimal characters"
    );
    for size in [0, 34359738369] {
        assert_eq!(
            refusal("owner/model", &revision, "model.gguf", &hash, size),
            "invalid config: Hugging Face model size_bytes must be between 1 and 34359738368"
        );
    }
    let whole = spec(34359738368);
    assert_eq!(whole.repository_parts(), ("owner".to_string(), "model".to_string()));
    assert_eq!(whole.revision(), revision);
    assert_eq!(whole.filename(), "model.gguf");
    assert_eq!(whole.sha256(), hash);
}

#[test]
fn only_a_download_of_the_same_source_is_resumed() {
    let source = spec(100);
    let stamp = source.partial_stamp();
    assert_eq!(source.resumable_bytes(false, true, 40, &Some(source.partial_stamp())), 40);
    assert_eq!(source.resumable_bytes(false, true, 100, &Some(source.partial_stamp())), 100);
    assert_eq!(source.resumable_bytes(false, true, 101, &Some(source.partial_stamp())), 0);
    assert_eq!(source.resumable_bytes(true, true, 40, &Some(source.partial_stamp())), 0);
    assert_eq!(source.resumable_bytes(false, false, 40, &Some(source.partial_stamp())), 0);
    assert_eq!(source.resumable_bytes(false, true, 40, &None), 0);
    let other = PartialDownloadStamp {
        revision: "b".repeat(40),
        ..stamp
    };
    assert!(!source.is_begun_by(&other));
    assert_eq!(source.resumable_bytes(false, true, 40, &Some(other)), 0);
}

#[test]
fn a_stamp_vouches_for_the_file_that_it_was_made_for() {
    let source = spec(100);
    let stamp = source.verification_stamp(7);
    assert!(source.is_verified_by(&stamp, 7));
    assert!(!source.is_verified_by(&stamp, 8));
    assert!(!spec(101).is_verified_by(&stamp, 7));
    let newer = VerificationStamp {
        schema_version: 2,
        ..stamp
    };
    assert!(!source.is_verified_by(&newer, 7));
}

#[test]
fn a_downloaded_file_has_its_size_and_digest() {
    let source = spec(3);
    assert!(source.may_be(true, 3));
    assert!(!source.may_be(true, 4));
    assert!(!source.may_be(false, 3));
    assert!(source.check_downloaded_size(true, 3).is_ok());
    assert_eq!(
        source.check_downloaded_size(true, 5).expect_err("size").message(),
        "runtime error: model download size mismatch: expected 3, received 5"
    );
    assert!(source.has_digest(&"0".repeat(64)));
    assert!(source.check_downloaded_digest(&"0".repeat(64)).is_ok());
    assert_eq!(
        source.check_downloaded_digest("ff").expect_err("digest").message(),
        format!(
            "runtime error: model download SHA-256 mismatch: expected {}, received ff",
            "0".repeat(64)
        )
    );
}

#[test]
fn pieces_follow_each_other_to_the_end() {
    let mut download = ResumableDownload::resume(3, 10, 4, 3).expect("resumed");
    assert_eq!(download.next_piece(), Some((3, 7)));
    assert_eq!(
        download.accept(3).expect_err("short").message(),
        "runtime error: model download range size mismatch: expected 4, received 3"
    );
    assert_eq!(download.next_piece(), Some((3, 7)));
    let progress = download.accept(4).expect("piece");
    assert_eq!((progress.downloaded_bytes, progress.total_bytes), (7, 10));
    assert_eq!(download.next_piece(), Some((7, 10)));
    assert_eq!(download.accept(3).expect("piece").downloaded_bytes, 10);
    assert_eq!(download.next_piece(), None);
    assert_eq!(
        ResumableDownload::resume(3, 10, 0, 3).err().expect("chunk").message(),
        "runtime error: invalid resumable download state"
    );
    assert_eq!(
        ResumableDownload::resume(11, 10, 4, 11).err().expect("offset").message(),
        "runtime error: invalid resumable download state"
    );
    assert_eq!(
        ResumableDownload::resume(3, 10, 4, 2).err().expect("file").message(),
        "runtime error: partial model size changed before resume"
    );
}

#[test]
fn a_download_that_is_given_up_stays_given_up() {
    let cancellation = ModelDownloadCancellation::default();
    assert!(!cancellation.is_cancelled());
    assert!(cancellation.check().is_ok());
    let shared = cancellation.clone();
    shared.cancel();
    assert!(cancellation.is_cancelled());
    assert!(matches!(
        cancellation.check(),
        Err(CompressionError::Cancelled(reason)) if reason == "model download was cancelled"
    ));
}

#[test]
fn a_file_that_is_read_in_pieces_has_the_digest_of_the_whole() {
    let mut digest = RunningDigest::begin();
    digest.take(b"a");
    digest.take(b"");
    digest.take(b"bc");
    assert_eq!(
        digest.hex(),
        "ba7816bf8f01cfea414140de5dae2223b00361a396177a9cb410ff61f20015ad"
    );
    assert_eq!(RunningDigest::begin().hex(), sha256_hex(b""));

    let model = ModelDownloadSpec::new(
        "owner/model".to_string(),
        "0".repeat(40),
        "model.gguf".to_string(),
        sha256_hex(b"model"),
        5,
    )
    .expect("model");
    let mut right = RunningDigest::begin();
    right.take(b"mod");
    right.take(b"el");
    assert!(model.has_contents(right));
    assert!(!model.has_contents(RunningDigest::begin()));
    assert_eq!(
        model.check_downloaded_contents(RunningDigest::begin()).expect_err("digest").message(),
        format!(
            "runtime error: model download SHA-256 mismatch: expected {}, received {}",
            sha256_hex(b"model"),
            sha256_hex(b"")
        )
    );
}

#[test]
fn a_check_that_was_given_up_discards_nothing() {
    assert!(!discards_partial_download(&CompressionError::Cancelled("stop".to_string())));
    assert!(discards_partial_download(&CompressionError::EmptyInput));
}

#[test]
fn digests_are_those_of_sha256() {
    assert_eq!(
        sha256_hex(b"abc"),
        "ba7816bf8f01cfea414140de5dae2223b00361a396177a9cb410ff61f20015ad"
    );
    assert_eq!(
        sha256_hex(b""),
        "e3b0c44298fc1c149afbf4c8996fb92427ae41e4649b934ca495991b7852b855"
    );
    assert_eq!(encode_hex(&[0, 9, 10, 255]), "00090aff");
    assert_ne!(encode_hex(&[1]), encode_hex(&[16]));
}

#[test]
fn a_changed_file_is_not_known() {
    let mut files = VerifiedFiles::default();
    let identity = ModelFileIdentity {
        size_bytes: 3,
        modified_nanos: 5,
    };
    assert!(!files.is_verified("/m", Some(identity)));
    assert!(files.mark_verified("/m", Some(identity)).is_ok());
    assert!(files.is_verified("/m", Some(identity)));
    let changed = ModelFileIdentity {
        size_bytes: 4,
        modified_nanos: 5,
    };
    assert!(!files.is_verified("/m", Some(changed)));
    assert!(!files.is_verified("/m", Some(identity)));
    assert!(files.mark_verified("/m", Some(identity)).is_ok());
    files.forget("/m");
    assert!(!files.is_verified("/m", Some(identity)));
    assert_eq!(
        files.mark_verified("/m", None).expect_err("gone").message(),
        "runtime error: verified model file disappeared at /m"
    );
}
