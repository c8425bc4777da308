//! Models that are fetched from Hugging Face: what may be fetched, in which pieces, and when what
//! was fetched is the model.
use std::sync::atomic::{AtomicBool, Ordering};
use std::sync::Arc;
use vstd::prelude::*;
use crate::error;
use crate::error::CompressionError;
use crate::runtime::digest;
use crate::runtime::digest::RunningDigest;
use crate::parts;
use crate::text;

verus! {

/// The greatest size of a model.
pub const MAX_MODEL_BYTES: u64 = 34359738368;

/// The size of the pieces that a model is fetched in.
pub const DOWNLOAD_CHUNK_BYTES: u64 = 33554432;

/// The version of the records of verified models.
pub const VERIFICATION_STAMP_SCHEMA: u8 = 1;

/// The version of the records of models that are not complete.
pub const PARTIAL_DOWNLOAD_STAMP_SCHEMA: u8 = 1;

/// A request to give a download up, shared by those who may make it and those who heed it.
#[derive(Debug, Clone)]
pub struct ModelDownloadCancellation {
    cancelled: Arc<AtomicBool>,
}

impl Default for ModelDownloadCancellation {
    /// Nothing is given up.
    fn default() -> (r: Self) {
        ModelDownloadCancellation { cancelled: Arc::new(AtomicBool::new(false)) }
    }
}

/// What a download that was given up reports.
pub const CANCELLED_REASON: &'static str = "model download was cancelled";

/// The error of a download that was given up, if it was.
pub fn check_cancelled(cancelled: bool) -> (r: Result<(), CompressionError>)
    ensures
        match r {
            Ok(_) => !cancelled,
            Err(error) => cancelled && error@ == error::ErrorView::Cancelled(CANCELLED_REASON@),
        },
{
    if cancelled {
        Err(CompressionError::Cancelled(CANCELLED_REASON.to_owned()))
    } else {
        Ok(())
    }
}

/// Whether what was downloaded is discarded after a check of it failed: not where the check was
/// given up.
pub fn discards_partial_download(error: &CompressionError) -> (r: bool)
    ensures
        r == !(error is Cancelled),
{
    !matches!(error, CompressionError::Cancelled(_))
}

impl ModelDownloadCancellation {
    /// Gives the download up. The request is shared with other threads, so that nothing can be
    /// said of what a later question finds.
    pub fn cancel(&self) {
        self.cancelled.store(true, Ordering::Release);
    }

    /// Whether the download is given up. The answer depends on other threads.
    pub fn is_cancelled(&self) -> (r: bool) {
        self.cancelled.load(Ordering::Acquire)
    }

    /// The error of a download that was given up, if it was.
    pub fn check(&self) -> (r: Result<(), CompressionError>)
        ensures
            r matches Err(error) ==> error@ == error::ErrorView::Cancelled(CANCELLED_REASON@),
    {
        check_cancelled(self.is_cancelled())
    }
}

/// How far a download has come.
#[derive(Debug, Clone, Copy, PartialEq, Eq, Structural)]
pub struct ModelDownloadProgress {
    pub downloaded_bytes: u64,
    pub total_bytes: u64,
}

/// The character may stand in a name on Hugging Face.
pub open spec fn is_name_character(c: char) -> bool {
    text::spec_is_alnum(c) || c == '.' || c == '_' || c == '-'
}

/// The text is a name on Hugging Face: letters, digits, points, underscores and hyphens, and not a
/// step in a path.
pub open spec fn spec_is_hugging_face_identifier(value: Seq<char>) -> bool {
    &&& 0 < value.len() <= 255
    &&& forall|i: int| 0 <= i < value.len() ==> is_name_character(#[trigger] value[i])
    &&& value != "."@
    &&& value != ".."@
}

/// Whether the text is a name on Hugging Face.
pub fn is_hugging_face_identifier(value: &str) -> (r: bool)
    ensures
        r == spec_is_hugging_face_identifier(value@),
{
    let chars: Vec<char> = text::to_chars(value);
    if chars.len() == 0 || chars.len() > 255 {
        return false;
    }
    let mut i: usize = 0;
    while i < chars.len()
        invariant
            chars@ == value@,
            i <= chars@.len(),
            forall|j: int| 0 <= j < i ==> is_name_character(#[trigger] value@[j]),
        decreases chars@.len() - i,
    {
        let c: char = chars[i];
        if !(text::is_alnum(c) || c == '.' || c == '_' || c == '-') {
            assert(!is_name_character(value@[i as int]));
            return false;
        }
        i = i + 1;
    }
    !text::same(value, ".") && !text::same(value, "..")
}

/// The text is made of so many small hexadecimal digits.
pub open spec fn spec_is_hex_of_length(value: Seq<char>, length: int) -> bool {
    &&& value.len() == length
    &&& forall|i: int|
        0 <= i < value.len() ==> ('0' <= #[trigger] value[i] <= '9' || 'a' <= value[i] <= 'f')
}

/// Whether the text is made of so many small hexadecimal digits.
pub fn is_hex_of_length(value: &str, length: usize) -> (r: bool)
    ensures
        r == spec_is_hex_of_length(value@, length as int),
{
    let chars: Vec<char> = text::to_chars(value);
    if chars.len() != length {
        return false;
    }
    let mut i: usize = 0;
    while i < chars.len()
        invariant
            chars@ == value@,
            i <= chars@.len(),
            forall|j: int|
                0 <= j < i ==> ('0' <= #[trigger] value@[j] <= '9' || 'a' <= value@[j] <= 'f'),
        decreases chars@.len() - i,
    {
        let c: char = chars[i];
        if !(('0' <= c && c <= '9') || ('a' <= c && c <= 'f')) {
            assert(!('0' <= value@[i as int] <= '9' || 'a' <= value@[i as int] <= 'f'));
            return false;
        }
        i = i + 1;
    }
    true
}

/// The text names a repository: an owner and a name with one slash between them.
pub open spec fn spec_is_repository(repository: Seq<char>) -> bool {
    match text::spec_split_once(repository, "/"@) {
        Some((owner, name)) => spec_is_hugging_face_identifier(owner)
            && spec_is_hugging_face_identifier(name),
        None => false,
    }
}

/// The text names a file with a model: a name on Hugging Face with the ending of models.
pub open spec fn spec_is_model_filename(filename: Seq<char>) -> bool {
    text::spec_ends_with(filename, ".gguf"@) && spec_is_hugging_face_identifier(filename)
}

/// What is wrong with a source of a model, if anything is.
pub open spec fn source_fault(
    repository: Seq<char>,
    revision: Seq<char>,
    filename: Seq<char>,
    sha256: Seq<char>,
    size_bytes: int,
) -> Option<Seq<char>> {
    if !spec_is_repository(repository) {
        Some("invalid Hugging Face repository: "@ + repository)
    } else if !spec_is_hex_of_length(revision, 40) {
        Some("Hugging Face revision must be a 40-character lowercase commit SHA"@)
    } else if !spec_is_model_filename(filename) {
        Some("invalid Hugging Face GGUF filename: "@ + filename)
    } else if !spec_is_hex_of_length(sha256, 64) {
        Some("model sha256 must be 64 lowercase hexadecimal characters"@)
    } else if size_bytes == 0 || size_bytes > MAX_MODEL_BYTES {
        Some("Hugging Face model size_bytes must be between 1 and 34359738368"@)
    } else {
        None
    }
}

/// Where a model comes from: a file in a pinned state of a repository, with its digest and size.
#[derive(Debug)]
pub struct ModelDownloadSpec {
    repository: String,
    revision: String,
    filename: String,
    sha256: String,
    size_bytes: u64,
}

/// Contents of a [`ModelDownloadSpec`].
pub struct SourceView {
    pub repository: Seq<char>,
    pub revision: Seq<char>,
    pub filename: Seq<char>,
    pub sha256: Seq<char>,
    pub size_bytes: int,
}

impl View for ModelDownloadSpec {
    type V = SourceView;

    closed spec fn view(&self) -> SourceView {
        SourceView {
            repository: self.repository@,
            revision: self.revision@,
            filename: self.filename@,
            sha256: self.sha256@,
            size_bytes: self.size_bytes as int,
        }
    }
}

impl Clone for ModelDownloadSpec {
    /// The same model.
    fn clone(&self) -> (r: Self)
        ensures
            r@ == self@,
    {
        proof {
            use_type_invariant(self);
        }
        ModelDownloadSpec {
            repository: self.repository.clone(),
            revision: self.revision.clone(),
            filename: self.filename.clone(),
            sha256: self.sha256.clone(),
            size_bytes: self.size_bytes,
        }
    }
}

impl ModelDownloadSpec {
    /// Nothing is wrong with the source.
    #[verifier::type_invariant]
    spec fn well_formed(self) -> bool {
        source_fault(
            self.repository@,
            self.revision@,
            self.filename@,
            self.sha256@,
            self.size_bytes as int,
        ) is None
    }

    /// The source of a model, unless something is wrong with it.
    pub fn new(
        repository: String,
        revision: String,
        filename: String,
        sha256: String,
        size_bytes: u64,
    ) -> (r: Result<ModelDownloadSpec, CompressionError>)
        ensures
            match r {
                Ok(source) => source_fault(
                    repository@,
                    revision@,
                    filename@,
                    sha256@,
                    size_bytes as int,
                ) is None && source@ == (SourceView {
                    repository: repository@,
                    revision: revision@,
                    filename: filename@,
                    sha256: sha256@,
                    size_bytes: size_bytes as int,
                }),
                Err(error) => source_fault(
                    repository@,
                    revision@,
                    filename@,
                    sha256@,
                    size_bytes as int,
                ) matches Some(reason) && error@ == error::ErrorView::InvalidConfig(reason),
            },
    {
        let valid_repository: bool = match text::split_once(&repository, "/") {
            Some((owner, name)) => is_hugging_face_identifier(&owner) && is_hugging_face_identifier(
                &name,
            ),
            None => false,
        };
        if !valid_repository {
            return Err(
                CompressionError::InvalidConfig(
                    text::concat2("invalid Hugging Face repository: ", &repository),
                ),
            );
        }
        if !is_hex_of_length(&revision, 40) {
            return Err(
                CompressionError::InvalidConfig(
                    "Hugging Face revision must be a 40-character lowercase commit SHA".to_owned(),
                ),
            );
        }
        if !text::ends_with(&filename, ".gguf") || !is_hugging_face_identifier(&filename) {
            return Err(
                CompressionError::InvalidConfig(
                    text::concat2("invalid Hugging Face GGUF filename: ", &filename),
                ),
            );
        }
        if !is_hex_of_length(&sha256, 64) {
            return Err(
                CompressionError::InvalidConfig(
                    "model sha256 must be 64 lowercase hexadecimal characters".to_owned(),
                ),
            );
        }
        if size_bytes == 0 || size_bytes > MAX_MODEL_BYTES {
            return Err(
                CompressionError::InvalidConfig(
                    "Hugging Face model size_bytes must be between 1 and 34359738368".to_owned(),
                ),
            );
        }
        Ok(ModelDownloadSpec { repository, revision, filename, sha256, size_bytes })
    }

    /// The name of the file, which is no path.
    pub fn filename(&self) -> (r: &str)
        ensures
            r@ == self@.filename,
            spec_is_model_filename(r@),
    {
        proof {
            use_type_invariant(self);
        }
        &self.filename
    }

    /// The repository.
    pub fn repository(&self) -> (r: &str)
        ensures
            r@ == self@.repository,
    {
        &self.repository
    }

    /// The pinned state of the repository.
    pub fn revision(&self) -> (r: &str)
        ensures
            r@ == self@.revision,
            spec_is_hex_of_length(r@, 40),
    {
        proof {
            use_type_invariant(self);
        }
        &self.revision
    }

    /// The digest of the file.
    pub fn sha256(&self) -> (r: &str)
        ensures
            r@ == self@.sha256,
            spec_is_hex_of_length(r@, 64),
    {
        proof {
            use_type_invariant(self);
        }
        &self.sha256
    }

    /// The size of the file.
    pub fn size_bytes(&self) -> (r: u64)
        ensures
            r == self@.size_bytes,
            0 < r <= MAX_MODEL_BYTES,
    {
        proof {
            use_type_invariant(self);
        }
        self.size_bytes
    }

    /// The owner and the name of the repository.
    pub fn repository_parts(&self) -> (r: (String, String))
        ensures
            text::spec_split_once(self@.repository, "/"@) == Some((r.0@, r.1@)),
            spec_is_hugging_face_identifier(r.0@),
            spec_is_hugging_face_identifier(r.1@),
    {
        proof {
            use_type_invariant(self);
        }
        match text::split_once(&self.repository, "/") {
            Some(parts) => parts,
            None => (String::new(), String::new()),
        }
    }

    /// The record of a download of the model that is not complete.
    pub fn partial_stamp(&self) -> (r: PartialDownloadStamp)
        ensures
            r.schema_version == PARTIAL_DOWNLOAD_STAMP_SCHEMA,
            r.source_view() == self@,
    {
        PartialDownloadStamp {
            schema_version: PARTIAL_DOWNLOAD_STAMP_SCHEMA,
            repository: self.repository.clone(),
            revision: self.revision.clone(),
            filename: self.filename.clone(),
            sha256: self.sha256.clone(),
            size_bytes: self.size_bytes,
        }
    }

    /// The record of a file that was found to be the model.
    pub fn verification_stamp(&self, modified_unix_nanos: u128) -> (r: VerificationStamp)
        ensures
            r.schema_version == VERIFICATION_STAMP_SCHEMA,
            r.size_bytes == self@.size_bytes,
            r.sha256@ == self@.sha256,
            r.modified_unix_nanos == modified_unix_nanos,
    {
        VerificationStamp {
            schema_version: VERIFICATION_STAMP_SCHEMA,
            size_bytes: self.size_bytes,
            modified_unix_nanos,
            sha256: self.sha256.clone(),
        }
    }

    /// Whether a file of the kind and length may be the model.
    pub fn may_be(&self, is_file: bool, length: u64) -> (r: bool)
        ensures
            r == (is_file && length == self@.size_bytes),
    {
        is_file && length == self.size_bytes
    }

    /// Whether a file with the digest is the model.
    pub fn has_digest(&self, sha256: &str) -> (r: bool)
        ensures
            r == (sha256@ == self@.sha256),
    {
        text::same(&self.sha256, sha256)
    }

    /// Whether a file with the bytes that the digest has taken is the model.
    pub fn has_contents(&self, digest: RunningDigest) -> (r: bool)
        ensures
            r == (digest::spec_encode_hex(digest::sha256(digest@)) == self@.sha256),
    {
        self.has_digest(&digest.hex())
    }

    /// Whether a record says that a file last changed at the time was found to be the model.
    pub fn is_verified_by(&self, stamp: &VerificationStamp, modified_unix_nanos: u128) -> (r: bool)
        ensures
            r == (stamp.schema_version == VERIFICATION_STAMP_SCHEMA && stamp.size_bytes
                == self@.size_bytes && stamp.sha256@ == self@.sha256 && stamp.modified_unix_nanos
                == modified_unix_nanos),
    {
        stamp.schema_version == VERIFICATION_STAMP_SCHEMA && stamp.size_bytes == self.size_bytes
            && text::same(&stamp.sha256, &self.sha256) && stamp.modified_unix_nanos
            == modified_unix_nanos
    }

    /// Whether a record belongs to a download of the model.
    pub fn is_begun_by(&self, stamp: &PartialDownloadStamp) -> (r: bool)
        ensures
            r == (stamp.schema_version == PARTIAL_DOWNLOAD_STAMP_SCHEMA && stamp.source_view()
                == self@),
    {
        stamp.schema_version == PARTIAL_DOWNLOAD_STAMP_SCHEMA && text::same(
            &stamp.repository,
            &self.repository,
        ) && text::same(&stamp.revision, &self.revision) && text::same(
            &stamp.filename,
            &self.filename,
        ) && text::same(&stamp.sha256, &self.sha256) && stamp.size_bytes == self.size_bytes
    }

    /// How much of the model a file holds that a download left behind: its length, where it is a
    /// plain file, no longer than the model, and belongs to a download of it.
    pub fn resumable_bytes(
        &self,
        is_symlink: bool,
        is_file: bool,
        length: u64,
        stamp: &Option<PartialDownloadStamp>,
    ) -> (r: u64)
        ensures
            r == (if !is_symlink && is_file && length <= self@.size_bytes && (stamp matches Some(
                stamp,
            ) && stamp.schema_version == PARTIAL_DOWNLOAD_STAMP_SCHEMA && stamp.source_view()
                == self@) {
                length
            } else {
                0
            }),
            r <= self@.size_bytes,
    {
        if is_symlink || !is_file || length > self.size_bytes {
            return 0;
        }
        match stamp {
            Some(stamp) => if self.is_begun_by(stamp) {
                length
            } else {
                0
            },
            None => 0,
        }
    }

    /// What is wrong with the kind and length of a file that was fetched, if anything is.
    pub fn check_downloaded_size(&self, is_file: bool, length: u64) -> (r: Result<
        (),
        CompressionError,
    >)
        ensures
            match r {
                Ok(_) => is_file && length == self@.size_bytes,
                Err(error) => !(is_file && length == self@.size_bytes) && error@
                    == error::ErrorView::Runtime(
                    "model download size mismatch: expected "@ + text::spec_decimal(
                        self@.size_bytes as nat,
                    ) + ", received "@ + text::spec_decimal(length as nat),
                ),
            },
    {
        if is_file && length == self.size_bytes {
            Ok(())
        } else {
            Err(
                CompressionError::Runtime(
                    text::concat4(
                        "model download size mismatch: expected ",
                        &text::decimal(self.size_bytes),
                        ", received ",
                        &text::decimal(length),
                    ),
                ),
            )
        }
    }

    /// What is wrong with the digest of a file that was fetched, if anything is.
    pub fn check_downloaded_digest(&self, actual_sha256: &str) -> (r: Result<(), CompressionError>)
        ensures
            match r {
                Ok(_) => actual_sha256@ == self@.sha256,
                Err(error) => actual_sha256@ != self@.sha256 && error@ == error::ErrorView::Runtime(
                    "model download SHA-256 mismatch: expected "@ + self@.sha256 + ", received "@
                        + actual_sha256@,
                ),
            },
    {
        if self.has_digest(actual_sha256) {
            Ok(())
        } else {
            Err(
                CompressionError::Runtime(
                    text::concat4(
                        "model download SHA-256 mismatch: expected ",
                        &self.sha256,
                        ", received ",
                        actual_sha256,
                    ),
                ),
            )
        }
    }

    /// What is wrong with the bytes of a file that was fetched, which the digest has taken, if
    /// anything is.
    pub fn check_downloaded_contents(&self, digest: RunningDigest) -> (r: Result<
        (),
        CompressionError,
    >)
        ensures
            ({
                let actual = digest::spec_encode_hex(digest::sha256(digest@));
                match r {
                    Ok(_) => actual == self@.sha256,
                    Err(error) => actual != self@.sha256 && error@ == error::ErrorView::Runtime(
                        "model download SHA-256 mismatch: expected "@ + self@.sha256
                            + ", received "@ + actual,
                    ),
                }
            }),
    {
        self.check_downloaded_digest(&digest.hex())
    }
}

/// The record of a file that was found to be a model.
#[derive(Debug)]
pub struct VerificationStamp {
    pub schema_version: u8,
    pub size_bytes: u64,
    pub modified_unix_nanos: u128,
    pub sha256: String,
}

/// The record of a download that is not complete.
#[derive(Debug)]
pub struct PartialDownloadStamp {
    pub schema_version: u8,
    pub repository: String,
    pub revision: String,
    pub filename: String,
    pub sha256: String,
    pub size_bytes: u64,
}

impl PartialDownloadStamp {
    /// The source that the record speaks of.
    pub open spec fn source_view(&self) -> SourceView {
        SourceView {
            repository: self.repository@,
            revision: self.revision@,
            filename: self.filename@,
            sha256: self.sha256@,
            size_bytes: self.size_bytes as int,
        }
    }
}

/// A download that goes on where an earlier one ended, piece by piece.
#[derive(Debug, Clone, Copy)]
pub struct ResumableDownload {
    offset: u64,
    total_bytes: u64,
    chunk_bytes: u64,
}

/// The position after the piece that begins at a position.
pub open spec fn piece_end(offset: int, total_bytes: int, chunk_bytes: int) -> int {
    if offset + chunk_bytes <= total_bytes {
        offset + chunk_bytes
    } else {
        total_bytes
    }
}

impl ResumableDownload {
    /// The download is at a position within its length, and its pieces are not empty.
    #[verifier::type_invariant]
    spec fn well_formed(self) -> bool {
        self.offset <= self.total_bytes && self.chunk_bytes > 0
    }

    /// The position that the download has come to.
    pub closed spec fn spec_offset(self) -> int {
        self.offset as int
    }

    /// The length of the whole.
    pub closed spec fn spec_total(self) -> int {
        self.total_bytes as int
    }

    /// The length of a piece.
    pub closed spec fn spec_chunk(self) -> int {
        self.chunk_bytes as int
    }

    /// A download that goes on after the bytes that a file holds.
    pub fn resume(downloaded_bytes: u64, total_bytes: u64, chunk_bytes: u64, file_bytes: u64) -> (r:
        Result<ResumableDownload, CompressionError>)
        ensures
            match r {
                Ok(download) => chunk_bytes > 0 && downloaded_bytes <= total_bytes && file_bytes
                    == downloaded_bytes && download.spec_offset() == downloaded_bytes
                    && download.spec_total() == total_bytes && download.spec_chunk() == chunk_bytes,
                Err(error) => if chunk_bytes == 0 || downloaded_bytes > total_bytes {
                    error@ == error::ErrorView::Runtime("invalid resumable download state"@)
                } else {
                    file_bytes != downloaded_bytes && error@ == error::ErrorView::Runtime(
                        "partial model size changed before resume"@,
                    )
                },
            },
    {
        if chunk_bytes == 0 || downloaded_bytes > total_bytes {
            return Err(CompressionError::Runtime("invalid resumable download state".to_owned()));
        }
        if file_bytes != downloaded_bytes {
            return Err(
                CompressionError::Runtime("partial model size changed before resume".to_owned()),
            );
        }
        Ok(ResumableDownload { offset: downloaded_bytes, total_bytes, chunk_bytes })
    }

    /// The piece to fetch next, from the first position up to the second; none where the download
    /// is complete.
    pub fn next_piece(&self) -> (r: Option<(u64, u64)>)
        ensures
            match r {
                Some((start, end)) => start == self.spec_offset() && start < self.spec_total()
                    && end == piece_end(self.spec_offset(), self.spec_total(), self.spec_chunk())
                    && start < end <= self.spec_total() && end - start <= self.spec_chunk(),
                None => self.spec_offset() == self.spec_total(),
            },
    {
        proof {
            use_type_invariant(self);
        }
        if self.offset >= self.total_bytes {
            return None;
        }
        let left: u64 = self.total_bytes - self.offset;
        let end: u64 = if self.chunk_bytes <= left {
            self.offset + self.chunk_bytes
        } else {
            self.total_bytes
        };
        Some((self.offset, end))
    }

    /// Takes a piece of the length. The download moves on where that is the length asked for.
    pub fn accept(&mut self, received: u64) -> (r: Result<ModelDownloadProgress, CompressionError>)
        requires
            old(self).spec_offset() < old(self).spec_total(),
        ensures
            final(self).spec_total() == old(self).spec_total(),
            final(self).spec_chunk() == old(self).spec_chunk(),
            ({
                let end = piece_end(
                    old(self).spec_offset(),
                    old(self).spec_total(),
                    old(self).spec_chunk(),
                );
                let expected = end - old(self).spec_offset();
                match r {
                    Ok(progress) => received == expected && final(self).spec_offset() == end
                        && progress.downloaded_bytes == end && progress.total_bytes
                        == old(self).spec_total(),
                    Err(error) => received != expected && *final(self) == *old(self) && error@
                        == error::ErrorView::Runtime(
                        "model download range size mismatch: expected "@ + text::spec_decimal(
                            expected as nat,
                        ) + ", received "@ + text::spec_decimal(received as nat),
                    ),
                }
            }),
    {
        proof {
            use_type_invariant(&*self);
        }
        let left: u64 = self.total_bytes - self.offset;
        let expected: u64 = if self.chunk_bytes <= left {
            self.chunk_bytes
        } else {
            left
        };
        if received != expected {
            return Err(
                CompressionError::Runtime(
                    text::concat4(
                        "model download range size mismatch: expected ",
                        &text::decimal(expected),
                        ", received ",
                        &text::decimal(received),
                    ),
                ),
            );
        }
        self.offset = self.offset + expected;
        Ok(
            ModelDownloadProgress {
                downloaded_bytes: self.offset,
                total_bytes: self.total_bytes,
            },
        )
    }
}

/// The pieces that a download fetches from a position on.
pub open spec fn pieces_from(offset: int, total_bytes: int, chunk_bytes: int) -> Seq<(int, int)>
    decreases total_bytes - offset,
{
    if offset >= total_bytes || chunk_bytes <= 0 {
        Seq::empty()
    } else {
        let end = piece_end(offset, total_bytes, chunk_bytes);
        seq![(offset, end)] + pieces_from(end, total_bytes, chunk_bytes)
    }
}

/// The pieces of a download follow one another without a gap, from where it begins to its end, and
/// none is longer than a piece may be.
pub proof fn pieces_cover_the_rest(offset: int, total_bytes: int, chunk_bytes: int)
    requires
        0 <= offset < total_bytes,
        0 < chunk_bytes,
    ensures
        ({
            let pieces = pieces_from(offset, total_bytes, chunk_bytes);
            &&& pieces.len() > 0
            &&& pieces[0].0 == offset
            &&& pieces.last().1 == total_bytes
            &&& forall|i: int|
                0 <= i < pieces.len() ==> (#[trigger] pieces[i]).0 < pieces[i].1 && pieces[i].1
                    - pieces[i].0 <= chunk_bytes
            &&& forall|i: int, j: int|
                0 <= i && j == i + 1 && j < pieces.len() ==> (#[trigger] pieces[i]).1 == (
                #[trigger] pieces[j]).0
        }),
    decreases total_bytes - offset,
{
    let end = piece_end(offset, total_bytes, chunk_bytes);
    let rest = pieces_from(end, total_bytes, chunk_bytes);
    let pieces = pieces_from(offset, total_bytes, chunk_bytes);
    assert(pieces =~= seq![(offset, end)] + rest);
    if end < total_bytes {
        pieces_cover_the_rest(end, total_bytes, chunk_bytes);
        assert(pieces.last() == rest.last());
        assert forall|i: int, j: int| 0 <= i && j == i + 1 && j < pieces.len() implies (
        #[trigger] pieces[i]).1 == (#[trigger] pieces[j]).0 by {
            assert(pieces[j] == rest[j - 1]);
            if i > 0 {
                assert(pieces[i] == rest[i - 1]);
            }
        }
        assert forall|i: int| 0 <= i < pieces.len() implies (#[trigger] pieces[i]).0 < pieces[i].1
            && pieces[i].1 - pieces[i].0 <= chunk_bytes by {
            if i > 0 {
                assert(pieces[i] == rest[i - 1]);
            }
        }
    } else {
        assert(rest =~= Seq::empty());
    }
}

/// A name on Hugging Face holds no slash, so that it stays within its directory.
pub proof fn model_filenames_are_no_paths(filename: Seq<char>)
    requires
        spec_is_model_filename(filename),
    ensures
        !text::spec_contains(filename, "/"@),
        !text::spec_contains(filename, "\\"@),
        filename != ".."@,
{
    reveal_strlit("/");
    reveal_strlit("\\");
    if text::spec_contains(filename, "/"@) {
        let i = choose|i: int| #[trigger] text::occurs_at(filename, "/"@, i);
        assert(filename.subrange(i, i + 1)[0] == "/"@[0]);
        assert(filename[i] == '/');
        assert(is_name_character(filename[i]));
    }
    if text::spec_contains(filename, "\\"@) {
        let i = choose|i: int| #[trigger] text::occurs_at(filename, "\\"@, i);
        assert(filename.subrange(i, i + 1)[0] == "\\"@[0]);
        assert(filename[i] == '\\');
        assert(is_name_character(filename[i]));
    }
}

/// A name is made of letters, digits, points, underscores and hyphens, has at most 255 of them, and
/// is no step in a path.
pub open spec fn is_plain_name(name: Seq<char>) -> bool {
    &&& 1 <= name.len() <= 255
    &&& name != seq!['.']
    &&& name != seq!['.', '.']
    &&& forall|i: int|
        0 <= i < name.len() ==> 'a' <= #[trigger] name[i] <= 'z' || 'A' <= name[i] <= 'Z' || '0'
            <= name[i] <= '9' || name[i] == '.' || name[i] == '_' || name[i] == '-'
}

/// Names on Hugging Face are plain names.
proof fn names_are_plain(name: Seq<char>)
    ensures
        spec_is_hugging_face_identifier(name) <==> is_plain_name(name),
{
    reveal_strlit(".");
    reveal_strlit("..");
    assert("."@ =~= seq!['.']);
    assert(".."@ =~= seq!['.', '.']);
    if spec_is_hugging_face_identifier(name) {
        assert forall|i: int| 0 <= i < name.len() implies 'a' <= #[trigger] name[i] <= 'z' || 'A'
            <= name[i] <= 'Z' || '0' <= name[i] <= '9' || name[i] == '.' || name[i] == '_'
            || name[i] == '-' by {
            assert(is_name_character(name[i]));
        }
    }
}

/// A repository is two plain names with a slash between them.
proof fn repositories_have_two_names(repository: Seq<char>)
    ensures
        spec_is_repository(repository) <==> exists|owner: Seq<char>, name: Seq<char>|
            is_plain_name(owner) && is_plain_name(name) && repository == #[trigger] (owner + "/"@
                + name),
{
    reveal_strlit("/");
    assert("/"@ =~= seq!['/']);
    text::split_texts_go_together(repository, "/"@);
    match text::spec_split_once(repository, "/"@) {
        Some((owner, name)) => {
            names_are_plain(owner);
            names_are_plain(name);
            assert(repository == owner + "/"@ + name);
        },
        None => {},
    }
    if exists|owner: Seq<char>, name: Seq<char>|
        is_plain_name(owner) && is_plain_name(name) && repository == #[trigger] (owner + "/"@
            + name) {
        let (owner, name) = choose|owner: Seq<char>, name: Seq<char>|
            is_plain_name(owner) && is_plain_name(name) && repository == #[trigger] (owner + "/"@
                + name);
        let place = owner.len() as int;
        assert forall|j: int| 0 <= j < place implies #[trigger] repository[j] != '/' by {
            assert(repository[j] == owner[j]);
        }
        parts::first_place(repository, '/', place);
        assert(repository.take(place) =~= owner);
        assert(repository.skip(place + 1) =~= name);
        names_are_plain(owner);
        names_are_plain(name);
    }
}

/// The text is a number of the given length to the base of sixteen in lower case.
pub open spec fn is_lower_hex(text: Seq<char>, length: int) -> bool {
    &&& text.len() == length
    &&& forall|i: int|
        0 <= i < text.len() ==> '0' <= #[trigger] text[i] <= '9' || 'a' <= text[i] <= 'f'
}

/// A source is accepted where its repository is two plain names with a slash between them, its
/// revision has 40 and its digest 64 digits to the base of sixteen, its file is a plain name that
/// ends with `.gguf`, and its size lies from 1 to 34359738368; only there.
pub proof fn accepted_sources(
    repository: Seq<char>,
    revision: Seq<char>,
    filename: Seq<char>,
    sha256: Seq<char>,
    size_bytes: int,
)
    requires
        size_bytes >= 0,
    ensures
        source_fault(repository, revision, filename, sha256, size_bytes) is None <==> {
            &&& exists|owner: Seq<char>, name: Seq<char>|
                is_plain_name(owner) && is_plain_name(name) && repository == #[trigger] (owner
                    + "/"@ + name)
            &&& is_lower_hex(revision, 40)
            &&& is_plain_name(filename)
            &&& text::spec_ends_with(filename, ".gguf"@)
            &&& is_lower_hex(sha256, 64)
            &&& 1 <= size_bytes <= 34359738368
        },
{
    repositories_have_two_names(repository);
    names_are_plain(filename);
}

} // verus!
