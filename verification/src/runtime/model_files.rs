//! The files of models: which are there, and which are known to be right.
use vstd::prelude::*;
use crate::config::catalog::{ModelDefinition, RuntimeDefinition, RuntimeLaunchMode};
use crate::config::profile::ProfileDefinition;
use crate::contents;
use crate::error;
use crate::error::CompressionError;
use crate::runtime::model_download::ModelDownloadSpec;
use crate::text;
use crate::text_map::TextMap;

verus! {

/// What tells a file from one that took its place: its size and when it was changed.
#[derive(Debug, Clone, Copy, PartialEq, Eq, Structural)]
pub struct ModelFileIdentity {
    pub size_bytes: u64,
    pub modified_nanos: i128,
}

/// The files that are known to be right, as long as they do not change.
#[derive(Debug)]
pub struct VerifiedFiles {
    verified: TextMap<ModelFileIdentity>,
}

impl Default for VerifiedFiles {
    /// Nothing is known at first.
    fn default() -> (r: Self)
        ensures
            r@ == Map::<Seq<char>, ModelFileIdentity>::empty(),
    {
        VerifiedFiles { verified: TextMap::new() }
    }
}

impl View for VerifiedFiles {
    type V = Map<Seq<char>, ModelFileIdentity>;

    closed spec fn view(&self) -> Map<Seq<char>, ModelFileIdentity> {
        self.verified@
    }
}

/// The file is known to be right as it is now.
pub open spec fn is_known(
    verified: Map<Seq<char>, ModelFileIdentity>,
    path: Seq<char>,
    current: Option<ModelFileIdentity>,
) -> bool {
    current is Some && verified.contains_key(path) && verified[path] == current->0
}

impl VerifiedFiles {
    /// Whether the file is known to be right as it is now. What was known of another is forgotten.
    pub fn is_verified(&mut self, path: &str, current: Option<ModelFileIdentity>) -> (r: bool)
        ensures
            r == is_known(old(self)@, path@, current),
            final(self)@ == (if r {
                old(self)@
            } else {
                old(self)@.remove(path@)
            }),
    {
        let known: bool = match (self.verified.get(path), current) {
            (Some(stored), Some(current)) => *stored == current,
            _ => false,
        };
        if !known {
            let dropped: Option<ModelFileIdentity> = self.verified.remove(path);
        }
        known
    }

    /// Notes that the file is right as it is now.
    pub fn mark_verified(&mut self, path: &str, current: Option<ModelFileIdentity>) -> (r: Result<
        (),
        CompressionError,
    >)
        ensures
            match current {
                Some(identity) => r is Ok && final(self)@ == old(self)@.insert(path@, identity),
                None => r matches Err(error) && error@ == error::ErrorView::Runtime(
                    "verified model file disappeared at "@ + path@,
                ) && final(self)@ == old(self)@,
            },
    {
        match current {
            Some(identity) => {
                let replaced: Option<ModelFileIdentity> = self.verified.insert(
                    path.to_owned(),
                    identity,
                );
                Ok(())
            },
            None => Err(
                CompressionError::Runtime(
                    text::concat2("verified model file disappeared at ", path),
                ),
            ),
        }
    }

    /// Forgets what was known of the file.
    pub fn forget(&mut self, path: &str)
        ensures
            final(self)@ == old(self)@.remove(path@),
    {
        let dropped: Option<ModelFileIdentity> = self.verified.remove(path);
    }
}

/// A file that was noted to be right is known as long as neither its size nor the time of its last
/// change is another, and no longer.
pub proof fn changed_files_are_not_known(
    verified: Map<Seq<char>, ModelFileIdentity>,
    path: Seq<char>,
    identity: ModelFileIdentity,
    current: Option<ModelFileIdentity>,
)
    ensures
        is_known(verified.insert(path, identity), path, current) <==> current == Some(identity),
{
}

/// The error for a model that needs a file and has none.
pub open spec fn missing_model_path(model_id: Seq<char>, runtime_id: Seq<char>) -> Seq<char> {
    "model '"@ + model_id + "' is missing model_path for runtime '"@ + runtime_id + "'"@
}

/// Where the file of the model is to be, by its configuration.
pub fn configured_model_path(model: &ModelDefinition, runtime_id: &str) -> (r: Result<
    String,
    CompressionError,
>)
    ensures
        error::text_outcome(r) == (match model@.model_path {
            Some(path) => Ok(path),
            None => Err(
                error::ErrorView::InvalidConfig(missing_model_path(model@.id, runtime_id@)),
            ),
        }),
{
    match &model.model_path {
        Some(path) => Ok(path.clone()),
        None => Err(
            CompressionError::InvalidConfig(
                text::concat5(
                    "model '",
                    &model.id,
                    "' is missing model_path for runtime '",
                    runtime_id,
                    "'",
                ),
            ),
        ),
    }
}

/// Checks that the model is installed.
pub fn require_installed(model: &ModelDefinition, installed: bool) -> (r: Result<
    (),
    CompressionError,
>)
    ensures
        error::outcome(r) == (if installed {
            Ok(())
        } else {
            Err(
                error::ErrorView::Runtime(
                    "model '"@ + model@.id
                        + "' is not installed or failed verification; install it from the app model setup before compression"@,
                ),
            )
        }),
{
    if installed {
        Ok(())
    } else {
        Err(
            CompressionError::Runtime(
                text::concat3(
                    "model '",
                    &model.id,
                    "' is not installed or failed verification; install it from the app model setup before compression",
                ),
            ),
        )
    }
}

/// Checks that the file of the model has the name under which it is offered.
pub fn check_download_name(
    model: &ModelDefinition,
    file_name: Option<&str>,
    download: &ModelDownloadSpec,
) -> (r: Result<(), CompressionError>)
    ensures
        error::outcome(r) == (if file_name matches Some(name) && name@ == download@.filename {
            Ok(())
        } else {
            Err(
                error::ErrorView::InvalidConfig(
                    "model '"@ + model@.id
                        + "' path filename must match its Hugging Face filename"@,
                ),
            )
        }),
{
    let agrees: bool = match file_name {
        Some(name) => text::same(name, download.filename()),
        None => false,
    };
    if agrees {
        Ok(())
    } else {
        Err(
            CompressionError::InvalidConfig(
                text::concat3(
                    "model '",
                    &model.id,
                    "' path filename must match its Hugging Face filename",
                ),
            ),
        )
    }
}

/// Checks that a file that is not offered anywhere is there.
pub fn require_model_at(is_file: bool, path: &str) -> (r: Result<(), CompressionError>)
    ensures
        error::outcome(r) == (if is_file {
            Ok(())
        } else {
            Err(error::ErrorView::Runtime("model file not found at "@ + path@))
        }),
{
    if is_file {
        Ok(())
    } else {
        Err(CompressionError::Runtime(text::concat2("model file not found at ", path)))
    }
}

/// Whether the model of a profile has to be installed, and how far that is.
#[derive(Debug, Clone)]
pub struct ProfileModelStatus {
    pub profile: String,
    pub model_id: String,
    pub label: String,
    pub requires_install: bool,
    pub installed: bool,
    pub repository: Option<String>,
    pub revision: Option<String>,
    pub filename: Option<String>,
    pub size_bytes: Option<u64>,
    pub partial_downloaded_bytes: Option<u64>,
    pub destination: Option<String>,
}

/// Whether the models of the runtime have to be installed.
pub fn requires_install(runtime: &RuntimeDefinition) -> (r: bool)
    ensures
        r == (runtime@.launch_mode == RuntimeLaunchMode::Embedded),
{
    runtime.launch_mode == RuntimeLaunchMode::Embedded
}

/// How far the installation of a model is. What was downloaded of it counts while it is not
/// installed and has a place.
pub fn model_status(
    profile: &ProfileDefinition,
    model: &ModelDefinition,
    runtime: &RuntimeDefinition,
    installed: bool,
    destination: Option<String>,
    resumable_bytes: u64,
) -> (r: ProfileModelStatus)
    ensures
        r.profile@ == profile@.id,
        r.model_id@ == model@.id,
        r.label@ == model@.label,
        r.requires_install == (runtime@.launch_mode == RuntimeLaunchMode::Embedded),
        r.installed == installed,
        contents::view_option(r.destination) == contents::view_option(destination),
        match model@.download {
            Some(download) => {
                &&& contents::view_option(r.repository) == Some(download.repository)
                &&& contents::view_option(r.revision) == Some(download.revision)
                &&& contents::view_option(r.filename) == Some(download.filename)
                &&& r.size_bytes matches Some(size) && size == download.size_bytes
                &&& r.partial_downloaded_bytes == Some(
                    if destination is Some && !installed {
                        resumable_bytes
                    } else {
                        0
                    },
                )
            },
            None => {
                &&& r.repository is None
                &&& r.revision is None
                &&& r.filename is None
                &&& r.size_bytes is None
                &&& r.partial_downloaded_bytes is None
            },
        },
{
    let needs_install: bool = requires_install(runtime);
    match &model.download {
        Some(download) => {
            let partial: u64 = if destination.is_some() && !installed {
                resumable_bytes
            } else {
                0
            };
            ProfileModelStatus {
                profile: profile.id.clone(),
                model_id: model.id.clone(),
                label: model.label.clone(),
                requires_install: needs_install,
                installed,
                repository: Some(download.repository().to_owned()),
                revision: Some(download.revision().to_owned()),
                filename: Some(download.filename().to_owned()),
                size_bytes: Some(download.size_bytes()),
                partial_downloaded_bytes: Some(partial),
                destination,
            }
        },
        None => ProfileModelStatus {
            profile: profile.id.clone(),
            model_id: model.id.clone(),
            label: model.label.clone(),
            requires_install: needs_install,
            installed,
            repository: None,
            revision: None,
            filename: None,
            size_bytes: None,
            partial_downloaded_bytes: None,
            destination,
        },
    }
}

/// The error of a build without an engine.
pub fn engine_is_missing(runtime: &RuntimeDefinition) -> (r: CompressionError)
    ensures
        r@ == error::ErrorView::InvalidConfig(
            "runtime '"@ + runtime@.id
                + "' uses embedded llama.cpp, but this build was compiled without the 'embedded-llama' feature"@,
        ),
{
    CompressionError::InvalidConfig(
        text::concat3(
            "runtime '",
            &runtime.id,
            "' uses embedded llama.cpp, but this build was compiled without the 'embedded-llama' feature",
        ),
    )
}

} // verus!
