//! What can go wrong, and how it is reported.
use vstd::prelude::*;
use crate::text;

verus! {

/// A failure of the library or of what it runs on.
#[derive(Debug)]
pub enum CompressionError {
    /// No profile has the name.
    UnknownProfile(String),
    /// There is no such level.
    InvalidCompressionLevel(u8),
    /// The request holds nothing but white space.
    EmptyInput,
    /// Reading or writing failed, with the reason.
    Io(String),
    /// A configuration file is no valid YAML, with the reason.
    ConfigYaml(String),
    /// A configuration contradicts itself or cannot be used, with the reason.
    InvalidConfig(String),
    /// No model has the name.
    UnknownModel(String),
    /// No runtime has the name.
    UnknownRuntime(String),
    /// The runtime took longer than the given number of milliseconds.
    RuntimeTimeout(u64),
    /// The runtime failed, with the reason.
    Runtime(String),
    /// The operation was given up on demand, with the reason.
    Cancelled(String),
}

/// Contents of a [`CompressionError`].
pub enum ErrorView {
    UnknownProfile(Seq<char>),
    InvalidCompressionLevel(u8),
    EmptyInput,
    Io(Seq<char>),
    ConfigYaml(Seq<char>),
    InvalidConfig(Seq<char>),
    UnknownModel(Seq<char>),
    UnknownRuntime(Seq<char>),
    RuntimeTimeout(u64),
    Runtime(Seq<char>),
    Cancelled(Seq<char>),
}

impl View for CompressionError {
    type V = ErrorView;

    open spec fn view(&self) -> ErrorView {
        match *self {
            CompressionError::UnknownProfile(name) => ErrorView::UnknownProfile(name@),
            CompressionError::InvalidCompressionLevel(level) => {
                ErrorView::InvalidCompressionLevel(level)
            },
            CompressionError::EmptyInput => ErrorView::EmptyInput,
            CompressionError::Io(reason) => ErrorView::Io(reason@),
            CompressionError::ConfigYaml(reason) => ErrorView::ConfigYaml(reason@),
            CompressionError::InvalidConfig(reason) => ErrorView::InvalidConfig(reason@),
            CompressionError::UnknownModel(name) => ErrorView::UnknownModel(name@),
            CompressionError::UnknownRuntime(name) => ErrorView::UnknownRuntime(name@),
            CompressionError::RuntimeTimeout(limit) => ErrorView::RuntimeTimeout(limit),
            CompressionError::Runtime(reason) => ErrorView::Runtime(reason@),
            CompressionError::Cancelled(reason) => ErrorView::Cancelled(reason@),
        }
    }
}

/// The text that reports an error.
pub open spec fn spec_message(error: ErrorView) -> Seq<char> {
    match error {
        ErrorView::UnknownProfile(name) => "unknown profile: "@ + name,
        ErrorView::InvalidCompressionLevel(level) => "invalid compression level: "@
            + text::spec_decimal(level as nat),
        ErrorView::EmptyInput => "empty input is not allowed"@,
        ErrorView::Io(reason) => "i/o error: "@ + reason,
        ErrorView::ConfigYaml(reason) => "failed to parse yaml config: "@ + reason,
        ErrorView::InvalidConfig(reason) => "invalid config: "@ + reason,
        ErrorView::UnknownModel(name) => "unknown model: "@ + name,
        ErrorView::UnknownRuntime(name) => "unknown runtime: "@ + name,
        ErrorView::RuntimeTimeout(limit) => "runtime timed out after "@ + text::spec_decimal(
            limit as nat,
        ) + " ms"@,
        ErrorView::Runtime(reason) => "runtime error: "@ + reason,
        ErrorView::Cancelled(reason) => "cancelled: "@ + reason,
    }
}

impl CompressionError {
    /// The text that reports the error.
    pub fn message(&self) -> (r: String)
        ensures
            r@ == spec_message(self@),
    {
        match self {
            CompressionError::UnknownProfile(name) => text::concat2("unknown profile: ", name),
            CompressionError::InvalidCompressionLevel(level) => {
                text::concat2("invalid compression level: ", &text::decimal(*level as u64))
            },
            CompressionError::EmptyInput => "empty input is not allowed".to_owned(),
            CompressionError::Io(reason) => text::concat2("i/o error: ", reason),
            CompressionError::ConfigYaml(reason) => {
                text::concat2("failed to parse yaml config: ", reason)
            },
            CompressionError::InvalidConfig(reason) => text::concat2("invalid config: ", reason),
            CompressionError::UnknownModel(name) => text::concat2("unknown model: ", name),
            CompressionError::UnknownRuntime(name) => text::concat2("unknown runtime: ", name),
            CompressionError::RuntimeTimeout(limit) => {
                text::concat3("runtime timed out after ", &text::decimal(*limit), " ms")
            },
            CompressionError::Runtime(reason) => text::concat2("runtime error: ", reason),
            CompressionError::Cancelled(reason) => text::concat2("cancelled: ", reason),
        }
    }
}

impl Clone for CompressionError {
    fn clone(&self) -> (r: Self)
        ensures
            r@ == self@,
    {
        match self {
            CompressionError::UnknownProfile(name) => CompressionError::UnknownProfile(
                name.clone(),
            ),
            CompressionError::InvalidCompressionLevel(level) => {
                CompressionError::InvalidCompressionLevel(*level)
            },
            CompressionError::EmptyInput => CompressionError::EmptyInput,
            CompressionError::Io(reason) => CompressionError::Io(reason.clone()),
            CompressionError::ConfigYaml(reason) => CompressionError::ConfigYaml(reason.clone()),
            CompressionError::InvalidConfig(reason) => CompressionError::InvalidConfig(
                reason.clone(),
            ),
            CompressionError::UnknownModel(name) => CompressionError::UnknownModel(name.clone()),
            CompressionError::UnknownRuntime(name) => CompressionError::UnknownRuntime(
                name.clone(),
            ),
            CompressionError::RuntimeTimeout(limit) => CompressionError::RuntimeTimeout(*limit),
            CompressionError::Runtime(reason) => CompressionError::Runtime(reason.clone()),
            CompressionError::Cancelled(reason) => CompressionError::Cancelled(reason.clone()),
        }
    }
}

/// The contents of an outcome whose value is itself plain.
pub open spec fn outcome<T>(result: Result<T, CompressionError>) -> Result<T, ErrorView> {
    match result {
        Ok(value) => Ok(value),
        Err(error) => Err(error@),
    }
}

/// The contents of an outcome that is a text.
pub open spec fn text_outcome(result: Result<String, CompressionError>) -> Result<
    Seq<char>,
    ErrorView,
> {
    match result {
        Ok(value) => Ok(value@),
        Err(error) => Err(error@),
    }
}

/// The text that reports an error tells its kind first, and ends with what it is about.
pub proof fn messages_tell_what_happened(error: ErrorView)
    ensures
        error matches ErrorView::UnknownProfile(name) ==> text::spec_starts_with(
            spec_message(error),
            "unknown profile: "@,
        ) && text::spec_ends_with(spec_message(error), name),
        error matches ErrorView::UnknownModel(name) ==> text::spec_starts_with(
            spec_message(error),
            "unknown model: "@,
        ) && text::spec_ends_with(spec_message(error), name),
        error matches ErrorView::UnknownRuntime(name) ==> text::spec_starts_with(
            spec_message(error),
            "unknown runtime: "@,
        ) && text::spec_ends_with(spec_message(error), name),
        error matches ErrorView::Io(reason) ==> text::spec_starts_with(
            spec_message(error),
            "i/o error: "@,
        ) && text::spec_ends_with(spec_message(error), reason),
        error matches ErrorView::ConfigYaml(reason) ==> text::spec_starts_with(
            spec_message(error),
            "failed to parse yaml config: "@,
        ) && text::spec_ends_with(spec_message(error), reason),
        error matches ErrorView::InvalidConfig(reason) ==> text::spec_starts_with(
            spec_message(error),
            "invalid config: "@,
        ) && text::spec_ends_with(spec_message(error), reason),
        error matches ErrorView::Runtime(reason) ==> text::spec_starts_with(
            spec_message(error),
            "runtime error: "@,
        ) && text::spec_ends_with(spec_message(error), reason),
        error matches ErrorView::Cancelled(reason) ==> text::spec_starts_with(
            spec_message(error),
            "cancelled: "@,
        ) && text::spec_ends_with(spec_message(error), reason),
        error matches ErrorView::InvalidCompressionLevel(level) ==> text::spec_starts_with(
            spec_message(error),
            "invalid compression level: "@,
        ) && text::spec_ends_with(spec_message(error), text::spec_decimal(level as nat)),
        error matches ErrorView::RuntimeTimeout(limit) ==> spec_message(error)
            == "runtime timed out after "@ + text::spec_decimal(limit as nat) + " ms"@,
        error == ErrorView::EmptyInput ==> spec_message(error) == "empty input is not allowed"@,
{
    match error {
        ErrorView::UnknownProfile(name) => ends_meet("unknown profile: "@, name),
        ErrorView::UnknownModel(name) => ends_meet("unknown model: "@, name),
        ErrorView::UnknownRuntime(name) => ends_meet("unknown runtime: "@, name),
        ErrorView::Io(reason) => ends_meet("i/o error: "@, reason),
        ErrorView::ConfigYaml(reason) => ends_meet("failed to parse yaml config: "@, reason),
        ErrorView::InvalidConfig(reason) => ends_meet("invalid config: "@, reason),
        ErrorView::Runtime(reason) => ends_meet("runtime error: "@, reason),
        ErrorView::Cancelled(reason) => ends_meet("cancelled: "@, reason),
        ErrorView::InvalidCompressionLevel(level) => ends_meet(
            "invalid compression level: "@,
            text::spec_decimal(level as nat),
        ),
        _ => {},
    }
}

/// Two texts put together begin with the first and end with the second.
proof fn ends_meet(start: Seq<char>, end: Seq<char>)
    ensures
        text::spec_starts_with(start + end, start),
        text::spec_ends_with(start + end, end),
{
    let whole = start + end;
    assert(whole.subrange(0, start.len() as int) =~= start);
    assert(whole.subrange(whole.len() - end.len(), whole.len() as int) =~= end);
}

} // verus!
