//! Why an operation failed, and the message it reports.
use vstd::prelude::*;
use vstd::string::StringExecFns;

verus! {

/// A failed operation.
#[derive(Debug, Clone, PartialEq, Eq)]
pub enum PaperError {
    /// The wallpaper path could not be resolved; `cause` is the system's reason.
    NotFound { path: String, cause: String },
    /// The wallpaper's extension (lowercased) is not a supported image type.
    UnsupportedType { ext: String },
    /// `set_on` was given an empty output name.
    EmptyOutput,
    /// An outside step (awww, wal, bread-theme, writing a file) failed with
    /// this message.
    Tool { message: String },
    /// Nothing is saved for this output.
    NoSavedOutput { output: String },
}

/// A failure, by the text it holds.
pub enum ErrorView {
    NotFound { path: Seq<char>, cause: Seq<char> },
    UnsupportedType { ext: Seq<char> },
    EmptyOutput,
    Tool { message: Seq<char> },
    NoSavedOutput { output: Seq<char> },
}

impl View for PaperError {
    type V = ErrorView;

    open spec fn view(&self) -> ErrorView {
        match self {
            PaperError::NotFound { path, cause } => ErrorView::NotFound { path: path@, cause: cause@ },
            PaperError::UnsupportedType { ext } => ErrorView::UnsupportedType { ext: ext@ },
            PaperError::EmptyOutput => ErrorView::EmptyOutput,
            PaperError::Tool { message } => ErrorView::Tool { message: message@ },
            PaperError::NoSavedOutput { output } => ErrorView::NoSavedOutput { output: output@ },
        }
    }
}

/// The text a failure is reported with.
pub open spec fn error_message(e: ErrorView) -> Seq<char> {
    match e {
        ErrorView::NotFound { path, cause } => "not found: "@ + path + ": "@ + cause,
        ErrorView::UnsupportedType { ext } => "unsupported file type '."@ + ext
            + "' \u{2014} expected one of: png, jpg, jpeg, webp, gif, bmp"@,
        ErrorView::EmptyOutput => "output name is empty"@,
        ErrorView::Tool { message } => message,
        ErrorView::NoSavedOutput { output } => "no wallpaper saved for output "@ + output,
    }
}

impl PaperError {
    /// A copy of this failure.
    pub fn duplicate(&self) -> (r: PaperError)
        ensures
            r@ == self@,
    {
        match self {
            PaperError::NotFound { path, cause } => PaperError::NotFound {
                path: path.clone(),
                cause: cause.clone(),
            },
            PaperError::UnsupportedType { ext } => PaperError::UnsupportedType { ext: ext.clone() },
            PaperError::EmptyOutput => PaperError::EmptyOutput,
            PaperError::Tool { message } => PaperError::Tool { message: message.clone() },
            PaperError::NoSavedOutput { output } => PaperError::NoSavedOutput {
                output: output.clone(),
            },
        }
    }

    /// The text this failure is reported with.
    pub fn message(&self) -> (r: String)
        ensures
            r@ == error_message(self@),
    {
        match self {
            PaperError::NotFound { path, cause } => String::from_str("not found: ").concat(
                path.as_str(),
            ).concat(": ").concat(cause.as_str()),
            PaperError::UnsupportedType { ext } => String::from_str(
                "unsupported file type '.",
            ).concat(ext.as_str()).concat(
                "' \u{2014} expected one of: png, jpg, jpeg, webp, gif, bmp",
            ),
            PaperError::EmptyOutput => String::from_str("output name is empty"),
            PaperError::Tool { message } => message.clone(),
            PaperError::NoSavedOutput { output } => String::from_str(
                "no wallpaper saved for output ",
            ).concat(output.as_str()),
        }
    }
}

} // verus!
