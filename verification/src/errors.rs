//! Application error type, passed between threads in structured form.
use vstd::prelude::*;

verus! {

/// Application-level error. The view layer picks a translated message by
/// variant through `i18n_key`.
#[derive(Debug)]
pub enum AppError {
    Io(std::io::Error),
    UnsupportedFormat(String),
    Decode(String),
    Encode(String),
    /// Memory budget guard: the decoded RGBA total exceeds the budget.
    TooLarge { needed: u64, budget: u64 },
    Other(String),
}

/// The translation key of each error variant.
pub open spec fn error_key(e: &AppError) -> Seq<char> {
    match e {
        AppError::Io(_) => "error.io"@,
        AppError::UnsupportedFormat(_) => "error.unsupported"@,
        AppError::Decode(_) => "error.decode"@,
        AppError::Encode(_) => "error.encode"@,
        AppError::TooLarge { .. } => "error.too_large"@,
        AppError::Other(_) => "error.other"@,
    }
}

impl AppError {
    /// Translation key for the message shown to the user.
    pub fn i18n_key(&self) -> (r: &str)
        ensures
            r@ == error_key(self),
    {
        match self {
            AppError::Io(_) => "error.io",
            AppError::UnsupportedFormat(_) => "error.unsupported",
            AppError::Decode(_) => "error.decode",
            AppError::Encode(_) => "error.encode",
            AppError::TooLarge { .. } => "error.too_large",
            AppError::Other(_) => "error.other",
        }
    }
}

} // verus!
