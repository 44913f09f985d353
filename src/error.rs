use vstd::prelude::*;

use crate::worker::{int_string, int_text};

verus! {

/// Failures of the sandboxed file layer and of the worker bridge.
#[derive(Debug, Clone)]
pub enum AppError {
    /// The supplied relative path is empty after trimming.
    InvalidPath,
    /// The path would leave the project root.
    PathEscape,
    /// A named file or record does not exist.
    NotFound,
    /// No active session.
    Unauthorized,
    /// The worker's installation root could not be located.
    WorkerNotFound,
    /// The worker exited unsuccessfully.
    WorkerFailed { code: Option<i32>, message: String },
    /// The worker exited successfully but its output was not the expected JSON.
    WorkerProtocolError,
    /// An operating-system error, described in one line.
    IoFailure { message: String },
    /// Any other user-facing failure.
    Message(String),
}

pub type AppResult<T> = Result<T, AppError>;

/// The one-line text shown to a user for each failure.
pub open spec fn message_of(e: AppError) -> Seq<char> {
    match e {
        AppError::InvalidPath => "File path cannot be empty"@,
        AppError::PathEscape => "File path must stay inside the project directory"@,
        AppError::NotFound => "Not found"@,
        AppError::Unauthorized => "Unauthorized"@,
        AppError::WorkerNotFound => "Unable to locate ML toolkit. Set SCRIPTWRITER_ML_ROOT to your ml directory"@,
        AppError::WorkerFailed { code, message } => match code {
            Some(c) => "Worker exited with status "@ + int_text(c as int) + ": "@ + message@,
            None => "Worker was stopped: "@ + message@,
        },
        AppError::WorkerProtocolError => "Worker returned malformed output"@,
        AppError::IoFailure { message } => message@,
        AppError::Message(m) => m@,
    }
}

impl AppError {
    /// The text shown to a user.
    pub fn message(&self) -> (r: String)
        ensures
            r@ == message_of(*self),
    {
        match self {
            AppError::InvalidPath => String::from_str("File path cannot be empty"),
            AppError::PathEscape => String::from_str("File path must stay inside the project directory"),
            AppError::NotFound => String::from_str("Not found"),
            AppError::Unauthorized => String::from_str("Unauthorized"),
            AppError::WorkerNotFound => String::from_str(
                "Unable to locate ML toolkit. Set SCRIPTWRITER_ML_ROOT to your ml directory",
            ),
            AppError::WorkerFailed { code, message } => match code {
                Some(c) => {
                    let mut r = String::from_str("Worker exited with status ");
                    let n = int_string(*c);
                    r.append(n.as_str());
                    r.append(": ");
                    r.append(message.as_str());
                    r
                },
                None => {
                    let mut r = String::from_str("Worker was stopped: ");
                    r.append(message.as_str());
                    r
                },
            },
            AppError::WorkerProtocolError => String::from_str("Worker returned malformed output"),
            AppError::IoFailure { message } => String::from_str(message.as_str()),
            AppError::Message(m) => String::from_str(m.as_str()),
        }
    }
}

} // verus!
