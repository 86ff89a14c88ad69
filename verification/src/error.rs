//! Errors of the library.

use vstd::prelude::*;

verus! {

/// Why a request was refused or could not be carried out.
#[derive(Debug)]
pub enum AppError {
    /// The request breaks a rule.
    Validation(String),
    /// The request names something that is not there.
    NotFound(String),
    /// A secret could not be encrypted or decrypted.
    Crypto(String),
    /// Anything else.
    Internal(String),
}

/// What an [`AppError`] says.
pub enum AppErrorModel {
    Validation(Seq<char>),
    NotFound(Seq<char>),
    Crypto(Seq<char>),
    Internal(Seq<char>),
}

impl View for AppError {
    type V = AppErrorModel;

    open spec fn view(&self) -> AppErrorModel {
        match self {
            AppError::Validation(message) => AppErrorModel::Validation(message@),
            AppError::NotFound(message) => AppErrorModel::NotFound(message@),
            AppError::Crypto(message) => AppErrorModel::Crypto(message@),
            AppError::Internal(message) => AppErrorModel::Internal(message@),
        }
    }
}

/// The result of an operation that may fail.
pub type AppResult<T> = Result<T, AppError>;

/// A result by what its value or its error holds.
pub open spec fn outcome<T: DeepView>(r: AppResult<T>) -> Result<T::V, AppErrorModel> {
    match r {
        Ok(value) => Ok(value.deep_view()),
        Err(error) => Err(error@),
    }
}

impl AppError {
    /// The error for a lock whose holder panicked.
    pub fn lock(name: &str) -> (r: AppError)
        ensures
            r@ == AppErrorModel::Internal(name@ + " lock is poisoned"@),
    {
        let mut message = name.to_owned();
        message.append(" lock is poisoned");
        AppError::Internal(message)
    }

    /// The message of the error.
    pub fn message(&self) -> (r: &str)
        ensures
            match self@ {
                AppErrorModel::Validation(m) => r@ == m,
                AppErrorModel::NotFound(m) => r@ == m,
                AppErrorModel::Crypto(m) => r@ == m,
                AppErrorModel::Internal(m) => r@ == m,
            },
    {
        match self {
            AppError::Validation(m) => m.as_str(),
            AppError::NotFound(m) => m.as_str(),
            AppError::Crypto(m) => m.as_str(),
            AppError::Internal(m) => m.as_str(),
        }
    }
}

} // verus!
