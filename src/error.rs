use vstd::prelude::*;

verus! {

/// The three kinds of failure, each with a human-readable message.
#[derive(Debug, Clone, PartialEq, Eq)]
pub enum AppError {
    InvalidInput(String),
    InvalidData(String),
    Io(String),
}

impl AppError {
    /// The message carried by the error, whatever its kind.
    pub open spec fn spec_message(&self) -> Seq<char> {
        match self {
            AppError::InvalidInput(m) => m@,
            AppError::InvalidData(m) => m@,
            AppError::Io(m) => m@,
        }
    }

    /// The stable code of the error's kind.
    pub open spec fn spec_code(&self) -> Seq<char> {
        match self {
            AppError::InvalidInput(_) => "invalid_input"@,
            AppError::InvalidData(_) => "invalid_data"@,
            AppError::Io(_) => "io_error"@,
        }
    }

    pub fn invalid_input(message: &str) -> (r: Self)
        ensures
            r is InvalidInput,
            r.spec_message() == message@,
    {
        AppError::InvalidInput(message.to_owned())
    }

    pub fn invalid_data(message: &str) -> (r: Self)
        ensures
            r is InvalidData,
            r.spec_message() == message@,
    {
        AppError::InvalidData(message.to_owned())
    }

    pub fn io(message: &str) -> (r: Self)
        ensures
            r is Io,
            r.spec_message() == message@,
    {
        AppError::Io(message.to_owned())
    }

    pub fn code(&self) -> (r: &'static str)
        ensures
            r@ == self.spec_code(),
    {
        match self {
            AppError::InvalidInput(_) => "invalid_input",
            AppError::InvalidData(_) => "invalid_data",
            AppError::Io(_) => "io_error",
        }
    }

    pub fn message(&self) -> (r: &str)
        ensures
            r@ == self.spec_message(),
    {
        match self {
            AppError::InvalidInput(m) => m.as_str(),
            AppError::InvalidData(m) => m.as_str(),
            AppError::Io(m) => m.as_str(),
        }
    }
}

/// `r` failed with an invalid-input error carrying `msg`.
pub open spec fn fails_input<T>(r: Result<T, AppError>, msg: Seq<char>) -> bool {
    &&& r is Err
    &&& r->Err_0 is InvalidInput
    &&& r->Err_0.spec_message() == msg
}

/// `r` failed with an invalid-data error carrying `msg`.
pub open spec fn fails_data<T>(r: Result<T, AppError>, msg: Seq<char>) -> bool {
    &&& r is Err
    &&& r->Err_0 is InvalidData
    &&& r->Err_0.spec_message() == msg
}

} // verus!
