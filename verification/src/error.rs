//! The error vocabulary shared by every keypath operation.

use vstd::prelude::*;
use vstd::string::*;

verus! {

/// Why a keypath operation did not produce a value.
#[derive(Debug, Clone, PartialEq)]
pub enum KeyPathError {
    /// A required field was absent.
    InvalidAccess { message: String },
    /// A value was present but of the wrong shape.
    TypeMismatch { expected: String, found: String },
    /// A collaborator failed.
    RuntimeFailure { message: String },
    /// A structural precondition on a collection was violated.
    CollectionError { message: String },
    /// The asynchronous strategy could not be set up or run.
    AsyncError { message: String },
    /// The parallel strategy could not be set up or run.
    ParallelError { message: String },
}

/// The result of every keypath operation.
pub type KeyPathResult<T> = Result<T, KeyPathError>;

/// What an error says, with its texts as character sequences.
pub enum ErrorView {
    InvalidAccess { message: Seq<char> },
    TypeMismatch { expected: Seq<char>, found: Seq<char> },
    RuntimeFailure { message: Seq<char> },
    CollectionError { message: Seq<char> },
    AsyncError { message: Seq<char> },
    ParallelError { message: Seq<char> },
}

impl View for KeyPathError {
    type V = ErrorView;

    open spec fn view(&self) -> ErrorView {
        match *self {
            KeyPathError::InvalidAccess { message } => ErrorView::InvalidAccess {
                message: message@,
            },
            KeyPathError::TypeMismatch { expected, found } => ErrorView::TypeMismatch {
                expected: expected@,
                found: found@,
            },
            KeyPathError::RuntimeFailure { message } => ErrorView::RuntimeFailure {
                message: message@,
            },
            KeyPathError::CollectionError { message } => ErrorView::CollectionError {
                message: message@,
            },
            KeyPathError::AsyncError { message } => ErrorView::AsyncError { message: message@ },
            KeyPathError::ParallelError { message } => ErrorView::ParallelError {
                message: message@,
            },
        }
    }
}

/// The text an error is shown as: what kind it is, then what it says.
pub open spec fn description(e: ErrorView) -> Seq<char> {
    match e {
        ErrorView::InvalidAccess { message } => "Invalid keypath access: "@ + message,
        ErrorView::TypeMismatch { expected, found } => "Type mismatch: expected "@ + expected
            + ", found "@ + found,
        ErrorView::RuntimeFailure { message } => "Runtime failure: "@ + message,
        ErrorView::CollectionError { message } => "Collection operation failed: "@ + message,
        ErrorView::AsyncError { message } => "Async operation failed: "@ + message,
        ErrorView::ParallelError { message } => "Parallel operation failed: "@ + message,
    }
}

impl KeyPathError {
    /// The error as a line of text.
    pub fn describe(&self) -> (text: String)
        ensures
            text@ == description(self@),
    {
        match self {
            KeyPathError::InvalidAccess { message } => {
                String::from_str("Invalid keypath access: ").concat(message.as_str())
            },
            KeyPathError::TypeMismatch { expected, found } => {
                String::from_str("Type mismatch: expected ").concat(expected.as_str()).concat(
                    ", found ",
                ).concat(found.as_str())
            },
            KeyPathError::RuntimeFailure { message } => {
                String::from_str("Runtime failure: ").concat(message.as_str())
            },
            KeyPathError::CollectionError { message } => {
                String::from_str("Collection operation failed: ").concat(message.as_str())
            },
            KeyPathError::AsyncError { message } => {
                String::from_str("Async operation failed: ").concat(message.as_str())
            },
            KeyPathError::ParallelError { message } => {
                String::from_str("Parallel operation failed: ").concat(message.as_str())
            },
        }
    }
}

/// The error every operation reports when a required field is absent.
pub open spec fn access_failed() -> ErrorView {
    ErrorView::InvalidAccess { message: "KeyPath access failed"@ }
}

/// The error for an operation that needs at least one item and got none.
pub open spec fn collection_empty() -> ErrorView {
    ErrorView::CollectionError { message: "Collection is empty"@ }
}

/// The error for a window that is empty or wider than the collection.
pub open spec fn window_invalid(width: nat) -> ErrorView {
    ErrorView::CollectionError { message: "Invalid window size: "@ + decimal_text(width) }
}

/// The error for a rolling window of no width.
pub open spec fn window_empty() -> ErrorView {
    ErrorView::CollectionError { message: "Window size must be greater than 0"@ }
}

/// The character of one decimal digit.
pub open spec fn digit_char(d: nat) -> char {
    if d == 0 {
        '0'
    } else if d == 1 {
        '1'
    } else if d == 2 {
        '2'
    } else if d == 3 {
        '3'
    } else if d == 4 {
        '4'
    } else if d == 5 {
        '5'
    } else if d == 6 {
        '6'
    } else if d == 7 {
        '7'
    } else if d == 8 {
        '8'
    } else {
        '9'
    }
}

/// A number in decimal digits, without leading zeros.
pub open spec fn decimal_text(n: nat) -> Seq<char>
    decreases n,
{
    if n < 10 {
        seq![digit_char(n)]
    } else {
        decimal_text(n / 10).push(digit_char(n % 10))
    }
}

fn digit(d: usize) -> (s: &'static str)
    requires
        d < 10,
    ensures
        s@ == seq![digit_char(d as nat)],
{
    proof {
        reveal_strlit("0");
        reveal_strlit("1");
        reveal_strlit("2");
        reveal_strlit("3");
        reveal_strlit("4");
        reveal_strlit("5");
        reveal_strlit("6");
        reveal_strlit("7");
        reveal_strlit("8");
        reveal_strlit("9");
    }
    let s = if d == 0 {
        "0"
    } else if d == 1 {
        "1"
    } else if d == 2 {
        "2"
    } else if d == 3 {
        "3"
    } else if d == 4 {
        "4"
    } else if d == 5 {
        "5"
    } else if d == 6 {
        "6"
    } else if d == 7 {
        "7"
    } else if d == 8 {
        "8"
    } else {
        "9"
    };
    assert(s@ =~= seq![digit_char(d as nat)]);
    s
}

/// Writes a number in decimal digits.
pub fn decimal(n: usize) -> (text: String)
    ensures
        text@ == decimal_text(n as nat),
    decreases n,
{
    if n < 10 {
        String::from_str(digit(n))
    } else {
        let text = decimal(n / 10).concat(digit(n % 10));
        assert(text@ =~= decimal_text(n as nat));
        text
    }
}

/// Builds the error for a window that is empty or wider than the collection.
pub fn invalid_window(width: usize) -> (e: KeyPathError)
    ensures
        e@ == window_invalid(width as nat),
{
    let text = decimal(width);
    KeyPathError::CollectionError {
        message: String::from_str("Invalid window size: ").concat(text.as_str()),
    }
}

/// Builds the error for a rolling window of no width.
pub fn empty_window() -> (e: KeyPathError)
    ensures
        e@ == window_empty(),
{
    KeyPathError::CollectionError {
        message: String::from_str("Window size must be greater than 0"),
    }
}

/// Builds the error for an absent field.
pub fn access_failure() -> (e: KeyPathError)
    ensures
        e@ == access_failed(),
{
    KeyPathError::InvalidAccess { message: String::from_str("KeyPath access failed") }
}

/// Conversion of anything that can be shown as text into this library's vocabulary.
pub trait IntoKeyPathError {
    /// The error, as a `RuntimeFailure`.
    fn into_keypath_error(self) -> (e: KeyPathError)
        ensures
            e is RuntimeFailure,
    ;
}

impl<E: core::fmt::Display> IntoKeyPathError for E {
    /// The message is the error's own text.
    fn into_keypath_error(self) -> (e: KeyPathError)
        ensures
            to_string_from_display_ensures::<E>(&self, e->RuntimeFailure_message),
    {
        KeyPathError::RuntimeFailure { message: self.to_string() }
    }
}

/// Accepts any value: reading through an accessor cannot fault, so there is
/// nothing to rule out beforehand.
pub fn validate_keypath_access<T>(_data: &T) -> (result: KeyPathResult<()>)
    ensures
        result is Ok,
{
    Ok(())
}

/// Accepts a collection with at least one item.
pub fn validate_collection_operation<T>(collection: &[T]) -> (result: KeyPathResult<()>)
    ensures
        result is Ok <==> collection@.len() > 0,
        result matches Err(e) ==> e@ == collection_empty(),
{
    if collection.len() == 0 {
        return Err(
            KeyPathError::CollectionError { message: String::from_str("Collection is empty") },
        );
    }
    Ok(())
}

} // verus!
