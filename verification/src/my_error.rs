//! The errors of the game.

use vstd::prelude::*;

verus! {

#[derive(Debug)]
pub enum MyError {
    InvalidCommandLineArgument { arg: String },
    InvalidGridSize { expr: String },
    LoggerInitializationFailed { tty_path: String },
    SaveFileNotFound { save_file_path: String },
    SaveFileFailedToLoad { save_file_path: String },
    SaveFileFailedToSave { save_file_path: String },
}

/// What an error says: its kind and the text it carries.
pub enum ErrorView {
    InvalidCommandLineArgument(Seq<char>),
    InvalidGridSize(Seq<char>),
    LoggerInitializationFailed(Seq<char>),
    SaveFileNotFound(Seq<char>),
    SaveFileFailedToLoad(Seq<char>),
    SaveFileFailedToSave(Seq<char>),
}

impl View for MyError {
    type V = ErrorView;

    open spec fn view(&self) -> ErrorView {
        match self {
            MyError::InvalidCommandLineArgument { arg } => ErrorView::InvalidCommandLineArgument(arg@),
            MyError::InvalidGridSize { expr } => ErrorView::InvalidGridSize(expr@),
            MyError::LoggerInitializationFailed { tty_path } => ErrorView::LoggerInitializationFailed(tty_path@),
            MyError::SaveFileNotFound { save_file_path } => ErrorView::SaveFileNotFound(save_file_path@),
            MyError::SaveFileFailedToLoad { save_file_path } => ErrorView::SaveFileFailedToLoad(save_file_path@),
            MyError::SaveFileFailedToSave { save_file_path } => ErrorView::SaveFileFailedToSave(save_file_path@),
        }
    }
}

/// The message that an error is shown with.
pub open spec fn error_message(e: ErrorView) -> Seq<char> {
    match e {
        ErrorView::InvalidCommandLineArgument(arg) => "Invalid command line argument: "@ + arg,
        ErrorView::InvalidGridSize(expr) => "Invalid grid size: "@ + expr
            + "\nGrid size must be two integers >= 2"@,
        ErrorView::LoggerInitializationFailed(tty_path) => "Could not initialize logger to TTY: "@
            + tty_path,
        ErrorView::SaveFileNotFound(path) => "Could not find save file: "@ + path,
        ErrorView::SaveFileFailedToLoad(path) => "Failed to load from corrupted save file: "@ + path,
        ErrorView::SaveFileFailedToSave(path) => "Failed to save to file: "@ + path,
    }
}

impl MyError {
    /// The message that the error is shown with.
    pub fn message(&self) -> (r: String)
        ensures
            r@ == error_message(self@),
    {
        match self {
            Self::InvalidCommandLineArgument { arg } => {
                let mut s = String::from_str("Invalid command line argument: ");
                s.append(arg.as_str());
                s
            },
            Self::InvalidGridSize { expr } => {
                let mut s = String::from_str("Invalid grid size: ");
                s.append(expr.as_str());
                s.append("\nGrid size must be two integers >= 2");
                s
            },
            Self::LoggerInitializationFailed { tty_path } => {
                let mut s = String::from_str("Could not initialize logger to TTY: ");
                s.append(tty_path.as_str());
                s
            },
            Self::SaveFileNotFound { save_file_path } => {
                let mut s = String::from_str("Could not find save file: ");
                s.append(save_file_path.as_str());
                s
            },
            Self::SaveFileFailedToLoad { save_file_path } => {
                let mut s = String::from_str("Failed to load from corrupted save file: ");
                s.append(save_file_path.as_str());
                s
            },
            Self::SaveFileFailedToSave { save_file_path } => {
                let mut s = String::from_str("Failed to save to file: ");
                s.append(save_file_path.as_str());
                s
            },
        }
    }
}

} // verus!
