//! Importing the bookmarks of a file.

use vstd::prelude::*;

verus! {

/// The arguments of the command that imports a file.
#[derive(Debug)]
pub struct ImportArgs {
    pub input_file: String,
    pub file_format: String,
    pub dry_run: bool,
    pub append_folder_tags: bool,
}

impl ImportArgs {
    /// The arguments, as given.
    pub fn new(input_file: String, file_format: String, dry_run: bool, append_folder_tags: bool)
        -> (r: ImportArgs)
        ensures
            r.input_file == input_file,
            r.file_format == file_format,
            r.dry_run == dry_run,
            r.append_folder_tags == append_folder_tags,
    {
        ImportArgs { input_file, file_format, dry_run, append_folder_tags }
    }
}

/// What is to be done with the file.
#[derive(Debug, Clone, Copy, PartialEq, Eq, Structural)]
pub enum ImportAction {
    /// Read it and show its bookmarks.
    Show,
    /// Read it and store its bookmarks.
    Store,
    /// Nothing: its format is not one that can be read.
    Refuse,
}

impl ImportArgs {
    /// What these arguments ask for: a dry run shows the bookmarks,
    /// whatever format is named; otherwise they are stored where the
    /// format is `netscape`, and the file is refused where it is not.
    pub open spec fn asks_for(&self) -> ImportAction {
        if self.dry_run {
            ImportAction::Show
        } else if self.file_format@ == "netscape"@ {
            ImportAction::Store
        } else {
            ImportAction::Refuse
        }
    }

    /// What these arguments ask for.
    #[verifier::when_used_as_spec(asks_for)]
    pub fn action(&self) -> (r: ImportAction)
        ensures
            r == self.asks_for(),
    {
        if self.dry_run {
            ImportAction::Show
        } else if self.file_format == "netscape".to_owned() {
            ImportAction::Store
        } else {
            ImportAction::Refuse
        }
    }
}

} // verus!
