//! What the program is asked to do: the commands and their arguments, as
//! plain values.

use vstd::prelude::*;
use crate::subcommands::add::AddArgs;
use crate::subcommands::delete::DeleteArgs;
use crate::subcommands::edit::EditArgs;
use crate::subcommands::import::ImportArgs;
use crate::subcommands::ls::ListArgs;
use crate::subcommands::tag::TagArgs;
use crate::subcommands::update::UpdateArgs;

verus! {

/// How a list of bookmarks is shown.
#[derive(Debug, Copy, Clone, PartialEq, Eq, PartialOrd, Ord, Structural)]
pub enum OutputType {
    /// As a table.
    Table,
    /// One line for each bookmark, made from a format string.
    FormatString,
}

/// One command, with its arguments.
#[derive(Debug)]
pub enum Commands {
    /// Add a new bookmark.
    Add { name: String, link: String, tags: Vec<String>, description: Option<String> },
    /// List the bookmarks that have one of `tags` and lie on one of
    /// `domains`.
    List { output_type: OutputType, format_string: String, tags: Vec<String>, domains: Vec<String> },
    /// Edit one bookmark.
    Edit { tags: Vec<String>, domains: Vec<String> },
    /// Bring the details of bookmarks up to date with their pages; `yes`
    /// to do so without asking.
    Update { tags: Vec<String>, domains: Vec<String>, yes: bool },
    /// Import the bookmarks of a file; with `dry_run` only show them.
    Import { input_file: String, file_format: String, dry_run: bool, append_folder_tags: bool },
    /// Delete bookmarks.
    Delete { tags: Vec<String>, domains: Vec<String> },
    /// Rename or delete a tag.
    Tag { name: String, rename: Option<String>, delete: bool },
}

/// The command line, read.
#[derive(Debug)]
pub struct App {
    /// Whether to report what is done.
    pub verbose: bool,
    /// What to do.
    pub command: Commands,
}

impl OutputType {
    /// The name that the command line has for this way of showing.
    pub open spec fn name(self) -> Seq<char> {
        match self {
            OutputType::Table => "table"@,
            OutputType::FormatString => "format-string"@,
        }
    }

    /// The name that the command line has for this way of showing.
    pub fn as_str(&self) -> (r: &'static str)
        ensures
            r@ == self.name(),
    {
        match self {
            OutputType::Table => "table",
            OutputType::FormatString => "format-string",
        }
    }
}

/// The way of showing that `name` names, if it names one.
pub open spec fn output_type_of(name: Seq<char>) -> Option<OutputType> {
    if name == "table"@ {
        Some(OutputType::Table)
    } else if name == "format-string"@ {
        Some(OutputType::FormatString)
    } else {
        None
    }
}

/// A name of a way of showing reads as that way.
pub proof fn lemma_output_type_round_trip(t: OutputType)
    ensures
        output_type_of(t.name()) == Some(t),
{
    reveal_strlit("table");
    reveal_strlit("format-string");
    assert("table"@.len() == 5);
    assert("format-string"@.len() == 13);
}

/// One command, ready to run: the arguments that its module works on.
#[derive(Debug)]
pub enum Invocation {
    Add(AddArgs),
    List(ListArgs),
    Edit(EditArgs),
    Update(UpdateArgs),
    Import(ImportArgs),
    Delete(DeleteArgs),
    Tag(TagArgs),
}

/// The arguments that the module of `command` works on. The way of showing
/// a list is handed on by its name; a tag command names its tag and never
/// asks for the list of tags.
pub fn dispatch(command: Commands) -> (r: Invocation)
    ensures
        match command {
            Commands::Add { name, link, tags, description } => r matches Invocation::Add(a)
                && a.name == name && a.link == link && a.tags == tags && a.description
                == description,
            Commands::List { output_type, format_string, tags, domains } => r matches Invocation::List(
                a,
            ) && a.output_type@ == output_type.name() && a.format_string == format_string
                && a.tags == tags && a.domains == domains,
            Commands::Edit { tags, domains } => r matches Invocation::Edit(a) && a.tags == tags
                && a.domains == domains,
            Commands::Update { tags, domains, yes } => r matches Invocation::Update(a) && a.tags
                == tags && a.domains == domains && a.yes == yes,
            Commands::Import {
                input_file,
                file_format,
                dry_run,
                append_folder_tags,
            } => r matches Invocation::Import(a) && a.input_file == input_file && a.file_format
                == file_format && a.dry_run == dry_run && a.append_folder_tags
                == append_folder_tags,
            Commands::Delete { tags, domains } => r matches Invocation::Delete(a) && a.tags
                == tags && a.domains == domains,
            Commands::Tag { name, rename, delete } => r matches Invocation::Tag(a) && a.name
                == Some(name) && !a.list && a.rename == rename && a.delete == delete,
        },
{
    match command {
        Commands::Add { name, link, tags, description } => Invocation::Add(
            AddArgs::new(name, link, tags, description),
        ),
        Commands::List { output_type, format_string, tags, domains } => Invocation::List(
            ListArgs::new(output_type.as_str().to_owned(), format_string, tags, domains),
        ),
        Commands::Edit { tags, domains } => Invocation::Edit(EditArgs::new(tags, domains)),
        Commands::Update { tags, domains, yes } => Invocation::Update(
            UpdateArgs::new(tags, domains, yes),
        ),
        Commands::Import { input_file, file_format, dry_run, append_folder_tags } => Invocation::Import(
            ImportArgs::new(input_file, file_format, dry_run, append_folder_tags),
        ),
        Commands::Delete { tags, domains } => Invocation::Delete(DeleteArgs::new(tags, domains)),
        Commands::Tag { name, rename, delete } => Invocation::Tag(
            TagArgs::new(Some(name), false, rename, delete),
        ),
    }
}

} // verus!
