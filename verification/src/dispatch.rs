//! From a command line to one operation of the store, and from the loaded
//! records to what the operation asks of its caller.

use crate::bookmark::Bookmark;
use crate::error::ErrorKind;
use crate::error::ManagerError;
use crate::model::add_outcome;
use crate::model::entries;
use crate::model::OutcomeView;
use crate::model::query_outcome;
use crate::model::remove_outcome;
use crate::store::add_bookmark;
use crate::store::loaded_or_empty;
use crate::store::Outcome;
use crate::store::query_bookmark;
use crate::store::remove_bookmark;
use vstd::prelude::*;

verus! {

/// The arguments of a subcommand, as far as they were given.
#[derive(Clone, Debug)]
pub struct Arguments {
    /// The name of the bookmark.
    pub name: Option<String>,
    /// The bit pattern of the offset, where an offset was given and reads as
    /// a 64-bit binary floating-point number.
    pub offset: Option<u64>,
}

/// What a command line holds.
#[derive(Clone, Debug)]
pub struct Request {
    /// The name of the subcommand, where one was given.
    pub subcommand: Option<String>,
    /// The path of the backing file.
    pub file: Option<String>,
    /// The arguments of the subcommand, where one was given.
    pub arguments: Option<Arguments>,
}

/// One operation of the store with its arguments.
#[derive(Clone, Debug)]
pub enum Operation {
    /// Add a bookmark of this name, or set the offset of the one that bears
    /// it.
    Add { name: String, offset: u64 },
    /// Remove the bookmark of this name.
    Remove { name: String },
    /// Report the bookmark of this name.
    Query { name: String },
}

/// The backing file and the operation to run on what it holds.
#[derive(Clone, Debug)]
pub struct Plan {
    pub file: String,
    pub operation: Operation,
}

/// Where a reported bookmark is written.
#[derive(Clone, Debug)]
pub enum Sink {
    /// The standard output.
    Standard,
    /// The file of this path.
    File(String),
}

/// The plan that a request with the arguments of `add` leads to, or the
/// message of the usage error.
pub open spec fn planned_add(request: Request) -> Result<Plan, Seq<char>> {
    if request.file is None {
        Err("The argument 'file' wasn't found"@)
    } else if request.arguments is None {
        Err("Failed to find add subcommand"@)
    } else if request.arguments->0.name is None {
        Err("The argument 'name' wasn't found"@)
    } else if request.arguments->0.name->0@.len() == 0 {
        Err("The argument 'name' is empty"@)
    } else if request.arguments->0.offset is None {
        Err("The argument 'offset' wasn't found or isn't a valid value"@)
    } else {
        Ok(
            Plan {
                file: request.file->0,
                operation: Operation::Add {
                    name: request.arguments->0.name->0,
                    offset: request.arguments->0.offset->0,
                },
            },
        )
    }
}

/// The plan that a request with the arguments of `remove` leads to, or the
/// message of the usage error.
pub open spec fn planned_remove(request: Request) -> Result<Plan, Seq<char>> {
    if request.file is None {
        Err("The argument 'file' wasn't found"@)
    } else if request.arguments is None {
        Err("Failed to find remove subcommand"@)
    } else if request.arguments->0.name is None {
        Err("The argument 'name' wasn't found"@)
    } else {
        Ok(
            Plan {
                file: request.file->0,
                operation: Operation::Remove { name: request.arguments->0.name->0 },
            },
        )
    }
}

/// The plan that a request with the arguments of `query` leads to, or the
/// message of the usage error.
pub open spec fn planned_query(request: Request) -> Result<Plan, Seq<char>> {
    if request.file is None {
        Err("The argument 'file' wasn't found"@)
    } else if request.arguments is None {
        Err("Failed to find query subcommand"@)
    } else if request.arguments->0.name is None {
        Err("The argument 'name' wasn't found"@)
    } else {
        Ok(
            Plan {
                file: request.file->0,
                operation: Operation::Query { name: request.arguments->0.name->0 },
            },
        )
    }
}

/// The plan that a request leads to, or the message of the usage error. The
/// subcommand decides; of several faults the first in the order file,
/// subcommand arguments, name, offset is reported.
pub open spec fn planned(request: Request) -> Result<Plan, Seq<char>> {
    if request.subcommand is Some && request.subcommand->0@ == "add"@ {
        planned_add(request)
    } else if request.subcommand is Some && request.subcommand->0@ == "remove"@ {
        planned_remove(request)
    } else if request.subcommand is Some && request.subcommand->0@ == "query"@ {
        planned_query(request)
    } else {
        Err("Unable to match subcommand"@)
    }
}

/// Whether a result is the plan, or the usage error of the message, that
/// `expected` holds.
pub open spec fn is_planned(
    result: Result<Plan, ManagerError>,
    expected: Result<Plan, Seq<char>>,
) -> bool {
    match expected {
        Ok(plan) => result == Ok::<Plan, ManagerError>(plan),
        Err(message) => result is Err && result->Err_0.kind == ErrorKind::Usage
            && result->Err_0.message@ == message,
    }
}

/// Tells whether the text is the given word.
fn is_word(text: &String, word: &str) -> (same: bool)
    ensures
        same == (text@ == word@),
{
    *text == word.to_owned()
}

/// A usage error with the given message.
fn usage(message: &str) -> (error: ManagerError)
    ensures
        error.kind == ErrorKind::Usage,
        error.message@ == message@,
{
    ManagerError::of_kind(ErrorKind::Usage, message.to_owned())
}

/// The file, the name and the offset that were given, or the usage error
/// for the file, the arguments or the name, whichever is missing first.
/// `missing` is the message for a subcommand without arguments.
fn given(file: Option<String>, arguments: Option<Arguments>, missing: &str) -> (result: Result<
    (String, String, Option<u64>),
    ManagerError,
>)
    ensures
        match result {
            Ok((path, name, offset)) => file == Some(path) && arguments == Some(
                Arguments { name: Some(name), offset },
            ),
            Err(error) => error.kind == ErrorKind::Usage && if file is None {
                error.message@ == "The argument 'file' wasn't found"@
            } else if arguments is None {
                error.message@ == missing@
            } else {
                arguments->0.name is None && error.message@ == "The argument 'name' wasn't found"@
            },
        },
{
    let path = match file {
        Some(path) => path,
        None => { return Err(usage("The argument 'file' wasn't found")); },
    };
    let Arguments { name, offset } = match arguments {
        Some(arguments) => arguments,
        None => { return Err(usage(missing)); },
    };
    match name {
        Some(name) => Ok((path, name, offset)),
        None => Err(usage("The argument 'name' wasn't found")),
    }
}

/// Maps a command line onto one operation of the store and the file to run
/// it on. A command line that names none of `add`, `remove` and `query`, or
/// lacks the file or the name, or asks for an addition under an empty name
/// or without a readable offset, is a usage error; the store is not touched
/// for it.
pub fn control(request: Request) -> (result: Result<Plan, ManagerError>)
    ensures
        is_planned(result, planned(request)),
{
    let Request { subcommand, file, arguments } = request;
    let subcommand = match subcommand {
        Some(subcommand) => subcommand,
        None => { return Err(usage("Unable to match subcommand")); },
    };
    if is_word(&subcommand, "add") {
        match given(file, arguments, "Failed to find add subcommand") {
            Ok((file, name, offset)) => if name.as_str().is_empty() {
                Err(usage("The argument 'name' is empty"))
            } else {
                match offset {
                    Some(offset) => Ok(Plan { file, operation: Operation::Add { name, offset } }),
                    None => Err(
                        usage("The argument 'offset' wasn't found or isn't a valid value"),
                    ),
                }
            },
            Err(error) => Err(error),
        }
    } else if is_word(&subcommand, "remove") {
        match given(file, arguments, "Failed to find remove subcommand") {
            Ok((file, name, _)) => Ok(Plan { file, operation: Operation::Remove { name } }),
            Err(error) => Err(error),
        }
    } else if is_word(&subcommand, "query") {
        match given(file, arguments, "Failed to find query subcommand") {
            Ok((file, name, _)) => Ok(Plan { file, operation: Operation::Query { name } }),
            Err(error) => Err(error),
        }
    } else {
        Err(usage("Unable to match subcommand"))
    }
}

/// What running an operation on the loaded records asks of the caller, as
/// entries, or the failure of the load. Only an addition survives a failed
/// load: it starts from an empty store.
pub open spec fn outcome_of(
    operation: Operation,
    loaded: Result<Vec<Bookmark>, ManagerError>,
) -> Result<OutcomeView, ManagerError> {
    match operation {
        Operation::Add { name, offset } => Ok(add_outcome(loaded_or_empty(loaded), name@, offset)),
        Operation::Remove { name } => match loaded {
            Ok(bookmarks) => Ok(remove_outcome(entries(bookmarks@), name@)),
            Err(error) => Err(error),
        },
        Operation::Query { name } => match loaded {
            Ok(bookmarks) => Ok(query_outcome(entries(bookmarks@), name@)),
            Err(error) => Err(error),
        },
    }
}

/// A result with its outcome as entries.
pub open spec fn outcome_view(result: Result<Outcome, ManagerError>) -> Result<
    OutcomeView,
    ManagerError,
> {
    match result {
        Ok(outcome) => Ok(outcome@),
        Err(error) => Err(error),
    }
}

impl Operation {
    /// Tells whether the backing file is created where it does not exist:
    /// only an addition creates it.
    pub fn creates_file(&self) -> (creates: bool)
        ensures
            creates == (self is Add),
    {
        match self {
            Operation::Add { .. } => true,
            _ => false,
        }
    }

    /// Runs the operation on the records that were loaded from the backing
    /// file, or on the failure to load them.
    pub fn apply(self, loaded: Result<Vec<Bookmark>, ManagerError>) -> (result: Result<
        Outcome,
        ManagerError,
    >)
        ensures
            outcome_view(result) == outcome_of(self, loaded),
    {
        match self {
            Operation::Add { name, offset } => Ok(add_bookmark(loaded, name, offset)),
            Operation::Remove { name } => remove_bookmark(loaded, name),
            Operation::Query { name } => query_bookmark(loaded, name),
        }
    }
}

/// The sink for an output path: the standard output for `-` and where no
/// path was given, else the file of that path.
pub fn output_sink(path: Option<String>) -> (sink: Sink)
    ensures
        sink == (if path is Some && path->0@ != "-"@ {
            Sink::File(path->0)
        } else {
            Sink::Standard
        }),
{
    match path {
        Some(path) => if is_word(&path, "-") {
            Sink::Standard
        } else {
            Sink::File(path)
        },
        None => Sink::Standard,
    }
}

} // verus!
