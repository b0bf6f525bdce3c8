//! Where the editor keeps its history, and the failures that end an
//! invocation.

use vstd::prelude::*;
use vstd::string::*;

verus! {

/// A failure that ends the invocation without a document.
#[derive(Debug)]
pub enum Failure {
    /// The configuration directory cannot be found.
    ConfigUnavailable,
    /// The history cannot be opened or queried; holds the cause.
    StorageUnavailable(String),
    /// The document cannot be written; holds the cause.
    Serialization(String),
}

/// The path of the history below the configuration directory.
pub open spec fn db_path() -> Seq<char> {
    "/Zed/db/0-stable/db.sqlite"@
}

/// What `message` says before the cause of a failure.
pub open spec fn failure_prefix(failure: Failure) -> Seq<char> {
    match failure {
        Failure::ConfigUnavailable => "configuration directory not found"@,
        Failure::StorageUnavailable(_) => "history unavailable: "@,
        Failure::Serialization(_) => "cannot write the result: "@,
    }
}

/// The cause that a failure holds; empty where it holds none.
pub open spec fn failure_cause(failure: Failure) -> Seq<char> {
    match failure {
        Failure::ConfigUnavailable => Seq::empty(),
        Failure::StorageUnavailable(cause) => cause@,
        Failure::Serialization(cause) => cause@,
    }
}

impl Failure {
    /// The failure in words, for the standard error stream.
    pub fn message(&self) -> (r: String)
        ensures
            r@ == failure_prefix(*self) + failure_cause(*self),
    {
        match self {
            Failure::ConfigUnavailable => {
                let r: String = "configuration directory not found".to_owned();
                proof {
                    assert(r@ + Seq::<char>::empty() =~= r@);
                }
                r
            },
            Failure::StorageUnavailable(cause) => "history unavailable: ".to_owned().concat(
                cause.as_str(),
            ),
            Failure::Serialization(cause) => "cannot write the result: ".to_owned().concat(
                cause.as_str(),
            ),
        }
    }
}

/// The path of the history: the fixed path below the configuration
/// directory, or `ConfigUnavailable` where there is no such directory.
pub fn history_database_path(config_dir: Option<String>) -> (r: Result<String, Failure>)
    ensures
        match config_dir {
            Some(dir) => r matches Ok(path) && path@ == dir@ + db_path(),
            None => r matches Err(Failure::ConfigUnavailable),
        },
{
    match config_dir {
        Some(dir) => Ok(dir.concat("/Zed/db/0-stable/db.sqlite")),
        None => Err(Failure::ConfigUnavailable),
    }
}

} // verus!
