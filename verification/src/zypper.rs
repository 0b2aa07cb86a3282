//! Running `zypper`: the command line, the outcome of a run, and the errors
//! that a listing can end in.

use vstd::prelude::*;

use crate::patch::{listed_patches, Patch, PatchList};
use crate::text::{from_utf8_lossy, i32_to_decimal, signed_decimal, utf8_lossy};

verus! {

/// Why a listing of patches failed.
#[derive(Clone, Debug, PartialEq, Eq)]
pub enum ZypperError {
    /// `zypper` could not be started; the text of the operating system's error.
    Start(String),
    /// `zypper` ran and reported failure: its exit code, if it had one, and what
    /// it wrote to standard error.
    Failed { status: Option<i32>, stderr: String },
    /// The output was not the expected XML; the text of the parser's error.
    InvalidXml(String),
}

/// `{:?}` of an optional exit code: `None`, or `Some(` the code `)`.
pub open spec fn status_debug(status: Option<i32>) -> Seq<char> {
    match status {
        Some(code) => "Some("@ + signed_decimal(code as int) + ")"@,
        None => "None"@,
    }
}

/// The message that describes an error to the user.
pub open spec fn error_message(e: ZypperError) -> Seq<char> {
    match e {
        ZypperError::Start(error) => "could not start zypper: "@ + error@,
        ZypperError::Failed { status, stderr } => "zypper failed with status "@ + status_debug(
            status,
        ) + ": "@ + stderr@,
        ZypperError::InvalidXml(error) => "zypper returned invalid XML: "@ + error@,
    }
}

/// The arguments of the listing command: `--xmlout lp`, and `-a` to include
/// the patches that are no longer relevant.
pub open spec fn zypper_arguments_spec(include_all: bool) -> Seq<Seq<char>> {
    if include_all {
        seq!["--xmlout"@, "lp"@, "-a"@]
    } else {
        seq!["--xmlout"@, "lp"@]
    }
}

/// `{:?}` of an optional exit code.
pub fn status_debug_text(status: Option<i32>) -> (r: String)
    ensures
        r@ == status_debug(status),
{
    match status {
        Some(code) => {
            let mut r = String::from_str("Some(");
            let digits = i32_to_decimal(code);
            r.append(digits.as_str());
            r.append(")");
            r
        },
        None => String::from_str("None"),
    }
}

impl ZypperError {
    /// The message that describes the error to the user (what the error displays).
    pub fn message(&self) -> (r: String)
        ensures
            r@ == error_message(*self),
    {
        match self {
            ZypperError::Start(error) => {
                let mut r = String::from_str("could not start zypper: ");
                r.append(error.as_str());
                r
            },
            ZypperError::Failed { status, stderr } => {
                let mut r = String::from_str("zypper failed with status ");
                let code = status_debug_text(*status);
                r.append(code.as_str());
                r.append(": ");
                r.append(stderr.as_str());
                r
            },
            ZypperError::InvalidXml(error) => {
                let mut r = String::from_str("zypper returned invalid XML: ");
                r.append(error.as_str());
                r
            },
        }
    }
}

/// The arguments to run `zypper` with.
pub fn zypper_arguments(include_all: bool) -> (r: Vec<&'static str>)
    ensures
        r@.len() == zypper_arguments_spec(include_all).len(),
        forall|i: int| 0 <= i < r@.len() ==> #[trigger] r@[i]@ == zypper_arguments_spec(include_all)[i],
{
    let mut r: Vec<&'static str> = Vec::new();
    r.push("--xmlout");
    r.push("lp");
    if include_all {
        r.push("-a");
    }
    r
}

/// Decides on a finished run of `zypper`: a failed run is an error that
/// carries the exit code and standard error decoded leniently.
pub fn check_exit(success: bool, code: Option<i32>, stderr: &[u8]) -> (r: Result<(), ZypperError>)
    ensures
        success ==> r is Ok,
        !success ==> (r matches Err(ZypperError::Failed { status, stderr: text }) && status == code
            && text@ == utf8_lossy(stderr@)),
{
    if success {
        Ok(())
    } else {
        Err(ZypperError::Failed { status: code, stderr: from_utf8_lossy(stderr) })
    }
}

/// The patches of a listing, or the error it ended in.
pub fn listing_patches(listing: Result<PatchList, ZypperError>) -> (r: Result<Vec<Patch>, ZypperError>)
    ensures
        match listing {
            Ok(list) => r matches Ok(ps) && ps@ == listed_patches(list),
            Err(e) => r == Err::<Vec<Patch>, ZypperError>(e),
        },
{
    match listing {
        Ok(list) => Ok(list.into_patches()),
        Err(e) => Err(e),
    }
}

} // verus!
