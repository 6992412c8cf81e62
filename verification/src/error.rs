//! Typed errors for `apt-lists`.
//!
//! The tool deliberately distinguishes between "the repository exists but
//! nothing matched" (which is a successful, empty query) and errors such as
//! "the repository selector does not match any known repository" or "the
//! selector is ambiguous", so that a valid-looking selector can never silently
//! produce an empty result.
use vstd::prelude::*;
use vstd::string::StringExecFns;

use crate::text::views;

verus! {

/// `std::io::Error`, carried through unchanged.
#[verifier::external_type_specification]
#[verifier::external_body]
pub struct ExIoError(std::io::Error);

/// Operational errors; every variant is reported to the user verbatim.
#[derive(Debug)]
pub enum AptListsError {
    /// `libapt-pkg` failed to initialize or open the package cache.
    CacheInit(String),
    /// The APT cache contains no downloadable package indexes at all
    /// (e.g. `apt update` was never run).
    NoPackageIndexes,
    /// The `--repo` selector does not match any repository known to the cache.
    RepoNotFound {
        /// The selector as given by the user.
        selector: String,
        /// URIs of the repositories that do exist, for suggestions.
        known: Vec<String>,
    },
    /// A hostname selector matches several distinct repository URIs.
    /// The user must disambiguate by passing a full URI.
    AmbiguousRepoSelector {
        /// The selector as given by the user.
        selector: String,
        /// The distinct repository URIs the selector matched.
        candidates: Vec<String>,
    },
    /// The requested package does not exist in the APT cache.
    PackageNotFound(String),
    /// Writing to stdout failed. A closed pipe is reported as
    /// `std::io::ErrorKind::BrokenPipe` and handled specially by the binary
    /// instead of being shown to the user.
    Output(std::io::Error),
}

/// The lines `"  " + s + "\n"` for every `s`, concatenated.
pub open spec fn indented_lines(s: Seq<Seq<char>>) -> Seq<char>
    decreases s.len(),
{
    if s.len() == 0 {
        seq![]
    } else {
        indented_lines(s.drop_last()) + "  "@ + s.last() + "\n"@
    }
}

/// The message of an error, for every variant but [`AptListsError::Output`],
/// whose text comes from the operating system.
pub open spec fn message_spec(e: AptListsError) -> Seq<char> {
    match e {
        AptListsError::CacheInit(msg) => "failed to initialize the APT cache: "@ + msg@,
        AptListsError::NoPackageIndexes => "no APT package indexes are available; run `apt update` first (this tool never downloads package lists by itself)"@,
        AptListsError::RepoNotFound { selector, known } => "repository '"@ + selector@
            + "' was not found in the APT cache"@ + if known@.len() == 0 {
            Seq::<char>::empty()
        } else {
            "\nrepositories known to the cache:\n"@ + indented_lines(views(known@))
        },
        AptListsError::AmbiguousRepoSelector { selector, candidates } => "repository selector '"@
            + selector@ + "' is ambiguous; it matches multiple repository URIs:\n"@
            + indented_lines(views(candidates@)) + "pass the full repository URI to disambiguate"@,
        AptListsError::PackageNotFound(name) => "package '"@ + name@
            + "' was not found in the APT cache"@,
        AptListsError::Output(_) => "failed to write to stdout: "@,
    }
}

/// The description of an I/O error, from std's `Display` for
/// `std::io::Error`. Trusted, with nothing claimed of the text: it comes from
/// the operating system (and its locale), so the contract leaves it open.
#[verifier::external_body]
fn io_error_text(e: &std::io::Error) -> String {
    format!("{e}")
}

/// Appends the indented lines of `list` to `s`.
fn push_indented_lines(s: &mut String, list: &Vec<String>)
    ensures
        final(s)@ == old(s)@ + indented_lines(views(list@)),
{
    for i in 0..list.len()
        invariant
            s@ == old(s)@ + indented_lines(views(list@.take(i as int))),
    {
        s.append("  ");
        s.append(list[i].as_str());
        s.append("\n");
        assert(views(list@.take(i + 1)).drop_last() =~= views(list@.take(i as int)));
    }
    assert(list@.take(list.len() as int) =~= list@);
}

impl AptListsError {
    /// The message reported to the user (what the binary prints after
    /// `apt-lists: error: `).
    pub fn message(&self) -> (r: String)
        ensures
            match self {
                AptListsError::Output(_) => exists|t: Seq<char>| r@ == message_spec(*self) + t,
                _ => r@ == message_spec(*self),
            },
    {
        match self {
            AptListsError::CacheInit(msg) => {
                let mut s = String::from_str("failed to initialize the APT cache: ");
                s.append(msg.as_str());
                s
            },
            AptListsError::NoPackageIndexes => String::from_str(
                "no APT package indexes are available; run `apt update` first (this tool never downloads package lists by itself)",
            ),
            AptListsError::RepoNotFound { selector, known } => {
                let mut s = String::from_str("repository '");
                s.append(selector.as_str());
                s.append("' was not found in the APT cache");
                if known.len() == 0 {
                    assert(s@ =~= s@ + Seq::<char>::empty());
                    return s;
                }
                s.append("\nrepositories known to the cache:\n");
                push_indented_lines(&mut s, known);
                s
            },
            AptListsError::AmbiguousRepoSelector { selector, candidates } => {
                let mut s = String::from_str("repository selector '");
                s.append(selector.as_str());
                s.append("' is ambiguous; it matches multiple repository URIs:\n");
                push_indented_lines(&mut s, candidates);
                s.append("pass the full repository URI to disambiguate");
                s
            },
            AptListsError::PackageNotFound(name) => {
                let mut s = String::from_str("package '");
                s.append(name.as_str());
                s.append("' was not found in the APT cache");
                s
            },
            AptListsError::Output(e) => {
                let mut s = String::from_str("failed to write to stdout: ");
                let t = io_error_text(e);
                s.append(t.as_str());
                assert(s@ == message_spec(*self) + t@);
                s
            },
        }
    }
}

impl From<std::io::Error> for AptListsError {
    fn from(e: std::io::Error) -> (r: Self) {
        AptListsError::Output(e)
    }
}

impl vstd::std_specs::convert::FromSpecImpl<std::io::Error> for AptListsError {
    open spec fn obeys_from_spec() -> bool {
        true
    }

    open spec fn from_spec(e: std::io::Error) -> AptListsError {
        AptListsError::Output(e)
    }
}

} // verus!
