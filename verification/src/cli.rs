//! The command-line options and the top-level mode they select.
//!
//! The option surface mirrors `apt list` (flat options instead of a command
//! hierarchy): `--installed`, `--repo`, `--all`, `--repos`, `--json`, plus
//! short forms. Parsing the command line and printing completion scripts is
//! the binary's business; this module holds the parsed options and decides
//! what they ask for.
use vstd::prelude::*;

verus! {

/// The parsed command-line options.
#[derive(Debug)]
pub struct Args {
    /// Show packages with an installed version (dpkg state), like
    /// `apt list --installed`.
    pub installed: bool,
    /// Only consider this repository (a repository URI or a hostname).
    pub repo: Option<String>,
    /// List all repositories known to the current APT cache.
    pub repos: bool,
    /// List all available package versions (default when no mode is given).
    pub all: bool,
    /// Show only manually installed packages (implies `--installed`).
    pub manual_installed: bool,
    /// Emit machine-readable JSON instead of a table.
    pub json: bool,
    /// Omit the header row of human-readable tables.
    pub no_headers: bool,
    /// Package name(s) to inspect; `name` or `name:arch`.
    pub packages: Vec<String>,
}

/// Which top-level mode was requested.
#[derive(Debug, Clone, Copy, PartialEq, Eq, Structural)]
pub enum Mode {
    /// `--repos`: list the repository catalog.
    Repos,
    /// `--installed`/`--manual-installed`: list installed versions.
    Installed,
    /// `--all` (or no mode): list all available versions.
    All,
    /// Positional package names: list their versions.
    Packages,
}

impl Default for Args {
    /// No option given: every flag off, no selector, no package.
    fn default() -> (r: Self)
        ensures
            !r.installed && !r.repos && !r.all && !r.manual_installed && !r.json && !r.no_headers,
            r.repo is None,
            r.packages@.len() == 0,
    {
        Args {
            installed: false,
            repo: None,
            repos: false,
            all: false,
            manual_installed: false,
            json: false,
            no_headers: false,
            packages: Vec::new(),
        }
    }
}

impl Args {
    /// The mode that the options select: `--repos` first, then
    /// `--installed`/`--manual-installed`, then all versions when no package
    /// is named, else the named packages.
    pub open spec fn mode_spec(&self) -> Mode {
        if self.repos {
            Mode::Repos
        } else if self.installed || self.manual_installed {
            Mode::Installed
        } else if self.packages@.len() == 0 {
            Mode::All
        } else {
            Mode::Packages
        }
    }

    /// Which top-level mode was requested.
    ///
    /// Precedence: `--repos` > `--installed`/`--manual-installed` > package
    /// query > `--all`. A bare `apt-lists` (and `--all`) lists all available
    /// package versions, mirroring `apt list`.
    pub fn mode(&self) -> (r: Mode)
        ensures
            r == self.mode_spec(),
    {
        if self.repos {
            return Mode::Repos;
        }
        if self.installed || self.manual_installed {
            return Mode::Installed;
        }
        if self.packages.len() == 0 {
            return Mode::All;
        }
        Mode::Packages
    }

    /// `true` when only manually installed packages should be shown.
    pub fn manual_only(&self) -> (r: bool)
        ensures
            r == self.manual_installed,
    {
        self.manual_installed
    }
}

} // verus!
