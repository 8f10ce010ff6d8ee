//! The options of the command line, once parsed.

pub mod color;

use crate::cli::color::ColorChoice;
use crate::context::{Output, Verbosity};
use crate::text::{chars_of, find_from, first_index, string_of};
use vstd::prelude::*;

verus! {

/// The variable that names the configuration directory.
pub const ENV_CONFIG_DIR: &'static str = "RPK_CONFIG_DIR";

/// The variable that names the directory of package data.
pub const ENV_DATA_DIR: &'static str = "RPK_DATA_DIR";

/// The variable that names the directory of downloaded packages.
pub const ENV_CACHE_DIR: &'static str = "RPK_CACHE_DIR";

/// The variable that names the directory that binaries are linked into.
pub const ENV_BIN_DIR: &'static str = "RPK_BIN_DIR";

/// A shell that completions can be generated for.
#[derive(Debug, Clone, Copy, PartialEq, Eq, Structural)]
pub enum Shell {
    Bash,
    Elvish,
    Fish,
    PowerShell,
    Zsh,
}

/// Resolved command line options.
#[derive(Debug)]
pub struct Opt {
    /// Suppress any informational output.
    pub quiet: bool,
    /// Use verbose output.
    pub verbose: bool,
    /// This flag controls when to use colors.
    pub color: ColorChoice,
    /// The configuration directory.
    pub config_dir: Option<String>,
    /// The directory to store package data.
    pub data_dir: Option<String>,
    /// The directory to store downloaded packages.
    pub cache_dir: Option<String>,
    /// The directory installed binaries linked to.
    pub bin_dir: Option<String>,
    /// The subcommand to run.
    pub command: SubCommand,
}

/// The resolved sub command.
#[derive(Debug)]
pub enum SubCommand {
    /// Initialize a configuration file.
    Init {
        /// The config file URL to initialize from.
        from: Option<String>,
    },
    /// List all installed packages.
    List,
    /// Install any missing packages, re-generating the lock file.
    Sync,
    /// Add a new package to the config file.
    Add {
        /// The github repository hosting the package, as owner and name.
        repo: (String, String),
        /// A unique name for the package. Defaults to the repo name.
        name: Option<String>,
        /// The version of the package.
        version: Option<String>,
        /// A description of the package.
        desc: Option<String>,
    },
    /// Restore packages to the state in the lockfile.
    Restore {
        /// The package to restore.
        package: Option<String>,
    },
    /// Update packages and re-generate the lock file.
    Update {
        /// The package to update.
        package: Option<String>,
    },
    /// Find packages matching the given query.
    Find {
        /// The query to search for.
        query: String,
        /// The number of results to display.
        top: u8,
    },
    /// Remove packages which are not listed in the lock file.
    Cleanup {
        /// Remove all cached data as well.
        cache: bool,
    },
    /// Prints the environment variables.
    Env,
    /// Generate completions for the given shell.
    Completions {
        /// The shell to generate completions for.
        shell: Option<Shell>,
        /// The directory to write the completions to.
        dir: Option<String>,
        /// List all available shells.
        list: bool,
    },
    /// Prints detailed version information.
    Version,
}

/// Whether colour is used: always, never, or, left to guess, when standard
/// error is a terminal and `NO_COLOR` is not set.
pub open spec fn uses_color(
    color: ColorChoice,
    stderr_is_terminal: bool,
    no_color_set: bool,
) -> bool {
    match color {
        ColorChoice::Always => true,
        ColorChoice::Auto => stderr_is_terminal && !no_color_set,
        ColorChoice::Never => false,
    }
}

/// The verbosity that the two flags ask for; `quiet` wins over `verbose`.
pub open spec fn verbosity_of(quiet: bool, verbose: bool) -> Verbosity {
    if quiet {
        Verbosity::Quiet
    } else if verbose {
        Verbosity::Verbose
    } else {
        Verbosity::Normal
    }
}

impl Opt {
    /// Whether colour is to be used, given whether standard error is a
    /// terminal and whether `NO_COLOR` is set in the environment.
    pub fn color_enabled(&self, stderr_is_terminal: bool, no_color_set: bool) -> (out: bool)
        ensures
            out == uses_color(self.color, stderr_is_terminal, no_color_set),
    {
        match self.color {
            ColorChoice::Always => true,
            ColorChoice::Auto => stderr_is_terminal && !no_color_set,
            ColorChoice::Never => false,
        }
    }

    /// The output style that the options ask for.
    pub fn output_opt(&self, stderr_is_terminal: bool, no_color_set: bool) -> (out: Output)
        ensures
            out.verbosity == verbosity_of(self.quiet, self.verbose),
            out.no_color == !uses_color(self.color, stderr_is_terminal, no_color_set),
    {
        Output {
            verbosity: if self.quiet {
                Verbosity::Quiet
            } else if self.verbose {
                Verbosity::Verbose
            } else {
                Verbosity::Normal
            },
            no_color: !self.color_enabled(stderr_is_terminal, no_color_set),
        }
    }
}

/// What `NO_COLOR` is to hold once the use of colour is decided, so that
/// programs started from here decide alike: nothing if colour is used, `1` if not.
pub fn no_color_setting(color_enabled: bool) -> (out: Option<&'static str>)
    ensures
        match out {
            None => color_enabled,
            Some(value) => !color_enabled && value@ == "1"@,
        },
{
    if color_enabled {
        None
    } else {
        Some("1")
    }
}

/// The owner and the name that a repository coordinate holds: the text before
/// its first `/` and the text behind it.
pub open spec fn repo_parts(repo: Seq<char>) -> Option<(Seq<char>, Seq<char>)> {
    let i = first_index(repo, '/');
    if 0 <= i < repo.len() {
        Some((repo.take(i), repo.skip(i + 1)))
    } else {
        None
    }
}

/// Splits a repository coordinate `owner/repo` at its first `/`. A text
/// without `/` is answered with a message.
pub fn repo_parser(repo: &str) -> (out: Result<(String, String), String>)
    ensures
        match out {
            Ok((owner, name)) => repo_parts(repo@) == Some((owner@, name@)),
            Err(msg) => repo_parts(repo@) is None && msg@
                == "invalid repo format, should be: 'owner/repo'"@,
        },
{
    let v = chars_of(repo);
    let i = find_from(&v, 0, '/');
    proof {
        assert(v@.skip(0) =~= v@);
    }
    if i < v.len() {
        let owner = string_of(&v, 0, i);
        let name = string_of(&v, i + 1, v.len());
        proof {
            assert(v@.subrange(0, i as int) =~= repo@.take(i as int));
            assert(v@.subrange(i + 1, v.len() as int) =~= repo@.skip(i + 1));
        }
        Ok((owner, name))
    } else {
        Err("invalid repo format, should be: 'owner/repo'".to_owned())
    }
}

} // verus!
