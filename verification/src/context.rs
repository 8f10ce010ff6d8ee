//! The settings of a run, and the lines it reports with.

use crate::text::{pad_left, padded, texts, uppercase};
use crate::util::{join_path, joined_path};
use vstd::prelude::*;

verus! {

/// The requested verbosity of output.
#[derive(Debug, Clone, Copy, PartialEq, Eq, PartialOrd, Structural)]
pub enum Verbosity {
    Quiet,
    Normal,
    Verbose,
}

impl Verbosity {
    /// The place of a verbosity among the three: the more output, the higher.
    pub open spec fn rank(self) -> nat {
        match self {
            Verbosity::Quiet => 0,
            Verbosity::Normal => 1,
            Verbosity::Verbose => 2,
        }
    }

    /// Whether this verbosity asks for at least as much output as `floor`.
    pub fn at_least(self, floor: Verbosity) -> (out: bool)
        ensures
            out == (self.rank() >= floor.rank()),
    {
        match (self, floor) {
            (_, Verbosity::Quiet) => true,
            (Verbosity::Quiet, _) => false,
            (_, Verbosity::Normal) => true,
            (Verbosity::Verbose, Verbosity::Verbose) => true,
            (Verbosity::Normal, Verbosity::Verbose) => false,
        }
    }
}

impl Default for Verbosity {
    fn default() -> (out: Self)
        ensures
            out == Verbosity::Normal,
    {
        Verbosity::Normal
    }
}

/// The output style.
#[derive(Debug, Clone, Copy, PartialEq, Eq, Structural)]
pub struct Output {
    /// The requested verbosity of output.
    pub verbosity: Verbosity,
    /// Whether to not use ANSI color codes.
    pub no_color: bool,
}

impl Default for Output {
    fn default() -> (out: Self)
        ensures
            out == (Output { verbosity: Verbosity::Normal, no_color: false }),
    {
        Output { verbosity: Verbosity::Normal, no_color: false }
    }
}

/// The locations and the output style that a run works with. It is made once,
/// at the start, and only read from then on.
#[derive(Debug)]
pub struct Context {
    /// The version of the application.
    pub version: String,
    /// The location of the config file.
    pub config_file: String,
    /// The location of the configuration directory.
    pub config_dir: String,
    /// The location of the cache directory.
    pub cache_dir: String,
    /// The location of the data directory.
    pub data_dir: String,
    /// The location of the binary directory.
    pub bin_dir: String,
    /// The location of the lock file.
    pub lock_file: String,
    /// The output style.
    pub output: Output,
}

impl Clone for Context {
    fn clone(&self) -> (out: Self)
        ensures
            out == *self,
    {
        Context {
            version: self.version.clone(),
            config_file: self.config_file.clone(),
            config_dir: self.config_dir.clone(),
            cache_dir: self.cache_dir.clone(),
            data_dir: self.data_dir.clone(),
            bin_dir: self.bin_dir.clone(),
            lock_file: self.lock_file.clone(),
            output: self.output,
        }
    }
}

impl Default for Context {
    fn default() -> (out: Self)
        ensures
            out.version@.len() == 0,
            out.config_file@.len() == 0,
            out.config_dir@.len() == 0,
            out.cache_dir@.len() == 0,
            out.data_dir@.len() == 0,
            out.bin_dir@.len() == 0,
            out.lock_file@.len() == 0,
            out.output == (Output { verbosity: Verbosity::Normal, no_color: false }),
    {
        Context {
            version: String::new(),
            config_file: String::new(),
            config_dir: String::new(),
            cache_dir: String::new(),
            data_dir: String::new(),
            bin_dir: String::new(),
            lock_file: String::new(),
            output: Output::default(),
        }
    }
}

/// Directories that are given in place of the usual ones, by a flag or by the
/// environment.
#[derive(Debug)]
pub struct Dirs {
    /// The configuration directory.
    pub config_dir: Option<String>,
    /// The directory to store package data.
    pub data_dir: Option<String>,
    /// The directory to store downloaded packages.
    pub cache_dir: Option<String>,
    /// The directory installed binaries linked to.
    pub bin_dir: Option<String>,
}

/// The directory to use: the one that is given, or else the usual one, which
/// lies at `usual` below `home`.
pub open spec fn dir_or(given: Option<String>, home: Seq<char>, usual: Seq<char>) -> Seq<char> {
    match given {
        Some(dir) => dir@,
        None => joined_path(home, usual),
    }
}

/// The directory to use: the one that is given, or else the usual one.
fn dir_or_usual(given: &Option<String>, home: &str, usual: &str) -> (out: String)
    ensures
        out@ == dir_or(*given, home@, usual@),
{
    match given {
        Some(dir) => dir.clone(),
        None => join_path(home, usual),
    }
}

impl Context {
    /// Whether the context lays out its files as a run does for the home
    /// directory `home`: each directory is the one given in `dirs`, or else
    /// the usual one below `home`; the configuration and the lock are files
    /// of the configuration directory.
    pub open spec fn laid_out(self, home: Seq<char>, dirs: Dirs) -> bool {
        &&& self.config_dir@ == dir_or(dirs.config_dir, home, ".config/rpk"@)
        &&& self.data_dir@ == dir_or(dirs.data_dir, home, ".local/share/rpk"@)
        &&& self.cache_dir@ == dir_or(dirs.cache_dir, home, ".cache/rpk"@)
        &&& self.bin_dir@ == dir_or(dirs.bin_dir, home, ".local/bin"@)
        &&& self.config_file@ == joined_path(self.config_dir@, "packages.toml"@)
        &&& self.lock_file@ == joined_path(self.config_dir@, "packages.lock"@)
    }

    /// The context of a run of the given version, for the home directory
    /// `home`, with the directories of `dirs` in place of the usual ones.
    pub fn new(version: &str, home: &str, dirs: &Dirs, output: Output) -> (out: Context)
        ensures
            out.version@ == version@,
            out.output == output,
            out.laid_out(home@, *dirs),
    {
        let config_dir = dir_or_usual(&dirs.config_dir, home, ".config/rpk");
        Context {
            version: version.to_owned(),
            config_file: join_path(config_dir.as_str(), "packages.toml"),
            lock_file: join_path(config_dir.as_str(), "packages.lock"),
            config_dir,
            data_dir: dir_or_usual(&dirs.data_dir, home, ".local/share/rpk"),
            cache_dir: dir_or_usual(&dirs.cache_dir, home, ".cache/rpk"),
            bin_dir: dir_or_usual(&dirs.bin_dir, home, ".local/bin"),
            output,
        }
    }
}

/// The colours that a label is painted in.
#[derive(Debug, Clone, Copy, PartialEq, Eq, Structural)]
pub enum Color {
    Red,
    Yellow,
    Magenta,
    Cyan,
}

impl Color {
    /// The number of the colour in an ANSI escape sequence.
    pub open spec fn code(self) -> Seq<char> {
        match self {
            Color::Red => "31"@,
            Color::Yellow => "33"@,
            Color::Magenta => "35"@,
            Color::Cyan => "36"@,
        }
    }
}

/// `text` between the ANSI escape sequences that switch bold and the colour
/// on in front of it and everything off behind it.
pub open spec fn styled(text: Seq<char>, color: Color) -> Seq<char> {
    "\x1B[1;"@ + color.code() + "m"@ + text + "\x1B[0m"@
}

/// Whether `out` is `text` painted bold in `color`, or `text` left plain.
pub open spec fn painted(text: Seq<char>, color: Color, out: Seq<char>) -> bool {
    out == text || out == styled(text, color)
}

/// Renders `text` through yansi as `Painted::new(text).fg(color).bold()`.
/// Where styling is switched on, yansi writes the escape sequence for bold
/// and the colour, the text, and the reset sequence; where it is switched
/// off, for the whole process, it writes the text alone. Which of the two
/// holds is not known here.
#[verifier::external_body]
fn paint_bold(text: &str, color: Color) -> (out: String)
    ensures
        painted(text@, color, out@),
{
    let fg = match color {
        Color::Red => yansi::Color::Red,
        Color::Yellow => yansi::Color::Yellow,
        Color::Magenta => yansi::Color::Magenta,
        Color::Cyan => yansi::Color::Cyan,
    };
    format!("{}", yansi::Painted::new(text).fg(fg).bold())
}

/// A label, a space, and a message.
pub open spec fn labelled_text(label: Seq<char>, msg: Seq<char>) -> Seq<char> {
    label + " "@ + msg
}

/// The line that reports `msg` under `label`.
pub fn labelled(label: String, msg: &str) -> (out: String)
    ensures
        out@ == labelled_text(label@, msg@),
{
    let mut out = label;
    out.append(" ");
    out.append(msg);
    out
}

/// The messages of `chain` joined by `sep`.
pub open spec fn joined(chain: Seq<Seq<char>>, sep: Seq<char>) -> Seq<char>
    decreases chain.len(),
{
    if chain.len() == 0 {
        Seq::empty()
    } else if chain.len() == 1 {
        chain[0]
    } else {
        joined(chain.drop_last(), sep) + sep + chain.last()
    }
}

/// An error and its causes in one text: the error first, then each cause on
/// a line of its own, marked as a cause.
pub open spec fn pretty_text(chain: Seq<Seq<char>>) -> Seq<char> {
    joined(chain, "\n  due to: "@)
}

/// Writes an error and its causes, outermost first, as one text.
pub fn prettyify_error(err: &Vec<String>) -> (out: String)
    ensures
        out@ == pretty_text(texts(err@)),
{
    let ghost chain = texts(err@);
    let mut out = String::new();
    let mut i: usize = 0;
    while i < err.len()
        invariant
            i <= err.len(),
            chain == texts(err@),
            out@ == pretty_text(chain.take(i as int)),
        decreases err.len() - i,
    {
        proof {
            assert(chain.take(i + 1).drop_last() == chain.take(i as int));
            assert(chain.take(i + 1).last() == err@[i as int]@);
        }
        if i > 0 {
            out.append("\n  due to: ");
        }
        out.append(err[i].as_str());
        proof {
            if i == 0 {
                assert(out@ =~= err@[0]@);
            }
        }
        i += 1;
    }
    assert(chain.take(i as int) == chain);
    out
}

/// Whether `out` reports an error: a line break, the label, and the text.
/// The label is plain and in capitals without colour, else painted or plain.
pub open spec fn report_text(
    no_color: bool,
    plain: Seq<char>,
    label: Seq<char>,
    color: Color,
    chain: Seq<Seq<char>>,
    out: Seq<char>,
) -> bool {
    if no_color {
        out == "\n"@ + labelled_text(plain, pretty_text(chain))
    } else {
        out == "\n"@ + labelled_text(label, pretty_text(chain)) || out == "\n"@ + labelled_text(
            styled(label, color),
            pretty_text(chain),
        )
    }
}

/// The report of an error and its causes, under a label.
fn report(no_color: bool, plain: &str, label: &str, color: Color, err: &Vec<String>) -> (out:
    String)
    ensures
        report_text(no_color, plain@, label@, color, texts(err@), out@),
{
    let pretty = prettyify_error(err);
    let mut out = String::new();
    out.append("\n");
    if no_color {
        out.append(plain);
        let out = labelled(out, pretty.as_str());
        assert(out@ =~= "\n"@ + labelled_text(plain@, pretty@));
        out
    } else {
        let l = paint_bold(label, color);
        out.append(l.as_str());
        let out = labelled(out, pretty.as_str());
        assert(out@ =~= "\n"@ + labelled_text(l@, pretty@));
        out
    }
}

/// The text that reports an error: after a line break, `ERROR:` without
/// colour, else `error:` in bold red where styling is on, and then the error
/// with its causes.
pub fn log_error(no_color: bool, err: &Vec<String>) -> (out: String)
    ensures
        report_text(no_color, "ERROR:"@, "error:"@, Color::Red, texts(err@), out@),
{
    report(no_color, "ERROR:", "error:", Color::Red, err)
}

/// The text that reports an error as a warning: as [`log_error`], with
/// `WARNING:`, or `warning:` in bold yellow.
pub fn log_error_as_warning(no_color: bool, err: &Vec<String>) -> (out: String)
    ensures
        report_text(no_color, "WARNING:"@, "warning:"@, Color::Yellow, texts(err@), out@),
{
    report(no_color, "WARNING:", "warning:", Color::Yellow, err)
}

/// Whether `out` is a header line: the prefix and the message. Without
/// colour the prefix is in capitals, else painted bold magenta or plain.
pub open spec fn header_text(
    no_color: bool,
    prefix: Seq<char>,
    msg: Seq<char>,
    out: Seq<char>,
) -> bool {
    if no_color {
        out == labelled_text(uppercase(prefix), msg)
    } else {
        out == labelled_text(prefix, msg) || out == labelled_text(
            styled(prefix, Color::Magenta),
            msg,
        )
    }
}

/// Whether `out` is a status line: the prefix, right-aligned in twelve
/// columns, and the message. Without colour the prefix is in capitals, else
/// painted bold in `color` or plain.
pub open spec fn status_text(
    no_color: bool,
    color: Color,
    prefix: Seq<char>,
    msg: Seq<char>,
    out: Seq<char>,
) -> bool {
    if no_color {
        out == labelled_text(padded(uppercase(prefix), 12), msg)
    } else {
        out == labelled_text(padded(prefix, 12), msg) || out == labelled_text(
            styled(padded(prefix, 12), color),
            msg,
        )
    }
}

impl Context {
    /// The requested verbosity of output.
    pub fn verbosity(&self) -> (out: Verbosity)
        ensures
            out == self.output.verbosity,
    {
        self.output.verbosity
    }

    /// The header line to report, unless the run is quiet.
    pub fn log_header(&self, prefix: &str, msg: &str) -> (out: Option<String>)
        ensures
            out is Some <==> self.output.verbosity.rank() >= Verbosity::Normal.rank(),
            out matches Some(line) ==> header_text(self.output.no_color, prefix@, msg@, line@),
    {
        if self.verbosity().at_least(Verbosity::Normal) {
            Some(self.log_header_impl(prefix, msg))
        } else {
            None
        }
    }

    /// The header line to report, if the run is verbose.
    pub fn log_verbose_header(&self, prefix: &str, msg: &str) -> (out: Option<String>)
        ensures
            out is Some <==> self.output.verbosity.rank() >= Verbosity::Verbose.rank(),
            out matches Some(line) ==> header_text(self.output.no_color, prefix@, msg@, line@),
    {
        if self.verbosity().at_least(Verbosity::Verbose) {
            Some(self.log_header_impl(prefix, msg))
        } else {
            None
        }
    }

    /// The header line, in this run's style.
    fn log_header_impl(&self, prefix: &str, msg: &str) -> (out: String)
        ensures
            header_text(self.output.no_color, prefix@, msg@, out@),
    {
        if self.output.no_color {
            labelled(prefix.to_uppercase(), msg)
        } else {
            labelled(paint_bold(prefix, Color::Magenta), msg)
        }
    }

    /// The status line to report, unless the run is quiet.
    pub fn log_status(&self, prefix: &str, msg: &str) -> (out: Option<String>)
        ensures
            out is Some <==> self.output.verbosity.rank() >= Verbosity::Normal.rank(),
            out matches Some(line) ==> status_text(
                self.output.no_color,
                Color::Cyan,
                prefix@,
                msg@,
                line@,
            ),
    {
        if self.verbosity().at_least(Verbosity::Normal) {
            Some(self.log_impl(Color::Cyan, prefix, msg))
        } else {
            None
        }
    }

    /// The status line to report, if the run is verbose.
    pub fn log_verbose_status(&self, prefix: &str, msg: &str) -> (out: Option<String>)
        ensures
            out is Some <==> self.output.verbosity.rank() >= Verbosity::Verbose.rank(),
            out matches Some(line) ==> status_text(
                self.output.no_color,
                Color::Cyan,
                prefix@,
                msg@,
                line@,
            ),
    {
        if self.verbosity().at_least(Verbosity::Verbose) {
            Some(self.log_impl(Color::Cyan, prefix, msg))
        } else {
            None
        }
    }

    /// The warning line to report, unless the run is quiet.
    pub fn log_warning(&self, prefix: &str, msg: &str) -> (out: Option<String>)
        ensures
            out is Some <==> self.output.verbosity.rank() >= Verbosity::Normal.rank(),
            out matches Some(line) ==> status_text(
                self.output.no_color,
                Color::Yellow,
                prefix@,
                msg@,
                line@,
            ),
    {
        if self.verbosity().at_least(Verbosity::Normal) {
            Some(self.log_impl(Color::Yellow, prefix, msg))
        } else {
            None
        }
    }

    /// The warning line to report, if the run is verbose.
    pub fn log_verbose_warning(&self, prefix: &str, msg: &str) -> (out: Option<String>)
        ensures
            out is Some <==> self.output.verbosity.rank() >= Verbosity::Verbose.rank(),
            out matches Some(line) ==> status_text(
                self.output.no_color,
                Color::Yellow,
                prefix@,
                msg@,
                line@,
            ),
    {
        if self.verbosity().at_least(Verbosity::Verbose) {
            Some(self.log_impl(Color::Yellow, prefix, msg))
        } else {
            None
        }
    }

    /// The status line with its prefix in `color`, in this run's style.
    fn log_impl(&self, color: Color, prefix: &str, msg: &str) -> (out: String)
        ensures
            status_text(self.output.no_color, color, prefix@, msg@, out@),
    {
        if self.output.no_color {
            let upper = prefix.to_uppercase();
            labelled(pad_left(upper.as_str(), 12), msg)
        } else {
            let field = pad_left(prefix, 12);
            labelled(paint_bold(field.as_str(), color), msg)
        }
    }

    /// The text that reports an error, in this run's style.
    pub fn log_error(&self, err: &Vec<String>) -> (out: String)
        ensures
            report_text(
                self.output.no_color,
                "ERROR:"@,
                "error:"@,
                Color::Red,
                texts(err@),
                out@,
            ),
    {
        log_error(self.output.no_color, err)
    }

    /// The text that reports an error as a warning, in this run's style.
    pub fn log_error_as_warning(&self, err: &Vec<String>) -> (out: String)
        ensures
            report_text(
                self.output.no_color,
                "WARNING:"@,
                "warning:"@,
                Color::Yellow,
                texts(err@),
                out@,
            ),
    {
        log_error_as_warning(self.output.no_color, err)
    }
}

} // verus!
