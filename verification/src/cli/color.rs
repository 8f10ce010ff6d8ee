//! When to use colour.

use crate::text::same_text;
use vstd::prelude::*;

verus! {

/// Whether messages should use color output.
#[derive(Debug, Clone, Copy, PartialEq, Eq, Structural)]
pub enum ColorChoice {
    /// Force color output.
    Always,
    /// Intelligently guess whether to use color output.
    Auto,
    /// Force disable color output.
    Never,
}

/// A text that names no color choice.
#[derive(Debug)]
pub struct ParseColorChoiceError(String);

impl View for ParseColorChoiceError {
    type V = Seq<char>;

    /// The text that was rejected.
    closed spec fn view(&self) -> Seq<char> {
        self.0@
    }
}

impl ParseColorChoiceError {
    /// The message that `given`, a text of no color choice, is answered with.
    pub open spec fn message(given: Seq<char>) -> Seq<char> {
        "expected `always` or `never`, got `"@ + given + "`"@
    }

    /// The text that was rejected.
    pub fn given(&self) -> (out: &str)
        ensures
            out@ == self@,
    {
        self.0.as_str()
    }

    /// What went wrong, in words.
    pub fn to_text(&self) -> (out: String)
        ensures
            out@ == Self::message(self@),
    {
        let mut out = "expected `always` or `never`, got `".to_owned();
        out.append(self.0.as_str());
        out.append("`");
        out
    }
}

impl ColorChoice {
    /// The word that a choice is written as.
    pub open spec fn word(self) -> Seq<char> {
        match self {
            ColorChoice::Always => "always"@,
            ColorChoice::Auto => "auto"@,
            ColorChoice::Never => "never"@,
        }
    }

    /// The choice that a word names, if it names one.
    pub open spec fn of_word(s: Seq<char>) -> Option<ColorChoice> {
        if s == "always"@ {
            Some(ColorChoice::Always)
        } else if s == "auto"@ {
            Some(ColorChoice::Auto)
        } else if s == "never"@ {
            Some(ColorChoice::Never)
        } else {
            None
        }
    }

    /// Whether the choice means colour, given whether standard error is a terminal.
    pub open spec fn means_color(self, stderr_is_terminal: bool) -> bool {
        match self {
            ColorChoice::Always => true,
            ColorChoice::Auto => stderr_is_terminal,
            ColorChoice::Never => false,
        }
    }

    /// The word that the choice is written as.
    pub fn to_text(&self) -> (out: String)
        ensures
            out@ == self.word(),
    {
        match self {
            ColorChoice::Always => "always".to_owned(),
            ColorChoice::Auto => "auto".to_owned(),
            ColorChoice::Never => "never".to_owned(),
        }
    }

    /// Reads a choice: `always`, `auto` or `never`, and nothing else.
    pub fn from_text(s: &str) -> (out: Result<ColorChoice, ParseColorChoiceError>)
        ensures
            match out {
                Ok(choice) => Self::of_word(s@) == Some(choice),
                Err(e) => Self::of_word(s@) is None && e@ == s@,
            },
    {
        if same_text(s, "always") {
            Ok(ColorChoice::Always)
        } else if same_text(s, "auto") {
            Ok(ColorChoice::Auto)
        } else if same_text(s, "never") {
            Ok(ColorChoice::Never)
        } else {
            Err(ParseColorChoiceError(s.to_owned()))
        }
    }

    /// Whether to use colour: always, never, or when standard error is a terminal.
    pub fn is_color(self, stderr_is_terminal: bool) -> (out: bool)
        ensures
            out == self.means_color(stderr_is_terminal),
    {
        match self {
            ColorChoice::Always => true,
            ColorChoice::Auto => stderr_is_terminal,
            ColorChoice::Never => false,
        }
    }
}

impl std::str::FromStr for ColorChoice {
    type Err = ParseColorChoiceError;

    fn from_str(s: &str) -> (out: Result<Self, Self::Err>)
        ensures
            match out {
                Ok(choice) => ColorChoice::of_word(s@) == Some(choice),
                Err(e) => ColorChoice::of_word(s@) is None && e@ == s@,
            },
    {
        ColorChoice::from_text(s)
    }
}

/// Every choice is read back from the word it is written as.
pub proof fn lemma_word_round_trip(choice: ColorChoice)
    ensures
        ColorChoice::of_word(choice.word()) == Some(choice),
{
    reveal_strlit("always");
    reveal_strlit("auto");
    reveal_strlit("never");
    assert("always"@.len() == 6);
    assert("auto"@.len() == 4);
    assert("never"@.len() == 5);
}

} // verus!
