//! The command line: one of three modes and an input path.

use vstd::prelude::*;
use vstd::string::StrSliceExecFns;

verus! {

/// What to do with the input file.
#[derive(Debug, Clone, Copy, PartialEq, Eq)]
pub enum Mode {
    /// Encode an image into a container.
    Encode,
    /// Decode a container into an image.
    Decode,
    /// Show a container on screen.
    View,
}

/// A parsed command line.
#[derive(Debug, PartialEq, Eq)]
pub struct Cli {
    /// Encode an image into a container.
    pub encode: bool,
    /// Decode a container into an image.
    pub decode: bool,
    /// Show a container on screen.
    pub view: bool,
    /// Path of the input file.
    pub input: String,
}

/// Why a command line was refused.
#[derive(Debug, Clone, Copy, PartialEq, Eq)]
pub enum UsageError {
    /// A word looks like an option but is none of the mode flags.
    UnknownFlag,
    /// More than one input path.
    ExtraInput,
    /// More than one mode flag.
    ConflictingModes,
    /// No input path.
    MissingInput,
}

/// What one word of a command line is.
#[derive(Debug, Clone, Copy, PartialEq, Eq)]
pub enum Word {
    /// A mode flag, short or long.
    Flag(Mode),
    /// Dash-led, but no mode flag.
    Unknown,
    /// Anything else: an input path.
    Input,
}

/// What a word is: `-e`, `--encode`, `-d`, `--decode`, `-v` and `--view` are
/// the mode flags; any other word of two or more characters that begins with
/// a dash is unknown; the rest are input paths.
pub open spec fn classify(word: Seq<char>) -> Word {
    if word == "-e"@ || word == "--encode"@ {
        Word::Flag(Mode::Encode)
    } else if word == "-d"@ || word == "--decode"@ {
        Word::Flag(Mode::Decode)
    } else if word == "-v"@ || word == "--view"@ {
        Word::Flag(Mode::View)
    } else if word.len() >= 2 && word[0] == '-' {
        Word::Unknown
    } else {
        Word::Input
    }
}

/// The mode flags among `words`, in order.
pub open spec fn flags_in(words: Seq<Seq<char>>) -> Seq<Mode>
    decreases words.len(),
{
    if words.len() == 0 {
        Seq::empty()
    } else {
        match classify(words.last()) {
            Word::Flag(m) => flags_in(words.drop_last()).push(m),
            _ => flags_in(words.drop_last()),
        }
    }
}

/// The input paths among `words`, in order.
pub open spec fn inputs_in(words: Seq<Seq<char>>) -> Seq<Seq<char>>
    decreases words.len(),
{
    if words.len() == 0 {
        Seq::empty()
    } else {
        match classify(words.last()) {
            Word::Input => inputs_in(words.drop_last()).push(words.last()),
            _ => inputs_in(words.drop_last()),
        }
    }
}

/// How many of `words` are unknown options.
pub open spec fn unknown_in(words: Seq<Seq<char>>) -> nat
    decreases words.len(),
{
    if words.len() == 0 {
        0
    } else {
        match classify(words.last()) {
            Word::Unknown => unknown_in(words.drop_last()) + 1,
            _ => unknown_in(words.drop_last()),
        }
    }
}

/// What a command line means: at most one mode and exactly one input path,
/// in any order, or the reason why it is refused. Of several reasons the
/// first in this order counts: an unknown flag, a second input path, a
/// second mode flag, no input path.
pub open spec fn parsed(words: Seq<Seq<char>>) -> Result<(Option<Mode>, Seq<char>), UsageError> {
    let flags = flags_in(words);
    let inputs = inputs_in(words);
    if unknown_in(words) > 0 {
        Err(UsageError::UnknownFlag)
    } else if inputs.len() > 1 {
        Err(UsageError::ExtraInput)
    } else if flags.len() > 1 {
        Err(UsageError::ConflictingModes)
    } else if inputs.len() == 0 {
        Err(UsageError::MissingInput)
    } else if flags.len() == 1 {
        Ok((Some(flags[0]), inputs[0]))
    } else {
        Ok((None, inputs[0]))
    }
}

/// The character strings of a list of words.
pub open spec fn views(args: Seq<String>) -> Seq<Seq<char>> {
    Seq::new(args.len(), |i: int| args[i]@)
}

impl Clone for Cli {
    /// A second command line with the same flags and the same input path.
    fn clone(&self) -> (r: Self)
        ensures
            r == *self,
    {
        Cli {
            encode: self.encode,
            decode: self.decode,
            view: self.view,
            input: self.input.clone(),
        }
    }
}

impl Cli {
    /// The mode that the flags select: the first that is set of encode,
    /// decode, view.
    pub open spec fn selected(&self) -> Option<Mode> {
        if self.encode {
            Some(Mode::Encode)
        } else if self.decode {
            Some(Mode::Decode)
        } else if self.view {
            Some(Mode::View)
        } else {
            None
        }
    }

    /// No two mode flags are set.
    pub open spec fn exclusive(&self) -> bool {
        &&& !(self.encode && self.decode)
        &&& !(self.encode && self.view)
        &&& !(self.decode && self.view)
    }

    /// The mode to run in, if a mode flag is set.
    pub fn mode(&self) -> (m: Option<Mode>)
        ensures
            m == self.selected(),
    {
        if self.encode {
            Some(Mode::Encode)
        } else if self.decode {
            Some(Mode::Decode)
        } else if self.view {
            Some(Mode::View)
        } else {
            None
        }
    }
}

/// Whether `word` is spelled exactly as `literal`.
fn is_word(word: &String, literal: &str) -> (b: bool)
    ensures
        b == (word@ == literal@),
{
    *word == literal.to_owned()
}

/// Tells what one word of the command line is.
pub fn classify_word(word: &String) -> (w: Word)
    ensures
        w == classify(word@),
{
    if is_word(word, "-e") || is_word(word, "--encode") {
        Word::Flag(Mode::Encode)
    } else if is_word(word, "-d") || is_word(word, "--decode") {
        Word::Flag(Mode::Decode)
    } else if is_word(word, "-v") || is_word(word, "--view") {
        Word::Flag(Mode::View)
    } else if word.as_str().unicode_len() >= 2 && word.as_str().get_char(0) == '-' {
        Word::Unknown
    } else {
        Word::Input
    }
}

/// Parses the words of a command line, the program's name left out: mode
/// flags and one input path, in any order.
pub fn parse_args(args: &[String]) -> (r: Result<Cli, UsageError>)
    ensures
        match r {
            Ok(cli) => parsed(views(args@)) == Ok::<(Option<Mode>, Seq<char>), UsageError>(
                (cli.selected(), cli.input@),
            ) && cli.exclusive(),
            Err(e) => parsed(views(args@)) == Err::<(Option<Mode>, Seq<char>), UsageError>(e),
        },
{
    let ghost words = views(args@);
    let mut mode: Option<Mode> = None;
    let mut input: Option<String> = None;
    let mut flags: usize = 0;
    let mut inputs: usize = 0;
    let mut unknown: usize = 0;
    for k in 0..args.len()
        invariant
            words == views(args@),
            flags == flags_in(words.take(k as int)).len(),
            inputs == inputs_in(words.take(k as int)).len(),
            unknown == unknown_in(words.take(k as int)),
            flags <= k,
            inputs <= k,
            unknown <= k,
            flags > 0 ==> mode == Some(flags_in(words.take(k as int))[0]),
            flags == 0 ==> mode is None,
            inputs == 0 ==> input is None,
            inputs > 0 ==> (input matches Some(s) && s@ == inputs_in(words.take(k as int))[0]),
    {
        proof {
            assert(words.take(k + 1).drop_last() =~= words.take(k as int));
            assert(words.take(k + 1).last() == args@[k as int]@);
        }
        match classify_word(&args[k]) {
            Word::Flag(m) => {
                if flags == 0 {
                    mode = Some(m);
                }
                flags = flags + 1;
            },
            Word::Unknown => {
                unknown = unknown + 1;
            },
            Word::Input => {
                if inputs == 0 {
                    input = Some(args[k].clone());
                }
                inputs = inputs + 1;
            },
        }
    }
    proof {
        assert(words.take(args@.len() as int) =~= words);
    }
    if unknown > 0 {
        return Err(UsageError::UnknownFlag);
    }
    if inputs > 1 {
        return Err(UsageError::ExtraInput);
    }
    if flags > 1 {
        return Err(UsageError::ConflictingModes);
    }
    match input {
        None => Err(UsageError::MissingInput),
        Some(path) => Ok(
            Cli {
                encode: matches!(mode, Some(Mode::Encode)),
                decode: matches!(mode, Some(Mode::Decode)),
                view: matches!(mode, Some(Mode::View)),
                input: path,
            },
        ),
    }
}

} // verus!
