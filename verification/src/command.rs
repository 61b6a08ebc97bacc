//! The commands that a user can enter, and how a line of text is read as one.
//!
//! A line is made of tokens separated by whitespace. The first token names
//! the command, in any letter case; the tokens after it are its arguments.
//! Text that is no command is answered with a message that names the token
//! at fault and the help command to enter.

use crate::number::{
    explanation, get_explanation_for, is_empty_failure, parse_i64, parsed_i64, NumberError,
};
use crate::pattern::{
    byte_pattern_of, lemma_byte_complaints, lemma_string_complaints, reads_as, string_pattern_of,
    BytePattern, StringPattern,
};
use crate::text::{
    advice, advise, fails_advising, fails_naming, first_token, is_blank, is_help_command,
    lemma_advises, lemma_names, quoted, same_text, split_at_first_token, trim, trimmed,
};
use vstd::prelude::*;
use vstd::string::StringExecFns;

verus! {

/// The lowercase equivalent of `text` as the standard library defines it.
pub uninterp spec fn lowercase_of(text: Seq<char>) -> Seq<char>;

/// The lowercase equivalent of `text`, by `str::to_lowercase`.
#[verifier::external_body]
pub(crate) fn to_lowercase(text: &str) -> (lower: String)
    ensures
        lower@ == lowercase_of(text@),
{
    text.to_lowercase()
}

/// The complaint about `extra`, text that follows a complete command.
pub open spec fn unexpected_extra(extra: Seq<char>, help: Seq<char>) -> Seq<char> {
    "Unexpected extra parameter: '"@ + extra + "'."@ + advice(help, "an explanation."@)
}

/// `Ok` if `remainder` holds nothing but whitespace, and else the complaint
/// about what it holds.
pub open spec fn rejected_extra(remainder: Seq<char>, help: Seq<char>) -> Result<(), Seq<char>> {
    if is_blank(remainder) {
        Ok(())
    } else {
        Err(unexpected_extra(trim(remainder), help))
    }
}

/// Whether `result` is the outcome `expected`, messages compared by their
/// characters.
pub open spec fn outcome_is<T>(result: Result<T, String>, expected: Result<T, Seq<char>>) -> bool {
    match expected {
        Ok(value) => result matches Ok(v) && v == value,
        Err(message) => result matches Err(m) && m@ == message,
    }
}

/// Fails if anything but whitespace is left in `remainder`; `help` is the
/// help command that the message names.
pub fn reject_additional_tokens(remainder: &str, help: &str) -> (result: Result<(), String>)
    ensures
        outcome_is(result, rejected_extra(remainder@, help@)),
{
    let extra = trimmed(remainder);
    if extra.unicode_len() != 0 {
        Err(advise(quoted("Unexpected extra parameter: '", extra), help, "an explanation."))
    } else {
        Ok(())
    }
}

/// Where to move the reading position.
#[derive(Debug, Clone, Copy, PartialEq, Eq, Structural)]
pub enum Seek {
    /// To a position counted from the start of the device.
    Absolute(i64),
    /// By an offset from the current position.
    Relative(i64),
}

/// The complaint about `mode`, which is no seek mode.
pub open spec fn unknown_seek_mode(mode: Seq<char>) -> Seq<char> {
    "Unknown seek mode: '"@ + mode + "'."@ + advice("help seek"@, "a list of seek modes."@)
}

/// The complaint about `mode`, which is no find mode.
pub open spec fn unknown_find_mode(mode: Seq<char>) -> Seq<char> {
    "unknown find mode: '"@ + mode + "'."@ + advice("help find"@, "a list of find modes.'"@)
}

/// The complaint about `raw`, which was to be a position or an offset.
pub open spec fn invalid_position(raw: Seq<char>, error: NumberError) -> Seq<char> {
    "invalid offset/position: '"@ + raw + "' "@ + explanation(error) + "."@ + advice(
        "help seek"@,
        "an explanation."@,
    )
}

/// The seek command with the mode `mode`, already in lower case, and the
/// number token `raw`, which was read as `number`; `extra` is what follows.
pub open spec fn seek_from_parts(
    mode: Seq<char>,
    raw: Seq<char>,
    number: Result<i64, NumberError>,
    extra: Seq<char>,
) -> Result<Seek, Seq<char>> {
    match number {
        Err(error) => Err(invalid_position(raw, error)),
        Ok(value) => match rejected_extra(extra, "help seek"@) {
            Err(message) => Err(message),
            Ok(_) => if mode == "absolute"@ {
                Ok(Seek::Absolute(value))
            } else if mode == "relative"@ {
                Ok(Seek::Relative(value))
            } else {
                Err(unknown_seek_mode(mode))
            },
        },
    }
}

/// The seek command that the arguments `text` stand for: a mode and a
/// number.
pub open spec fn seek_of(text: Seq<char>) -> Result<Seek, Seq<char>> {
    match first_token(text) {
        None => Err(
            "Missing seek mode: 'absolute' or 'relative'."@ + advice("help seek"@, "an example."@),
        ),
        Some((mode, arguments)) => match first_token(arguments) {
            None => Err(
                "Missing offset/position to seek to."@ + advice("help seek"@, "an explanation"@),
            ),
            Some((raw, extra)) => seek_from_parts(lowercase_of(mode), raw, parsed_i64(raw), extra),
        },
    }
}

impl Seek {
    /// The seek command with the mode `mode`, given in lower case, and the
    /// number token `raw`, which was read as `number`; `extra` is what
    /// follows the number.
    pub fn from_parts(mode: &str, raw: &str, number: Result<i64, NumberError>, extra: &str) -> (result:
        Result<Seek, String>)
        requires
            !is_empty_failure(number),
        ensures
            outcome_is(result, seek_from_parts(mode@, raw@, number, extra@)),
    {
        let value = match number {
            Ok(value) => value,
            Err(error) => {
                let complaint = String::from_str("invalid offset/position: '").concat(raw).concat(
                    "' ",
                ).concat(get_explanation_for(error)).concat(".");
                return Err(advise(complaint, "help seek", "an explanation."));
            },
        };
        match reject_additional_tokens(extra, "help seek") {
            Ok(_) => {},
            Err(message) => {
                return Err(message);
            },
        }
        if same_text(mode, "absolute") {
            Ok(Seek::Absolute(value))
        } else if same_text(mode, "relative") {
            Ok(Seek::Relative(value))
        } else {
            Err(advise(quoted("Unknown seek mode: '", mode), "help seek", "a list of seek modes."))
        }
    }

    /// Reads the arguments of a seek command.
    pub fn parse(text: &str) -> (result: Result<Seek, String>)
        ensures
            outcome_is(result, seek_of(text@)),
    {
        let (mode, arguments) = match split_at_first_token(text) {
            Some(parts) => parts,
            None => {
                return Err(
                    advise(
                        String::from_str("Missing seek mode: 'absolute' or 'relative'."),
                        "help seek",
                        "an example.",
                    ),
                );
            },
        };
        let (raw, extra) = match split_at_first_token(arguments) {
            Some(parts) => parts,
            None => {
                return Err(
                    advise(
                        String::from_str("Missing offset/position to seek to."),
                        "help seek",
                        "an explanation",
                    ),
                );
            },
        };
        let number = parse_i64(raw);
        let lower = to_lowercase(mode);
        Seek::from_parts(lower.as_str(), raw, number, extra)
    }
}

/// How many bytes to print from the reading position on.
#[derive(Debug, Clone, Copy, PartialEq, Eq, Structural)]
pub struct Print(pub u64);

/// The complaint about `raw`, a negative number of bytes.
pub open spec fn negative_count(raw: Seq<char>) -> Seq<char> {
    "The number of bytes to print must be non-negative: '"@ + raw + "'."@ + advice(
        "help print"@,
        "an explanation."@,
    )
}

/// The complaint about `raw`, which was to be a number of bytes.
pub open spec fn invalid_count(raw: Seq<char>, error: NumberError) -> Seq<char> {
    "Invalid number of bytes: '"@ + raw + "' "@ + explanation(error) + "."@ + advice(
        "help print"@,
        "an explanation."@,
    )
}

/// The print command with the number token `raw`, which was read as
/// `number`; `extra` is what follows.
pub open spec fn print_from_parts(raw: Seq<char>, number: Result<i64, NumberError>, extra: Seq<char>)
    -> Result<Print, Seq<char>> {
    match number {
        Err(error) => Err(invalid_count(raw, error)),
        Ok(value) => if value < 0 {
            Err(negative_count(raw))
        } else {
            match rejected_extra(extra, "help print"@) {
                Err(message) => Err(message),
                Ok(_) => Ok(Print(value as u64)),
            }
        },
    }
}

/// The print command that the arguments `text` stand for: a number of bytes.
pub open spec fn print_of(text: Seq<char>) -> Result<Print, Seq<char>> {
    match first_token(text) {
        None => Err("Missing number of bytes to print."@ + advice("help print"@, "an example."@)),
        Some((raw, extra)) => print_from_parts(raw, parsed_i64(raw), extra),
    }
}

impl Print {
    /// Number of bytes to print.
    pub fn byte_count(&self) -> (count: u64)
        ensures
            count == self.0,
    {
        self.0
    }

    /// The print command with the number token `raw`, which was read as
    /// `number`; `extra` is what follows the number.
    pub fn from_parts(raw: &str, number: Result<i64, NumberError>, extra: &str) -> (result: Result<
        Print,
        String,
    >)
        requires
            !is_empty_failure(number),
        ensures
            outcome_is(result, print_from_parts(raw@, number, extra@)),
    {
        let value = match number {
            Ok(value) => value,
            Err(error) => {
                let complaint = String::from_str("Invalid number of bytes: '").concat(raw).concat(
                    "' ",
                ).concat(get_explanation_for(error)).concat(".");
                return Err(advise(complaint, "help print", "an explanation."));
            },
        };
        if value < 0 {
            return Err(
                advise(
                    quoted("The number of bytes to print must be non-negative: '", raw),
                    "help print",
                    "an explanation.",
                ),
            );
        }
        match reject_additional_tokens(extra, "help print") {
            Ok(_) => Ok(Print(value as u64)),
            Err(message) => Err(message),
        }
    }

    /// Reads the arguments of a print command.
    pub fn parse(text: &str) -> (result: Result<Print, String>)
        ensures
            outcome_is(result, print_of(text@)),
    {
        let (raw, extra) = match split_at_first_token(text) {
            Some(parts) => parts,
            None => {
                return Err(
                    advise(
                        String::from_str("Missing number of bytes to print."),
                        "help print",
                        "an example.",
                    ),
                );
            },
        };
        let number = parse_i64(raw);
        Print::from_parts(raw, number, extra)
    }
}

/// What to look for from the reading position on.
#[derive(Debug, Clone, PartialEq, Eq)]
pub enum Find {
    /// The next sector that holds a non-zero byte.
    NonZero,
    /// The next place where the bytes of the pattern stand.
    Byte(BytePattern),
    /// The next place where the text of the pattern stands.
    String(StringPattern),
}

/// The mathematical content of a find command.
pub enum FindView {
    NonZero,
    Byte(Seq<u8>),
    String(Seq<char>),
}

impl View for Find {
    type V = FindView;

    open spec fn view(&self) -> FindView {
        match self {
            Find::NonZero => FindView::NonZero,
            Find::Byte(pattern) => FindView::Byte(pattern@),
            Find::String(pattern) => FindView::String(pattern@),
        }
    }
}

/// The find command with the mode `mode`, already in lower case; `remainder`
/// is what follows the mode.
pub open spec fn find_for_mode(mode: Seq<char>, remainder: Seq<char>) -> Result<
    FindView,
    Seq<char>,
> {
    if mode == "nonzero"@ {
        match rejected_extra(remainder, "help find nonzero"@) {
            Err(message) => Err(message),
            Ok(_) => Ok(FindView::NonZero),
        }
    } else if mode == "bytes"@ {
        match byte_pattern_of(remainder) {
            Err(message) => Err(message),
            Ok(bytes) => Ok(FindView::Byte(bytes)),
        }
    } else if mode == "string"@ {
        match string_pattern_of(remainder) {
            Err(message) => Err(message),
            Ok(text) => Ok(FindView::String(text)),
        }
    } else {
        Err(unknown_find_mode(mode))
    }
}

/// The find command that the arguments `text` stand for: a mode and, for
/// some modes, a pattern.
pub open spec fn find_of(text: Seq<char>) -> Result<FindView, Seq<char>> {
    match first_token(text) {
        None => Err(
            "Missing find mode: 'nonzero', 'bytes', or 'string'."@ + advice(
                "help find"@,
                "an example."@,
            ),
        ),
        Some((mode, remainder)) => find_for_mode(lowercase_of(mode), remainder),
    }
}

impl Find {
    /// The find command with the mode `mode`, given in lower case;
    /// `remainder` is what follows the mode.
    pub fn for_mode(mode: &str, remainder: &str) -> (result: Result<Find, String>)
        ensures
            reads_as(result, find_for_mode(mode@, remainder@)),
    {
        if same_text(mode, "nonzero") {
            match reject_additional_tokens(remainder, "help find nonzero") {
                Ok(_) => Ok(Find::NonZero),
                Err(message) => Err(message),
            }
        } else if same_text(mode, "bytes") {
            match BytePattern::parse(remainder) {
                Ok(pattern) => Ok(Find::Byte(pattern)),
                Err(message) => Err(message),
            }
        } else if same_text(mode, "string") {
            match StringPattern::parse(remainder) {
                Ok(pattern) => Ok(Find::String(pattern)),
                Err(message) => Err(message),
            }
        } else {
            Err(advise(quoted("unknown find mode: '", mode), "help find", "a list of find modes.'"))
        }
    }

    /// Reads the arguments of a find command.
    pub fn parse(text: &str) -> (result: Result<Find, String>)
        ensures
            reads_as(result, find_of(text@)),
    {
        let (mode, remainder) = match split_at_first_token(text) {
            Some(parts) => parts,
            None => {
                return Err(
                    advise(
                        String::from_str("Missing find mode: 'nonzero', 'bytes', or 'string'."),
                        "help find",
                        "an example.",
                    ),
                );
            },
        };
        let lower = to_lowercase(mode);
        Find::for_mode(lower.as_str(), remainder)
    }
}

/// A change of the configuration. There is no option to change yet, so no
/// line is read as such a command.
#[derive(Debug, Clone, Copy, PartialEq, Eq, Structural)]
pub enum Config {
    /// The configuration stays as it is.
    Unchanged,
}

/// The config command that the arguments `text` stand for: there is none,
/// since there is no option; the complaint names the option asked for.
pub open spec fn config_of(text: Seq<char>) -> Result<Config, Seq<char>> {
    match first_token(text) {
        None => Err(
            "Missing config option: there are no options."@ + advice(
                "help config"@,
                "an explanation."@,
            ),
        ),
        Some((option, _)) => Err(
            "Unknown config option: '"@ + option + "'."@ + advice(
                "help config"@,
                "an explanation."@,
            ),
        ),
    }
}

impl Config {
    /// Reads the arguments of a config command: no option is known.
    pub fn parse(text: &str) -> (result: Result<Config, String>)
        ensures
            outcome_is(result, config_of(text@)),
    {
        match split_at_first_token(text) {
            None => Err(
                advise(
                    String::from_str("Missing config option: there are no options."),
                    "help config",
                    "an explanation.",
                ),
            ),
            Some((option, _)) => Err(
                advise(quoted("Unknown config option: '", option), "help config", "an explanation."),
            ),
        }
    }
}

/// What the user asks an explanation of.
#[derive(Debug, Clone, Copy, PartialEq, Eq, Structural)]
pub enum Help {
    /// The list of commands.
    Overview,
    Seek,
    SeekAbsolute,
    SeekRelative,
    Find,
    FindNonZero,
    FindByte,
    FindString,
    Print,
    Config,
}

/// The help topic `topic` once nothing but whitespace follows it.
pub open spec fn help_topic(topic: Help, extra: Seq<char>) -> Result<Help, Seq<char>> {
    match rejected_extra(extra, "help"@) {
        Err(message) => Err(message),
        Ok(_) => Ok(topic),
    }
}

/// The help topic for the seek mode `mode`, already in lower case.
pub open spec fn help_for_seek_mode(mode: Seq<char>, extra: Seq<char>) -> Result<Help, Seq<char>> {
    if mode == "absolute"@ {
        help_topic(Help::SeekAbsolute, extra)
    } else if mode == "relative"@ {
        help_topic(Help::SeekRelative, extra)
    } else {
        Err(unknown_seek_mode(mode))
    }
}

/// The help topic for the find mode `mode`, already in lower case.
pub open spec fn help_for_find_mode(mode: Seq<char>, extra: Seq<char>) -> Result<Help, Seq<char>> {
    if mode == "nonzero"@ {
        help_topic(Help::FindNonZero, extra)
    } else if mode == "bytes"@ {
        help_topic(Help::FindByte, extra)
    } else if mode == "string"@ {
        help_topic(Help::FindString, extra)
    } else {
        Err(unknown_find_mode(mode))
    }
}

/// The help topic for the command `command`, already in lower case;
/// `remainder` may name a mode of that command.
pub open spec fn help_for_command(command: Seq<char>, remainder: Seq<char>) -> Result<
    Help,
    Seq<char>,
> {
    if command == "seek"@ {
        match first_token(remainder) {
            None => Ok(Help::Seek),
            Some((mode, extra)) => help_for_seek_mode(lowercase_of(mode), extra),
        }
    } else if command == "find"@ {
        match first_token(remainder) {
            None => Ok(Help::Find),
            Some((mode, extra)) => help_for_find_mode(lowercase_of(mode), extra),
        }
    } else if command == "print"@ {
        help_topic(Help::Print, remainder)
    } else if command == "config"@ {
        help_topic(Help::Config, remainder)
    } else {
        Err("Unknown help topic: '"@ + command + "'."@ + advice("help"@, "a list of commands."@))
    }
}

/// The help topic that the arguments `text` stand for: none, a command, or a
/// command and one of its modes.
pub open spec fn help_of(text: Seq<char>) -> Result<Help, Seq<char>> {
    match first_token(text) {
        None => Ok(Help::Overview),
        Some((command, remainder)) => help_for_command(lowercase_of(command), remainder),
    }
}

impl Help {
    /// The help topic `topic` once nothing but whitespace follows it.
    fn topic(topic: Help, extra: &str) -> (result: Result<Help, String>)
        ensures
            outcome_is(result, help_topic(topic, extra@)),
    {
        match reject_additional_tokens(extra, "help") {
            Ok(_) => Ok(topic),
            Err(message) => Err(message),
        }
    }

    /// The help topic for the seek mode `mode`, given in lower case.
    pub fn for_seek_mode(mode: &str, extra: &str) -> (result: Result<Help, String>)
        ensures
            outcome_is(result, help_for_seek_mode(mode@, extra@)),
    {
        if same_text(mode, "absolute") {
            Help::topic(Help::SeekAbsolute, extra)
        } else if same_text(mode, "relative") {
            Help::topic(Help::SeekRelative, extra)
        } else {
            Err(advise(quoted("Unknown seek mode: '", mode), "help seek", "a list of seek modes."))
        }
    }

    /// The help topic for the find mode `mode`, given in lower case.
    pub fn for_find_mode(mode: &str, extra: &str) -> (result: Result<Help, String>)
        ensures
            outcome_is(result, help_for_find_mode(mode@, extra@)),
    {
        if same_text(mode, "nonzero") {
            Help::topic(Help::FindNonZero, extra)
        } else if same_text(mode, "bytes") {
            Help::topic(Help::FindByte, extra)
        } else if same_text(mode, "string") {
            Help::topic(Help::FindString, extra)
        } else {
            Err(advise(quoted("unknown find mode: '", mode), "help find", "a list of find modes.'"))
        }
    }

    /// The help topic for the command `command`, given in lower case;
    /// `remainder` may name a mode of that command.
    pub fn for_command(command: &str, remainder: &str) -> (result: Result<Help, String>)
        ensures
            outcome_is(result, help_for_command(command@, remainder@)),
    {
        if same_text(command, "seek") {
            match split_at_first_token(remainder) {
                None => Ok(Help::Seek),
                Some((mode, extra)) => {
                    let lower = to_lowercase(mode);
                    Help::for_seek_mode(lower.as_str(), extra)
                },
            }
        } else if same_text(command, "find") {
            match split_at_first_token(remainder) {
                None => Ok(Help::Find),
                Some((mode, extra)) => {
                    let lower = to_lowercase(mode);
                    Help::for_find_mode(lower.as_str(), extra)
                },
            }
        } else if same_text(command, "print") {
            Help::topic(Help::Print, remainder)
        } else if same_text(command, "config") {
            Help::topic(Help::Config, remainder)
        } else {
            Err(advise(quoted("Unknown help topic: '", command), "help", "a list of commands."))
        }
    }

    /// Reads the arguments of a help command.
    pub fn parse(text: &str) -> (result: Result<Help, String>)
        ensures
            outcome_is(result, help_of(text@)),
    {
        match split_at_first_token(text) {
            None => Ok(Help::Overview),
            Some((command, remainder)) => {
                let lower = to_lowercase(command);
                Help::for_command(lower.as_str(), remainder)
            },
        }
    }
}

/// A command of the user.
#[derive(Debug, Clone, PartialEq, Eq)]
pub enum Command {
    Seek(Seek),
    Find(Find),
    Print(Print),
    Config(Config),
    Help(Help),
    Exit,
    /// The line held no command.
    Nothing,
}

/// The mathematical content of a command.
pub enum CommandView {
    Seek(Seek),
    Find(FindView),
    Print(Print),
    Config(Config),
    Help(Help),
    Exit,
    Nothing,
}

impl View for Command {
    type V = CommandView;

    open spec fn view(&self) -> CommandView {
        match self {
            Command::Seek(seek) => CommandView::Seek(*seek),
            Command::Find(find) => CommandView::Find(find@),
            Command::Print(print) => CommandView::Print(*print),
            Command::Config(config) => CommandView::Config(*config),
            Command::Help(help) => CommandView::Help(*help),
            Command::Exit => CommandView::Exit,
            Command::Nothing => CommandView::Nothing,
        }
    }
}

/// The command with the keyword `keyword`, already in lower case, and the
/// arguments `remainder`.
pub open spec fn command_for_keyword(keyword: Seq<char>, remainder: Seq<char>) -> Result<
    CommandView,
    Seq<char>,
> {
    if keyword == "seek"@ {
        match seek_of(remainder) {
            Err(message) => Err(message),
            Ok(seek) => Ok(CommandView::Seek(seek)),
        }
    } else if keyword == "find"@ {
        match find_of(remainder) {
            Err(message) => Err(message),
            Ok(find) => Ok(CommandView::Find(find)),
        }
    } else if keyword == "print"@ {
        match print_of(remainder) {
            Err(message) => Err(message),
            Ok(print) => Ok(CommandView::Print(print)),
        }
    } else if keyword == "config"@ {
        match config_of(remainder) {
            Err(message) => Err(message),
            Ok(config) => Ok(CommandView::Config(config)),
        }
    } else if keyword == "help"@ {
        match help_of(remainder) {
            Err(message) => Err(message),
            Ok(help) => Ok(CommandView::Help(help)),
        }
    } else if keyword == "exit"@ {
        match rejected_extra(remainder, "help"@) {
            Err(message) => Err(message),
            Ok(_) => Ok(CommandView::Exit),
        }
    } else {
        Err("Unknown command: '"@ + keyword + "'."@ + advice("help"@, "a list of commands."@))
    }
}

/// The command that the line `text` stands for. A line without a token is
/// the command `Nothing`.
pub open spec fn command_of(text: Seq<char>) -> Result<CommandView, Seq<char>> {
    match first_token(text) {
        None => Ok(CommandView::Nothing),
        Some((keyword, remainder)) => command_for_keyword(lowercase_of(keyword), remainder),
    }
}

impl Command {
    /// The command with the keyword `keyword`, given in lower case, and the
    /// arguments `remainder`.
    pub fn for_keyword(keyword: &str, remainder: &str) -> (result: Result<Command, String>)
        ensures
            reads_as(result, command_for_keyword(keyword@, remainder@)),
    {
        if same_text(keyword, "seek") {
            match Seek::parse(remainder) {
                Ok(seek) => Ok(Command::Seek(seek)),
                Err(message) => Err(message),
            }
        } else if same_text(keyword, "find") {
            match Find::parse(remainder) {
                Ok(find) => Ok(Command::Find(find)),
                Err(message) => Err(message),
            }
        } else if same_text(keyword, "print") {
            match Print::parse(remainder) {
                Ok(print) => Ok(Command::Print(print)),
                Err(message) => Err(message),
            }
        } else if same_text(keyword, "config") {
            match Config::parse(remainder) {
                Ok(config) => Ok(Command::Config(config)),
                Err(message) => Err(message),
            }
        } else if same_text(keyword, "help") {
            match Help::parse(remainder) {
                Ok(help) => Ok(Command::Help(help)),
                Err(message) => Err(message),
            }
        } else if same_text(keyword, "exit") {
            match reject_additional_tokens(remainder, "help") {
                Ok(_) => Ok(Command::Exit),
                Err(message) => Err(message),
            }
        } else {
            Err(advise(quoted("Unknown command: '", keyword), "help", "a list of commands."))
        }
    }

    /// Reads a line as a command.
    pub fn parse(text: &str) -> (result: Result<Command, String>)
        ensures
            reads_as(result, command_of(text@)),
    {
        match split_at_first_token(text) {
            None => Ok(Command::Nothing),
            Some((keyword, remainder)) => {
                let lower = to_lowercase(keyword);
                Command::for_keyword(lower.as_str(), remainder)
            },
        }
    }
}

/// A complaint about text behind a complete command names that text and
/// advises the help command given.
pub proof fn lemma_extra_complaints(remainder: Seq<char>, help: Seq<char>)
    requires
        is_help_command(help),
    ensures
        fails_advising(rejected_extra(remainder, help)),
        fails_naming(rejected_extra(remainder, help), trim(remainder)),
{
    let extra = trim(remainder);
    lemma_advises("Unexpected extra parameter: '"@ + extra + "'."@, help, "an explanation."@);
    lemma_names("Unexpected extra parameter: '"@, extra, "'."@ + advice(help, "an explanation."@));
    assert(unexpected_extra(extra, help) =~= "Unexpected extra parameter: '"@ + extra + ("'."@
        + advice(help, "an explanation."@)));
}

/// Every complaint about a seek command advises a help command; it names
/// the number token if that is no number, else the text behind the command
/// if there is any, else the mode.
pub proof fn lemma_seek_complaints(
    mode: Seq<char>,
    raw: Seq<char>,
    number: Result<i64, NumberError>,
    extra: Seq<char>,
)
    ensures
        fails_advising(seek_from_parts(mode, raw, number, extra)),
        fails_naming(
            seek_from_parts(mode, raw, number, extra),
            if number is Err {
                raw
            } else if !is_blank(extra) {
                trim(extra)
            } else {
                mode
            },
        ),
{
    lemma_extra_complaints(extra, "help seek"@);
    match number {
        Err(error) => {
            let after = "' "@ + explanation(error) + "."@ + advice(
                "help seek"@,
                "an explanation."@,
            );
            lemma_advises(
                "invalid offset/position: '"@ + raw + "' "@ + explanation(error) + "."@,
                "help seek"@,
                "an explanation."@,
            );
            lemma_names("invalid offset/position: '"@, raw, after);
            assert(invalid_position(raw, error) =~= "invalid offset/position: '"@ + raw + after);
        },
        Ok(_) => {
            let after = "'."@ + advice("help seek"@, "a list of seek modes."@);
            lemma_advises("Unknown seek mode: '"@ + mode + "'."@, "help seek"@, "a list of seek modes."@);
            lemma_names("Unknown seek mode: '"@, mode, after);
            assert(unknown_seek_mode(mode) =~= "Unknown seek mode: '"@ + mode + after);
        },
    }
}

/// Every complaint about a print command advises a help command; it names
/// the number token if that is no number or a negative one, and else the
/// text behind the command.
pub proof fn lemma_print_complaints(
    raw: Seq<char>,
    number: Result<i64, NumberError>,
    extra: Seq<char>,
)
    ensures
        fails_advising(print_from_parts(raw, number, extra)),
        fails_naming(
            print_from_parts(raw, number, extra),
            if number matches Ok(value) && value >= 0 {
                trim(extra)
            } else {
                raw
            },
        ),
{
    lemma_extra_complaints(extra, "help print"@);
    match number {
        Err(error) => {
            let after = "' "@ + explanation(error) + "."@ + advice(
                "help print"@,
                "an explanation."@,
            );
            lemma_advises(
                "Invalid number of bytes: '"@ + raw + "' "@ + explanation(error) + "."@,
                "help print"@,
                "an explanation."@,
            );
            lemma_names("Invalid number of bytes: '"@, raw, after);
            assert(invalid_count(raw, error) =~= "Invalid number of bytes: '"@ + raw + after);
        },
        Ok(_) => {
            let after = "'."@ + advice("help print"@, "an explanation."@);
            lemma_advises(
                "The number of bytes to print must be non-negative: '"@ + raw + "'."@,
                "help print"@,
                "an explanation."@,
            );
            lemma_names("The number of bytes to print must be non-negative: '"@, raw, after);
            assert(negative_count(raw) =~= "The number of bytes to print must be non-negative: '"@
                + raw + after);
        },
    }
}

/// Every complaint about a find command advises a help command.
pub proof fn lemma_find_complaints(mode: Seq<char>, remainder: Seq<char>)
    ensures
        fails_advising(find_for_mode(mode, remainder)),
{
    lemma_extra_complaints(remainder, "help find nonzero"@);
    lemma_byte_complaints(remainder);
    lemma_string_complaints(remainder);
    lemma_advises("unknown find mode: '"@ + mode + "'."@, "help find"@, "a list of find modes.'"@);
}

/// Every complaint about a help command advises a help command.
pub proof fn lemma_help_complaints(command: Seq<char>, remainder: Seq<char>)
    ensures
        fails_advising(help_for_command(command, remainder)),
        forall|mode: Seq<char>, extra: Seq<char>|
            fails_advising(#[trigger] help_for_seek_mode(mode, extra)),
        forall|mode: Seq<char>, extra: Seq<char>|
            fails_advising(#[trigger] help_for_find_mode(mode, extra)),
{
    assert forall|mode: Seq<char>, extra: Seq<char>|
        fails_advising(#[trigger] help_for_seek_mode(mode, extra)) by {
        lemma_extra_complaints(extra, "help"@);
        lemma_advises("Unknown seek mode: '"@ + mode + "'."@, "help seek"@, "a list of seek modes."@);
    }
    assert forall|mode: Seq<char>, extra: Seq<char>|
        fails_advising(#[trigger] help_for_find_mode(mode, extra)) by {
        lemma_extra_complaints(extra, "help"@);
        lemma_advises(
            "unknown find mode: '"@ + mode + "'."@,
            "help find"@,
            "a list of find modes.'"@,
        );
    }
    lemma_extra_complaints(remainder, "help"@);
    lemma_advises("Unknown help topic: '"@ + command + "'."@, "help"@, "a list of commands."@);
}

/// Every complaint of the command layer ends in the advice to enter a help
/// command.
pub proof fn lemma_complaints_advise(text: Seq<char>)
    ensures
        fails_advising(command_of(text)),
        fails_advising(seek_of(text)),
        fails_advising(print_of(text)),
        fails_advising(find_of(text)),
        fails_advising(help_of(text)),
        fails_advising(config_of(text)),
        forall|keyword: Seq<char>| fails_advising(#[trigger] command_for_keyword(keyword, text)),
{
    lemma_parts_advise(text);
    assert forall|keyword: Seq<char>|
        fails_advising(#[trigger] command_for_keyword(keyword, text)) by {
        lemma_extra_complaints(text, "help"@);
        lemma_advises("Unknown command: '"@ + keyword + "'."@, "help"@, "a list of commands."@);
    }
    match first_token(text) {
        None => {},
        Some((keyword, remainder)) => {
            lemma_parts_advise(remainder);
            lemma_extra_complaints(remainder, "help"@);
            lemma_advises(
                "Unknown command: '"@ + lowercase_of(keyword) + "'."@,
                "help"@,
                "a list of commands."@,
            );
        },
    }
}

/// The complaint about a keyword that is no command names the keyword, and
/// the complaint about a config option names the option.
pub proof fn lemma_unknown_is_named(keyword: Seq<char>, remainder: Seq<char>)
    ensures
        keyword != "seek"@ && keyword != "find"@ && keyword != "print"@ && keyword != "config"@
            && keyword != "help"@ && keyword != "exit"@ ==> command_for_keyword(keyword, remainder)
            is Err && fails_naming(command_for_keyword(keyword, remainder), keyword),
        first_token(remainder) matches Some((option, _)) ==> fails_naming(
            config_of(remainder),
            option,
        ),
{
    let after = "'."@ + advice("help"@, "a list of commands."@);
    lemma_names("Unknown command: '"@, keyword, after);
    assert("Unknown command: '"@ + keyword + "'."@ + advice("help"@, "a list of commands."@)
        =~= "Unknown command: '"@ + keyword + after);
    if let Some((option, _)) = first_token(remainder) {
        let behind = "'."@ + advice("help config"@, "an explanation."@);
        lemma_names("Unknown config option: '"@, option, behind);
        assert("Unknown config option: '"@ + option + "'."@ + advice(
            "help config"@,
            "an explanation."@,
        ) =~= "Unknown config option: '"@ + option + behind);
    }
}

/// Every complaint about the arguments of one command advises a help
/// command.
proof fn lemma_parts_advise(text: Seq<char>)
    ensures
        fails_advising(seek_of(text)),
        fails_advising(print_of(text)),
        fails_advising(find_of(text)),
        fails_advising(help_of(text)),
        fails_advising(config_of(text)),
{
    lemma_advises("Missing seek mode: 'absolute' or 'relative'."@, "help seek"@, "an example."@);
    lemma_advises("Missing offset/position to seek to."@, "help seek"@, "an explanation"@);
    lemma_advises("Missing number of bytes to print."@, "help print"@, "an example."@);
    lemma_advises(
        "Missing find mode: 'nonzero', 'bytes', or 'string'."@,
        "help find"@,
        "an example."@,
    );
    lemma_advises(
        "Missing config option: there are no options."@,
        "help config"@,
        "an explanation."@,
    );
    match first_token(text) {
        None => {},
        Some((first, remainder)) => {
            lemma_advises(
                "Unknown config option: '"@ + first + "'."@,
                "help config"@,
                "an explanation."@,
            );
            lemma_print_complaints(first, parsed_i64(first), remainder);
            lemma_find_complaints(lowercase_of(first), remainder);
            lemma_help_complaints(lowercase_of(first), remainder);
            match first_token(remainder) {
                None => {},
                Some((raw, extra)) => {
                    lemma_seek_complaints(lowercase_of(first), raw, parsed_i64(raw), extra);
                },
            }
        },
    }
}

impl std::str::FromStr for Command {
    type Err = String;

    fn from_str(s: &str) -> (result: Result<Self, Self::Err>)
        ensures
            reads_as(result, command_of(s@)),
    {
        Command::parse(s)
    }
}

impl std::str::FromStr for Seek {
    type Err = String;

    fn from_str(s: &str) -> (result: Result<Self, Self::Err>)
        ensures
            outcome_is(result, seek_of(s@)),
    {
        Seek::parse(s)
    }
}

impl std::str::FromStr for Find {
    type Err = String;

    fn from_str(s: &str) -> (result: Result<Self, Self::Err>)
        ensures
            reads_as(result, find_of(s@)),
    {
        Find::parse(s)
    }
}

impl std::str::FromStr for Print {
    type Err = String;

    fn from_str(s: &str) -> (result: Result<Self, Self::Err>)
        ensures
            outcome_is(result, print_of(s@)),
    {
        Print::parse(s)
    }
}

impl std::str::FromStr for Config {
    type Err = String;

    fn from_str(s: &str) -> (result: Result<Self, Self::Err>)
        ensures
            outcome_is(result, config_of(s@)),
    {
        Config::parse(s)
    }
}

impl std::str::FromStr for Help {
    type Err = String;

    fn from_str(s: &str) -> (result: Result<Self, Self::Err>)
        ensures
            outcome_is(result, help_of(s@)),
    {
        Help::parse(s)
    }
}

} // verus!
