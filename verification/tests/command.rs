use raw_reader::command::{
    reject_additional_tokens, Command, Config, Find, Help, Print, Seek,
};
use raw_reader::number::{get_explanation_for, NumberError};
use raw_reader::pattern::{byte_from_token, BytePattern, StringPattern};
use raw_reader::text::{char_is_whitespace, split_at_first_token, trimmed};

fn message<T: std::fmt::Debug>(result: Result<T, String>) -> String {
    result.unwrap_err()
}

#[test]
fn first_token_ends_at_the_first_whitespace() {
    assert_eq!(split_at_first_token("seek absolute 5"), Some(("seek", "absolute 5")));
    assert_eq!(split_at_first_token("  seek  absolute 5 "), Some(("seek", " absolute 5 ")));
    assert_eq!(split_at_first_token("exit"), Some(("exit", "")));
    assert_eq!(split_at_first_token("exit "), Some(("exit", "")));
    assert_eq!(split_at_first_token("\tfind\u{3000}nonzero"), Some(("find", "nonzero")));
    assert_eq!(split_at_first_token("caf\u{e9} \u{e9}"), Some(("caf\u{e9}", "\u{e9}")));
    assert_eq!(split_at_first_token(""), None);
    assert_eq!(split_at_first_token(" \t\r\n"), None);
}

#[test]
fn whitespace_is_what_the_standard_library_takes_for_it() {
    for code in 0..0x11_0000u32 {
        if let Some(c) = char::from_u32(code) {
            assert_eq!(char_is_whitespace(c), c.is_whitespace());
        }
    }
}

#[test]
fn trimming_drops_whitespace_at_both_ends() {
    assert_eq!(trimmed("  a b \n"), "a b");
    assert_eq!(trimmed("a"), "a");
    assert_eq!(trimmed(" \u{a0} "), "");
    assert_eq!(trimmed(""), "");
    for text in ["  x  y  ", "\u{2003}z", "q\u{85}", " \t ", "plain"] {
        assert_eq!(trimmed(text), text.trim());
    }
}

#[test]
fn text_behind_a_complete_command_is_rejected() {
    assert_eq!(reject_additional_tokens("", "help"), Ok(()));
    assert_eq!(reject_additional_tokens("  \t ", "help"), Ok(()));
    assert_eq!(
        reject_additional_tokens(" now  please ", "help seek"),
        Err("Unexpected extra parameter: 'now  please'. Enter 'help seek' for an explanation."
            .to_owned())
    );
}

#[test]
fn number_failures_are_explained() {
    assert_eq!(get_explanation_for(NumberError::InvalidDigit), "is not a valid number");
    assert_eq!(get_explanation_for(NumberError::PosOverflow), "is too large and overflowed");
    assert_eq!(get_explanation_for(NumberError::NegOverflow), "is too small and overflowed");
    assert_eq!(get_explanation_for(NumberError::Zero), "cannot be 0");
}

#[test]
fn seek_takes_a_mode_and_a_number() {
    assert_eq!("absolute 5".parse::<Seek>(), Ok(Seek::Absolute(5)));
    assert_eq!("relative -3".parse::<Seek>(), Ok(Seek::Relative(-3)));
    assert_eq!("  ABSOLUTE   +17  ".parse::<Seek>(), Ok(Seek::Absolute(17)));
    assert_eq!("Relative 9223372036854775807".parse::<Seek>(), Ok(Seek::Relative(i64::MAX)));
    assert_eq!("absolute -9223372036854775808".parse::<Seek>(), Ok(Seek::Absolute(i64::MIN)));
}

#[test]
fn seek_names_what_is_missing_or_wrong() {
    assert_eq!(
        message("".parse::<Seek>()),
        "Missing seek mode: 'absolute' or 'relative'. Enter 'help seek' for an example."
    );
    assert_eq!(
        message("absolute".parse::<Seek>()),
        "Missing offset/position to seek to. Enter 'help seek' for an explanation"
    );
    assert_eq!(
        message("absolute x12".parse::<Seek>()),
        "invalid offset/position: 'x12' is not a valid number. Enter 'help seek' for an explanation."
    );
    assert_eq!(
        message("absolute 9223372036854775808".parse::<Seek>()),
        "invalid offset/position: '9223372036854775808' is too large and overflowed. Enter 'help seek' for an explanation."
    );
    assert_eq!(
        message("relative -9223372036854775809".parse::<Seek>()),
        "invalid offset/position: '-9223372036854775809' is too small and overflowed. Enter 'help seek' for an explanation."
    );
    assert_eq!(
        message("absolute 5 6".parse::<Seek>()),
        "Unexpected extra parameter: '6'. Enter 'help seek' for an explanation."
    );
    assert_eq!(
        message("Sideways 5".parse::<Seek>()),
        "Unknown seek mode: 'sideways'. Enter 'help seek' for a list of seek modes."
    );
    assert_eq!(
        message("sideways five".parse::<Seek>()),
        "invalid offset/position: 'five' is not a valid number. Enter 'help seek' for an explanation."
    );
}

#[test]
fn seek_from_parts_goes_by_the_number_first() {
    assert_eq!(Seek::from_parts("absolute", "5", Ok(5), " "), Ok(Seek::Absolute(5)));
    assert_eq!(Seek::from_parts("relative", "-1", Ok(-1), ""), Ok(Seek::Relative(-1)));
    assert_eq!(
        message(Seek::from_parts("absolute", "0", Err(NumberError::Zero), "")),
        "invalid offset/position: '0' cannot be 0. Enter 'help seek' for an explanation."
    );
    assert_eq!(
        message(Seek::from_parts("Absolute", "5", Ok(5), "")),
        "Unknown seek mode: 'Absolute'. Enter 'help seek' for a list of seek modes."
    );
}

#[test]
fn print_takes_a_number_of_bytes() {
    assert_eq!("16".parse::<Print>(), Ok(Print(16)));
    assert_eq!(" 0 ".parse::<Print>(), Ok(Print(0)));
    assert_eq!("16".parse::<Print>().unwrap().byte_count(), 16);
    assert_eq!(
        message("".parse::<Print>()),
        "Missing number of bytes to print. Enter 'help print' for an example."
    );
    assert_eq!(
        message("many".parse::<Print>()),
        "Invalid number of bytes: 'many' is not a valid number. Enter 'help print' for an explanation."
    );
    assert_eq!(
        message("-1".parse::<Print>()),
        "The number of bytes to print must be non-negative: '-1'. Enter 'help print' for an explanation."
    );
    assert_eq!(
        message("-17 2".parse::<Print>()),
        "The number of bytes to print must be non-negative: '-17'. Enter 'help print' for an explanation."
    );
    assert_eq!(
        message("1 2".parse::<Print>()),
        "Unexpected extra parameter: '2'. Enter 'help print' for an explanation."
    );
    assert_eq!(Print::from_parts("7", Ok(7), ""), Ok(Print(7)));
}

#[test]
fn find_takes_a_mode_and_its_pattern() {
    assert_eq!("nonzero".parse::<Find>(), Ok(Find::NonZero));
    assert_eq!("NonZero  ".parse::<Find>(), Ok(Find::NonZero));
    assert_eq!(
        "bytes 0 5 255".parse::<Find>(),
        Ok(Find::Byte(BytePattern::new(vec![0, 5, 255])))
    );
    match "string  hello world ".parse::<Find>() {
        Ok(Find::String(pattern)) => assert_eq!(pattern.text(), "hello world"),
        other => panic!("{:?}", other),
    }
    assert_eq!(
        message("".parse::<Find>()),
        "Missing find mode: 'nonzero', 'bytes', or 'string'. Enter 'help find' for an example."
    );
    assert_eq!(
        message("nonzero 5".parse::<Find>()),
        "Unexpected extra parameter: '5'. Enter 'help find nonzero' for an explanation."
    );
    assert_eq!(
        message("Zero".parse::<Find>()),
        "unknown find mode: 'zero'. Enter 'help find' for a list of find modes.'"
    );
}

#[test]
fn byte_pattern_is_a_list_of_bytes() {
    assert_eq!(BytePattern::parse("7").unwrap().bytes(), &vec![7]);
    assert_eq!(BytePattern::parse(" 1\t2  3 ").unwrap().bytes(), &vec![1, 2, 3]);
    assert_eq!(
        message(BytePattern::parse("  ")),
        "Missing bytes to find. Enter 'help find bytes' for an example."
    );
    assert_eq!(
        message(BytePattern::parse("1 256")),
        "Invalid byte: '256' is not between 0 and 255. Enter 'help find bytes' for an explanation."
    );
    assert_eq!(
        message(BytePattern::parse("-1")),
        "Invalid byte: '-1' is not between 0 and 255. Enter 'help find bytes' for an explanation."
    );
    assert_eq!(
        message(BytePattern::parse("1 0x10")),
        "Invalid byte: '0x10' is not a valid number. Enter 'help find bytes' for an explanation."
    );
    assert_eq!(byte_from_token("9", Ok(9)), Ok(9));
    assert_eq!(
        message(byte_from_token("9", Err(NumberError::PosOverflow))),
        "Invalid byte: '9' is too large and overflowed. Enter 'help find bytes' for an explanation."
    );
}

#[test]
fn string_pattern_is_the_text_without_the_whitespace_around_it() {
    assert_eq!(StringPattern::parse(" a  b ").unwrap().text(), "a  b");
    assert_eq!(
        message(StringPattern::parse(" \t")),
        "Missing text to find. Enter 'help find string' for an example."
    );
}

#[test]
fn config_has_no_options() {
    assert_eq!(
        message("".parse::<Config>()),
        "Missing config option: there are no options. Enter 'help config' for an explanation."
    );
    assert_eq!(
        message(" anything else".parse::<Config>()),
        "Unknown config option: 'anything'. Enter 'help config' for an explanation."
    );
    assert_eq!(
        message("config gap 5".parse::<Command>()),
        "Unknown config option: 'gap'. Enter 'help config' for an explanation."
    );
    assert_eq!(
        message("CONFIG".parse::<Command>()),
        "Missing config option: there are no options. Enter 'help config' for an explanation."
    );
}

#[test]
fn help_takes_a_command_and_a_mode() {
    assert_eq!("".parse::<Help>(), Ok(Help::Overview));
    assert_eq!("seek".parse::<Help>(), Ok(Help::Seek));
    assert_eq!("seek absolute".parse::<Help>(), Ok(Help::SeekAbsolute));
    assert_eq!("SEEK Relative".parse::<Help>(), Ok(Help::SeekRelative));
    assert_eq!("find".parse::<Help>(), Ok(Help::Find));
    assert_eq!("find nonzero".parse::<Help>(), Ok(Help::FindNonZero));
    assert_eq!("find bytes".parse::<Help>(), Ok(Help::FindByte));
    assert_eq!("find string".parse::<Help>(), Ok(Help::FindString));
    assert_eq!("print".parse::<Help>(), Ok(Help::Print));
    assert_eq!("config ".parse::<Help>(), Ok(Help::Config));
    assert_eq!(
        message("exit".parse::<Help>()),
        "Unknown help topic: 'exit'. Enter 'help' for a list of commands."
    );
    assert_eq!(
        message("seek up".parse::<Help>()),
        "Unknown seek mode: 'up'. Enter 'help seek' for a list of seek modes."
    );
    assert_eq!(
        message("find all".parse::<Help>()),
        "unknown find mode: 'all'. Enter 'help find' for a list of find modes.'"
    );
    assert_eq!(
        message("print 5".parse::<Help>()),
        "Unexpected extra parameter: '5'. Enter 'help' for an explanation."
    );
    assert_eq!(
        message("seek absolute now".parse::<Help>()),
        "Unexpected extra parameter: 'now'. Enter 'help' for an explanation."
    );
    assert_eq!(Help::for_command("print", " "), Ok(Help::Print));
    assert_eq!(Help::for_seek_mode("absolute", ""), Ok(Help::SeekAbsolute));
    assert_eq!(Help::for_find_mode("bytes", ""), Ok(Help::FindByte));
}

#[test]
fn line_is_read_as_a_command() {
    assert_eq!("seek absolute 5".parse::<Command>(), Ok(Command::Seek(Seek::Absolute(5))));
    assert_eq!("  Seek RELATIVE -8".parse::<Command>(), Ok(Command::Seek(Seek::Relative(-8))));
    assert_eq!("find nonzero".parse::<Command>(), Ok(Command::Find(Find::NonZero)));
    assert_eq!("PRINT 64".parse::<Command>(), Ok(Command::Print(Print(64))));
    assert_eq!("help find string".parse::<Command>(), Ok(Command::Help(Help::FindString)));
    assert_eq!("help".parse::<Command>(), Ok(Command::Help(Help::Overview)));
    assert_eq!("exit".parse::<Command>(), Ok(Command::Exit));
    assert_eq!("Exit  ".parse::<Command>(), Ok(Command::Exit));
    assert_eq!("".parse::<Command>(), Ok(Command::Nothing));
    assert_eq!(" \t ".parse::<Command>(), Ok(Command::Nothing));
    assert_eq!(Command::for_keyword("exit", ""), Ok(Command::Exit));
}

#[test]
fn every_complaint_names_a_help_command() {
    let lines = [
        "seek",
        "seek absolute",
        "seek absolute 12x",
        "seek absolute 99999999999999999999",
        "seek absolute 1 2",
        "seek up 1",
        "print",
        "print x",
        "print -1",
        "print 1 2",
        "find",
        "find nonzero now",
        "find bytes",
        "find bytes 1 300",
        "find bytes 1 z",
        "find string",
        "find all",
        "config",
        "config gap",
        "help me",
        "help seek up",
        "help find all",
        "help print now",
        "exit now",
        "frob",
    ];
    for line in lines {
        let complaint = message(line.parse::<Command>());
        assert!(complaint.contains(" Enter 'help"), "{}", complaint);
    }
    for (line, token) in [
        ("seek absolute 12x", "'12x'"),
        ("seek up 1", "'up'"),
        ("seek absolute 1 2", "'2'"),
        ("print x", "'x'"),
        ("print -1", "'-1'"),
        ("find bytes 1 300", "'300'"),
        ("find all", "'all'"),
        ("config gap", "'gap'"),
        ("help me", "'me'"),
        ("exit now", "'now'"),
        ("frob", "'frob'"),
    ] {
        assert!(message(line.parse::<Command>()).contains(token));
    }
}

#[test]
fn line_that_is_no_command_names_the_token_at_fault() {
    assert_eq!(
        message("Quit now".parse::<Command>()),
        "Unknown command: 'quit'. Enter 'help' for a list of commands."
    );
    assert_eq!(
        message("exit now".parse::<Command>()),
        "Unexpected extra parameter: 'now'. Enter 'help' for an explanation."
    );
    assert_eq!(
        message("seek".parse::<Command>()),
        "Missing seek mode: 'absolute' or 'relative'. Enter 'help seek' for an example."
    );
    assert_eq!(
        message("print x".parse::<Command>()),
        "Invalid number of bytes: 'x' is not a valid number. Enter 'help print' for an explanation."
    );
    assert_eq!(
        message(Command::for_keyword("EXIT", "")),
        "Unknown command: 'EXIT'. Enter 'help' for a list of commands."
    );
}
