use text_editor::config::apply;
use text_editor::config::number_from;
use text_editor::config::parse_ini_line;
use text_editor::config::parse_value;
use text_editor::config::parse_values;
use text_editor::config::process_ini_file;
use text_editor::config::Config;
use text_editor::config::ConfigFile;
use text_editor::config::IniLine;
use text_editor::config::duration_texts;
use text_editor::config::ConfigReader;
use text_editor::config::Seconds;
use text_editor::config::Byte;
use text_editor::config::Parse;
use text_editor::config::Settings;
use text_editor::error::Error;

fn text(result: Result<Vec<u8>, Vec<u8>>) -> Result<String, String> {
    match result {
        Ok(v) => Ok(String::from_utf8(v).unwrap()),
        Err(e) => Err(String::from_utf8(e).unwrap()),
    }
}

fn message<T>(result: Result<T, Vec<u8>>) -> String {
    match result {
        Ok(_) => panic!("no error"),
        Err(e) => String::from_utf8(e).unwrap(),
    }
}

fn file(path: &str, content: &str) -> ConfigFile {
    ConfigFile { path: path.as_bytes().to_vec(), content: content.as_bytes().to_vec() }
}

fn reader() -> ConfigReader {
    ConfigReader { conf: Config::default(), seconds: Vec::new() }
}

fn seconds(text: &str, millis: Result<u64, &str>) -> Seconds {
    Seconds { text: text.as_bytes().to_vec(), millis: millis.map_err(|m| m.as_bytes().to_vec()) }
}

fn processed(path: &[u8], content: &[u8]) -> Result<Config, Error> {
    let mut reader = reader();
    process_ini_file(path, content, &mut reader)?;
    Ok(reader.conf)
}

fn config_error<T: std::fmt::Debug>(result: Result<T, Error>) -> (String, usize, String) {
    match result {
        Err(Error::Config(path, line, msg)) => {
            (String::from_utf8(path).unwrap(), line, String::from_utf8(msg).unwrap())
        },
        other => panic!("no configuration error: {:?}", other),
    }
}

#[test]
fn default_config() {
    let conf = Config::default();
    assert_eq!(conf, Config { tab_stop: 4, quit_times: 2, message_dur: 3000, show_line_num: true });
}

#[test]
fn parse_value_reads_numbers() {
    assert_eq!(parse_value::<usize>(b"42"), Ok(42));
    assert_eq!(parse_value::<usize>(b"  7\t"), Ok(7));
    assert_eq!(parse_value::<usize>(b"+15"), Ok(15));
    assert_eq!(parse_value::<usize>(b"0"), Ok(0));
    assert_eq!(parse_value::<usize>(b"007"), Ok(7));
    assert_eq!(parse_value::<usize>(usize::MAX.to_string().as_bytes()), Ok(usize::MAX));
}

#[test]
fn parse_value_agrees_with_the_standard_parser_on_numbers() {
    for s in ["", " ", "1", "+1", "-1", "+", "-", "12a", "a12", "1 2", "99999999999999999999999", "99999999999999999999999x", "18446744073709551615", "18446744073709551616", "++1", "1+", "0x10", "1_000"] {
        let expected = s.trim().parse::<usize>().map_err(|e| format!("Parser error: {}", e));
        let got = parse_value::<usize>(s.as_bytes()).map_err(|e| String::from_utf8(e).unwrap());
        assert_eq!(got, expected, "{:?}", s);
    }
}

#[test]
fn parse_value_agrees_with_the_standard_parser_on_booleans() {
    for s in ["true", "false", " true ", "True", "", "1", "truee", "fals"] {
        let expected = s.trim().parse::<bool>().map_err(|e| format!("Parser error: {}", e));
        let got = parse_value::<bool>(s.as_bytes()).map_err(|e| String::from_utf8(e).unwrap());
        assert_eq!(got, expected, "{:?}", s);
    }
}

#[test]
fn parse_value_reports_what_is_wrong() {
    assert_eq!(message(parse_value::<usize>(b"")), "Parser error: cannot parse integer from empty string");
    assert_eq!(message(parse_value::<usize>(b"x")), "Parser error: invalid digit found in string");
    assert_eq!(
        message(parse_value::<usize>(b"99999999999999999999999")),
        "Parser error: number too large to fit in target type"
    );
    assert_eq!(message(parse_value::<bool>(b"yes")), "Parser error: provided string was not `true` or `false`");
}

#[test]
fn number_from_respects_the_maximum() {
    assert_eq!(number_from(b"255", 255), Ok(255));
    assert_eq!(message(number_from(b"256", 255)), "number too large to fit in target type");
    assert_eq!(message(number_from(b"25x", 255)), "invalid digit found in string");
    assert_eq!(message(number_from(b"2560x", 255)), "number too large to fit in target type");
}

#[test]
fn parse_reads_without_trimming() {
    assert_eq!(<usize as Parse>::parse(b"12"), Ok(12));
    assert!(<usize as Parse>::parse(b" 12").is_err());
    assert_eq!(<bool as Parse>::parse(b"true"), Ok(true));
    assert!(<bool as Parse>::parse(b"true ").is_err());
}

#[test]
fn parse_values_reads_a_list() {
    assert_eq!(parse_values::<usize>(b"1, 2,3 , 4"), Ok(vec![1, 2, 3, 4]));
    assert_eq!(parse_values::<usize>(b"5"), Ok(vec![5]));
    assert_eq!(parse_values::<bool>(b"true,false"), Ok(vec![true, false]));
}

#[test]
fn parse_values_reports_the_first_value_that_is_wrong() {
    assert_eq!(message(parse_values::<usize>(b"1,x,")), "Parser error: invalid digit found in string");
    assert_eq!(message(parse_values::<usize>(b"1,,x")), "Parser error: cannot parse integer from empty string");
    assert_eq!(message(parse_values::<usize>(b"")), "Parser error: cannot parse integer from empty string");
    assert_eq!(message(parse_values::<usize>(b"1,2,")), "Parser error: cannot parse integer from empty string");
}

#[test]
fn ini_lines() {
    assert!(matches!(parse_ini_line(b""), IniLine::Skip));
    assert!(matches!(parse_ini_line(b"   \t"), IniLine::Skip));
    assert!(matches!(parse_ini_line(b"# a = b"), IniLine::Skip));
    assert!(matches!(parse_ini_line(b"  ; a"), IniLine::Skip));
    assert!(matches!(parse_ini_line(b"#"), IniLine::Skip));
    assert!(matches!(parse_ini_line(b"abc"), IniLine::NoEquals));
    assert!(matches!(parse_ini_line(b"a # = b"), IniLine::Pair { .. }));
    match parse_ini_line(b"  key \t= value = x ") {
        IniLine::Pair { key, value } => {
            assert_eq!(key, b"key");
            assert_eq!(value, b" value = x ");
        },
        _ => panic!("no pair"),
    }
    match parse_ini_line(b"=") {
        IniLine::Pair { key, value } => {
            assert_eq!(key, b"");
            assert_eq!(value, b"");
        },
        _ => panic!("no pair"),
    }
}

#[test]
fn set_known_keys() {
    let mut conf = reader();
    conf.seconds = vec![seconds("1.25", Ok(1250))];
    assert_eq!(conf.set(b"tab_stop", b" 8"), Ok(()));
    assert_eq!(conf.set(b"quit_times", b"0"), Ok(()));
    assert_eq!(conf.set(b"message_duration", b"1.25"), Ok(()));
    assert_eq!(conf.set(b"show_line_numbers", b"false"), Ok(()));
    assert_eq!(conf.conf, Config { tab_stop: 8, quit_times: 0, message_dur: 1250, show_line_num: false });
}

#[test]
fn set_refuses_a_tab_stop_of_zero() {
    let mut conf = reader();
    assert_eq!(text(conf.set(b"tab_stop", b"0").map(|_| Vec::new())), Err("tab_stop must be > 0".to_string()));
    assert_eq!(conf.conf, Config::default());
}

#[test]
fn set_refuses_unknown_keys_and_bad_values() {
    let mut conf = reader();
    assert_eq!(message(conf.set(b"tabstop", b"4")), "Invalid key: tabstop");
    assert_eq!(message(conf.set(b"", b"4")), "Invalid key: ");
    assert_eq!(message(conf.set(b"quit_times", b"-1")), "Parser error: invalid digit found in string");
    assert_eq!(message(conf.set(b"show_line_numbers", b"1")), "Parser error: provided string was not `true` or `false`");
    assert_eq!(conf.conf, Config::default());
}

#[test]
fn apply_one_line() {
    let mut conf = reader();
    assert_eq!(apply(&mut conf, b"  tab_stop = 2"), Ok(()));
    assert_eq!(apply(&mut conf, b"# quit_times = 9"), Ok(()));
    assert_eq!(apply(&mut conf, b""), Ok(()));
    assert_eq!(conf.conf.tab_stop, 2);
    assert_eq!(conf.conf.quit_times, 2);
    assert_eq!(message(apply(&mut conf, b"tab_stop")), "No '='");
}

#[test]
fn process_ini_file_applies_lines_in_order() {
    let content = b"# settings\r\ntab_stop=2\r\n\r\nquit_times = 5\ntab_stop = 3\n; end";
    let conf = processed(b"/etc/x/config.ini", content).unwrap();
    assert_eq!(conf, Config { tab_stop: 3, quit_times: 5, message_dur: 3000, show_line_num: true });
}

#[test]
fn process_ini_file_of_empty_content() {
    assert_eq!(processed(b"p", b"").unwrap(), Config::default());
    assert_eq!(processed(b"p", b"\n\n").unwrap(), Config::default());
}

#[test]
fn process_ini_file_reports_the_line() {
    let result = processed(b"some/config.ini", b"tab_stop=2\n\nquit_times=x\ntab_stop=0\n");
    assert_eq!(
        config_error(result),
        ("some/config.ini".to_string(), 3, "Parser error: invalid digit found in string".to_string())
    );
    let result = processed(b"c", b"\n\nshow_line_numbers");
    assert_eq!(config_error(result), ("c".to_string(), 3, "No '='".to_string()));
    let result = processed(b"c", b"colour=red");
    assert_eq!(config_error(result), ("c".to_string(), 1, "Invalid key: colour".to_string()));
    let result = processed(b"c", b"tab_stop=0\r\n");
    assert_eq!(config_error(result), ("c".to_string(), 1, "tab_stop must be > 0".to_string()));
}

#[test]
fn carriage_return_belongs_to_an_unfinished_last_line() {
    assert_eq!(processed(b"c", b"show_line_numbers=false\r\n").unwrap().show_line_num, false);
    let result = processed(b"c", b"a\r");
    assert_eq!(config_error(result).2, "No '='");
    assert_eq!(processed(b"c", b"\r\n").unwrap(), Config::default());
}

#[test]
fn load_without_files_gives_the_defaults() {
    assert_eq!(Config::load(&[], Vec::new()).unwrap(), Config::default());
}

#[test]
fn load_lets_earlier_files_override_later_ones() {
    let files = vec![
        file("/home/u/.config/ed/config.ini", "tab_stop=2\n"),
        file("/etc/ed/config.ini", "tab_stop=8\nquit_times=1\n"),
    ];
    let conf = Config::load(&files, Vec::new()).unwrap();
    assert_eq!(conf, Config { tab_stop: 2, quit_times: 1, message_dur: 3000, show_line_num: true });
}

#[test]
fn load_stops_at_the_first_wrong_line() {
    let files = vec![file("first", "tab_stop=x\n"), file("second", "quit_times=3\nbad line\n")];
    assert_eq!(config_error(Config::load(&files, Vec::new())), ("second".to_string(), 2, "No '='".to_string()));
    let files = vec![file("first", "tab_stop=x\n"), file("second", "quit_times=3\n")];
    assert_eq!(
        config_error(Config::load(&files, Vec::new())),
        ("first".to_string(), 1, "Parser error: invalid digit found in string".to_string())
    );
}

#[test]
fn process_ini_file_keeps_the_lines_before_the_wrong_one() {
    let mut conf = reader();
    let result = process_ini_file(b"c", b"tab_stop=2\nquit_times=x\ntab_stop=9\n", &mut conf);
    assert_eq!(config_error(result).1, 2);
    assert_eq!(conf.conf.tab_stop, 2);
    assert_eq!(conf.conf.quit_times, 2);
}

#[test]
fn parse_value_reads_texts_and_bytes() {
    assert_eq!(parse_value::<Vec<u8>>(b"  a b  "), Ok(b"a b".to_vec()));
    assert_eq!(parse_value::<Vec<u8>>(b""), Ok(Vec::new()));
    assert_eq!(parse_value::<Byte>(b" ' "), Ok(Byte(b'\'')));
    assert_eq!(message(parse_value::<Byte>(b"  ")), "Parser error: cannot parse char from empty string");
    assert_eq!(message(parse_value::<Byte>(b"ab")), "Parser error: too many characters in string");
}

#[test]
fn parse_values_reads_texts() {
    assert_eq!(
        parse_values::<Vec<u8>>(b" rs, toml ,,x y"),
        Ok(vec![b"rs".to_vec(), b"toml".to_vec(), b"".to_vec(), b"x y".to_vec()])
    );
    assert_eq!(parse_values::<Vec<u8>>(b""), Ok(vec![Vec::new()]));
    assert_eq!(parse_values::<Byte>(b"\", '"), Ok(vec![Byte(b'"'), Byte(b'\'')]));
}

#[test]
fn message_duration_comes_to_what_the_reader_is_told() {
    let files = vec![file("c", "message_duration = 1.5\nmessage_duration=1e3\n")];
    let table = vec![seconds(" 1.5", Ok(1500)), seconds("1e3", Ok(1_000_000))];
    assert_eq!(Config::load(&files, table).unwrap().message_dur, 1_000_000);
    let files = vec![file("c", "message_duration = 1.5\n")];
    let table = vec![seconds("1e3", Ok(1_000_000)), seconds(" 1.5", Ok(1500)), seconds(" 1.5", Ok(7))];
    assert_eq!(Config::load(&files, table).unwrap().message_dur, 1500);
}

#[test]
fn message_duration_that_is_wrong_ends_the_loading() {
    let files = vec![file("c", "tab_stop=2\nmessage_duration=abc\ntab_stop=0\n")];
    let table = vec![seconds("abc", Err("Parser error: invalid float literal"))];
    assert_eq!(
        config_error(Config::load(&files, table)),
        ("c".to_string(), 2, "Parser error: invalid float literal".to_string())
    );
}

#[test]
fn message_duration_of_which_nothing_is_known_ends_the_loading() {
    let files = vec![file("c", "message_duration=3\n")];
    let table = vec![seconds("3 ", Ok(3000))];
    assert_eq!(
        config_error(Config::load(&files, table)),
        ("c".to_string(), 1, "Parser error: no length of time is known for this value".to_string())
    );
}

#[test]
fn duration_texts_lists_the_values_in_order() {
    let content = b"# message_duration=9\nmessage_duration = 1.5\ntab_stop=x\n  message_duration=\nmessage_duration\t= 2 \r\n";
    assert_eq!(duration_texts(content), vec![b" 1.5".to_vec(), b"".to_vec(), b" 2 ".to_vec()]);
    assert_eq!(duration_texts(b""), Vec::<Vec<u8>>::new());
    assert_eq!(duration_texts(b"tab_stop=2"), Vec::<Vec<u8>>::new());
}

#[test]
fn duration_texts_stops_at_a_line_that_is_no_setting() {
    let content = b"message_duration=1\nnonsense\nmessage_duration=2\n";
    assert_eq!(duration_texts(content), vec![b"1".to_vec()]);
}
