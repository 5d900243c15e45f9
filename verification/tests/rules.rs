use text_editor::config::Settings;
use text_editor::error::Error;
use text_editor::rules::SyntaxFile;
use text_editor::syntax::HlState;
use text_editor::syntax::HlType;
use text_editor::syntax::SyntaxConf;

const RUST: &str = "### rust ###\n\
name = Rust\n\
extensions = rs, rlib\n\
highlight_numbers = true\n\
singleline_string_quotes = \"\n\
singleline_comment_start = //\n\
multiline_comment_delims = /*, */\n\
; the keywords\n\
keywords_1 = fn, let , mut\n\
keywords_2 = u8, usize\n\
keywords_1 = pub\n";

fn error(result: Result<SyntaxFile, Error>) -> (String, usize, String) {
    match result {
        Err(Error::Config(path, line, msg)) => {
            (String::from_utf8(path).unwrap(), line, String::from_utf8(msg).unwrap())
        },
        Err(other) => panic!("{:?}", other),
        Ok(_) => panic!("no error"),
    }
}

fn empty_file() -> SyntaxFile {
    SyntaxFile { conf: SyntaxConf::new(), extensions: Vec::new() }
}

#[test]
fn load_reads_all_settings() {
    let file = SyntaxFile::load(b"rust.ini", RUST.as_bytes()).unwrap();
    assert_eq!(file.extensions, vec![b"rs".to_vec(), b"rlib".to_vec()]);
    let conf = file.conf;
    assert_eq!(conf.name, b"Rust");
    assert!(conf.highlight_numbers);
    assert_eq!(conf.sl_string_quotes, b"\"");
    assert_eq!(conf.sl_comment_start, vec![b"//".to_vec()]);
    assert_eq!(conf.ml_comment_delims, Some((b"/*".to_vec(), b"*/".to_vec())));
    assert_eq!(conf.ml_string_delim, None);
    assert_eq!(conf.keywords.len(), 3);
    assert_eq!(conf.keywords[0].hl, HlType::Keyword1);
    assert_eq!(conf.keywords[0].words, vec![b"fn".to_vec(), b"let".to_vec(), b"mut".to_vec()]);
    assert_eq!(conf.keywords[1].hl, HlType::Keyword2);
    assert_eq!(conf.keywords[1].words, vec![b"u8".to_vec(), b"usize".to_vec()]);
    assert_eq!(conf.keywords[2].hl, HlType::Keyword1);
    assert_eq!(conf.keywords[2].words, vec![b"pub".to_vec()]);
}

#[test]
fn loaded_rules_highlight() {
    let file = SyntaxFile::load(b"rust.ini", RUST.as_bytes()).unwrap();
    let (hl, state) = file.conf.highlight(HlState::Normal, b"pub fn f() /* 1");
    assert_eq!(&hl[0..3], &[HlType::Keyword1; 3]);
    assert_eq!(&hl[4..6], &[HlType::Keyword1; 2]);
    assert_eq!(hl[14], HlType::MlComment);
    assert_eq!(state, HlState::MultiLineComment);
}

#[test]
fn load_of_an_empty_file_gives_plain_rules() {
    let file = SyntaxFile::load(b"x", b"").unwrap();
    assert!(file.extensions.is_empty());
    assert!(file.conf.name.is_empty());
    assert!(!file.conf.highlight_numbers);
    assert!(file.conf.keywords.is_empty());
}

#[test]
fn load_reports_the_first_wrong_line() {
    let result = SyntaxFile::load(b"dir/x.ini", b"name=X\n\nmultiline_comment_delims = /*\n");
    assert_eq!(error(result), ("dir/x.ini".to_string(), 3, "Expected 2 delimiters, got 1".to_string()));
    let result = SyntaxFile::load(b"x", b"multiline_comment_delims = a,b,c");
    assert_eq!(error(result).2, "Expected 2 delimiters, got 3");
    let result = SyntaxFile::load(b"x", b"highlight_numbers = yes");
    assert_eq!(error(result).2, "Parser error: provided string was not `true` or `false`");
    let result = SyntaxFile::load(b"x", b"singleline_string_quotes = \", ''");
    assert_eq!(error(result).2, "Parser error: too many characters in string");
    let result = SyntaxFile::load(b"x", b"colour = red");
    assert_eq!(error(result).2, "Invalid key: colour");
    let result = SyntaxFile::load(b"x", b"name");
    assert_eq!(error(result).2, "No '='");
}

#[test]
fn set_adds_extensions_and_replaces_lists() {
    let mut file = empty_file();
    assert_eq!(file.set(b"extensions", b"a"), Ok(()));
    assert_eq!(file.set(b"extensions", b"b, c"), Ok(()));
    assert_eq!(file.extensions, vec![b"a".to_vec(), b"b".to_vec(), b"c".to_vec()]);
    assert_eq!(file.set(b"singleline_comment_start", b"#, //"), Ok(()));
    assert_eq!(file.set(b"singleline_comment_start", b"--"), Ok(()));
    assert_eq!(file.conf.sl_comment_start, vec![b"--".to_vec()]);
    assert_eq!(file.set(b"singleline_string_quotes", b"', \""), Ok(()));
    assert_eq!(file.conf.sl_string_quotes, b"'\"");
    assert_eq!(file.set(b"multiline_string_delim", b" \"\"\" "), Ok(()));
    assert_eq!(file.conf.ml_string_delim, Some(b"\"\"\"".to_vec()));
}

#[test]
fn set_leaves_the_rules_alone_on_an_error() {
    let mut file = empty_file();
    file.set(b"name", b"A").unwrap();
    assert!(file.set(b"highlight_numbers", b"2").is_err());
    assert!(file.set(b"multiline_comment_delims", b"x").is_err());
    assert!(file.set(b"nam", b"B").is_err());
    assert_eq!(file.conf.name, b"A");
    assert!(!file.conf.highlight_numbers);
    assert_eq!(file.conf.ml_comment_delims, None);
}

#[test]
fn is_for_knows_the_extensions() {
    let file = SyntaxFile::load(b"rust.ini", RUST.as_bytes()).unwrap();
    assert!(file.is_for(b"rs"));
    assert!(file.is_for(b"rlib"));
    assert!(!file.is_for(b"r"));
    assert!(!file.is_for(b""));
    assert!(!empty_file().is_for(b"rs"));
}
