use text_editor::syntax::find_at;
use text_editor::syntax::push_color;
use text_editor::syntax::separates;
use text_editor::syntax::HlState;
use text_editor::syntax::HlType;
use text_editor::syntax::KeywordGroup;
use text_editor::syntax::SyntaxConf;

fn rust_like() -> SyntaxConf {
    SyntaxConf {
        name: b"Rust".to_vec(),
        highlight_numbers: true,
        sl_string_quotes: vec![b'"', b'\''],
        sl_comment_start: vec![b"//".to_vec()],
        ml_comment_delims: Some((b"/*".to_vec(), b"*/".to_vec())),
        ml_string_delim: Some(b"\"\"\"".to_vec()),
        keywords: vec![
            KeywordGroup { hl: HlType::Keyword1, words: vec![b"fn".to_vec(), b"let".to_vec(), b"in".to_vec()] },
            KeywordGroup { hl: HlType::Keyword2, words: vec![b"u8".to_vec(), b"letter".to_vec()] },
        ],
    }
}

fn tags(text: &str) -> Vec<HlType> {
    text.bytes()
        .map(|b| match b {
            b'.' => HlType::Normal,
            b'n' => HlType::Number,
            b's' => HlType::String,
            b'S' => HlType::MlString,
            b'c' => HlType::Comment,
            b'C' => HlType::MlComment,
            b'1' => HlType::Keyword1,
            b'2' => HlType::Keyword2,
            _ => panic!("unknown tag"),
        })
        .collect()
}

#[test]
fn plain_rules_tag_nothing() {
    let (hl, state) = SyntaxConf::new().highlight(HlState::Normal, b"let x = \"1\"; // c");
    assert_eq!(hl, vec![HlType::Normal; 17]);
    assert_eq!(state, HlState::Normal);
}

#[test]
fn highlight_has_a_tag_for_each_column() {
    for line in [&b""[..], b"a", b"fn f() { /* */ }", b"\"abc", b"\\", b"\"\\"] {
        let (hl, _) = rust_like().highlight(HlState::Normal, line);
        assert_eq!(hl.len(), line.len());
    }
}

#[test]
fn highlight_keywords_numbers_and_comments() {
    let (hl, state) = rust_like().highlight(HlState::Normal, b"let x: u8 = 12; // in");
    assert_eq!(hl, tags("111....22...nn..ccccc"));
    assert_eq!(state, HlState::Normal);
}

#[test]
fn keywords_need_separators_around_them() {
    let (hl, _) = rust_like().highlight(HlState::Normal, b"inlet in_x xin in");
    assert_eq!(hl, tags("...............11"));
}

#[test]
fn first_keyword_in_order_wins() {
    let (hl, _) = rust_like().highlight(HlState::Normal, b"letter let");
    assert_eq!(hl, tags("222222.111"));
}

#[test]
fn numbers_run_on_inside_a_word() {
    let (hl, _) = rust_like().highlight(HlState::Normal, b"0x1f a1 1.5 1a+2");
    assert_eq!(hl, tags("nnnn....n.n.nn.n"));
}

#[test]
fn numbers_can_be_switched_off() {
    let mut conf = rust_like();
    conf.highlight_numbers = false;
    let (hl, _) = conf.highlight(HlState::Normal, b"12");
    assert_eq!(hl, tags(".."));
}

#[test]
fn strings_run_to_their_quote() {
    let (hl, state) = rust_like().highlight(HlState::Normal, b"a \"b 'c\" 'd\"' e");
    assert_eq!(hl, tags("..ssssss.ssss.."));
    assert_eq!(state, HlState::Normal);
}

#[test]
fn backslash_guards_the_next_column() {
    let (hl, state) = rust_like().highlight(HlState::Normal, b"\"a\\\"b\" c");
    assert_eq!(hl, tags("ssssss.."));
    assert_eq!(state, HlState::Normal);
}

#[test]
fn backslash_at_the_end_guards_nothing() {
    let (hl, state) = rust_like().highlight(HlState::Normal, b"\"a\\");
    assert_eq!(hl, tags("sss"));
    assert_eq!(state, HlState::String(b'"'));
}

#[test]
fn unterminated_string_carries_over() {
    let conf = rust_like();
    let (hl, state) = conf.highlight(HlState::Normal, b"x = 'abc");
    assert_eq!(hl, tags("....ssss"));
    assert_eq!(state, HlState::String(b'\''));
    let (hl, state) = conf.highlight(state, b"d' 1");
    assert_eq!(hl, tags("ss.n"));
    assert_eq!(state, HlState::Normal);
}

#[test]
fn multi_line_comment_carries_over() {
    let conf = rust_like();
    let (hl, state) = conf.highlight(HlState::Normal, b"a /* b");
    assert_eq!(hl, tags("..CCCC"));
    assert_eq!(state, HlState::MultiLineComment);
    let (hl, state) = conf.highlight(state, b"let // \"");
    assert_eq!(hl, tags("CCCCCCCC"));
    assert_eq!(state, HlState::MultiLineComment);
    let (hl, state) = conf.highlight(state, b"c */ let");
    assert_eq!(hl, tags("CCCC.111"));
    assert_eq!(state, HlState::Normal);
}

#[test]
fn multi_line_string_carries_over() {
    let conf = rust_like();
    let (hl, state) = conf.highlight(HlState::Normal, b"x = \"\"\"a");
    assert_eq!(hl, tags("....SSSS"));
    assert_eq!(state, HlState::MultiLineString);
    let (hl, state) = conf.highlight(state, b"b\"\"\" 1");
    assert_eq!(hl, tags("SSSS.n"));
    assert_eq!(state, HlState::Normal);
}

#[test]
fn line_comment_does_not_start_inside_a_string_or_comment() {
    let conf = rust_like();
    let (hl, _) = conf.highlight(HlState::Normal, b"\"//\" /* // */ x");
    assert_eq!(hl, tags("ssss.CCCCCCCC.."));
}

#[test]
fn line_comment_state_stays_in_the_row() {
    let (_, state) = rust_like().highlight(HlState::Normal, b"// /* \"");
    assert_eq!(state, HlState::Normal);
}

#[test]
fn empty_row_keeps_the_state() {
    let conf = rust_like();
    assert_eq!(conf.highlight(HlState::Normal, b"").1, HlState::Normal);
    assert_eq!(conf.highlight(HlState::MultiLineComment, b"").1, HlState::MultiLineComment);
    assert_eq!(conf.highlight(HlState::String(b'"'), b"").1, HlState::String(b'"'));
    assert_eq!(conf.highlight(HlState::MultiLineString, b"  ").1, HlState::MultiLineString);
}

#[test]
fn empty_delimiters_match_nothing() {
    let mut conf = SyntaxConf::new();
    conf.sl_comment_start = vec![Vec::new()];
    conf.ml_comment_delims = Some((Vec::new(), Vec::new()));
    conf.ml_string_delim = Some(Vec::new());
    conf.keywords = vec![KeywordGroup { hl: HlType::Keyword1, words: vec![Vec::new()] }];
    let (hl, state) = conf.highlight(HlState::Normal, b"ab c");
    assert_eq!(hl, tags("...."));
    assert_eq!(state, HlState::Normal);
    let (hl, state) = conf.highlight(HlState::MultiLineComment, b"ab");
    assert_eq!(hl, tags("CC"));
    assert_eq!(state, HlState::MultiLineComment);
}

#[test]
fn highlight_is_a_function_of_state_and_bytes() {
    let conf = rust_like();
    let line = b"fn f(x: u8) -> u8 { x /* 1 */ + 1 } // \"";
    assert_eq!(conf.highlight(HlState::Normal, line), conf.highlight(HlState::Normal, line));
}

#[test]
fn next_token_reads_one_run() {
    let conf = rust_like();
    assert_eq!(conf.next_token(HlState::Normal, b"let x", 0, false), (3, HlType::Keyword1, HlState::Normal));
    assert_eq!(conf.next_token(HlState::Normal, b"a // b", 2, false), (4, HlType::Comment, HlState::Normal));
    assert_eq!(conf.next_token(HlState::Normal, b"/* b", 0, false), (2, HlType::MlComment, HlState::MultiLineComment));
    assert_eq!(conf.next_token(HlState::MultiLineComment, b"a*/", 1, false), (2, HlType::MlComment, HlState::Normal));
    assert_eq!(conf.next_token(HlState::String(b'"'), b"a\\\"", 1, false), (2, HlType::String, HlState::String(b'"')));
    assert_eq!(conf.next_token(HlState::Normal, b"1a", 1, true), (1, HlType::Number, HlState::Normal));
    assert_eq!(conf.next_token(HlState::Normal, b"1a", 1, false), (1, HlType::Normal, HlState::Normal));
}

#[test]
fn find_at_matches_tokens() {
    assert!(find_at(b"a//b", 1, b"//"));
    assert!(!find_at(b"a//b", 0, b"//"));
    assert!(!find_at(b"a/", 1, b"//"));
    assert!(!find_at(b"abc", 1, b""));
    assert!(!find_at(b"abc", 7, b"c"));
    assert!(find_at(b"abc", 0, b"abc"));
}

#[test]
fn separators() {
    for c in [b' ', b'\t', b'\n', 0, b'(', b'.', b';', b'~', b'@', b'[', b'`', b'{'] {
        assert!(separates(c), "{}", c);
    }
    for c in [b'_', b'a', b'Z', b'0', 0x7f, 0x80, 0xff, 0x0b, 1] {
        assert!(!separates(c), "{}", c);
    }
    for c in 0..=255u8 {
        let expected = c.is_ascii_whitespace() || c == 0 || (c.is_ascii_punctuation() && c != b'_');
        assert_eq!(separates(c), expected, "{}", c);
    }
}

#[test]
fn colours() {
    let mut out = Vec::new();
    push_color(&mut out, HlType::Normal);
    push_color(&mut out, HlType::MlComment);
    push_color(&mut out, HlType::Keyword2);
    assert_eq!(out, b"\x1b[39m\x1b[134m\x1b[35m");
}
