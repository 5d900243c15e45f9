//! Syntax highlighting: the rules of a language, and the scanner that tags the columns of one
//! rendered line with them.
//!
//! The scanner is stateless. It is handed the state in which the line begins (inside a string or
//! a multi-line comment, say) and returns, with the tags, the state in which the line ends. That
//! state is a small value, compared with `==`.

use vstd::prelude::*;

verus! {

/// The category of one rendered column.
#[derive(Clone, Copy, Debug, PartialEq, Eq, Structural)]
pub enum HlType {
    Normal,
    Number,
    Match,
    String,
    MlString,
    Comment,
    MlComment,
    Keyword1,
    Keyword2,
}

/// The state that the scanner carries from the end of one line to the start of the next.
#[derive(Clone, Copy, Debug, PartialEq, Eq, Structural)]
pub enum HlState {
    /// Outside any string or comment.
    Normal,
    /// Inside a multi-line comment.
    MultiLineComment,
    /// Inside a string that the quote held here closes.
    String(u8),
    /// Inside a multi-line string.
    MultiLineString,
}

/// A list of keywords that are tagged alike.
pub struct KeywordGroup {
    /// The tag of the keywords.
    pub hl: HlType,
    /// The keywords.
    pub words: Vec<Vec<u8>>,
}

/// The highlighting rules of one language.
pub struct SyntaxConf {
    /// The name of the language.
    pub name: Vec<u8>,
    /// Whether numbers are tagged.
    pub highlight_numbers: bool,
    /// The bytes that open and close a string.
    pub sl_string_quotes: Vec<u8>,
    /// The tokens that start a comment that runs to the end of the line.
    pub sl_comment_start: Vec<Vec<u8>>,
    /// The tokens that start and end a multi-line comment.
    pub ml_comment_delims: Option<(Vec<u8>, Vec<u8>)>,
    /// The token that starts and ends a multi-line string.
    pub ml_string_delim: Option<Vec<u8>>,
    /// The keywords, group by group.
    pub keywords: Vec<KeywordGroup>,
}

/// Whether the token `pat` stands in `line` at column `i`. An empty token stands nowhere.
pub open spec fn matches_at(line: Seq<u8>, i: int, pat: Seq<u8>) -> bool {
    &&& pat.len() > 0
    &&& 0 <= i
    &&& i + pat.len() <= line.len()
    &&& forall|k: int| 0 <= k < pat.len() ==> line[i + k] == pat[k]
}

/// Whether `c` separates words: white space, the zero byte, and punctuation but for `_`.
pub open spec fn is_sep(c: u8) -> bool {
    ||| c == 0x20 || c == 0x09 || c == 0x0a || c == 0x0c || c == 0x0d
    ||| c == 0
    ||| (0x21 <= c <= 0x2f)
    ||| (0x3a <= c <= 0x40)
    ||| (0x5b <= c <= 0x5e)
    ||| c == 0x60
    ||| (0x7b <= c <= 0x7e)
}

/// Whether `c` is a decimal digit.
pub open spec fn is_digit(c: u8) -> bool {
    0x30 <= c <= 0x39
}

/// Whether the keyword `word` stands in `line` at column `i`, with a separator or the end of the
/// line behind it.
pub open spec fn keyword_at(line: Seq<u8>, i: int, word: Seq<u8>) -> bool {
    matches_at(line, i, word) && (i + word.len() == line.len() || is_sep(line[i + word.len()]))
}

/// The length of the first of `words`, from index `w` on, that stands as a keyword in `line` at
/// column `i`.
pub open spec fn first_word(words: Seq<Vec<u8>>, line: Seq<u8>, i: int, w: int) -> Option<int>
    decreases words.len() - w,
{
    if w < 0 || w >= words.len() {
        None
    } else if keyword_at(line, i, words[w]@) {
        Some(words[w]@.len() as int)
    } else {
        first_word(words, line, i, w + 1)
    }
}

/// The tag and length of the first keyword of `groups`, from group `g` on, that stands in `line`
/// at column `i`.
pub open spec fn first_keyword(groups: Seq<KeywordGroup>, line: Seq<u8>, i: int, g: int) -> Option<
    (HlType, int),
>
    decreases groups.len() - g,
{
    if g < 0 || g >= groups.len() {
        None
    } else {
        match first_word(groups[g].words@, line, i, 0) {
            Some(n) => Some((groups[g].hl, n)),
            None => first_keyword(groups, line, i, g + 1),
        }
    }
}

/// Whether one of the tokens `starts`, from index `k` on, stands in `line` at column `i`.
pub open spec fn any_matches(starts: Seq<Vec<u8>>, line: Seq<u8>, i: int, k: int) -> bool {
    exists|j: int| k <= j < starts.len() && matches_at(line, i, #[trigger] starts[j]@)
}

/// Tells whether `pat` stands in `line` at column `i`.
pub fn find_at(line: &[u8], i: usize, pat: &[u8]) -> (found: bool)
    ensures
        found == matches_at(line@, i as int, pat@),
{
    let n = pat.len();
    if n == 0 || i > line.len() || n > line.len() - i {
        return false;
    }
    let mut k: usize = 0;
    while k < n
        invariant
            0 <= k <= n,
            n == pat@.len(),
            i + n <= line@.len() <= usize::MAX,
            forall|j: int| 0 <= j < k ==> line@[i + j] == pat@[j],
        decreases n - k,
    {
        if line[i + k] != pat[k] {
            return false;
        }
        k = k + 1;
    }
    true
}

/// Tells whether `c` separates words.
pub fn separates(c: u8) -> (r: bool)
    ensures
        r == is_sep(c),
{
    c == 0x20 || c == 0x09 || c == 0x0a || c == 0x0c || c == 0x0d || c == 0 || (0x21 <= c && c
        <= 0x2f) || (0x3a <= c && c <= 0x40) || (0x5b <= c && c <= 0x5e) || c == 0x60 || (0x7b
        <= c && c <= 0x7e)
}

/// One step of the scanner: a run of columns that get the same tag.
pub struct Token {
    /// The number of columns of the run.
    pub len: int,
    /// The tag of the columns.
    pub tag: HlType,
    /// The scanner's state behind the run.
    pub next: HlState,
}

impl SyntaxConf {
    /// Whether `c` opens a string.
    pub open spec fn is_quote(&self, c: u8) -> bool {
        self.sl_string_quotes@.contains(c)
    }

    /// The token that starts a multi-line comment; empty where the language has none.
    pub open spec fn comment_start(&self) -> Seq<u8> {
        match self.ml_comment_delims {
            Some(d) => d.0@,
            None => Seq::empty(),
        }
    }

    /// The token that ends a multi-line comment; empty where the language has none.
    pub open spec fn comment_end(&self) -> Seq<u8> {
        match self.ml_comment_delims {
            Some(d) => d.1@,
            None => Seq::empty(),
        }
    }

    /// The token that starts and ends a multi-line string; empty where the language has none.
    pub open spec fn string_delim(&self) -> Seq<u8> {
        match self.ml_string_delim {
            Some(d) => d@,
            None => Seq::empty(),
        }
    }

    /// Whether a number runs over column `i` of `line`: a digit at the start of a word, or
    /// whatever follows a number inside the same word.
    pub open spec fn number_at(&self, line: Seq<u8>, i: int, after_number: bool) -> bool {
        let prev_sep = i == 0 || is_sep(line[i - 1]);
        self.highlight_numbers && ((is_digit(line[i]) && prev_sep) || (i != 0 && after_number
            && !prev_sep && !is_sep(line[i])))
    }

    /// The token that the scanner reads at column `i` of `line` in state `st`, where
    /// `after_number` says that the column before `i` was tagged as a number.
    ///
    /// In order: a line comment takes the rest of the line; a multi-line comment or string runs
    /// to its end token; a string runs to its quote, and a backslash in it guards the next
    /// column; a quote opens a string; then numbers, then keywords at the start of a word; all
    /// else is normal text, column by column.
    pub open spec fn token_at(
        &self,
        st: HlState,
        line: Seq<u8>,
        i: int,
        after_number: bool,
    ) -> Token
        recommends
            0 <= i < line.len(),
    {
        let c = line[i];
        let prev_sep = i == 0 || is_sep(line[i - 1]);
        if st == HlState::Normal && any_matches(self.sl_comment_start@, line, i, 0) {
            Token { len: line.len() - i, tag: HlType::Comment, next: HlState::Normal }
        } else if self.ml_comment_delims is Some && st == HlState::MultiLineComment {
            if matches_at(line, i, self.comment_end()) {
                Token {
                    len: self.comment_end().len() as int,
                    tag: HlType::MlComment,
                    next: HlState::Normal,
                }
            } else {
                Token { len: 1, tag: HlType::MlComment, next: st }
            }
        } else if st == HlState::Normal && matches_at(line, i, self.comment_start()) {
            Token {
                len: self.comment_start().len() as int,
                tag: HlType::MlComment,
                next: HlState::MultiLineComment,
            }
        } else if self.ml_string_delim is Some && st == HlState::MultiLineString {
            if matches_at(line, i, self.string_delim()) {
                Token {
                    len: self.string_delim().len() as int,
                    tag: HlType::MlString,
                    next: HlState::Normal,
                }
            } else {
                Token { len: 1, tag: HlType::MlString, next: st }
            }
        } else if st == HlState::Normal && matches_at(line, i, self.string_delim()) {
            Token {
                len: self.string_delim().len() as int,
                tag: HlType::MlString,
                next: HlState::MultiLineString,
            }
        } else if let HlState::String(quote) = st {
            if c == quote {
                Token { len: 1, tag: HlType::String, next: HlState::Normal }
            } else if c == 0x5c && i != line.len() - 1 {
                Token { len: 2, tag: HlType::String, next: st }
            } else {
                Token { len: 1, tag: HlType::String, next: st }
            }
        } else if self.is_quote(c) {
            Token { len: 1, tag: HlType::String, next: HlState::String(c) }
        } else if self.number_at(line, i, after_number) {
            Token { len: 1, tag: HlType::Number, next: st }
        } else if prev_sep && first_keyword(self.keywords@, line, i, 0) is Some {
            let k = first_keyword(self.keywords@, line, i, 0).unwrap();
            Token { len: k.1, tag: k.0, next: st }
        } else {
            Token { len: 1, tag: HlType::Normal, next: st }
        }
    }

    /// The tags of the columns of `line` from column `i` on, and the state at its end, for a
    /// scanner that stands at column `i` in state `st`.
    pub open spec fn scan(&self, st: HlState, line: Seq<u8>, i: int, after_number: bool) -> (
        Seq<HlType>,
        HlState,
    )
        decreases line.len() - i,
    {
        if i < 0 || i >= line.len() {
            (Seq::empty(), st)
        } else {
            let t = self.token_at(st, line, i, after_number);
            if t.len <= 0 || i + t.len > line.len() {
                (Seq::empty(), st)
            } else {
                let rest = self.scan(t.next, line, i + t.len, t.tag == HlType::Number);
                (Seq::new(t.len as nat, |k: int| t.tag) + rest.0, rest.1)
            }
        }
    }

    /// The tags of all columns of `line`, for a scanner that starts it in state `st`.
    pub open spec fn tags_of(&self, st: HlState, line: Seq<u8>) -> Seq<HlType> {
        self.scan(st, line, 0, false).0
    }

    /// The state in which a scanner that starts `line` in state `st` ends it.
    pub open spec fn state_after(&self, st: HlState, line: Seq<u8>) -> HlState {
        self.scan(st, line, 0, false).1
    }

    /// Every token is at least one column long and ends inside the line.
    pub proof fn lemma_token_fits(&self, st: HlState, line: Seq<u8>, i: int, after_number: bool)
        requires
            0 <= i < line.len(),
        ensures
            1 <= self.token_at(st, line, i, after_number).len <= line.len() - i,
    {
        if first_keyword(self.keywords@, line, i, 0) is Some {
            lemma_first_keyword_fits(self.keywords@, line, i, 0);
        }
    }

    /// The scanner tags every column from `i` on, once.
    pub proof fn lemma_scan_len(&self, st: HlState, line: Seq<u8>, i: int, after_number: bool)
        requires
            0 <= i <= line.len(),
        ensures
            self.scan(st, line, i, after_number).0.len() == line.len() - i,
        decreases line.len() - i,
    {
        if i < line.len() {
            self.lemma_token_fits(st, line, i, after_number);
            let t = self.token_at(st, line, i, after_number);
            self.lemma_scan_len(t.next, line, i + t.len, t.tag == HlType::Number);
        }
    }
}

/// A word that is found as a keyword at column `i` is not empty and ends inside the line.
pub proof fn lemma_first_word_fits(words: Seq<Vec<u8>>, line: Seq<u8>, i: int, w: int)
    requires
        first_word(words, line, i, w) is Some,
    ensures
        1 <= first_word(words, line, i, w).unwrap() <= line.len() - i,
    decreases words.len() - w,
{
    if 0 <= w < words.len() && !keyword_at(line, i, words[w]@) {
        lemma_first_word_fits(words, line, i, w + 1);
    }
}

/// A keyword that is found at column `i` is not empty and ends inside the line.
pub proof fn lemma_first_keyword_fits(groups: Seq<KeywordGroup>, line: Seq<u8>, i: int, g: int)
    requires
        first_keyword(groups, line, i, g) is Some,
    ensures
        1 <= first_keyword(groups, line, i, g).unwrap().1 <= line.len() - i,
    decreases groups.len() - g,
{
    if 0 <= g < groups.len() {
        if first_word(groups[g].words@, line, i, 0) is Some {
            lemma_first_word_fits(groups[g].words@, line, i, 0);
        } else {
            lemma_first_keyword_fits(groups, line, i, g + 1);
        }
    }
}

impl SyntaxConf {
    /// Tells whether a line comment starts at column `i` of `line`.
    fn starts_comment(&self, line: &[u8], i: usize) -> (r: bool)
        ensures
            r == any_matches(self.sl_comment_start@, line@, i as int, 0),
    {
        let mut k: usize = 0;
        while k < self.sl_comment_start.len()
            invariant
                0 <= k <= self.sl_comment_start@.len(),
                forall|j: int| 0 <= j < k
                    ==> !matches_at(line@, i as int, #[trigger] self.sl_comment_start@[j]@),
            decreases self.sl_comment_start@.len() - k,
        {
            if find_at(line, i, self.sl_comment_start[k].as_slice()) {
                return true;
            }
            k = k + 1;
        }
        false
    }

    /// Tells whether `c` opens a string.
    fn opens_string(&self, c: u8) -> (r: bool)
        ensures
            r == self.is_quote(c),
    {
        let mut k: usize = 0;
        while k < self.sl_string_quotes.len()
            invariant
                0 <= k <= self.sl_string_quotes@.len(),
                forall|j: int| 0 <= j < k ==> self.sl_string_quotes@[j] != c,
            decreases self.sl_string_quotes@.len() - k,
        {
            if self.sl_string_quotes[k] == c {
                return true;
            }
            k = k + 1;
        }
        false
    }

    /// Finds the first keyword that stands at column `i` of `line`: its tag and its length.
    fn keyword_here(&self, line: &[u8], i: usize) -> (r: Option<(HlType, usize)>)
        requires
            i < line@.len(),
        ensures
            match first_keyword(self.keywords@, line@, i as int, 0) {
                Some(k) => r == Some((k.0, k.1 as usize)) && 1 <= k.1 <= line@.len() - i,
                None => r is None,
            },
    {
        let width = line.len();
        let mut g: usize = 0;
        while g < self.keywords.len()
            invariant
                0 <= g <= self.keywords@.len(),
                i < line@.len() == width,
                first_keyword(self.keywords@, line@, i as int, 0) == first_keyword(
                    self.keywords@,
                    line@,
                    i as int,
                    g as int,
                ),
            decreases self.keywords@.len() - g,
        {
            let group = &self.keywords[g];
            let mut w: usize = 0;
            while w < group.words.len()
                invariant
                    0 <= w <= group.words@.len(),
                    i < line@.len() == width,
                    group == self.keywords@[g as int],
                    0 <= g < self.keywords@.len(),
                    first_word(group.words@, line@, i as int, 0) == first_word(
                        group.words@,
                        line@,
                        i as int,
                        w as int,
                    ),
                    first_keyword(self.keywords@, line@, i as int, 0) == first_keyword(
                        self.keywords@,
                        line@,
                        i as int,
                        g as int,
                    ),
                decreases group.words@.len() - w,
            {
                let word = group.words[w].as_slice();
                if find_at(line, i, word) {
                    let end = i + word.len();
                    if end == width || separates(line[end]) {
                        proof {
                            lemma_first_keyword_fits(self.keywords@, line@, i as int, 0);
                        }
                        return Some((group.hl, word.len()));
                    }
                }
                w = w + 1;
            }
            g = g + 1;
        }
        None
    }

    /// Reads the token at column `i` of `line` in state `st`: the number of columns it takes,
    /// their tag, and the state behind it. `after_number` says that the column before `i` was
    /// tagged as a number.
    pub fn next_token(&self, st: HlState, line: &[u8], i: usize, after_number: bool) -> (r: (
        usize,
        HlType,
        HlState,
    ))
        requires
            i < line@.len(),
        ensures
            self.token_at(st, line@, i as int, after_number) == (Token {
                len: r.0 as int,
                tag: r.1,
                next: r.2,
            }),
            1 <= r.0 <= line@.len() - i,
    {
        proof {
            self.lemma_token_fits(st, line@, i as int, after_number);
        }
        let c = line[i];
        let prev_sep = i == 0 || separates(line[i - 1]);
        let normal = match st {
            HlState::Normal => true,
            _ => false,
        };
        if normal && self.starts_comment(line, i) {
            return (line.len() - i, HlType::Comment, HlState::Normal);
        }
        if let Some(delims) = &self.ml_comment_delims {
            if let HlState::MultiLineComment = st {
                if find_at(line, i, delims.1.as_slice()) {
                    return (delims.1.len(), HlType::MlComment, HlState::Normal);
                } else {
                    return (1, HlType::MlComment, st);
                }
            } else if normal && find_at(line, i, delims.0.as_slice()) {
                return (delims.0.len(), HlType::MlComment, HlState::MultiLineComment);
            }
        }
        if let Some(delim) = &self.ml_string_delim {
            if let HlState::MultiLineString = st {
                if find_at(line, i, delim.as_slice()) {
                    return (delim.len(), HlType::MlString, HlState::Normal);
                } else {
                    return (1, HlType::MlString, st);
                }
            } else if normal && find_at(line, i, delim.as_slice()) {
                return (delim.len(), HlType::MlString, HlState::MultiLineString);
            }
        }
        if let HlState::String(quote) = st {
            if c == quote {
                return (1, HlType::String, HlState::Normal);
            } else if c == 0x5c && i != line.len() - 1 {
                return (2, HlType::String, st);
            } else {
                return (1, HlType::String, st);
            }
        }
        if self.opens_string(c) {
            return (1, HlType::String, HlState::String(c));
        }
        let digit = 0x30 <= c && c <= 0x39;
        if self.highlight_numbers && ((digit && prev_sep) || (i != 0 && after_number && !prev_sep
            && !separates(c))) {
            return (1, HlType::Number, st);
        }
        if prev_sep {
            if let Some(k) = self.keyword_here(line, i) {
                return (k.1, k.0, st);
            }
        }
        (1, HlType::Normal, st)
    }

    /// Tags the columns of `line`, starting in state `st`. Returns the tags, one for each
    /// column, and the state at the end of the line.
    pub fn highlight(&self, st: HlState, line: &[u8]) -> (r: (Vec<HlType>, HlState))
        ensures
            r.0@ == self.tags_of(st, line@),
            r.1 == self.state_after(st, line@),
            r.0@.len() == line@.len(),
    {
        let mut hl: Vec<HlType> = Vec::new();
        let mut state = st;
        let mut after_number = false;
        let mut i: usize = 0;
        while i < line.len()
            invariant
                0 <= i <= line@.len(),
                hl@.len() == i,
                self.scan(st, line@, 0, false).0 == hl@ + self.scan(
                    state,
                    line@,
                    i as int,
                    after_number,
                ).0,
                self.scan(st, line@, 0, false).1
                    == self.scan(state, line@, i as int, after_number).1,
            decreases line@.len() - i,
        {
            let (n, tag, next) = self.next_token(state, line, i, after_number);
            let ghost before = hl@;
            let mut k: usize = 0;
            while k < n
                invariant
                    0 <= k <= n,
                    hl@ == before + Seq::new(k as nat, |j: int| tag),
                decreases n - k,
            {
                hl.push(tag);
                k = k + 1;
                assert(hl@ =~= before + Seq::new(k as nat, |j: int| tag));
            }
            proof {
                let rest = self.scan(next, line@, i + n, tag == HlType::Number);
                assert(self.scan(state, line@, i as int, after_number).0 == Seq::new(
                    n as nat,
                    |j: int| tag,
                ) + rest.0);
                assert(hl@ + rest.0 =~= before + (Seq::new(n as nat, |j: int| tag) + rest.0));
            }
            i = i + n;
            state = next;
            after_number = tag == HlType::Number;
        }
        assert(self.scan(state, line@, i as int, after_number).0 =~= Seq::empty());
        assert(hl@ + Seq::<HlType>::empty() =~= hl@);
        (hl, state)
    }
}

impl SyntaxConf {
    /// The rules of plain text: nothing is tagged.
    pub fn new() -> (conf: SyntaxConf)
        ensures
            conf.name@.len() == 0,
            !conf.highlight_numbers,
            conf.sl_string_quotes@.len() == 0,
            conf.sl_comment_start@.len() == 0,
            conf.ml_comment_delims is None,
            conf.ml_string_delim is None,
            conf.keywords@.len() == 0,
    {
        SyntaxConf {
            name: Vec::new(),
            highlight_numbers: false,
            sl_string_quotes: Vec::new(),
            sl_comment_start: Vec::new(),
            ml_comment_delims: None,
            ml_string_delim: None,
            keywords: Vec::new(),
        }
    }
}

/// The number by which a terminal knows the colour of the tag `hl`.
pub open spec fn color_code(hl: HlType) -> int {
    match hl {
        HlType::Normal => 39,
        HlType::Number => 31,
        HlType::Match => 46,
        HlType::String => 32,
        HlType::MlString => 132,
        HlType::Comment => 34,
        HlType::MlComment => 134,
        HlType::Keyword1 => 33,
        HlType::Keyword2 => 35,
    }
}

/// The bytes that switch a terminal to the colour of the tag `hl`.
pub open spec fn color_text(hl: HlType) -> Seq<u8> {
    seq![0x1bu8, 0x5bu8] + crate::size::decimal(color_code(hl)) + seq![0x6du8]
}

/// Puts the bytes that switch a terminal to the colour of the tag `hl` behind those of `out`.
pub fn push_color(out: &mut Vec<u8>, hl: HlType)
    ensures
        final(out)@ == old(out)@ + color_text(hl),
{
    let code: u64 = match hl {
        HlType::Normal => 39,
        HlType::Number => 31,
        HlType::Match => 46,
        HlType::String => 32,
        HlType::MlString => 132,
        HlType::Comment => 34,
        HlType::MlComment => 134,
        HlType::Keyword1 => 33,
        HlType::Keyword2 => 35,
    };
    out.push(0x1b);
    out.push(0x5b);
    crate::size::push_decimal(out, code);
    out.push(0x6d);
    assert(out@ =~= old(out)@ + color_text(hl));
}

} // verus!
