//! Highlighting rules as they are written in configuration files.
//!
//! A file holds the rules of one language, one setting to a line, and names the extensions of
//! the files that are written in it.

use crate::config::parse_value;
use crate::config::parse_values;
use crate::config::process_ini_file;
use crate::config::read_value;
use crate::config::read_values;
use crate::config::views_of;
use crate::config::Byte;
use crate::config::Settings;
use crate::config::INVALID_KEY;
use crate::error::Error;
use crate::size::decimal;
use crate::size::push_decimal;
use crate::syntax::HlType;
use crate::syntax::KeywordGroup;
use crate::syntax::SyntaxConf;
use crate::text::bytes_of;
use crate::text::is_text;
use crate::text::push_bytes;
use crate::text::same_bytes;
use vstd::prelude::*;
use vstd::string::StringSliceAdditionalSpecFns;

verus! {

/// What the message on a wrong number of comment delimiters begins with.
pub const EXPECTED_TWO: &'static str = "Expected 2 delimiters, got ";

/// The highlighting rules of a language, as plain values.
pub struct Rules {
    /// The name of the language.
    pub name: Seq<u8>,
    /// Whether numbers are tagged.
    pub highlight_numbers: bool,
    /// The bytes that open and close a string.
    pub quotes: Seq<u8>,
    /// The tokens that start a comment that runs to the end of the line.
    pub comment_starts: Seq<Seq<u8>>,
    /// The tokens that start and end a multi-line comment.
    pub comment_delims: Option<(Seq<u8>, Seq<u8>)>,
    /// The token that starts and ends a multi-line string.
    pub string_delim: Option<Seq<u8>>,
    /// The keywords, group by group, each group with its tag.
    pub keywords: Seq<(HlType, Seq<Seq<u8>>)>,
}

/// The keyword groups `groups`, as plain values.
pub open spec fn groups_of(groups: Seq<KeywordGroup>) -> Seq<(HlType, Seq<Seq<u8>>)> {
    Seq::new(groups.len(), |i: int| (groups[i].hl, views_of(groups[i].words@)))
}

/// The bytes of `quotes`.
pub open spec fn bytes_in(quotes: Seq<Byte>) -> Seq<u8> {
    Seq::new(quotes.len(), |i: int| quotes[i].0)
}

impl View for SyntaxConf {
    type V = Rules;

    open spec fn view(&self) -> Rules {
        Rules {
            name: self.name@,
            highlight_numbers: self.highlight_numbers,
            quotes: self.sl_string_quotes@,
            comment_starts: views_of(self.sl_comment_start@),
            comment_delims: match self.ml_comment_delims {
                Some(d) => Some((d.0@, d.1@)),
                None => None,
            },
            string_delim: match self.ml_string_delim {
                Some(d) => Some(d@),
                None => None,
            },
            keywords: groups_of(self.keywords@),
        }
    }
}

/// The rules of a language, and the extensions of the files that are written in it.
pub struct SyntaxFile {
    /// The rules.
    pub conf: SyntaxConf,
    /// The extensions, without a dot.
    pub extensions: Vec<Vec<u8>>,
}

/// The content of a file of highlighting rules, as plain values.
pub struct RulesFile {
    /// The rules.
    pub rules: Rules,
    /// The extensions.
    pub extensions: Seq<Seq<u8>>,
}

impl View for SyntaxFile {
    type V = RulesFile;

    open spec fn view(&self) -> RulesFile {
        RulesFile { rules: self.conf@, extensions: views_of(self.extensions@) }
    }
}

/// The rules `file` with the setting `key` set to what the text `value` writes, or what is
/// wrong with the key or the value. A text is taken without the white space around it, and a
/// list has commas between its values. Extensions and keywords add to those that are there.
pub open spec fn rules_with(file: RulesFile, key: Seq<u8>, value: Seq<u8>) -> Result<
    RulesFile,
    Seq<u8>,
> {
    let rules = file.rules;
    if key == "name".spec_bytes() {
        match read_value::<Vec<u8>>(value) {
            Ok(v) => Ok(RulesFile { rules: Rules { name: v, ..rules }, ..file }),
            Err(m) => Err(m),
        }
    } else if key == "extensions".spec_bytes() {
        match read_values::<Vec<u8>>(value) {
            Ok(v) => Ok(RulesFile { extensions: file.extensions + v, ..file }),
            Err(m) => Err(m),
        }
    } else if key == "highlight_numbers".spec_bytes() {
        match read_value::<bool>(value) {
            Ok(v) => Ok(RulesFile { rules: Rules { highlight_numbers: v, ..rules }, ..file }),
            Err(m) => Err(m),
        }
    } else if key == "singleline_string_quotes".spec_bytes() {
        match read_values::<Byte>(value) {
            Ok(v) => Ok(RulesFile { rules: Rules { quotes: bytes_in(v), ..rules }, ..file }),
            Err(m) => Err(m),
        }
    } else if key == "singleline_comment_start".spec_bytes() {
        match read_values::<Vec<u8>>(value) {
            Ok(v) => Ok(RulesFile { rules: Rules { comment_starts: v, ..rules }, ..file }),
            Err(m) => Err(m),
        }
    } else if key == "multiline_comment_delims".spec_bytes() {
        match read_values::<Vec<u8>>(value) {
            Ok(v) => if v.len() == 2 {
                Ok(
                    RulesFile {
                        rules: Rules { comment_delims: Some((v[0], v[1])), ..rules },
                        ..file
                    },
                )
            } else {
                Err(EXPECTED_TWO.spec_bytes() + decimal(v.len() as int))
            },
            Err(m) => Err(m),
        }
    } else if key == "multiline_string_delim".spec_bytes() {
        match read_value::<Vec<u8>>(value) {
            Ok(v) => Ok(RulesFile { rules: Rules { string_delim: Some(v), ..rules }, ..file }),
            Err(m) => Err(m),
        }
    } else if key == "keywords_1".spec_bytes() {
        match read_values::<Vec<u8>>(value) {
            Ok(v) => Ok(
                RulesFile {
                    rules: Rules { keywords: rules.keywords.push((HlType::Keyword1, v)), ..rules },
                    ..file
                },
            ),
            Err(m) => Err(m),
        }
    } else if key == "keywords_2".spec_bytes() {
        match read_values::<Vec<u8>>(value) {
            Ok(v) => Ok(
                RulesFile {
                    rules: Rules { keywords: rules.keywords.push((HlType::Keyword2, v)), ..rules },
                    ..file
                },
            ),
            Err(m) => Err(m),
        }
    } else {
        Err(INVALID_KEY.spec_bytes() + key)
    }
}

impl Settings for SyntaxFile {
    open spec fn with(plain: RulesFile, key: Seq<u8>, value: Seq<u8>) -> Result<
        RulesFile,
        Seq<u8>,
    > {
        rules_with(plain, key, value)
    }

    fn set(&mut self, key: &[u8], value: &[u8]) -> (r: Result<(), Vec<u8>>) {
        if is_text(key, "name") {
            match parse_value::<Vec<u8>>(value) {
                Ok(v) => {
                    self.conf.name = v;
                },
                Err(e) => {
                    return Err(e);
                },
            }
        } else if is_text(key, "extensions") {
            match parse_values::<Vec<u8>>(value) {
                Ok(v) => {
                    let mut more = v;
                    let ghost before = self.extensions@;
                    let ghost added = more@;
                    self.extensions.append(&mut more);
                    assert(views_of(self.extensions@) =~= views_of(before) + views_of(added));
                },
                Err(e) => {
                    return Err(e);
                },
            }
        } else if is_text(key, "highlight_numbers") {
            match parse_value::<bool>(value) {
                Ok(v) => {
                    self.conf.highlight_numbers = v;
                },
                Err(e) => {
                    return Err(e);
                },
            }
        } else if is_text(key, "singleline_string_quotes") {
            match parse_values::<Byte>(value) {
                Ok(v) => {
                    let mut quotes: Vec<u8> = Vec::new();
                    let mut i: usize = 0;
                    while i < v.len()
                        invariant
                            0 <= i <= v@.len(),
                            quotes@ == bytes_in(v@.take(i as int)),
                        decreases v@.len() - i,
                    {
                        quotes.push(v[i].0);
                        i = i + 1;
                        assert(quotes@ =~= bytes_in(v@.take(i as int)));
                    }
                    assert(v@.take(v@.len() as int) =~= v@);
                    assert(bytes_in(v@) =~= bytes_in(views_of(v@)));
                    self.conf.sl_string_quotes = quotes;
                },
                Err(e) => {
                    return Err(e);
                },
            }
        } else if is_text(key, "singleline_comment_start") {
            match parse_values::<Vec<u8>>(value) {
                Ok(v) => {
                    self.conf.sl_comment_start = v;
                },
                Err(e) => {
                    return Err(e);
                },
            }
        } else if is_text(key, "multiline_comment_delims") {
            match parse_values::<Vec<u8>>(value) {
                Ok(v) => {
                    let mut list = v;
                    let ghost all = views_of(list@);
                    if list.len() == 2 {
                        let end = list.pop().unwrap();
                        let start = list.pop().unwrap();
                        assert(start@ == all[0] && end@ == all[1]);
                        self.conf.ml_comment_delims = Some((start, end));
                    } else {
                        let mut msg = bytes_of(EXPECTED_TWO);
                        push_decimal(&mut msg, list.len() as u64);
                        return Err(msg);
                    }
                },
                Err(e) => {
                    return Err(e);
                },
            }
        } else if is_text(key, "multiline_string_delim") {
            match parse_value::<Vec<u8>>(value) {
                Ok(v) => {
                    self.conf.ml_string_delim = Some(v);
                },
                Err(e) => {
                    return Err(e);
                },
            }
        } else if is_text(key, "keywords_1") {
            match parse_values::<Vec<u8>>(value) {
                Ok(v) => {
                    let ghost before = self.conf.keywords@;
                    let ghost words = views_of(v@);
                    self.conf.keywords.push(KeywordGroup { hl: HlType::Keyword1, words: v });
                    assert(groups_of(self.conf.keywords@) =~= groups_of(before).push(
                        (HlType::Keyword1, words),
                    ));
                },
                Err(e) => {
                    return Err(e);
                },
            }
        } else if is_text(key, "keywords_2") {
            match parse_values::<Vec<u8>>(value) {
                Ok(v) => {
                    let ghost before = self.conf.keywords@;
                    let ghost words = views_of(v@);
                    self.conf.keywords.push(KeywordGroup { hl: HlType::Keyword2, words: v });
                    assert(groups_of(self.conf.keywords@) =~= groups_of(before).push(
                        (HlType::Keyword2, words),
                    ));
                },
                Err(e) => {
                    return Err(e);
                },
            }
        } else {
            let mut msg = bytes_of(INVALID_KEY);
            push_bytes(&mut msg, key);
            return Err(msg);
        }
        Ok(())
    }
}

impl SyntaxFile {
    /// The rules of plain text, for no extension: what a file of rules starts from.
    pub open spec fn empty() -> RulesFile {
        RulesFile {
            rules: Rules {
                name: Seq::empty(),
                highlight_numbers: false,
                quotes: Seq::empty(),
                comment_starts: Seq::empty(),
                comment_delims: None,
                string_delim: None,
                keywords: Seq::empty(),
            },
            extensions: Seq::empty(),
        }
    }

    /// Reads the rules that the file at `path` with the content `content` holds, or tells of
    /// its first line that is wrong.
    pub fn load(path: &[u8], content: &[u8]) -> (r: Result<SyntaxFile, Error>)
        ensures
            match crate::config::apply_lines::<SyntaxFile>(
                Self::empty(),
                crate::config::text_lines(content@),
                0,
            ).1 {
                None => r is Ok && r->Ok_0@ == crate::config::apply_lines::<SyntaxFile>(
                    Self::empty(),
                    crate::config::text_lines(content@),
                    0,
                ).0,
                Some(e) => r matches Err(Error::Config(p, l, m)) && p@ == path@ && l == e.0 && m@
                    == e.1,
            },
    {
        let mut file = SyntaxFile { conf: SyntaxConf::new(), extensions: Vec::new() };
        proof {
            assert(file@.rules.comment_starts =~= Seq::<Seq<u8>>::empty());
            assert(file@.rules.keywords =~= Seq::<(HlType, Seq<Seq<u8>>)>::empty());
            assert(file@.rules.quotes =~= Seq::<u8>::empty());
            assert(file@.rules.name =~= Seq::<u8>::empty());
            assert(file@.extensions =~= Seq::<Seq<u8>>::empty());
            assert(file@ == Self::empty());
        }
        match process_ini_file(path, content, &mut file) {
            Ok(_) => Ok(file),
            Err(e) => Err(e),
        }
    }

    /// Whether the rules are those of files with the extension `ext`.
    pub open spec fn covers(&self, ext: Seq<u8>) -> bool {
        exists|i: int| 0 <= i < self.extensions@.len() && (#[trigger] self.extensions@[i])@ == ext
    }

    /// Tells whether the rules are those of files with the extension `ext`.
    pub fn is_for(&self, ext: &[u8]) -> (r: bool)
        ensures
            r == self.covers(ext@),
    {
        let mut i: usize = 0;
        while i < self.extensions.len()
            invariant
                0 <= i <= self.extensions@.len(),
                forall|k: int| 0 <= k < i ==> (#[trigger] self.extensions@[k])@ != ext@,
            decreases self.extensions@.len() - i,
        {
            if same_bytes(self.extensions[i].as_slice(), ext) {
                return true;
            }
            i = i + 1;
        }
        false
    }
}

} // verus!
