//! Reading a class from the text of a source file.
//!
//! Comments are left out: `/* ... */` and `// ...` up to the end of the
//! line, and every other `/`. Braces count the block level. The text at
//! level 0 is the heading of the class, the text at level 1 holds its fields.
//!
//! In the heading, the word behind `class` is the name, the word behind
//! `extends` the parent, the word behind `implements` the interface. A field
//! is declared by five words in a row within one statement: `static`, the
//! type `int` or `String`, the name, `=` and the value.

use vstd::prelude::*;

use crate::class::int_fields_view;
use crate::class::str_fields_view;
use crate::class::ClassView;
use crate::class::JavaFile;
use crate::input::parse_i32;
use crate::input::parse_number;
use crate::text::chars_of;
use crate::text::contains_text;
use crate::text::lines;
use crate::text::same_text;
use crate::text::slice_of;
use crate::text::split_lines;
use crate::text::split_words;
use crate::text::starts_with;
use crate::text::string_of;
use crate::text::text_contains;
use crate::text::text_starts_with;
use crate::text::texts_view;
use crate::text::trim;
use crate::text::trimmed;
use crate::text::words;

verus! {

/// What a scan of a source text has seen.
pub struct Scan {
    /// Whether a comment `/* ... */` is open.
    pub comment: bool,
    /// Whether a comment `// ...` is open.
    pub line_comment: bool,
    /// The number of blocks that are open.
    pub level: int,
    /// The text seen at level 0.
    pub heading: Seq<char>,
    /// The text seen at level 1.
    pub body: Seq<char>,
}

impl Scan {
    /// The scan that has seen nothing.
    pub open spec fn start() -> Scan {
        Scan {
            comment: false,
            line_comment: false,
            level: 0,
            heading: Seq::<char>::empty(),
            body: Seq::<char>::empty(),
        }
    }

    /// The scan after the character `current`, which `next` follows.
    ///
    /// `/*` and `//` open a comment, also within a comment. `*/` closes a
    /// comment `/* ... */` and a line feed a comment `// ...`. Within a
    /// comment nothing else counts, and a `/` never does. Outside, `{` and
    /// `}` change the level, and any other character is added to the text of
    /// its level.
    pub open spec fn step(self, current: char, next: char) -> Scan {
        if current == '/' && next == '*' {
            Scan { comment: true, ..self }
        } else if current == '/' && next == '/' {
            Scan { line_comment: true, ..self }
        } else if self.comment && current == '*' && next == '/' {
            Scan { comment: false, ..self }
        } else if self.line_comment && current == '\n' {
            Scan { line_comment: false, ..self }
        } else if self.comment || self.line_comment || current == '/' {
            self
        } else if current == '{' {
            Scan { level: self.level + 1, ..self }
        } else if current == '}' {
            Scan { level: self.level - 1, ..self }
        } else if self.level == 0 {
            Scan { heading: self.heading.push(current), ..self }
        } else if self.level == 1 {
            Scan { body: self.body.push(current), ..self }
        } else {
            self
        }
    }
}

/// The scan after the first `n` characters of `text`.
pub open spec fn scanned(text: Seq<char>, n: int) -> Scan
    decreases n,
{
    if n <= 0 {
        Scan::start()
    } else {
        scanned(text, n - 1).step(text[n - 1], text[n])
    }
}

/// The scan of `text`: of all its characters but the last, which no
/// character follows.
pub open spec fn scan_of(text: Seq<char>) -> Scan {
    scanned(text, text.len() - 1)
}

/// The heading of a class as it is read: without the white space around
/// it, and without `public` at its start.
pub open spec fn heading_of(heading: Seq<char>) -> Seq<char> {
    let text = trimmed(heading);
    if starts_with(text, "public"@) {
        text.skip("public"@.len() as int)
    } else {
        text
    }
}

/// The words that follow the word `key` among the first `n + 1` of `words`,
/// one behind the other.
pub open spec fn followers(words: Seq<Seq<char>>, key: Seq<char>, n: int) -> Seq<char>
    decreases n,
{
    if n <= 0 {
        Seq::<char>::empty()
    } else if words[n - 1] == key {
        followers(words, key, n - 1) + words[n]
    } else {
        followers(words, key, n - 1)
    }
}

/// The words that follow the word `key` in `words`, one behind the other.
pub open spec fn keyword_value(words: Seq<Seq<char>>, key: Seq<char>) -> Seq<char> {
    followers(words, key, words.len() - 1)
}

/// `s` without one `"` at its start and one at its end.
pub open spec fn unquoted(s: Seq<char>) -> Seq<char> {
    let front = if s.len() > 0 && s.first() == '"' {
        s.drop_first()
    } else {
        s
    };
    if front.len() > 0 && front.last() == '"' {
        front.drop_last()
    } else {
        front
    }
}

/// The fields of a class.
pub struct Fields {
    /// The value of each integer field.
    pub ints: Map<Seq<char>, i32>,
    /// The value of each string field.
    pub texts: Map<Seq<char>, Seq<char>>,
}

impl Fields {
    /// No field.
    pub open spec fn empty() -> Fields {
        Fields { ints: Map::empty(), texts: Map::empty() }
    }

    /// The fields after the five words that start with the `j`-th of
    /// `words`.
    ///
    /// The words declare a field where the first is `static` and the fourth
    /// is `=`: an integer field where the second is `int` and the fifth
    /// denotes an `i32`, a string field where the second is `String`. The
    /// third word is the name of the field, the fifth its value, for a
    /// string without the quotes. A field declared again takes the new
    /// value.
    pub open spec fn declare(self, words: Seq<Seq<char>>, j: int) -> Fields {
        if words[j] == "static"@ && words[j + 3] == "="@ {
            if words[j + 1] == "int"@ {
                match parse_i32(words[j + 4]) {
                    Some(value) => Fields { ints: self.ints.insert(words[j + 2], value), ..self },
                    None => self,
                }
            } else if words[j + 1] == "String"@ {
                Fields { texts: self.texts.insert(words[j + 2], unquoted(words[j + 4])), ..self }
            } else {
                self
            }
        } else {
            self
        }
    }

    /// The fields after the first `n` rows of five words of `words`.
    pub open spec fn declare_all(self, words: Seq<Seq<char>>, n: int) -> Fields
        decreases n,
    {
        if n <= 0 {
            self
        } else {
            self.declare_all(words, n - 1).declare(words, n - 1)
        }
    }

    /// The fields after the line `line`. A line counts where, without the
    /// white space around it, it ends with `;`; its words are those before
    /// that `;`.
    pub open spec fn after_line(self, line: Seq<char>) -> Fields {
        match statement(line) {
            Some(text) => self.declare_all(words(text), words(text).len() - 4),
            None => self,
        }
    }
}

/// The statement that a line holds: the line without the white space around
/// it and without the `;` at its end, where it has one.
pub open spec fn statement(line: Seq<char>) -> Option<Seq<char>> {
    let text = trimmed(line);
    if text.len() > 0 && text.last() == ';' {
        Some(text.drop_last())
    } else {
        None
    }
}

/// The fields that the first `n` of `lines` declare.
pub open spec fn fields_to(lines: Seq<Seq<char>>, n: int) -> Fields
    decreases n,
{
    if n <= 0 {
        Fields::empty()
    } else {
        fields_to(lines, n - 1).after_line(lines[n - 1])
    }
}

/// The fields that the body `body` of a class declares.
pub open spec fn fields_of(body: Seq<char>) -> Fields {
    fields_to(lines(trimmed(body)), lines(trimmed(body)).len() as int)
}

/// The class that the source text `text` declares.
pub open spec fn class_of(text: Seq<char>) -> ClassView {
    let scan = scan_of(text);
    let heading = heading_of(scan.heading);
    let fields = fields_of(scan.body);
    ClassView {
        name: keyword_value(words(heading), "class"@),
        abst: contains_text(heading, "abstract"@),
        extends: keyword_value(words(heading), "extends"@),
        implements: keyword_value(words(heading), "implements"@),
        int_fields: fields.ints,
        str_fields: fields.texts,
    }
}

/// The texts at level 0 and at level 1 of a source text.
pub fn scan(text: &Vec<char>) -> (r: (Vec<char>, Vec<char>))
    ensures
        r.0@ == scan_of(text@).heading,
        r.1@ == scan_of(text@).body,
{
    let mut comment = false;
    let mut line_comment = false;
    let mut level: i128 = 0;
    let mut heading: Vec<char> = Vec::new();
    let mut body: Vec<char> = Vec::new();
    if text.len() == 0 {
        return (heading, body);
    }
    let last: usize = text.len() - 1;
    let mut i: usize = 0;
    while i < last
        invariant
            i <= last,
            last == text.len() - 1,
            -i <= level <= i,
            scanned(text@, i as int) == (Scan {
                comment,
                line_comment,
                level: level as int,
                heading: heading@,
                body: body@,
            }),
        decreases last - i,
    {
        let current = text[i];
        let next = text[i + 1];
        if current == '/' && next == '*' {
            comment = true;
        } else if current == '/' && next == '/' {
            line_comment = true;
        } else if comment && current == '*' && next == '/' {
            comment = false;
        } else if line_comment && current == '\n' {
            line_comment = false;
        } else if comment || line_comment || current == '/' {
        } else if current == '{' {
            level = level + 1;
        } else if current == '}' {
            level = level - 1;
        } else if level == 0 {
            heading.push(current);
        } else if level == 1 {
            body.push(current);
        }
        i = i + 1;
    }
    (heading, body)
}

/// The heading of a class as it is read.
pub fn read_heading(heading: &Vec<char>) -> (r: Vec<char>)
    ensures
        r@ == heading_of(heading@),
{
    let text = trim(heading);
    if text_starts_with(&text, "public") {
        let prefix = chars_of("public");
        assert(text@.skip(prefix@.len() as int) =~= text@.subrange(
            prefix@.len() as int,
            text@.len() as int,
        ));
        slice_of(&text, prefix.len(), text.len())
    } else {
        text
    }
}

/// The words that follow the word `key` in `words`, one behind the other.
pub fn find_keyword(words: &Vec<Vec<char>>, key: &str) -> (r: String)
    ensures
        r@ == keyword_value(texts_view(words@), key@),
{
    let mut found = String::new();
    if words.len() == 0 {
        return found;
    }
    let pairs: usize = words.len() - 1;
    let mut j: usize = 0;
    while j < pairs
        invariant
            j <= pairs,
            pairs == words.len() - 1,
            found@ == followers(texts_view(words@), key@, j as int),
        decreases pairs - j,
    {
        if same_text(&words[j], key) {
            let follower = &words[j + 1];
            let ghost before = found@;
            let mut k: usize = 0;
            while k < follower.len()
                invariant
                    k <= follower.len(),
                    found@ == before + follower@.take(k as int),
                decreases follower.len() - k,
            {
                found.push(follower[k]);
                k = k + 1;
                assert(found@ =~= before + follower@.take(k as int));
            }
            assert(follower@.take(k as int) =~= follower@);
        }
        j = j + 1;
    }
    found
}

/// `text` without one `"` at its start and one at its end.
pub fn unquote(text: &Vec<char>) -> (r: Vec<char>)
    ensures
        r@ == unquoted(text@),
{
    let from: usize = if text.len() > 0 && text[0] == '"' {
        1
    } else {
        0
    };
    let to: usize = if text.len() > from && text[text.len() - 1] == '"' {
        text.len() - 1
    } else {
        text.len()
    };
    proof {
        let front = if text@.len() > 0 && text@.first() == '"' {
            text@.drop_first()
        } else {
            text@
        };
        assert(front =~= text@.subrange(from as int, text@.len() as int));
        assert(unquoted(text@) =~= text@.subrange(from as int, to as int));
    }
    slice_of(text, from, to)
}

/// Adds to `ints` and `texts` the field that the five words from the `j`-th
/// of `words` on declare, if they declare one.
fn declare(
    words: &Vec<Vec<char>>,
    j: usize,
    ints: &mut Vec<(String, i32)>,
    texts: &mut Vec<(String, String)>,
)
    requires
        j + 5 <= words.len(),
    ensures
        (Fields { ints: int_fields_view(final(ints)@), texts: str_fields_view(final(texts)@) })
            == (Fields {
            ints: int_fields_view(old(ints)@),
            texts: str_fields_view(old(texts)@),
        }).declare(texts_view(words@), j as int),
{
    if same_text(&words[j], "static") && same_text(&words[j + 3], "=") {
        if same_text(&words[j + 1], "int") {
            match parse_number(&words[j + 4]) {
                Some(value) => {
                    let ghost before = ints@;
                    ints.push((string_of(&words[j + 2]), value));
                    assert(ints@.drop_last() =~= before);
                },
                None => {},
            }
        } else if same_text(&words[j + 1], "String") {
            let value = unquote(&words[j + 4]);
            let ghost before = texts@;
            texts.push((string_of(&words[j + 2]), string_of(&value)));
            assert(texts@.drop_last() =~= before);
        }
    }
}

/// Adds to `ints` and `texts` the fields that the line `line` declares.
fn read_line(line: &Vec<char>, ints: &mut Vec<(String, i32)>, texts: &mut Vec<(String, String)>)
    ensures
        (Fields { ints: int_fields_view(final(ints)@), texts: str_fields_view(final(texts)@) })
            == (Fields {
            ints: int_fields_view(old(ints)@),
            texts: str_fields_view(old(texts)@),
        }).after_line(line@),
{
    let text = trim(line);
    if text.len() == 0 || text[text.len() - 1] != ';' {
        return ;
    }
    assert(text@.drop_last() =~= text@.subrange(0, text@.len() - 1));
    let code = slice_of(&text, 0, text.len() - 1);
    let words = split_words(&code);
    if words.len() < 5 {
        return ;
    }
    let rows: usize = words.len() - 4;
    let ghost start = Fields { ints: int_fields_view(ints@), texts: str_fields_view(texts@) };
    let mut j: usize = 0;
    while j < rows
        invariant
            j <= rows,
            rows == words.len() - 4,
            (Fields { ints: int_fields_view(ints@), texts: str_fields_view(texts@) })
                == start.declare_all(texts_view(words@), j as int),
        decreases rows - j,
    {
        declare(&words, j, ints, texts);
        j = j + 1;
    }
}

/// The fields that the body `body` of a class declares, as lists of
/// assignments.
pub fn read_fields(body: &Vec<char>) -> (r: (Vec<(String, i32)>, Vec<(String, String)>))
    ensures
        int_fields_view(r.0@) == fields_of(body@).ints,
        str_fields_view(r.1@) == fields_of(body@).texts,
{
    let text = trim(body);
    let found = split_lines(&text);
    let mut ints: Vec<(String, i32)> = Vec::new();
    let mut texts: Vec<(String, String)> = Vec::new();
    let mut n: usize = 0;
    while n < found.len()
        invariant
            n <= found.len(),
            (Fields { ints: int_fields_view(ints@), texts: str_fields_view(texts@) }) == fields_to(
                texts_view(found@),
                n as int,
            ),
        decreases found.len() - n,
    {
        read_line(&found[n], &mut ints, &mut texts);
        n = n + 1;
    }
    (ints, texts)
}

impl JavaFile {
    /// Reads the class that the text of a source file declares.
    pub fn from_file(contents: &str) -> (file: JavaFile)
        ensures
            file@ == class_of(contents@),
    {
        let text = chars_of(contents);
        let (heading, body) = scan(&text);
        let heading = read_heading(&heading);
        let words = split_words(&heading);
        let (int_fields, str_fields) = read_fields(&body);
        JavaFile {
            name: find_keyword(&words, "class"),
            abst: text_contains(&heading, "abstract"),
            extends: find_keyword(&words, "extends"),
            implements: find_keyword(&words, "implements"),
            int_fields,
            str_fields,
        }
    }
}

} // verus!
