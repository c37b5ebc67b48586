use std::collections::HashMap;

use chainvm::class::JavaFile;
use chainvm::source::{find_keyword, read_fields, read_heading, scan, unquote};
use chainvm::text::{
    same_text, slice_of, split_lines, split_words, string_of, text_contains, text_starts_with, trim,
};

fn chars(text: &str) -> Vec<char> {
    text.chars().collect()
}

fn strings(texts: &[Vec<char>]) -> Vec<String> {
    texts.iter().map(|text| text.iter().collect()).collect()
}

struct Expected {
    name: String,
    abst: bool,
    extends: String,
    implements: String,
    int_fields: HashMap<String, i32>,
    str_fields: HashMap<String, String>,
}

/// The same reading, written with the splitting and trimming of the
/// standard library.
fn expected(contents: &str) -> Expected {
    let mut signature = String::new();
    let mut toplevel = String::new();

    let mut comment_started = false;
    let mut line_comment_started = false;
    let mut block_level = 0;
    for (current, next) in contents.chars().zip(contents.chars().skip(1)) {
        if (current, next) == ('/', '*') {
            comment_started = true;
            continue;
        }
        if (current, next) == ('/', '/') {
            line_comment_started = true;
            continue;
        }
        if comment_started && (current, next) == ('*', '/') {
            comment_started = false;
            continue;
        }
        if line_comment_started && current == '\n' {
            line_comment_started = false;
            continue;
        }
        if comment_started || line_comment_started || current == '/' {
            continue;
        }
        if current == '{' {
            block_level += 1;
            continue;
        }
        if current == '}' {
            block_level -= 1;
            continue;
        }
        if block_level == 0 {
            signature.push(current);
        }
        if block_level == 1 {
            toplevel.push(current);
        }
    }
    signature = signature.trim().to_string();
    signature = signature.strip_prefix("public").unwrap_or(&signature).to_string();

    let get_keyword = |keyword| -> String {
        signature
            .split_whitespace()
            .zip(signature.split_whitespace().skip(1))
            .filter_map(|(a, b)| if a == keyword { Some(b) } else { None })
            .collect()
    };
    let name = get_keyword("class");
    let extends = get_keyword("extends");
    let implements = get_keyword("implements");
    let mut int_fields = HashMap::new();
    let mut str_fields = HashMap::new();

    for line in toplevel
        .trim()
        .lines()
        .map(|x| x.trim())
        .filter(|x| !x.is_empty() && x.ends_with(';'))
        .map(|x| x.strip_suffix(';').unwrap_or(x))
    {
        let tokens = line
            .split_whitespace()
            .zip(line.split_whitespace().skip(1))
            .zip(line.split_whitespace().skip(2))
            .zip(line.split_whitespace().skip(3))
            .zip(line.split_whitespace().skip(4));
        for ((((accessor, typ), name), equals), value) in tokens {
            if (accessor, equals) == ("static", "=") {
                match typ {
                    "int" => {
                        if let Ok(num) = value.parse::<i32>() {
                            int_fields.insert(String::from(name), num);
                        }
                    }
                    "String" => {
                        let value = value.strip_prefix('"').unwrap_or(value);
                        let value = value.strip_suffix('"').unwrap_or(value);
                        str_fields.insert(String::from(name), String::from(value));
                    }
                    _ => {}
                }
            }
        }
    }
    Expected {
        name,
        abst: signature.contains("abstract"),
        extends,
        implements,
        int_fields,
        str_fields,
    }
}

fn check(contents: &str) {
    let file = JavaFile::from_file(contents);
    let wanted = expected(contents);
    assert_eq!(file.name, wanted.name, "name of {:?}", contents);
    assert_eq!(file.abst, wanted.abst, "abst of {:?}", contents);
    assert_eq!(file.extends, wanted.extends, "extends of {:?}", contents);
    assert_eq!(file.implements, wanted.implements, "implements of {:?}", contents);
    let ints: HashMap<String, i32> = file.int_fields.iter().cloned().collect();
    assert_eq!(ints, wanted.int_fields, "int fields of {:?}", contents);
    let texts: HashMap<String, String> = file.str_fields.iter().cloned().collect();
    assert_eq!(texts, wanted.str_fields, "string fields of {:?}", contents);
    for (name, value) in &wanted.int_fields {
        assert_eq!(file.int_field(name), Some(*value));
    }
    for (name, value) in &wanted.str_fields {
        assert_eq!(file.str_field(name), Some(value));
    }
}

const MAIN: &str = "// The entry point\npublic class main extends First implements Runnable {\n    /* adds five */\n    static int addi = 5;\n    private static String note = \"hello\";\n\n    void run() {\n        static int save = 3;\n    }\n}\n";

#[test]
fn from_file_reads_a_class() {
    let file = JavaFile::from_file(MAIN);
    assert_eq!(file.name, "main");
    assert!(!file.abst);
    assert_eq!(file.extends, "First");
    assert_eq!(file.implements, "Runnable");
    assert_eq!(file.int_fields, vec![("addi".to_string(), 5)]);
    assert_eq!(file.str_fields, vec![("note".to_string(), "hello".to_string())]);
    check(MAIN);
}

#[test]
fn from_file_reads_an_abstract_class() {
    let text = "public abstract class Shape {\n  static String jump = \"Other\";\n}\n";
    let file = JavaFile::from_file(text);
    assert_eq!(file.name, "Shape");
    assert!(file.abst);
    assert_eq!(file.extends, "");
    assert_eq!(file.implements, "");
    assert!(file.int_fields.is_empty());
    assert_eq!(file.str_field("jump"), Some(&"Other".to_string()));
    check(text);
}

#[test]
fn from_file_of_an_empty_text_gives_an_empty_class() {
    for text in ["", " ", "\n", "x", "{", "}", "/", "//", "/*"] {
        let file = JavaFile::from_file(text);
        assert_eq!(file.name, "");
        assert_eq!(file.extends, "");
        assert!(file.int_fields.is_empty());
        assert!(file.str_fields.is_empty());
        check(text);
    }
}

#[test]
fn from_file_never_reads_the_last_character() {
    let file = JavaFile::from_file("class a extends b");
    assert_eq!(file.name, "a");
    assert_eq!(file.extends, "");
    let file = JavaFile::from_file("class a extends b ");
    assert_eq!(file.extends, "b");
    let file = JavaFile::from_file("class a {static int addi = 5;");
    assert!(file.int_fields.is_empty());
    let file = JavaFile::from_file("class a {static int addi = 5;}");
    assert_eq!(file.int_field("addi"), Some(5));
}

#[test]
fn from_file_takes_the_last_value_of_a_field() {
    let text = "class a {\nstatic int addi = 5;\nstatic int addi = 7;\nstatic String s = \"x\";\nstatic String s = \"y\";\n}\n";
    let file = JavaFile::from_file(text);
    assert_eq!(file.int_field("addi"), Some(7));
    assert_eq!(file.str_field("s"), Some(&"y".to_string()));
    check(text);
}

#[test]
fn from_file_skips_comments() {
    let text = "class /* not this */ a // nor this extends z\n extends b {\n // static int addi = 1;\n /* static int add = 2; */ static int save = 3;\n}\n";
    let file = JavaFile::from_file(text);
    assert_eq!(file.name, "a");
    assert_eq!(file.extends, "b");
    assert_eq!(file.int_fields, vec![("save".to_string(), 3)]);
    check(text);
}

#[test]
fn from_file_joins_the_words_behind_a_repeated_keyword() {
    let text = "class a class b extends c extends d {}\n";
    let file = JavaFile::from_file(text);
    assert_eq!(file.name, "ab");
    assert_eq!(file.extends, "cd");
    check(text);
}

#[test]
fn from_file_agrees_on_whole_files() {
    let files = [
        MAIN,
        "public class First extends Second {\n\tstatic int save = 1;\n}\n",
        "class Second{static int addi=3;}\n",
        "class Third {\r\n    static int add = 1;\r\n    static String jump = \"main\";\r\n}\r\n",
        "public class A { static int load = 99999999999; static int add = -4; }\n",
        "public class A { static int load = +4 ; static int add = 0x10 ; static int call = 7 ;}\n",
        "public final class B extends A implements C, D { static String jump = \"\"; }\n",
        "publicclass B extends A { static String jump = \"a b\"; static String k = \"; }\n",
        "class C {\n  static int a = 1; static int b = 2;\n  static int\n c = 3;\n}\n",
        "class D { { static int deep = 1; } static int shallow = 2; }\n",
        "class E } static int low = 1; { static int a = 2; { static int b = 3; }\n",
        "class F { static int a = 1 // comment ; \n ; static int b = 2; }\n",
        "class G { static int a = 1; /* open comment \n static int b = 2; }\n",
        "class H { static String p = \"a/b\"; static int q = 4/2; static String u = \"http://x\";\n static int r = 1; }\n",
        "abstract\u{a0}class\u{3000}I\u{2003}extends\tJ\u{85}{\u{2028}static\u{a0}int\u{1680}addi\u{2000}=\u{205f}9;\u{3000}}\n",
        "class K { static static int = = 1; static int a = 1 static int b = 2; }\n",
        "class L { static String a = \"; static String b = \"\"\"; static String c = x\"; }\n",
        "  public  class M  {  }  ",
        "class N { static int a = 1;; static int b = 2 ; ; }\n",
        "interface O { static int a = -2147483648; static int b = 2147483648; }\n",
    ];
    for text in files {
        check(text);
    }
}

#[test]
fn from_file_agrees_on_pieces_in_every_order() {
    let pieces = [
        "", " ", "\n", "/", "*", "{", "}", ";", "\"", "=", "class", "public", "abstract", "extends",
        "static", "int", "String", "a", "7", "-", " x ", "//", "/*", "*/",
    ];
    for a in pieces {
        for b in pieces {
            for c in pieces {
                let text = format!("class m {{ static int k = 1;\n{} {}{} {} = 5; static int z = 2; }}\n", a, b, c, a);
                check(&text);
                let text = format!("{}{} {}{{static String {} = {}{};}} ", a, b, c, a, b, c);
                check(&text);
            }
        }
    }
}

#[test]
fn scan_splits_heading_and_body() {
    let (heading, body) = scan(&chars("a{b{c}d}e/f//g\nh/*i*/j "));
    assert_eq!(heading.iter().collect::<String>(), "aefhj");
    assert_eq!(body.iter().collect::<String>(), "bd");
    let (heading, body) = scan(&chars("}x{y "));
    assert_eq!(heading.iter().collect::<String>(), "y");
    assert_eq!(body.iter().collect::<String>(), "");
    let (heading, body) = scan(&Vec::new());
    assert!(heading.is_empty());
    assert!(body.is_empty());
}

#[test]
fn read_heading_drops_public() {
    assert_eq!(read_heading(&chars("  public class a ")), chars(" class a"));
    assert_eq!(read_heading(&chars("class public a")), chars("class public a"));
    assert_eq!(read_heading(&chars("publi")), chars("publi"));
    assert_eq!(read_heading(&chars("public")), chars(""));
    assert_eq!(read_heading(&chars("")), chars(""));
}

#[test]
fn find_keyword_takes_the_next_word() {
    let words = vec![chars("class"), chars("a"), chars("extends"), chars("b"), chars("class")];
    assert_eq!(find_keyword(&words, "class"), "a");
    assert_eq!(find_keyword(&words, "extends"), "b");
    assert_eq!(find_keyword(&words, "implements"), "");
    assert_eq!(find_keyword(&words, "a"), "extends");
    assert_eq!(find_keyword(&Vec::new(), "class"), "");
    assert_eq!(find_keyword(&vec![chars("class")], "class"), "");
}

#[test]
fn unquote_removes_one_quote_at_each_end() {
    assert_eq!(unquote(&chars("\"abc\"")), chars("abc"));
    assert_eq!(unquote(&chars("\"abc")), chars("abc"));
    assert_eq!(unquote(&chars("abc\"")), chars("abc"));
    assert_eq!(unquote(&chars("abc")), chars("abc"));
    assert_eq!(unquote(&chars("\"\"abc\"\"")), chars("\"abc\""));
    assert_eq!(unquote(&chars("\"")), chars(""));
    assert_eq!(unquote(&chars("\"\"")), chars(""));
    assert_eq!(unquote(&chars("")), chars(""));
}

#[test]
fn read_fields_keeps_the_order_of_the_declarations() {
    let (ints, texts) = read_fields(&chars(
        "\n static int b = 2; static String s = \"t\"; static int a = 1;\n static int b = 3;\n not static int c = 4\n",
    ));
    assert_eq!(ints, vec![("a".to_string(), 1), ("b".to_string(), 3)]);
    assert_eq!(texts, vec![("s".to_string(), "t\";".to_string())]);
    let (ints, texts) = read_fields(&chars(
        "static int b = 2 ;\nstatic String s = \"t\" ;\nstatic int a = 1 ; static int b = 3 ;",
    ));
    assert_eq!(
        ints,
        vec![("b".to_string(), 2), ("a".to_string(), 1), ("b".to_string(), 3)]
    );
    assert_eq!(texts, vec![("s".to_string(), "t".to_string())]);
}

#[test]
fn split_words_splits_at_white_space() {
    for text in ["", " ", "a", " a", "a ", "a b", "  a\tb\n\nc  ", "\u{a0}a\u{3000}b\u{85}", "a\u{200b}b"] {
        let wanted: Vec<String> = text.split_whitespace().map(String::from).collect();
        assert_eq!(strings(&split_words(&chars(text))), wanted, "{:?}", text);
    }
}

#[test]
fn split_lines_splits_at_line_feeds() {
    for text in ["", "a", "a\n", "\na", "a\nb", "a\n\nb\n", "\n", "\n\n", "a\r\nb"] {
        let wanted: Vec<String> = text.split('\n').map(String::from).collect();
        assert_eq!(strings(&split_lines(&chars(text))), wanted, "{:?}", text);
    }
}

#[test]
fn trim_removes_white_space_at_both_ends() {
    for text in ["", " ", "a", " a", "a ", " a b ", "\n\ta\u{a0}b\u{3000}\r\n", "\u{200b}a\u{200b}"] {
        assert_eq!(trim(&chars(text)), chars(text.trim()), "{:?}", text);
    }
}

#[test]
fn texts_are_compared_and_searched() {
    let text = chars("an abstract class");
    assert!(same_text(&text, "an abstract class"));
    assert!(!same_text(&text, "an abstract clasS"));
    assert!(!same_text(&text, "an abstract clas"));
    assert!(!same_text(&text, ""));
    assert!(same_text(&Vec::new(), ""));
    assert!(text_starts_with(&text, "an "));
    assert!(text_starts_with(&text, ""));
    assert!(text_starts_with(&text, "an abstract class"));
    assert!(!text_starts_with(&text, "an abstract class "));
    assert!(!text_starts_with(&text, "n"));
    assert!(text_contains(&text, "abstract"));
    assert!(text_contains(&text, "class"));
    assert!(text_contains(&text, "an"));
    assert!(text_contains(&text, ""));
    assert!(text_contains(&Vec::new(), ""));
    assert!(!text_contains(&text, "abstract  "));
    assert!(!text_contains(&text, "classs"));
    assert!(!text_contains(&Vec::new(), "a"));
    for pattern in ["", "a", "ab", "aab", "b", "ba", "aaa", "abab", "c"] {
        for text in ["", "a", "aab", "abab", "baab", "aaab", "bbb"] {
            assert_eq!(text_contains(&chars(text), pattern), text.contains(pattern));
            assert_eq!(text_starts_with(&chars(text), pattern), text.starts_with(pattern));
        }
    }
}

#[test]
fn strings_are_built_from_characters() {
    assert_eq!(string_of(&chars("")), "");
    assert_eq!(string_of(&chars("a\u{e9}\u{1F600}z")), "a\u{e9}\u{1F600}z");
    assert_eq!(slice_of(&chars("abcdef"), 2, 4), chars("cd"));
    assert_eq!(slice_of(&chars("abcdef"), 0, 6), chars("abcdef"));
    assert_eq!(slice_of(&chars("abcdef"), 3, 3), chars(""));
}
