use code_stats::analysis::{analyze_file, classify_line, comment_prefix, count_lines, file_extension, stats_for, LineKind};
use code_stats::text::{is_whitespace, str_eq, trim_str};

#[test]
fn whitespace_matches_std_for_every_char() {
    for u in 0u32..0x110000 {
        if let Some(c) = char::from_u32(u) {
            assert_eq!(is_whitespace(c), c.is_whitespace(), "char {:#x}", u);
        }
    }
}

#[test]
fn trim_matches_std() {
    let samples = [
        "", "   ", "abc", "  abc  ", "\t\n x y \r\n", "\u{a0}\u{3000}z\u{2029}", "\u{85}", "a b",
    ];
    for s in samples {
        assert_eq!(trim_str(s), s.trim());
    }
}

#[test]
fn str_eq_compares_characters() {
    assert!(str_eq("rs", "rs"));
    assert!(!str_eq("rs", "r"));
    assert!(!str_eq("", "x"));
    assert!(str_eq("", ""));
}

#[test]
fn line_count_matches_std_lines() {
    let samples = [
        "", "\n", "a", "a\n", "a\nb", "a\nb\n", "a\r\nb\r\n", "\r", "a\r", "\r\n", "\n\n\n", "x\n\ny",
        "a\rb\n", "last line without newline",
    ];
    for s in samples {
        let c = count_lines(s, "//");
        assert_eq!(c.total, s.lines().count(), "sample {:?}", s);
        assert_eq!(c.blank + c.comment + c.code, c.total);
    }
}

#[test]
fn counts_each_kind_of_line() {
    let text = "fn main() {\n    // greet\n\n    println!(\"hi\");\n}\n";
    let c = count_lines(text, "//");
    assert_eq!(c.total, 5);
    assert_eq!(c.code, 3);
    assert_eq!(c.comment, 1);
    assert_eq!(c.blank, 1);
}

#[test]
fn crlf_and_whitespace_only_lines_are_blank() {
    let c = count_lines("a\r\n \t\r\n\r\n# c\r\n", "#");
    assert_eq!(c.total, 4);
    assert_eq!(c.blank, 2);
    assert_eq!(c.comment, 1);
    assert_eq!(c.code, 1);
}

#[test]
fn classify_single_lines() {
    assert_eq!(classify_line("   ", "//"), LineKind::Blank);
    assert_eq!(classify_line("  // x", "//"), LineKind::Comment);
    assert_eq!(classify_line("x // y", "//"), LineKind::Code);
    assert_eq!(classify_line("/", "//"), LineKind::Code);
    assert_eq!(classify_line("<!-- hi -->", "<!--"), LineKind::Comment);
}

#[test]
fn comment_prefixes_by_extension() {
    assert_eq!(comment_prefix("py"), "#");
    assert_eq!(comment_prefix("toml"), "#");
    assert_eq!(comment_prefix("rs"), "//");
    assert_eq!(comment_prefix("html"), "<!--");
    assert_eq!(comment_prefix("scss"), "/*");
    assert_eq!(comment_prefix("no-ext"), "//");
    assert_eq!(comment_prefix("md"), "//");
}

#[test]
fn file_extension_lowercases_or_marks_none() {
    assert_eq!(file_extension("src/main.RS"), "rs");
    assert_eq!(file_extension("a/b/archive.tar.GZ"), "gz");
    assert_eq!(file_extension("Makefile"), "no-ext");
    assert_eq!(file_extension("dir/.gitignore"), "no-ext");
    assert_eq!(file_extension("name."), "");
    assert_eq!(file_extension("..."), "");
}

#[test]
fn file_extension_agrees_with_std_path() {
    let samples = ["a.rs", "./x/y.Py", "noext", ".hidden", ".hidden.toml", "dir/", "a/b.c/d", "x.", "/", ".."];
    for s in samples {
        let expected = std::path::Path::new(s)
            .extension()
            .map(|e| e.to_string_lossy().to_lowercase())
            .unwrap_or_else(|| "no-ext".into());
        assert_eq!(file_extension(s), expected, "sample {:?}", s);
    }
}

#[test]
fn analyze_python_file() {
    let f = analyze_file("tool/run.py", "# header\nimport os\n\nprint(os.name)  # note\n");
    assert_eq!(f.extension, "py");
    assert_eq!(f.path, "tool/run.py");
    assert_eq!(f.total_lines, 4);
    assert_eq!(f.comment_lines, 1);
    assert_eq!(f.blank_lines, 1);
    assert_eq!(f.code_lines, 2);
}

#[test]
fn stats_for_uses_the_given_extension() {
    let f = stats_for("x", "css".to_string(), "/* a */\nb {}\n");
    assert_eq!(f.comment_lines, 1);
    assert_eq!(f.code_lines, 1);
    assert_eq!(f.extension, "css");
}

#[test]
fn final_newline_adds_one_blank_line() {
    for text in ["", "a\n", "// c\n\n", "x\r\n"] {
        let before = count_lines(text, "//");
        let after = count_lines(&format!("{}\n", text), "//");
        assert_eq!(after.total, before.total + 1);
        assert_eq!(after.blank, before.blank + 1);
        assert_eq!(after.code, before.code);
        assert_eq!(after.comment, before.comment);
    }
}
