use code_stats::language::{color_file_name, ext_to_language, file_tag, name_extension, NameStyle};
use code_stats::numbers::{decimal, format_number};
use code_stats::paths::{any_component_ignored, extension_of, parent_ignored, should_ignore};
use code_stats::scan::{counted_directory, file_filter_extension, include_file, keep_walk_entry};

fn strings(v: &[&str]) -> Vec<String> {
    v.iter().map(|s| s.to_string()).collect()
}

#[test]
fn languages_of_extensions() {
    assert_eq!(ext_to_language("rs"), "Rust");
    assert_eq!(ext_to_language("cxx"), "C++");
    assert_eq!(ext_to_language("hpp"), "C/C++ Header");
    assert_eq!(ext_to_language("yml"), "YAML");
    assert_eq!(ext_to_language("lock"), "Lockfile");
    assert_eq!(ext_to_language("no-ext"), "Other");
    assert_eq!(ext_to_language("RS"), "Other");
}

#[test]
fn tags_and_styles_of_names() {
    assert_eq!(name_extension("Main.RS"), "rs");
    assert_eq!(name_extension("Makefile"), "makefile");
    assert_eq!(name_extension(".gitignore"), "gitignore");
    assert_eq!(file_tag("main.rs"), "[rs] ");
    assert_eq!(file_tag("lib.CPP"), "[c]  ");
    assert_eq!(file_tag("logo.svg"), "[img]");
    assert_eq!(file_tag("Makefile"), "[---]");
    assert_eq!(color_file_name("main.rs"), NameStyle::BrightRedBold);
    assert_eq!(color_file_name("app.ts"), NameStyle::BrightYellow);
    assert_eq!(color_file_name("Cargo.toml"), NameStyle::BrightGreen);
    assert_eq!(color_file_name("README"), NameStyle::White);
}

#[test]
fn extension_of_file_names() {
    assert_eq!(extension_of("a.b.c"), Some("c".to_string()));
    assert_eq!(extension_of(".bashrc"), None);
    assert_eq!(extension_of("plain"), None);
    assert_eq!(extension_of(".a.b"), Some("b".to_string()));
}

#[test]
fn numbers_with_separators() {
    assert_eq!(format_number(0), "0");
    assert_eq!(format_number(7), "7");
    assert_eq!(format_number(999), "999");
    assert_eq!(format_number(1000), "1,000");
    assert_eq!(format_number(123456), "123,456");
    assert_eq!(format_number(1234567), "1,234,567");
    assert_eq!(format_number(usize::MAX), usize::MAX.to_string().chars().rev().collect::<Vec<_>>()
        .chunks(3).map(|c| c.iter().collect::<String>()).collect::<Vec<_>>().join(",").chars().rev().collect::<String>());
}

#[test]
fn formatted_number_reads_back() {
    for n in [0usize, 5, 12, 1000, 65535, 1_000_000, 987_654_321] {
        let s = format_number(n);
        let digits: String = s.chars().filter(|c| *c != ',').collect();
        assert_eq!(digits.parse::<usize>().unwrap(), n);
    }
}

#[test]
fn decimal_matches_to_string() {
    for n in [0usize, 9, 10, 99, 100, 4096, usize::MAX] {
        assert_eq!(decimal(n), n.to_string());
    }
}

#[test]
fn ignored_paths() {
    let none: Vec<String> = Vec::new();
    assert!(should_ignore("./target/debug/app", &none));
    assert!(should_ignore("web/node_modules/x.js", &none));
    assert!(!should_ignore("src/main.rs", &none));
    assert!(!should_ignore("src/targets.rs", &none));
    assert!(should_ignore("docs/intro.md", &strings(&["docs"])));
    assert!(!should_ignore("docs/intro.md", &strings(&["Docs"])));
    assert!(any_component_ignored(&strings(&["a", ".git"]), &none));
    assert!(!any_component_ignored(&strings(&[]), &none));
}

#[test]
fn walk_and_file_decisions() {
    let none: Vec<String> = Vec::new();
    assert!(!keep_walk_entry("./vendor", true, &none));
    assert!(keep_walk_entry("./vendor", false, &none));
    assert!(keep_walk_entry("./src", true, &none));
    assert!(include_file("src/a.rs", true, &none, &none));
    assert!(!include_file("src/a.rs", false, &none, &none));
    assert!(!include_file("notes.TXT", true, &strings(&["txt"]), &none));
    assert!(!include_file("notes.txt", true, &strings(&["TXT"]), &none));
    assert!(include_file("notes.md", true, &strings(&["txt"]), &none));
    assert!(!include_file("README", true, &strings(&[""]), &none));
    assert!(!include_file("extra/a.rs", true, &none, &strings(&["extra"])));
    assert_eq!(file_filter_extension("x/README"), "");
    assert_eq!(file_filter_extension("x/a.Md"), "md");
}

#[test]
fn ignore_dir_names_directories_not_files() {
    let none: Vec<String> = Vec::new();
    let notes = strings(&["notes"]);
    assert!(include_file("root/notes", true, &none, &notes));
    assert!(include_file("root/a.rs", true, &none, &notes));
    assert!(!include_file("root/notes/a.rs", true, &none, &notes));
    assert!(include_file("proj/target", true, &none, &none));
    assert!(!include_file("proj/target/x.rs", true, &none, &none));
    assert!(!keep_walk_entry("root/notes", true, &notes));
    assert!(!parent_ignored("root/notes", &none) && !parent_ignored("notes", &notes));
    assert!(parent_ignored("build/out.txt", &none));
}

#[test]
fn formatted_number_shape() {
    for n in [0usize, 1, 12, 123, 1234, 12345, 123456, 1234567, usize::MAX] {
        let s = format_number(n);
        let d = n.to_string().len();
        assert_eq!(s.len(), d + (d - 1) / 3);
        assert!(!s.starts_with(',') && !s.ends_with(',') && !s.contains(",,"));
        let groups: Vec<&str> = s.split(',').collect();
        assert!((1..=3).contains(&groups[0].len()));
        assert!(groups[1..].iter().all(|g| g.len() == 3));
    }
}

#[test]
fn directories_counted_by_the_overview() {
    assert!(counted_directory("proj/src", true, false));
    assert!(!counted_directory("proj", true, true));
    assert!(!counted_directory("proj/src/main.rs", false, false));
    assert!(!counted_directory("proj/.git/objects", true, false));
    assert!(counted_directory("proj/notes", true, false));
}

#[test]
fn format_number_digits_and_commas_only() {
    for n in [0usize, 10, 1000, 98765432, usize::MAX] {
        assert!(format_number(n).chars().all(|c| c == ',' || c.is_ascii_digit()));
    }
}
