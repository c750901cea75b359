use code_stats::analysis::FileStats;
use code_stats::report::{dominance, lines_breakdown, project_overview, summarize_by_extension, Dominance};
use code_stats::tree::{plan_tree_level, DirEntryInfo};

fn file(path: &str, ext: &str, total: usize, code: usize, comment: usize) -> FileStats {
    FileStats {
        path: path.to_string(),
        total_lines: total,
        code_lines: code,
        blank_lines: total - code - comment,
        comment_lines: comment,
        extension: ext.to_string(),
    }
}

#[test]
fn breakdown_groups_sorts_and_shares() {
    let files = vec![
        file("a.rs", "rs", 12, 10, 1),
        file("b.py", "py", 40, 30, 5),
        file("c.rs", "rs", 6, 5, 0),
    ];
    let r = lines_breakdown(&files);
    assert_eq!(r.total_files, 3);
    assert_eq!(r.total_code, 45);
    assert_eq!(r.total_lines, 58);
    assert_eq!(r.rows.len(), 2);
    let py = &r.rows[0];
    assert_eq!(py.extension, "py");
    assert_eq!(py.language, "Python");
    assert_eq!((py.file_count, py.code_lines, py.total_lines), (1, 30, 40));
    assert_eq!((py.pct, py.bar_len, py.empty_len), (66, 12, 6));
    assert_eq!(py.dominance, Dominance::Dominant);
    let rs = &r.rows[1];
    assert_eq!(rs.extension, "rs");
    assert_eq!((rs.file_count, rs.code_lines, rs.total_lines), (2, 15, 18));
    assert_eq!((rs.pct, rs.bar_len, rs.empty_len), (33, 6, 12));
    assert_eq!(rs.dominance, Dominance::Major);
    let code: usize = r.rows.iter().map(|x| x.code_lines).sum();
    assert_eq!(code, r.total_code);
    assert!(r.rows.iter().map(|x| x.pct).sum::<usize>() <= 100);
}

#[test]
fn tiny_share_still_gets_a_bar() {
    let files = vec![file("a.rs", "rs", 999, 999, 0), file("b.sh", "sh", 1, 1, 0)];
    let r = lines_breakdown(&files);
    let sh = &r.rows[1];
    assert_eq!(sh.extension, "sh");
    assert_eq!((sh.pct, sh.bar_len, sh.empty_len), (0, 1, 17));
    assert_eq!(sh.dominance, Dominance::Negligible);
    assert_eq!(sh.dominance.label(), "Negligible");
}

#[test]
fn no_code_means_no_shares() {
    let files = vec![file("a.md", "md", 3, 0, 0)];
    let r = lines_breakdown(&files);
    assert_eq!(r.rows.len(), 1);
    assert_eq!((r.rows[0].pct, r.rows[0].bar_len, r.rows[0].empty_len), (0, 0, 18));
    let empty: Vec<FileStats> = Vec::new();
    let r = lines_breakdown(&empty);
    assert_eq!(r.rows.len(), 0);
    assert_eq!((r.total_files, r.total_code, r.total_lines), (0, 0, 0));
}

#[test]
fn summaries_keep_first_occurrence_order() {
    let files = vec![file("a.c", "c", 1, 1, 0), file("b.h", "h", 2, 2, 0), file("c.c", "c", 3, 3, 0)];
    let s = summarize_by_extension(&files);
    assert_eq!(s.len(), 2);
    assert_eq!(s[0].extension, "c");
    assert_eq!((s[0].summary.file_count, s[0].summary.total_lines, s[0].summary.code_lines), (2, 4, 4));
    assert_eq!(s[1].extension, "h");
}

#[test]
fn dominance_thresholds() {
    assert_eq!(dominance(100), Dominance::Dominant);
    assert_eq!(dominance(60), Dominance::Dominant);
    assert_eq!(dominance(59), Dominance::Major);
    assert_eq!(dominance(30), Dominance::Major);
    assert_eq!(dominance(10), Dominance::Significant);
    assert_eq!(dominance(1), Dominance::Minor);
    assert_eq!(dominance(0), Dominance::Negligible);
    assert_eq!(Dominance::Significant.label(), "Significant");
    assert_eq!(Dominance::Dominant.label(), "Dominant  ");
}

#[test]
fn overview_rows() {
    let files = vec![file("a.rs", "rs", 1500, 1200, 100), file("b.rs", "rs", 500, 300, 50)];
    let rows = project_overview(4, &files);
    let got: Vec<(&str, String)> = rows.iter().map(|r| (r.label, r.value.clone())).collect();
    assert_eq!(
        got,
        vec![
            ("Directories", "4".to_string()),
            ("Total Files", "2".to_string()),
            ("Total Lines", "2,000".to_string()),
            ("Code Lines", "1,500".to_string()),
            ("Comment Lines", "150".to_string()),
            ("Blank Lines", "350".to_string()),
            ("Code Ratio", "75%".to_string()),
        ]
    );
}

#[test]
fn overview_without_lines_has_no_ratio() {
    let files = vec![file("e.txt", "txt", 0, 0, 0)];
    let rows = project_overview(0, &files);
    assert_eq!(rows.len(), 6);
    assert_eq!(rows[2].value, "0");
}

fn entry(name: &str, is_dir: bool) -> DirEntryInfo {
    DirEntryInfo { name: name.to_string(), path: format!("proj/{}", name), is_dir }
}

#[test]
fn tree_level_order_and_branches() {
    let entries = vec![
        entry("b.txt", false),
        entry("src", true),
        entry("target", true),
        entry("Zed.md", false),
        entry("docs", true),
        entry("a.rs", false),
    ];
    let rows = plan_tree_level("|    ", &entries, &Vec::new());
    let names: Vec<&str> = rows.iter().map(|r| r.name.as_str()).collect();
    assert_eq!(names, vec!["docs", "src", "Zed.md", "a.rs", "b.txt"]);
    assert_eq!(rows[0].lead, "|    |--- ");
    assert_eq!(rows[0].child_prefix, "|    |    ");
    assert_eq!(rows[4].lead, "|    +--> ");
    assert_eq!(rows[4].child_prefix, "|         ");
    assert_eq!(rows[1].path, "proj/src");
    assert!(rows[1].is_dir && !rows[2].is_dir);
}

#[test]
fn tree_level_extra_ignored_and_empty() {
    let entries = vec![entry("docs", true), entry("only.rs", false)];
    let rows = plan_tree_level("", &entries, &vec!["docs".to_string()]);
    assert_eq!(rows.len(), 1);
    assert_eq!(rows[0].lead, "+--> ");
    let none: Vec<DirEntryInfo> = Vec::new();
    assert!(plan_tree_level("", &none, &Vec::new()).is_empty());
}

#[test]
fn tree_keeps_files_named_like_ignored_directories() {
    let entries = vec![entry("docs", true), entry("notes", false), entry("target", false), entry("build", true)];
    let rows = plan_tree_level("", &entries, &vec!["docs".to_string(), "notes".to_string()]);
    let names: Vec<&str> = rows.iter().map(|r| r.name.as_str()).collect();
    assert_eq!(names, vec!["notes", "target"]);
}
