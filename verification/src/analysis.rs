//! Per-file analysis: splitting text into lines and sorting each line into
//! blank, comment or code.

use vstd::prelude::*;
use crate::text::{
    all_ascii, ascii_lowercase, chars_of, is_white_space, lemma_trim_empty, has_prefix_in, is_prefix_of, lowercase, str_eq,
    to_lowercase, trim, trim_range,
};
use crate::paths::{path_extension, path_extension_of};

verus! {

/// The pieces of `s` between `'\n'` characters, as `str::split('\n')` gives
/// them: always at least one piece.
pub open spec fn pieces(s: Seq<char>) -> Seq<Seq<char>>
    decreases s.len(),
{
    if s.len() == 0 {
        seq![Seq::<char>::empty()]
    } else {
        let p = pieces(s.drop_last());
        if s.last() == '\n' {
            p.push(Seq::<char>::empty())
        } else {
            p.update(p.len() - 1, p.last().push(s.last()))
        }
    }
}

/// There is at least one piece and at most one more than there are characters.
pub proof fn lemma_pieces_len(s: Seq<char>)
    ensures
        1 <= pieces(s).len() <= s.len() + 1,
    decreases s.len(),
{
    if s.len() > 0 {
        lemma_pieces_len(s.drop_last());
    }
}

/// A line that ended in `"\r\n"` loses its `'\r'`.
pub open spec fn strip_cr(l: Seq<char>) -> Seq<char> {
    if l.len() > 0 && l.last() == '\r' {
        l.drop_last()
    } else {
        l
    }
}

/// The lines of `s`, as `str::lines` gives them: split at `"\n"` or
/// `"\r\n"`; a final line ending is optional and adds no empty line.
pub open spec fn lines_of(s: Seq<char>) -> Seq<Seq<char>> {
    let p = pieces(s);
    let ended = p.drop_last().map_values(|l: Seq<char>| strip_cr(l));
    if p.last().len() > 0 {
        ended.push(p.last())
    } else {
        ended
    }
}

/// The three kinds of line.
#[derive(PartialEq, Eq, Structural, Clone, Copy, Debug)]
pub enum LineKind {
    Blank,
    Comment,
    Code,
}

/// A line is blank when nothing but white space is in it, a comment when its
/// trimmed text begins with the comment prefix, and code otherwise.
pub open spec fn kind_of(line: Seq<char>, prefix: Seq<char>) -> LineKind {
    if trim(line).len() == 0 {
        LineKind::Blank
    } else if is_prefix_of(prefix, trim(line)) {
        LineKind::Comment
    } else {
        LineKind::Code
    }
}

/// How many of `lines` are of kind `k`.
pub open spec fn count_kind(lines: Seq<Seq<char>>, prefix: Seq<char>, k: LineKind) -> nat
    decreases lines.len(),
{
    if lines.len() == 0 {
        0
    } else {
        count_kind(lines.drop_last(), prefix, k) + if kind_of(lines.last(), prefix) == k {
            1nat
        } else {
            0nat
        }
    }
}

/// Every line is of exactly one kind.
pub proof fn lemma_count_kinds_sum(lines: Seq<Seq<char>>, prefix: Seq<char>)
    ensures
        count_kind(lines, prefix, LineKind::Blank) + count_kind(lines, prefix, LineKind::Comment)
            + count_kind(lines, prefix, LineKind::Code) == lines.len(),
    decreases lines.len(),
{
    if lines.len() > 0 {
        lemma_count_kinds_sum(lines.drop_last(), prefix);
    }
}

/// The kind of the line `v[lo..hi]`.
pub fn classify_range(v: &Vec<char>, lo: usize, hi: usize, prefix: &Vec<char>) -> (r: LineKind)
    requires
        lo <= hi <= v.len(),
    ensures
        r == kind_of(v@.subrange(lo as int, hi as int), prefix@),
{
    let (a, b) = trim_range(v, lo, hi);
    if a == b {
        LineKind::Blank
    } else if has_prefix_in(v, a, b, prefix) {
        LineKind::Comment
    } else {
        LineKind::Code
    }
}

/// The kind of a single line of text.
pub fn classify_line(line: &str, comment_prefix: &str) -> (r: LineKind)
    ensures
        r == kind_of(line@, comment_prefix@),
{
    let v = chars_of(line);
    let p = chars_of(comment_prefix);
    assert(v@.subrange(0, v@.len() as int) =~= v@);
    classify_range(&v, 0, v.len(), &p)
}

/// Line counts of one text.
#[derive(PartialEq, Eq, Structural, Clone, Copy, Debug)]
pub struct LineCounts {
    pub total: usize,
    pub blank: usize,
    pub comment: usize,
    pub code: usize,
}

/// The counts of a text: `total` is its number of lines, and each other count
/// is its number of lines of that kind.
pub open spec fn counts_match(c: LineCounts, text: Seq<char>, prefix: Seq<char>) -> bool {
    let lines = lines_of(text);
    &&& c.total == lines.len()
    &&& c.blank == count_kind(lines, prefix, LineKind::Blank)
    &&& c.comment == count_kind(lines, prefix, LineKind::Comment)
    &&& c.code == count_kind(lines, prefix, LineKind::Code)
}

fn bump(c: LineCounts, k: LineKind) -> (r: LineCounts)
    requires
        c.total < usize::MAX,
        c.blank + c.comment + c.code == c.total,
    ensures
        r.total == c.total + 1,
        r.blank == c.blank + if k == LineKind::Blank { 1int } else { 0int },
        r.comment == c.comment + if k == LineKind::Comment { 1int } else { 0int },
        r.code == c.code + if k == LineKind::Code { 1int } else { 0int },
{
    match k {
        LineKind::Blank => LineCounts { total: c.total + 1, blank: c.blank + 1, ..c },
        LineKind::Comment => LineCounts { total: c.total + 1, comment: c.comment + 1, ..c },
        LineKind::Code => LineCounts { total: c.total + 1, code: c.code + 1, ..c },
    }
}

/// Appending a line adds one to the count of its kind.
proof fn lemma_counts_push(lines: Seq<Seq<char>>, l: Seq<char>, prefix: Seq<char>, k: LineKind)
    ensures
        count_kind(lines.push(l), prefix, k) == count_kind(lines, prefix, k) + if kind_of(
            l,
            prefix,
        ) == k {
            1nat
        } else {
            0nat
        },
{
    assert(lines.push(l).drop_last() =~= lines);
}

/// Counts the lines of `text` and the lines of each kind, where comments begin
/// with `prefix`.
pub fn count_lines_chars(text: &Vec<char>, prefix: &Vec<char>) -> (r: LineCounts)
    ensures
        counts_match(r, text@, prefix@),
        r.blank + r.comment + r.code == r.total,
{
    let n = text.len();
    let mut start: usize = 0;
    let mut i: usize = 0;
    let mut c = LineCounts { total: 0, blank: 0, comment: 0, code: 0 };
    assert(text@.take(0) =~= Seq::<char>::empty());
    while i < n
        invariant
            n == text.len(),
            start <= i <= n,
            pieces(text@.take(i as int)).last() == text@.subrange(start as int, i as int),
            c.total == pieces(text@.take(i as int)).len() - 1,
            c.blank + c.comment + c.code == c.total,
            c.total <= start,
            ({
                let ended = pieces(text@.take(i as int)).drop_last().map_values(
                    |l: Seq<char>| strip_cr(l),
                );
                &&& c.blank == count_kind(ended, prefix@, LineKind::Blank)
                &&& c.comment == count_kind(ended, prefix@, LineKind::Comment)
                &&& c.code == count_kind(ended, prefix@, LineKind::Code)
            }),
        decreases n - i,
    {
        let ghost p = pieces(text@.take(i as int));
        proof {
            lemma_pieces_len(text@.take(i as int));
            assert(text@.take(i + 1).drop_last() =~= text@.take(i as int));
            assert(text@.take(i + 1).last() == text@[i as int]);
        }
        if text[i] == '\n' {
            let end = if i > start && text[i - 1] == '\r' {
                i - 1
            } else {
                i
            };
            let k = classify_range(text, start, end, prefix);
            proof {
                let line = text@.subrange(start as int, i as int);
                assert(strip_cr(line) =~= text@.subrange(start as int, end as int));
                let ended = p.drop_last().map_values(|l: Seq<char>| strip_cr(l));
                let p2 = pieces(text@.take(i + 1));
                assert(p2 == p.push(Seq::<char>::empty()));
                assert(p2.drop_last().map_values(|l: Seq<char>| strip_cr(l)) =~= ended.push(
                    strip_cr(line),
                ));
                lemma_counts_push(ended, strip_cr(line), prefix@, LineKind::Blank);
                lemma_counts_push(ended, strip_cr(line), prefix@, LineKind::Comment);
                lemma_counts_push(ended, strip_cr(line), prefix@, LineKind::Code);
                assert(text@.subrange(i + 1, i + 1) =~= Seq::<char>::empty());
            }
            c = bump(c, k);
            start = i + 1;
        } else {
            proof {
                let p2 = pieces(text@.take(i + 1));
                assert(p2 == p.update(p.len() - 1, p.last().push(text@[i as int])));
                assert(p2.drop_last() =~= p.drop_last());
                assert(p2.last() =~= text@.subrange(start as int, i + 1));
            }
        }
        i = i + 1;
    }
    assert(text@.take(n as int) =~= text@);
    let ghost p = pieces(text@);
    proof {
        lemma_pieces_len(text@);
    }
    let ghost ended = p.drop_last().map_values(|l: Seq<char>| strip_cr(l));
    if start < n {
        let k = classify_range(text, start, n, prefix);
        proof {
            lemma_counts_push(ended, p.last(), prefix@, LineKind::Blank);
            lemma_counts_push(ended, p.last(), prefix@, LineKind::Comment);
            lemma_counts_push(ended, p.last(), prefix@, LineKind::Code);
        }
        c = bump(c, k);
    }
    c
}

/// Counts the lines of `text` and the lines of each kind, where comments begin
/// with `comment_prefix`.
pub fn count_lines(text: &str, comment_prefix: &str) -> (r: LineCounts)
    ensures
        counts_match(r, text@, comment_prefix@),
        r.blank + r.comment + r.code == r.total,
{
    let v = chars_of(text);
    let p = chars_of(comment_prefix);
    count_lines_chars(&v, &p)
}

/// The text that begins a comment line in files with extension `ext`.
pub open spec fn comment_prefix_of(ext: Seq<char>) -> Seq<char> {
    if ext == "py"@ || ext == "sh"@ || ext == "rb"@ || ext == "yml"@ || ext == "yaml"@ || ext
        == "toml"@ {
        "#"@
    } else if ext == "rs"@ || ext == "js"@ || ext == "ts"@ || ext == "c"@ || ext == "cpp"@ || ext
        == "h"@ || ext == "java"@ || ext == "go"@ || ext == "swift"@ {
        "//"@
    } else if ext == "html"@ || ext == "xml"@ {
        "<!--"@
    } else if ext == "css"@ || ext == "scss"@ {
        "/*"@
    } else {
        "//"@
    }
}

/// The comment prefixes: `#` for Python, shell, Ruby, YAML and TOML files;
/// `<!--` for HTML and XML; `/*` for CSS and SCSS; `//` for every other
/// extension.
pub proof fn lemma_comment_prefix_table(ext: Seq<char>)
    ensures
        (ext == "py"@ || ext == "sh"@ || ext == "rb"@ || ext == "yml"@ || ext == "yaml"@ || ext == "toml"@) ==> comment_prefix_of(ext) == "#"@,
        (ext == "rs"@ || ext == "js"@ || ext == "ts"@ || ext == "c"@ || ext == "cpp"@ || ext == "h"@ || ext == "java"@ || ext == "go"@ || ext == "swift"@) ==> comment_prefix_of(ext) == "//"@,
        (ext == "html"@ || ext == "xml"@) ==> comment_prefix_of(ext) == "<!--"@,
        (ext == "css"@ || ext == "scss"@) ==> comment_prefix_of(ext) == "/*"@,
        !(ext == "py"@ || ext == "sh"@ || ext == "rb"@ || ext == "yml"@ || ext == "yaml"@ || ext == "toml"@ || ext == "rs"@ || ext == "js"@ || ext == "ts"@ || ext == "c"@ || ext == "cpp"@ || ext == "h"@ || ext == "java"@ || ext == "go"@ || ext == "swift"@ || ext == "html"@ || ext == "xml"@ || ext == "css"@ || ext == "scss"@) ==> comment_prefix_of(ext) == "//"@,
{
    reveal_strlit("#");
    assert("#"@.len() == 1 && "#"@[0] == '#');
    reveal_strlit("/*");
    assert("/*"@.len() == 2 && "/*"@[0] == '/' && "/*"@[1] == '*');
    reveal_strlit("//");
    assert("//"@.len() == 2 && "//"@[0] == '/' && "//"@[1] == '/');
    reveal_strlit("<!--");
    assert("<!--"@.len() == 4 && "<!--"@[0] == '<' && "<!--"@[1] == '!' && "<!--"@[2] == '-' && "<!--"@[3] == '-');
    reveal_strlit("c");
    assert("c"@.len() == 1 && "c"@[0] == 'c');
    reveal_strlit("cpp");
    assert("cpp"@.len() == 3 && "cpp"@[0] == 'c' && "cpp"@[1] == 'p' && "cpp"@[2] == 'p');
    reveal_strlit("css");
    assert("css"@.len() == 3 && "css"@[0] == 'c' && "css"@[1] == 's' && "css"@[2] == 's');
    reveal_strlit("go");
    assert("go"@.len() == 2 && "go"@[0] == 'g' && "go"@[1] == 'o');
    reveal_strlit("h");
    assert("h"@.len() == 1 && "h"@[0] == 'h');
    reveal_strlit("html");
    assert("html"@.len() == 4 && "html"@[0] == 'h' && "html"@[1] == 't' && "html"@[2] == 'm' && "html"@[3] == 'l');
    reveal_strlit("java");
    assert("java"@.len() == 4 && "java"@[0] == 'j' && "java"@[1] == 'a' && "java"@[2] == 'v' && "java"@[3] == 'a');
    reveal_strlit("js");
    assert("js"@.len() == 2 && "js"@[0] == 'j' && "js"@[1] == 's');
    reveal_strlit("py");
    assert("py"@.len() == 2 && "py"@[0] == 'p' && "py"@[1] == 'y');
    reveal_strlit("rb");
    assert("rb"@.len() == 2 && "rb"@[0] == 'r' && "rb"@[1] == 'b');
    reveal_strlit("rs");
    assert("rs"@.len() == 2 && "rs"@[0] == 'r' && "rs"@[1] == 's');
    reveal_strlit("scss");
    assert("scss"@.len() == 4 && "scss"@[0] == 's' && "scss"@[1] == 'c' && "scss"@[2] == 's' && "scss"@[3] == 's');
    reveal_strlit("sh");
    assert("sh"@.len() == 2 && "sh"@[0] == 's' && "sh"@[1] == 'h');
    reveal_strlit("swift");
    assert("swift"@.len() == 5 && "swift"@[0] == 's' && "swift"@[1] == 'w' && "swift"@[2] == 'i' && "swift"@[3] == 'f' && "swift"@[4] == 't');
    reveal_strlit("toml");
    assert("toml"@.len() == 4 && "toml"@[0] == 't' && "toml"@[1] == 'o' && "toml"@[2] == 'm' && "toml"@[3] == 'l');
    reveal_strlit("ts");
    assert("ts"@.len() == 2 && "ts"@[0] == 't' && "ts"@[1] == 's');
    reveal_strlit("xml");
    assert("xml"@.len() == 3 && "xml"@[0] == 'x' && "xml"@[1] == 'm' && "xml"@[2] == 'l');
    reveal_strlit("yaml");
    assert("yaml"@.len() == 4 && "yaml"@[0] == 'y' && "yaml"@[1] == 'a' && "yaml"@[2] == 'm' && "yaml"@[3] == 'l');
    reveal_strlit("yml");
    assert("yml"@.len() == 3 && "yml"@[0] == 'y' && "yml"@[1] == 'm' && "yml"@[2] == 'l');
}

/// In a Python, shell, Ruby, YAML or TOML file, a line whose trimmed text
/// begins with `#` is a comment.
pub proof fn lemma_hash_lines_are_comments(ext: Seq<char>, line: Seq<char>)
    requires
        ext == "py"@ || ext == "sh"@ || ext == "rb"@ || ext == "yml"@ || ext == "yaml"@ || ext == "toml"@,
        trim(line).len() > 0,
        trim(line)[0] == '#',
    ensures
        kind_of(line, comment_prefix_of(ext)) == LineKind::Comment,
{
    lemma_comment_prefix_table(ext);
    reveal_strlit("#");
    assert(trim(line).take(1) =~= "#"@);
}

/// In a file of any other extension than those, or HTML, XML, CSS or SCSS, a
/// line whose trimmed text begins with `//` is a comment, and one whose trimmed
/// text begins with `#` is code.
pub proof fn lemma_slash_lines_are_comments(ext: Seq<char>, line: Seq<char>)
    requires
        !(ext == "py"@ || ext == "sh"@ || ext == "rb"@ || ext == "yml"@ || ext == "yaml"@ || ext == "toml"@ || ext == "html"@ || ext == "xml"@ || ext == "css"@ || ext == "scss"@),
        trim(line).len() > 0,
    ensures
        trim(line).len() >= 2 && trim(line)[0] == '/' && trim(line)[1] == '/' ==> kind_of(
            line,
            comment_prefix_of(ext),
        ) == LineKind::Comment,
        trim(line)[0] == '#' ==> kind_of(line, comment_prefix_of(ext)) == LineKind::Code,
{
    lemma_comment_prefix_table(ext);
    reveal_strlit("//");
    assert("//"@.len() == 2 && "//"@[0] == '/' && "//"@[1] == '/');
    if trim(line).len() >= 2 && trim(line)[0] == '/' && trim(line)[1] == '/' {
        assert(trim(line).take(2) =~= "//"@);
    }
    if trim(line)[0] == '#' {
        if trim(line).len() >= 2 {
            assert(trim(line).take(2)[0] == '#');
        }
    }
}

/// The text that begins a comment line in files with extension `ext`.
pub fn comment_prefix(ext: &str) -> (r: &'static str)
    ensures
        r@ == comment_prefix_of(ext@),
{
    if str_eq(ext, "py") || str_eq(ext, "sh") || str_eq(ext, "rb") || str_eq(ext, "yml") || str_eq(
        ext,
        "yaml",
    ) || str_eq(ext, "toml") {
        "#"
    } else if str_eq(ext, "rs") || str_eq(ext, "js") || str_eq(ext, "ts") || str_eq(ext, "c")
        || str_eq(ext, "cpp") || str_eq(ext, "h") || str_eq(ext, "java") || str_eq(ext, "go")
        || str_eq(ext, "swift") {
        "//"
    } else if str_eq(ext, "html") || str_eq(ext, "xml") {
        "<!--"
    } else if str_eq(ext, "css") || str_eq(ext, "scss") {
        "/*"
    } else {
        "//"
    }
}

/// The extension under which a file is counted: its extension in lowercase,
/// or `no-ext` where it has none.
pub open spec fn extension_label(path: Seq<char>) -> Seq<char> {
    match path_extension(path) {
        Some(e) => lowercase(e),
        None => "no-ext"@,
    }
}

/// The extension under which the file at `path` is counted.
pub fn file_extension(path: &str) -> (r: String)
    ensures
        r@ == extension_label(path@),
        path_extension(path@) matches Some(e) ==> (all_ascii(e) ==> r@ == ascii_lowercase(e)),
{
    match path_extension_of(path) {
        Some(e) => to_lowercase(e.as_str()),
        None => "no-ext".to_string(),
    }
}

/// The statistics of one file.
#[derive(Debug)]
pub struct FileStats {
    pub path: String,
    pub total_lines: usize,
    pub code_lines: usize,
    pub blank_lines: usize,
    pub comment_lines: usize,
    pub extension: String,
}

impl FileStats {
    /// Every line is counted as exactly one of blank, comment or code.
    pub open spec fn wf(&self) -> bool {
        self.blank_lines + self.comment_lines + self.code_lines == self.total_lines
    }

    /// The statistics of `content`, read from `path` and counted under `extension`.
    pub open spec fn describes(&self, path: Seq<char>, extension: Seq<char>, content: Seq<char>) -> bool {
        let lines = lines_of(content);
        let prefix = comment_prefix_of(extension);
        &&& self.path@ == path
        &&& self.extension@ == extension
        &&& self.total_lines == lines.len()
        &&& self.blank_lines == count_kind(lines, prefix, LineKind::Blank)
        &&& self.comment_lines == count_kind(lines, prefix, LineKind::Comment)
        &&& self.code_lines == count_kind(lines, prefix, LineKind::Code)
    }
}

/// The statistics of `content`, read from `path`, counted under `extension`
/// with that extension's comment prefix.
pub fn stats_for(path: &str, extension: String, content: &str) -> (r: FileStats)
    ensures
        r.describes(path@, extension@, content@),
        r.wf(),
{
    let prefix = comment_prefix(extension.as_str());
    let c = count_lines(content, prefix);
    FileStats {
        path: path.to_string(),
        total_lines: c.total,
        code_lines: c.code,
        blank_lines: c.blank,
        comment_lines: c.comment,
        extension,
    }
}

/// The statistics of the file at `path` whose text is `content`.
pub fn analyze_file(path: &str, content: &str) -> (r: FileStats)
    ensures
        r.describes(path@, extension_label(path@), content@),
        r.wf(),
        path_extension(path@) matches Some(e) ==> (all_ascii(e) ==> r.extension@ == ascii_lowercase(e)),
{
    let ext = file_extension(path);
    stats_for(path, ext, content)
}

/// After a text that is empty or ends in a newline, one more newline adds
/// exactly one line, a blank one.
pub proof fn lemma_final_newline_adds_blank_line(text: Seq<char>, prefix: Seq<char>)
    requires
        text.len() == 0 || text.last() == '\n',
    ensures
        lines_of(text.push('\n')) == lines_of(text).push(Seq::<char>::empty()),
        lines_of(text.push('\n')).len() == lines_of(text).len() + 1,
        count_kind(lines_of(text.push('\n')), prefix, LineKind::Blank) == count_kind(
            lines_of(text),
            prefix,
            LineKind::Blank,
        ) + 1,
        count_kind(lines_of(text.push('\n')), prefix, LineKind::Comment) == count_kind(
            lines_of(text),
            prefix,
            LineKind::Comment,
        ),
        count_kind(lines_of(text.push('\n')), prefix, LineKind::Code) == count_kind(
            lines_of(text),
            prefix,
            LineKind::Code,
        ),
{
    let t = text.push('\n');
    assert(t.drop_last() =~= text);
    let p = pieces(text);
    lemma_pieces_len(text);
    if text.len() > 0 {
        assert(text.drop_last().push(text.last()) =~= text);
        assert(p == pieces(text.drop_last()).push(Seq::<char>::empty()));
    } else {
        assert(p =~= seq![Seq::<char>::empty()]);
    }
    assert(p.last().len() == 0);
    let q = pieces(t);
    assert(q == p.push(Seq::<char>::empty()));
    assert(q.drop_last() =~= p);
    assert(lines_of(text) == p.drop_last().map_values(|l: Seq<char>| strip_cr(l)));
    assert(p.map_values(|l: Seq<char>| strip_cr(l)) =~= p.drop_last().map_values(
        |l: Seq<char>| strip_cr(l),
    ).push(strip_cr(p.last())));
    assert(strip_cr(p.last()) =~= Seq::<char>::empty());
    assert(lines_of(t) =~= lines_of(text).push(Seq::<char>::empty()));
    let e = Seq::<char>::empty();
    assert(trim(e).len() == 0) by {
        assert(crate::text::trim_start(e) == e);
        assert(crate::text::trim_end(e) == e);
    }
    lemma_counts_push(lines_of(text), e, prefix, LineKind::Blank);
    lemma_counts_push(lines_of(text), e, prefix, LineKind::Comment);
    lemma_counts_push(lines_of(text), e, prefix, LineKind::Code);
}

/// How many times `c` occurs in `s`.
pub open spec fn occurrences(s: Seq<char>, c: char) -> nat
    decreases s.len(),
{
    if s.len() == 0 {
        0
    } else {
        occurrences(s.drop_last(), c) + if s.last() == c {
            1nat
        } else {
            0nat
        }
    }
}

proof fn lemma_pieces_shape(s: Seq<char>)
    ensures
        pieces(s).len() == occurrences(s, '\n') + 1,
        forall|i: int, j: int|
            0 <= i < pieces(s).len() && 0 <= j < pieces(s)[i].len() ==> #[trigger] pieces(s)[i][j]
                != '\n',
        pieces(s).last().len() == 0 <==> (s.len() == 0 || s.last() == '\n'),
    decreases s.len(),
{
    if s.len() > 0 {
        lemma_pieces_shape(s.drop_last());
        lemma_pieces_len(s.drop_last());
        let p = pieces(s.drop_last());
        let q = pieces(s);
        assert forall|i: int, j: int| 0 <= i < q.len() && 0 <= j < q[i].len() implies #[trigger] q[i][j]
            != '\n' by {
            if s.last() == '\n' {
                if i < p.len() {
                    assert(q[i] == p[i]);
                }
            } else {
                if i < p.len() - 1 {
                    assert(q[i] == p[i]);
                } else {
                    assert(q[i] == p.last().push(s.last()));
                    if j < p.last().len() {
                        assert(p[p.len() - 1][j] == p.last()[j]);
                    }
                }
            }
        }
    }
}

/// The lines of a text: one for each newline, plus one for a final line that
/// has no newline after it; and no line holds a newline.
pub proof fn lemma_lines_shape(s: Seq<char>)
    ensures
        lines_of(s).len() == occurrences(s, '\n') + if s.len() > 0 && s.last() != '\n' {
            1nat
        } else {
            0nat
        },
        forall|i: int, j: int|
            0 <= i < lines_of(s).len() && 0 <= j < lines_of(s)[i].len() ==> #[trigger] lines_of(s)[i][j]
                != '\n',
{
    lemma_pieces_shape(s);
    let p = pieces(s);
    let l = lines_of(s);
    let ended = p.drop_last().map_values(|x: Seq<char>| strip_cr(x));
    assert forall|i: int, j: int| 0 <= i < l.len() && 0 <= j < l[i].len() implies #[trigger] l[i][j]
        != '\n' by {
        if i < ended.len() {
            assert(l[i] == strip_cr(p[i]));
            assert(strip_cr(p[i])[j] == p[i][j]);
        } else {
            assert(l[i] == p[p.len() - 1]);
        }
    }
}

/// A line is blank exactly when every character of it is white space, and
/// then whatever the comment prefix.
pub proof fn lemma_blank_lines(line: Seq<char>, prefix: Seq<char>)
    ensures
        kind_of(line, prefix) == LineKind::Blank <==> forall|j: int|
            0 <= j < line.len() ==> is_white_space(#[trigger] line[j]),
{
    lemma_trim_empty(line);
}

} // verus!
