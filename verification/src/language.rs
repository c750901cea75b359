//! What an extension says about a file: its language, its tag in the tree
//! view, and the style its name is shown in.

use vstd::prelude::*;
use crate::text::{
    all_ascii, ascii_lowercase, chars_of, find_last, last_index_of, lemma_last_index_of, lowercase,
    str_eq, string_from_chars, to_lowercase,
};

verus! {

/// The language name of an extension.
pub open spec fn language_of(ext: Seq<char>) -> Seq<char> {
    if ext == "rs"@ {
        "Rust"@
    } else if ext == "py"@ {
        "Python"@
    } else if ext == "js"@ {
        "JavaScript"@
    } else if ext == "ts"@ {
        "TypeScript"@
    } else if ext == "go"@ {
        "Go"@
    } else if ext == "c"@ {
        "C"@
    } else if ext == "cpp"@ || ext == "cc"@ || ext == "cxx"@ {
        "C++"@
    } else if ext == "h"@ || ext == "hpp"@ {
        "C/C++ Header"@
    } else if ext == "java"@ {
        "Java"@
    } else if ext == "kt"@ || ext == "kts"@ {
        "Kotlin"@
    } else if ext == "swift"@ {
        "Swift"@
    } else if ext == "rb"@ {
        "Ruby"@
    } else if ext == "php"@ {
        "PHP"@
    } else if ext == "cs"@ {
        "C#"@
    } else if ext == "html"@ || ext == "htm"@ {
        "HTML"@
    } else if ext == "css"@ {
        "CSS"@
    } else if ext == "scss"@ || ext == "sass"@ {
        "SCSS/Sass"@
    } else if ext == "sh"@ || ext == "bash"@ {
        "Shell"@
    } else if ext == "sql"@ {
        "SQL"@
    } else if ext == "json"@ {
        "JSON"@
    } else if ext == "yaml"@ || ext == "yml"@ {
        "YAML"@
    } else if ext == "toml"@ {
        "TOML"@
    } else if ext == "md"@ || ext == "markdown"@ {
        "Markdown"@
    } else if ext == "xml"@ {
        "XML"@
    } else if ext == "lua"@ {
        "Lua"@
    } else if ext == "dart"@ {
        "Dart"@
    } else if ext == "r"@ {
        "R"@
    } else if ext == "ex"@ || ext == "exs"@ {
        "Elixir"@
    } else if ext == "hs"@ {
        "Haskell"@
    } else if ext == "lock"@ {
        "Lockfile"@
    } else {
        "Other"@
    }
}

/// The language table: each extension of the table names its language, and
/// every other extension is `Other`. Distinct languages have distinct names,
/// so no two rows of the table share a name.
pub proof fn lemma_language_table(ext: Seq<char>)
    ensures
        (ext == "rs"@) ==> language_of(ext) == "Rust"@,
        (ext == "py"@) ==> language_of(ext) == "Python"@,
        (ext == "js"@) ==> language_of(ext) == "JavaScript"@,
        (ext == "ts"@) ==> language_of(ext) == "TypeScript"@,
        (ext == "go"@) ==> language_of(ext) == "Go"@,
        (ext == "c"@) ==> language_of(ext) == "C"@,
        (ext == "cpp"@ || ext == "cc"@ || ext == "cxx"@) ==> language_of(ext) == "C++"@,
        (ext == "h"@ || ext == "hpp"@) ==> language_of(ext) == "C/C++ Header"@,
        (ext == "java"@) ==> language_of(ext) == "Java"@,
        (ext == "kt"@ || ext == "kts"@) ==> language_of(ext) == "Kotlin"@,
        (ext == "swift"@) ==> language_of(ext) == "Swift"@,
        (ext == "rb"@) ==> language_of(ext) == "Ruby"@,
        (ext == "php"@) ==> language_of(ext) == "PHP"@,
        (ext == "cs"@) ==> language_of(ext) == "C#"@,
        (ext == "html"@ || ext == "htm"@) ==> language_of(ext) == "HTML"@,
        (ext == "css"@) ==> language_of(ext) == "CSS"@,
        (ext == "scss"@ || ext == "sass"@) ==> language_of(ext) == "SCSS/Sass"@,
        (ext == "sh"@ || ext == "bash"@) ==> language_of(ext) == "Shell"@,
        (ext == "sql"@) ==> language_of(ext) == "SQL"@,
        (ext == "json"@) ==> language_of(ext) == "JSON"@,
        (ext == "yaml"@ || ext == "yml"@) ==> language_of(ext) == "YAML"@,
        (ext == "toml"@) ==> language_of(ext) == "TOML"@,
        (ext == "md"@ || ext == "markdown"@) ==> language_of(ext) == "Markdown"@,
        (ext == "xml"@) ==> language_of(ext) == "XML"@,
        (ext == "lua"@) ==> language_of(ext) == "Lua"@,
        (ext == "dart"@) ==> language_of(ext) == "Dart"@,
        (ext == "r"@) ==> language_of(ext) == "R"@,
        (ext == "ex"@ || ext == "exs"@) ==> language_of(ext) == "Elixir"@,
        (ext == "hs"@) ==> language_of(ext) == "Haskell"@,
        (ext == "lock"@) ==> language_of(ext) == "Lockfile"@,
        !(ext == "rs"@ || ext == "py"@ || ext == "js"@ || ext == "ts"@ || ext == "go"@ || ext == "c"@ || ext == "cpp"@ || ext == "cc"@ || ext == "cxx"@ || ext == "h"@ || ext == "hpp"@ || ext == "java"@ || ext == "kt"@ || ext == "kts"@ || ext == "swift"@ || ext == "rb"@ || ext == "php"@ || ext == "cs"@ || ext == "html"@ || ext == "htm"@ || ext == "css"@ || ext == "scss"@ || ext == "sass"@ || ext == "sh"@ || ext == "bash"@ || ext == "sql"@ || ext == "json"@ || ext == "yaml"@ || ext == "yml"@ || ext == "toml"@ || ext == "md"@ || ext == "markdown"@ || ext == "xml"@ || ext == "lua"@ || ext == "dart"@ || ext == "r"@ || ext == "ex"@ || ext == "exs"@ || ext == "hs"@ || ext == "lock"@) ==> language_of(ext) == "Other"@,
        language_of("ts"@) != language_of("js"@),
        language_of("cpp"@) != language_of("c"@),
        language_of("h"@) != language_of("c"@),
{
    reveal_strlit("C");
    assert("C"@.len() == 1 && "C"@[0] == 'C');
    reveal_strlit("C#");
    assert("C#"@.len() == 2 && "C#"@[0] == 'C' && "C#"@[1] == '#');
    reveal_strlit("C++");
    assert("C++"@.len() == 3 && "C++"@[0] == 'C' && "C++"@[1] == '+' && "C++"@[2] == '+');
    reveal_strlit("C/C++ Header");
    assert("C/C++ Header"@.len() == 12 && "C/C++ Header"@[0] == 'C' && "C/C++ Header"@[1] == '/' && "C/C++ Header"@[2] == 'C' && "C/C++ Header"@[3] == '+' && "C/C++ Header"@[4] == '+' && "C/C++ Header"@[5] == ' ' && "C/C++ Header"@[6] == 'H' && "C/C++ Header"@[7] == 'e' && "C/C++ Header"@[8] == 'a' && "C/C++ Header"@[9] == 'd' && "C/C++ Header"@[10] == 'e' && "C/C++ Header"@[11] == 'r');
    reveal_strlit("CSS");
    assert("CSS"@.len() == 3 && "CSS"@[0] == 'C' && "CSS"@[1] == 'S' && "CSS"@[2] == 'S');
    reveal_strlit("Dart");
    assert("Dart"@.len() == 4 && "Dart"@[0] == 'D' && "Dart"@[1] == 'a' && "Dart"@[2] == 'r' && "Dart"@[3] == 't');
    reveal_strlit("Elixir");
    assert("Elixir"@.len() == 6 && "Elixir"@[0] == 'E' && "Elixir"@[1] == 'l' && "Elixir"@[2] == 'i' && "Elixir"@[3] == 'x' && "Elixir"@[4] == 'i' && "Elixir"@[5] == 'r');
    reveal_strlit("Go");
    assert("Go"@.len() == 2 && "Go"@[0] == 'G' && "Go"@[1] == 'o');
    reveal_strlit("HTML");
    assert("HTML"@.len() == 4 && "HTML"@[0] == 'H' && "HTML"@[1] == 'T' && "HTML"@[2] == 'M' && "HTML"@[3] == 'L');
    reveal_strlit("Haskell");
    assert("Haskell"@.len() == 7 && "Haskell"@[0] == 'H' && "Haskell"@[1] == 'a' && "Haskell"@[2] == 's' && "Haskell"@[3] == 'k' && "Haskell"@[4] == 'e' && "Haskell"@[5] == 'l' && "Haskell"@[6] == 'l');
    reveal_strlit("JSON");
    assert("JSON"@.len() == 4 && "JSON"@[0] == 'J' && "JSON"@[1] == 'S' && "JSON"@[2] == 'O' && "JSON"@[3] == 'N');
    reveal_strlit("Java");
    assert("Java"@.len() == 4 && "Java"@[0] == 'J' && "Java"@[1] == 'a' && "Java"@[2] == 'v' && "Java"@[3] == 'a');
    reveal_strlit("JavaScript");
    assert("JavaScript"@.len() == 10 && "JavaScript"@[0] == 'J' && "JavaScript"@[1] == 'a' && "JavaScript"@[2] == 'v' && "JavaScript"@[3] == 'a' && "JavaScript"@[4] == 'S' && "JavaScript"@[5] == 'c' && "JavaScript"@[6] == 'r' && "JavaScript"@[7] == 'i' && "JavaScript"@[8] == 'p' && "JavaScript"@[9] == 't');
    reveal_strlit("Kotlin");
    assert("Kotlin"@.len() == 6 && "Kotlin"@[0] == 'K' && "Kotlin"@[1] == 'o' && "Kotlin"@[2] == 't' && "Kotlin"@[3] == 'l' && "Kotlin"@[4] == 'i' && "Kotlin"@[5] == 'n');
    reveal_strlit("Lockfile");
    assert("Lockfile"@.len() == 8 && "Lockfile"@[0] == 'L' && "Lockfile"@[1] == 'o' && "Lockfile"@[2] == 'c' && "Lockfile"@[3] == 'k' && "Lockfile"@[4] == 'f' && "Lockfile"@[5] == 'i' && "Lockfile"@[6] == 'l' && "Lockfile"@[7] == 'e');
    reveal_strlit("Lua");
    assert("Lua"@.len() == 3 && "Lua"@[0] == 'L' && "Lua"@[1] == 'u' && "Lua"@[2] == 'a');
    reveal_strlit("Markdown");
    assert("Markdown"@.len() == 8 && "Markdown"@[0] == 'M' && "Markdown"@[1] == 'a' && "Markdown"@[2] == 'r' && "Markdown"@[3] == 'k' && "Markdown"@[4] == 'd' && "Markdown"@[5] == 'o' && "Markdown"@[6] == 'w' && "Markdown"@[7] == 'n');
    reveal_strlit("Other");
    assert("Other"@.len() == 5 && "Other"@[0] == 'O' && "Other"@[1] == 't' && "Other"@[2] == 'h' && "Other"@[3] == 'e' && "Other"@[4] == 'r');
    reveal_strlit("PHP");
    assert("PHP"@.len() == 3 && "PHP"@[0] == 'P' && "PHP"@[1] == 'H' && "PHP"@[2] == 'P');
    reveal_strlit("Python");
    assert("Python"@.len() == 6 && "Python"@[0] == 'P' && "Python"@[1] == 'y' && "Python"@[2] == 't' && "Python"@[3] == 'h' && "Python"@[4] == 'o' && "Python"@[5] == 'n');
    reveal_strlit("R");
    assert("R"@.len() == 1 && "R"@[0] == 'R');
    reveal_strlit("Ruby");
    assert("Ruby"@.len() == 4 && "Ruby"@[0] == 'R' && "Ruby"@[1] == 'u' && "Ruby"@[2] == 'b' && "Ruby"@[3] == 'y');
    reveal_strlit("Rust");
    assert("Rust"@.len() == 4 && "Rust"@[0] == 'R' && "Rust"@[1] == 'u' && "Rust"@[2] == 's' && "Rust"@[3] == 't');
    reveal_strlit("SCSS/Sass");
    assert("SCSS/Sass"@.len() == 9 && "SCSS/Sass"@[0] == 'S' && "SCSS/Sass"@[1] == 'C' && "SCSS/Sass"@[2] == 'S' && "SCSS/Sass"@[3] == 'S' && "SCSS/Sass"@[4] == '/' && "SCSS/Sass"@[5] == 'S' && "SCSS/Sass"@[6] == 'a' && "SCSS/Sass"@[7] == 's' && "SCSS/Sass"@[8] == 's');
    reveal_strlit("SQL");
    assert("SQL"@.len() == 3 && "SQL"@[0] == 'S' && "SQL"@[1] == 'Q' && "SQL"@[2] == 'L');
    reveal_strlit("Shell");
    assert("Shell"@.len() == 5 && "Shell"@[0] == 'S' && "Shell"@[1] == 'h' && "Shell"@[2] == 'e' && "Shell"@[3] == 'l' && "Shell"@[4] == 'l');
    reveal_strlit("Swift");
    assert("Swift"@.len() == 5 && "Swift"@[0] == 'S' && "Swift"@[1] == 'w' && "Swift"@[2] == 'i' && "Swift"@[3] == 'f' && "Swift"@[4] == 't');
    reveal_strlit("TOML");
    assert("TOML"@.len() == 4 && "TOML"@[0] == 'T' && "TOML"@[1] == 'O' && "TOML"@[2] == 'M' && "TOML"@[3] == 'L');
    reveal_strlit("TypeScript");
    assert("TypeScript"@.len() == 10 && "TypeScript"@[0] == 'T' && "TypeScript"@[1] == 'y' && "TypeScript"@[2] == 'p' && "TypeScript"@[3] == 'e' && "TypeScript"@[4] == 'S' && "TypeScript"@[5] == 'c' && "TypeScript"@[6] == 'r' && "TypeScript"@[7] == 'i' && "TypeScript"@[8] == 'p' && "TypeScript"@[9] == 't');
    reveal_strlit("XML");
    assert("XML"@.len() == 3 && "XML"@[0] == 'X' && "XML"@[1] == 'M' && "XML"@[2] == 'L');
    reveal_strlit("YAML");
    assert("YAML"@.len() == 4 && "YAML"@[0] == 'Y' && "YAML"@[1] == 'A' && "YAML"@[2] == 'M' && "YAML"@[3] == 'L');
    reveal_strlit("bash");
    assert("bash"@.len() == 4 && "bash"@[0] == 'b' && "bash"@[1] == 'a' && "bash"@[2] == 's' && "bash"@[3] == 'h');
    reveal_strlit("c");
    assert("c"@.len() == 1 && "c"@[0] == 'c');
    reveal_strlit("cc");
    assert("cc"@.len() == 2 && "cc"@[0] == 'c' && "cc"@[1] == 'c');
    reveal_strlit("cpp");
    assert("cpp"@.len() == 3 && "cpp"@[0] == 'c' && "cpp"@[1] == 'p' && "cpp"@[2] == 'p');
    reveal_strlit("cs");
    assert("cs"@.len() == 2 && "cs"@[0] == 'c' && "cs"@[1] == 's');
    reveal_strlit("css");
    assert("css"@.len() == 3 && "css"@[0] == 'c' && "css"@[1] == 's' && "css"@[2] == 's');
    reveal_strlit("cxx");
    assert("cxx"@.len() == 3 && "cxx"@[0] == 'c' && "cxx"@[1] == 'x' && "cxx"@[2] == 'x');
    reveal_strlit("dart");
    assert("dart"@.len() == 4 && "dart"@[0] == 'd' && "dart"@[1] == 'a' && "dart"@[2] == 'r' && "dart"@[3] == 't');
    reveal_strlit("ex");
    assert("ex"@.len() == 2 && "ex"@[0] == 'e' && "ex"@[1] == 'x');
    reveal_strlit("exs");
    assert("exs"@.len() == 3 && "exs"@[0] == 'e' && "exs"@[1] == 'x' && "exs"@[2] == 's');
    reveal_strlit("go");
    assert("go"@.len() == 2 && "go"@[0] == 'g' && "go"@[1] == 'o');
    reveal_strlit("h");
    assert("h"@.len() == 1 && "h"@[0] == 'h');
    reveal_strlit("hpp");
    assert("hpp"@.len() == 3 && "hpp"@[0] == 'h' && "hpp"@[1] == 'p' && "hpp"@[2] == 'p');
    reveal_strlit("hs");
    assert("hs"@.len() == 2 && "hs"@[0] == 'h' && "hs"@[1] == 's');
    reveal_strlit("htm");
    assert("htm"@.len() == 3 && "htm"@[0] == 'h' && "htm"@[1] == 't' && "htm"@[2] == 'm');
    reveal_strlit("html");
    assert("html"@.len() == 4 && "html"@[0] == 'h' && "html"@[1] == 't' && "html"@[2] == 'm' && "html"@[3] == 'l');
    reveal_strlit("java");
    assert("java"@.len() == 4 && "java"@[0] == 'j' && "java"@[1] == 'a' && "java"@[2] == 'v' && "java"@[3] == 'a');
    reveal_strlit("js");
    assert("js"@.len() == 2 && "js"@[0] == 'j' && "js"@[1] == 's');
    reveal_strlit("json");
    assert("json"@.len() == 4 && "json"@[0] == 'j' && "json"@[1] == 's' && "json"@[2] == 'o' && "json"@[3] == 'n');
    reveal_strlit("kt");
    assert("kt"@.len() == 2 && "kt"@[0] == 'k' && "kt"@[1] == 't');
    reveal_strlit("kts");
    assert("kts"@.len() == 3 && "kts"@[0] == 'k' && "kts"@[1] == 't' && "kts"@[2] == 's');
    reveal_strlit("lock");
    assert("lock"@.len() == 4 && "lock"@[0] == 'l' && "lock"@[1] == 'o' && "lock"@[2] == 'c' && "lock"@[3] == 'k');
    reveal_strlit("lua");
    assert("lua"@.len() == 3 && "lua"@[0] == 'l' && "lua"@[1] == 'u' && "lua"@[2] == 'a');
    reveal_strlit("markdown");
    assert("markdown"@.len() == 8 && "markdown"@[0] == 'm' && "markdown"@[1] == 'a' && "markdown"@[2] == 'r' && "markdown"@[3] == 'k' && "markdown"@[4] == 'd' && "markdown"@[5] == 'o' && "markdown"@[6] == 'w' && "markdown"@[7] == 'n');
    reveal_strlit("md");
    assert("md"@.len() == 2 && "md"@[0] == 'm' && "md"@[1] == 'd');
    reveal_strlit("php");
    assert("php"@.len() == 3 && "php"@[0] == 'p' && "php"@[1] == 'h' && "php"@[2] == 'p');
    reveal_strlit("py");
    assert("py"@.len() == 2 && "py"@[0] == 'p' && "py"@[1] == 'y');
    reveal_strlit("r");
    assert("r"@.len() == 1 && "r"@[0] == 'r');
    reveal_strlit("rb");
    assert("rb"@.len() == 2 && "rb"@[0] == 'r' && "rb"@[1] == 'b');
    reveal_strlit("rs");
    assert("rs"@.len() == 2 && "rs"@[0] == 'r' && "rs"@[1] == 's');
    reveal_strlit("sass");
    assert("sass"@.len() == 4 && "sass"@[0] == 's' && "sass"@[1] == 'a' && "sass"@[2] == 's' && "sass"@[3] == 's');
    reveal_strlit("scss");
    assert("scss"@.len() == 4 && "scss"@[0] == 's' && "scss"@[1] == 'c' && "scss"@[2] == 's' && "scss"@[3] == 's');
    reveal_strlit("sh");
    assert("sh"@.len() == 2 && "sh"@[0] == 's' && "sh"@[1] == 'h');
    reveal_strlit("sql");
    assert("sql"@.len() == 3 && "sql"@[0] == 's' && "sql"@[1] == 'q' && "sql"@[2] == 'l');
    reveal_strlit("swift");
    assert("swift"@.len() == 5 && "swift"@[0] == 's' && "swift"@[1] == 'w' && "swift"@[2] == 'i' && "swift"@[3] == 'f' && "swift"@[4] == 't');
    reveal_strlit("toml");
    assert("toml"@.len() == 4 && "toml"@[0] == 't' && "toml"@[1] == 'o' && "toml"@[2] == 'm' && "toml"@[3] == 'l');
    reveal_strlit("ts");
    assert("ts"@.len() == 2 && "ts"@[0] == 't' && "ts"@[1] == 's');
    reveal_strlit("xml");
    assert("xml"@.len() == 3 && "xml"@[0] == 'x' && "xml"@[1] == 'm' && "xml"@[2] == 'l');
    reveal_strlit("yaml");
    assert("yaml"@.len() == 4 && "yaml"@[0] == 'y' && "yaml"@[1] == 'a' && "yaml"@[2] == 'm' && "yaml"@[3] == 'l');
    reveal_strlit("yml");
    assert("yml"@.len() == 3 && "yml"@[0] == 'y' && "yml"@[1] == 'm' && "yml"@[2] == 'l');
}

/// The language name of an extension.
pub fn ext_to_language(ext: &str) -> (r: &'static str)
    ensures
        r@ == language_of(ext@),
{
    if str_eq(ext, "rs") {
        "Rust"
    } else if str_eq(ext, "py") {
        "Python"
    } else if str_eq(ext, "js") {
        "JavaScript"
    } else if str_eq(ext, "ts") {
        "TypeScript"
    } else if str_eq(ext, "go") {
        "Go"
    } else if str_eq(ext, "c") {
        "C"
    } else if str_eq(ext, "cpp") || str_eq(ext, "cc") || str_eq(ext, "cxx") {
        "C++"
    } else if str_eq(ext, "h") || str_eq(ext, "hpp") {
        "C/C++ Header"
    } else if str_eq(ext, "java") {
        "Java"
    } else if str_eq(ext, "kt") || str_eq(ext, "kts") {
        "Kotlin"
    } else if str_eq(ext, "swift") {
        "Swift"
    } else if str_eq(ext, "rb") {
        "Ruby"
    } else if str_eq(ext, "php") {
        "PHP"
    } else if str_eq(ext, "cs") {
        "C#"
    } else if str_eq(ext, "html") || str_eq(ext, "htm") {
        "HTML"
    } else if str_eq(ext, "css") {
        "CSS"
    } else if str_eq(ext, "scss") || str_eq(ext, "sass") {
        "SCSS/Sass"
    } else if str_eq(ext, "sh") || str_eq(ext, "bash") {
        "Shell"
    } else if str_eq(ext, "sql") {
        "SQL"
    } else if str_eq(ext, "json") {
        "JSON"
    } else if str_eq(ext, "yaml") || str_eq(ext, "yml") {
        "YAML"
    } else if str_eq(ext, "toml") {
        "TOML"
    } else if str_eq(ext, "md") || str_eq(ext, "markdown") {
        "Markdown"
    } else if str_eq(ext, "xml") {
        "XML"
    } else if str_eq(ext, "lua") {
        "Lua"
    } else if str_eq(ext, "dart") {
        "Dart"
    } else if str_eq(ext, "r") {
        "R"
    } else if str_eq(ext, "ex") || str_eq(ext, "exs") {
        "Elixir"
    } else if str_eq(ext, "hs") {
        "Haskell"
    } else if str_eq(ext, "lock") {
        "Lockfile"
    } else {
        "Other"
    }
}

/// The text after the last `.` of a name, or the whole name where it holds
/// no `.`, as `name.split('.').last()` gives it.
pub open spec fn after_last_dot(name: Seq<char>) -> Seq<char> {
    name.skip(last_index_of(name, '.') + 1)
}

/// The lowercase text after the last `.` of a name (the whole name where it
/// holds no `.`), by which the tree view tags and colours a file.
pub open spec fn name_extension_of(name: Seq<char>) -> Seq<char> {
    lowercase(after_last_dot(name))
}

/// The lowercase text after the last `.` of `name`.
pub fn name_extension(name: &str) -> (r: String)
    ensures
        r@ == name_extension_of(name@),
        all_ascii(after_last_dot(name@)) ==> r@ == ascii_lowercase(after_last_dot(name@)),
{
    let v = chars_of(name);
    let start = match find_last(&v, '.') {
        Some(k) => {
            proof {
                lemma_last_index_of(v@, '.');
            }
            assert(k < v.len());
            k + 1
        },
        None => 0,
    };
    let tail = v.as_slice().split_at(start).1;
    assert(tail@ =~= after_last_dot(v@));
    let s = string_from_chars(tail);
    to_lowercase(s.as_str())
}

/// The five-character tag that the tree view shows before a file of
/// extension `ext`.
pub open spec fn tag_label_of(ext: Seq<char>) -> Seq<char> {
    if ext == "rs"@ {
        "[rs] "@
    } else if ext == "py"@ {
        "[py] "@
    } else if ext == "js"@ {
        "[js] "@
    } else if ext == "ts"@ {
        "[ts] "@
    } else if ext == "go"@ {
        "[go] "@
    } else if ext == "c"@ || ext == "cpp"@ || ext == "h"@ {
        "[c]  "@
    } else if ext == "java"@ {
        "[jv] "@
    } else if ext == "html"@ || ext == "htm"@ {
        "[htm]"@
    } else if ext == "css"@ || ext == "scss"@ {
        "[css]"@
    } else if ext == "json"@ {
        "[jsn]"@
    } else if ext == "yaml"@ || ext == "toml"@ || ext == "yml"@ {
        "[cfg]"@
    } else if ext == "md"@ {
        "[md] "@
    } else if ext == "sh"@ || ext == "bash"@ {
        "[sh] "@
    } else if ext == "sql"@ {
        "[sql]"@
    } else if ext == "txt"@ {
        "[txt]"@
    } else if ext == "png"@ || ext == "jpg"@ || ext == "jpeg"@ || ext == "gif"@ || ext == "svg"@ {
        "[img]"@
    } else {
        "[---]"@
    }
}

/// The tag shown before a file of extension `ext` (already in lowercase).
pub fn tag_label(ext: &str) -> (r: &'static str)
    ensures
        r@ == tag_label_of(ext@),
{
    if str_eq(ext, "rs") {
        "[rs] "
    } else if str_eq(ext, "py") {
        "[py] "
    } else if str_eq(ext, "js") {
        "[js] "
    } else if str_eq(ext, "ts") {
        "[ts] "
    } else if str_eq(ext, "go") {
        "[go] "
    } else if str_eq(ext, "c") || str_eq(ext, "cpp") || str_eq(ext, "h") {
        "[c]  "
    } else if str_eq(ext, "java") {
        "[jv] "
    } else if str_eq(ext, "html") || str_eq(ext, "htm") {
        "[htm]"
    } else if str_eq(ext, "css") || str_eq(ext, "scss") {
        "[css]"
    } else if str_eq(ext, "json") {
        "[jsn]"
    } else if str_eq(ext, "yaml") || str_eq(ext, "toml") || str_eq(ext, "yml") {
        "[cfg]"
    } else if str_eq(ext, "md") {
        "[md] "
    } else if str_eq(ext, "sh") || str_eq(ext, "bash") {
        "[sh] "
    } else if str_eq(ext, "sql") {
        "[sql]"
    } else if str_eq(ext, "txt") {
        "[txt]"
    } else if str_eq(ext, "png") || str_eq(ext, "jpg") || str_eq(ext, "jpeg") || str_eq(ext, "gif")
        || str_eq(ext, "svg") {
        "[img]"
    } else {
        "[---]"
    }
}

/// The tag that the tree view shows before the file `name` (shown in bright
/// black).
pub fn file_tag(name: &str) -> (r: &'static str)
    ensures
        r@ == tag_label_of(name_extension_of(name@)),
        all_ascii(after_last_dot(name@)) ==> r@ == tag_label_of(
            ascii_lowercase(after_last_dot(name@)),
        ),
{
    let ext = name_extension(name);
    tag_label(ext.as_str())
}

/// The colour and weight in which the tree view shows a file name.
#[derive(PartialEq, Eq, Structural, Clone, Copy, Debug)]
pub enum NameStyle {
    BrightRedBold,
    YellowBold,
    BrightYellow,
    Cyan,
    Blue,
    BrightRed,
    BrightMagenta,
    Magenta,
    BrightGreen,
    WhiteBold,
    Green,
    White,
}

/// The style of a file name of extension `ext`.
pub open spec fn name_style_of(ext: Seq<char>) -> NameStyle {
    if ext == "rs"@ {
        NameStyle::BrightRedBold
    } else if ext == "py"@ {
        NameStyle::YellowBold
    } else if ext == "js"@ || ext == "ts"@ {
        NameStyle::BrightYellow
    } else if ext == "go"@ {
        NameStyle::Cyan
    } else if ext == "c"@ || ext == "cpp"@ || ext == "h"@ {
        NameStyle::Blue
    } else if ext == "java"@ {
        NameStyle::BrightRed
    } else if ext == "html"@ || ext == "htm"@ {
        NameStyle::BrightMagenta
    } else if ext == "css"@ || ext == "scss"@ {
        NameStyle::Magenta
    } else if ext == "json"@ || ext == "yaml"@ || ext == "toml"@ || ext == "yml"@ {
        NameStyle::BrightGreen
    } else if ext == "md"@ {
        NameStyle::WhiteBold
    } else if ext == "sh"@ || ext == "bash"@ {
        NameStyle::Green
    } else {
        NameStyle::White
    }
}

/// The style of a file name of extension `ext` (already in lowercase).
pub fn name_style(ext: &str) -> (r: NameStyle)
    ensures
        r == name_style_of(ext@),
{
    if str_eq(ext, "rs") {
        NameStyle::BrightRedBold
    } else if str_eq(ext, "py") {
        NameStyle::YellowBold
    } else if str_eq(ext, "js") || str_eq(ext, "ts") {
        NameStyle::BrightYellow
    } else if str_eq(ext, "go") {
        NameStyle::Cyan
    } else if str_eq(ext, "c") || str_eq(ext, "cpp") || str_eq(ext, "h") {
        NameStyle::Blue
    } else if str_eq(ext, "java") {
        NameStyle::BrightRed
    } else if str_eq(ext, "html") || str_eq(ext, "htm") {
        NameStyle::BrightMagenta
    } else if str_eq(ext, "css") || str_eq(ext, "scss") {
        NameStyle::Magenta
    } else if str_eq(ext, "json") || str_eq(ext, "yaml") || str_eq(ext, "toml") || str_eq(
        ext,
        "yml",
    ) {
        NameStyle::BrightGreen
    } else if str_eq(ext, "md") {
        NameStyle::WhiteBold
    } else if str_eq(ext, "sh") || str_eq(ext, "bash") {
        NameStyle::Green
    } else {
        NameStyle::White
    }
}

/// The style in which the tree view shows the file `name`.
pub fn color_file_name(name: &str) -> (r: NameStyle)
    ensures
        r == name_style_of(name_extension_of(name@)),
        all_ascii(after_last_dot(name@)) ==> r == name_style_of(
            ascii_lowercase(after_last_dot(name@)),
        ),
{
    let ext = name_extension(name);
    name_style(ext.as_str())
}

/// The tag table of the tree view: each extension of the table gets its
/// five-character tag, and every other extension `[---]`.
pub proof fn lemma_tag_table(ext: Seq<char>)
    ensures
        (ext == "rs"@) ==> tag_label_of(ext) == "[rs] "@,
        (ext == "py"@) ==> tag_label_of(ext) == "[py] "@,
        (ext == "js"@) ==> tag_label_of(ext) == "[js] "@,
        (ext == "ts"@) ==> tag_label_of(ext) == "[ts] "@,
        (ext == "go"@) ==> tag_label_of(ext) == "[go] "@,
        (ext == "c"@ || ext == "cpp"@ || ext == "h"@) ==> tag_label_of(ext) == "[c]  "@,
        (ext == "java"@) ==> tag_label_of(ext) == "[jv] "@,
        (ext == "html"@ || ext == "htm"@) ==> tag_label_of(ext) == "[htm]"@,
        (ext == "css"@ || ext == "scss"@) ==> tag_label_of(ext) == "[css]"@,
        (ext == "json"@) ==> tag_label_of(ext) == "[jsn]"@,
        (ext == "yaml"@ || ext == "toml"@ || ext == "yml"@) ==> tag_label_of(ext) == "[cfg]"@,
        (ext == "md"@) ==> tag_label_of(ext) == "[md] "@,
        (ext == "sh"@ || ext == "bash"@) ==> tag_label_of(ext) == "[sh] "@,
        (ext == "sql"@) ==> tag_label_of(ext) == "[sql]"@,
        (ext == "txt"@) ==> tag_label_of(ext) == "[txt]"@,
        (ext == "png"@ || ext == "jpg"@ || ext == "jpeg"@ || ext == "gif"@ || ext == "svg"@) ==> tag_label_of(ext) == "[img]"@,
        !(ext == "rs"@ || ext == "py"@ || ext == "js"@ || ext == "ts"@ || ext == "go"@ || ext == "c"@ || ext == "cpp"@ || ext == "h"@ || ext == "java"@ || ext == "html"@ || ext == "htm"@ || ext == "css"@ || ext == "scss"@ || ext == "json"@ || ext == "yaml"@ || ext == "toml"@ || ext == "yml"@ || ext == "md"@ || ext == "sh"@ || ext == "bash"@ || ext == "sql"@ || ext == "txt"@ || ext == "png"@ || ext == "jpg"@ || ext == "jpeg"@ || ext == "gif"@ || ext == "svg"@) ==> tag_label_of(ext) == "[---]"@,
        tag_label_of(ext).len() == 5,
{
    reveal_strlit("[---]");
    assert("[---]"@.len() == 5 && "[---]"@[0] == '[' && "[---]"@[1] == '-' && "[---]"@[2] == '-' && "[---]"@[3] == '-' && "[---]"@[4] == ']');
    reveal_strlit("[c]  ");
    assert("[c]  "@.len() == 5 && "[c]  "@[0] == '[' && "[c]  "@[1] == 'c' && "[c]  "@[2] == ']' && "[c]  "@[3] == ' ' && "[c]  "@[4] == ' ');
    reveal_strlit("[cfg]");
    assert("[cfg]"@.len() == 5 && "[cfg]"@[0] == '[' && "[cfg]"@[1] == 'c' && "[cfg]"@[2] == 'f' && "[cfg]"@[3] == 'g' && "[cfg]"@[4] == ']');
    reveal_strlit("[css]");
    assert("[css]"@.len() == 5 && "[css]"@[0] == '[' && "[css]"@[1] == 'c' && "[css]"@[2] == 's' && "[css]"@[3] == 's' && "[css]"@[4] == ']');
    reveal_strlit("[go] ");
    assert("[go] "@.len() == 5 && "[go] "@[0] == '[' && "[go] "@[1] == 'g' && "[go] "@[2] == 'o' && "[go] "@[3] == ']' && "[go] "@[4] == ' ');
    reveal_strlit("[htm]");
    assert("[htm]"@.len() == 5 && "[htm]"@[0] == '[' && "[htm]"@[1] == 'h' && "[htm]"@[2] == 't' && "[htm]"@[3] == 'm' && "[htm]"@[4] == ']');
    reveal_strlit("[img]");
    assert("[img]"@.len() == 5 && "[img]"@[0] == '[' && "[img]"@[1] == 'i' && "[img]"@[2] == 'm' && "[img]"@[3] == 'g' && "[img]"@[4] == ']');
    reveal_strlit("[js] ");
    assert("[js] "@.len() == 5 && "[js] "@[0] == '[' && "[js] "@[1] == 'j' && "[js] "@[2] == 's' && "[js] "@[3] == ']' && "[js] "@[4] == ' ');
    reveal_strlit("[jsn]");
    assert("[jsn]"@.len() == 5 && "[jsn]"@[0] == '[' && "[jsn]"@[1] == 'j' && "[jsn]"@[2] == 's' && "[jsn]"@[3] == 'n' && "[jsn]"@[4] == ']');
    reveal_strlit("[jv] ");
    assert("[jv] "@.len() == 5 && "[jv] "@[0] == '[' && "[jv] "@[1] == 'j' && "[jv] "@[2] == 'v' && "[jv] "@[3] == ']' && "[jv] "@[4] == ' ');
    reveal_strlit("[md] ");
    assert("[md] "@.len() == 5 && "[md] "@[0] == '[' && "[md] "@[1] == 'm' && "[md] "@[2] == 'd' && "[md] "@[3] == ']' && "[md] "@[4] == ' ');
    reveal_strlit("[py] ");
    assert("[py] "@.len() == 5 && "[py] "@[0] == '[' && "[py] "@[1] == 'p' && "[py] "@[2] == 'y' && "[py] "@[3] == ']' && "[py] "@[4] == ' ');
    reveal_strlit("[rs] ");
    assert("[rs] "@.len() == 5 && "[rs] "@[0] == '[' && "[rs] "@[1] == 'r' && "[rs] "@[2] == 's' && "[rs] "@[3] == ']' && "[rs] "@[4] == ' ');
    reveal_strlit("[sh] ");
    assert("[sh] "@.len() == 5 && "[sh] "@[0] == '[' && "[sh] "@[1] == 's' && "[sh] "@[2] == 'h' && "[sh] "@[3] == ']' && "[sh] "@[4] == ' ');
    reveal_strlit("[sql]");
    assert("[sql]"@.len() == 5 && "[sql]"@[0] == '[' && "[sql]"@[1] == 's' && "[sql]"@[2] == 'q' && "[sql]"@[3] == 'l' && "[sql]"@[4] == ']');
    reveal_strlit("[ts] ");
    assert("[ts] "@.len() == 5 && "[ts] "@[0] == '[' && "[ts] "@[1] == 't' && "[ts] "@[2] == 's' && "[ts] "@[3] == ']' && "[ts] "@[4] == ' ');
    reveal_strlit("[txt]");
    assert("[txt]"@.len() == 5 && "[txt]"@[0] == '[' && "[txt]"@[1] == 't' && "[txt]"@[2] == 'x' && "[txt]"@[3] == 't' && "[txt]"@[4] == ']');
    reveal_strlit("bash");
    assert("bash"@.len() == 4 && "bash"@[0] == 'b' && "bash"@[1] == 'a' && "bash"@[2] == 's' && "bash"@[3] == 'h');
    reveal_strlit("c");
    assert("c"@.len() == 1 && "c"@[0] == 'c');
    reveal_strlit("cpp");
    assert("cpp"@.len() == 3 && "cpp"@[0] == 'c' && "cpp"@[1] == 'p' && "cpp"@[2] == 'p');
    reveal_strlit("css");
    assert("css"@.len() == 3 && "css"@[0] == 'c' && "css"@[1] == 's' && "css"@[2] == 's');
    reveal_strlit("gif");
    assert("gif"@.len() == 3 && "gif"@[0] == 'g' && "gif"@[1] == 'i' && "gif"@[2] == 'f');
    reveal_strlit("go");
    assert("go"@.len() == 2 && "go"@[0] == 'g' && "go"@[1] == 'o');
    reveal_strlit("h");
    assert("h"@.len() == 1 && "h"@[0] == 'h');
    reveal_strlit("htm");
    assert("htm"@.len() == 3 && "htm"@[0] == 'h' && "htm"@[1] == 't' && "htm"@[2] == 'm');
    reveal_strlit("html");
    assert("html"@.len() == 4 && "html"@[0] == 'h' && "html"@[1] == 't' && "html"@[2] == 'm' && "html"@[3] == 'l');
    reveal_strlit("java");
    assert("java"@.len() == 4 && "java"@[0] == 'j' && "java"@[1] == 'a' && "java"@[2] == 'v' && "java"@[3] == 'a');
    reveal_strlit("jpeg");
    assert("jpeg"@.len() == 4 && "jpeg"@[0] == 'j' && "jpeg"@[1] == 'p' && "jpeg"@[2] == 'e' && "jpeg"@[3] == 'g');
    reveal_strlit("jpg");
    assert("jpg"@.len() == 3 && "jpg"@[0] == 'j' && "jpg"@[1] == 'p' && "jpg"@[2] == 'g');
    reveal_strlit("js");
    assert("js"@.len() == 2 && "js"@[0] == 'j' && "js"@[1] == 's');
    reveal_strlit("json");
    assert("json"@.len() == 4 && "json"@[0] == 'j' && "json"@[1] == 's' && "json"@[2] == 'o' && "json"@[3] == 'n');
    reveal_strlit("md");
    assert("md"@.len() == 2 && "md"@[0] == 'm' && "md"@[1] == 'd');
    reveal_strlit("png");
    assert("png"@.len() == 3 && "png"@[0] == 'p' && "png"@[1] == 'n' && "png"@[2] == 'g');
    reveal_strlit("py");
    assert("py"@.len() == 2 && "py"@[0] == 'p' && "py"@[1] == 'y');
    reveal_strlit("rs");
    assert("rs"@.len() == 2 && "rs"@[0] == 'r' && "rs"@[1] == 's');
    reveal_strlit("scss");
    assert("scss"@.len() == 4 && "scss"@[0] == 's' && "scss"@[1] == 'c' && "scss"@[2] == 's' && "scss"@[3] == 's');
    reveal_strlit("sh");
    assert("sh"@.len() == 2 && "sh"@[0] == 's' && "sh"@[1] == 'h');
    reveal_strlit("sql");
    assert("sql"@.len() == 3 && "sql"@[0] == 's' && "sql"@[1] == 'q' && "sql"@[2] == 'l');
    reveal_strlit("svg");
    assert("svg"@.len() == 3 && "svg"@[0] == 's' && "svg"@[1] == 'v' && "svg"@[2] == 'g');
    reveal_strlit("toml");
    assert("toml"@.len() == 4 && "toml"@[0] == 't' && "toml"@[1] == 'o' && "toml"@[2] == 'm' && "toml"@[3] == 'l');
    reveal_strlit("ts");
    assert("ts"@.len() == 2 && "ts"@[0] == 't' && "ts"@[1] == 's');
    reveal_strlit("txt");
    assert("txt"@.len() == 3 && "txt"@[0] == 't' && "txt"@[1] == 'x' && "txt"@[2] == 't');
    reveal_strlit("yaml");
    assert("yaml"@.len() == 4 && "yaml"@[0] == 'y' && "yaml"@[1] == 'a' && "yaml"@[2] == 'm' && "yaml"@[3] == 'l');
    reveal_strlit("yml");
    assert("yml"@.len() == 3 && "yml"@[0] == 'y' && "yml"@[1] == 'm' && "yml"@[2] == 'l');
}

/// The style table of the tree view: each extension of the table gets its
/// colour, and every other extension plain white.
pub proof fn lemma_style_table(ext: Seq<char>)
    ensures
        (ext == "rs"@) ==> name_style_of(ext) == NameStyle::BrightRedBold,
        (ext == "py"@) ==> name_style_of(ext) == NameStyle::YellowBold,
        (ext == "js"@ || ext == "ts"@) ==> name_style_of(ext) == NameStyle::BrightYellow,
        (ext == "go"@) ==> name_style_of(ext) == NameStyle::Cyan,
        (ext == "c"@ || ext == "cpp"@ || ext == "h"@) ==> name_style_of(ext) == NameStyle::Blue,
        (ext == "java"@) ==> name_style_of(ext) == NameStyle::BrightRed,
        (ext == "html"@ || ext == "htm"@) ==> name_style_of(ext) == NameStyle::BrightMagenta,
        (ext == "css"@ || ext == "scss"@) ==> name_style_of(ext) == NameStyle::Magenta,
        (ext == "json"@ || ext == "yaml"@ || ext == "toml"@ || ext == "yml"@) ==> name_style_of(ext) == NameStyle::BrightGreen,
        (ext == "md"@) ==> name_style_of(ext) == NameStyle::WhiteBold,
        (ext == "sh"@ || ext == "bash"@) ==> name_style_of(ext) == NameStyle::Green,
        !(ext == "rs"@ || ext == "py"@ || ext == "js"@ || ext == "ts"@ || ext == "go"@ || ext == "c"@ || ext == "cpp"@ || ext == "h"@ || ext == "java"@ || ext == "html"@ || ext == "htm"@ || ext == "css"@ || ext == "scss"@ || ext == "json"@ || ext == "yaml"@ || ext == "toml"@ || ext == "yml"@ || ext == "md"@ || ext == "sh"@ || ext == "bash"@) ==> name_style_of(ext) == NameStyle::White,
{
    reveal_strlit("bash");
    assert("bash"@.len() == 4 && "bash"@[0] == 'b' && "bash"@[1] == 'a' && "bash"@[2] == 's' && "bash"@[3] == 'h');
    reveal_strlit("c");
    assert("c"@.len() == 1 && "c"@[0] == 'c');
    reveal_strlit("cpp");
    assert("cpp"@.len() == 3 && "cpp"@[0] == 'c' && "cpp"@[1] == 'p' && "cpp"@[2] == 'p');
    reveal_strlit("css");
    assert("css"@.len() == 3 && "css"@[0] == 'c' && "css"@[1] == 's' && "css"@[2] == 's');
    reveal_strlit("go");
    assert("go"@.len() == 2 && "go"@[0] == 'g' && "go"@[1] == 'o');
    reveal_strlit("h");
    assert("h"@.len() == 1 && "h"@[0] == 'h');
    reveal_strlit("htm");
    assert("htm"@.len() == 3 && "htm"@[0] == 'h' && "htm"@[1] == 't' && "htm"@[2] == 'm');
    reveal_strlit("html");
    assert("html"@.len() == 4 && "html"@[0] == 'h' && "html"@[1] == 't' && "html"@[2] == 'm' && "html"@[3] == 'l');
    reveal_strlit("java");
    assert("java"@.len() == 4 && "java"@[0] == 'j' && "java"@[1] == 'a' && "java"@[2] == 'v' && "java"@[3] == 'a');
    reveal_strlit("js");
    assert("js"@.len() == 2 && "js"@[0] == 'j' && "js"@[1] == 's');
    reveal_strlit("json");
    assert("json"@.len() == 4 && "json"@[0] == 'j' && "json"@[1] == 's' && "json"@[2] == 'o' && "json"@[3] == 'n');
    reveal_strlit("md");
    assert("md"@.len() == 2 && "md"@[0] == 'm' && "md"@[1] == 'd');
    reveal_strlit("py");
    assert("py"@.len() == 2 && "py"@[0] == 'p' && "py"@[1] == 'y');
    reveal_strlit("rs");
    assert("rs"@.len() == 2 && "rs"@[0] == 'r' && "rs"@[1] == 's');
    reveal_strlit("scss");
    assert("scss"@.len() == 4 && "scss"@[0] == 's' && "scss"@[1] == 'c' && "scss"@[2] == 's' && "scss"@[3] == 's');
    reveal_strlit("sh");
    assert("sh"@.len() == 2 && "sh"@[0] == 's' && "sh"@[1] == 'h');
    reveal_strlit("toml");
    assert("toml"@.len() == 4 && "toml"@[0] == 't' && "toml"@[1] == 'o' && "toml"@[2] == 'm' && "toml"@[3] == 'l');
    reveal_strlit("ts");
    assert("ts"@.len() == 2 && "ts"@[0] == 't' && "ts"@[1] == 's');
    reveal_strlit("yaml");
    assert("yaml"@.len() == 4 && "yaml"@[0] == 'y' && "yaml"@[1] == 'a' && "yaml"@[2] == 'm' && "yaml"@[3] == 'l');
    reveal_strlit("yml");
    assert("yml"@.len() == 3 && "yml"@[0] == 'y' && "yml"@[1] == 'm' && "yml"@[2] == 'l');
}

/// The text after the last `.` holds no `.`, ends the name, and follows a `.`
/// unless the name holds none, in which case it is the whole name.
pub proof fn lemma_after_last_dot_shape(name: Seq<char>)
    ensures
        ({
            let t = after_last_dot(name);
            &&& t.len() <= name.len()
            &&& name.skip(name.len() - t.len()) == t
            &&& forall|j: int| 0 <= j < t.len() ==> t[j] != '.'
            &&& (t.len() == name.len() <==> forall|j: int| 0 <= j < name.len() ==> #[trigger] name[j] != '.')
            &&& t.len() < name.len() ==> name[name.len() - t.len() - 1] == '.'
        }),
{
    lemma_last_index_of(name, '.');
    let k = last_index_of(name, '.');
    let t = after_last_dot(name);
    assert(t == name.skip(k + 1));
    assert(name.skip(name.len() - t.len()) =~= t);
    assert forall|j: int| 0 <= j < t.len() implies t[j] != '.' by {
        assert(t[j] == name[k + 1 + j]);
    }
    if k >= 0 {
        assert(name[k] == '.');
    }
}

} // verus!
