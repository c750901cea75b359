//! Project-wide figures: per-extension summaries, the lines breakdown, the
//! project overview, and numbers written with thousands separators.

use vstd::prelude::*;
use crate::analysis::FileStats;
use crate::language::{ext_to_language, language_of};
use crate::numbers::{decimal, decimal_chars, decimal_of, format_number, group_thousands};
use crate::text::{str_eq, string_from_chars};

verus! {

/// A quantity of a file that the reports add up.
#[derive(PartialEq, Eq, Structural, Clone, Copy, Debug)]
pub enum Measure {
    Files,
    Lines,
    Code,
    Blank,
    Comment,
}

/// How much of the quantity `m` the file `f` holds.
pub open spec fn measure(f: FileStats, m: Measure) -> nat {
    match m {
        Measure::Files => 1,
        Measure::Lines => f.total_lines as nat,
        Measure::Code => f.code_lines as nat,
        Measure::Blank => f.blank_lines as nat,
        Measure::Comment => f.comment_lines as nat,
    }
}

/// The quantity `m` summed over all of `files`.
pub open spec fn sum_all(files: Seq<FileStats>, m: Measure) -> nat
    decreases files.len(),
{
    if files.len() == 0 {
        0
    } else {
        sum_all(files.drop_last(), m) + measure(files.last(), m)
    }
}

/// The quantity `m` summed over the files of `files` counted under extension `e`.
pub open spec fn ext_sum(files: Seq<FileStats>, e: Seq<char>, m: Measure) -> nat
    decreases files.len(),
{
    if files.len() == 0 {
        0
    } else {
        ext_sum(files.drop_last(), e, m) + if files.last().extension@ == e {
            measure(files.last(), m)
        } else {
            0
        }
    }
}

/// Every file of the sequence is well formed.
pub open spec fn all_wf(files: Seq<FileStats>) -> bool {
    forall|j: int| 0 <= j < files.len() ==> (#[trigger] files[j]).wf()
}

/// Part of the files holds no more of a quantity than all of them.
pub proof fn lemma_ext_sum_le(files: Seq<FileStats>, e: Seq<char>, m: Measure)
    ensures
        ext_sum(files, e, m) <= sum_all(files, m),
    decreases files.len(),
{
    if files.len() > 0 {
        lemma_ext_sum_le(files.drop_last(), e, m);
    }
}

/// A prefix of the files holds no more of a quantity than all of them.
pub proof fn lemma_sum_prefix_le(files: Seq<FileStats>, i: int, m: Measure)
    requires
        0 <= i <= files.len(),
    ensures
        sum_all(files.take(i), m) <= sum_all(files, m),
    decreases files.len(),
{
    if i < files.len() {
        assert(files.drop_last().take(i) =~= files.take(i));
        lemma_sum_prefix_le(files.drop_last(), i, m);
    } else {
        assert(files.take(i) =~= files);
    }
}

/// Code lines never exceed lines, in total, for well-formed files.
pub proof fn lemma_code_le_lines(files: Seq<FileStats>)
    requires
        all_wf(files),
    ensures
        sum_all(files, Measure::Code) <= sum_all(files, Measure::Lines),
        sum_all(files, Measure::Blank) <= sum_all(files, Measure::Lines),
        sum_all(files, Measure::Comment) <= sum_all(files, Measure::Lines),
    decreases files.len(),
{
    if files.len() > 0 {
        assert(files.last() == files[files.len() - 1]);
        assert(all_wf(files.drop_last())) by {
            assert forall|j: int| 0 <= j < files.drop_last().len() implies (
            #[trigger] files.drop_last()[j]).wf() by {
                assert(files.drop_last()[j] == files[j]);
            }
        }
        lemma_code_le_lines(files.drop_last());
    }
}

/// No file of an extension that none of the files has adds to that extension.
pub proof fn lemma_ext_sum_absent(files: Seq<FileStats>, e: Seq<char>, m: Measure)
    requires
        forall|j: int| 0 <= j < files.len() ==> (#[trigger] files[j]).extension@ != e,
    ensures
        ext_sum(files, e, m) == 0,
    decreases files.len(),
{
    if files.len() > 0 {
        assert(files.last() == files[files.len() - 1]);
        lemma_ext_sum_absent(files.drop_last(), e, m);
    }
}

/// The totals of one extension.
#[derive(Clone, Copy, Debug)]
pub struct ExtensionSummary {
    pub file_count: usize,
    pub total_lines: usize,
    pub code_lines: usize,
}

/// One extension and its totals.
#[derive(Debug)]
pub struct ExtensionEntry {
    pub extension: String,
    pub summary: ExtensionSummary,
}

/// The entry holds the totals of its extension over `files`.
pub open spec fn entry_sums(en: ExtensionEntry, files: Seq<FileStats>) -> bool {
    &&& en.summary.file_count == ext_sum(files, en.extension@, Measure::Files)
    &&& en.summary.total_lines == ext_sum(files, en.extension@, Measure::Lines)
    &&& en.summary.code_lines == ext_sum(files, en.extension@, Measure::Code)
}

/// Some entry is for extension `e`.
pub open spec fn has_entry(entries: Seq<ExtensionEntry>, e: Seq<char>) -> bool {
    exists|k: int| 0 <= k < entries.len() && (#[trigger] entries[k]).extension@ == e
}

/// No two entries are for the same extension.
pub open spec fn distinct_extensions(entries: Seq<ExtensionEntry>) -> bool {
    forall|a: int, b: int|
        0 <= a < entries.len() && 0 <= b < entries.len() && a != b ==> (#[trigger] entries[a]).extension@
            != (#[trigger] entries[b]).extension@
}

/// The entries are the per-extension totals of `files`: one entry for each
/// extension that some file has, and none for any other.
pub open spec fn summarizes(entries: Seq<ExtensionEntry>, files: Seq<FileStats>) -> bool {
    &&& distinct_extensions(entries)
    &&& forall|k: int| 0 <= k < entries.len() ==> entry_sums(#[trigger] entries[k], files)
    &&& forall|k: int| 0 <= k < entries.len() ==> (#[trigger] entries[k]).summary.file_count >= 1
    &&& forall|j: int| 0 <= j < files.len() ==> has_entry(entries, (#[trigger] files[j]).extension@)
}

/// The index of the entry for extension `e`, if there is one.
fn find_entry(entries: &Vec<ExtensionEntry>, e: &str) -> (r: Option<usize>)
    ensures
        match r {
            Some(k) => k < entries.len() && entries@[k as int].extension@ == e@,
            None => !has_entry(entries@, e@),
        },
{
    let n = entries.len();
    let mut k: usize = 0;
    while k < n
        invariant
            n == entries.len(),
            k <= n,
            forall|j: int| 0 <= j < k ==> (#[trigger] entries@[j]).extension@ != e@,
        decreases n - k,
    {
        if str_eq(entries[k].extension.as_str(), e) {
            return Some(k);
        }
        k = k + 1;
    }
    None
}

/// The totals of each extension found among `files`: one entry for each
/// extension that some file has, and none for any other.
pub fn summarize_by_extension(files: &Vec<FileStats>) -> (r: Vec<ExtensionEntry>)
    requires
        all_wf(files@),
        sum_all(files@, Measure::Lines) <= usize::MAX,
    ensures
        summarizes(r@, files@),
{
    let n = files.len();
    let mut entries: Vec<ExtensionEntry> = Vec::new();
    let mut i: usize = 0;
    proof {
        lemma_code_le_lines(files@);
    }
    while i < n
        invariant
            n == files.len(),
            i <= n,
            sum_all(files@, Measure::Code) <= sum_all(files@, Measure::Lines),
            sum_all(files@, Measure::Lines) <= usize::MAX,
            summarizes(entries@, files@.take(i as int)),
        decreases n - i,
    {
        let f = &files[i];
        let ghost pre = files@.take(i as int);
        let ghost post = files@.take(i + 1);
        proof {
            assert(post.drop_last() =~= pre);
            assert(post.last() == files@[i as int]);
            lemma_sum_prefix_le(files@, i + 1, Measure::Lines);
            lemma_sum_prefix_le(files@, i + 1, Measure::Code);
            lemma_ext_sum_le(post, f.extension@, Measure::Lines);
            lemma_ext_sum_le(post, f.extension@, Measure::Code);
            lemma_ext_sum_le(post, f.extension@, Measure::Files);
            lemma_sum_files_len(post);
            assert forall|k: int| 0 <= k < entries@.len() && (#[trigger] entries@[k]).extension@ != f.extension@
                implies entry_sums(entries@[k], post) by {}
        }
        match find_entry(&entries, f.extension.as_str()) {
            Some(k) => {
                let old_entry = &entries[k];
                let s = ExtensionSummary {
                    file_count: old_entry.summary.file_count + 1,
                    total_lines: old_entry.summary.total_lines + f.total_lines,
                    code_lines: old_entry.summary.code_lines + f.code_lines,
                };
                let en = ExtensionEntry { extension: old_entry.extension.clone(), summary: s };
                let ghost before = entries@;
                entries.set(k, en);
                proof {
                    assert forall|j: int| 0 <= j < post.len() implies has_entry(
                        entries@,
                        (#[trigger] post[j]).extension@,
                    ) by {
                        if j < pre.len() {
                            assert(pre[j] == post[j]);
                            let w = choose|w: int| 0 <= w < before.len() && (#[trigger] before[w]).extension@ == pre[j].extension@;
                            assert(entries@[w].extension@ == pre[j].extension@);
                        } else {
                            assert(entries@[k as int].extension@ == post[j].extension@);
                        }
                    }
                }
            },
            None => {
                let s = ExtensionSummary {
                    file_count: 1,
                    total_lines: f.total_lines,
                    code_lines: f.code_lines,
                };
                let en = ExtensionEntry { extension: f.extension.clone(), summary: s };
                let ghost before = entries@;
                proof {
                    assert forall|j: int| 0 <= j < pre.len() implies (#[trigger] pre[j]).extension@
                        != f.extension@ by {
                        if pre[j].extension@ == f.extension@ {
                            assert(has_entry(before, pre[j].extension@));
                        }
                    }
                    lemma_ext_sum_absent(pre, f.extension@, Measure::Files);
                    lemma_ext_sum_absent(pre, f.extension@, Measure::Lines);
                    lemma_ext_sum_absent(pre, f.extension@, Measure::Code);
                }
                entries.push(en);
                proof {
                    assert forall|j: int| 0 <= j < post.len() implies has_entry(
                        entries@,
                        (#[trigger] post[j]).extension@,
                    ) by {
                        if j < pre.len() {
                            assert(pre[j] == post[j]);
                            let w = choose|w: int| 0 <= w < before.len() && (#[trigger] before[w]).extension@ == pre[j].extension@;
                            assert(entries@[w] == before[w]);
                        } else {
                            assert(entries@[before.len() as int].extension@ == post[j].extension@);
                        }
                    }
                }
            },
        }
        i = i + 1;
    }
    assert(files@.take(n as int) =~= files@);
    entries
}

/// There are as many files as `Files` counts.
pub proof fn lemma_sum_files_len(files: Seq<FileStats>)
    ensures
        sum_all(files, Measure::Files) == files.len(),
    decreases files.len(),
{
    if files.len() > 0 {
        lemma_sum_files_len(files.drop_last());
    }
}

/// The entries are in descending order of code lines.
pub open spec fn sorted_by_code_desc(s: Seq<ExtensionEntry>) -> bool {
    forall|a: int, b: int|
        0 <= a < b < s.len() ==> (#[trigger] s[a]).summary.code_lines >= (
        #[trigger] s[b]).summary.code_lines
}

fn copy_entry(e: &ExtensionEntry) -> (r: ExtensionEntry)
    ensures
        r == *e,
{
    ExtensionEntry { extension: e.extension.clone(), summary: e.summary }
}

/// The entries in descending order of code lines; entries with equal code
/// lines keep their order.
pub fn sort_by_code_desc(entries: &Vec<ExtensionEntry>) -> (r: Vec<ExtensionEntry>)
    ensures
        r@.to_multiset() == entries@.to_multiset(),
        sorted_by_code_desc(r@),
{
    broadcast use vstd::seq_lib::group_to_multiset_ensures;

    let n = entries.len();
    let mut out: Vec<ExtensionEntry> = Vec::new();
    let mut i: usize = 0;
    assert(entries@.take(0) =~= Seq::<ExtensionEntry>::empty());
    while i < n
        invariant
            n == entries.len(),
            i <= n,
            out@.to_multiset() == entries@.take(i as int).to_multiset(),
            sorted_by_code_desc(out@),
        decreases n - i,
    {
        let x = copy_entry(&entries[i]);
        let code = x.summary.code_lines;
        let mut pos: usize = 0;
        while pos < out.len() && out[pos].summary.code_lines >= code
            invariant
                pos <= out.len(),
                forall|j: int| 0 <= j < pos ==> (#[trigger] out@[j]).summary.code_lines >= code,
            decreases out.len() - pos,
        {
            pos = pos + 1;
        }
        let ghost before = out@;
        out.insert(pos, x);
        proof {
            assert(entries@.take(i + 1) =~= entries@.take(i as int).push(entries@[i as int]));
            assert(out@ == before.insert(pos as int, entries@[i as int]));
            vstd::seq_lib::to_multiset_insert(before, pos as int, entries@[i as int]);
            vstd::seq_lib::to_multiset_build(entries@.take(i as int), entries@[i as int]);
            assert forall|a: int, b: int| 0 <= a < b < out@.len() implies (
            #[trigger] out@[a]).summary.code_lines >= (#[trigger] out@[b]).summary.code_lines by {
                if a < pos {
                    assert(out@[a] == before[a]);
                    if b < pos {
                        assert(out@[b] == before[b]);
                    } else if b > pos {
                        assert(out@[b] == before[b - 1]);
                    }
                } else if a == pos {
                    assert(out@[b] == before[b - 1]);
                    if pos < before.len() {
                        assert(before[pos as int].summary.code_lines < code);
                        if b - 1 > pos {
                            assert(before[pos as int].summary.code_lines >= before[b - 1].summary.code_lines);
                        }
                    }
                } else {
                    assert(out@[a] == before[a - 1]);
                    assert(out@[b] == before[b - 1]);
                }
            }
        }
        i = i + 1;
    }
    assert(entries@.take(n as int) =~= entries@);
    out
}

/// Summaries stay summaries when put in another order.
pub proof fn lemma_summarizes_permuted(
    a: Seq<ExtensionEntry>,
    b: Seq<ExtensionEntry>,
    files: Seq<FileStats>,
)
    requires
        summarizes(a, files),
        a.to_multiset() == b.to_multiset(),
    ensures
        summarizes(b, files),
{
    broadcast use vstd::seq_lib::group_to_multiset_ensures;

    assert forall|k: int| 0 <= k < b.len() implies exists|p: int|
        0 <= p < a.len() && a[p] == #[trigger] b[k] by {
        assert(b.to_multiset().count(b[k]) > 0);
        assert(a.to_multiset().count(b[k]) > 0);
        assert(a.contains(b[k]));
    }
    assert forall|k: int| 0 <= k < b.len() implies entry_sums(#[trigger] b[k], files) && b[k].summary.file_count >= 1 by {
        let p = choose|p: int| 0 <= p < a.len() && a[p] == b[k];
        assert(entry_sums(a[p], files));
        assert(a[p].summary.file_count >= 1);
    }
    assert forall|j: int| 0 <= j < files.len() implies has_entry(b, (#[trigger] files[j]).extension@) by {
        assert(has_entry(a, files[j].extension@));
        let p = choose|p: int| 0 <= p < a.len() && (#[trigger] a[p]).extension@ == files[j].extension@;
        assert(a.to_multiset().count(a[p]) > 0);
        assert(b.to_multiset().count(a[p]) > 0);
        assert(b.contains(a[p]));
        let k = choose|k: int| 0 <= k < b.len() && b[k] == a[p];
        assert(b[k].extension@ == files[j].extension@);
    }
    assert(a.no_duplicates()) by {
        assert forall|x: int, y: int| 0 <= x < a.len() && 0 <= y < a.len() && x != y implies a[x] != a[y] by {
            assert(a[x].extension@ != a[y].extension@);
        }
    }
    a.lemma_multiset_has_no_duplicates();
    b.lemma_multiset_has_no_duplicates_conv();
    assert forall|x: int, y: int|
        0 <= x < b.len() && 0 <= y < b.len() && x != y implies (#[trigger] b[x]).extension@ != (
        #[trigger] b[y]).extension@ by {
        let p = choose|p: int| 0 <= p < a.len() && a[p] == b[x];
        let q = choose|q: int| 0 <= q < a.len() && a[q] == b[y];
        if b[x].extension@ == b[y].extension@ {
            assert(p == q);
            assert(b[x] == b[y]);
        }
    }
}

/// How large a share of all code an extension holds.
#[derive(PartialEq, Eq, Structural, Clone, Copy, Debug)]
pub enum Dominance {
    Dominant,
    Major,
    Significant,
    Minor,
    Negligible,
}

/// The dominance of an extension that holds `pct` percent of all code.
pub open spec fn dominance_of(pct: nat) -> Dominance {
    if pct >= 60 {
        Dominance::Dominant
    } else if pct >= 30 {
        Dominance::Major
    } else if pct >= 10 {
        Dominance::Significant
    } else if pct >= 1 {
        Dominance::Minor
    } else {
        Dominance::Negligible
    }
}

impl Dominance {
    /// The label shown for this dominance, padded as the breakdown prints it.
    pub open spec fn label_of(self) -> Seq<char> {
        match self {
            Dominance::Dominant => "Dominant  "@,
            Dominance::Major => "Major     "@,
            Dominance::Significant => "Significant"@,
            Dominance::Minor => "Minor     "@,
            Dominance::Negligible => "Negligible"@,
        }
    }

    /// The label shown for this dominance.
    pub fn label(&self) -> (r: &'static str)
        ensures
            r@ == self.label_of(),
    {
        match self {
            Dominance::Dominant => "Dominant  ",
            Dominance::Major => "Major     ",
            Dominance::Significant => "Significant",
            Dominance::Minor => "Minor     ",
            Dominance::Negligible => "Negligible",
        }
    }
}

/// The dominance of an extension that holds `pct` percent of all code.
pub fn dominance(pct: usize) -> (r: Dominance)
    ensures
        r == dominance_of(pct as nat),
{
    if pct >= 60 {
        Dominance::Dominant
    } else if pct >= 30 {
        Dominance::Major
    } else if pct >= 10 {
        Dominance::Significant
    } else if pct >= 1 {
        Dominance::Minor
    } else {
        Dominance::Negligible
    }
}

/// The width of the share bar.
pub open spec fn bar_width() -> nat {
    18
}

/// The percentage of all code (rounded down) that `code` lines are; 0 where
/// there is no code at all.
pub open spec fn percent_of(code: nat, total: nat) -> nat {
    if total > 0 {
        code * 100 / total
    } else {
        0
    }
}

/// The length of the share bar of `code` lines out of `total`: the share of
/// the bar's width, rounded down, but at least 1 where `code` is not 0; 0
/// where there is no code at all.
pub open spec fn bar_len_of(code: nat, total: nat) -> nat {
    if total > 0 {
        let b = code * bar_width() / total;
        if b == 0 && code > 0 {
            1
        } else {
            b
        }
    } else {
        0
    }
}

/// One row of the lines breakdown.
#[derive(Debug)]
pub struct LinesRow {
    pub extension: String,
    pub language: &'static str,
    pub file_count: usize,
    pub code_lines: usize,
    pub total_lines: usize,
    pub pct: usize,
    pub bar_len: usize,
    pub empty_len: usize,
    pub dominance: Dominance,
}

/// The row shows the entry `en` against `total_code` lines of code in all.
pub open spec fn row_of(row: LinesRow, en: ExtensionEntry, total_code: nat) -> bool {
    let code = en.summary.code_lines as nat;
    &&& row.extension@ == en.extension@
    &&& row.language@ == language_of(en.extension@)
    &&& row.file_count == en.summary.file_count
    &&& row.code_lines == en.summary.code_lines
    &&& row.total_lines == en.summary.total_lines
    &&& row.pct == percent_of(code, total_code)
    &&& row.bar_len == bar_len_of(code, total_code)
    &&& row.empty_len == if row.bar_len <= bar_width() {
        bar_width() - row.bar_len
    } else {
        0
    }
    &&& row.dominance == dominance_of(row.pct as nat)
}

/// The breakdown row of one extension, against `total_code` lines of code in all.
pub fn lines_row(en: &ExtensionEntry, total_code: usize) -> (r: LinesRow)
    requires
        en.summary.code_lines * 100 <= usize::MAX,
    ensures
        row_of(r, *en, total_code as nat),
{
    let code = en.summary.code_lines;
    let pct = if total_code > 0 {
        code * 100 / total_code
    } else {
        0
    };
    let bar_len = if total_code > 0 {
        let b = code * 18 / total_code;
        if b == 0 && code > 0 {
            1
        } else {
            b
        }
    } else {
        0
    };
    let empty_len = if bar_len <= 18 {
        18 - bar_len
    } else {
        0
    };
    LinesRow {
        extension: en.extension.clone(),
        language: ext_to_language(en.extension.as_str()),
        file_count: en.summary.file_count,
        code_lines: code,
        total_lines: en.summary.total_lines,
        pct,
        bar_len,
        empty_len,
        dominance: dominance(pct),
    }
}

/// The lines breakdown: one row per extension, most code first, and the totals.
#[derive(Debug)]
pub struct LinesReport {
    pub rows: Vec<LinesRow>,
    pub total_files: usize,
    pub total_code: usize,
    pub total_lines: usize,
}

/// What the breakdown may add up without passing `usize::MAX`: all lines,
/// and a hundred times the code lines of each extension.
pub open spec fn breakdown_fits(files: Seq<FileStats>) -> bool {
    &&& sum_all(files, Measure::Lines) <= usize::MAX
    &&& forall|e: Seq<char>| #[trigger] ext_sum(files, e, Measure::Code) * 100 <= usize::MAX
}

/// The sum of a quantity over `files`.
pub fn total_of(files: &Vec<FileStats>, m: Measure) -> (r: usize)
    requires
        sum_all(files@, m) <= usize::MAX,
    ensures
        r == sum_all(files@, m),
{
    let n = files.len();
    let mut t: usize = 0;
    let mut i: usize = 0;
    while i < n
        invariant
            n == files.len(),
            i <= n,
            t == sum_all(files@.take(i as int), m),
            sum_all(files@, m) <= usize::MAX,
        decreases n - i,
    {
        proof {
            assert(files@.take(i + 1).drop_last() =~= files@.take(i as int));
            lemma_sum_prefix_le(files@, i + 1, m);
        }
        let f = &files[i];
        let x = match m {
            Measure::Files => 1,
            Measure::Lines => f.total_lines,
            Measure::Code => f.code_lines,
            Measure::Blank => f.blank_lines,
            Measure::Comment => f.comment_lines,
        };
        t = t + x;
        i = i + 1;
    }
    assert(files@.take(n as int) =~= files@);
    t
}

/// The lines breakdown of `files`.
pub fn lines_breakdown(files: &Vec<FileStats>) -> (r: LinesReport)
    requires
        all_wf(files@),
        breakdown_fits(files@),
    ensures
        r.total_files == files.len(),
        r.total_code == sum_all(files@, Measure::Code),
        r.total_lines == sum_all(files@, Measure::Lines),
        exists|entries: Seq<ExtensionEntry>|
            {
                &&& summarizes(entries, files@)
                &&& sorted_by_code_desc(entries)
                &&& entries.len() == r.rows.len()
                &&& forall|k: int|
                    0 <= k < entries.len() ==> row_of(
                        #[trigger] r.rows@[k],
                        entries[k],
                        r.total_code as nat,
                    )
            },
        forall|k: int|
            0 <= k < r.rows.len() ==> {
                &&& (#[trigger] r.rows@[k]).code_lines <= r.total_code
                &&& r.rows@[k].pct <= 100
                &&& r.rows@[k].bar_len <= bar_width()
                &&& r.rows@[k].bar_len + r.rows@[k].empty_len == bar_width()
            },
        forall|a: int, b: int|
            0 <= a < b < r.rows.len() ==> (#[trigger] r.rows@[a]).code_lines >= (
            #[trigger] r.rows@[b]).code_lines,
        forall|k: int|
            0 <= k < r.rows.len() ==> ((#[trigger] r.rows@[k]).bar_len == 0 <==> r.rows@[k].code_lines
                == 0),
        rows_sum(r.rows@, Measure::Files) == r.total_files,
        rows_sum(r.rows@, Measure::Lines) == r.total_lines,
        rows_sum(r.rows@, Measure::Code) == r.total_code,
        rows_pct_sum(r.rows@) <= 100,
{
    let entries = summarize_by_extension(files);
    let sorted = sort_by_code_desc(&entries);
    proof {
        lemma_summarizes_permuted(entries@, sorted@, files@);
        lemma_code_le_lines(files@);
        lemma_sum_files_len(files@);
    }
    let total_files = files.len();
    let total_code = total_of(files, Measure::Code);
    let total_lines = total_of(files, Measure::Lines);
    let mut rows: Vec<LinesRow> = Vec::new();
    let n = sorted.len();
    let mut k: usize = 0;
    while k < n
        invariant
            n == sorted.len(),
            k <= n,
            rows.len() == k,
            summarizes(sorted@, files@),
            breakdown_fits(files@),
            total_code == sum_all(files@, Measure::Code),
            forall|j: int| 0 <= j < k ==> row_of(#[trigger] rows@[j], sorted@[j], total_code as nat),
            forall|j: int|
                0 <= j < k ==> {
                    &&& (#[trigger] rows@[j]).code_lines <= total_code
                    &&& rows@[j].pct <= 100
                    &&& rows@[j].bar_len <= bar_width()
                    &&& rows@[j].bar_len + rows@[j].empty_len == bar_width()
                },
        decreases n - k,
    {
        let en = &sorted[k];
        proof {
            assert(entry_sums(sorted@[k as int], files@));
            assert(ext_sum(files@, en.extension@, Measure::Code) * 100 <= usize::MAX);
            lemma_ext_sum_le(files@, en.extension@, Measure::Code);
            lemma_percent_at_most_100(en.summary.code_lines as nat, total_code as nat);
            lemma_bar_len_bounds(en.summary.code_lines as nat, total_code as nat);
        }
        let row = lines_row(en, total_code);
        rows.push(row);
        k = k + 1;
    }
    proof {
        assert forall|a: int, b: int| 0 <= a < b < rows@.len() implies (#[trigger] rows@[a]).code_lines
            >= (#[trigger] rows@[b]).code_lines by {
            assert(row_of(rows@[a], sorted@[a], total_code as nat));
            assert(row_of(rows@[b], sorted@[b], total_code as nat));
        }
        assert forall|k: int| 0 <= k < rows@.len() implies ((#[trigger] rows@[k]).bar_len == 0
            <==> rows@[k].code_lines == 0) by {
            assert(row_of(rows@[k], sorted@[k], total_code as nat));
            lemma_bar_len_bounds(rows@[k].code_lines as nat, total_code as nat);
            if total_code == 0 {
                assert(rows@[k].code_lines == 0);
            }
        }
        let exts = row_exts(rows@);
        assert(exts.no_duplicates()) by {
            assert forall|a: int, b: int| 0 <= a < exts.len() && 0 <= b < exts.len() && a != b implies exts[a]
                != exts[b] by {
                assert(exts[a] == sorted@[a].extension@);
                assert(exts[b] == sorted@[b].extension@);
                assert(sorted@[a].extension@ != sorted@[b].extension@);
            }
        }
        assert forall|j: int| 0 <= j < files@.len() implies exts.contains(#[trigger] files@[j].extension@) by {
            assert(has_entry(sorted@, files@[j].extension@));
            let w = choose|w: int| 0 <= w < sorted@.len() && (#[trigger] sorted@[w]).extension@ == files@[j].extension@;
            assert(exts[w] == files@[j].extension@);
        }
        assert forall|m: Measure| m == Measure::Files || m == Measure::Lines || m == Measure::Code implies
            rows_sum(rows@, m) == sum_all(files@, m) by {
            assert forall|k: int| 0 <= k < rows@.len() implies row_measure(#[trigger] rows@[k], m) == ext_sum(
                files@,
                rows@[k].extension@,
                m,
            ) by {
                assert(row_of(rows@[k], sorted@[k], total_code as nat));
                assert(entry_sums(sorted@[k], files@));
            }
            lemma_rows_sum_ext(rows@, files@, m);
            lemma_ext_sums_total(exts, files@, m);
        }
        assert(rows_sum(rows@, Measure::Files) == sum_all(files@, Measure::Files));
        assert(rows_sum(rows@, Measure::Lines) == sum_all(files@, Measure::Lines));
        assert(rows_sum(rows@, Measure::Code) == sum_all(files@, Measure::Code));
        lemma_rows_pct_sum(rows@, total_code as nat);
        if total_code > 0 {
            assert(total_code as nat * 100 / total_code as nat == 100) by (nonlinear_arith)
                requires
                    total_code > 0,
            ;
        }
    }
    LinesReport { rows, total_files, total_code, total_lines }
}

/// One labelled figure of the project overview.
#[derive(Debug)]
pub struct OverviewRow {
    pub label: &'static str,
    pub value: String,
}

/// The figures of the project overview, label and value: the number of
/// directories and of files, the line totals with thousands separators, and,
/// where there are any lines, the percentage of them that are code.
pub open spec fn overview_of(dir_count: nat, files: Seq<FileStats>) -> Seq<(Seq<char>, Seq<char>)> {
    let lines = sum_all(files, Measure::Lines);
    let code = sum_all(files, Measure::Code);
    let rows = seq![
        ("Directories"@, decimal_of(dir_count)),
        ("Total Files"@, decimal_of(files.len())),
        ("Total Lines"@, group_thousands(decimal_of(lines))),
        ("Code Lines"@, group_thousands(decimal_of(code))),
        ("Comment Lines"@, group_thousands(decimal_of(sum_all(files, Measure::Comment)))),
        ("Blank Lines"@, group_thousands(decimal_of(sum_all(files, Measure::Blank)))),
    ];
    if lines > 0 {
        rows.push(("Code Ratio"@, decimal_of(percent_of(code, lines)).push('%')))
    } else {
        rows
    }
}

/// The label and value of each row.
pub open spec fn overview_view(rows: Seq<OverviewRow>) -> Seq<(Seq<char>, Seq<char>)> {
    rows.map_values(|r: OverviewRow| (r.label@, r.value@))
}

/// The project overview of `files`, found in `dir_count` directories.
pub fn project_overview(dir_count: usize, files: &Vec<FileStats>) -> (r: Vec<OverviewRow>)
    requires
        all_wf(files@),
        sum_all(files@, Measure::Lines) <= usize::MAX,
        sum_all(files@, Measure::Code) * 100 <= usize::MAX,
    ensures
        overview_view(r@) == overview_of(dir_count as nat, files@),
{
    proof {
        lemma_code_le_lines(files@);
    }
    let total_lines = total_of(files, Measure::Lines);
    let total_code = total_of(files, Measure::Code);
    let total_blank = total_of(files, Measure::Blank);
    let total_comment = total_of(files, Measure::Comment);
    let mut rows: Vec<OverviewRow> = Vec::new();
    rows.push(OverviewRow { label: "Directories", value: decimal(dir_count) });
    rows.push(OverviewRow { label: "Total Files", value: decimal(files.len()) });
    rows.push(OverviewRow { label: "Total Lines", value: format_number(total_lines) });
    rows.push(OverviewRow { label: "Code Lines", value: format_number(total_code) });
    rows.push(OverviewRow { label: "Comment Lines", value: format_number(total_comment) });
    rows.push(OverviewRow { label: "Blank Lines", value: format_number(total_blank) });
    if total_lines > 0 {
        let pct = total_code * 100 / total_lines;
        let mut v = decimal_chars(pct);
        v.push('%');
        rows.push(OverviewRow { label: "Code Ratio", value: string_from_chars(v.as_slice()) });
    }
    assert(overview_view(rows@) =~= overview_of(dir_count as nat, files@));
    rows
}

/// A part is at most 100 percent of a whole that holds it.
pub proof fn lemma_percent_at_most_100(part: nat, whole: nat)
    requires
        part <= whole,
    ensures
        percent_of(part, whole) <= 100,
{
    if whole > 0 {
        assert(part * 100 / whole <= 100) by (nonlinear_arith)
            requires
                part <= whole,
                whole > 0,
        {
            assert(part * 100 <= whole * 100);
        }
    }
}

/// The share bar of a part of a whole that holds it fits the bar's width, and
/// is empty only where the part is.
pub proof fn lemma_bar_len_bounds(part: nat, whole: nat)
    requires
        part <= whole,
    ensures
        bar_len_of(part, whole) <= bar_width(),
        whole > 0 ==> (bar_len_of(part, whole) == 0 <==> part == 0),
{
    if whole > 0 {
        assert(part * 18 / whole <= 18) by (nonlinear_arith)
            requires
                part <= whole,
                whole > 0,
        {
            assert(part * 18 <= whole * 18);
        }
        if part == 0 {
            assert(0nat * 18 / whole == 0) by (nonlinear_arith)
                requires
                    whole > 0,
            ;
        }
    }
}

/// The code ratio of the overview is at most 100 percent.
pub proof fn lemma_code_ratio_at_most_100(files: Seq<FileStats>)
    requires
        all_wf(files),
    ensures
        percent_of(sum_all(files, Measure::Code), sum_all(files, Measure::Lines)) <= 100,
{
    lemma_code_le_lines(files);
    lemma_percent_at_most_100(sum_all(files, Measure::Code), sum_all(files, Measure::Lines));
}

/// The quantity `m` summed, for each extension of `exts`, over the files of
/// that extension.
pub open spec fn ext_sums_over(exts: Seq<Seq<char>>, files: Seq<FileStats>, m: Measure) -> nat
    decreases exts.len(),
{
    if exts.len() == 0 {
        0
    } else {
        ext_sums_over(exts.drop_last(), files, m) + ext_sum(files, exts.last(), m)
    }
}

proof fn lemma_ext_sums_over_empty(exts: Seq<Seq<char>>, m: Measure)
    ensures
        ext_sums_over(exts, Seq::<FileStats>::empty(), m) == 0,
    decreases exts.len(),
{
    if exts.len() > 0 {
        lemma_ext_sums_over_empty(exts.drop_last(), m);
    }
}

proof fn lemma_ext_sums_over_push(exts: Seq<Seq<char>>, files: Seq<FileStats>, f: FileStats, m: Measure)
    requires
        exts.no_duplicates(),
    ensures
        ext_sums_over(exts, files.push(f), m) == ext_sums_over(exts, files, m) + if exts.contains(
            f.extension@,
        ) {
            measure(f, m)
        } else {
            0
        },
    decreases exts.len(),
{
    if exts.len() > 0 {
        let d = exts.drop_last();
        assert(d.no_duplicates()) by {
            assert forall|a: int, b: int| 0 <= a < d.len() && 0 <= b < d.len() && a != b implies d[a]
                != d[b] by {
                assert(d[a] == exts[a] && d[b] == exts[b]);
            }
        }
        lemma_ext_sums_over_push(d, files, f, m);
        assert(files.push(f).drop_last() =~= files);
        if exts.last() == f.extension@ {
            assert(exts.contains(f.extension@)) by {
                assert(exts[exts.len() - 1] == f.extension@);
            }
            if d.contains(f.extension@) {
                let j = choose|j: int| 0 <= j < d.len() && d[j] == f.extension@;
                assert(exts[j] == exts[exts.len() - 1]);
            }
        } else {
            if exts.contains(f.extension@) {
                let j = choose|j: int| 0 <= j < exts.len() && exts[j] == f.extension@;
                assert(d[j] == f.extension@);
            }
            if d.contains(f.extension@) {
                let j = choose|j: int| 0 <= j < d.len() && d[j] == f.extension@;
                assert(exts[j] == f.extension@);
            }
        }
    }
}

/// Summed over a list of distinct extensions that covers every file, the
/// per-extension totals add up to the total of all files.
pub proof fn lemma_ext_sums_total(exts: Seq<Seq<char>>, files: Seq<FileStats>, m: Measure)
    requires
        exts.no_duplicates(),
        forall|j: int| 0 <= j < files.len() ==> exts.contains(#[trigger] files[j].extension@),
    ensures
        ext_sums_over(exts, files, m) == sum_all(files, m),
    decreases files.len(),
{
    if files.len() == 0 {
        lemma_ext_sums_over_empty(exts, m);
        assert(files =~= Seq::<FileStats>::empty());
    } else {
        let d = files.drop_last();
        assert forall|j: int| 0 <= j < d.len() implies exts.contains(#[trigger] d[j].extension@) by {
            assert(d[j] == files[j]);
        }
        lemma_ext_sums_total(exts, d, m);
        assert(exts.contains(files[files.len() - 1].extension@));
        assert(d.push(files.last()) =~= files);
        lemma_ext_sums_over_push(exts, d, files.last(), m);
    }
}

/// How much of the quantity `m` a breakdown row shows.
pub open spec fn row_measure(row: LinesRow, m: Measure) -> nat {
    match m {
        Measure::Files => row.file_count as nat,
        Measure::Lines => row.total_lines as nat,
        Measure::Code => row.code_lines as nat,
        _ => 0,
    }
}

/// The quantity `m` summed over the rows.
pub open spec fn rows_sum(rows: Seq<LinesRow>, m: Measure) -> nat
    decreases rows.len(),
{
    if rows.len() == 0 {
        0
    } else {
        rows_sum(rows.drop_last(), m) + row_measure(rows.last(), m)
    }
}

/// The shares of the rows, summed.
pub open spec fn rows_pct_sum(rows: Seq<LinesRow>) -> nat
    decreases rows.len(),
{
    if rows.len() == 0 {
        0
    } else {
        rows_pct_sum(rows.drop_last()) + rows.last().pct as nat
    }
}

/// The extension of each row.
pub open spec fn row_exts(rows: Seq<LinesRow>) -> Seq<Seq<char>> {
    rows.map_values(|r: LinesRow| r.extension@)
}

proof fn lemma_rows_sum_ext(rows: Seq<LinesRow>, files: Seq<FileStats>, m: Measure)
    requires
        m == Measure::Files || m == Measure::Lines || m == Measure::Code,
        forall|k: int|
            0 <= k < rows.len() ==> row_measure(#[trigger] rows[k], m) == ext_sum(
                files,
                rows[k].extension@,
                m,
            ),
    ensures
        rows_sum(rows, m) == ext_sums_over(row_exts(rows), files, m),
    decreases rows.len(),
{
    if rows.len() > 0 {
        let d = rows.drop_last();
        assert forall|k: int| 0 <= k < d.len() implies row_measure(#[trigger] d[k], m) == ext_sum(
            files,
            d[k].extension@,
            m,
        ) by {
            assert(d[k] == rows[k]);
        }
        lemma_rows_sum_ext(d, files, m);
        assert(row_exts(rows).drop_last() =~= row_exts(d));
        assert(rows.last() == rows[rows.len() - 1]);
    }
}

proof fn lemma_div_sum(a: nat, b: nat, t: nat)
    requires
        t > 0,
    ensures
        a / t + b / t <= (a + b) / t,
{
    assert(a / t + b / t <= (a + b) / t) by (nonlinear_arith)
        requires
            t > 0,
    {
        let qa = a / t;
        let qb = b / t;
        assert(qa * t <= a);
        assert(qb * t <= b);
        assert((qa + qb) * t <= a + b);
        assert((a + b) / t * t + (a + b) % t == a + b);
        assert((a + b) % t < t);
    }
}

proof fn lemma_rows_pct_sum(rows: Seq<LinesRow>, t: nat)
    requires
        forall|k: int| 0 <= k < rows.len() ==> (#[trigger] rows[k]).pct == percent_of(
            rows[k].code_lines as nat,
            t,
        ),
    ensures
        t > 0 ==> rows_pct_sum(rows) <= rows_sum(rows, Measure::Code) * 100 / t,
        t == 0 ==> rows_pct_sum(rows) == 0,
    decreases rows.len(),
{
    if rows.len() > 0 {
        let d = rows.drop_last();
        assert forall|k: int| 0 <= k < d.len() implies (#[trigger] d[k]).pct == percent_of(
            d[k].code_lines as nat,
            t,
        ) by {
            assert(d[k] == rows[k]);
        }
        lemma_rows_pct_sum(d, t);
        let l = rows[rows.len() - 1];
        assert(rows.last() == l);
        if t > 0 {
            let a = rows_sum(d, Measure::Code) * 100;
            let b = l.code_lines as nat * 100;
            lemma_div_sum(a, b, t);
            assert(rows_sum(rows, Measure::Code) * 100 == a + b) by (nonlinear_arith)
                requires
                    rows_sum(rows, Measure::Code) == rows_sum(d, Measure::Code) + l.code_lines,
                    a == rows_sum(d, Measure::Code) * 100,
                    b == l.code_lines * 100,
            ;
        }
    }
}

/// The dots that follow a bar of `bar` characters, as `saturating_sub` gives them.
pub open spec fn empty_len_of(bar: nat) -> nat {
    if bar <= bar_width() {
        (bar_width() - bar) as nat
    } else {
        0
    }
}

/// For any part of any whole, on unbounded numbers: the share is at most 100
/// percent, the bar fits its 18 columns and with its dots fills them exactly,
/// and where there is any code at all the bar is empty exactly when the part is.
pub proof fn lemma_share_and_bar(part: nat, whole: nat)
    requires
        part <= whole,
    ensures
        percent_of(part, whole) <= 100,
        bar_len_of(part, whole) <= bar_width(),
        bar_len_of(part, whole) + empty_len_of(bar_len_of(part, whole)) == bar_width(),
        whole > 0 ==> (bar_len_of(part, whole) >= 1 <==> part > 0),
        whole == 0 ==> bar_len_of(part, whole) == 0 && percent_of(part, whole) == 0,
{
    lemma_percent_at_most_100(part, whole);
    lemma_bar_len_bounds(part, whole);
}

/// The dominance bands: 60 percent and over is dominant, 30 to 59 major,
/// 10 to 29 significant, 1 to 9 minor, and 0 negligible; the labels are the
/// names padded to ten characters ("Significant" has eleven).
pub proof fn lemma_dominance_bands(pct: nat)
    ensures
        pct >= 60 ==> dominance_of(pct) == Dominance::Dominant,
        30 <= pct < 60 ==> dominance_of(pct) == Dominance::Major,
        10 <= pct < 30 ==> dominance_of(pct) == Dominance::Significant,
        1 <= pct < 10 ==> dominance_of(pct) == Dominance::Minor,
        pct == 0 ==> dominance_of(pct) == Dominance::Negligible,
        Dominance::Dominant.label_of() == "Dominant  "@,
        Dominance::Major.label_of() == "Major     "@,
        Dominance::Significant.label_of() == "Significant"@,
        Dominance::Minor.label_of() == "Minor     "@,
        Dominance::Negligible.label_of() == "Negligible"@,
{
}

/// The share is the percentage rounded down: `pct * total <= code * 100 <
/// (pct + 1) * total` where there is any code, and 0 otherwise.
pub proof fn lemma_percent_rounds_down(code: nat, total: nat)
    ensures
        total > 0 ==> percent_of(code, total) * total <= code * 100 < (percent_of(code, total) + 1)
            * total,
        total == 0 ==> percent_of(code, total) == 0,
{
    if total > 0 {
        let p = percent_of(code, total);
        assert(p * total <= code * 100 < (p + 1) * total) by (nonlinear_arith)
            requires
                total > 0,
                p == code * 100 / total,
        {
            assert((code * 100) / total * total + (code * 100) % total == code * 100);
        }
    }
}

/// The bar is the share of 18 columns rounded down, but one column for any
/// code that would round down to none: where there is any code at all, either
/// `bar * total <= code * 18 < (bar + 1) * total`, or the bar is 1 for a part
/// too small to fill a column; without code the bar is empty.
pub proof fn lemma_bar_rounds_down(code: nat, total: nat)
    ensures
        total > 0 && code * 18 >= total ==> bar_len_of(code, total) * total <= code * 18 < (bar_len_of(
            code,
            total,
        ) + 1) * total,
        total > 0 && 0 < code && code * 18 < total ==> bar_len_of(code, total) == 1,
        code == 0 || total == 0 ==> bar_len_of(code, total) == 0,
        bar_width() == 18,
{
    if total > 0 {
        let b = code * 18 / total;
        assert(b * total <= code * 18 < (b + 1) * total) by (nonlinear_arith)
            requires
                total > 0,
                b == code * 18 / total,
        {
            assert((code * 18) / total * total + (code * 18) % total == code * 18);
        }
        if code * 18 >= total {
            assert(b >= 1) by (nonlinear_arith)
                requires
                    total > 0,
                    code * 18 >= total,
                    b * total <= code * 18 < (b + 1) * total,
            ;
        }
        if code * 18 < total {
            assert(b == 0) by (nonlinear_arith)
                requires
                    total > 0,
                    code * 18 < total,
                    b * total <= code * 18,
                    b >= 0,
            ;
        }
        if code == 0 {
            assert(b == 0) by (nonlinear_arith)
                requires
                    total > 0,
                    code == 0,
                    b == code * 18 / total,
            ;
        }
    }
}

} // verus!
