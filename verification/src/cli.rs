//! The command line's options as plain values; the program parses the
//! arguments into these.
use vstd::prelude::*;

verus! {

/// Move Clippy's options: a subcommand, or the lint options of the default command.
#[derive(Debug)]
pub struct Args {
    pub command: Option<Command>,
    pub lint: LintArgs,
}

/// A subcommand.
#[derive(Debug)]
pub enum Command {
    /// Lint files or directories.
    Lint(LintArgs),
    /// List available lints.
    ListRules,
    /// Explain a lint.
    Explain { rule: String },
    /// Track, categorize and report lint findings.
    Triage(TriageCommand),
}

/// The `triage` subcommand: an action on the triage database at `database`.
#[derive(Debug, Clone)]
pub struct TriageCommand {
    pub action: TriageAction,
    pub database: String,
}

/// What `triage` does.
#[derive(Debug, Clone)]
pub enum TriageAction {
    /// List findings, filtered.
    List {
        status: Option<String>,
        lint: Option<String>,
        repo: Option<String>,
        severity: Option<String>,
        category: Option<String>,
        limit: usize,
    },
    /// Show one finding.
    Show { id: String },
    /// Set a finding's status.
    Update { id: String, status: String, notes: Option<String> },
    /// Write a summary report.
    Report { format: String, group_by: Option<String>, output: Option<String> },
    /// Import findings from lint output.
    Import { input: String, repo: String },
    /// Show summary statistics.
    Summary,
    /// Show statistics grouped by a field.
    Stats { by: String, min_count: usize, sort: String },
}

/// Options of the `lint` command.
#[derive(Debug, Clone)]
pub struct LintArgs {
    /// Files or directories to lint; standard input when empty.
    pub paths: Vec<String>,
    pub mode: LintMode,
    /// The package root for full mode.
    pub package: Option<String>,
    /// An explicit configuration file.
    pub config: Option<String>,
    pub format: OutputFormat,
    /// Only run these lints.
    pub only: Vec<String>,
    /// Skip these lints.
    pub skip: Vec<String>,
    /// Exit with code 1 when any diagnostic is emitted.
    pub deny_warnings: bool,
    /// Enable preview rules.
    pub preview: bool,
    /// Apply safe fixes.
    pub fix: bool,
    /// Show the fixes as a diff without applying them.
    pub fix_dry_run: bool,
    /// Also apply unsafe fixes.
    pub unsafe_fixes: bool,
    /// Do not keep `.bak` copies of fixed files.
    pub no_backup: bool,
}

/// How much analysis to run.
#[derive(Debug, Clone, Copy, PartialEq, Eq, Structural)]
pub enum LintMode {
    Fast,
    Full,
}

/// How to print diagnostics.
#[derive(Debug, Clone, Copy, PartialEq, Eq, Structural)]
pub enum OutputFormat {
    Pretty,
    Json,
    Github,
}

/// The exit code of a lint run: 1 when warnings are denied and some
/// diagnostic was emitted, else 0.
pub fn lint_exit_code(deny_warnings: bool, total_diagnostics: usize) -> (r: u8)
    ensures
        r == (if deny_warnings && total_diagnostics > 0 { 1u8 } else { 0u8 }),
{
    if deny_warnings && total_diagnostics > 0 {
        1
    } else {
        0
    }
}

/// A message escaped for a GitHub workflow command: `%`, `\r` and `\n`
/// become `%25`, `%0D` and `%0A`, in that order.
pub fn github_escape(s: &str) -> (r: String)
    ensures
        r@ == crate::rules::style::replace_all(
            crate::rules::style::replace_all(crate::rules::style::replace_all(s@, "%"@, "%25"@), "\r"@, "%0D"@),
            "\n"@,
            "%0A"@,
        ),
{
    proof {
        reveal_strlit("%");
        reveal_strlit("\r");
        reveal_strlit("\n");
        assert("%"@.len() == 1);
        assert("\r"@.len() == 1);
        assert("\n"@.len() == 1);
    }
    let a = crate::rules::style::replace_str(s, "%", "%25");
    let b = crate::rules::style::replace_str(a.as_str(), "\r", "%0D");
    crate::rules::style::replace_str(b.as_str(), "\n", "%0A")
}

/// One diagnostic as the JSON output lists it.
#[derive(Debug, Clone)]
pub struct JsonDiagnostic {
    pub file: String,
    pub row: usize,
    pub column: usize,
    pub lint: String,
    pub message: String,
}

/// `a` comes strictly before `b` in the JSON output: by file, then row,
/// then column, then lint name.
pub open spec fn json_before(a: JsonDiagnostic, b: JsonDiagnostic) -> bool {
    ||| crate::order::lex_lt(a.file@, b.file@)
    ||| (a.file@ == b.file@ && a.row < b.row)
    ||| (a.file@ == b.file@ && a.row == b.row && a.column < b.column)
    ||| (a.file@ == b.file@ && a.row == b.row && a.column == b.column && crate::order::lex_lt(a.lint@, b.lint@))
}

/// `d` inserted into `s` after the last entry, counted from the end, that
/// does not come after `d`: one step of a stable sort.
pub open spec fn insert_json(s: Seq<JsonDiagnostic>, d: JsonDiagnostic) -> Seq<JsonDiagnostic>
    decreases s.len(),
{
    if s.len() == 0 {
        seq![d]
    } else if !json_before(d, s.last()) {
        s.push(d)
    } else {
        insert_json(s.drop_last(), d).push(s.last())
    }
}

/// `s` stably sorted for the JSON output.
pub open spec fn sort_json(s: Seq<JsonDiagnostic>) -> Seq<JsonDiagnostic>
    decreases s.len(),
{
    if s.len() == 0 {
        s
    } else {
        insert_json(sort_json(s.drop_last()), s.last())
    }
}

proof fn lemma_insert_json(s: Seq<JsonDiagnostic>, d: JsonDiagnostic, p: int)
    requires
        0 <= p <= s.len(),
        forall|j: int| p <= j < s.len() ==> json_before(d, #[trigger] s[j]),
    ensures
        insert_json(s, d) == insert_json(s.take(p), d) + s.skip(p),
    decreases s.len() - p,
{
    if p == s.len() {
        assert(s.take(p) =~= s);
        assert(s.skip(p) =~= Seq::<JsonDiagnostic>::empty());
        assert(insert_json(s, d) + Seq::<JsonDiagnostic>::empty() =~= insert_json(s, d));
    } else {
        let t = s.drop_last();
        assert forall|j: int| p <= j < t.len() implies json_before(d, #[trigger] t[j]) by {
            assert(t[j] == s[j]);
        }
        lemma_insert_json(t, d, p);
        assert(t.take(p) =~= s.take(p));
        assert(t.skip(p).push(s.last()) =~= s.skip(p));
        assert(insert_json(s, d) == insert_json(t, d).push(s.last()));
        assert((insert_json(t.take(p), d) + t.skip(p)).push(s.last()) =~= insert_json(t.take(p), d) + t.skip(
            p,
        ).push(s.last()));
    }
}

/// Whether `a` comes strictly before `b` in the JSON output.
fn json_lt(a: &JsonDiagnostic, b: &JsonDiagnostic) -> (r: bool)
    ensures
        r == json_before(*a, *b),
{
    if crate::order::str_lt(a.file.as_str(), b.file.as_str()) {
        return true;
    }
    if !crate::text::str_eq(a.file.as_str(), b.file.as_str()) {
        return false;
    }
    if a.row != b.row {
        return a.row < b.row;
    }
    if a.column != b.column {
        return a.column < b.column;
    }
    crate::order::str_lt(a.lint.as_str(), b.lint.as_str())
}

/// The JSON diagnostics stably sorted by file, row, column and lint.
pub fn sort_json_diagnostics(ds: Vec<JsonDiagnostic>) -> (r: Vec<JsonDiagnostic>)
    ensures
        r@ == sort_json(ds@),
{
    let mut r: Vec<JsonDiagnostic> = Vec::new();
    let mut rest = ds;
    let ghost all = rest@;
    assert(all.take(0) =~= Seq::<JsonDiagnostic>::empty());
    assert(all.skip(0) =~= all);
    let n = rest.len();
    let mut i: usize = 0;
    while i < n
        invariant
            i <= n,
            n == all.len(),
            rest@ == all.skip(i as int),
            r@ == sort_json(all.take(i as int)),
        decreases n - i,
    {
        let d = rest.remove(0);
        assert(d == all[i as int]);
        assert(rest@ =~= all.skip(i + 1));
        let mut p = r.len();
        while p > 0 && json_lt(&d, &r[p - 1])
            invariant
                p <= r@.len(),
                forall|j: int| p <= j < r@.len() ==> json_before(d, #[trigger] r@[j]),
            decreases p,
        {
            p = p - 1;
        }
        proof {
            lemma_insert_json(r@, d, p as int);
            let h = r@.take(p as int);
            if p > 0 {
                assert(h.last() == r@[p - 1]);
                assert(insert_json(h, d) == h.push(d));
            } else {
                assert(h =~= Seq::<JsonDiagnostic>::empty());
            }
            assert(h.push(d) + r@.skip(p as int) =~= r@.insert(p as int, d));
            assert(all.take(i + 1).drop_last() =~= all.take(i as int));
            assert(all.take(i + 1).last() == d);
        }
        r.insert(p, d);
        i = i + 1;
    }
    assert(all.take(n as int) =~= all);
    r
}

} // verus!
