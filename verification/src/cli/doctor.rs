//! The command that checks the setup.

use crate::text;
use crate::text::{concat2, counted_text, join_texts};
use vstd::prelude::*;

verus! {

/// The arguments of the command.
#[derive(Debug, PartialEq, Eq)]
pub struct Params {
    pub name: Option<String>,
    pub root: Option<String>,
    pub no_uses: bool,
    pub fix: bool,
}

/// How bad a finding is.
#[derive(Debug, Clone, Copy, PartialEq, Eq, Structural)]
pub enum Severity {
    Fine,
    Warning,
    Error,
}

/// One thing that was looked at.
#[derive(Debug, PartialEq, Eq)]
pub struct Finding {
    pub severity: Severity,
    pub text: String,
}

impl Finding {
    /// Whether the user has to do something.
    pub fn needs_attention(&self) -> (r: bool)
        ensures
            r == !(self.severity is Fine),
    {
        match self.severity {
            Severity::Fine => false,
            _ => true,
        }
    }
}

/// The findings up to `n` that are shown: all, or those that need the user.
pub open spec fn visible(findings: Seq<Finding>, verbose: bool, n: nat) -> Seq<Seq<char>>
    decreases n,
{
    if n == 0 {
        Seq::empty()
    } else {
        let before = visible(findings, verbose, (n - 1) as nat);
        if verbose || !(findings[n - 1].severity is Fine) {
            before.push(findings[n - 1].text@)
        } else {
            before
        }
    }
}

/// The lines of a section: its findings, or that there are none to show.
pub fn section_lines(findings: &Vec<Finding>, verbose: bool) -> (r: Vec<String>)
    ensures
        ({
            let v = visible(findings@, verbose, findings@.len());
            text::texts(r@) == if v.len() == 0 {
                seq!["No issues found"@]
            } else {
                v
            }
        }),
{
    let mut r: Vec<String> = Vec::new();
    let mut i: usize = 0;
    assert(text::texts(r@) =~= Seq::<Seq<char>>::empty());
    while i < findings.len()
        invariant
            i <= findings@.len(),
            text::texts(r@) == visible(findings@, verbose, i as nat),
        decreases findings@.len() - i,
    {
        let ghost before = r@;
        if verbose || findings[i].needs_attention() {
            r.push(findings[i].text.clone());
            assert(text::texts(r@) =~= text::texts(before).push(findings@[i as int].text@));
        }
        i = i + 1;
    }
    assert(text::texts(r@).len() == r@.len());
    if r.len() == 0 {
        r.push("No issues found".to_owned());
        assert(text::texts(r@) =~= seq!["No issues found"@]);
    }
    r
}

/// How many of the first `n` findings are this bad.
pub open spec fn count(findings: Seq<Finding>, severity: Severity, n: nat) -> nat
    decreases n,
{
    if n == 0 {
        0
    } else if findings[n - 1].severity == severity {
        count(findings, severity, (n - 1) as nat) + 1
    } else {
        count(findings, severity, (n - 1) as nat)
    }
}

/// How many findings are this bad.
pub fn count_findings(findings: &Vec<Finding>, severity: Severity) -> (r: usize)
    ensures
        r == count(findings@, severity, findings@.len()),
{
    let mut r: usize = 0;
    let mut i: usize = 0;
    while i < findings.len()
        invariant
            i <= findings@.len(),
            r <= i,
            r == count(findings@, severity, i as nat),
        decreases findings@.len() - i,
    {
        if findings[i].severity == severity {
            r = r + 1;
        }
        i = i + 1;
    }
    r
}

/// The counts that are not zero.
pub open spec fn summary_parts(errors: nat, warnings: nat) -> Seq<Seq<char>> {
    (if errors > 0 {
        seq![text::counted(errors, "error"@)]
    } else {
        Seq::empty()
    }) + (if warnings > 0 {
        seq![text::counted(warnings, "warning"@)]
    } else {
        Seq::empty()
    })
}

/// The line that sums up what was found.
pub open spec fn summary_text(errors: nat, warnings: nat) -> Seq<char> {
    if errors == 0 && warnings == 0 {
        "No issues found"@
    } else {
        text::join(summary_parts(errors, warnings), ", "@) + " found"@
    }
}

/// The line that sums up what was found.
pub fn summary(errors: usize, warnings: usize) -> (r: String)
    ensures
        r@ == summary_text(errors as nat, warnings as nat),
{
    if errors == 0 && warnings == 0 {
        return "No issues found".to_owned();
    }
    let mut parts: Vec<String> = Vec::new();
    if errors > 0 {
        parts.push(counted_text(errors, "error"));
    }
    if warnings > 0 {
        parts.push(counted_text(warnings, "warning"));
    }
    assert(text::texts(parts@) =~= summary_parts(errors as nat, warnings as nat));
    concat2(join_texts(&parts, ", ").as_str(), " found")
}

/// The error of a command that found errors.
pub fn failure(command: &str, errors: usize) -> (r: Option<String>)
    ensures
        match r {
            Some(e) => errors > 0 && e@ == command@ + " found "@ + text::counted(
                errors as nat,
                "error"@,
            ),
            None => errors == 0,
        },
{
    if errors == 0 {
        return None;
    }
    let mut e = concat2(command, " found ");
    e.append(counted_text(errors, "error").as_str());
    Some(e)
}

/// Every finding that needs attention is shown, in order, and those that are fine only
/// where everything is asked for.
pub proof fn findings_that_matter_are_shown(findings: Seq<Finding>, verbose: bool)
    ensures
        visible(findings, verbose, findings.len()) == (if verbose {
            findings
        } else {
            findings.filter(|f: Finding| f.severity is Warning || f.severity is Error)
        }).map_values(|f: Finding| f.text@),
{
    lemma_visible(findings, verbose, findings.len());
    assert(findings.take(findings.len() as int) =~= findings);
}

proof fn lemma_visible(findings: Seq<Finding>, verbose: bool, n: nat)
    requires
        n <= findings.len(),
    ensures
        visible(findings, verbose, n) == (if verbose {
            findings.take(n as int)
        } else {
            findings.take(n as int).filter(
                |f: Finding| f.severity is Warning || f.severity is Error,
            )
        }).map_values(|f: Finding| f.text@),
    decreases n,
{
    reveal(Seq::filter);
    if n > 0 {
        lemma_visible(findings, verbose, (n - 1) as nat);
        assert(findings.take(n as int).drop_last() =~= findings.take(n - 1));
        assert(findings.take(n as int).last() == findings[n - 1]);
    }
    assert(visible(findings, verbose, n) =~= (if verbose {
        findings.take(n as int)
    } else {
        findings.take(n as int).filter(|f: Finding| f.severity is Warning || f.severity is Error)
    }).map_values(|f: Finding| f.text@));
}

/// A severity is counted once for each finding that has it.
pub proof fn findings_are_counted(findings: Seq<Finding>, severity: Severity, n: nat)
    requires
        n <= findings.len(),
    ensures
        count(findings, severity, n) == findings.take(n as int).filter(
            |f: Finding| f.severity == severity,
        ).len(),
    decreases n,
{
    reveal(Seq::filter);
    if n > 0 {
        findings_are_counted(findings, severity, (n - 1) as nat);
        assert(findings.take(n as int).drop_last() =~= findings.take(n - 1));
        assert(findings.take(n as int).last() == findings[n - 1]);
    }
}

/// A summary tells the errors, then the warnings, and leaves out what there is none
/// of; it says so where there is neither.
pub proof fn summaries_tell_errors_and_warnings(errors: nat, warnings: nat)
    ensures
        errors == 0 && warnings == 0 ==> summary_text(errors, warnings) == "No issues found"@,
        errors > 0 && warnings == 0 ==> summary_text(errors, warnings) == text::counted(
            errors,
            "error"@,
        ) + " found"@,
        errors == 0 && warnings > 0 ==> summary_text(errors, warnings) == text::counted(
            warnings,
            "warning"@,
        ) + " found"@,
        errors > 0 && warnings > 0 ==> summary_text(errors, warnings) == text::counted(
            errors,
            "error"@,
        ) + ", "@ + text::counted(warnings, "warning"@) + " found"@,
{
    reveal_with_fuel(text::join, 3);
    let parts = summary_parts(errors, warnings);
    if errors > 0 && warnings > 0 {
        assert(parts.drop_last() =~= seq![text::counted(errors, "error"@)]);
    }
}

} // verus!
