//! Which files a directory walk picks up as preset YAMLs.
use vstd::prelude::*;

use crate::text::chars_of;
use crate::exit_codes::{INPUT_FILE_ERROR, OK};
use crate::validate::{Issue, Severity};

verus! {

/// A preset YAML file name: `preset-` ... `.yaml`.
pub open spec fn spec_is_preset_file_name(name: Seq<char>) -> bool {
    name.len() >= 7 && name.take(7) == "preset-"@ && name.len() >= 5 && name.skip(name.len() - 5)
        == ".yaml"@
}

fn has_prefix(s: &Vec<char>, p: &Vec<char>) -> (r: bool)
    ensures
        r == (s@.len() >= p@.len() && s@.take(p@.len() as int) == p@),
{
    if s.len() < p.len() {
        return false;
    }
    let mut i: usize = 0;
    while i < p.len()
        invariant
            i <= p@.len() <= s@.len(),
            forall|q: int| 0 <= q < i ==> s@[q] == p@[q],
        decreases p@.len() - i,
    {
        if s[i] != p[i] {
            assert(s@.take(p@.len() as int)[i as int] != p@[i as int]);
            return false;
        }
        i += 1;
    }
    assert(s@.take(p@.len() as int) =~= p@);
    true
}

fn has_suffix(s: &Vec<char>, p: &Vec<char>) -> (r: bool)
    ensures
        r == (s@.len() >= p@.len() && s@.skip(s@.len() - p@.len()) == p@),
{
    if s.len() < p.len() {
        return false;
    }
    let sl = s.len();
    let off = sl - p.len();
    let mut i: usize = 0;
    while i < p.len()
        invariant
            sl == s@.len(),
            off == s@.len() - p@.len(),
            i <= p@.len() <= s@.len(),
            forall|q: int| 0 <= q < i ==> s@[off + q] == p@[q],
        decreases p@.len() - i,
    {
        if s[off + i] != p[i] {
            assert(s@.skip(off as int)[i as int] != p@[i as int]);
            return false;
        }
        i += 1;
    }
    assert(s@.skip(off as int) =~= p@);
    true
}

/// Whether a file name is that of a preset YAML (`preset-*.yaml`).
pub fn is_preset_file_name(name: &str) -> (r: bool)
    ensures
        r == spec_is_preset_file_name(name@),
{
    let s = chars_of(name);
    let prefix = chars_of("preset-");
    let suffix = chars_of(".yaml");
    proof {
        reveal_strlit("preset-");
        reveal_strlit(".yaml");
    }
    has_prefix(&s, &prefix) && has_suffix(&s, &suffix)
}

/// The number of issues of severity `severity`.
pub open spec fn spec_severity_count(issues: Seq<Issue>, severity: Severity) -> nat {
    issues.filter(|i: Issue| i.severity == severity).len()
}

/// The number of issues of severity `severity`.
pub fn severity_count(issues: &[Issue], severity: Severity) -> (r: usize)
    ensures
        r == spec_severity_count(issues@, severity),
{
    let mut n: usize = 0;
    let mut k: usize = 0;
    while k < issues.len()
        invariant
            k <= issues@.len(),
            n == spec_severity_count(issues@.take(k as int), severity),
            n <= k,
        decreases issues@.len() - k,
    {
        proof {
            reveal_with_fuel(Seq::filter, 1);
            assert(issues@.take(k as int + 1).drop_last() =~= issues@.take(k as int));
        }
        if issues[k].severity == severity {
            n += 1;
        }
        k += 1;
    }
    assert(issues@.take(issues@.len() as int) =~= issues@);
    n
}

/// Whether a set of issues blocks: some error, or, when warnings count as
/// errors, some warning.
pub open spec fn spec_issues_block(issues: Seq<Issue>, strict: bool) -> bool {
    exists|k: int|
        0 <= k < issues.len() && (#[trigger] issues[k].severity == Severity::Error || (strict
            && issues[k].severity == Severity::Warning))
}

/// Whether a set of issues blocks (see [`spec_issues_block`]).
pub fn issues_block(issues: &[Issue], strict: bool) -> (r: bool)
    ensures
        r == spec_issues_block(issues@, strict),
{
    let mut k: usize = 0;
    while k < issues.len()
        invariant
            k <= issues@.len(),
            forall|j: int|
                0 <= j < k ==> !(#[trigger] issues@[j].severity == Severity::Error || (strict
                    && issues@[j].severity == Severity::Warning)),
        decreases issues@.len() - k,
    {
        let sev = issues[k].severity;
        if sev == Severity::Error || (strict && sev == Severity::Warning) {
            return true;
        }
        k += 1;
    }
    false
}

/// The exit code of a lint run over `files` files: an input-file error
/// when there was nothing to check, or when some error was found, or some
/// warning under `strict`; success otherwise.
pub fn lint_exit_code(files: usize, total_errors: usize, total_warnings: usize, strict: bool) -> (r: i32)
    ensures
        r == (if files == 0 || total_errors > 0 || (strict && total_warnings > 0) {
            INPUT_FILE_ERROR
        } else {
            OK
        }),
{
    if files == 0 || total_errors > 0 || (strict && total_warnings > 0) {
        INPUT_FILE_ERROR
    } else {
        OK
    }
}

} // verus!
