//! What `tycho doctor` and the hidden `probe-access` decide and say.

use crate::cli::render;
use crate::cli::render::health;
use crate::cli::render::count_errors;
use crate::cli::words;
use crate::cli::words::plural;
use crate::cli::Exit;
use crate::config::check;
use crate::config::{Config, Diagnostic, Profile};
use crate::doctor;
use crate::doctor::{Check, CheckView, Report, Section, SectionView, Verdict};
use crate::lines;
use crate::primitives::path;
use crate::text;
use crate::text::{cat2, cat3, cat5, same, strip_prefix};
use vstd::prelude::*;

verus! {

/// Whether a profile has a name.
pub open spec fn is_called(name: Seq<char>) -> spec_fn(Profile) -> bool {
    |p: Profile| p.name@ == name
}

/// The profiles a report is about: the ones by the name, or all of them.
pub open spec fn kept(profiles: Seq<Profile>, wanted: Option<Seq<char>>) -> Seq<Profile> {
    match wanted {
        Some(name) => profiles.filter(is_called(name)),
        None => profiles,
    }
}

/// Limits the config to one profile.
///
/// # Errors
///
/// If none has the name.
pub fn limit(config: Config, wanted: Option<&str>) -> (out: Result<Config, String>)
    ensures
        ({
            let profiles = kept(config.profiles@, path::view_str_opt(wanted));
            match wanted {
                Some(name) if profiles.len() == 0 => out matches Err(said) && said@
                    == "tycho: no profile named '"@ + name@ + "'\n"@,
                _ => out matches Ok(c) && c.profiles@ == profiles && c.log_level
                    == config.log_level,
            }
        }),
{
    let name = match wanted {
        Some(name) => name,
        None => return Ok(config),
    };
    let ghost all = config.profiles@;
    let ghost wants = is_called(name@);
    let mut left = config.profiles;
    let mut profiles: Vec<Profile> = Vec::new();
    assert(all.take(0).filter(wants) =~= Seq::empty());
    let ghost mut done: int = 0;
    assert(all.skip(0) =~= all);
    while left.len() > 0
        invariant
            0 <= done <= all.len(),
            left@ == all.skip(done),
            wants == is_called(name@),
            profiles@ == all.take(done).filter(wants),
        decreases left@.len(),
    {
        let profile = left.remove(0);
        proof {
            assert(profile == all[done]);
            assert(all.take(done + 1) =~= all.take(done).push(profile));
            all.take(done).lemma_filter_push(profile, wants);
            assert(left@ =~= all.skip(done + 1));
            done = done + 1;
        }
        if same(profile.name.as_str(), name) {
            profiles.push(profile);
        }
    }
    assert(all.take(done) =~= all);
    if profiles.len() == 0 {
        return Err(cat3("tycho: no profile named '", name, "'\n"));
    }
    Ok(Config { log_level: config.log_level, profiles })
}

// ---------------------------------------------------------------------------
// Folding findings in
// ---------------------------------------------------------------------------

/// Some checks with every one by a name replaced.
pub open spec fn amended(checks: Seq<CheckView>, to: CheckView) -> Seq<CheckView> {
    checks.map_values(
        |c: CheckView|
            if c.name == to.name {
                to
            } else {
                c
            },
    )
}

/// A report with every check by a name in its first section replaced.
pub open spec fn amended_report(sections: Seq<SectionView>, to: CheckView) -> Seq<SectionView> {
    if sections.len() == 0 {
        sections
    } else {
        sections.update(
            0,
            SectionView { title: sections[0].title, checks: amended(sections[0].checks, to) },
        )
    }
}

/// Replaces every check by a name in a report's first section.
pub fn amend(report: Report, to: &Check) -> (out: Report)
    ensures
        out@ == amended_report(report@, to@),
{
    let ghost before = report@;
    let mut sections = report.sections;
    if sections.len() == 0 {
        let out = Report { sections };
        assert(out@ =~= before);
        return out;
    }
    let ghost old_sections = sections@;
    let first = sections.remove(0);
    let mut checks: Vec<Check> = Vec::new();
    let mut i: usize = 0;
    while i < first.checks.len()
        invariant
            i <= first.checks@.len(),
            checks@.len() == i,
            forall|k: int|
                0 <= k < i ==> (#[trigger] checks@[k])@ == amended(first@.checks, to@)[k],
        decreases first.checks@.len() - i,
    {
        let check = &first.checks[i];
        assert(first@.checks[i as int] == check@);
        let next = if same(&check.name, &to.name) {
            Check::new(&to.name, to.verdict, &to.evidence)
        } else {
            Check::new(&check.name, check.verdict, &check.evidence)
        };
        checks.push(next);
        i += 1;
    }
    assert(doctor::check_views(checks@) =~= amended(first@.checks, to@));
    sections.insert(0, Section { title: first.title, checks });
    let out = Report { sections };
    assert(out@ =~= amended_report(before, to@));
    out
}

/// The `config` check of a config that something is wrong with.
pub open spec fn config_found(diagnostics: Seq<check::DiagView>) -> CheckView {
    let errors = render::errors_in(diagnostics);
    doctor::check_of(
        "config"@,
        if errors > 0 {
            Verdict::Fail
        } else {
            Verdict::Warn
        },
        words::plural_text(errors, "error"@) + ", "@ + words::plural_text(
            (diagnostics.len() - errors) as nat,
            "warning"@,
        ),
    )
}

/// The config's own diagnostics belong in the report rather than beside it: one
/// command that aggregates health should not need a second one run alongside.
pub fn fold_config(report: Report, diagnostics: &[Diagnostic]) -> (out: Report)
    ensures
        out@ == if diagnostics@.len() == 0 {
            report@
        } else {
            amended_report(report@, config_found(check::diag_views(diagnostics@)))
        },
{
    if diagnostics.len() == 0 {
        return report;
    }
    let errors = count_errors(diagnostics);
    let verdict = if errors > 0 {
        Verdict::Fail
    } else {
        Verdict::Warn
    };
    let evidence = cat3(
        &plural(errors, "error"),
        ", ",
        &plural(diagnostics.len() - errors, "warning"),
    );
    amend(report, &Check::new("config", verdict, &evidence))
}

/// Puts what a probe measured in the place of what a terminal cannot.
pub fn fold_access(report: Report, access: Option<Check>) -> (out: Report)
    ensures
        out@ == match access {
            Some(check) => amended_report(report@, check@),
            None => report@,
        },
{
    match access {
        Some(check) => amend(report, &check),
        None => report,
    }
}

pub open spec fn health_of(sections: Seq<SectionView>) -> Exit {
    if doctor::verdicts(sections, Verdict::Fail) > 0 {
        Exit::Failure
    } else if doctor::verdicts(sections, Verdict::Warn) > 0 {
        Exit::Warning
    } else {
        Exit::Success
    }
}

/// How many checks a report holds.
pub open spec fn rows_of(sections: Seq<SectionView>) -> nat
    decreases sections.len(),
{
    if sections.len() == 0 {
        0
    } else {
        rows_of(sections.drop_last()) + sections.last().checks.len()
    }
}

proof fn lemma_verdicts_in(checks: Seq<CheckView>, verdict: Verdict)
    ensures
        doctor::verdicts_in(checks, verdict) <= checks.len(),
    decreases checks.len(),
{
    if checks.len() > 0 {
        lemma_verdicts_in(checks.drop_last(), verdict);
    }
}

proof fn lemma_verdicts(sections: Seq<SectionView>, verdict: Verdict)
    ensures
        doctor::verdicts(sections, verdict) <= rows_of(sections),
    decreases sections.len(),
{
    if sections.len() > 0 {
        lemma_verdicts(sections.drop_last(), verdict);
        lemma_verdicts_in(sections.last().checks, verdict);
    }
}

proof fn lemma_same_rows(a: Seq<SectionView>, b: Seq<SectionView>)
    requires
        a.len() == b.len(),
        forall|i: int|
            0 <= i < a.len() ==> (#[trigger] a[i]).checks.len() == b[i].checks.len(),
    ensures
        rows_of(a) == rows_of(b),
    decreases a.len(),
{
    if a.len() > 0 {
        assert(a[a.len() - 1].checks.len() == b[a.len() - 1].checks.len());
        assert forall|i: int| 0 <= i < a.drop_last().len() implies (
        #[trigger] a.drop_last()[i]).checks.len() == b.drop_last()[i].checks.len() by {
            assert(a[i].checks.len() == b[i].checks.len());
        }
        lemma_same_rows(a.drop_last(), b.drop_last());
    }
}

proof fn lemma_amended_rows(sections: Seq<SectionView>, to: CheckView)
    ensures
        rows_of(amended_report(sections, to)) == rows_of(sections),
{
    lemma_same_rows(amended_report(sections, to), sections);
}

/// Every check, folded with what the config and the probe showed, as what to print and what to
/// exit with.
///
/// The same policy as everything else, so the one command that aggregates health
/// cannot report a failure while exiting 0.
pub fn dispatch(report: Report, diagnostics: &[Diagnostic], access: Option<Check>, colour: bool) -> (
    out: (String, Exit))
    requires
        rows_of(report@) <= usize::MAX,
    ensures
        ({
            let folded = if diagnostics@.len() == 0 {
                report@
            } else {
                amended_report(report@, config_found(check::diag_views(diagnostics@)))
            };
            let folded = match access {
                Some(check) => amended_report(folded, check@),
                None => folded,
            };
            &&& out.0@ == health::doctor_page(folded).shown(colour)
            &&& out.1 == health_of(folded)
        }),
{
    proof {
        let found = config_found(check::diag_views(diagnostics@));
        lemma_amended_rows(report@, found);
        if access is Some {
            lemma_amended_rows(report@, access->0@);
            lemma_amended_rows(amended_report(report@, found), access->0@);
        }
    }
    let report = fold_access(fold_config(report, diagnostics), access);
    proof {
        lemma_verdicts(report@, Verdict::Fail);
        lemma_verdicts(report@, Verdict::Warn);
    }
    let page = health::doctor(&report, colour);
    let (failures, warnings) = report.counts();
    let exit = if failures > 0 {
        Exit::Failure
    } else if warnings > 0 {
        Exit::Warning
    } else {
        Exit::Success
    };
    (page, exit)
}

// ---------------------------------------------------------------------------
// The probe
// ---------------------------------------------------------------------------

/// What the agent is given to measure its own grant.
#[must_use]
pub fn probe_arguments(out_file: &str, roots: &[String]) -> (out: Vec<String>)
    ensures
        text::views(out@) == seq!["probe-access"@, "--out"@, out_file@] + text::views(roots@),
{
    let mut out: Vec<String> = Vec::new();
    out.push("probe-access".to_owned());
    out.push("--out".to_owned());
    out.push(out_file.to_owned());
    let ghost start = seq!["probe-access"@, "--out"@, out_file@];
    assert(text::views(out@) =~= start);
    let mut i: usize = 0;
    while i < roots.len()
        invariant
            i <= roots@.len(),
            out@.len() == 3 + i,
            start.len() == 3,
            forall|k: int| 0 <= k < 3 ==> (#[trigger] out@[k])@ == start[k],
            forall|k: int| 0 <= k < i ==> out@[k + 3]@ == (#[trigger] roots@[k])@,
        decreases roots@.len() - i,
    {
        let ghost before = out@;
        out.push(roots[i].clone());
        proof {
            assert forall|k: int| 0 <= k < 3 implies (#[trigger] out@[k])@ == start[k] by {
                assert(out@[k] == before[k]);
            }
            assert forall|k: int| 0 <= k < i + 1 implies out@[k + 3]@ == (#[trigger] roots@[k])@ by {
                if k < i {
                    assert(out@[k + 3] == before[k + 3]);
                }
            }
        }
        i += 1;
    }
    proof {
        let all = start + text::views(roots@);
        assert forall|k: int| 0 <= k < all.len() implies text::views(out@)[k] == #[trigger] all[k] by {
            if k >= 3 {
                assert(out@[(k - 3) + 3]@ == roots@[k - 3]@);
            }
        }
        assert(text::views(out@) =~= all);
    }
    out
}

/// What stands behind the first `denied ` line, where there is one.
pub open spec fn first_denied(printed: Seq<Seq<char>>) -> Option<Seq<char>>
    decreases printed.len(),
{
    if printed.len() == 0 {
        None
    } else {
        match text::without_prefix(printed[0], "denied "@) {
            Some(root) => Some(root),
            None => first_denied(printed.skip(1)),
        }
    }
}

pub open spec fn access_found(found: Option<Seq<char>>, roots: nat) -> CheckView {
    match found {
        Some(printed) => match first_denied(lines::lines_of(printed)) {
            None => doctor::check_of(
                "full disk access"@,
                Verdict::Fine,
                "the agent read all "@ + words::plural_text(roots, "root"@),
            ),
            Some(root) => doctor::check_of(
                "full disk access"@,
                Verdict::Fail,
                "the agent cannot read "@ + root + "; add tycho in System Settings"@,
            ),
        },
        None => doctor::check_of(
            "full disk access"@,
            Verdict::Warn,
            "the probe did not report back in time"@,
        ),
    }
}

/// What the **agent's** Full Disk Access grant came to, given what the probe wrote, where it
/// wrote in time.
///
/// An interactive `doctor` runs with the terminal's TCC grant, a different grant from
/// the agent's, so reading a watched root here proves nothing about what the agent can
/// do. The only mechanism that measures the real thing is to run the probe through
/// launchd - the same lifecycle `service install` already implements.
#[must_use]
pub fn probed(found: Option<&str>, roots: usize) -> (out: Check)
    ensures
        out@ == access_found(path::view_str_opt(found), roots as nat),
{
    let printed = match found {
        Some(printed) => printed,
        None => return Check::new(
            "full disk access",
            Verdict::Warn,
            "the probe did not report back in time",
        ),
    };
    let rows = lines::lines(printed);
    let ghost all = lines::lines_of(printed@);
    let mut i: usize = 0;
    assert(all.skip(0) =~= all);
    while i < rows.len()
        invariant
            i <= rows@.len(),
            found matches Some(p) && p@ == printed@,
            all == lines::lines_of(printed@),
            all == text::views(rows@),
            first_denied(all) == first_denied(all.skip(i as int)),
        decreases rows@.len() - i,
    {
        assert(all.skip(i as int)[0] == rows@[i as int]@);
        assert(all.skip(i as int).skip(1) =~= all.skip(i + 1));
        if let Some(root) = strip_prefix(&rows[i], "denied ") {
            return Check::new(
                "full disk access",
                Verdict::Fail,
                &cat3("the agent cannot read ", &root, "; add tycho in System Settings"),
            );
        }
        i += 1;
    }
    Check::new(
        "full disk access",
        Verdict::Fine,
        &cat2("the agent read all ", &plural(roots, "root")),
    )
}

/// What the probe writes of one root.
pub open spec fn probe_text(root: Seq<char>, outcome: Result<(), String>) -> Seq<char> {
    match outcome {
        Ok(()) => "read "@ + root + "\n"@,
        Err(error) => "denied "@ + root + " ("@ + error@ + ")\n"@,
    }
}

/// The hidden `probe-access`, run **by launchd** so that what it measures is the
/// agent's grant rather than the terminal's: the line for one root, given what taking one entry
/// of it came to.
///
/// A TCC denial is not a loud failure on its own - it is a read error on a directory.
/// What makes it loud is that a root that yields zero
/// capturable entries fails the run outright, so a TCC-denied root cannot produce a
/// green empty backup. This exists to say so before that happens.
#[must_use]
pub fn probe_access(root: &str, outcome: &Result<(), String>) -> (out: String)
    ensures
        out@ == probe_text(root@, *outcome),
{
    match outcome {
        Ok(()) => cat3("read ", root, "\n"),
        Err(error) => cat5("denied ", root, " (", error, ")\n"),
    }
}

// ---------------------------------------------------------------------------
// Laws
// ---------------------------------------------------------------------------

/// The one command that aggregates health cannot report a failure while exiting 0.
pub proof fn a_failing_check_fails(sections: Seq<SectionView>)
    ensures
        health_of(sections) == Exit::Success <==> doctor::verdicts(sections, Verdict::Fail) == 0
            && doctor::verdicts(sections, Verdict::Warn) == 0,
        health_of(sections) == Exit::Failure <==> doctor::verdicts(sections, Verdict::Fail) > 0,
{
}

/// Folding a finding in adds no check and takes none away.
pub proof fn folding_keeps_every_row(sections: Seq<SectionView>, to: CheckView)
    ensures
        amended_report(sections, to).len() == sections.len(),
        forall|i: int|
            0 <= i < sections.len() ==> (#[trigger] amended_report(sections, to)[i]).checks.len()
                == sections[i].checks.len() && amended_report(sections, to)[i].title
                == sections[i].title,
{
}

/// A probe's report tells of a denied root exactly where one of its lines does, and of the first.
pub proof fn the_first_denied_root_is_told(printed: Seq<Seq<char>>)
    ensures
        match first_denied(printed) {
            Some(root) => exists|i: int|
                0 <= i < printed.len() && #[trigger] printed[i] == "denied "@ + root && forall|
                    j: int,
                |
                    0 <= j < i ==> !"denied "@.is_prefix_of(#[trigger] printed[j]),
            None => forall|i: int|
                0 <= i < printed.len() ==> !"denied "@.is_prefix_of(#[trigger] printed[i]),
        },
    decreases printed.len(),
{
    if printed.len() > 0 {
        let line = printed[0];
        let n = "denied "@.len() as int;
        if text::has_prefix(line, "denied "@) {
            assert(line =~= "denied "@ + line.skip(n));
            assert(printed[0] == "denied "@ + first_denied(printed)->0);
        } else {
            assert(!"denied "@.is_prefix_of(line)) by {
                if "denied "@.is_prefix_of(line) {
                    assert(line.take(n) =~= "denied "@);
                }
            }
            let rest = printed.skip(1);
            the_first_denied_root_is_told(rest);
            match first_denied(rest) {
                Some(root) => {
                    let i = choose|i: int|
                        0 <= i < rest.len() && #[trigger] rest[i] == "denied "@ + root && forall|
                            j: int,
                        |
                            0 <= j < i ==> !"denied "@.is_prefix_of(#[trigger] rest[j]);
                    assert(printed[i + 1] == "denied "@ + root);
                    assert forall|j: int| 0 <= j < i + 1 implies !"denied "@.is_prefix_of(
                        #[trigger] printed[j],
                    ) by {
                        if j > 0 {
                            assert(rest[j - 1] == printed[j]);
                        }
                    }
                },
                None => {
                    assert forall|i: int| 0 <= i < printed.len() implies !"denied "@.is_prefix_of(
                        #[trigger] printed[i],
                    ) by {
                        if i > 0 {
                            assert(rest[i - 1] == printed[i]);
                        }
                    }
                },
            }
        }
    }
}

/// Access is fine exactly where the probe reported and denied nothing, and unknown where it did not
/// report.
pub proof fn access_is_what_the_probe_saw(found: Option<Seq<char>>, roots: nat)
    ensures
        access_found(found, roots).verdict == Verdict::Warn <==> found is None,
        access_found(found, roots).verdict == Verdict::Fine <==> (found matches Some(printed)
            && forall|i: int|
            0 <= i < lines::lines_of(printed).len() ==> !"denied "@.is_prefix_of(
                #[trigger] lines::lines_of(printed)[i],
            )),
{
    if let Some(printed) = found {
        let all = lines::lines_of(printed);
        the_first_denied_root_is_told(all);
        if let Some(root) = first_denied(all) {
            let i = choose|i: int|
                0 <= i < all.len() && #[trigger] all[i] == "denied "@ + root && forall|j: int|
                    0 <= j < i ==> !"denied "@.is_prefix_of(#[trigger] all[j]);
            assert("denied "@ =~= all[i].subrange(0, "denied "@.len() as int));
            assert("denied "@.is_prefix_of(all[i]));
        }
    }
}

/// The report's exit is that of its worst check.
pub proof fn a_report_is_as_bad_as_its_worst_check(sections: Seq<SectionView>)
    ensures
        health_of(sections) == Exit::Failure <==> exists|i: int, k: int|
            0 <= i < sections.len() && 0 <= k < sections[i].checks.len() && (
            #[trigger] sections[i].checks[k]).verdict == Verdict::Fail,
        health_of(sections) == Exit::Success <==> forall|i: int, k: int|
            0 <= i < sections.len() && 0 <= k < sections[i].checks.len() ==> (
            #[trigger] sections[i].checks[k]).verdict == Verdict::Fine,
{
    doctor::a_verdict_is_counted_where_it_was_come_to(sections, Verdict::Fail);
    doctor::a_verdict_is_counted_where_it_was_come_to(sections, Verdict::Warn);
    if health_of(sections) == Exit::Success {
        assert forall|i: int, k: int|
            0 <= i < sections.len() && 0 <= k < sections[i].checks.len() implies (
        #[trigger] sections[i].checks[k]).verdict == Verdict::Fine by {
            let v = sections[i].checks[k].verdict;
            if v == Verdict::Fail {
                assert(doctor::verdicts(sections, Verdict::Fail) > 0);
            } else if v == Verdict::Warn {
                assert(doctor::verdicts(sections, Verdict::Warn) > 0);
            }
        }
    }
}

/// A finding that is folded in takes the place of every check of its name in the first section, and
/// of no other.
pub proof fn folding_replaces_by_name(checks: Seq<CheckView>, to: CheckView, i: int)
    requires
        0 <= i < checks.len(),
    ensures
        amended(checks, to).len() == checks.len(),
        checks[i].name == to.name ==> amended(checks, to)[i] == to,
        checks[i].name != to.name ==> amended(checks, to)[i] == checks[i],
{
}

} // verus!
