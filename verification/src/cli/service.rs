//! What `tycho service` decides and says.

use crate::cli::render;
use crate::cli::render::health;
use crate::cli::render::health::ServiceRow;
use crate::cli::report::{at_profile, Diagnostic, DiagnosticView, LocationView};
use crate::cli::run;
use crate::cli::{Exit, ServiceAction};
use crate::config;
use crate::config::check;
use crate::config::schedule::Schedule;
use crate::config::{Config, Parsed, Profile};
use crate::platform::Agent;
use crate::primitives::path;
use crate::text;
use crate::text::{cat3, same};
use crate::textmap;
use crate::textmap::TextMap;
use vstd::prelude::*;

verus! {

pub open spec fn nothing_touched() -> DiagnosticView {
    DiagnosticView::error("the config has errors, so no agent was touched"@).recovery_with(
        "tycho config check"@,
        "shows every error and warning"@,
    )
}

/// Whether an action may go on. A config with errors stops everything but a status: then, what
/// to print and what to say.
pub fn allowed(parsed: &Parsed, action: ServiceAction, colour: bool) -> (out: Option<
    (String, Diagnostic),
>)
    ensures
        out is Some <==> config::any_error(parsed.diagnostics@) && action != ServiceAction::Status,
        out matches Some((page, d)) ==> page@ == render::config_check_page(
            Seq::empty(),
            check::diag_views(parsed.diagnostics@),
        ).shown(colour) && d@ == nothing_touched(),
{
    match action {
        ServiceAction::Status => return None,
        _ => {},
    }
    if !parsed.has_errors() {
        return None;
    }
    let none: Vec<String> = Vec::new();
    assert(text::views(none@) =~= Seq::empty());
    let page = render::config_check(&none, &parsed.diagnostics, colour);
    Some(
        (
            page,
            Diagnostic::error("the config has errors, so no agent was touched").recovery_with(
                "tycho config check",
                "shows every error and warning",
            ),
        ),
    )
}

pub open spec fn no_profile(name: Seq<char>) -> DiagnosticView {
    DiagnosticView::error("no profile named '"@ + name + "'"@).at(
        LocationView::Profile(name),
    ).recovery_with("tycho profile list"@, "names every profile this config defines"@)
}

/// Which profiles an action is about. No profile named means every profile: installing one at a
/// time is the special case, not the general one.
pub open spec fn chosen(profiles: Seq<Profile>, wanted: Option<Seq<char>>) -> Result<
    Seq<Profile>,
    DiagnosticView,
> {
    match wanted {
        Some(name) => {
            let at = text::position(run::profile_names(profiles), name);
            if 0 <= at < profiles.len() {
                Ok(seq![profiles[at]])
            } else {
                Err(no_profile(name))
            }
        },
        None => if profiles.len() == 0 {
            Err(
                DiagnosticView::error("the config has no profiles"@).recovery_with(
                    "tycho profile add <name> --local-only"@,
                    "or with --remote NAME=PATH"@,
                ),
            )
        } else {
            Ok(profiles)
        },
    }
}

/// # Errors
///
/// If there is none.
pub fn wanted<'a>(config: &'a Config, name: Option<&str>) -> (out: Result<
    Vec<&'a Profile>,
    Diagnostic,
>)
    ensures
        match out {
            Ok(v) => chosen(config.profiles@, path::view_str_opt(name)) == Ok::<
                Seq<Profile>,
                DiagnosticView,
            >(run::behind_refs(v@)),
            Err(d) => chosen(config.profiles@, path::view_str_opt(name)) == Err::<
                Seq<Profile>,
                DiagnosticView,
            >(d@),
        },
{
    let mut out: Vec<&'a Profile> = Vec::new();
    let len: usize = config.profiles.len();
    match name {
        Some(name) => {
            let at = run::position_of(&config.profiles, name);
            if at < len {
                out.push(&config.profiles[at]);
                assert(run::behind_refs(out@) =~= seq![config.profiles@[at as int]]);
                return Ok(out);
            }
            Err(
                Diagnostic::error(&cat3("no profile named '", name, "'")).location(
                    at_profile(name),
                ).recovery_with("tycho profile list", "names every profile this config defines"),
            )
        },
        None => {
            if len == 0 {
                return Err(
                    Diagnostic::error("the config has no profiles").recovery_with(
                        "tycho profile add <name> --local-only",
                        "or with --remote NAME=PATH",
                    ),
                );
            }
            let mut i: usize = 0;
            while i < config.profiles.len()
                invariant
                    i <= config.profiles@.len(),
                    out@.len() == i,
                    forall|k: int| 0 <= k < i ==> *(#[trigger] out@[k]) == config.profiles@[k],
                decreases config.profiles@.len() - i,
            {
                out.push(&config.profiles[i]);
                i += 1;
            }
            assert(run::behind_refs(out@) =~= config.profiles@);
            Ok(out)
        },
    }
}

// ---------------------------------------------------------------------------
// Install
// ---------------------------------------------------------------------------

pub open spec fn install_fault(
    name: Seq<char>,
    message: Seq<char>,
    unscheduled: bool,
) -> DiagnosticView {
    let said = DiagnosticView::error(message).at(LocationView::Profile(name));
    if unscheduled {
        said.recovery_with(
            "tycho schedule set daily:09:00 -p "@ + name,
            "any of the accepted forms works"@,
        )
    } else {
        said
    }
}

/// Why a profile's agents could not be installed. A profile with no schedule has something to
/// type.
#[must_use]
pub fn install_failed(profile: &Profile, message: &str, unscheduled: bool) -> (out: Diagnostic)
    ensures
        out@ == install_fault(profile.name@, message@, unscheduled),
{
    let name = profile.name.as_str();
    let said = Diagnostic::error(message).location(at_profile(name));
    if unscheduled {
        said.recovery_with(
            &text::cat2("tycho schedule set daily:09:00 -p ", name),
            "any of the accepted forms works",
        )
    } else {
        said
    }
}

pub open spec fn labels(agents: Seq<Agent>) -> Seq<Seq<char>> {
    agents.map_values(|a: Agent| a.label_text())
}

fn copy_agent(agent: &Agent) -> (out: Agent)
    ensures
        out.label_text() == agent.label_text(),
{
    match agent {
        Agent::Backup(profile) => Agent::Backup(profile.clone()),
        Agent::Catchup => Agent::Catchup,
        Agent::Probe => Agent::Probe,
    }
}

/// The agents that were installed, each once, in the order of their labels.
///
/// Every profile brings the shared agent, so it is there as often as there are profiles.
pub fn installed_once(agents: &[Agent]) -> (out: Vec<Agent>)
    ensures
        text::sorted(labels(out@)),
        forall|label: Seq<char>| #[trigger]
            labels(out@).contains(label) <==> labels(agents@).contains(label),
{
    let ghost all = labels(agents@);
    let mut seen: TextMap<usize> = TextMap::new();
    let mut i: usize = 0;
    while i < agents.len()
        invariant
            i <= agents@.len(),
            all == labels(agents@),
            forall|l: Seq<char>| #[trigger]
                seen@.contains_key(l) <==> all.take(i as int).contains(l),
            forall|l: Seq<char>| #[trigger]
                seen@.contains_key(l) ==> seen@[l] < agents@.len() && all[seen@[l] as int] == l,
        decreases agents@.len() - i,
    {
        let label = agents[i].label();
        let ghost before = seen@;
        let ghost now = label@;
        assert(all[i as int] == now);
        seen.insert(label, i);
        proof {
            let taken = all.take(i as int);
            let more = all.take(i + 1);
            assert(more =~= taken.push(now));
            assert forall|l: Seq<char>| #[trigger] seen@.contains_key(l) <==> more.contains(l) by {
                assert(before.contains_key(l) <==> taken.contains(l));
                if taken.contains(l) {
                    let k = choose|k: int| 0 <= k < taken.len() && taken[k] == l;
                    assert(more[k] == l);
                }
                if l == now {
                    assert(more[i as int] == l);
                }
                if more.contains(l) && l != now {
                    let k = choose|k: int| 0 <= k < more.len() && more[k] == l;
                    assert(taken[k] == l);
                }
            }
            assert forall|l: Seq<char>| #[trigger] seen@.contains_key(l) implies seen@[l]
                < agents@.len() && all[seen@[l] as int] == l by {
                if l != now {
                    assert(before.contains_key(l));
                }
            }
        }
        i += 1;
    }
    assert(all.take(i as int) =~= all);
    let len: usize = seen.len();
    let ghost rows = seen.rows();
    proof {
        textmap::lemma_row_map(rows);
    }
    let mut out: Vec<Agent> = Vec::new();
    let mut j: usize = 0;
    while j < len
        invariant
            j <= len,
            len == rows.len(),
            rows == seen.rows(),
            all == labels(agents@),
            seen@ == textmap::row_map(rows),
            forall|k: int|
                0 <= k < rows.len() ==> textmap::row_map(rows).contains_key(
                    (#[trigger] rows[k]).0,
                ) && textmap::row_map(rows)[rows[k].0] == rows[k].1,
            forall|l: Seq<char>| #[trigger]
                seen@.contains_key(l) ==> seen@[l] < agents@.len() && all[seen@[l] as int] == l,
            out@.len() == j,
            forall|k: int| 0 <= k < j ==> (#[trigger] out@[k]).label_text() == rows[k].0,
        decreases len - j,
    {
        let at: usize = *seen.value(j);
        assert(seen@.contains_key(rows[j as int].0));
        assert(all[at as int] == agents@[at as int].label_text());
        out.push(copy_agent(&agents[at]));
        j += 1;
    }
    proof {
        assert(labels(out@) =~= textmap::row_keys(rows));
        assert forall|label: Seq<char>| #[trigger]
            labels(out@).contains(label) <==> all.contains(label) by {
            assert(seen@.contains_key(label) <==> all.contains(label));
            if labels(out@).contains(label) {
                let k = choose|k: int| 0 <= k < labels(out@).len() && labels(out@)[k] == label;
                assert(rows[k].0 == label);
            }
            if seen@.contains_key(label) {
                let k = choose|k: int| 0 <= k < rows.len() && (#[trigger] rows[k]).0 == label;
                assert(labels(out@)[k] == label);
            }
        }
    }
    out
}

// ---------------------------------------------------------------------------
// Uninstall
// ---------------------------------------------------------------------------

/// How many of the first `n` profiles stay.
pub open spec fn staying(profiles: Seq<Profile>, going: Seq<Profile>, n: int) -> nat
    decreases n,
{
    if n <= 0 {
        0
    } else {
        staying(profiles, going, n - 1) + if run::profile_names(going).contains(
            profiles[n - 1].name@,
        ) {
            0nat
        } else {
            1nat
        }
    }
}

fn goes(going: &[&Profile], name: &str) -> (out: bool)
    ensures
        out == run::profile_names(run::behind_refs(going@)).contains(name@),
{
    let ghost names = run::profile_names(run::behind_refs(going@));
    let mut i: usize = 0;
    while i < going.len()
        invariant
            i <= going@.len(),
            names == run::profile_names(run::behind_refs(going@)),
            forall|k: int| 0 <= k < i ==> #[trigger] names[k] != name@,
        decreases going@.len() - i,
    {
        assert(names[i as int] == going@[i as int].name@);
        if same(going[i].name.as_str(), name) {
            return true;
        }
        i += 1;
    }
    false
}

/// How many profiles are left once some have gone. The catch-up agent is shared, so it goes only
/// when the last profile does.
pub fn remaining(config: &Config, going: &[&Profile]) -> (out: usize)
    ensures
        out == staying(
            config.profiles@,
            run::behind_refs(going@),
            config.profiles@.len() as int,
        ),
{
    let mut out: usize = 0;
    let mut i: usize = 0;
    while i < config.profiles.len()
        invariant
            i <= config.profiles@.len(),
            out <= i,
            out == staying(config.profiles@, run::behind_refs(going@), i as int),
        decreases config.profiles@.len() - i,
    {
        if !goes(going, config.profiles[i].name.as_str()) {
            out += 1;
        }
        i += 1;
    }
    out
}

pub open spec fn removed_lines(labels: Seq<Seq<char>>, n: int) -> Seq<char>
    decreases n,
{
    if n <= 0 {
        Seq::empty()
    } else {
        removed_lines(labels, n - 1) + "removed   "@ + labels[n - 1] + "\n"@
    }
}

/// What an uninstall prints of the agents it removed.
#[must_use]
pub fn removed(agents: &[Agent]) -> (out: String)
    ensures
        out@ == removed_lines(labels(agents@), agents@.len() as int),
{
    let ghost all = labels(agents@);
    let mut out = String::new();
    assert(out@ =~= Seq::empty());
    let mut i: usize = 0;
    while i < agents.len()
        invariant
            i <= agents@.len(),
            all == labels(agents@),
            out@ == removed_lines(all, i as int),
        decreases agents@.len() - i,
    {
        assert(all[i as int] == agents@[i as int].label_text());
        out = text::cat4(&out, "removed   ", &agents[i].label(), "\n");
        i += 1;
    }
    out
}

/// What an uninstall ends with.
pub const UNTOUCHED: &'static str = "\nthe store and every backup are untouched\n";

// ---------------------------------------------------------------------------
// Status
// ---------------------------------------------------------------------------

/// What the config wants of an agent. The shared agents carry a fixed schedule of their own, so
/// there is no config value to drift from and nothing to compare.
pub open spec fn wanted_schedule(profiles: Seq<Profile>, agent: Agent) -> Option<Option<Schedule>> {
    match agent {
        Agent::Backup(name) => {
            let at = text::position(run::profile_names(profiles), name@);
            Some(
                if 0 <= at < profiles.len() {
                    profiles[at].schedule
                } else {
                    None
                },
            )
        },
        _ => None,
    }
}

pub fn wanted_of(config: &Config, agent: &Agent) -> (out: Option<Option<Schedule>>)
    ensures
        out == wanted_schedule(config.profiles@, *agent),
{
    match agent {
        Agent::Backup(name) => {
            let at = run::position_of(&config.profiles, name);
            if at < config.profiles.len() {
                Some(config.profiles[at].schedule)
            } else {
                Some(None)
            }
        },
        Agent::Catchup => None,
        Agent::Probe => None,
    }
}

/// What to say of an agent that could not be looked at.
#[must_use]
pub fn unseen(agent: &Agent, message: &str) -> (out: Diagnostic)
    ensures
        out@ == match *agent {
            Agent::Backup(name) => DiagnosticView::error(message@).at(LocationView::Profile(name@)),
            _ => DiagnosticView::error(message@),
        },
{
    let said = Diagnostic::error(message);
    match agent {
        Agent::Backup(name) => said.location(at_profile(name)),
        Agent::Catchup => said,
        Agent::Probe => said,
    }
}

/// Every agent, and whether any of them is broken.
///
/// A non-zero last exit is exactly the evidence that reveals a year of silent
/// failure, and nobody has reason to look. This looks.
pub fn status(rows: &[ServiceRow], colour: bool) -> (out: (String, Exit))
    ensures
        out.0@ == health::service_status_page(rows@).shown(colour),
        out.1 == if health::any_broken(rows@) {
            Exit::Failure
        } else {
            Exit::Success
        },
{
    let page = health::service_status(rows, colour);
    let mut i: usize = 0;
    while i < rows.len()
        invariant
            i <= rows@.len(),
            page@ == health::service_status_page(rows@).shown(colour),
            forall|k: int| 0 <= k < i ==> !(#[trigger] rows@[k]).broken(),
        decreases rows@.len() - i,
    {
        if rows[i].is_broken() {
            return (page, Exit::Failure);
        }
        i += 1;
    }
    (page, Exit::Success)
}

// ---------------------------------------------------------------------------
// Laws
// ---------------------------------------------------------------------------

/// The shared agent goes exactly with the last profile: nothing is left where all of them go,
/// and something is left where one of them stays.
pub proof fn the_shared_agent_goes_last(profiles: Seq<Profile>, going: Seq<Profile>, n: int)
    requires
        0 <= n <= profiles.len(),
    ensures
        staying(profiles, going, n) == 0 <==> forall|i: int|
            0 <= i < n ==> run::profile_names(going).contains((#[trigger] profiles[i]).name@),
    decreases n,
{
    if n > 0 {
        the_shared_agent_goes_last(profiles, going, n - 1);
        let all = forall|i: int|
            0 <= i < n ==> run::profile_names(going).contains((#[trigger] profiles[i]).name@);
        if staying(profiles, going, n) == 0 {
            assert forall|i: int| 0 <= i < n implies run::profile_names(going).contains(
                (#[trigger] profiles[i]).name@,
            ) by {}
        }
        if all {
            assert(run::profile_names(going).contains(profiles[n - 1].name@));
        }
    }
}

/// An action is about every profile, or about the one of the name it was given; a name that is
/// nobody's is refused.
pub proof fn an_action_is_about_whom_it_names(profiles: Seq<Profile>, name: Seq<char>)
    ensures
        chosen(profiles, None) is Ok <==> profiles.len() > 0,
        chosen(profiles, None) matches Ok(all) ==> all == profiles,
        chosen(profiles, Some(name)) is Ok <==> exists|i: int|
            0 <= i < profiles.len() && (#[trigger] profiles[i]).name@ == name,
        chosen(profiles, Some(name)) matches Ok(one) ==> one.len() == 1 && one[0].name@ == name
            && profiles.contains(one[0]),
{
    let names = run::profile_names(profiles);
    text::lemma_position_bounds(names, name);
    let at = text::position(names, name);
    if at < profiles.len() {
        assert(names[at] == profiles[at].name@);
        assert(profiles.contains(profiles[at]));
    }
    if exists|i: int| 0 <= i < profiles.len() && (#[trigger] profiles[i]).name@ == name {
        let i = choose|i: int| 0 <= i < profiles.len() && (#[trigger] profiles[i]).name@ == name;
        assert(names[i] == name);
    }
}

/// What the config wants of a profile's agent is that profile's schedule, and of a shared agent it
/// wants nothing.
pub proof fn an_agent_is_wanted_on_its_profiles_schedule(profiles: Seq<Profile>, name: String, i: int)
    requires
        0 <= i < profiles.len(),
        profiles[i].name@ == name@,
        forall|j: int| 0 <= j < i ==> (#[trigger] profiles[j]).name@ != name@,
    ensures
        wanted_schedule(profiles, Agent::Backup(name)) == Some(profiles[i].schedule),
        wanted_schedule(profiles, Agent::Catchup) is None,
        wanted_schedule(profiles, Agent::Probe) is None,
{
    let names = run::profile_names(profiles);
    assert forall|j: int| 0 <= j < i implies names[j] != name@ by {
        assert(names[j] == profiles[j].name@);
    }
    assert(names[i] == name@);
    text::lemma_position(names, name@, i);
}

/// The profiles that stay are those that do not go.
pub proof fn whoever_does_not_go_stays(profiles: Seq<Profile>, going: Seq<Profile>, n: int)
    requires
        0 <= n <= profiles.len(),
    ensures
        staying(profiles, going, n) == profiles.take(n).filter(
            |p: Profile| !run::profile_names(going).contains(p.name@),
        ).len(),
    decreases n,
{
    reveal(Seq::filter);
    if n > 0 {
        whoever_does_not_go_stays(profiles, going, n - 1);
        assert(profiles.take(n).drop_last() =~= profiles.take(n - 1));
    }
}

} // verus!
