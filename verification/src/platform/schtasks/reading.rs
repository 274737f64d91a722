//! What a definition reads back as: the schedule it was written from, in whole minutes.

use crate::config::schedule;
use crate::config::{Duration, Schedule, TimeOfDay, Weekday};
use crate::platform::elements;
use crate::platform::launchd;
use crate::platform::schtasks;
use crate::platform::Job;
use crate::text;
use vstd::prelude::*;

verus! {

/// A schedule as a definition can say it. An interval is said in whole minutes, one at least.
pub open spec fn in_minutes(wanted: Schedule) -> Schedule {
    match wanted {
        Schedule::Every(interval) => Schedule::Every(
            Duration { secs: (schtasks::minutes_of(interval.secs) * 60) as u64 },
        ),
        _ => wanted,
    }
}

/// What a reader looks for behind a bracket.
spec fn sought(m: Seq<char>) -> bool {
    ||| m == "Interval>PT"@
    ||| m == "LogonTrigger>"@
    ||| m == "StartBoundary>"@
    ||| m == "ScheduleByWeek>"@
    ||| m == "ScheduleByDay>"@
    ||| m == "Sunday />"@
    ||| m == "Monday />"@
    ||| m == "Tuesday />"@
    ||| m == "Wednesday />"@
    ||| m == "Thursday />"@
    ||| m == "Friday />"@
    ||| m == "Saturday />"@
}

proof fn lemma_sought(m: Seq<char>)
    requires
        sought(m),
    ensures
        elements::plain(m),
        m.len() >= 9,
{
    reveal_strlit("Interval>PT");
    reveal_strlit("LogonTrigger>");
    reveal_strlit("StartBoundary>");
    reveal_strlit("ScheduleByWeek>");
    reveal_strlit("ScheduleByDay>");
    reveal_strlit("Sunday />");
    reveal_strlit("Monday />");
    reveal_strlit("Tuesday />");
    reveal_strlit("Wednesday />");
    reveal_strlit("Thursday />");
    reveal_strlit("Friday />");
    reveal_strlit("Saturday />");
}

/// Whether the first characters of a piece are those of nothing a reader looks for.
spec fn other(s: Seq<char>) -> bool {
    &&& s.len() >= 1
    &&& s[0] == 'I' ==> false
    &&& s[0] == 'F' ==> false
    &&& s[0] == 'L' ==> s.len() >= 7 && s[6] == 'y'
    &&& s[0] == 'S' ==> s.len() >= 6 && (s[1] == 'e' || s[2] == 'o' || s[5] == 'W')
    &&& s[0] == 'M' ==> s.len() >= 2 && s[1] == 'u'
    &&& s[0] == 'T' ==> s.len() >= 2 && (s[1] == 'a' || s[1] == 'r' || s[1] == 'i')
    &&& s[0] == 'W' ==> s.len() >= 3 && s[2] == 'e'
}

proof fn lemma_lacks(s: Seq<char>, m: Seq<char>)
    requires
        sought(m),
        other(s),
    ensures
        !text::has_prefix(s, m),
{
    reveal_strlit("Interval>PT");
    reveal_strlit("LogonTrigger>");
    reveal_strlit("StartBoundary>");
    reveal_strlit("ScheduleByWeek>");
    reveal_strlit("ScheduleByDay>");
    reveal_strlit("Sunday />");
    reveal_strlit("Monday />");
    reveal_strlit("Tuesday />");
    reveal_strlit("Wednesday />");
    reveal_strlit("Thursday />");
    reveal_strlit("Friday />");
    reveal_strlit("Saturday />");
    if text::has_prefix(s, m) {
        let lead = s.take(m.len() as int);
        assert(lead[0] == s[0]);
        assert(lead[1] == s[1]);
        assert(lead[2] == s[2]);
        assert(lead[5] == s[5]);
        assert(lead[6] == s[6]);
    }
}

proof fn lemma_head_plain(description: Seq<char>)
    ensures
        elements::all_plain(schtasks::head_pieces(description)),
{
    reveal_strlit("?xml version=\"1.0\" encoding=\"UTF-16\"?>\n");
    reveal_strlit("Task version=\"1.2\" xmlns=\"http://schemas.microsoft.com/windows/2004/02/mit/task\">\n  ");
    reveal_strlit("RegistrationInfo>\n    ");
    reveal_strlit("Description>");
    reveal_strlit("/Description>\n  ");
    reveal_strlit("/RegistrationInfo>\n  ");
    reveal_strlit("Triggers>\n    ");
    assert(elements::plain("?xml version=\"1.0\" encoding=\"UTF-16\"?>\n"@));
    assert(elements::plain("Task version=\"1.2\" xmlns=\"http://schemas.microsoft.com/windows/2004/02/mit/task\">\n  "@));
    assert(elements::plain("RegistrationInfo>\n    "@));
    assert(elements::plain("Description>"@));
    assert(elements::plain("/Description>\n  "@));
    assert(elements::plain("/RegistrationInfo>\n  "@));
    assert(elements::plain("Triggers>\n    "@));
    launchd::escaped_text_is_no_markup(description);
    assert(elements::plain(launchd::escaped(description)));
    let g = schtasks::head_pieces(description);
    assert(elements::plain(g[3]));
}

proof fn lemma_tail_plain(job: Job<'_>)
    ensures
        elements::all_plain(schtasks::tail_pieces(job)),
{
    reveal_strlit("/Triggers>\n  ");
    reveal_strlit("Principals>\n    ");
    reveal_strlit("Principal id=\"Author\">\n      ");
    reveal_strlit("LogonType>InteractiveToken");
    reveal_strlit("/LogonType>\n      ");
    reveal_strlit("RunLevel>LeastPrivilege");
    reveal_strlit("/RunLevel>\n    ");
    reveal_strlit("/Principal>\n  ");
    reveal_strlit("/Principals>\n  ");
    reveal_strlit("Settings>\n    ");
    reveal_strlit("DisallowStartIfOnBatteries>false");
    reveal_strlit("/DisallowStartIfOnBatteries>\n    ");
    reveal_strlit("StopIfGoingOnBatteries>false");
    reveal_strlit("/StopIfGoingOnBatteries>\n    ");
    reveal_strlit("StartWhenAvailable>true");
    reveal_strlit("/StartWhenAvailable>\n    ");
    reveal_strlit("MultipleInstancesPolicy>IgnoreNew");
    reveal_strlit("/MultipleInstancesPolicy>\n    ");
    reveal_strlit("ExecutionTimeLimit>PT2H");
    reveal_strlit("/ExecutionTimeLimit>\n    ");
    reveal_strlit("AllowHardTerminate>true");
    reveal_strlit("/AllowHardTerminate>\n    ");
    reveal_strlit("Enabled>true");
    reveal_strlit("/Enabled>\n    ");
    reveal_strlit("Hidden>false");
    reveal_strlit("/Hidden>\n    ");
    reveal_strlit("Priority>7");
    reveal_strlit("/Priority>\n  ");
    reveal_strlit("/Settings>\n  ");
    reveal_strlit("Actions Context=\"Author\">\n    ");
    reveal_strlit("Exec>\n      ");
    reveal_strlit("Command>cmd.exe");
    reveal_strlit("/Command>\n      ");
    reveal_strlit("Arguments>");
    reveal_strlit("/Arguments>\n    ");
    reveal_strlit("/Exec>\n  ");
    reveal_strlit("/Actions>\n");
    reveal_strlit("/Task>\n");
    assert(elements::plain("/Triggers>\n  "@));
    assert(elements::plain("Principals>\n    "@));
    assert(elements::plain("Principal id=\"Author\">\n      "@));
    assert(elements::plain("LogonType>InteractiveToken"@));
    assert(elements::plain("/LogonType>\n      "@));
    assert(elements::plain("RunLevel>LeastPrivilege"@));
    assert(elements::plain("/RunLevel>\n    "@));
    assert(elements::plain("/Principal>\n  "@));
    assert(elements::plain("/Principals>\n  "@));
    assert(elements::plain("Settings>\n    "@));
    assert(elements::plain("DisallowStartIfOnBatteries>false"@));
    assert(elements::plain("/DisallowStartIfOnBatteries>\n    "@));
    assert(elements::plain("StopIfGoingOnBatteries>false"@));
    assert(elements::plain("/StopIfGoingOnBatteries>\n    "@));
    assert(elements::plain("StartWhenAvailable>true"@));
    assert(elements::plain("/StartWhenAvailable>\n    "@));
    assert(elements::plain("MultipleInstancesPolicy>IgnoreNew"@));
    assert(elements::plain("/MultipleInstancesPolicy>\n    "@));
    assert(elements::plain("ExecutionTimeLimit>PT2H"@));
    assert(elements::plain("/ExecutionTimeLimit>\n    "@));
    assert(elements::plain("AllowHardTerminate>true"@));
    assert(elements::plain("/AllowHardTerminate>\n    "@));
    assert(elements::plain("Enabled>true"@));
    assert(elements::plain("/Enabled>\n    "@));
    assert(elements::plain("Hidden>false"@));
    assert(elements::plain("/Hidden>\n    "@));
    assert(elements::plain("Priority>7"@));
    assert(elements::plain("/Priority>\n  "@));
    assert(elements::plain("/Settings>\n  "@));
    assert(elements::plain("Actions Context=\"Author\">\n    "@));
    assert(elements::plain("Exec>\n      "@));
    assert(elements::plain("Command>cmd.exe"@));
    assert(elements::plain("/Command>\n      "@));
    assert(elements::plain("Arguments>"@));
    assert(elements::plain("/Arguments>\n    "@));
    assert(elements::plain("/Exec>\n  "@));
    assert(elements::plain("/Actions>\n"@));
    assert(elements::plain("/Task>\n"@));
    launchd::escaped_text_is_no_markup(schtasks::action_text(job));
    assert(elements::plain(launchd::escaped(schtasks::action_text(job))));
    let g = schtasks::tail_pieces(job);
    assert(elements::plain(g[33]));
}

proof fn lemma_every_plain(interval: Duration)
    ensures
        elements::all_plain(schtasks::every_pieces(interval)),
{
    reveal_strlit("TimeTrigger>\n      ");
    reveal_strlit("StartBoundary>2020-01-01T00:00:00");
    reveal_strlit("/StartBoundary>\n      ");
    reveal_strlit("Enabled>true");
    reveal_strlit("/Enabled>\n      ");
    reveal_strlit("Repetition>\n        ");
    reveal_strlit("Interval>PT");
    reveal_strlit("M");
    reveal_strlit("/Interval>\n        ");
    reveal_strlit("StopAtDurationEnd>false");
    reveal_strlit("/StopAtDurationEnd>\n      ");
    reveal_strlit("/Repetition>\n    ");
    reveal_strlit("/TimeTrigger>\n  ");
    assert(elements::plain("TimeTrigger>\n      "@));
    assert(elements::plain("StartBoundary>2020-01-01T00:00:00"@));
    assert(elements::plain("/StartBoundary>\n      "@));
    assert(elements::plain("Enabled>true"@));
    assert(elements::plain("/Enabled>\n      "@));
    assert(elements::plain("Repetition>\n        "@));
    assert(elements::plain("Interval>PT"@));
    assert(elements::plain("M"@));
    assert(elements::plain("/Interval>\n        "@));
    assert(elements::plain("StopAtDurationEnd>false"@));
    assert(elements::plain("/StopAtDurationEnd>\n      "@));
    assert(elements::plain("/Repetition>\n    "@));
    assert(elements::plain("/TimeTrigger>\n  "@));
    lemma_digits(schtasks::minutes_of(interval.secs) as nat);
    let g = schtasks::every_pieces(interval);
    assert(elements::plain(g[6]));
}

proof fn lemma_daily_plain(at: TimeOfDay)
    ensures
        elements::all_plain(schtasks::daily_pieces(at)),
{
    reveal_strlit("CalendarTrigger>\n      ");
    reveal_strlit("StartBoundary>");
    reveal_strlit("/StartBoundary>\n      ");
    reveal_strlit("Enabled>true");
    reveal_strlit("/Enabled>\n      ");
    reveal_strlit("ScheduleByDay>");
    reveal_strlit("DaysInterval>1");
    reveal_strlit("/DaysInterval>");
    reveal_strlit("/ScheduleByDay>\n    ");
    reveal_strlit("/CalendarTrigger>\n  ");
    assert(elements::plain("CalendarTrigger>\n      "@));
    assert(elements::plain("StartBoundary>"@));
    assert(elements::plain("/StartBoundary>\n      "@));
    assert(elements::plain("Enabled>true"@));
    assert(elements::plain("/Enabled>\n      "@));
    assert(elements::plain("ScheduleByDay>"@));
    assert(elements::plain("DaysInterval>1"@));
    assert(elements::plain("/DaysInterval>"@));
    assert(elements::plain("/ScheduleByDay>\n    "@));
    assert(elements::plain("/CalendarTrigger>\n  "@));
    lemma_boundary_plain(at);
    let g = schtasks::daily_pieces(at);
    assert(elements::plain(g[1]));
}

proof fn lemma_weekly_plain(day: Weekday, at: TimeOfDay)
    ensures
        elements::all_plain(schtasks::weekly_pieces(day, at)),
{
    reveal_strlit("CalendarTrigger>\n      ");
    reveal_strlit("StartBoundary>");
    reveal_strlit("/StartBoundary>\n      ");
    reveal_strlit("Enabled>true");
    reveal_strlit("/Enabled>\n      ");
    reveal_strlit("ScheduleByWeek>\n        ");
    reveal_strlit("DaysOfWeek>");
    reveal_strlit(" />");
    reveal_strlit("/DaysOfWeek>\n        ");
    reveal_strlit("WeeksInterval>1");
    reveal_strlit("/WeeksInterval>\n      ");
    reveal_strlit("/ScheduleByWeek>\n    ");
    reveal_strlit("/CalendarTrigger>\n  ");
    assert(elements::plain("CalendarTrigger>\n      "@));
    assert(elements::plain("StartBoundary>"@));
    assert(elements::plain("/StartBoundary>\n      "@));
    assert(elements::plain("Enabled>true"@));
    assert(elements::plain("/Enabled>\n      "@));
    assert(elements::plain("ScheduleByWeek>\n        "@));
    assert(elements::plain("DaysOfWeek>"@));
    assert(elements::plain(" />"@));
    assert(elements::plain("/DaysOfWeek>\n        "@));
    assert(elements::plain("WeeksInterval>1"@));
    assert(elements::plain("/WeeksInterval>\n      "@));
    assert(elements::plain("/ScheduleByWeek>\n    "@));
    assert(elements::plain("/CalendarTrigger>\n  "@));
    lemma_boundary_plain(at);
    lemma_day(day);
    let g = schtasks::weekly_pieces(day, at);
    assert(elements::plain(g[1]));
    assert(elements::plain(g[7]));
}

proof fn lemma_head_lacks(description: Seq<char>, m: Seq<char>)
    requires
        sought(m),
    ensures
        elements::none_begins(schtasks::head_pieces(description), m),
{
    reveal_strlit("?xml version=\"1.0\" encoding=\"UTF-16\"?>\n");
    reveal_strlit("Task version=\"1.2\" xmlns=\"http://schemas.microsoft.com/windows/2004/02/mit/task\">\n  ");
    reveal_strlit("RegistrationInfo>\n    ");
    reveal_strlit("Description>");
    reveal_strlit("/Description>\n  ");
    reveal_strlit("/RegistrationInfo>\n  ");
    reveal_strlit("Triggers>\n    ");
    let g = schtasks::head_pieces(description);
    lemma_lacks(g[0], m);
    lemma_lacks(g[1], m);
    lemma_lacks(g[2], m);
    lemma_lacks(g[3], m);
    lemma_lacks(g[4], m);
    lemma_lacks(g[5], m);
    lemma_lacks(g[6], m);
}

proof fn lemma_tail_lacks(job: Job<'_>, m: Seq<char>)
    requires
        sought(m),
    ensures
        elements::none_begins(schtasks::tail_pieces(job), m),
{
    reveal_strlit("/Triggers>\n  ");
    reveal_strlit("Principals>\n    ");
    reveal_strlit("Principal id=\"Author\">\n      ");
    reveal_strlit("LogonType>InteractiveToken");
    reveal_strlit("/LogonType>\n      ");
    reveal_strlit("RunLevel>LeastPrivilege");
    reveal_strlit("/RunLevel>\n    ");
    reveal_strlit("/Principal>\n  ");
    reveal_strlit("/Principals>\n  ");
    reveal_strlit("Settings>\n    ");
    reveal_strlit("DisallowStartIfOnBatteries>false");
    reveal_strlit("/DisallowStartIfOnBatteries>\n    ");
    reveal_strlit("StopIfGoingOnBatteries>false");
    reveal_strlit("/StopIfGoingOnBatteries>\n    ");
    reveal_strlit("StartWhenAvailable>true");
    reveal_strlit("/StartWhenAvailable>\n    ");
    reveal_strlit("MultipleInstancesPolicy>IgnoreNew");
    reveal_strlit("/MultipleInstancesPolicy>\n    ");
    reveal_strlit("ExecutionTimeLimit>PT2H");
    reveal_strlit("/ExecutionTimeLimit>\n    ");
    reveal_strlit("AllowHardTerminate>true");
    reveal_strlit("/AllowHardTerminate>\n    ");
    reveal_strlit("Enabled>true");
    reveal_strlit("/Enabled>\n    ");
    reveal_strlit("Hidden>false");
    reveal_strlit("/Hidden>\n    ");
    reveal_strlit("Priority>7");
    reveal_strlit("/Priority>\n  ");
    reveal_strlit("/Settings>\n  ");
    reveal_strlit("Actions Context=\"Author\">\n    ");
    reveal_strlit("Exec>\n      ");
    reveal_strlit("Command>cmd.exe");
    reveal_strlit("/Command>\n      ");
    reveal_strlit("Arguments>");
    reveal_strlit("/Arguments>\n    ");
    reveal_strlit("/Exec>\n  ");
    reveal_strlit("/Actions>\n");
    reveal_strlit("/Task>\n");
    let g = schtasks::tail_pieces(job);
    lemma_lacks(g[0], m);
    lemma_lacks(g[1], m);
    lemma_lacks(g[2], m);
    lemma_lacks(g[3], m);
    lemma_lacks(g[4], m);
    lemma_lacks(g[5], m);
    lemma_lacks(g[6], m);
    lemma_lacks(g[7], m);
    lemma_lacks(g[8], m);
    lemma_lacks(g[9], m);
    lemma_lacks(g[10], m);
    lemma_lacks(g[11], m);
    lemma_lacks(g[12], m);
    lemma_lacks(g[13], m);
    lemma_lacks(g[14], m);
    lemma_lacks(g[15], m);
    lemma_lacks(g[16], m);
    lemma_lacks(g[17], m);
    lemma_lacks(g[18], m);
    lemma_lacks(g[19], m);
    lemma_lacks(g[20], m);
    lemma_lacks(g[21], m);
    lemma_lacks(g[22], m);
    lemma_lacks(g[23], m);
    lemma_lacks(g[24], m);
    lemma_lacks(g[25], m);
    lemma_lacks(g[26], m);
    lemma_lacks(g[27], m);
    lemma_lacks(g[28], m);
    lemma_lacks(g[29], m);
    lemma_lacks(g[30], m);
    lemma_lacks(g[31], m);
    lemma_lacks(g[32], m);
    lemma_lacks(g[33], m);
    lemma_lacks(g[34], m);
    lemma_lacks(g[35], m);
    lemma_lacks(g[36], m);
    lemma_lacks(g[37], m);
}

proof fn lemma_digits(n: nat)
    ensures
        elements::plain(text::decimal_text(n)),
{
    text::lemma_decimal_digits(n);
}

proof fn lemma_boundary_plain(at: TimeOfDay)
    ensures
        elements::plain(schtasks::boundary_text(at)),
{
    reveal_strlit("2020-01-01T");
    reveal_strlit(":");
    reveal_strlit(":00");
    assert(elements::plain("2020-01-01T"@));
    schedule::lemma_two_digits(at.hour as nat);
    schedule::lemma_two_digits(at.minute as nat);
    let hour = schedule::two_digits(at.hour as nat);
    let minute = schedule::two_digits(at.minute as nat);
    assert(elements::plain(hour));
    assert(elements::plain(minute));
}

proof fn lemma_day(day: Weekday)
    ensures
        elements::plain(schtasks::day_text(day)),
        schtasks::day_text(day).len() >= 6,
        sought(schtasks::day_text(day) + " />"@),
{
    reveal_strlit("Sunday");
    reveal_strlit("Monday");
    reveal_strlit("Tuesday");
    reveal_strlit("Wednesday");
    reveal_strlit("Thursday");
    reveal_strlit("Friday");
    reveal_strlit("Saturday");
    reveal_strlit(" />");
    reveal_strlit("Sunday />");
    reveal_strlit("Monday />");
    reveal_strlit("Tuesday />");
    reveal_strlit("Wednesday />");
    reveal_strlit("Thursday />");
    reveal_strlit("Friday />");
    reveal_strlit("Saturday />");
    match day {
        Weekday::Sunday => {
            assert(schtasks::day_text(day) + " />"@ =~= "Sunday />"@);
        },
        Weekday::Monday => {
            assert(schtasks::day_text(day) + " />"@ =~= "Monday />"@);
        },
        Weekday::Tuesday => {
            assert(schtasks::day_text(day) + " />"@ =~= "Tuesday />"@);
        },
        Weekday::Wednesday => {
            assert(schtasks::day_text(day) + " />"@ =~= "Wednesday />"@);
        },
        Weekday::Thursday => {
            assert(schtasks::day_text(day) + " />"@ =~= "Thursday />"@);
        },
        Weekday::Friday => {
            assert(schtasks::day_text(day) + " />"@ =~= "Friday />"@);
        },
        Weekday::Saturday => {
            assert(schtasks::day_text(day) + " />"@ =~= "Saturday />"@);
        },
    }
}

/// The first closing behind a text that holds nothing of it.
proof fn lemma_close(inner: Seq<char>, close: Seq<char>, after: Seq<char>)
    requires
        close.len() > 0,
        forall|i: int| 0 <= i < inner.len() ==> #[trigger] inner[i] != close[0],
    ensures
        text::split_at_text(inner + close + after, close) == Some((inner, after)),
{
    let s = inner + close + after;
    let at = inner.len() as int;
    assert(s.subrange(at, at + close.len()) =~= close);
    assert forall|i: int| 0 <= i < at implies !text::occurs_at(s, close, i) by {
        if text::occurs_at(s, close, i) {
            assert(s.subrange(i, i + close.len())[0] == s[i]);
            assert(s[i] == inner[i]);
        }
    }
    text::lemma_text_position(s, close, at);
    assert(s.take(at) =~= inner);
    assert(s.skip(at + close.len()) =~= after);
}

/// The pieces of a whole definition, and that each of them is plain.
spec fn whole(description: Seq<char>, wanted: Schedule, job: Job<'_>) -> Seq<Seq<char>> {
    schtasks::head_pieces(description) + schtasks::trigger_pieces(wanted) + schtasks::tail_pieces(job)
}

proof fn lemma_whole_plain(description: Seq<char>, wanted: Schedule, job: Job<'_>)
    ensures
        elements::all_plain(whole(description, wanted, job)),
{
    lemma_head_plain(description);
    lemma_tail_plain(job);
    match wanted {
        Schedule::Every(interval) => lemma_every_plain(interval),
        Schedule::Daily { at } => lemma_daily_plain(at),
        Schedule::Weekly { day, at } => lemma_weekly_plain(day, at),
    }
    elements::lemma_plain_joins(
        schtasks::head_pieces(description),
        schtasks::trigger_pieces(wanted),
    );
    elements::lemma_plain_joins(
        schtasks::head_pieces(description) + schtasks::trigger_pieces(wanted),
        schtasks::tail_pieces(job),
    );
}

/// What no trigger piece begins with stands nowhere in a definition.
proof fn lemma_nowhere(description: Seq<char>, wanted: Schedule, job: Job<'_>, m: Seq<char>)
    requires
        sought(m),
        elements::none_begins(schtasks::trigger_pieces(wanted), m),
    ensures
        !text::contains_text(
            schtasks::document_text(description, schtasks::trigger_pieces(wanted), job),
            "<"@ + m,
        ),
        text::split_at_text(
            schtasks::document_text(description, schtasks::trigger_pieces(wanted), job),
            "<"@ + m,
        ) is None,
{
    lemma_sought(m);
    lemma_head_lacks(description, m);
    lemma_tail_lacks(job, m);
    lemma_whole_plain(description, wanted, job);
    let head = schtasks::head_pieces(description);
    let trigger = schtasks::trigger_pieces(wanted);
    elements::lemma_none_joins(head, trigger, m);
    elements::lemma_none_joins(head + trigger, schtasks::tail_pieces(job), m);
    elements::lemma_absent(whole(description, wanted, job), m);
}

/// What a trigger piece is the first to begin with is found there.
proof fn lemma_there(
    description: Seq<char>,
    wanted: Schedule,
    job: Job<'_>,
    m: Seq<char>,
    k: int,
)
    requires
        sought(m),
        0 <= k < schtasks::trigger_pieces(wanted).len(),
        elements::none_begins(schtasks::trigger_pieces(wanted).take(k), m),
        text::has_prefix(schtasks::trigger_pieces(wanted)[k], m),
    ensures
        text::contains_text(
            schtasks::document_text(description, schtasks::trigger_pieces(wanted), job),
            "<"@ + m,
        ),
        ({
            let trigger = schtasks::trigger_pieces(wanted);
            let split = text::split_at_text(
                schtasks::document_text(description, trigger, job),
                "<"@ + m,
            );
            split matches Some(parts) && parts.1 == trigger[k].skip(m.len() as int) + elements::marked(
                trigger.skip(k + 1) + schtasks::tail_pieces(job),
            )
        }),
{
    lemma_sought(m);
    lemma_head_lacks(description, m);
    lemma_whole_plain(description, wanted, job);
    let head = schtasks::head_pieces(description);
    let trigger = schtasks::trigger_pieces(wanted);
    let tail = schtasks::tail_pieces(job);
    let all = whole(description, wanted, job);
    let at = head.len() + k;
    elements::lemma_none_joins(head, trigger.take(k), m);
    assert(all.take(at) =~= head + trigger.take(k));
    assert(all[at] == trigger[k]);
    assert(all.skip(at + 1) =~= trigger.skip(k + 1) + tail);
    elements::lemma_found(all, at, m);
}

/// What stands between a piece's opening and its closing, which is the piece behind it.
proof fn lemma_inside(
    description: Seq<char>,
    wanted: Schedule,
    job: Job<'_>,
    m: Seq<char>,
    k: int,
    inner: Seq<char>,
    last: Seq<char>,
    closing: Seq<char>,
)
    requires
        sought(m),
        0 <= k < schtasks::trigger_pieces(wanted).len() - 1,
        elements::none_begins(schtasks::trigger_pieces(wanted).take(k), m),
        schtasks::trigger_pieces(wanted)[k] == m + inner + last,
        text::has_prefix(schtasks::trigger_pieces(wanted)[k + 1], closing),
        forall|i: int| 0 <= i < inner.len() ==> #[trigger] inner[i] != (last + "<"@ + closing)[0],
    ensures
        schtasks::enclosed(
            schtasks::document_text(description, schtasks::trigger_pieces(wanted), job),
            "<"@ + m,
            last + "<"@ + closing,
        ) == Some(inner),
{
    reveal_strlit("<");
    let trigger = schtasks::trigger_pieces(wanted);
    let tail = schtasks::tail_pieces(job);
    assert(trigger[k].take(m.len() as int) =~= m);
    lemma_there(description, wanted, job, m, k);
    let behind = trigger.skip(k + 1) + tail;
    elements::lemma_marked_front(behind);
    assert(behind[0] == trigger[k + 1]);
    let next = trigger[k + 1];
    let after = next.skip(closing.len() as int) + elements::marked(behind.skip(1));
    assert(next =~= next.take(closing.len() as int) + next.skip(closing.len() as int));
    let close = last + "<"@ + closing;
    assert(trigger[k].skip(m.len() as int) =~= inner + last);
    assert(trigger[k].skip(m.len() as int) + elements::marked(behind) =~= inner + close + after);
    lemma_close(inner, close, after);
}

proof fn lemma_every(description: Seq<char>, interval: Duration, job: Job<'_>)
    ensures
        schtasks::interval_minutes(
            schtasks::document_text(description, schtasks::every_pieces(interval), job),
        ) == Some(schtasks::minutes_of(interval.secs) as nat),
{
    reveal_strlit("TimeTrigger>\n      ");
    reveal_strlit("StartBoundary>2020-01-01T00:00:00");
    reveal_strlit("/StartBoundary>\n      ");
    reveal_strlit("Enabled>true");
    reveal_strlit("/Enabled>\n      ");
    reveal_strlit("Repetition>\n        ");
    reveal_strlit("Interval>PT");
    reveal_strlit("/Interval>\n        ");
    reveal_strlit("StopAtDurationEnd>false");
    reveal_strlit("/StopAtDurationEnd>\n      ");
    reveal_strlit("/Repetition>\n    ");
    reveal_strlit("/TimeTrigger>\n  ");
    reveal_strlit("LogonTrigger>");
    reveal_strlit("<");
    reveal_strlit("M</Interval>");
    reveal_strlit("<Interval>PT");
    reveal_strlit("<LogonTrigger>");
    reveal_strlit("M");
    reveal_strlit("/Interval>");
    let wanted = Schedule::Every(interval);
    let g = schtasks::every_pieces(interval);
    let minutes = schtasks::minutes_of(interval.secs) as nat;
    let inner = text::decimal_text(minutes);
    text::lemma_decimal_digits(minutes);
    let m = "Interval>PT"@;
    lemma_lacks(g[0], m);
    elements::lemma_differs(g[1], m, 0);
    lemma_lacks(g[2], m);
    lemma_lacks(g[3], m);
    lemma_lacks(g[4], m);
    lemma_lacks(g[5], m);
    assert(g[6] =~= m + inner + "M"@);
    assert("M"@ + "<"@ + "/Interval>"@ =~= "M</Interval>"@);
    assert("<"@ + m =~= "<Interval>PT"@);
    let closing = "/Interval>"@;
    assert(g[7].take(closing.len() as int) =~= closing);
    assert(elements::none_begins(g.take(6), m));
    assert forall|i: int| 0 <= i < inner.len() implies #[trigger] inner[i] != ("M"@ + "<"@
        + closing)[0] by {
        assert(text::is_digit(inner[i]));
    }
    lemma_inside(description, wanted, job, m, 6, inner, "M"@, closing);
    lemma_every_logon(description, interval, job);
    assert("<"@ + "LogonTrigger>"@ =~= "<LogonTrigger>"@);
    text::decimals_round_trip(minutes, u64::MAX as nat);
}

proof fn lemma_every_logon(description: Seq<char>, interval: Duration, job: Job<'_>)
    ensures
        !text::contains_text(
            schtasks::document_text(description, schtasks::every_pieces(interval), job),
            "<"@ + "LogonTrigger>"@,
        ),
{
    reveal_strlit("TimeTrigger>\n      ");
    reveal_strlit("StartBoundary>2020-01-01T00:00:00");
    reveal_strlit("/StartBoundary>\n      ");
    reveal_strlit("Enabled>true");
    reveal_strlit("/Enabled>\n      ");
    reveal_strlit("Repetition>\n        ");
    reveal_strlit("Interval>PT");
    reveal_strlit("/Interval>\n        ");
    reveal_strlit("StopAtDurationEnd>false");
    reveal_strlit("/StopAtDurationEnd>\n      ");
    reveal_strlit("/Repetition>\n    ");
    reveal_strlit("/TimeTrigger>\n  ");
    reveal_strlit("LogonTrigger>");
    let g = schtasks::every_pieces(interval);
    let m = "LogonTrigger>"@;
    lemma_lacks(g[0], m);
    elements::lemma_differs(g[1], m, 0);
    lemma_lacks(g[2], m);
    lemma_lacks(g[3], m);
    lemma_lacks(g[4], m);
    lemma_lacks(g[5], m);
    elements::lemma_differs(g[6], m, 0);
    lemma_lacks(g[7], m);
    lemma_lacks(g[8], m);
    lemma_lacks(g[9], m);
    lemma_lacks(g[10], m);
    lemma_lacks(g[11], m);
    lemma_nowhere(description, Schedule::Every(interval), job, m);
}

proof fn lemma_boundary_reads(at: TimeOfDay)
    ensures
        ({
            let halves = text::split(schtasks::boundary_text(at), 'T');
            let parts = text::split(halves[1], ':');
            &&& halves.len() >= 2
            &&& parts.len() >= 2
            &&& text::parsed_number(parts[0], 255) == Some(at.hour as nat)
            &&& text::parsed_number(parts[1], 255) == Some(at.minute as nat)
        }),
{
    reveal_strlit("2020-01-01T");
    reveal_strlit(":");
    reveal_strlit(":00");
    let hour = schedule::two_digits(at.hour as nat);
    let minute = schedule::two_digits(at.minute as nat);
    schedule::lemma_two_digits(at.hour as nat);
    schedule::lemma_two_digits(at.minute as nat);
    let s = schtasks::boundary_text(at);
    let time = hour + ":"@ + minute + ":00"@;
    assert(s =~= "2020-01-01T"@ + time);
    text::lemma_position(s, 'T', 10);
    assert(s.skip(11) =~= time);
    assert forall|i: int| 0 <= i < time.len() implies #[trigger] time[i] != 'T' by {
        if i < hour.len() {
            assert(text::is_digit(hour[i]));
        } else if hour.len() < i < hour.len() + 1 + minute.len() {
            assert(text::is_digit(minute[i - hour.len() - 1]));
        }
    }
    text::lemma_position(time, 'T', time.len() as int);
    assert(text::split(time, 'T') =~= seq![time]);
    assert(text::split(s, 'T') =~= seq![s.take(10)] + seq![time]);
    let h = hour.len() as int;
    assert forall|i: int| 0 <= i < h implies #[trigger] time[i] != ':' by {
        assert(text::is_digit(hour[i]));
    }
    text::lemma_position(time, ':', h);
    assert(time.take(h) =~= hour);
    let rest = minute + ":00"@;
    assert(time.skip(h + 1) =~= rest);
    let n = minute.len() as int;
    assert forall|i: int| 0 <= i < n implies #[trigger] rest[i] != ':' by {
        assert(text::is_digit(minute[i]));
    }
    text::lemma_position(rest, ':', n);
    assert(rest.take(n) =~= minute);
    text::lemma_split_nonempty(rest.skip(n + 1), ':');
    let parts = text::split(time, ':');
    assert(parts =~= seq![hour] + text::split(rest, ':'));
    assert(text::split(rest, ':') =~= seq![minute] + text::split(rest.skip(n + 1), ':'));
    assert(parts[0] == hour);
    assert(parts[1] == minute);
}

proof fn lemma_daily_time(description: Seq<char>, at: TimeOfDay, job: Job<'_>)
    ensures
        schtasks::interval_minutes(
            schtasks::document_text(description, schtasks::daily_pieces(at), job),
        ) is None,
        schtasks::boundary_time(
            schtasks::document_text(description, schtasks::daily_pieces(at), job),
        ) == Some(at),
{
    reveal_strlit("CalendarTrigger>\n      ");
    reveal_strlit("StartBoundary>");
    reveal_strlit("/StartBoundary>\n      ");
    reveal_strlit("Enabled>true");
    reveal_strlit("/Enabled>\n      ");
    reveal_strlit("ScheduleByDay>");
    reveal_strlit("DaysInterval>1");
    reveal_strlit("/DaysInterval>");
    reveal_strlit("/ScheduleByDay>\n    ");
    reveal_strlit("/CalendarTrigger>\n  ");
    reveal_strlit("Interval>PT");
    reveal_strlit("<");
    reveal_strlit("<Interval>PT");
    reveal_strlit("<StartBoundary>");
    reveal_strlit("</StartBoundary>");
    reveal_strlit("/StartBoundary>");
    reveal_strlit("");
    let wanted = Schedule::Daily { at };
    let g = schtasks::daily_pieces(at);
    let m = "Interval>PT"@;
    lemma_lacks(g[0], m);
    elements::lemma_differs(g[1], m, 0);
    lemma_lacks(g[2], m);
    lemma_lacks(g[3], m);
    lemma_lacks(g[4], m);
    elements::lemma_differs(g[5], m, 0);
    lemma_lacks(g[6], m);
    lemma_lacks(g[7], m);
    lemma_lacks(g[8], m);
    lemma_lacks(g[9], m);
    assert("<"@ + m =~= "<Interval>PT"@);
    lemma_nowhere(description, wanted, job, m);
    let m = "StartBoundary>"@;
    let inner = schtasks::boundary_text(at);
    lemma_lacks(g[0], m);
    assert(elements::none_begins(g.take(1), m));
    assert(g[1] =~= m + inner + ""@);
    let closing = "/StartBoundary>"@;
    assert(g[2].take(closing.len() as int) =~= closing);
    lemma_boundary_plain(at);
    assert((""@ + "<"@ + closing)[0] == '<');
    lemma_inside(description, wanted, job, m, 1, inner, ""@, closing);
    assert("<"@ + m =~= "<StartBoundary>"@);
    assert(""@ + "<"@ + closing =~= "</StartBoundary>"@);
    lemma_boundary_reads(at);
}

proof fn lemma_weekly_time(description: Seq<char>, day: Weekday, at: TimeOfDay, job: Job<'_>)
    ensures
        schtasks::interval_minutes(
            schtasks::document_text(description, schtasks::weekly_pieces(day, at), job),
        ) is None,
        schtasks::boundary_time(
            schtasks::document_text(description, schtasks::weekly_pieces(day, at), job),
        ) == Some(at),
{
    reveal_strlit("CalendarTrigger>\n      ");
    reveal_strlit("StartBoundary>");
    reveal_strlit("/StartBoundary>\n      ");
    reveal_strlit("Enabled>true");
    reveal_strlit("/Enabled>\n      ");
    reveal_strlit("ScheduleByWeek>\n        ");
    reveal_strlit("DaysOfWeek>");
    reveal_strlit(" />");
    reveal_strlit("/DaysOfWeek>\n        ");
    reveal_strlit("WeeksInterval>1");
    reveal_strlit("/WeeksInterval>\n      ");
    reveal_strlit("/ScheduleByWeek>\n    ");
    reveal_strlit("/CalendarTrigger>\n  ");
    reveal_strlit("Interval>PT");
    reveal_strlit("<");
    reveal_strlit("<Interval>PT");
    reveal_strlit("<StartBoundary>");
    reveal_strlit("</StartBoundary>");
    reveal_strlit("/StartBoundary>");
    reveal_strlit("");
    let wanted = Schedule::Weekly { day, at };
    let g = schtasks::weekly_pieces(day, at);
    let m = "Interval>PT"@;
    lemma_day(day);
    reveal_strlit("Sunday");
    reveal_strlit("Monday");
    reveal_strlit("Tuesday");
    reveal_strlit("Wednesday");
    reveal_strlit("Thursday");
    reveal_strlit("Friday");
    reveal_strlit("Saturday");
    lemma_lacks(g[0], m);
    elements::lemma_differs(g[1], m, 0);
    lemma_lacks(g[2], m);
    lemma_lacks(g[3], m);
    lemma_lacks(g[4], m);
    elements::lemma_differs(g[5], m, 0);
    lemma_lacks(g[6], m);
    elements::lemma_differs(g[7], m, 0);
    lemma_lacks(g[8], m);
    lemma_lacks(g[9], m);
    lemma_lacks(g[10], m);
    lemma_lacks(g[11], m);
    lemma_lacks(g[12], m);
    assert("<"@ + m =~= "<Interval>PT"@);
    lemma_nowhere(description, wanted, job, m);
    let m = "StartBoundary>"@;
    let inner = schtasks::boundary_text(at);
    lemma_lacks(g[0], m);
    assert(elements::none_begins(g.take(1), m));
    assert(g[1] =~= m + inner + ""@);
    let closing = "/StartBoundary>"@;
    assert(g[2].take(closing.len() as int) =~= closing);
    lemma_boundary_plain(at);
    assert((""@ + "<"@ + closing)[0] == '<');
    lemma_inside(description, wanted, job, m, 1, inner, ""@, closing);
    assert("<"@ + m =~= "<StartBoundary>"@);
    assert(""@ + "<"@ + closing =~= "</StartBoundary>"@);
    lemma_boundary_reads(at);
}

proof fn lemma_daily_kind(description: Seq<char>, at: TimeOfDay, job: Job<'_>)
    ensures
        !text::contains_text(
            schtasks::document_text(description, schtasks::daily_pieces(at), job),
            "<ScheduleByWeek>"@,
        ),
        text::contains_text(
            schtasks::document_text(description, schtasks::daily_pieces(at), job),
            "<ScheduleByDay>"@,
        ),
{
    reveal_strlit("CalendarTrigger>\n      ");
    reveal_strlit("StartBoundary>");
    reveal_strlit("/StartBoundary>\n      ");
    reveal_strlit("Enabled>true");
    reveal_strlit("/Enabled>\n      ");
    reveal_strlit("ScheduleByDay>");
    reveal_strlit("DaysInterval>1");
    reveal_strlit("/DaysInterval>");
    reveal_strlit("/ScheduleByDay>\n    ");
    reveal_strlit("/CalendarTrigger>\n  ");
    reveal_strlit("ScheduleByWeek>");
    reveal_strlit("<");
    reveal_strlit("<ScheduleByWeek>");
    reveal_strlit("<ScheduleByDay>");
    let wanted = Schedule::Daily { at };
    let g = schtasks::daily_pieces(at);
    let m = "ScheduleByWeek>"@;
    lemma_lacks(g[0], m);
    elements::lemma_differs(g[1], m, 1);
    lemma_lacks(g[2], m);
    lemma_lacks(g[3], m);
    lemma_lacks(g[4], m);
    elements::lemma_differs(g[5], m, 10);
    lemma_lacks(g[6], m);
    lemma_lacks(g[7], m);
    lemma_lacks(g[8], m);
    lemma_lacks(g[9], m);
    lemma_nowhere(description, wanted, job, m);
    assert("<"@ + m =~= "<ScheduleByWeek>"@);
    let m = "ScheduleByDay>"@;
    lemma_lacks(g[0], m);
    elements::lemma_differs(g[1], m, 1);
    lemma_lacks(g[2], m);
    lemma_lacks(g[3], m);
    lemma_lacks(g[4], m);
    assert(elements::none_begins(g.take(5), m));
    assert(g[5].take(m.len() as int) =~= m);
    lemma_there(description, wanted, job, m, 5);
    assert("<"@ + m =~= "<ScheduleByDay>"@);
}

proof fn lemma_weekly_kind(description: Seq<char>, day: Weekday, at: TimeOfDay, job: Job<'_>)
    ensures
        text::contains_text(
            schtasks::document_text(description, schtasks::weekly_pieces(day, at), job),
            "<ScheduleByWeek>"@,
        ),
{
    reveal_strlit("CalendarTrigger>\n      ");
    reveal_strlit("StartBoundary>");
    reveal_strlit("/StartBoundary>\n      ");
    reveal_strlit("Enabled>true");
    reveal_strlit("/Enabled>\n      ");
    reveal_strlit("ScheduleByWeek>\n        ");
    reveal_strlit("ScheduleByWeek>");
    reveal_strlit("<");
    reveal_strlit("<ScheduleByWeek>");
    let wanted = Schedule::Weekly { day, at };
    let g = schtasks::weekly_pieces(day, at);
    let m = "ScheduleByWeek>"@;
    lemma_lacks(g[0], m);
    elements::lemma_differs(g[1], m, 1);
    lemma_lacks(g[2], m);
    lemma_lacks(g[3], m);
    lemma_lacks(g[4], m);
    assert(elements::none_begins(g.take(5), m));
    assert(g[5].take(m.len() as int) =~= m);
    lemma_there(description, wanted, job, m, 5);
    assert("<"@ + m =~= "<ScheduleByWeek>"@);
}

/// A day is named exactly where it is the one that was written.
proof fn lemma_weekly_day(
    description: Seq<char>,
    day: Weekday,
    at: TimeOfDay,
    job: Job<'_>,
    other_day: Weekday,
)
    ensures
        schtasks::names_day(
            schtasks::document_text(description, schtasks::weekly_pieces(day, at), job),
            other_day,
        ) == (day == other_day),
{
    reveal_strlit("CalendarTrigger>\n      ");
    reveal_strlit("StartBoundary>");
    reveal_strlit("/StartBoundary>\n      ");
    reveal_strlit("Enabled>true");
    reveal_strlit("/Enabled>\n      ");
    reveal_strlit("ScheduleByWeek>\n        ");
    reveal_strlit("DaysOfWeek>");
    reveal_strlit(" />");
    reveal_strlit("/DaysOfWeek>\n        ");
    reveal_strlit("WeeksInterval>1");
    reveal_strlit("/WeeksInterval>\n      ");
    reveal_strlit("/ScheduleByWeek>\n    ");
    reveal_strlit("/CalendarTrigger>\n  ");
    reveal_strlit("Sunday");
    reveal_strlit("Monday");
    reveal_strlit("Tuesday");
    reveal_strlit("Wednesday");
    reveal_strlit("Thursday");
    reveal_strlit("Friday");
    reveal_strlit("Saturday");
    reveal_strlit("<");
    let wanted = Schedule::Weekly { day, at };
    let g = schtasks::weekly_pieces(day, at);
    let name = schtasks::day_text(other_day);
    let m = name + " />"@;
    lemma_day(other_day);
    lemma_day(day);
    assert("<"@ + m =~= "<"@ + name + " />"@);
    lemma_lacks(g[0], m);
    elements::lemma_differs(g[1], m, if m[0] == 'S' { 1 } else { 0 });
    lemma_lacks(g[2], m);
    lemma_lacks(g[3], m);
    lemma_lacks(g[4], m);
    elements::lemma_differs(g[5], m, if m[0] == 'S' { 1 } else { 0 });
    lemma_lacks(g[6], m);
    lemma_lacks(g[8], m);
    lemma_lacks(g[9], m);
    lemma_lacks(g[10], m);
    lemma_lacks(g[11], m);
    lemma_lacks(g[12], m);
    if day == other_day {
        assert(elements::none_begins(g.take(7), m));
        assert(g[7] =~= m);
        assert(g[7].take(m.len() as int) =~= m);
        lemma_there(description, wanted, job, m, 7);
    } else {
        let s = g[7];
        if text::has_prefix(s, m) {
            let lead = s.take(m.len() as int);
            assert(lead[0] == s[0]);
            assert(lead[1] == s[1]);
        }
        lemma_nowhere(description, wanted, job, m);
    }
}

/// A definition reads back as the schedule it was written from, in whole minutes. This is what
/// makes drift between the config and what is installed something that can be seen.
pub proof fn a_definition_reads_back(description: Seq<char>, wanted: Schedule, job: Job<'_>)
    ensures
        schtasks::countable(
            schtasks::document_text(description, schtasks::trigger_pieces(wanted), job),
        ),
        schtasks::schedule_in(
            schtasks::document_text(description, schtasks::trigger_pieces(wanted), job),
        ) == Some(in_minutes(wanted)),
{
    match wanted {
        Schedule::Every(interval) => {
            lemma_every(description, interval, job);
        },
        Schedule::Daily { at } => {
            lemma_daily_time(description, at, job);
            lemma_daily_kind(description, at, job);
        },
        Schedule::Weekly { day, at } => {
            lemma_weekly_time(description, day, at, job);
            lemma_weekly_kind(description, day, at, job);
            lemma_weekly_day(description, day, at, job, Weekday::Sunday);
            lemma_weekly_day(description, day, at, job, Weekday::Monday);
            lemma_weekly_day(description, day, at, job, Weekday::Tuesday);
            lemma_weekly_day(description, day, at, job, Weekday::Wednesday);
            lemma_weekly_day(description, day, at, job, Weekday::Thursday);
            lemma_weekly_day(description, day, at, job, Weekday::Friday);
            lemma_weekly_day(description, day, at, job, Weekday::Saturday);
        },
    }
}

/// A schedule of whole minutes reads back as itself.
pub proof fn whole_minutes_read_back_exactly(wanted: Schedule)
    requires
        wanted matches Schedule::Every(interval) ==> interval.secs >= 60 && interval.secs % 60 == 0,
    ensures
        in_minutes(wanted) == wanted,
{
}

} // verus!
