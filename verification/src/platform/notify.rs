//! Desktop notifications: one of the four channels behind "failure is loud", and the
//! only one whose delivery depends on an authorisation that can silently be off.
//!
//! **A CLI has no notification identity of its own**, on any platform. macOS wants an
//! installed app bundle and Windows wants a registered `AppUserModelID`; a binary in
//! `~/.cargo/bin` has neither. The pattern that works on both is the same: shell out
//! to the platform's scripting host and borrow its identity.
//!
//! On macOS that is `osascript`, so the banner is attributed to Script Editor and its
//! delivery depends on Script Editor's own notification permission. On Windows it is
//! `powershell.exe`, whose AUMID the toast is raised under. `doctor` reports the borrowed
//! identity rather than hiding it.
//!
//! This is why the notification is explicitly the **convenience**, not the contract.
//! The non-zero exit code, the red `status` line and the state-file record are what
//! actually carry a failure.

use crate::platform::launchd;
use crate::platform::Host;
use crate::process;
use crate::process::{command, Call, Output, RunError, Timeout};
use crate::text;
use crate::text::{cat3, chars_of};
use vstd::prelude::*;

verus! {

#[derive(Debug, PartialEq, Eq)]
pub enum NotifyError {
    Run(RunError),
    Rejected(String, String),
    /// Not an error the caller should treat as a failure - it means the platform's
    /// arm is not written yet. A typed variant rather than a silent `Ok(())`, so a
    /// future platform finds a failing call rather than a lie.
    Unsupported,
}

impl NotifyError {
    pub open spec fn message(self) -> Seq<char> {
        match self {
            NotifyError::Run(e) => e.message@,
            NotifyError::Rejected(who, why) => who@ + " rejected the notification: "@ + why@,
            NotifyError::Unsupported =>
                "desktop notifications are not implemented for this platform yet"@,
        }
    }

    pub fn text(&self) -> (out: String)
        ensures
            out@ == self.message(),
    {
        match self {
            NotifyError::Run(e) => e.message.clone(),
            NotifyError::Rejected(who, why) => cat3(who, " rejected the notification: ", why),
            NotifyError::Unsupported => {
                "desktop notifications are not implemented for this platform yet".to_owned()
            },
        }
    }
}

/// How loud a notification is. macOS has no severity on a banner, so this only
/// decides the wording - which is the honest place for it, since a person reading a
/// banner reads words, not a level.
#[derive(Clone, Copy, Debug, PartialEq, Eq, Structural)]
pub enum Urgency {
    Failure,
    Warning,
    Info,
}

impl Urgency {
    pub open spec fn title_text(self) -> Seq<char> {
        match self {
            Urgency::Failure => "Tycho: backup failed"@,
            Urgency::Warning => "Tycho: needs attention"@,
            Urgency::Info => "Tycho"@,
        }
    }

    #[must_use]
    pub fn title(self) -> (out: &'static str)
        ensures
            out@ == self.title_text(),
    {
        match self {
            Urgency::Failure => "Tycho: backup failed",
            Urgency::Warning => "Tycho: needs attention",
            Urgency::Info => "Tycho",
        }
    }
}

// ---------------------------------------------------------------------------
// Escaping
// ---------------------------------------------------------------------------

/// What stands for a character in an AppleScript literal.
pub open spec fn applescript_char(c: char) -> Seq<char> {
    if c == '\\' {
        "\\\\"@
    } else if c == '"' {
        "\\\""@
    } else {
        seq![c]
    }
}

pub open spec fn applescript_escaped(s: Seq<char>) -> Seq<char> {
    text::each(s, |c: char| applescript_char(c))
}

/// AppleScript string literals take backslash and double-quote escapes and nothing
/// else, so a message carrying either would end the literal early and turn the rest
/// into script. Every body is Tycho's own text, but a remote name or a path reaches
/// it, and those are not.
#[must_use]
pub fn applescript_literal(text: &str) -> (out: String)
    ensures
        out@ == applescript_escaped(text@),
{
    let cs = chars_of(text);
    let ghost f = |c: char| applescript_char(c);
    let mut out = String::new();
    let mut i: usize = 0;
    assert(out@ =~= text::each(cs@.take(0), f));
    while i < cs.len()
        invariant
            i <= cs@.len(),
            cs@ == text@,
            f == (|c: char| applescript_char(c)),
            out@ == text::each(cs@.take(i as int), f),
        decreases cs@.len() - i,
    {
        let c = cs[i];
        proof {
            assert(cs@.take(i + 1).drop_last() =~= cs@.take(i as int));
            assert(cs@.take(i + 1).last() == c);
        }
        let ghost before = out@;
        if c == '\\' {
            out.append("\\\\");
        } else if c == '"' {
            out.append("\\\"");
        } else {
            out.push(c);
            assert(out@ =~= before + seq![c]);
        }
        i += 1;
    }
    assert(cs@.take(i as int) =~= text@);
    out
}

/// What stands for a character in a single-quoted PowerShell literal.
pub open spec fn doubled_char(c: char) -> Seq<char> {
    if c == '\'' {
        "''"@
    } else {
        seq![c]
    }
}

pub open spec fn quote_doubled(s: Seq<char>) -> Seq<char> {
    text::each(s, |c: char| doubled_char(c))
}

/// A single-quoted PowerShell string ends at the next `'`, and doubling is the only
/// escape it has.
#[must_use]
pub fn powershell_literal(text: &str) -> (out: String)
    ensures
        out@ == quote_doubled(text@),
{
    let cs = chars_of(text);
    let ghost f = |c: char| doubled_char(c);
    let mut out = String::new();
    let mut i: usize = 0;
    assert(out@ =~= text::each(cs@.take(0), f));
    while i < cs.len()
        invariant
            i <= cs@.len(),
            cs@ == text@,
            f == (|c: char| doubled_char(c)),
            out@ == text::each(cs@.take(i as int), f),
        decreases cs@.len() - i,
    {
        let c = cs[i];
        proof {
            assert(cs@.take(i + 1).drop_last() =~= cs@.take(i as int));
            assert(cs@.take(i + 1).last() == c);
        }
        let ghost before = out@;
        if c == '\'' {
            out.append("''");
        } else {
            out.push(c);
            assert(out@ =~= before + seq![c]);
        }
        i += 1;
    }
    assert(cs@.take(i as int) =~= text@);
    out
}

/// What stands for a character in a toast.
pub open spec fn xml_char(c: char) -> Seq<char> {
    if c < ' ' && c != '\t' && c != '\n' && c != '\r' {
        seq![' ']
    } else {
        launchd::entity(c)
    }
}

pub open spec fn xml_escaped(s: Seq<char>) -> Seq<char> {
    text::each(s, |c: char| xml_char(c))
}

/// The five characters XML gives meaning to, plus the control characters XML 1.0
/// cannot carry at all - a `\u{1}` in a remote name would otherwise make the document
/// unparsable rather than making the banner look odd.
#[must_use]
pub fn xml_escape(text: &str) -> (out: String)
    ensures
        out@ == xml_escaped(text@),
{
    let cs = chars_of(text);
    let ghost f = |c: char| xml_char(c);
    let mut out = String::new();
    let mut i: usize = 0;
    assert(out@ =~= text::each(cs@.take(0), f));
    while i < cs.len()
        invariant
            i <= cs@.len(),
            cs@ == text@,
            f == (|c: char| xml_char(c)),
            out@ == text::each(cs@.take(i as int), f),
        decreases cs@.len() - i,
    {
        let c = cs[i];
        proof {
            assert(cs@.take(i + 1).drop_last() =~= cs@.take(i as int));
            assert(cs@.take(i + 1).last() == c);
        }
        let ghost before = out@;
        match c {
            '&' => out.append("&amp;"),
            '<' => out.append("&lt;"),
            '>' => out.append("&gt;"),
            '"' => out.append("&quot;"),
            '\'' => out.append("&apos;"),
            _ => {
                if c < ' ' && c != '\t' && c != '\n' && c != '\r' {
                    out.push(' ');
                    assert(out@ =~= before + seq![' ']);
                } else {
                    out.push(c);
                    assert(out@ =~= before + seq![c]);
                }
            },
        }
        i += 1;
    }
    assert(cs@.take(i as int) =~= text@);
    out
}

// ---------------------------------------------------------------------------
// Sending
// ---------------------------------------------------------------------------

/// Windows PowerShell's own `AppUserModelID`, which is what the toast is attributed
/// to and whose notification setting decides whether it is shown.
///
/// `powershell.exe` and not `pwsh`: the projection these types need is in
/// Windows PowerShell 5.1, and PowerShell 7 reaches it only through a compatibility
/// shim that is not installed by default.
pub const POWERSHELL_AUMID: &'static str = "{1AC14E77-02E7-4E5D-B744-2EB1AE5198B7}\\WindowsPowerShell\\v1.0\\powershell.exe";

pub open spec fn toast_text(title: Seq<char>, body: Seq<char>) -> Seq<char> {
    "<toast><visual><binding template=\"ToastText02\"><text id=\"1\">"@
        + xml_escaped(title)
        + "</text><text id=\"2\">"@
        + xml_escaped(body)
        + "</text></binding></visual></toast>"@
}

fn toast(title: &str, body: &str) -> (out: String)
    ensures
        out@ == toast_text(title@, body@),
{
    let mut out = "<toast><visual><binding template=\"ToastText02\"><text id=\"1\">".to_owned();
    out.append(&xml_escape(title));
    out.append("</text><text id=\"2\">");
    out.append(&xml_escape(body));
    out.append("</text></binding></visual></toast>");
    out
}

/// The script that raises the toast.
///
/// The text crosses two parsers on its way in, so it is escaped for both: XML,
/// because it becomes element content, and PowerShell, because the XML then sits in a
/// single-quoted literal. Escaping for one and not the other is how a remote named
/// `it's` or a path holding `&` would turn the document into a syntax error - or
/// worse, into script.
pub open spec fn toast_script_text(title: Seq<char>, body: Seq<char>) -> Seq<char> {
    "$ErrorActionPreference = 'Stop'\n[Windows.UI.Notifications.ToastNotificationManager, Windows.UI.Notifications, ContentType = WindowsRuntime] | Out-Null\n$xml = [Windows.Data.Xml.Dom.XmlDocument, Windows.Data.Xml.Dom.XmlDocument, ContentType = WindowsRuntime]::new()\n$xml.LoadXml('"@
        + quote_doubled(toast_text(title, body))
        + "')\n$toast = [Windows.UI.Notifications.ToastNotification]::new($xml)\n[Windows.UI.Notifications.ToastNotificationManager]::CreateToastNotifier('"@
        + POWERSHELL_AUMID@
        + "').Show($toast)\n"@
}

#[must_use]
pub fn toast_script(title: &str, body: &str) -> (out: String)
    ensures
        out@ == toast_script_text(title@, body@),
{
    let mut out = "$ErrorActionPreference = 'Stop'\n[Windows.UI.Notifications.ToastNotificationManager, Windows.UI.Notifications, ContentType = WindowsRuntime] | Out-Null\n$xml = [Windows.Data.Xml.Dom.XmlDocument, Windows.Data.Xml.Dom.XmlDocument, ContentType = WindowsRuntime]::new()\n$xml.LoadXml('".to_owned();
    out.append(&powershell_literal(&toast(title, body)));
    out.append("')\n$toast = [Windows.UI.Notifications.ToastNotification]::new($xml)\n[Windows.UI.Notifications.ToastNotificationManager]::CreateToastNotifier('");
    out.append(POWERSHELL_AUMID);
    out.append("').Show($toast)\n");
    out
}

/// The AppleScript that raises a banner.
pub open spec fn banner_text(urgency: Urgency, body: Seq<char>) -> Seq<char> {
    "display notification \""@
        + applescript_escaped(body)
        + "\" with title \""@
        + applescript_escaped(urgency.title_text())
        + "\""@
}

fn banner(urgency: Urgency, body: &str) -> (out: String)
    ensures
        out@ == banner_text(urgency, body@),
{
    let mut out = "display notification \"".to_owned();
    out.append(&applescript_literal(body));
    out.append("\" with title \"");
    out.append(&applescript_literal(urgency.title()));
    out.append("\"");
    out
}

/// The call that sends one notification, where the platform has a way to.
pub fn notify(host: Host, urgency: Urgency, body: &str) -> (out: Result<Call, NotifyError>)
    ensures
        match host {
            Host::MacOs => out matches Ok(call) && call@ == process::program_call(
                "osascript"@,
                seq!["-e"@, banner_text(urgency, body@)],
                Timeout::Interpreter,
            ),
            Host::Windows => out matches Ok(call) && call@ == process::program_call(
                "powershell"@,
                seq![
                    "-NoProfile"@,
                    "-NonInteractive"@,
                    "-Command"@,
                    toast_script_text(urgency.title_text(), body@),
                ],
                Timeout::Interpreter,
            ),
            Host::Other => out == Err::<Call, NotifyError>(NotifyError::Unsupported),
        },
{
    match host {
        Host::MacOs => {
            let script = banner(urgency, body);
            let args: Vec<&str> = vec!["-e", script.as_str()];
            assert(process::str_views(args@) =~= seq!["-e"@, banner_text(urgency, body@)]);
            Ok(command("osascript", args, Timeout::Interpreter))
        },
        Host::Windows => {
            let script = toast_script(urgency.title(), body);
            let args: Vec<&str> = vec![
                "-NoProfile",
                "-NonInteractive",
                "-Command",
                script.as_str(),
            ];
            assert(process::str_views(args@) =~= seq![
                "-NoProfile"@,
                "-NonInteractive"@,
                "-Command"@,
                toast_script_text(urgency.title_text(), body@),
            ]);
            Ok(command("powershell", args, Timeout::Interpreter))
        },
        Host::Other => Err(NotifyError::Unsupported),
    }
}

/// What the call of [`notify`] came to. **Callers should not fail a run
/// over this**: a machine in a Focus mode suppresses delivery, which is expected.
///
/// # Errors
///
/// If the scripting host could not be run or refused.
pub fn notified(host: Host, out: Result<Output, RunError>) -> (got: Result<(), NotifyError>)
    ensures
        match (host, out) {
            (Host::Other, _) => got == Err::<(), NotifyError>(NotifyError::Unsupported),
            (_, Err(e)) => got == Err::<(), NotifyError>(NotifyError::Run(e)),
            (_, Ok(o)) => if o.success {
                got is Ok
            } else {
                got matches Err(NotifyError::Rejected(who, why)) && who@ == (if host
                    == Host::MacOs {
                    "osascript"@
                } else {
                    "powershell"@
                }) && why@ == o.complaint()
            },
        },
{
    let who = match host {
        Host::MacOs => "osascript",
        Host::Windows => "powershell",
        Host::Other => return Err(NotifyError::Unsupported),
    };
    match out {
        Err(e) => Err(NotifyError::Run(e)),
        Ok(out) => {
            if out.success {
                return Ok(());
            }
            Err(NotifyError::Rejected(who.to_owned(), out.error_text()))
        },
    }
}

/// The call that says whether the mechanism is present at all, for `doctor`'s row.
///
/// Deliberately **not** a delivery test: sending a notification to find out whether
/// notifications work is a side effect nobody asked a health check for. `doctor
/// --deep` sends one, and says so.
#[must_use]
pub fn available(host: Host) -> (out: Option<Call>)
    ensures
        match host {
            Host::MacOs => out matches Some(call) && call@ == process::program_call(
                "osascript"@,
                seq!["-e"@, "return 1"@],
                Timeout::Interpreter,
            ),
            Host::Windows => out matches Some(call) && call@ == process::program_call(
                "powershell"@,
                seq!["-NoProfile"@, "-NonInteractive"@, "-Command"@, "exit 0"@],
                Timeout::Interpreter,
            ),
            Host::Other => out is None,
        },
{
    match host {
        Host::MacOs => {
            let args: Vec<&str> = vec!["-e", "return 1"];
            assert(process::str_views(args@) =~= seq!["-e"@, "return 1"@]);
            Some(command("osascript", args, Timeout::Interpreter))
        },
        Host::Windows => {
            let args: Vec<&str> = vec!["-NoProfile", "-NonInteractive", "-Command", "exit 0"];
            assert(process::str_views(args@) =~= seq![
                "-NoProfile"@,
                "-NonInteractive"@,
                "-Command"@,
                "exit 0"@,
            ]);
            Some(command("powershell", args, Timeout::Interpreter))
        },
        Host::Other => None,
    }
}

// ---------------------------------------------------------------------------
// Laws
// ---------------------------------------------------------------------------

/// Whether an AppleScript literal that begins with these characters is still open behind them:
/// a backslash takes the character behind it along, and a quote by itself ends the literal.
pub open spec fn still_open(s: Seq<char>) -> bool
    decreases s.len(),
{
    if s.len() == 0 {
        true
    } else if s[0] == '\\' {
        s.len() >= 2 && still_open(s.skip(2))
    } else {
        s[0] != '"' && still_open(s.skip(1))
    }
}

proof fn lemma_each_front(c: char, rest: Seq<char>, f: spec_fn(char) -> Seq<char>)
    ensures
        text::each(seq![c] + rest, f) == f(c) + text::each(rest, f),
    decreases rest.len(),
{
    let all = seq![c] + rest;
    if rest.len() == 0 {
        assert(all.drop_last() =~= Seq::<char>::empty());
        assert(all.last() == c);
        assert(text::each(all.drop_last(), f) =~= Seq::<char>::empty());
        assert(Seq::<char>::empty() + f(c) =~= f(c) + text::each(rest, f));
    } else {
        assert(all.drop_last() =~= seq![c] + rest.drop_last());
        assert(all.last() == rest.last());
        lemma_each_front(c, rest.drop_last(), f);
        let a = f(c);
        let b = text::each(rest.drop_last(), f);
        let d = f(rest.last());
        assert(a + b + d =~= a + (b + d));
    }
}

/// No text can end the AppleScript literal it stands in.
pub proof fn a_banner_stays_inside_its_literal(s: Seq<char>)
    ensures
        still_open(applescript_escaped(s)),
    decreases s.len(),
{
    reveal_strlit("\\\\");
    reveal_strlit("\\\"");
    if s.len() > 0 {
        let f = |c: char| applescript_char(c);
        let rest = s.skip(1);
        a_banner_stays_inside_its_literal(rest);
        assert(s =~= seq![s[0]] + rest);
        lemma_each_front(s[0], rest, f);
        let whole = applescript_escaped(s);
        let head = applescript_char(s[0]);
        assert(whole == head + applescript_escaped(rest));
        if head.len() == 2 {
            assert(whole[0] == '\\');
            assert(whole.skip(2) =~= applescript_escaped(rest));
        } else {
            assert(whole[0] == s[0]);
            assert(whole.skip(1) =~= applescript_escaped(rest));
        }
    } else {
        assert(applescript_escaped(s) =~= Seq::<char>::empty());
    }
}

/// Whether a single-quoted PowerShell literal that begins with these characters is still open
/// behind them: a quote is taken along only by another.
pub open spec fn quotes_paired(s: Seq<char>) -> bool
    decreases s.len(),
{
    if s.len() == 0 {
        true
    } else if s[0] == '\'' {
        s.len() >= 2 && s[1] == '\'' && quotes_paired(s.skip(2))
    } else {
        quotes_paired(s.skip(1))
    }
}

/// No text can end the PowerShell literal it stands in.
pub proof fn a_toast_stays_inside_its_literal(s: Seq<char>)
    ensures
        quotes_paired(quote_doubled(s)),
    decreases s.len(),
{
    reveal_strlit("''");
    if s.len() > 0 {
        let f = |c: char| doubled_char(c);
        let rest = s.skip(1);
        a_toast_stays_inside_its_literal(rest);
        assert(s =~= seq![s[0]] + rest);
        lemma_each_front(s[0], rest, f);
        let whole = quote_doubled(s);
        let head = doubled_char(s[0]);
        assert(whole == head + quote_doubled(rest));
        if head.len() == 2 {
            assert(whole[0] == '\'' && whole[1] == '\'');
            assert(whole.skip(2) =~= quote_doubled(rest));
        } else {
            assert(whole[0] == s[0]);
            assert(whole.skip(1) =~= quote_doubled(rest));
        }
    } else {
        assert(quote_doubled(s) =~= Seq::<char>::empty());
    }
}

/// Each urgency says something different: a banner is read as words, not as a level.
pub proof fn titles_are_distinct(a: Urgency, b: Urgency)
    requires
        a.title_text() == b.title_text(),
    ensures
        a == b,
{
    reveal_strlit("Tycho: backup failed");
    reveal_strlit("Tycho: needs attention");
    reveal_strlit("Tycho");
    assert(Urgency::Failure.title_text().len() == 20);
    assert(Urgency::Warning.title_text().len() == 22);
    assert(Urgency::Info.title_text().len() == 5);
}

} // verus!
