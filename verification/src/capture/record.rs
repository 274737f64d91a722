//! `REPO.txt`: one screen of plain text that says where a captured repository came from.
//!
//! **This is the only record of which branch was checked out that survives reaching a
//! remote.** The obvious alternative - a symref under `refs/tycho/<key>/` - does not
//! work, because push and fetch carry a symref's resolved value and drop its symbolic
//! nature, so the branch *name* would never leave the machine. A restore reads from a
//! remote, so it reads this.

use crate::capture;
use crate::capture::Inspection;
use crate::config::moment;
use crate::config::moment::{clock_text, now_nanos};
use crate::config::rules::Path;
use crate::lines;
use crate::lines::{first_word, split_once_white, trim};
use crate::plan;
use crate::plan::{HeadView, RepoHead};
use crate::primitives::path::AbsPath;
use crate::process;
use crate::process::{git, Call, Output, RunError, Timeout};
use crate::text;
use crate::text::{cat2, cat3, chars_of, decimal, join_text, number, same, split_once_text};
use vstd::prelude::*;

verus! {

/// What a captured repository's `REPO.txt` records, read back.
#[derive(Debug, PartialEq, Eq)]
pub struct Recorded {
    /// What to check out. `None` for a repository that had no commits.
    pub head: Option<String>,
    pub stashes: usize,
    pub origin: Option<String>,
    pub path: Option<String>,
}

/// What a record says.
#[verifier::ext_equal]
pub struct RecordedView {
    pub head: Option<Seq<char>>,
    pub stashes: nat,
    pub origin: Option<Seq<char>>,
    pub path: Option<Seq<char>>,
}

impl View for Recorded {
    type V = RecordedView;

    open spec fn view(&self) -> RecordedView {
        RecordedView {
            head: text::view_opt(self.head),
            stashes: self.stashes as nat,
            origin: text::view_opt(self.origin),
            path: text::view_opt(self.path),
        }
    }
}

impl RecordedView {
    pub open spec fn nothing() -> RecordedView {
        RecordedView { head: None, stashes: 0, origin: None, path: None }
    }
}

impl Default for Recorded {
    fn default() -> (out: Self)
        ensures
            out@ == RecordedView::nothing(),
    {
        Recorded { head: None, stashes: 0, origin: None, path: None }
    }
}

// ---------------------------------------------------------------------------
// Writing
// ---------------------------------------------------------------------------

/// The calls whose output a record is made of: the origin, the branches, the tags and the
/// stash.
pub fn record_calls(source: &AbsPath) -> (out: Vec<Call>)
    ensures
        process::call_views(out@) == seq![
            process::git_call(
                Some(source@),
                seq!["config"@, "--get"@, "remote.origin.url"@],
                Timeout::Quick,
            ),
            process::git_call(
                Some(source@),
                seq!["for-each-ref"@, "--format=%(refname:short)"@, "refs/heads"@],
                Timeout::Quick,
            ),
            process::git_call(
                Some(source@),
                seq!["for-each-ref"@, "--format=%(refname:short)"@, "refs/tags"@],
                Timeout::Quick,
            ),
            process::git_call(Some(source@), seq!["stash"@, "list"@], Timeout::Quick),
        ],
{
    let origin: Vec<&str> = vec!["config", "--get", "remote.origin.url"];
    let branches: Vec<&str> = vec!["for-each-ref", "--format=%(refname:short)", "refs/heads"];
    let tags: Vec<&str> = vec!["for-each-ref", "--format=%(refname:short)", "refs/tags"];
    let stash: Vec<&str> = vec!["stash", "list"];
    proof {
        assert(process::str_views(origin@) =~= seq![
            "config"@,
            "--get"@,
            "remote.origin.url"@,
        ]);
        assert(process::str_views(branches@) =~= seq![
            "for-each-ref"@,
            "--format=%(refname:short)"@,
            "refs/heads"@,
        ]);
        assert(process::str_views(tags@) =~= seq![
            "for-each-ref"@,
            "--format=%(refname:short)"@,
            "refs/tags"@,
        ]);
        assert(process::str_views(stash@) =~= seq!["stash"@, "list"@]);
    }
    let out: Vec<Call> = vec![
        git(Some(source), origin, Timeout::Quick),
        git(Some(source), branches, Timeout::Quick),
        git(Some(source), tags, Timeout::Quick),
        git(Some(source), stash, Timeout::Quick),
    ];
    assert(process::call_views(out@) =~= seq![
        process::git_call(
            Some(source@),
            seq!["config"@, "--get"@, "remote.origin.url"@],
            Timeout::Quick,
        ),
        process::git_call(
            Some(source@),
            seq!["for-each-ref"@, "--format=%(refname:short)"@, "refs/heads"@],
            Timeout::Quick,
        ),
        process::git_call(
            Some(source@),
            seq!["for-each-ref"@, "--format=%(refname:short)"@, "refs/tags"@],
            Timeout::Quick,
        ),
        process::git_call(Some(source@), seq!["stash"@, "list"@], Timeout::Quick),
    ]);
    out
}

/// What those calls came to.
#[derive(Debug)]
pub struct Fields {
    pub origin: Result<Output, RunError>,
    pub branches: Result<Output, RunError>,
    pub tags: Result<Output, RunError>,
    pub stash: Result<Output, RunError>,
}

/// What a call printed, or nothing where it failed.
pub open spec fn field_text(out: Result<Output, RunError>) -> Seq<char> {
    match out {
        Ok(o) => if o.success {
            lines::trimmed(o.shown())
        } else {
            Seq::empty()
        },
        Err(_) => Seq::empty(),
    }
}

/// The first `n` lines, trimmed, leaving out those with nothing on them.
pub open spec fn listed(printed: Seq<Seq<char>>, n: int) -> Seq<Seq<char>>
    decreases n,
{
    if n <= 0 {
        Seq::empty()
    } else if lines::trimmed(printed[n - 1]).len() > 0 {
        listed(printed, n - 1).push(lines::trimmed(printed[n - 1]))
    } else {
        listed(printed, n - 1)
    }
}

/// A list of names on one line.
pub open spec fn list_text(out: Result<Output, RunError>) -> Seq<char> {
    let printed = lines::lines_of(field_text(out));
    let names = listed(printed, printed.len() as int);
    if names.len() == 0 {
        "none"@
    } else {
        text::join(names, ", "@)
    }
}

/// How many of the first `n` lines have something on them.
pub open spec fn filled_lines(printed: Seq<Seq<char>>, n: int) -> nat
    decreases n,
{
    if n <= 0 {
        0
    } else {
        filled_lines(printed, n - 1) + if printed[n - 1].len() > 0 {
            1nat
        } else {
            0
        }
    }
}

pub open spec fn stash_count(out: Result<Output, RunError>) -> nat {
    let printed = lines::lines_of(field_text(out));
    filled_lines(printed, printed.len() as int)
}

/// A head as a record shows it.
pub open spec fn head_text(head: HeadView) -> Seq<char> {
    match head {
        HeadView::Branch { name, sha } => name + " @ "@ + sha.hex().take(7),
        HeadView::Detached { sha } => "detached"@ + " @ "@ + sha.hex().take(7),
        HeadView::Unborn => "unborn"@,
    }
}

/// What a record is made of, each value as it is shown.
pub struct RecordText {
    pub origin: Seq<char>,
    pub path: Seq<char>,
    pub head: Seq<char>,
    pub state: Seq<char>,
    pub branches: Seq<char>,
    pub tags: Seq<char>,
    pub stashes: nat,
    pub seen: Seq<char>,
}

/// A line of a record.
pub open spec fn labelled(label: Seq<char>, value: Seq<char>) -> Seq<char> {
    label + value + "\n"@
}

impl RecordText {
    /// The text of a record.
    pub open spec fn written(self) -> Seq<char> {
        labelled("origin    "@, self.origin) + (labelled("path      "@, self.path) + (labelled(
            "head      "@,
            self.head,
        ) + (labelled("state     "@, self.state) + (labelled("branches  "@, self.branches) + (
        labelled("tags      "@, self.tags) + (labelled(
            "stash     "@,
            text::decimal_text(self.stashes) + " entries"@,
        ) + labelled("seen      "@, self.seen)))))))
    }
}

/// What a record says of a repository, at the time `seen` tells.
pub open spec fn record_of(
    fields: Fields,
    inspection: Inspection,
    source: Path,
    seen: Seq<char>,
) -> RecordText {
    let origin = field_text(fields.origin);
    RecordText {
        origin: if origin.len() == 0 {
            "none"@
        } else {
            origin
        },
        path: plan::shown(source),
        head: head_text(inspection.head@),
        state: capture::state_text(inspection.modified as nat, inspection.untracked as nat),
        branches: list_text(fields.branches),
        tags: list_text(fields.tags),
        stashes: stash_count(fields.stash),
        seen,
    }
}

fn field(out: &Result<Output, RunError>) -> (shown: String)
    ensures
        shown@ == field_text(*out),
{
    proof {
        reveal_strlit("");
        assert(""@ =~= Seq::<char>::empty());
    }
    match out {
        Ok(out) => {
            if out.success {
                out.trimmed()
            } else {
                "".to_owned()
            }
        },
        Err(_) => "".to_owned(),
    }
}

fn list(out: &Result<Output, RunError>) -> (shown: String)
    ensures
        shown@ == list_text(*out),
{
    let printed = lines::lines(&field(out));
    let ghost all = text::views(printed@);
    let mut names: Vec<String> = Vec::new();
    let mut i: usize = 0;
    assert(text::views(names@) =~= listed(all, 0));
    while i < printed.len()
        invariant
            i <= printed@.len(),
            all == text::views(printed@),
            text::views(names@) == listed(all, i as int),
        decreases printed@.len() - i,
    {
        assert(all[i as int] == printed@[i as int]@);
        let name = trim(&printed[i]);
        if name.as_str().unicode_len() > 0 {
            let ghost before = text::views(names@);
            let ghost n = name@;
            names.push(name);
            assert(text::views(names@) =~= before.push(n));
        }
        i += 1;
    }
    if names.len() == 0 {
        assert(listed(all, all.len() as int).len() == 0);
        return "none".to_owned();
    }
    assert(listed(all, all.len() as int).len() > 0);
    join_text(&names, ", ")
}

fn stashes_in(out: &Result<Output, RunError>) -> (count: usize)
    ensures
        count == stash_count(*out),
{
    let printed = lines::lines(&field(out));
    let ghost all = text::views(printed@);
    let mut count: usize = 0;
    let mut i: usize = 0;
    while i < printed.len()
        invariant
            i <= printed@.len(),
            count <= i,
            all == text::views(printed@),
            count == filled_lines(all, i as int),
        decreases printed@.len() - i,
    {
        assert(all[i as int] == printed@[i as int]@);
        if printed[i].as_str().unicode_len() > 0 {
            count += 1;
        }
        i += 1;
    }
    count
}

fn shown_head(head: &RepoHead) -> (out: String)
    ensures
        out@ == head_text(head@),
{
    match head {
        RepoHead::Branch { name, sha } => cat3(name.as_str(), " @ ", &sha.short()),
        RepoHead::Detached { sha } => cat3("detached", " @ ", &sha.short()),
        RepoHead::Unborn => "unborn".to_owned(),
    }
}

fn line(label: &str, value: &str) -> (out: String)
    ensures
        out@ == labelled(label@, value@),
{
    cat3(label, value, "\n")
}

/// One screen of plain text, carrying the branch list because nothing is ever pruned:
/// liveness is recorded here rather than by a ref disappearing.
pub fn repo_txt(fields: &Fields, inspection: &Inspection, source: &AbsPath, seen: &str) -> (out:
    String)
    ensures
        out@ == record_of(*fields, *inspection, source@, seen@).written(),
{
    let origin = field(&fields.origin);
    let origin = if origin.as_str().unicode_len() == 0 {
        "none".to_owned()
    } else {
        origin
    };
    let last = line("seen      ", seen);
    let stash = cat2(&decimal(stashes_in(&fields.stash) as u64), " entries");
    let a = cat2(&line("stash     ", &stash), &last);
    let b = cat2(&line("tags      ", &list(&fields.tags)), &a);
    let c = cat2(&line("branches  ", &list(&fields.branches)), &b);
    let d = cat2(&line("state     ", &inspection.state()), &c);
    let e = cat2(&line("head      ", &shown_head(&inspection.head)), &d);
    let f = cat2(&line("path      ", &source.text()), &e);
    cat2(&line("origin    ", &origin), &f)
}

/// [`repo_txt`] as of now.
pub fn repo_txt_now(fields: &Fields, inspection: &Inspection, source: &AbsPath) -> (out: String)
    ensures
        exists|now: int|
            moment::in_range(now) && out@ == record_of(
                *fields,
                *inspection,
                source@,
                #[trigger] moment::shown_text(now, 0, "%F %H:%M UTC"@),
            ).written(),
{
    let seen = clock_text(now_nanos(), 0, "%F %H:%M UTC");
    repo_txt(fields, inspection, source, &seen)
}

// ---------------------------------------------------------------------------
// Reading
// ---------------------------------------------------------------------------

/// What a head's line says to check out. `main @ de4c69c`, `detached @ de4c69c`, or `unborn`.
/// The short sha is enough: git resolves an unambiguous prefix, and a branch name is what a
/// restore wants anyway.
pub open spec fn head_read(value: Seq<char>) -> Option<Seq<char>> {
    match text::split_at_text(value, " @ "@) {
        None => None,
        Some((name, sha)) => if name == "detached"@ {
            Some(lines::trimmed(sha))
        } else {
            Some(lines::trimmed(name))
        },
    }
}

pub open spec fn stashes_read(value: Seq<char>) -> nat {
    match lines::first_word_of(value) {
        None => 0,
        Some(word) => match text::parsed_number(word, usize::MAX as nat) {
            Some(n) => n,
            None => 0,
        },
    }
}

/// What one line adds.
pub open spec fn with_line(found: RecordedView, line: Seq<char>) -> RecordedView {
    match lines::split_white(line) {
        None => found,
        Some((name, rest)) => {
            let value = lines::trimmed(rest);
            if name == "head"@ {
                RecordedView { head: head_read(value), ..found }
            } else if name == "stash"@ {
                RecordedView { stashes: stashes_read(value), ..found }
            } else if name == "origin"@ && value != "none"@ {
                RecordedView { origin: Some(value), ..found }
            } else if name == "path"@ {
                RecordedView { path: Some(value), ..found }
            } else {
                found
            }
        },
    }
}

/// What the first `n` lines say.
pub open spec fn read_lines(all: Seq<Seq<char>>, n: int) -> RecordedView
    decreases n,
{
    if n <= 0 {
        RecordedView::nothing()
    } else {
        with_line(read_lines(all, n - 1), all[n - 1])
    }
}

/// What a text records.
pub open spec fn recorded(s: Seq<char>) -> RecordedView {
    read_lines(lines::lines_of(s), lines::lines_of(s).len() as int)
}

fn read_head(value: &str) -> (out: Option<String>)
    ensures
        text::view_opt(out) == head_read(value@),
{
    proof {
        reveal_strlit(" @ ");
    }
    match split_once_text(value, " @ ") {
        None => None,
        Some((name, sha)) => {
            if same(&name, "detached") {
                Some(trim(&sha))
            } else {
                Some(trim(&name))
            }
        },
    }
}

fn read_stashes(value: &str) -> (out: usize)
    ensures
        out == stashes_read(value@),
{
    match first_word(value) {
        None => 0,
        Some(word) => {
            let digits = chars_of(&word);
            match number(&digits, usize::MAX as u64) {
                Some(n) => n as usize,
                None => 0,
            }
        },
    }
}

/// Reads what [`repo_txt`] wrote.
#[must_use]
pub fn parse_repo_txt(text: &str) -> (out: Recorded)
    ensures
        out@ == recorded(text@),
{
    let mut found = Recorded::default();
    let all = lines::lines(text);
    let ghost views = text::views(all@);
    let mut i: usize = 0;
    while i < all.len()
        invariant
            i <= all@.len(),
            views == text::views(all@),
            found@ == read_lines(views, i as int),
        decreases all@.len() - i,
    {
        assert(views[i as int] == all@[i as int]@);
        if let Some((name, rest)) = split_once_white(&all[i]) {
            let value = trim(&rest);
            if same(&name, "head") {
                found.head = read_head(&value);
            } else if same(&name, "stash") {
                found.stashes = read_stashes(&value);
            } else if same(&name, "origin") && !same(&value, "none") {
                found.origin = Some(value);
            } else if same(&name, "path") {
                found.path = Some(value);
            }
        }
        i += 1;
    }
    found
}

// ---------------------------------------------------------------------------
// Laws
// ---------------------------------------------------------------------------

/// What there is to check out at a head.
pub open spec fn checkout_of(head: HeadView) -> Option<Seq<char>> {
    match head {
        HeadView::Branch { name, .. } => Some(name),
        HeadView::Detached { sha } => Some(sha.hex().take(7)),
        HeadView::Unborn => None,
    }
}

spec fn blanks(n: nat) -> Seq<char> {
    text::repeated(' ', n)
}

/// Peels the first line off a record.
proof fn lemma_peel(
    label: Seq<char>,
    word: Seq<char>,
    pad: nat,
    value: Seq<char>,
    rest: Seq<char>,
)
    requires
        label == word + blanks(pad),
        pad > 0,
        plain(word),
        lines::one_line(value),
        value.len() > 0,
    ensures
        lines::lines_of(labelled(label, value) + rest) == seq![label + value]
            + lines::lines_of(rest),
        lines::split_white(label + value) matches Some((a, b)) && a == word && lines::trimmed(b)
            == value,
{
    reveal_strlit("\n");
    let l = label + value;
    lines::lemma_trimmed_edges(value);
    assert(!l.contains('\n')) by {
        if l.contains('\n') {
            let i = choose|i: int| 0 <= i < l.len() && l[i] == '\n';
            if i < word.len() {
                assert(l[i] == word[i]);
            } else if i < label.len() {
                assert(l[i] == label[i]);
                assert(label[i] == blanks(pad)[i - word.len()]);
            } else {
                assert(l[i] == value[i - label.len()]);
                assert(value.contains('\n'));
            }
        }
    }
    assert(l.last() == value.last());
    lines::lemma_first_line(l, rest);
    assert(labelled(label, value) + rest =~= l + seq!['\n'] + rest);
    lines::lemma_labelled(word, blanks(pad), value);
    assert(l =~= word + blanks(pad) + value);
}

/// Reading one line after another is reading the first and then the rest.
proof fn lemma_read_rest(first: Seq<char>, rest: Seq<Seq<char>>, n: int, start: RecordedView)
    requires
        0 <= n <= rest.len(),
    ensures
        read_from(start, seq![first] + rest, n + 1) == read_from(
            with_line(start, first),
            rest,
            n,
        ),
    decreases n,
{
    let all = seq![first] + rest;
    if n > 0 {
        lemma_read_rest(first, rest, n - 1, start);
        assert(all[n] == rest[n - 1]);
    } else {
        assert(all[0] == first);
        assert(read_from(start, all, 0) == start);
        assert(read_from(start, all, 1) == with_line(read_from(start, all, 0), all[0]));
    }
}

/// What the first `n` lines add to what is known already.
spec fn read_from(start: RecordedView, all: Seq<Seq<char>>, n: int) -> RecordedView
    decreases n,
{
    if n <= 0 {
        start
    } else {
        with_line(read_from(start, all, n - 1), all[n - 1])
    }
}

proof fn lemma_read_from(all: Seq<Seq<char>>, n: int)
    ensures
        read_from(RecordedView::nothing(), all, n) == read_lines(all, n),
    decreases n,
{
    if n > 0 {
        lemma_read_from(all, n - 1);
    }
}

/// What a text adds to what is known already.
spec fn recorded_from(start: RecordedView, s: Seq<char>) -> RecordedView {
    read_from(start, lines::lines_of(s), lines::lines_of(s).len() as int)
}

proof fn lemma_step(
    start: RecordedView,
    label: Seq<char>,
    word: Seq<char>,
    pad: nat,
    value: Seq<char>,
    rest: Seq<char>,
)
    requires
        label == word + blanks(pad),
        pad > 0,
        plain(word),
        lines::one_line(value),
        value.len() > 0,
    ensures
        recorded_from(start, labelled(label, value) + rest) == recorded_from(
            with_line(start, label + value),
            rest,
        ),
        lines::split_white(label + value) matches Some((a, b)) && a == word && lines::trimmed(b)
            == value,
{
    lemma_peel(label, word, pad, value, rest);
    lemma_read_rest(
        label + value,
        lines::lines_of(rest),
        lines::lines_of(rest).len() as int,
        start,
    );
}

/// A head's line reads back as what there is to check out.
proof fn lemma_head_reads_back(head: HeadView)
    requires
        head matches HeadView::Branch { name, .. } ==> lines::one_line(name) && name.len() > 0
            && !name.contains(' ') && name != "detached"@,
    ensures
        head_read(head_text(head)) == checkout_of(head),
        lines::one_line(head_text(head)),
        head_text(head).len() > 0,
{
    reveal_strlit(" @ ");
    reveal_strlit("unborn");
    reveal_strlit("detached");
    match head {
        HeadView::Unborn => {
            let v = "unborn"@;
            assert forall|i: int| 0 <= i <= v.len() implies !text::occurs_at(v, " @ "@, i) by {
                if text::occurs_at(v, " @ "@, i) {
                    assert(v.subrange(i, i + 3)[0] == ' ');
                    assert(v[i] == ' ');
                }
            }
            text::lemma_text_position(v, " @ "@, v.len() as int);
            lines::lemma_untrimmed(v);
            assert(!v.contains('\n'));
        },
        HeadView::Branch { name, sha } => {
            lemma_named_head(name, sha.hex().take(7), sha.0@);
        },
        HeadView::Detached { sha } => {
            let name = "detached"@;
            assert(!name.contains(' '));
            assert(!name.contains('\n'));
            lines::lemma_untrimmed(name);
            lemma_named_head(name, sha.hex().take(7), sha.0@);
        },
    }
}

proof fn lemma_named_head(name: Seq<char>, sha: Seq<char>, bytes: Seq<u8>)
    requires
        lines::one_line(name),
        name.len() > 0,
        !name.contains(' '),
        bytes.len() == 20,
        sha == crate::primitives::oid::hex_text(bytes).take(7),
    ensures
        text::split_at_text(name + " @ "@ + sha, " @ "@) == Some((name, sha)),
        lines::trimmed(sha) == sha,
        lines::one_line(name + " @ "@ + sha),
{
    reveal_strlit(" @ ");
    let sep = " @ "@;
    let v = name + sep + sha;
    assert forall|i: int| 0 <= i < sha.len() implies !lines::is_white(#[trigger] sha[i]) && sha[i]
        != '\n' by {
        assert(sha[i] == crate::primitives::oid::hex_text(bytes)[i]);
    }
    lines::lemma_untrimmed(sha);
    assert forall|i: int| 0 <= i < name.len() implies !text::occurs_at(v, sep, i) by {
        if text::occurs_at(v, sep, i) {
            assert(v.subrange(i, i + 3)[0] == sep[0]);
            assert(v[i] == name[i]);
            assert(name.contains(' '));
        }
    }
    assert(v.subrange(name.len() as int, name.len() as int + 3) =~= sep);
    text::lemma_text_position(v, sep, name.len() as int);
    assert(v.take(name.len() as int) =~= name);
    assert(v.skip(name.len() as int + 3) =~= sha);
    lines::lemma_trimmed_edges(name);
    assert(v[0] == name[0]);
    assert(v.last() == sha.last());
    assert(!lines::is_white(sha[6]));
    lines::lemma_untrimmed(v);
    assert(!v.contains('\n')) by {
        if v.contains('\n') {
            let i = choose|i: int| 0 <= i < v.len() && v[i] == '\n';
            if i < name.len() {
                assert(name[i] == '\n');
                assert(name.contains('\n'));
            } else if i < name.len() + 3 {
                assert(v[i] == sep[i - name.len()]);
            } else {
                assert(v[i] == sha[i - name.len() - 3]);
            }
        }
    }
}

/// A stash count's line reads back as the count.
proof fn lemma_count_reads_back(n: nat)
    requires
        n <= usize::MAX,
    ensures
        stashes_read(text::decimal_text(n) + " entries"@) == n,
        lines::one_line(text::decimal_text(n) + " entries"@),
{
    reveal_strlit(" entries");
    let d = text::decimal_text(n);
    let v = d + " entries"@;
    text::decimals_round_trip(n, usize::MAX as nat);
    text::lemma_decimal_reads_back(n);
    assert forall|i: int| 0 <= i < d.len() implies !lines::is_white(#[trigger] d[i]) by {
        assert(text::is_digit(d[i]));
    }
    assert(v[0] == d[0]);
    assert(v.last() == 's');
    lines::lemma_untrimmed(v);
    assert(lines::trim_start(v) == v);
    lines::lemma_word_then_white(d, " entries"@);
    assert(v.take(d.len() as int) =~= d);
    assert(!v.contains('\n')) by {
        if v.contains('\n') {
            let i = choose|i: int| 0 <= i < v.len() && v[i] == '\n';
            if i < d.len() {
                assert(text::is_digit(d[i]));
            } else {
                assert(v[i] == " entries"@[i - d.len()]);
            }
        }
    }
}

spec fn plain(word: Seq<char>) -> bool {
    forall|i: int| 0 <= i < word.len() ==> !lines::is_white(#[trigger] word[i])
}

proof fn lemma_labels()
    ensures
        "origin    "@ == "origin"@ + blanks(4),
        "path      "@ == "path"@ + blanks(6),
        "head      "@ == "head"@ + blanks(6),
        "state     "@ == "state"@ + blanks(5),
        "branches  "@ == "branches"@ + blanks(2),
        "tags      "@ == "tags"@ + blanks(6),
        "stash     "@ == "stash"@ + blanks(5),
        "seen      "@ == "seen"@ + blanks(6),
        plain("origin"@),
        plain("path"@),
        plain("head"@),
        plain("state"@),
        plain("branches"@),
        plain("tags"@),
        plain("stash"@),
        plain("seen"@),
{
    reveal_strlit("origin    ");
    reveal_strlit("path      ");
    reveal_strlit("head      ");
    reveal_strlit("state     ");
    reveal_strlit("branches  ");
    reveal_strlit("tags      ");
    reveal_strlit("stash     ");
    reveal_strlit("seen      ");
    reveal_strlit("origin");
    reveal_strlit("path");
    reveal_strlit("head");
    reveal_strlit("state");
    reveal_strlit("branches");
    reveal_strlit("tags");
    reveal_strlit("stash");
    reveal_strlit("seen");
    assert("origin    "@ =~= "origin"@ + blanks(4));
    assert("path      "@ =~= "path"@ + blanks(6));
    assert("head      "@ =~= "head"@ + blanks(6));
    assert("state     "@ =~= "state"@ + blanks(5));
    assert("branches  "@ =~= "branches"@ + blanks(2));
    assert("tags      "@ =~= "tags"@ + blanks(6));
    assert("stash     "@ =~= "stash"@ + blanks(5));
    assert("seen      "@ =~= "seen"@ + blanks(6));
}

/// Whether a line under this name adds nothing to a record.
spec fn idle(word: Seq<char>) -> bool {
    word != "head"@ && word != "stash"@ && word != "origin"@ && word != "path"@
}

proof fn lemma_words()
    ensures
        idle("state"@),
        idle("branches"@),
        idle("tags"@),
        idle("seen"@),
        "path"@ != "head"@,
        "path"@ != "stash"@,
        "path"@ != "origin"@,
        "origin"@ != "head"@,
        "origin"@ != "stash"@,
        "stash"@ != "head"@,
{
    reveal_strlit("origin");
    reveal_strlit("path");
    reveal_strlit("head");
    reveal_strlit("state");
    reveal_strlit("branches");
    reveal_strlit("tags");
    reveal_strlit("stash");
    reveal_strlit("seen");
    assert("state"@[3] != "stash"@[3]);
    assert("branches"@.len() == 8);
    assert("head"@.len() == 4 && "path"@.len() == 4 && "stash"@.len() == 5);
    assert("origin"@.len() == 6);
    assert("tags"@[0] != "head"@[0] && "tags"@[0] != "path"@[0]);
    assert("seen"@[0] != "head"@[0] && "seen"@[0] != "path"@[0]);
    assert("path"@[0] != "head"@[0]);
}

/// Writer and reader agree: whatever a record shows of the head, the stashes, the origin and
/// the path is what reading it back gives. The branch named `detached` is the one that does not:
/// its line is the one a detached head is shown by.
pub proof fn a_record_reads_back(head: HeadView, r: RecordText)
    requires
        r.head == head_text(head),
        head matches HeadView::Branch { name, .. } ==> lines::one_line(name) && name.len() > 0
            && !name.contains(' ') && name != "detached"@,
        r.stashes <= usize::MAX,
        lines::one_line(r.origin) && r.origin.len() > 0,
        lines::one_line(r.path) && r.path.len() > 0,
        lines::one_line(r.state) && r.state.len() > 0,
        lines::one_line(r.branches) && r.branches.len() > 0,
        lines::one_line(r.tags) && r.tags.len() > 0,
        lines::one_line(r.seen) && r.seen.len() > 0,
    ensures
        recorded(r.written()) == (RecordedView {
            head: checkout_of(head),
            stashes: r.stashes,
            origin: if r.origin == "none"@ {
                None
            } else {
                Some(r.origin)
            },
            path: Some(r.path),
        }),
{
    let stash = text::decimal_text(r.stashes) + " entries"@;
    lemma_head_reads_back(head);
    lemma_count_reads_back(r.stashes);
    lemma_labels();
    lemma_words();
    let none: Seq<char> = Seq::empty();
    let t8 = labelled("seen      "@, r.seen);
    let t7 = labelled("stash     "@, stash) + t8;
    let t6 = labelled("tags      "@, r.tags) + t7;
    let t5 = labelled("branches  "@, r.branches) + t6;
    let t4 = labelled("state     "@, r.state) + t5;
    let t3 = labelled("head      "@, r.head) + t4;
    let t2 = labelled("path      "@, r.path) + t3;
    let s0 = RecordedView::nothing();
    lemma_step(s0, "origin    "@, "origin"@, 4, r.origin, t2);
    let s1 = with_line(s0, "origin    "@ + r.origin);
    assert(s1 == (RecordedView {
        origin: if r.origin == "none"@ {
            None
        } else {
            Some(r.origin)
        },
        ..s0
    }));
    lemma_step(s1, "path      "@, "path"@, 6, r.path, t3);
    let s2 = with_line(s1, "path      "@ + r.path);
    assert(s2 == (RecordedView { path: Some(r.path), ..s1 }));
    lemma_step(s2, "head      "@, "head"@, 6, r.head, t4);
    let s3 = with_line(s2, "head      "@ + r.head);
    assert(s3 == (RecordedView { head: checkout_of(head), ..s2 }));
    lemma_step(s3, "state     "@, "state"@, 5, r.state, t5);
    let s4 = with_line(s3, "state     "@ + r.state);
    assert(s4 == s3);
    lemma_step(s4, "branches  "@, "branches"@, 2, r.branches, t6);
    let s5 = with_line(s4, "branches  "@ + r.branches);
    assert(s5 == s4);
    lemma_step(s5, "tags      "@, "tags"@, 6, r.tags, t7);
    let s6 = with_line(s5, "tags      "@ + r.tags);
    assert(s6 == s5);
    lemma_step(s6, "stash     "@, "stash"@, 5, stash, t8);
    let s7 = with_line(s6, "stash     "@ + stash);
    assert(s7 == (RecordedView { stashes: r.stashes, ..s6 }));
    assert(t8 =~= labelled("seen      "@, r.seen) + none);
    lemma_step(s7, "seen      "@, "seen"@, 6, r.seen, none);
    let s8 = with_line(s7, "seen      "@ + r.seen);
    assert(s8 == s7);
    assert(recorded_from(s8, none) == s8);
    lemma_read_from(lines::lines_of(r.written()), lines::lines_of(r.written()).len() as int);
}

/// A stash is counted by the lines that name one.
pub proof fn stashes_are_counted_by_their_lines(printed: Seq<Seq<char>>, n: int)
    requires
        0 <= n <= printed.len(),
    ensures
        filled_lines(printed, n) == printed.take(n).filter(|l: Seq<char>| l.len() > 0).len(),
        listed(printed, n) == printed.take(n).map_values(|l: Seq<char>| lines::trimmed(l)).filter(
            |l: Seq<char>| l.len() > 0,
        ),
    decreases n,
{
    reveal(Seq::filter);
    let cut = printed.take(n).map_values(|l: Seq<char>| lines::trimmed(l));
    if n > 0 {
        stashes_are_counted_by_their_lines(printed, n - 1);
        assert(printed.take(n).drop_last() =~= printed.take(n - 1));
        let before = printed.take(n - 1).map_values(|l: Seq<char>| lines::trimmed(l));
        assert(cut.drop_last() =~= before);
        assert(cut.last() == lines::trimmed(printed[n - 1]));
    } else {
        assert(cut =~= Seq::<Seq<char>>::empty());
        assert(listed(printed, n) =~= cut.filter(|l: Seq<char>| l.len() > 0));
    }
}

/// What a record says of a repository: where it was, the origin git knows or that it knows none, as
/// many stashes as git lists, and the state of its working tree.
pub proof fn a_record_says_what_git_printed(
    fields: Fields,
    inspection: Inspection,
    source: Path,
    seen: Seq<char>,
)
    ensures
        ({
            let r = record_of(fields, inspection, source, seen);
            &&& r.path == plan::shown(source)
            &&& r.seen == seen
            &&& fields.origin matches Ok(o) ==> (o.success && lines::trimmed(o.shown()).len() > 0
                ==> r.origin == lines::trimmed(o.shown()))
            &&& (fields.origin is Err || !(fields.origin->Ok_0.success)) ==> r.origin == "none"@
            &&& fields.stash matches Ok(o) ==> (o.success ==> r.stashes == lines::lines_of(
                lines::trimmed(o.shown()),
            ).filter(|l: Seq<char>| l.len() > 0).len())
            &&& (fields.stash is Err || !(fields.stash->Ok_0.success)) ==> r.stashes == 0
            &&& r.state == "clean"@ || inspection.modified > 0 || inspection.untracked > 0
        }),
{
    if let Ok(o) = fields.stash {
        if o.success {
            let printed = lines::lines_of(lines::trimmed(o.shown()));
            stashes_are_counted_by_their_lines(printed, printed.len() as int);
            assert(printed.take(printed.len() as int) =~= printed);
        }
    }
    let none = Seq::<char>::empty();
    assert(lines::lines_of(none).len() == 0) by {
        lines::a_line_ends_at_its_newline(none, none);
    }
}

/// What a call that failed printed is never taken for what it would have.
pub proof fn a_failed_call_says_nothing(out: Result<Output, RunError>)
    ensures
        out is Err || !(out->Ok_0.success) ==> field_text(out).len() == 0 && list_text(out)
            == "none"@ && stash_count(out) == 0,
{
    let none = Seq::<char>::empty();
    lines::a_line_ends_at_its_newline(none, none);
}

} // verus!
