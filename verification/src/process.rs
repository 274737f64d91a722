//! What is asked of another program, and what came back.
//!
//! Nothing here runs anything: a [`Call`] says what to run and an [`Output`] what it printed.

use crate::config;
use crate::config::rules::Path;
use crate::octets;
use crate::octets::lossy_text;
use crate::lines;
use crate::lines::trim;
use crate::primitives::path::AbsPath;
use crate::text;
use vstd::prelude::*;

verus! {

/// How long a call may take before it is given up.
#[derive(Clone, Copy, Debug, PartialEq, Eq, Structural)]
pub enum Timeout {
    Quick,
    Work,
    Remote,
    Interpreter,
}

/// One run of a program.
#[derive(Debug, PartialEq, Eq)]
pub struct Call {
    pub program: String,
    pub args: Vec<String>,
    /// The directory to run in; the current one where there is none.
    pub at: Option<AbsPath>,
    /// The index file git is to use in place of the repository's own.
    pub index: Option<Vec<u8>>,
    pub stdin: Vec<u8>,
    pub timeout: Timeout,
}

/// What a program printed, and whether it succeeded.
#[derive(Debug, PartialEq, Eq)]
pub struct Output {
    pub success: bool,
    pub stdout: Vec<u8>,
    pub stderr: Vec<u8>,
}

/// Why a program could not be run, or, of one that has to succeed, that it did not.
#[derive(Debug, PartialEq, Eq)]
pub struct RunError {
    pub message: String,
}

/// A call's fields.
#[verifier::ext_equal]
pub struct CallView {
    pub program: Seq<char>,
    pub args: Seq<Seq<char>>,
    pub at: Option<Path>,
    pub index: Option<Seq<u8>>,
    pub stdin: Seq<u8>,
    pub timeout: Timeout,
}

pub open spec fn bytes_opt(v: Option<Vec<u8>>) -> Option<Seq<u8>> {
    match v {
        Some(v) => Some(v@),
        None => None,
    }
}

impl View for Call {
    type V = CallView;

    open spec fn view(&self) -> CallView {
        CallView {
            program: self.program@,
            args: text::views(self.args@),
            at: config::path_view_opt(self.at),
            index: bytes_opt(self.index),
            stdin: self.stdin@,
            timeout: self.timeout,
        }
    }
}

pub open spec fn call_views(calls: Seq<Call>) -> Seq<CallView> {
    calls.map_values(|c: Call| c@)
}

/// The texts some borrowed strings hold.
pub open spec fn str_views(v: Seq<&str>) -> Seq<Seq<char>> {
    v.map_values(|s: &str| s@)
}

/// A run of git in a directory, with nothing on its input.
pub open spec fn git_call(at: Option<Path>, args: Seq<Seq<char>>, timeout: Timeout) -> CallView {
    CallView { program: "git"@, args, at, index: None, stdin: Seq::empty(), timeout }
}

/// A run of another program in the current directory, with nothing on its input.
pub open spec fn program_call(program: Seq<char>, args: Seq<Seq<char>>, timeout: Timeout) -> CallView {
    CallView { program, args, at: None, index: None, stdin: Seq::empty(), timeout }
}

impl Output {
    /// What was printed, as text.
    pub open spec fn shown(self) -> Seq<char> {
        octets::lossy(self.stdout@)
    }

    /// What was complained of, as text without the white space around it.
    pub open spec fn complaint(self) -> Seq<char> {
        lines::trimmed(octets::lossy(self.stderr@))
    }

    pub fn text(&self) -> (out: String)
        ensures
            out@ == self.shown(),
    {
        lossy_text(&self.stdout)
    }

    /// What was printed, without the white space around it.
    pub fn trimmed(&self) -> (out: String)
        ensures
            out@ == lines::trimmed(self.shown()),
    {
        trim(&self.text())
    }

    pub fn error_text(&self) -> (out: String)
        ensures
            out@ == self.complaint(),
    {
        trim(&lossy_text(&self.stderr))
    }
}

pub fn strings(args: Vec<&str>) -> (out: Vec<String>)
    ensures
        text::views(out@) == str_views(args@),
{
    let mut out: Vec<String> = Vec::new();
    let mut i: usize = 0;
    while i < args.len()
        invariant
            i <= args@.len(),
            out@.len() == i,
            forall|j: int| 0 <= j < i ==> (#[trigger] out@[j])@ == args@[j]@,
        decreases args@.len() - i,
    {
        out.push(args[i].to_owned());
        i += 1;
    }
    assert(text::views(out@) =~= str_views(args@));
    out
}

fn copy_at(at: Option<&AbsPath>) -> (out: Option<AbsPath>)
    ensures
        config::path_view_opt(out) == match at {
            Some(p) => Some(p@),
            None => None,
        },
{
    match at {
        Some(p) => Some(p.clone()),
        None => None,
    }
}

/// A run of git in a directory.
pub fn git(at: Option<&AbsPath>, args: Vec<&str>, timeout: Timeout) -> (out: Call)
    ensures
        out@ == git_call(
            match at {
                Some(p) => Some(p@),
                None => None,
            },
            str_views(args@),
            timeout,
        ),
{
    let stdin: Vec<u8> = Vec::new();
    assert(stdin@ =~= Seq::<u8>::empty());
    Call {
        program: "git".to_owned(),
        args: strings(args),
        at: copy_at(at),
        index: None,
        stdin,
        timeout,
    }
}

/// A run of another program in the current directory.
pub fn command(program: &str, args: Vec<&str>, timeout: Timeout) -> (out: Call)
    ensures
        out@ == program_call(program@, str_views(args@), timeout),
{
    let stdin: Vec<u8> = Vec::new();
    assert(stdin@ =~= Seq::<u8>::empty());
    Call {
        program: program.to_owned(),
        args: strings(args),
        at: None,
        index: None,
        stdin,
        timeout,
    }
}

impl Call {
    /// The same call with these bytes on its input.
    pub fn with_stdin(self, stdin: Vec<u8>) -> (out: Call)
        ensures
            out@ == (CallView { stdin: stdin@, ..self@ }),
    {
        Call { stdin, ..self }
    }

    /// The same call with another index file.
    pub fn with_index(self, index: Vec<u8>) -> (out: Call)
        ensures
            out@ == (CallView { index: Some(index@), ..self@ }),
    {
        Call { index: Some(index), ..self }
    }

    /// The same call with one more argument.
    pub fn arg(self, arg: &str) -> (out: Call)
        ensures
            out@ == (CallView { args: self@.args.push(arg@), ..self@ }),
    {
        let mut args = self.args;
        let ghost before = text::views(args@);
        args.push(arg.to_owned());
        assert(text::views(args@) =~= before.push(arg@));
        Call {
            program: self.program,
            args,
            at: self.at,
            index: self.index,
            stdin: self.stdin,
            timeout: self.timeout,
        }
    }
}

} // verus!
