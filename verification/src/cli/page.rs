//! A page of terminal output: runs of text, each plain or in a colour, put together before
//! anything decides whether colour is on.
//!
//! **Meaning never depends on colour.** Every verdict is a word first, so a pipe, a log file, a
//! screen reader and a colourblind reader all get the same information. A page is the same page
//! either way: only [`Page::show`] knows whether escapes are written.

use crate::text;
use crate::text::cat6;
use vstd::prelude::*;

verus! {

/// A colour of the palette.
#[derive(Clone, Copy, Debug, PartialEq, Eq, Structural)]
pub enum Tint {
    Red,
    Yellow,
    Green,
    Dim,
    Cyan,
    Blue,
    Bold,
    RedBold,
    YellowBold,
    CyanBold,
    GreenBold,
}

impl Tint {
    /// The colour's parameter in an SGR sequence.
    pub open spec fn code_text(self) -> Seq<char> {
        match self {
            Tint::Red => "31"@,
            Tint::Yellow => "33"@,
            Tint::Green => "32"@,
            Tint::Dim => "2"@,
            Tint::Cyan => "36"@,
            Tint::Blue => "34"@,
            Tint::Bold => "1"@,
            Tint::RedBold => "1;31"@,
            Tint::YellowBold => "1;33"@,
            Tint::CyanBold => "1;36"@,
            Tint::GreenBold => "1;32"@,
        }
    }

    #[must_use]
    pub fn code(self) -> (out: &'static str)
        ensures
            out@ == self.code_text(),
    {
        match self {
            Tint::Red => "31",
            Tint::Yellow => "33",
            Tint::Green => "32",
            Tint::Dim => "2",
            Tint::Cyan => "36",
            Tint::Blue => "34",
            Tint::Bold => "1",
            Tint::RedBold => "1;31",
            Tint::YellowBold => "1;33",
            Tint::CyanBold => "1;36",
            Tint::GreenBold => "1;32",
        }
    }
}

/// The text between an SGR sequence that sets a colour and the one that resets it.
pub open spec fn painted(s: Seq<char>, code: Seq<char>) -> Seq<char> {
    "\x1b["@ + code + "m"@ + s + "\x1b[0"@ + "m"@
}

pub open spec fn paint_text(s: Seq<char>, code: Seq<char>, colour: bool) -> Seq<char> {
    if colour {
        painted(s, code)
    } else {
        s
    }
}

/// Wraps text in an SGR colour, or returns it untouched.
#[must_use]
pub fn paint(text: &str, code: &str, colour: bool) -> (out: String)
    ensures
        out@ == paint_text(text@, code@, colour),
{
    if colour {
        cat6("\x1b[", code, "m", text, "\x1b[0", "m")
    } else {
        text.to_owned()
    }
}

/// A run of text.
#[derive(Debug, PartialEq, Eq)]
pub struct Ink {
    pub text: String,
    pub tint: Option<Tint>,
}

pub struct InkView {
    pub text: Seq<char>,
    pub tint: Option<Tint>,
}

impl View for Ink {
    type V = InkView;

    open spec fn view(&self) -> InkView {
        InkView { text: self.text@, tint: self.tint }
    }
}

impl InkView {
    pub open spec fn shown(self, colour: bool) -> Seq<char> {
        match self.tint {
            Some(tint) => paint_text(self.text, tint.code_text(), colour),
            None => self.text,
        }
    }
}

/// The runs a page holds, in order.
pub struct PageView {
    pub inks: Seq<InkView>,
}

impl PageView {
    pub open spec fn empty() -> PageView {
        PageView { inks: Seq::empty() }
    }

    /// The page with plain text behind it.
    pub open spec fn put(self, text: Seq<char>) -> PageView {
        PageView { inks: self.inks.push(InkView { text, tint: None }) }
    }

    /// The page with coloured text behind it.
    pub open spec fn ink(self, text: Seq<char>, tint: Tint) -> PageView {
        PageView { inks: self.inks.push(InkView { text, tint: Some(tint) }) }
    }

    /// The page with coloured text behind it, or plain text where there is no colour.
    pub open spec fn put_in(self, text: Seq<char>, tint: Option<Tint>) -> PageView {
        PageView { inks: self.inks.push(InkView { text, tint }) }
    }

    /// The page with plain text and the end of a line behind it.
    pub open spec fn line(self, text: Seq<char>) -> PageView {
        self.put(text).put("\n"@)
    }

    /// The page as it is written.
    pub open spec fn shown(self, colour: bool) -> Seq<char>
        decreases self.inks.len(),
    {
        if self.inks.len() == 0 {
            Seq::empty()
        } else {
            PageView { inks: self.inks.drop_last() }.shown(colour) + self.inks.last().shown(colour)
        }
    }
}

#[derive(Debug, PartialEq, Eq)]
pub struct Page {
    inks: Vec<Ink>,
}

impl View for Page {
    type V = PageView;

    closed spec fn view(&self) -> PageView {
        PageView { inks: self.inks@.map_values(|i: Ink| i@) }
    }
}

impl Page {
    #[must_use]
    pub fn new() -> (out: Page)
        ensures
            out@ == PageView::empty(),
    {
        let out = Page { inks: Vec::new() };
        assert(out@.inks =~= Seq::<InkView>::empty());
        out
    }

    pub fn put_in(&mut self, text: &str, tint: Option<Tint>)
        ensures
            final(self)@ == old(self)@.put_in(text@, tint),
    {
        let ghost before = self@.inks;
        self.inks.push(Ink { text: text.to_owned(), tint });
        assert(self@.inks =~= before.push(InkView { text: text@, tint }));
    }

    pub fn put(&mut self, text: &str)
        ensures
            final(self)@ == old(self)@.put(text@),
    {
        self.put_in(text, None);
    }

    pub fn ink(&mut self, text: &str, tint: Tint)
        ensures
            final(self)@ == old(self)@.ink(text@, tint),
    {
        self.put_in(text, Some(tint));
    }

    pub fn line(&mut self, text: &str)
        ensures
            final(self)@ == old(self)@.line(text@),
    {
        self.put(text);
        self.put("\n");
    }

    /// Writes the page out, with its colours where colour is on.
    #[must_use]
    pub fn show(&self, colour: bool) -> (out: String)
        ensures
            out@ == self@.shown(colour),
    {
        let ghost all = self@.inks;
        let mut out = String::new();
        let mut i: usize = 0;
        assert(out@ =~= PageView { inks: all.take(0) }.shown(colour));
        while i < self.inks.len()
            invariant
                i <= self.inks@.len(),
                all == self@.inks,
                all.len() == self.inks@.len(),
                out@ == (PageView { inks: all.take(i as int) }).shown(colour),
            decreases self.inks@.len() - i,
        {
            proof {
                let more = PageView { inks: all.take(i + 1) };
                assert(more.inks.drop_last() =~= all.take(i as int));
                assert(more.inks.last() == self.inks@[i as int]@);
            }
            match self.inks[i].tint {
                Some(tint) => {
                    out.append(&paint(&self.inks[i].text, tint.code(), colour));
                },
                None => out.append(&self.inks[i].text),
            }
            i += 1;
        }
        assert(all.take(i as int) =~= all);
        out
    }
}

/// Decides once, from the three things that all mean no.
///
/// `NO_COLOR` is the cross-tool convention; `--no-color` is the explicit ask; and a
/// stdout that is not a terminal is a pipe or a log file, where escape codes are
/// noise. Under launchd stdout is a file, so an agent's log never contains them.
#[must_use]
pub fn decide_colour(disabled_by_flag: bool, no_color_is_set: bool, on_a_terminal: bool) -> (out:
    bool)
    ensures
        out == (!disabled_by_flag && !no_color_is_set && on_a_terminal),
{
    !disabled_by_flag && !no_color_is_set && on_a_terminal
}

// ---------------------------------------------------------------------------
// Laws
// ---------------------------------------------------------------------------

pub const ESCAPE: char = '\x1b';

/// What a terminal shows of a text: every escape sequence is taken out, up to the `m` that ends
/// it.
pub open spec fn stripped(s: Seq<char>) -> Seq<char>
    decreases s.len(),
{
    if s.len() == 0 {
        Seq::empty()
    } else if s[0] == ESCAPE {
        let end = text::position(s, 'm');
        if 0 <= end < s.len() {
            stripped(s.skip(end + 1))
        } else {
            Seq::empty()
        }
    } else {
        seq![s[0]] + stripped(s.skip(1))
    }
}

proof fn lemma_plain(t: Seq<char>, rest: Seq<char>)
    requires
        !t.contains(ESCAPE),
    ensures
        stripped(t + rest) == t + stripped(rest),
    decreases t.len(),
{
    if t.len() == 0 {
        assert(t + rest =~= rest);
        assert(t + stripped(rest) =~= stripped(rest));
    } else {
        let tail = t.skip(1);
        assert forall|c: char| tail.contains(c) implies t.contains(c) by {
            let k = choose|k: int| 0 <= k < tail.len() && tail[k] == c;
            assert(t[k + 1] == c);
        }
        lemma_plain(tail, rest);
        assert(t.contains(t[0]));
        assert((t + rest).skip(1) =~= tail + rest);
        assert(t + stripped(rest) =~= seq![t[0]] + (tail + stripped(rest)));
    }
}

proof fn lemma_first(s: Seq<char>, at: int, c: char)
    requires
        0 <= at < s.len(),
        s[at] == c,
        forall|k: int| 0 <= k < at ==> s[k] != c,
    ensures
        text::position(s, c) == at,
    decreases at,
{
    if at > 0 {
        assert(s[0] != c);
        assert forall|k: int| 0 <= k < at - 1 implies s.skip(1)[k] != c by {
            assert(s[k + 1] != c);
        }
        lemma_first(s.skip(1), at - 1, c);
    }
}

proof fn lemma_sequence(head: Seq<char>, rest: Seq<char>)
    requires
        head.len() > 0,
        head[0] == ESCAPE,
        head.last() == 'm',
        forall|k: int| 0 <= k < head.len() - 1 ==> head[k] != 'm',
    ensures
        stripped(head + rest) == stripped(rest),
{
    let s = head + rest;
    lemma_first(s, head.len() - 1, 'm');
    assert(s.skip(head.len() as int) =~= rest);
}

proof fn lemma_code(tint: Tint)
    ensures
        !tint.code_text().contains('m'),
{
    reveal_strlit("31");
    reveal_strlit("33");
    reveal_strlit("32");
    reveal_strlit("2");
    reveal_strlit("36");
    reveal_strlit("34");
    reveal_strlit("1");
    reveal_strlit("1;31");
    reveal_strlit("1;33");
    reveal_strlit("1;36");
    reveal_strlit("1;32");
}

proof fn lemma_painted(t: Seq<char>, tint: Tint, rest: Seq<char>)
    requires
        !t.contains(ESCAPE),
    ensures
        stripped(painted(t, tint.code_text()) + rest) == t + stripped(rest),
{
    reveal_strlit("\x1b[");
    reveal_strlit("m");
    reveal_strlit("\x1b[0");
    let code = tint.code_text();
    lemma_code(tint);
    let head = "\x1b["@ + code + "m"@;
    let tail = "\x1b[0"@ + "m"@;
    assert(painted(t, code) + rest =~= head + (t + (tail + rest)));
    assert forall|k: int| 0 <= k < head.len() - 1 implies head[k] != 'm' by {
        if 2 <= k {
            assert(head[k] == code[k - 2]);
            assert(code.contains(code[k - 2]));
        }
    }
    lemma_sequence(head, t + (tail + rest));
    lemma_plain(t, tail + rest);
    lemma_sequence(tail, rest);
}

proof fn lemma_stripped_page(p: PageView, rest: Seq<char>)
    requires
        forall|k: int| 0 <= k < p.inks.len() ==> !(#[trigger] p.inks[k]).text.contains(ESCAPE),
    ensures
        stripped(p.shown(true) + rest) == p.shown(false) + stripped(rest),
    decreases p.inks.len(),
{
    if p.inks.len() == 0 {
        assert(p.shown(true) + rest =~= rest);
        assert(p.shown(false) + stripped(rest) =~= stripped(rest));
    } else {
        let most = PageView { inks: p.inks.drop_last() };
        let last = p.inks.last();
        assert(p.inks[p.inks.len() - 1] == last);
        assert forall|k: int| 0 <= k < most.inks.len() implies !(
        #[trigger] most.inks[k]).text.contains(ESCAPE) by {
            assert(most.inks[k] == p.inks[k]);
        }
        lemma_stripped_page(most, last.shown(true) + rest);
        match last.tint {
            Some(tint) => lemma_painted(last.text, tint, rest),
            None => lemma_plain(last.text, rest),
        }
        assert(p.shown(true) + rest =~= most.shown(true) + (last.shown(true) + rest));
        assert(p.shown(false) + stripped(rest) =~= most.shown(false) + (last.text + stripped(
            rest,
        )));
    }
}

/// Colour is emphasis on text that already says it: what a terminal shows of a coloured page is
/// the page without colour, character for character, so no column moves.
pub proof fn colour_changes_no_text(p: PageView)
    requires
        forall|k: int| 0 <= k < p.inks.len() ==> !(#[trigger] p.inks[k]).text.contains(ESCAPE),
    ensures
        stripped(p.shown(true)) == p.shown(false),
{
    lemma_stripped_page(p, Seq::empty());
    assert(p.shown(true) + Seq::<char>::empty() =~= p.shown(true));
    assert(p.shown(false) + stripped(Seq::empty()) =~= p.shown(false));
}

} // verus!
