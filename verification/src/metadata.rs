//! What a git tree cannot hold: permissions, ownership and extended
//! attributes.
//!
//! **Git records one bit per file.** A tree entry is `100644`, `100755`, `120000` or
//! `040000`, so a file stored at `0600` comes back `0644` - readable by everyone on
//! the restoring machine. That is not a detail: the store deliberately keeps
//! gitignored content, which is where `.env` files and keys live. Restoring those secrets
//! world-readable undoes the whole of it.
//!
//! The answer is a manifest inside the tree, written at capture and replayed at restore.
//!
//! ## What is deliberately not recorded
//!
//! **Modification times.** Recording one means the manifest changes whenever a file is
//! touched, so a backup that found no content change still commits a diff - and the
//! history stops being a record of what changed.
//!
//! **`com.apple.provenance`**, which macOS attaches to essentially every file, and
//! **`com.apple.quarantine`**, which marks a file as downloaded from the internet.
//! Both are the system's to manage.

pub mod replay;

use crate::lines;
use crate::octets::utf8_text;
use crate::primitives::encode;
use crate::primitives::encode::{percent_component, percent_decode, unhex};
use crate::primitives::oid;
use crate::primitives::oid::hex;
use crate::primitives::path;
use crate::text;
use crate::text::{chars_of, join_text, repeat, same, split_text};
use crate::textmap;
use crate::textmap::TextMap;
use vstd::prelude::*;
use vstd::utf8::*;

pub use replay::{apply, capture, Applied};

verus! {

/// Where the manifest sits in the store's tree.
pub const MANIFEST: &'static str = ".tycho/metadata.tsv";

/// What one path carried that the tree entry could not.
#[derive(Debug, PartialEq, Eq)]
pub struct Record {
    /// The full permission bits, not just the execute bit git keeps.
    pub mode: u32,
    /// By name rather than by number: uid 501 is a different person on a different
    /// machine, and a recovery onto a new machine is the case this exists for.
    pub owner: String,
    pub group: String,
    pub xattrs: Vec<(String, Vec<u8>)>,
}

/// Every record, keyed by tree path so the rendering is ordered and a diff is minimal.
pub type Manifest = TextMap<Record>;

pub type Attribute = (Seq<char>, Seq<u8>);

/// A record's fields.
#[verifier::ext_equal]
pub struct RecordView {
    pub mode: u32,
    pub owner: Seq<char>,
    pub group: Seq<char>,
    pub xattrs: Seq<Attribute>,
}

pub open spec fn attribute_views(xattrs: Seq<(String, Vec<u8>)>) -> Seq<Attribute> {
    xattrs.map_values(|x: (String, Vec<u8>)| (x.0@, x.1@))
}

impl View for Record {
    type V = RecordView;

    open spec fn view(&self) -> RecordView {
        RecordView {
            mode: self.mode,
            owner: self.owner@,
            group: self.group@,
            xattrs: attribute_views(self.xattrs@),
        }
    }
}

impl RecordView {
    /// A record before anything is known of its path.
    pub open spec fn blank() -> RecordView {
        RecordView { mode: 0, owner: Seq::empty(), group: Seq::empty(), xattrs: Seq::empty() }
    }
}

impl Default for Record {
    fn default() -> (out: Self)
        ensures
            out@ == RecordView::blank(),
    {
        let out = Record {
            mode: 0,
            owner: String::new(),
            group: String::new(),
            xattrs: Vec::new(),
        };
        assert(out@.xattrs =~= Seq::<Attribute>::empty());
        out
    }
}

/// A manifest as the records it holds.
pub open spec fn manifest_view(m: Map<Seq<char>, Record>) -> Map<Seq<char>, RecordView> {
    m.map_values(|r: Record| r@)
}

pub type Row = (Seq<char>, RecordView);

pub open spec fn record_rows(rows: Seq<(Seq<char>, Record)>) -> Seq<Row> {
    rows.map_values(|r: (Seq<char>, Record)| (r.0, r.1@))
}

// ---------------------------------------------------------------------------
// Numbers to the base of eight
// ---------------------------------------------------------------------------

/// A number to the base of eight, without leading zeros.
pub open spec fn octal_text(n: nat) -> Seq<char>
    decreases n,
{
    if n < 8 {
        seq![text::digit(n)]
    } else {
        octal_text(n / 8).push(text::digit(n % 8))
    }
}

/// A mode as it is written: to the base of eight, in four digits at least.
pub open spec fn mode_text(mode: u32) -> Seq<char> {
    let digits = octal_text(mode as nat);
    if digits.len() >= 4 {
        digits
    } else {
        text::repeated('0', (4 - digits.len()) as nat) + digits
    }
}

pub open spec fn octal_value(s: Seq<char>) -> nat
    decreases s.len(),
{
    if s.len() == 0 {
        0
    } else {
        octal_value(s.drop_last()) * 8 + (s.last() as nat - 48) as nat
    }
}

pub open spec fn all_octal(s: Seq<char>) -> bool {
    s.len() > 0 && forall|i: int| 0 <= i < s.len() ==> '0' <= #[trigger] s[i] && s[i] <= '7'
}

/// A mode read to the base of eight, with an optional plus sign before it.
pub open spec fn parsed_mode(s: Seq<char>) -> Option<u32> {
    let body = if s.len() > 0 && s[0] == '+' {
        s.skip(1)
    } else {
        s
    };
    if all_octal(body) && octal_value(body) <= u32::MAX {
        Some(octal_value(body) as u32)
    } else {
        None
    }
}

fn octal(n: u32) -> (out: String)
    ensures
        out@ == octal_text(n as nat),
    decreases n,
{
    let last: u8 = 48 + (n % 8) as u8;
    if n < 8 {
        let mut out = String::new();
        out.push(last as char);
        assert(out@ =~= seq![text::digit(n as nat)]);
        out
    } else {
        let mut out = octal(n / 8);
        out.push(last as char);
        out
    }
}

fn shown_mode(mode: u32) -> (out: String)
    ensures
        out@ == mode_text(mode),
{
    let digits = octal(mode);
    let n: usize = digits.as_str().unicode_len();
    if n >= 4 {
        return digits;
    }
    text::cat2(&repeat('0', 4 - n), &digits)
}

fn read_mode(s: &str) -> (out: Option<u32>)
    ensures
        out == parsed_mode(s@),
{
    let cs = chars_of(s);
    let n: usize = cs.len();
    let start: usize = if n > 0 && cs[0] == '+' {
        1
    } else {
        0
    };
    let ghost body = s@.skip(start as int);
    proof {
        if start == 0 {
            assert(body =~= s@);
        }
    }
    if start == n {
        return None;
    }
    let mut value: u32 = 0;
    let mut i: usize = start;
    assert(body.take(0) =~= Seq::<char>::empty());
    while i < n
        invariant
            start <= i <= n == cs@.len(),
            start <= 1,
            cs@ == s@,
            body == s@.skip(start as int),
            value == octal_value(body.take(i - start)),
            parsed_mode(s@) == (if all_octal(body) && octal_value(body) <= u32::MAX {
                Some(octal_value(body) as u32)
            } else {
                None::<u32>
            }),
            forall|j: int| 0 <= j < i - start ==> '0' <= #[trigger] body[j] && body[j] <= '7',
        decreases n - i,
    {
        let c = cs[i];
        assert(body[i - start] == c);
        if c < '0' || c > '7' {
            return None;
        }
        let d: u32 = c as u32 - 48;
        proof {
            let now = body.take(i + 1 - start);
            assert(now.drop_last() =~= body.take(i - start));
            assert(octal_value(now) == value * 8 + d);
        }
        if value > (u32::MAX - d) / 8 {
            proof {
                lemma_octal_grows(body, i + 1 - start);
            }
            return None;
        }
        value = value * 8 + d;
        i += 1;
    }
    assert(body.take(i - start) =~= body);
    Some(value)
}

proof fn lemma_octal_grows(s: Seq<char>, n: int)
    requires
        0 <= n <= s.len(),
    ensures
        octal_value(s.take(n)) <= octal_value(s),
    decreases s.len() - n,
{
    if n < s.len() {
        lemma_octal_grows(s, n + 1);
        assert(s.take(n + 1).drop_last() =~= s.take(n));
    } else {
        assert(s.take(n) =~= s);
    }
}

// ---------------------------------------------------------------------------
// Bytes in hexadecimal
// ---------------------------------------------------------------------------

/// The byte two characters stand for. A plus sign may stand in place of a leading zero.
pub open spec fn pair_value(a: u8, b: u8) -> Option<u8> {
    if a == 43 {
        encode::hex_value(b)
    } else if encode::hex_value(a) is Some && encode::hex_value(b) is Some {
        Some((encode::hex_value(a)->0 * 16 + encode::hex_value(b)->0) as u8)
    } else {
        None
    }
}

/// The bytes pairs of hexadecimal digits stand for, from `at` on.
pub open spec fn unhexed_from(raw: Seq<u8>, at: int) -> Option<Seq<u8>>
    decreases raw.len() - at,
{
    if at >= raw.len() {
        Some(Seq::empty())
    } else if at + 1 >= raw.len() {
        None
    } else {
        match (pair_value(raw[at], raw[at + 1]), unhexed_from(raw, at + 2)) {
            (Some(b), Some(rest)) => Some(seq![b] + rest),
            _ => None,
        }
    }
}

/// The bytes a text of hexadecimal digits stands for.
pub open spec fn unhexed(s: Seq<char>) -> Option<Seq<u8>> {
    unhexed_from(encode_utf8(s), 0)
}

fn read_pair(a: u8, b: u8) -> (out: Option<u8>)
    ensures
        out == pair_value(a, b),
{
    if a == 43 {
        return unhex(b);
    }
    match (unhex(a), unhex(b)) {
        (Some(high), Some(low)) => {
            let value: u8 = high * 16 + low;
            Some(value)
        },
        _ => None,
    }
}

pub fn unhex_text(s: &str) -> (out: Option<Vec<u8>>)
    ensures
        match out {
            Some(v) => unhexed(s@) == Some(v@),
            None => unhexed(s@) is None,
        },
{
    let raw = s.as_bytes();
    let n: usize = raw.len();
    if n % 2 != 0 {
        proof {
            lemma_odd(raw@, 0);
        }
        return None;
    }
    let mut out: Vec<u8> = Vec::new();
    let mut at: usize = 0;
    let ghost goal = unhexed(s@);
    proof {
        if let Some(rest) = goal {
            assert(out@ + rest =~= rest);
        }
    }
    while at < n
        invariant
            at <= n == raw@.len(),
            n % 2 == 0,
            at % 2 == 0,
            raw@ == encode_utf8(s@),
            goal == unhexed(s@),
            match unhexed_from(raw@, at as int) {
                Some(rest) => goal == Some(out@ + rest),
                None => goal is None,
            },
        decreases n - at,
    {
        let b = match read_pair(raw[at], raw[at + 1]) {
            Some(b) => b,
            None => return None,
        };
        let ghost before = out@;
        out.push(b);
        proof {
            if let Some(rest) = unhexed_from(raw@, at + 2) {
                assert(before + (seq![b] + rest) =~= out@ + rest);
            }
        }
        at = at + 2;
    }
    assert(out@ + Seq::<u8>::empty() =~= out@);
    Some(out)
}

proof fn lemma_odd(raw: Seq<u8>, at: int)
    requires
        0 <= at <= raw.len(),
        (raw.len() - at) % 2 == 1,
    ensures
        unhexed_from(raw, at) is None,
    decreases raw.len() - at,
{
    if at + 1 < raw.len() {
        lemma_odd(raw, at + 2);
    }
}

// ---------------------------------------------------------------------------
// Writing
// ---------------------------------------------------------------------------

/// A path as it is written in a manifest.
pub open spec fn encoded_path(path: Seq<char>) -> Seq<char> {
    encode::percent_encoded(encode_utf8(path))
}

/// The line that says what a path's mode and owner are.
pub open spec fn file_line(path: Seq<char>, r: RecordView) -> Seq<char> {
    text::join(seq!["f"@, mode_text(r.mode), r.owner, r.group, encoded_path(path)], "\t"@)
}

/// The line that says what one of a path's attributes holds.
pub open spec fn attribute_line(path: Seq<char>, x: Attribute) -> Seq<char> {
    text::join(seq!["x"@, x.0, oid::hex_text(x.1), encoded_path(path)], "\t"@)
}

pub open spec fn attribute_lines(path: Seq<char>, xattrs: Seq<Attribute>) -> Seq<Seq<char>> {
    xattrs.map_values(|x: Attribute| attribute_line(path, x))
}

/// One line per fact rather than one per path.
pub open spec fn row_lines(row: Row) -> Seq<Seq<char>> {
    seq![file_line(row.0, row.1)] + attribute_lines(row.0, row.1.xattrs)
}

/// The lines of the first `n` rows.
pub open spec fn all_lines(rows: Seq<Row>, n: int) -> Seq<Seq<char>>
    decreases n,
{
    if n <= 0 {
        Seq::empty()
    } else {
        all_lines(rows, n - 1) + row_lines(rows[n - 1])
    }
}

/// Lines one after another, each with its end.
pub open spec fn flat(all: Seq<Seq<char>>) -> Seq<char>
    decreases all.len(),
{
    if all.len() == 0 {
        Seq::empty()
    } else {
        flat(all.drop_last()) + all.last() + "\n"@
    }
}

/// One line per fact rather than one per path.
///
/// A path with four attributes is five lines, and changing one of them changes one
/// line. Packing them onto a single line would rewrite the whole entry for any change,
/// which is a worse diff in a file that is committed on every run.
///
/// Paths are percent-encoded through the encoder refnames already use, because a
/// filename may contain a tab or a newline and a manifest that a filename can corrupt
/// is not a manifest.
#[must_use]
pub fn render(manifest: &Manifest) -> (out: String)
    ensures
        out@ == flat(
            all_lines(record_rows(manifest.rows()), manifest.rows().len() as int),
        ),
{
    let ghost rows = record_rows(manifest.rows());
    let mut out = String::new();
    let n: usize = manifest.len();
    let mut i: usize = 0;
    while i < n
        invariant
            i <= n == manifest.rows().len(),
            rows == record_rows(manifest.rows()),
            out@ == flat(all_lines(rows, i as int)),
        decreases n - i,
    {
        let key = manifest.key(i);
        let record = manifest.value(i);
        assert(rows[i as int] == (key@, record@));
        let encoded = percent_component(key.as_bytes());
        let parts: Vec<String> = vec![
            "f".to_owned(),
            shown_mode(record.mode),
            record.owner.clone(),
            record.group.clone(),
            encoded.clone(),
        ];
        assert(text::views(parts@) =~= seq![
            "f"@,
            mode_text(record.mode),
            record.owner@,
            record.group@,
            encoded_path(key@),
        ]);
        let line = join_text(&parts, "\t");
        let ghost before = all_lines(rows, i as int);
        let ghost first = file_line(key@, record@);
        out.append(&line);
        out.append("\n");
        proof {
            assert((before + seq![first]).drop_last() =~= before);
        }
        let ghost more = attribute_lines(key@, record@.xattrs);
        let mut j: usize = 0;
        assert(before + seq![first] + more.take(0) =~= before + seq![first]);
        while j < record.xattrs.len()
            invariant
                j <= record.xattrs@.len(),
                more == attribute_lines(key@, record@.xattrs),
                encoded@ == encoded_path(key@),
                out@ == flat(before + seq![first] + more.take(j as int)),
            decreases record.xattrs@.len() - j,
        {
            let x = &record.xattrs[j];
            assert(record@.xattrs[j as int] == (x.0@, x.1@));
            let parts: Vec<String> = vec![
                "x".to_owned(),
                x.0.clone(),
                hex(&x.1),
                encoded.clone(),
            ];
            assert(text::views(parts@) =~= seq![
                "x"@,
                x.0@,
                oid::hex_text(x.1@),
                encoded_path(key@),
            ]);
            let line = join_text(&parts, "\t");
            out.append(&line);
            out.append("\n");
            j += 1;
            proof {
                let now = before + seq![first] + more.take(j as int);
                assert(now.drop_last() =~= before + seq![first] + more.take(j - 1));
                assert(now.last() == more[j - 1]);
            }
        }
        proof {
            assert(more.take(j as int) =~= more);
            assert(before + seq![first] + more =~= before + row_lines(rows[i as int]));
        }
        i += 1;
    }
    out
}

// ---------------------------------------------------------------------------
// Reading
// ---------------------------------------------------------------------------

/// The path a manifest's encoding stands for.
pub open spec fn decoded_path(encoded: Seq<char>) -> Option<Seq<char>> {
    match encode::percent_decoded(encode_utf8(encoded)) {
        Some(raw) => if valid_utf8(raw) {
            Some(decode_utf8(raw))
        } else {
            None
        },
        None => None,
    }
}

/// What is known of a path so far.
pub open spec fn entry_of(m: Map<Seq<char>, RecordView>, path: Seq<char>) -> RecordView {
    if m.contains_key(path) {
        m[path]
    } else {
        RecordView::blank()
    }
}

/// What one line adds. A line that says nothing this knows is passed over.
pub open spec fn with_line(m: Map<Seq<char>, RecordView>, line: Seq<char>) -> Map<
    Seq<char>,
    RecordView,
> {
    let f = text::split(line, '\t');
    if f.len() == 5 && f[0] == "f"@ {
        match (decoded_path(f[4]), parsed_mode(f[1])) {
            (Some(path), Some(mode)) => m.insert(
                path,
                RecordView { mode, owner: f[2], group: f[3], ..entry_of(m, path) },
            ),
            _ => m,
        }
    } else if f.len() == 4 && f[0] == "x"@ {
        match (decoded_path(f[3]), unhexed(f[2])) {
            (Some(path), Some(bytes)) => m.insert(
                path,
                RecordView {
                    xattrs: entry_of(m, path).xattrs.push((f[1], bytes)),
                    ..entry_of(m, path)
                },
            ),
            _ => m,
        }
    } else {
        m
    }
}

/// What the first `n` lines say.
pub open spec fn read_lines(all: Seq<Seq<char>>, n: int) -> Map<Seq<char>, RecordView>
    decreases n,
{
    if n <= 0 {
        Map::empty()
    } else {
        with_line(read_lines(all, n - 1), all[n - 1])
    }
}

/// What a text says.
pub open spec fn parsed(s: Seq<char>) -> Map<Seq<char>, RecordView> {
    read_lines(lines::lines_of(s), lines::lines_of(s).len() as int)
}

fn decode(encoded: &str) -> (out: Option<String>)
    ensures
        text::view_opt(out) == decoded_path(encoded@),
{
    match percent_decode(encoded) {
        Some(raw) => utf8_text(&raw),
        None => None,
    }
}

/// What is known of a path, taken out of the manifest.
fn take_entry(manifest: &mut Manifest, path: &str) -> (out: Record)
    ensures
        final(manifest)@ == old(manifest)@.remove(path@),
        out@ == entry_of(manifest_view(old(manifest)@), path@),
{
    match manifest.remove(path) {
        Some(record) => record,
        None => Record::default(),
    }
}

fn read_line(manifest: &mut Manifest, line: &str)
    ensures
        manifest_view(final(manifest)@) == with_line(manifest_view(old(manifest)@), line@),
{
    let ghost before = manifest@;
    let fields = split_text(line, '\t');
    let ghost f = text::views(fields@);
    if fields.len() == 5 && same(&fields[0], "f") {
        assert(f[1] == fields@[1]@ && f[2] == fields@[2]@ && f[3] == fields@[3]@ && f[4]
            == fields@[4]@);
        let path = match decode(&fields[4]) {
            Some(path) => path,
            None => return ,
        };
        let mode = match read_mode(&fields[1]) {
            Some(mode) => mode,
            None => return ,
        };
        let mut record = take_entry(manifest, &path);
        let ghost p = path@;
        record.mode = mode;
        record.owner = fields[2].clone();
        record.group = fields[3].clone();
        let ghost r = record;
        manifest.insert(path, record);
        assert(manifest_view(manifest@) =~= manifest_view(before).insert(p, r@));
    } else if fields.len() == 4 && same(&fields[0], "x") {
        assert(f[1] == fields@[1]@ && f[2] == fields@[2]@ && f[3] == fields@[3]@);
        let path = match decode(&fields[3]) {
            Some(path) => path,
            None => return ,
        };
        let bytes = match unhex_text(&fields[2]) {
            Some(bytes) => bytes,
            None => return ,
        };
        let mut record = take_entry(manifest, &path);
        let ghost p = path@;
        let ghost held = record@;
        let name = fields[1].clone();
        let ghost x = (name@, bytes@);
        record.xattrs.push((name, bytes));
        let ghost r = record;
        proof {
            assert(r@.xattrs =~= held.xattrs.push(x));
        }
        manifest.insert(path, record);
        assert(manifest_view(manifest@) =~= manifest_view(before).insert(p, r@));
    }
}

/// Reads what [`render`] wrote.
///
/// An unparsable line is skipped rather than failing a restore. A manifest
/// written by a newer version must not be able to stop an older one recovering the
/// files, which are the thing that matters.
#[must_use]
pub fn parse(text: &str) -> (out: Manifest)
    ensures
        manifest_view(out@) == parsed(text@),
{
    let mut manifest: Manifest = TextMap::new();
    let all = lines::lines(text);
    let ghost views = text::views(all@);
    let mut i: usize = 0;
    assert(manifest_view(manifest@) =~= read_lines(views, 0));
    while i < all.len()
        invariant
            i <= all@.len(),
            views == text::views(all@),
            manifest_view(manifest@) == read_lines(views, i as int),
        decreases all@.len() - i,
    {
        assert(views[i as int] == all@[i as int]@);
        read_line(&mut manifest, &all[i]);
        i += 1;
    }
    manifest
}

// ---------------------------------------------------------------------------
// Laws
// ---------------------------------------------------------------------------

proof fn lemma_octal_reads_back(n: nat)
    ensures
        all_octal(octal_text(n)),
        octal_value(octal_text(n)) == n,
    decreases n,
{
    if n < 8 {
        assert(octal_text(n).drop_last() =~= Seq::empty());
        assert(octal_value(Seq::empty()) == 0);
    } else {
        lemma_octal_reads_back(n / 8);
        let head = octal_text(n / 8);
        let whole = octal_text(n);
        assert(whole.drop_last() =~= head);
        assert forall|i: int| 0 <= i < whole.len() implies '0' <= #[trigger] whole[i] && whole[i]
            <= '7' by {
            if i < head.len() {
                assert(whole[i] == head[i]);
            }
        }
    }
}

proof fn lemma_leading_zeros(k: nat, s: Seq<char>)
    requires
        all_octal(s),
    ensures
        all_octal(text::repeated('0', k) + s),
        octal_value(text::repeated('0', k) + s) == octal_value(s),
    decreases s.len(),
{
    let whole = text::repeated('0', k) + s;
    assert forall|i: int| 0 <= i < whole.len() implies '0' <= #[trigger] whole[i] && whole[i]
        <= '7' by {
        if i >= k {
            assert(whole[i] == s[i - k]);
        }
    }
    lemma_zero_prefix(k, s);
}

proof fn lemma_zero_prefix(k: nat, s: Seq<char>)
    ensures
        octal_value(text::repeated('0', k) + s) == octal_value(s),
    decreases s.len() + k,
{
    let zeros = text::repeated('0', k);
    if s.len() == 0 {
        assert(zeros + s =~= zeros);
        if k > 0 {
            assert(zeros.drop_last() =~= text::repeated('0', (k - 1) as nat));
            lemma_zero_prefix((k - 1) as nat, s);
            assert(text::repeated('0', (k - 1) as nat) + s =~= text::repeated('0', (k - 1) as nat));
        }
    } else {
        assert((zeros + s).drop_last() =~= zeros + s.drop_last());
        assert((zeros + s).last() == s.last());
        lemma_zero_prefix(k, s.drop_last());
    }
}

/// The full mode survives, not just the bit git keeps.
pub proof fn modes_round_trip(mode: u32)
    ensures
        parsed_mode(mode_text(mode)) == Some(mode),
{
    let digits = octal_text(mode as nat);
    lemma_octal_reads_back(mode as nat);
    if digits.len() < 4 {
        lemma_leading_zeros((4 - digits.len()) as nat, digits);
    }
    assert('0' <= mode_text(mode)[0] && mode_text(mode)[0] <= '7');
}

/// An attribute's bytes survive being written in hexadecimal.
pub proof fn bytes_round_trip(bytes: Seq<u8>)
    ensures
        unhexed(oid::hex_text(bytes)) == Some(bytes),
{
    let shown = oid::hex_text(bytes);
    assert(is_ascii_chars(shown));
    is_ascii_chars_encode_utf8(shown);
    lemma_unhex_from(bytes, encode_utf8(shown), 0);
    assert(bytes.skip(0) =~= bytes);
}

proof fn lemma_unhex_from(bytes: Seq<u8>, raw: Seq<u8>, k: int)
    requires
        0 <= k <= bytes.len(),
        raw.len() == 2 * bytes.len(),
        forall|i: int| 0 <= i < raw.len() ==> #[trigger] raw[i] == oid::hex_text(bytes)[i] as u8,
    ensures
        unhexed_from(raw, 2 * k) == Some(bytes.skip(k)),
    decreases bytes.len() - k,
{
    if k < bytes.len() {
        lemma_unhex_from(bytes, raw, k + 1);
        let b = bytes[k];
        assert(raw[2 * k] == oid::hex_lower(b / 16) as u8);
        assert(raw[2 * k + 1] == oid::hex_lower(b % 16) as u8);
        assert(pair_value(raw[2 * k], raw[2 * k + 1]) == Some(b));
        assert(seq![b] + bytes.skip(k + 1) =~= bytes.skip(k));
    } else {
        assert(bytes.skip(k) =~= Seq::<u8>::empty());
    }
}

/// A path survives being written, whatever it holds.
pub proof fn paths_round_trip(path: Seq<char>)
    ensures
        decoded_path(encoded_path(path)) == Some(path),
{
    encode::percent_round_trips(encode_utf8(path));
    encode_utf8_valid_utf8(path);
    encode_utf8_decode_utf8(path);
}

/// Whether a name can stand between two tabs on a line.
pub open spec fn tabless(s: Seq<char>) -> bool {
    !s.contains('\t') && !s.contains('\n')
}

/// Whether every name of a row can stand between two tabs on a line.
pub open spec fn writable(row: Row) -> bool {
    &&& tabless(row.1.owner)
    &&& tabless(row.1.group)
    &&& forall|i: int| 0 <= i < row.1.xattrs.len() ==> tabless((#[trigger] row.1.xattrs[i]).0)
}

proof fn lemma_encoded_is_plain(path: Seq<char>)
    ensures
        forall|i: int|
            0 <= i < encoded_path(path).len() ==> {
                let c = #[trigger] encoded_path(path)[i];
                c != '\t' && c != '\n' && c != '\r'
            },
{
    encode::percent_is_a_safe_component(encode_utf8(path));
    assert forall|i: int| 0 <= i < encoded_path(path).len() implies {
        let c = #[trigger] encoded_path(path)[i];
        c != '\t' && c != '\n' && c != '\r'
    } by {
        assert(encode::component_char(encoded_path(path)[i]));
    }
}

proof fn lemma_mode_is_plain(mode: u32)
    ensures
        tabless(mode_text(mode)),
{
    let digits = octal_text(mode as nat);
    lemma_octal_reads_back(mode as nat);
    if digits.len() < 4 {
        lemma_leading_zeros((4 - digits.len()) as nat, digits);
    }
}

proof fn lemma_hex_is_plain(bytes: Seq<u8>)
    ensures
        tabless(oid::hex_text(bytes)),
{
}

/// Parts without tabs or line ends join to a line that splits back into them.
proof fn lemma_line(parts: Seq<Seq<char>>)
    requires
        parts.len() > 0,
        forall|i: int| 0 <= i < parts.len() ==> tabless(#[trigger] parts[i]),
        parts.last().len() > 0 ==> parts.last().last() != '\r',
        parts.last().len() == 0 ==> parts.len() > 1,
    ensures
        text::split(text::join(parts, "\t"@), '\t') == parts,
        !text::join(parts, "\t"@).contains('\n'),
        text::join(parts, "\t"@).len() > 0 ==> text::join(parts, "\t"@).last() != '\r',
{
    reveal_strlit("\t");
    assert("\t"@ =~= seq!['\t']);
    path::lemma_split_join(parts, '\t');
    lemma_join_plain(parts);
    let whole = text::join(parts, "\t"@);
    if parts.len() > 1 {
        let head = text::join(parts.drop_last(), "\t"@) + "\t"@;
        assert(whole == head + parts.last());
        if parts.last().len() == 0 {
            assert(whole =~= head);
            assert(head.last() == '\t');
        } else {
            assert(whole.last() == parts.last().last());
        }
    }
}

proof fn lemma_join_plain(parts: Seq<Seq<char>>)
    requires
        forall|i: int| 0 <= i < parts.len() ==> tabless(#[trigger] parts[i]),
    ensures
        !text::join(parts, "\t"@).contains('\n'),
    decreases parts.len(),
{
    reveal_strlit("\t");
    if parts.len() > 1 {
        assert forall|i: int| 0 <= i < parts.drop_last().len() implies tabless(
            #[trigger] parts.drop_last()[i],
        ) by {
            assert(parts.drop_last()[i] == parts[i]);
        }
        lemma_join_plain(parts.drop_last());
        let a = text::join(parts.drop_last(), "\t"@);
        let b = parts.last();
        assert(tabless(parts[parts.len() - 1]));
        let whole = text::join(parts, "\t"@);
        if whole.contains('\n') {
            let i = choose|i: int| 0 <= i < whole.len() && whole[i] == '\n';
            if i < a.len() {
                assert(a[i] == '\n');
                assert(a.contains('\n'));
            } else if i == a.len() {
                assert(whole[i] == '\t');
            } else {
                assert(b[i - a.len() - 1] == '\n');
                assert(b.contains('\n'));
            }
        }
    } else if parts.len() == 1 {
        assert(tabless(parts[0]));
    }
}

proof fn lemma_flat_front(first: Seq<char>, rest: Seq<Seq<char>>)
    ensures
        flat(seq![first] + rest) == first + "\n"@ + flat(rest),
    decreases rest.len(),
{
    let all = seq![first] + rest;
    if rest.len() == 0 {
        assert(all.drop_last() =~= Seq::<Seq<char>>::empty());
        assert(all.last() == first);
        let none: Seq<char> = Seq::empty();
        assert(flat(all.drop_last()) == none);
        assert(none + first + "\n"@ =~= first + "\n"@ + none);
    } else {
        assert(all.drop_last() =~= seq![first] + rest.drop_last());
        assert(all.last() == rest.last());
        lemma_flat_front(first, rest.drop_last());
        let a = first + "\n"@;
        let b = flat(rest.drop_last());
        assert(a + b + rest.last() + "\n"@ =~= a + (b + rest.last() + "\n"@));
    }
}

/// Lines that hold no line end read back as they were written.
pub proof fn lemma_lines_of_flat(all: Seq<Seq<char>>)
    requires
        forall|i: int|
            0 <= i < all.len() ==> !(#[trigger] all[i]).contains('\n') && (all[i].len() > 0
                ==> all[i].last() != '\r'),
    ensures
        lines::lines_of(flat(all)) == all,
    decreases all.len(),
{
    if all.len() == 0 {
        assert(lines::lines_of(flat(all)) =~= all);
    } else {
        let rest = all.skip(1);
        assert forall|i: int| 0 <= i < rest.len() implies !(#[trigger] rest[i]).contains('\n') && (
        rest[i].len() > 0 ==> rest[i].last() != '\r') by {
            assert(rest[i] == all[i + 1]);
        }
        lemma_lines_of_flat(rest);
        assert(all =~= seq![all[0]] + rest);
        lemma_flat_front(all[0], rest);
        reveal_strlit("\n");
        assert("\n"@ =~= seq!['\n']);
        lines::lemma_first_line(all[0], flat(rest));
    }
}

/// Reading a row's lines gives the row.
proof fn lemma_row_reads_back(m: Map<Seq<char>, RecordView>, row: Row, k: int)
    requires
        writable(row),
        !m.contains_key(row.0),
        0 <= k <= row.1.xattrs.len(),
    ensures
        read_on(m, row_lines(row), k + 1) == m.insert(
            row.0,
            RecordView { xattrs: row.1.xattrs.take(k), ..row.1 },
        ),
        forall|i: int|
            0 <= i <= k ==> !(#[trigger] row_lines(row)[i]).contains('\n') && (
            row_lines(row)[i].len() > 0 ==> row_lines(row)[i].last() != '\r'),
    decreases k,
{
    let all = row_lines(row);
    let path = row.0;
    let encoded = encoded_path(path);
    lemma_encoded_is_plain(path);
    paths_round_trip(path);
    reveal_strlit("f");
    reveal_strlit("x");
    if k == 0 {
        let r = row.1;
        let parts = seq!["f"@, mode_text(r.mode), r.owner, r.group, encoded];
        lemma_mode_is_plain(r.mode);
        modes_round_trip(r.mode);
        assert(tabless(encoded));
        assert(tabless("f"@));
        lemma_line(parts);
        assert(all[0] == file_line(path, r));
        assert(read_on(m, all, 0) == m);
        assert(read_on(m, all, 1) == with_line(m, all[0]));
        assert(r.xattrs.take(0) =~= Seq::<Attribute>::empty());
        assert(entry_of(m, path) == RecordView::blank());
    } else {
        lemma_row_reads_back(m, row, k - 1);
        let x = row.1.xattrs[k - 1];
        let parts = seq!["x"@, x.0, oid::hex_text(x.1), encoded];
        lemma_hex_is_plain(x.1);
        bytes_round_trip(x.1);
        assert(tabless(encoded));
        assert(tabless("x"@));
        lemma_line(parts);
        assert(all[k] == attribute_line(path, x));
        assert("x"@[0] != "f"@[0]);
        let before = read_on(m, all, k);
        assert(read_on(m, all, k + 1) == with_line(before, all[k]));
        let held = RecordView { xattrs: row.1.xattrs.take(k - 1), ..row.1 };
        assert(entry_of(before, path) == held);
        assert(row.1.xattrs.take(k) =~= row.1.xattrs.take(k - 1).push(x));
        assert(before.insert(
            path,
            RecordView { xattrs: row.1.xattrs.take(k), ..row.1 },
        ) =~= m.insert(path, RecordView { xattrs: row.1.xattrs.take(k), ..row.1 }));
    }
}

/// What the first `n` lines add to what is known already.
spec fn read_on(m: Map<Seq<char>, RecordView>, all: Seq<Seq<char>>, n: int) -> Map<
    Seq<char>,
    RecordView,
>
    decreases n,
{
    if n <= 0 {
        m
    } else {
        with_line(read_on(m, all, n - 1), all[n - 1])
    }
}

proof fn lemma_read_on(a: Seq<Seq<char>>, b: Seq<Seq<char>>, n: int)
    requires
        0 <= n <= b.len(),
    ensures
        read_lines(a + b, a.len() + n) == read_on(read_lines(a, a.len() as int), b, n),
    decreases n,
{
    if n > 0 {
        lemma_read_on(a, b, n - 1);
        assert((a + b)[a.len() + n - 1] == b[n - 1]);
    } else {
        lemma_read_prefix(a, b, a.len() as int);
    }
}

proof fn lemma_read_prefix(a: Seq<Seq<char>>, b: Seq<Seq<char>>, n: int)
    requires
        0 <= n <= a.len(),
    ensures
        read_lines(a + b, n) == read_lines(a, n),
    decreases n,
{
    if n > 0 {
        lemma_read_prefix(a, b, n - 1);
        assert((a + b)[n - 1] == a[n - 1]);
    }
}

/// The rows a manifest holds, as a map.
pub open spec fn rows_map(rows: Seq<Row>) -> Map<Seq<char>, RecordView> {
    textmap::row_map(rows)
}

proof fn lemma_rows_read_back(rows: Seq<Row>, n: int)
    requires
        0 <= n <= rows.len(),
        text::sorted(textmap::row_keys(rows)),
        forall|i: int| 0 <= i < rows.len() ==> writable(#[trigger] rows[i]),
    ensures
        read_lines(all_lines(rows, n), all_lines(rows, n).len() as int) == rows_map(rows.take(n)),
        forall|i: int|
            0 <= i < all_lines(rows, n).len() ==> !(#[trigger] all_lines(rows, n)[i]).contains(
                '\n',
            ) && (all_lines(rows, n)[i].len() > 0 ==> all_lines(rows, n)[i].last() != '\r'),
    decreases n,
{
    if n > 0 {
        lemma_rows_read_back(rows, n - 1);
        let a = all_lines(rows, n - 1);
        let row = rows[n - 1];
        let b = row_lines(row);
        let m = rows_map(rows.take(n - 1));
        let k = row.1.xattrs.len() as int;
        assert(rows.take(n).drop_last() =~= rows.take(n - 1));
        assert forall|i: int, j: int|
            0 <= i < j < textmap::row_keys(rows.take(n - 1)).len() implies text::text_less(
            #[trigger] textmap::row_keys(rows.take(n - 1))[i],
            #[trigger] textmap::row_keys(rows.take(n - 1))[j],
        ) by {
            assert(textmap::row_keys(rows)[i] == textmap::row_keys(rows.take(n - 1))[i]);
            assert(textmap::row_keys(rows)[j] == textmap::row_keys(rows.take(n - 1))[j]);
        }
        textmap::lemma_row_map(rows.take(n - 1));
        assert(!m.contains_key(row.0)) by {
            if m.contains_key(row.0) {
                let i = choose|i: int|
                    0 <= i < rows.take(n - 1).len() && (#[trigger] rows.take(n - 1)[i]).0 == row.0;
                assert(text::text_less(
                    textmap::row_keys(rows)[i],
                    textmap::row_keys(rows)[n - 1],
                ));
                text::lemma_less_irreflexive(row.0);
            }
        }
        lemma_row_reads_back(m, row, k);
        assert(row.1.xattrs.take(k) =~= row.1.xattrs);
        assert(b.len() == k + 1);
        lemma_read_on(a, b, k + 1);
        assert(rows_map(rows.take(n)) == m.insert(row.0, row.1));
        assert forall|i: int| 0 <= i < all_lines(rows, n).len() implies !(#[trigger] all_lines(
            rows,
            n,
        )[i]).contains('\n') && (all_lines(rows, n)[i].len() > 0 ==> all_lines(rows, n)[i].last()
            != '\r') by {
            if i < a.len() {
                assert(all_lines(rows, n)[i] == a[i]);
            } else {
                assert(all_lines(rows, n)[i] == b[i - a.len()]);
            }
        }
    } else {
        assert(rows.take(0) =~= Seq::<Row>::empty());
    }
}

/// A manifest reads back as it was written, whatever its paths hold: the mode in full, the owner
/// and group by name, and every attribute byte for byte and in order. No owner, group or
/// attribute name may hold a tab or a line end.
pub proof fn a_manifest_round_trips(rows: Seq<Row>)
    requires
        text::sorted(textmap::row_keys(rows)),
        forall|i: int| 0 <= i < rows.len() ==> writable(#[trigger] rows[i]),
    ensures
        parsed(flat(all_lines(rows, rows.len() as int))) == rows_map(rows),
{
    let n = rows.len() as int;
    lemma_rows_read_back(rows, n);
    lemma_lines_of_flat(all_lines(rows, n));
    assert(rows.take(n) =~= rows);
}

/// A line this does not know leaves a manifest as it was.
pub proof fn an_unknown_line_is_skipped(m: Map<Seq<char>, RecordView>, line: Seq<char>)
    requires
        text::split(line, '\t')[0] != "f"@,
        text::split(line, '\t')[0] != "x"@,
    ensures
        with_line(m, line) == m,
{
}

} // verus!
