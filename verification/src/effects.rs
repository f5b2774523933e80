//! The decisions of the background workers: which directories the scanner
//! reports, what a deletion worker reports, and how the size of a directory
//! is read from the output of `du`.

use vstd::prelude::*;
use crate::dir_entry_item::DirEntryItem;
use crate::event::{DirDelete, DirSearch};
use crate::text::{chars_of, same_text};

verus! {

/// The name of the directories that the scanner looks for.
pub const TARGET_NAME: &'static str = "node_modules";

/// The scanner reports its progress at every entry whose number, counted
/// from zero, is a multiple of this.
pub const PROGRESS_EVERY: u64 = 100;

/// `Path::starts_with` of the standard library: whether `base` is a prefix of
/// `path`, whole components only. How a path falls into components depends
/// on the platform, so nothing is claimed of the answer.
#[verifier::external_body]
fn path_starts_with(path: &str, base: &str) -> bool {
    std::path::Path::new(path).starts_with(base)
}

/// What the scanner remembers between two entries.
#[derive(Debug)]
pub struct Scanner {
    last_found: Option<String>,
    visited: u64,
    found: u64,
}

/// The scanner's memory as plain values.
pub struct ScannerView {
    /// The path of the directory reported last.
    pub last_found: Option<Seq<char>>,
    /// The entries visited so far.
    pub visited: nat,
    /// The directories reported so far.
    pub found: nat,
}

/// What to do about one entry of the walk.
#[derive(Debug, Clone, Copy, PartialEq, Eq, Structural)]
pub struct Visit {
    /// The progress to report before anything else, if any: the entries
    /// visited before this one.
    pub progress: Option<u64>,
    /// Whether to report the entry as a directory found.
    pub report: bool,
}

impl ScannerView {
    /// Whether the entry qualifies: a directory with the name looked for.
    pub open spec fn qualifies(is_dir: bool, name: Option<Seq<char>>) -> bool {
        is_dir && name == Some(TARGET_NAME@)
    }

    /// Whether the entry is reported: it qualifies and does not lie below
    /// the directory reported last.
    pub open spec fn reports(self, is_dir: bool, name: Option<Seq<char>>, nested: bool) -> bool {
        Self::qualifies(is_dir, name) && !(self.last_found is Some && nested)
    }

    /// The scanner's memory after an entry. `nested` says whether the entry
    /// lies below the directory reported last.
    pub open spec fn stepped(
        self,
        path: Seq<char>,
        is_dir: bool,
        name: Option<Seq<char>>,
        nested: bool,
    ) -> ScannerView {
        if self.reports(is_dir, name, nested) {
            ScannerView {
                last_found: Some(path),
                visited: self.visited + 1,
                found: self.found + 1,
            }
        } else {
            ScannerView { visited: self.visited + 1, ..self }
        }
    }

    /// What to do about an entry.
    pub open spec fn visit(self, is_dir: bool, name: Option<Seq<char>>, nested: bool) -> Visit {
        Visit {
            progress: if self.visited % (PROGRESS_EVERY as nat) == 0 {
                Some(self.visited as u64)
            } else {
                None
            },
            report: self.reports(is_dir, name, nested),
        }
    }
}

impl View for Scanner {
    type V = ScannerView;

    closed spec fn view(&self) -> ScannerView {
        ScannerView {
            last_found: match self.last_found {
                Some(p) => Some(p@),
                None => None,
            },
            visited: self.visited as nat,
            found: self.found as nat,
        }
    }
}

impl Scanner {
    /// The validity of the scanner: it has reported no more directories than
    /// it has visited entries, and both counts fit the machine.
    pub open spec fn wf(&self) -> bool {
        self@.found <= self@.visited <= u64::MAX
    }

    /// The scanner before the first entry.
    pub fn new() -> (scanner: Scanner)
        ensures
            scanner@ == (ScannerView { last_found: None, visited: 0, found: 0 }),
            scanner.wf(),
    {
        Scanner { last_found: None, visited: 0, found: 0 }
    }

    /// The entries visited so far.
    pub fn visited(&self) -> (n: u64)
        ensures
            n == self@.visited,
    {
        self.visited
    }

    /// The directories reported so far.
    pub fn found(&self) -> (n: u64)
        ensures
            n == self@.found,
    {
        self.found
    }

    /// Whether another entry can be counted.
    pub fn has_room(&self) -> (b: bool)
        ensures
            b == (self@.visited < u64::MAX),
    {
        self.visited < u64::MAX
    }

    /// Takes note of one entry of the walk, given whether it lies below the
    /// directory reported last, and says what to do about it.
    pub fn step(&mut self, path: &str, is_dir: bool, name: Option<&str>, nested: bool) -> (visit:
        Visit)
        requires
            old(self).wf(),
            old(self)@.visited < u64::MAX,
        ensures
            final(self).wf(),
            final(self)@ == old(self)@.stepped(path@, is_dir, name_text(name), nested),
            visit == old(self)@.visit(is_dir, name_text(name), nested),
    {
        let progress = if self.visited % PROGRESS_EVERY == 0 {
            Some(self.visited)
        } else {
            None
        };
        self.visited += 1;
        let qualifies = is_dir && match name {
            Some(n) => same_text(n, TARGET_NAME),
            None => false,
        };
        let report = qualifies && !(self.last_found.is_some() && nested);
        if report {
            self.last_found = Some(path.to_owned());
            self.found += 1;
        }
        Visit { progress, report }
    }

    /// Takes note of one entry of the walk and says what to do about it. An
    /// entry that qualifies is compared with the directory reported last by
    /// `Path::starts_with`; whatever that answers, the scanner does what
    /// `step` does with the answer.
    pub fn visit(&mut self, path: &str, is_dir: bool, name: Option<&str>) -> (visit: Visit)
        requires
            old(self).wf(),
            old(self)@.visited < u64::MAX,
        ensures
            final(self).wf(),
            exists|nested: bool|
                {
                    &&& final(self)@ == old(self)@.stepped(path@, is_dir, name_text(name), nested)
                    &&& visit == old(self)@.visit(is_dir, name_text(name), nested)
                },
            old(self)@.last_found is None ==> visit.report == ScannerView::qualifies(
                is_dir,
                name_text(name),
            ),
            !ScannerView::qualifies(is_dir, name_text(name)) ==> !visit.report,
    {
        let nested = match &self.last_found {
            Some(previous) => path_starts_with(path, previous.as_str()),
            None => false,
        };
        self.step(path, is_dir, name, nested)
    }

    /// The report that ends the scan: entries visited, directories found.
    pub fn finish(&self) -> (report: DirSearch)
        ensures
            report == DirSearch::Finished(self@.visited as u64, self@.found as u64),
    {
        DirSearch::Finished(self.visited, self.found)
    }
}

/// Each entry is counted once; a directory is reported only if it qualifies,
/// and never if it lies below the directory reported last; the count of
/// reported directories rises exactly when one is reported, and that
/// directory is then the one reported last.
pub proof fn lemma_scanner_step(
    scanner: ScannerView,
    path: Seq<char>,
    is_dir: bool,
    name: Option<Seq<char>>,
    nested: bool,
)
    ensures
        scanner.stepped(path, is_dir, name, nested).visited == scanner.visited + 1,
        scanner.visit(is_dir, name, nested).report ==> ScannerView::qualifies(is_dir, name),
        scanner.last_found is Some && nested ==> !scanner.visit(is_dir, name, nested).report,
        scanner.visit(is_dir, name, nested).report ==> scanner.stepped(
            path,
            is_dir,
            name,
            nested,
        ).found == scanner.found + 1 && scanner.stepped(path, is_dir, name, nested).last_found
            == Some(path),
        !scanner.visit(is_dir, name, nested).report ==> scanner.stepped(
            path,
            is_dir,
            name,
            nested,
        ).found == scanner.found && scanner.stepped(path, is_dir, name, nested).last_found
            == scanner.last_found,
        scanner.visit(is_dir, name, nested).progress is Some <==> scanner.visited % 100 == 0,
        scanner.visited <= u64::MAX ==> (scanner.visit(is_dir, name, nested).progress matches Some(
            n,
        ) ==> n == scanner.visited),
{
}

/// The name of an entry as a sequence of characters.
pub open spec fn name_text(name: Option<&str>) -> Option<Seq<char>> {
    match name {
        Some(n) => Some(n@),
        None => None,
    }
}

/// The report that a directory was found, with its size; a size that could
/// not be had counts as zero.
pub fn found_report(path: String, size: Option<u64>) -> (report: DirSearch)
    ensures
        report == DirSearch::Found(
            path,
            match size {
                Some(s) => s,
                None => 0,
            },
        ),
{
    match size {
        Some(s) => DirSearch::Found(path, s),
        None => DirSearch::Found(path, 0),
    }
}

/// The report that the removal of an entry begins.
pub fn deletion_started(item: &DirEntryItem) -> (report: DirDelete)
    ensures
        report == DirDelete::Deleting(item.path, item.size),
{
    DirDelete::Deleting(item.path.clone(), item.size)
}

/// The report that ends the removal of an entry: gone where nothing went
/// wrong, failed with the reason otherwise.
pub fn deletion_ended(item: &DirEntryItem, failure: Option<String>) -> (report: DirDelete)
    ensures
        report == match failure {
            None => DirDelete::Deleted(item.path, item.size),
            Some(reason) => DirDelete::Failed(item.path, item.size, reason),
        },
{
    match failure {
        None => DirDelete::Deleted(item.path.clone(), item.size),
        Some(reason) => DirDelete::Failed(item.path.clone(), item.size, reason),
    }
}

/// Whether the character separates words: the white space of Unicode.
pub open spec fn is_space(c: char) -> bool {
    let u = c as u32;
    ||| 0x09 <= u <= 0x0D
    ||| u == 0x20
    ||| u == 0x85
    ||| u == 0xA0
    ||| u == 0x1680
    ||| 0x2000 <= u <= 0x200A
    ||| u == 0x2028
    ||| u == 0x2029
    ||| u == 0x202F
    ||| u == 0x205F
    ||| u == 0x3000
}

/// Whether the character is a decimal digit.
pub open spec fn is_digit(c: char) -> bool {
    0x30 <= c as u32 <= 0x39
}

/// The value of a decimal digit.
pub open spec fn digit_of(c: char) -> nat {
    (c as u32 - 0x30) as nat
}

/// Where the run of white space that begins at `from` ends.
pub open spec fn spaces_end(s: Seq<char>, from: int) -> int
    decreases s.len() - from,
{
    if 0 <= from < s.len() && is_space(s[from]) {
        spaces_end(s, from + 1)
    } else {
        from
    }
}

/// Where the word that begins at `from` ends.
pub open spec fn word_end(s: Seq<char>, from: int) -> int
    decreases s.len() - from,
{
    if 0 <= from < s.len() && !is_space(s[from]) {
        word_end(s, from + 1)
    } else {
        from
    }
}

/// The first word of a text: what stands between the leading white space
/// and the next white space. It is empty where the text holds no word.
pub open spec fn first_word(s: Seq<char>) -> Seq<char> {
    s.subrange(spaces_end(s, 0), word_end(s, spaces_end(s, 0)))
}

/// Whether every character is a decimal digit.
pub open spec fn all_digits(t: Seq<char>) -> bool {
    forall|i: int| 0 <= i < t.len() ==> is_digit(#[trigger] t[i])
}

/// The number that a sequence of decimal digits stands for.
pub open spec fn decimal(t: Seq<char>) -> nat
    decreases t.len(),
{
    if t.len() == 0 {
        0
    } else {
        decimal(t.drop_last()) * 10 + digit_of(t.last())
    }
}

/// The number that a word stands for: an optional `+`, then at least one
/// decimal digit and nothing else, the whole no larger than a `u64` holds.
pub open spec fn unsigned(word: Seq<char>) -> Option<u64> {
    let body = if word.len() > 0 && word[0] == '+' {
        word.subrange(1, word.len() as int)
    } else {
        word
    };
    if body.len() > 0 && all_digits(body) && decimal(body) <= u64::MAX {
        Some(decimal(body) as u64)
    } else {
        None
    }
}

/// The size that the output of `du` states: the number that its first word
/// stands for, if it stands for one.
pub open spec fn du_size(output: Seq<char>) -> Option<u64> {
    unsigned(first_word(output))
}

/// The number of a longer sequence of digits is no smaller than that of its
/// beginning.
pub proof fn lemma_decimal_grows(t: Seq<char>, k: int)
    requires
        0 <= k <= t.len(),
    ensures
        decimal(t.take(k)) <= decimal(t),
    decreases t.len(),
{
    if k == t.len() {
        assert(t.take(k) == t);
    } else {
        lemma_decimal_grows(t.drop_last(), k);
        assert(t.drop_last().take(k) == t.take(k));
    }
}

fn is_space_char(c: char) -> (b: bool)
    ensures
        b == is_space(c),
{
    let u = c as u32;
    (0x09 <= u && u <= 0x0D) || u == 0x20 || u == 0x85 || u == 0xA0 || u == 0x1680 || (0x2000 <= u
        && u <= 0x200A) || u == 0x2028 || u == 0x2029 || u == 0x202F || u == 0x205F || u == 0x3000
}

/// Reads the size of a directory from the output of `du`: the first word of
/// the output, taken as a decimal number. Returns `None` where the output
/// holds no word, where the word is not a number, and where the number is
/// larger than a `u64` holds.
pub fn parse_du_output(output: &str) -> (size: Option<u64>)
    ensures
        size == du_size(output@),
{
    let v = chars_of(output);
    let ghost s = v@;
    let mut a: usize = 0;
    while a < v.len() && is_space_char(v[a])
        invariant
            s == v@,
            a <= v.len(),
            spaces_end(s, 0) == spaces_end(s, a as int),
        decreases v.len() - a,
    {
        a += 1;
    }
    let mut b: usize = a;
    while b < v.len() && !is_space_char(v[b])
        invariant
            s == v@,
            a <= b <= v.len(),
            word_end(s, a as int) == word_end(s, b as int),
        decreases v.len() - b,
    {
        b += 1;
    }
    let ghost word = s.subrange(a as int, b as int);
    assert(word == first_word(s));
    let mut start: usize = a;
    if start < b && v[start] == '+' {
        start += 1;
    }
    let ghost body = s.subrange(start as int, b as int);
    proof {
        if word.len() > 0 && word[0] == '+' {
            assert(body =~= word.subrange(1, word.len() as int));
        } else {
            assert(body =~= word);
        }
    }
    assert(du_size(output@) == if body.len() > 0 && all_digits(body) && decimal(body) <= u64::MAX {
        Some(decimal(body) as u64)
    } else {
        None
    });
    if start == b {
        return None;
    }
    let mut acc: u64 = 0;
    let mut k: usize = start;
    while k < b
        invariant
            s == v@,
            start <= k <= b <= v.len(),
            body == s.subrange(start as int, b as int),
            du_size(output@) == if body.len() > 0 && all_digits(body) && decimal(body) <= u64::MAX {
                Some(decimal(body) as u64)
            } else {
                None
            },
            all_digits(body.take(k - start)),
            acc == decimal(body.take(k - start)),
        decreases b - k,
    {
        let u = v[k] as u32;
        if u < 0x30 || u > 0x39 {
            assert(!is_digit(body[k - start]));
            return None;
        }
        let d = (u - 0x30) as u64;
        proof {
            let next = body.take(k - start + 1);
            assert(next.drop_last() == body.take(k - start));
            assert(next.last() == v@[k as int]);
            assert(decimal(next) == acc * 10 + d);
            lemma_decimal_grows(body, k - start + 1);
            assert forall|i: int| 0 <= i < next.len() implies is_digit(#[trigger] next[i]) by {
                if i < next.len() - 1 {
                    assert(body.take(k - start)[i] == next[i]);
                }
            }
        }
        if acc > (u64::MAX - d) / 10 {
            return None;
        }
        acc = acc * 10 + d;
        k += 1;
    }
    assert(body.take(b - start) == body);
    Some(acc)
}

/// The size of a directory in bytes, from the number that `du` printed and
/// the bytes that one of its blocks holds; zero where the number could not be
/// read or the product is larger than a `u64` holds.
pub fn size_in_bytes(blocks: Option<u64>, block_size: u64) -> (size: u64)
    ensures
        size == match blocks {
            Some(n) => if n * block_size <= u64::MAX {
                (n * block_size) as u64
            } else {
                0
            },
            None => 0,
        },
{
    match blocks {
        Some(n) => {
            match n.checked_mul(block_size) {
                Some(bytes) => bytes,
                None => 0,
            }
        },
        None => 0,
    }
}

} // verus!
