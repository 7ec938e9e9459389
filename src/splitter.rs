use vstd::prelude::*;
use vstd::arithmetic::div_mod::{lemma_fundamental_div_mod, lemma_fundamental_div_mod_converse};

use crate::text::{clean, clean_line};

verus! {

/// Progress is reported once every this many input lines.
pub const PROGRESS_INTERVAL: usize = 10_000;

/// The texts written for a sequence of raw input lines.
pub open spec fn cleaned(lines: Seq<Seq<u8>>) -> Seq<Seq<char>> {
    lines.map_values(|b: Seq<u8>| clean(b))
}

/// The output files that a sequence of lines is split into, each a sequence of
/// lines: there is always a first file, and a new file is started for a line
/// only when the current one already holds `t` lines.
pub open spec fn chunks(s: Seq<Seq<char>>, t: nat) -> Seq<Seq<Seq<char>>>
    decreases s.len(),
{
    if s.len() == 0 {
        seq![Seq::empty()]
    } else {
        let p = chunks(s.drop_last(), t);
        if p.last().len() >= t {
            p.push(seq![s.last()])
        } else {
            p.update(p.len() - 1, p.last().push(s.last()))
        }
    }
}

/// The number of output files for `n` lines: `ceil(n / t)`, and one for no line.
pub open spec fn file_count(n: nat, t: nat) -> nat {
    if n == 0 {
        1
    } else {
        ((n + t - 1) / t as int) as nat
    }
}

proof fn lemma_chunks_shape(s: Seq<Seq<char>>, t: nat)
    requires
        t >= 1,
    ensures
        chunks(s, t).len() >= 1,
        s.len() == 0 ==> chunks(s, t) == seq![Seq::<Seq<char>>::empty()],
        s.len() > 0 ==> chunks(s, t).len() == (s.len() - 1) / t as int + 1,
        s.len() > 0 ==> chunks(s, t).last().len() == (s.len() - 1) % t as int + 1,
        forall|j: int| 0 <= j < chunks(s, t).len() - 1 ==> (#[trigger] chunks(s, t)[j]).len() == t,
        chunks(s, t).flatten_alt() == s,
    decreases s.len(),
{
    if s.len() > 0 {
        let m = s.len() - 1;
        let x = s.last();
        let prev = s.drop_last();
        let p = chunks(prev, t);
        lemma_chunks_shape(prev, t);
        let c = chunks(s, t);
        if p.last().len() >= t {
            assert(c.drop_last() =~= p);
            assert(c.flatten_alt() =~= p.flatten_alt() + seq![x]);
            assert(c.flatten_alt() =~= s);
            let q = (m - 1) / t as int;
            lemma_fundamental_div_mod(m - 1, t as int);
            assert(m == (q + 1) * t + 0) by (nonlinear_arith)
                requires
                    m - 1 == t * q + (m - 1) % t as int,
                    (m - 1) % t as int + 1 == t,
            {
            }
            lemma_fundamental_div_mod_converse(m, t as int, q + 1, 0);
        } else {
            assert(c.drop_last() =~= p.drop_last());
            assert(p.flatten_alt() == p.drop_last().flatten_alt() + p.last());
            assert(prev.push(x) =~= s);
            assert(c.flatten_alt() =~= p.drop_last().flatten_alt() + p.last().push(x));
            assert(c.flatten_alt() =~= s);
            if m > 0 {
                let q = (m - 1) / t as int;
                let r = (m - 1) % t as int;
                lemma_fundamental_div_mod(m - 1, t as int);
                assert(m == q * t + (r + 1)) by (nonlinear_arith)
                    requires
                        m - 1 == t * q + r,
                ;
                lemma_fundamental_div_mod_converse(m, t as int, q, r + 1);
            } else {
                assert(m / t as int == 0);
                assert(m % t as int == 0);
            }
        }
    } else {
        let c = chunks(s, t);
        assert(c.drop_last() =~= Seq::<Seq<Seq<char>>>::empty());
        assert(c.drop_last().flatten_alt() =~= Seq::<Seq<char>>::empty());
        assert(c.flatten_alt() == c.drop_last().flatten_alt() + c.last());
        assert(c.flatten_alt() =~= s);
    }
}

proof fn lemma_file_count(n: nat, t: nat)
    requires
        t >= 1,
        n >= 1,
    ensures
        file_count(n, t) == (n - 1) / t as int + 1,
{
    let q = (n - 1) / t as int;
    let r = (n - 1) % t as int;
    lemma_fundamental_div_mod(n - 1, t as int);
    assert(n + t - 1 == (q + 1) * t + r) by (nonlinear_arith)
        requires
            n - 1 == t * q + r,
    ;
    lemma_fundamental_div_mod_converse(n + t - 1, t as int, q + 1, r);
}

/// For `L` lines and a threshold `t >= 1`, the split produces `ceil(L / t)` files
/// (one empty file when there is no line), and the files read in index order
/// give back the lines, each trimmed of trailing white space, in their order.
pub proof fn law_files_cover_lines_in_order(lines: Seq<Seq<u8>>, t: nat)
    requires
        t >= 1,
    ensures
        chunks(cleaned(lines), t).len() == file_count(lines.len(), t),
        chunks(cleaned(lines), t).flatten() == cleaned(lines),
{
    let s = cleaned(lines);
    lemma_chunks_shape(s, t);
    chunks(s, t).lemma_flatten_and_flatten_alt_are_equivalent();
    if lines.len() > 0 {
        lemma_file_count(lines.len(), t);
    }
}

/// Every output file but the last holds exactly `t` lines; the last holds from
/// one to `t` lines, or none when the input has no line at all (a single empty file).
pub proof fn law_file_sizes(lines: Seq<Seq<u8>>, t: nat)
    requires
        t >= 1,
    ensures
        forall|j: int|
            0 <= j < chunks(cleaned(lines), t).len() - 1 ==> (#[trigger] chunks(cleaned(lines), t)[j]).len() == t,
        lines.len() > 0 ==> 1 <= chunks(cleaned(lines), t).last().len() <= t,
        lines.len() == 0 ==> chunks(cleaned(lines), t).len() == 1 && chunks(cleaned(lines), t)[0].len() == 0,
{
    let s = cleaned(lines);
    lemma_chunks_shape(s, t);
}

/// What to do with one input line.
pub struct LineStep {
    /// The index of a new output file to open, after closing the current one,
    /// before the line is written.
    pub open_next: Option<usize>,
    /// The index of the output file that receives the line.
    pub file_index: usize,
    /// The record to write: the cleaned line followed by a single line feed.
    pub text: String,
    /// The number of lines processed before this one, when progress is due.
    pub progress: Option<usize>,
}

/// The line-splitting engine: it routes each input line to its output file and
/// decides when to rotate to the next file.
pub struct Splitter {
    threshold: usize,
    file_index: usize,
    in_file: usize,
    total: usize,
    lines: Ghost<Seq<Seq<u8>>>,
}

impl Splitter {
    /// The raw input lines consumed so far, in order.
    pub closed spec fn lines(&self) -> Seq<Seq<u8>> {
        self.lines@
    }

    /// The number of lines per output file.
    pub closed spec fn threshold(&self) -> nat {
        self.threshold as nat
    }

    /// The lines written so far to each output file, by file index.
    pub open spec fn files(&self) -> Seq<Seq<Seq<char>>> {
        chunks(cleaned(self.lines()), self.threshold())
    }

    pub closed spec fn wf(&self) -> bool {
        &&& self.threshold >= 1
        &&& self.total == self.lines@.len()
        &&& (self.file_index == 0 || self.file_index < self.total)
        &&& self.files().len() == self.file_index + 1
        &&& self.files().last().len() == self.in_file
    }

    /// A well-formed engine has a positive threshold.
    pub proof fn lemma_threshold_positive(&self)
        requires
            self.wf(),
        ensures
            self.threshold() >= 1,
    {
    }

    /// An engine that has consumed no line yet: output file 0 is open and empty.
    pub fn new(lines_per_file: usize) -> (r: Splitter)
        requires
            lines_per_file >= 1,
        ensures
            r.wf(),
            r.threshold() == lines_per_file,
            r.lines() == Seq::<Seq<u8>>::empty(),
    {
        let r = Splitter { threshold: lines_per_file, file_index: 0, in_file: 0, total: 0, lines: Ghost(Seq::empty()) };
        assert(cleaned(r.lines()) =~= Seq::<Seq<char>>::empty());
        r
    }

    pub fn lines_per_file(&self) -> (r: usize)
        ensures
            r == self.threshold(),
    {
        self.threshold
    }

    pub fn lines_processed(&self) -> (r: usize)
        requires
            self.wf(),
        ensures
            r == self.lines().len(),
    {
        self.total
    }

    /// The number of output files opened so far.
    pub fn files_created(&self) -> (r: usize)
        requires
            self.wf(),
        ensures
            r == self.files().len(),
    {
        self.file_index + 1
    }

    /// Routes one raw input line: the current file is rotated first when it is
    /// full, and progress is due every `PROGRESS_INTERVAL` lines, counted from zero.
    pub fn accept_line(&mut self, raw: &[u8]) -> (r: LineStep)
        requires
            old(self).wf(),
            old(self).lines().len() < usize::MAX,
        ensures
            final(self).wf(),
            final(self).threshold() == old(self).threshold(),
            final(self).lines() == old(self).lines().push(raw@),
            r.open_next == (if old(self).files().last().len() >= old(self).threshold() {
                Some(old(self).files().len() as usize)
            } else {
                None::<usize>
            }),
            r.file_index == final(self).files().len() - 1,
            r.text@ == clean(raw@).push('\n'),
            final(self).files() == (if r.open_next is Some {
                old(self).files().push(seq![clean(raw@)])
            } else {
                old(self).files().update(
                    old(self).files().len() - 1,
                    old(self).files().last().push(clean(raw@)),
                )
            }),
            r.progress == (if old(self).lines().len() % (PROGRESS_INTERVAL as nat) == 0 {
                Some(old(self).lines().len() as usize)
            } else {
                None::<usize>
            }),
    {
        let ghost before = cleaned(self.lines@);
        proof {
            lemma_chunks_shape(before, self.threshold as nat);
        }
        let mut text = clean_line(raw);
        text.append("\n");
        proof {
            reveal_strlit("\n");
        }
        let open_next = if self.in_file >= self.threshold {
            self.file_index = self.file_index + 1;
            self.in_file = 1;
            Some(self.file_index)
        } else {
            self.in_file = self.in_file + 1;
            None
        };
        let progress = if self.total % PROGRESS_INTERVAL == 0 {
            Some(self.total)
        } else {
            None
        };
        self.total = self.total + 1;
        self.lines = Ghost(self.lines@.push(raw@));
        proof {
            let after = cleaned(self.lines@);
            assert(after =~= before.push(clean(raw@)));
            assert(after.drop_last() =~= before);
        }
        LineStep { open_next, file_index: self.file_index, text, progress }
    }
}

/// The contents of an output file holding these lines: each line followed by a line feed.
pub open spec fn file_text(lines: Seq<Seq<char>>) -> Seq<char> {
    lines.map_values(|l: Seq<char>| l.push('\n')).flatten()
}

/// Splitting is deterministic: two engines that consumed the same lines with
/// the same threshold hold the same output files, with the same contents.
pub proof fn law_split_is_deterministic(a: &Splitter, b: &Splitter)
    requires
        a.wf(),
        b.wf(),
        a.threshold() == b.threshold(),
        a.lines() == b.lines(),
    ensures
        a.files() == b.files(),
        a.files().len() == file_count(a.lines().len(), a.threshold()),
        forall|j: int|
            0 <= j < a.files().len() ==> file_text(#[trigger] a.files()[j]) == file_text(b.files()[j]),
{
    law_files_cover_lines_in_order(a.lines(), a.threshold());
}

} // verus!
