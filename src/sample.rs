//! Classifying lines by their leading whitespace, and sampling a bounded
//! prefix of the indented lines of a file.

use vstd::prelude::*;
use vstd::std_specs::iter::IteratorSpec;
use crate::reduce::{has_tabs, nonzero_spaces, space_counts, tabs_observed};

verus! {

broadcast use vstd::string::axiom_spec_iter, vstd::string::next_postcondition;

/// The leading whitespace of one indented line: a run of tabs, then the run
/// of spaces that immediately follows it.
#[derive(Clone, Copy, Debug, PartialEq, Eq, Structural)]
pub struct Sample {
    pub tab_count: u32,
    pub space_count: u32,
}

/// Length of the maximal prefix of `s` made of `c` alone.
pub open spec fn run_len(s: Seq<char>, c: char) -> nat
    decreases s.len(),
{
    if s.len() > 0 && s[0] == c {
        1 + run_len(s.drop_first(), c)
    } else {
        0
    }
}

/// A line is indented when it starts with a tab or a space.
pub open spec fn is_indented(line: Seq<char>) -> bool {
    line.len() > 0 && (line[0] == '\t' || line[0] == ' ')
}

/// Number of leading tabs.
pub open spec fn tab_run(line: Seq<char>) -> nat {
    run_len(line, '\t')
}

/// Number of spaces right after the leading tabs.
pub open spec fn space_run(line: Seq<char>) -> nat {
    run_len(line.skip(tab_run(line) as int), ' ')
}

/// The sample that an indented line gives.
pub open spec fn spec_sample(line: Seq<char>) -> Sample {
    Sample { tab_count: tab_run(line) as u32, space_count: space_run(line) as u32 }
}

/// A run is never longer than the text it is taken from.
pub proof fn lemma_run_len_bound(s: Seq<char>, c: char)
    ensures
        run_len(s, c) <= s.len(),
    decreases s.len(),
{
    if s.len() > 0 && s[0] == c {
        lemma_run_len_bound(s.drop_first(), c);
    }
}

/// Both runs together fit in the line.
pub proof fn lemma_runs_fit(line: Seq<char>)
    ensures
        tab_run(line) + space_run(line) <= line.len(),
{
    lemma_run_len_bound(line, '\t');
    lemma_run_len_bound(line.skip(tab_run(line) as int), ' ');
}

/// A line is indented exactly when one of its two runs is non-empty.
pub proof fn lemma_indented_iff_runs(line: Seq<char>)
    ensures
        is_indented(line) <==> (tab_run(line) > 0 || space_run(line) > 0),
{
    if line.len() > 0 && line[0] != '\t' {
        assert(tab_run(line) == 0);
        assert(line.skip(0) =~= line);
    }
}

/// Classifies one line (without its terminator): `None` when it is not
/// indented, else the lengths of its leading tab run and of the space run
/// that follows.
pub fn classify_line(line: &str) -> (r: Option<Sample>)
    requires
        line@.len() <= u32::MAX,
    ensures
        r is Some <==> is_indented(line@),
        r is Some ==> r->0 == spec_sample(line@),
{
    proof {
        lemma_runs_fit(line@);
        lemma_indented_iff_runs(line@);
    }
    let mut chars = line.chars();
    let mut tabs: u32 = 0;
    let mut spaces: u32 = 0;
    let mut in_tabs = true;
    loop
        invariant_except_break
            chars.obeys_prophetic_iter_laws(),
            chars.remaining() == line@.skip(tabs + spaces),
            in_tabs ==> spaces == 0 && tab_run(line@) == tabs + run_len(chars.remaining(), '\t'),
            !in_tabs ==> tabs == tab_run(line@) && space_run(line@) == spaces + run_len(
                chars.remaining(),
                ' ',
            ),
        invariant
            line@.len() <= u32::MAX,
            tab_run(line@) + space_run(line@) <= line@.len(),
            tabs + spaces <= line@.len(),
        ensures
            tabs == tab_run(line@),
            spaces == space_run(line@),
        decreases line@.len() - (tabs + spaces),
    {
        let ghost rem = chars.remaining();
        let next = chars.next();
        match next {
            Some(c) => {
                assert(chars.remaining() =~= line@.skip(tabs + spaces + 1));
                if in_tabs && c == '\t' {
                    tabs = tabs + 1;
                } else if c == ' ' {
                    if in_tabs {
                        assert(line@.skip(tabs as int) == rem);
                        in_tabs = false;
                    }
                    spaces = spaces + 1;
                } else {
                    if in_tabs {
                        assert(line@.skip(tabs as int) == rem);
                    }
                    break;
                }
            },
            None => {
                if in_tabs {
                    assert(line@.skip(tabs as int) == rem);
                }
                break;
            },
        }
    }
    if tabs == 0 && spaces == 0 {
        None
    } else {
        Some(Sample { tab_count: tabs, space_count: spaces })
    }
}

/// The most samples that are taken from one file.
pub const SAMPLE_CAP: usize = 100;

/// Every sample of a set comes from an indented line, and there are at most
/// `SAMPLE_CAP` of them.
pub open spec fn samples_wf(s: Seq<Sample>) -> bool {
    &&& s.len() <= SAMPLE_CAP
    &&& forall|i: int| 0 <= i < s.len() ==> #[trigger] s[i].tab_count > 0 || s[i].space_count > 0
}

/// The samples after one more line is read: the line's sample is added when
/// the line is indented and the cap is not yet reached.
pub open spec fn sample_step(samples: Seq<Sample>, line: Seq<char>) -> Seq<Sample> {
    if samples.len() >= SAMPLE_CAP || !is_indented(line) {
        samples
    } else {
        samples.push(spec_sample(line))
    }
}

/// The samples of a sequence of lines read in order.
pub open spec fn sample_all(lines: Seq<Seq<char>>) -> Seq<Sample>
    decreases lines.len(),
{
    if lines.len() == 0 {
        Seq::empty()
    } else {
        sample_step(sample_all(lines.drop_last()), lines.last())
    }
}

/// One read of a line source: the line, or `None` for a failed read.
pub open spec fn read_of<E>(r: Result<String, E>) -> Option<Seq<char>> {
    match r {
        Ok(line) => Some(line@),
        Err(_) => None,
    }
}

pub open spec fn reads_of<E>(lines: Seq<Result<String, E>>) -> Seq<Option<Seq<char>>> {
    lines.map_values(|r: Result<String, E>| read_of(r))
}

/// Sampling a sequence of reads in order: `None` when a read fails before the
/// cap is reached; reads after the cap are never looked at.
pub open spec fn scan(reads: Seq<Option<Seq<char>>>) -> Option<Seq<Sample>>
    decreases reads.len(),
{
    if reads.len() == 0 {
        Some(Seq::empty())
    } else {
        match scan(reads.drop_last()) {
            Some(s) => if s.len() >= SAMPLE_CAP {
                Some(s)
            } else {
                match reads.last() {
                    Some(line) => Some(sample_step(s, line)),
                    None => None,
                }
            },
            None => None,
        }
    }
}

/// Collects samples from lines fed one at a time, up to `SAMPLE_CAP`.
pub struct Sampler {
    samples: Vec<Sample>,
}

impl View for Sampler {
    type V = Seq<Sample>;

    closed spec fn view(&self) -> Seq<Sample> {
        self.samples@
    }
}

impl Sampler {
    /// A sampler that has seen no line.
    pub fn new() -> (r: Sampler)
        ensures
            r@ == Seq::<Sample>::empty(),
    {
        Sampler { samples: Vec::new() }
    }

    /// Whether the cap is reached, so that no further line matters.
    pub fn is_full(&self) -> (r: bool)
        ensures
            r == (self@.len() >= SAMPLE_CAP),
    {
        self.samples.len() >= SAMPLE_CAP
    }

    /// Takes the next line of the file into account.
    pub fn feed(&mut self, line: &str)
        requires
            line@.len() <= u32::MAX,
        ensures
            final(self)@ == sample_step(old(self)@, line@),
    {
        if self.samples.len() < SAMPLE_CAP {
            match classify_line(line) {
                Some(sample) => self.samples.push(sample),
                None => {},
            }
        }
    }

    /// The samples taken so far, in line order.
    pub fn samples(&self) -> (r: &[Sample])
        ensures
            r@ == self@,
    {
        self.samples.as_slice()
    }

    /// Gives up the samples taken so far, in line order.
    pub fn into_samples(self) -> (r: Vec<Sample>)
        ensures
            r@ == self@,
    {
        self.samples
    }
}

/// Each step keeps a sample set well formed.
pub proof fn lemma_step_wf(samples: Seq<Sample>, line: Seq<char>)
    requires
        samples_wf(samples),
        line.len() <= u32::MAX,
    ensures
        samples_wf(sample_step(samples, line)),
        samples.is_prefix_of(sample_step(samples, line)),
{
    lemma_indented_iff_runs(line);
    lemma_runs_fit(line);
    let t = sample_step(samples, line);
    assert(t.take(samples.len() as int) =~= samples);
}

/// Samples of any line sequence are well formed.
pub proof fn lemma_sample_all_wf(lines: Seq<Seq<char>>)
    requires
        forall|i: int| 0 <= i < lines.len() ==> (#[trigger] lines[i]).len() <= u32::MAX,
    ensures
        samples_wf(sample_all(lines)),
    decreases lines.len(),
{
    if lines.len() > 0 {
        lemma_sample_all_wf(lines.drop_last());
        lemma_step_wf(sample_all(lines.drop_last()), lines.last());
    }
}

/// Once the cap is reached, later reads change nothing.
proof fn lemma_scan_full(reads: Seq<Option<Seq<char>>>, k: int)
    requires
        0 <= k <= reads.len(),
        scan(reads.take(k)) is Some,
        scan(reads.take(k))->0.len() >= SAMPLE_CAP,
    ensures
        scan(reads) == scan(reads.take(k)),
    decreases reads.len(),
{
    if reads.len() == k {
        assert(reads.take(k) =~= reads);
    } else {
        assert(reads.drop_last().take(k) =~= reads.take(k));
        lemma_scan_full(reads.drop_last(), k);
    }
}

/// Once a read has failed, the whole scan has failed.
proof fn lemma_scan_failed(reads: Seq<Option<Seq<char>>>, k: int)
    requires
        0 <= k <= reads.len(),
        scan(reads.take(k)) is None,
    ensures
        scan(reads) is None,
    decreases reads.len(),
{
    if reads.len() == k {
        assert(reads.take(k) =~= reads);
    } else {
        assert(reads.drop_last().take(k) =~= reads.take(k));
        lemma_scan_failed(reads.drop_last(), k);
    }
}

/// Number of indented lines.
pub open spec fn indented_count(lines: Seq<Seq<char>>) -> nat
    decreases lines.len(),
{
    if lines.len() == 0 {
        0
    } else {
        indented_count(lines.drop_last()) + if is_indented(lines.last()) {
            1nat
        } else {
            0nat
        }
    }
}

/// Reads that all succeed sample exactly as the lines themselves.
pub proof fn lemma_scan_no_errors(lines: Seq<Seq<char>>)
    ensures
        scan(lines.map_values(|l: Seq<char>| Some(l))) == Some(sample_all(lines)),
    decreases lines.len(),
{
    if lines.len() > 0 {
        let reads = lines.map_values(|l: Seq<char>| Some(l));
        assert(reads.drop_last() =~= lines.drop_last().map_values(|l: Seq<char>| Some(l)));
        lemma_scan_no_errors(lines.drop_last());
    }
}

/// The cap: a sample set holds one sample per indented line, up to
/// `SAMPLE_CAP` and never more.
pub proof fn lemma_sample_cap(lines: Seq<Seq<char>>)
    ensures
        indented_count(lines) >= SAMPLE_CAP ==> sample_all(lines).len() == SAMPLE_CAP,
        indented_count(lines) < SAMPLE_CAP ==> sample_all(lines).len() == indented_count(lines),
    decreases lines.len(),
{
    if lines.len() > 0 {
        lemma_sample_cap(lines.drop_last());
    }
}

/// Samples the lines of a line source in order, up to `SAMPLE_CAP` indented
/// ones. A failed read before the cap is reached fails the whole run with
/// that read's error; reads after the cap are never looked at.
pub fn sample_lines<E>(lines: Vec<Result<String, E>>) -> (r: Result<Vec<Sample>, E>)
    requires
        forall|i: int| 0 <= i < lines.len() && (#[trigger] lines@[i]) is Ok ==> lines@[i]->Ok_0@.len() <= u32::MAX,
    ensures
        r is Ok <==> scan(reads_of(lines@)) is Some,
        r is Ok ==> r->Ok_0@ == scan(reads_of(lines@))->0 && samples_wf(r->Ok_0@),
        r is Err ==> exists|i: int|
            0 <= i < lines.len() && lines@[i] == Err::<String, E>(r->Err_0)
                && #[trigger] scan(reads_of(lines@).take(i)) is Some
                && scan(reads_of(lines@).take(i))->0.len() < SAMPLE_CAP,
{
    let ghost reads = reads_of(lines@);
    let mut sampler = Sampler::new();
    let mut i: usize = 0;
    assert(reads.take(0) =~= Seq::<Option<Seq<char>>>::empty());
    while i < lines.len() && !sampler.is_full()
        invariant
            i <= lines@.len(),
            reads == reads_of(lines@),
            scan(reads.take(i as int)) == Some(sampler@),
            samples_wf(sampler@),
            forall|i: int| 0 <= i < lines.len() && (#[trigger] lines@[i]) is Ok ==> lines@[i]->Ok_0@.len() <= u32::MAX,
        decreases lines@.len() - i,
    {
        assert(reads.take(i + 1).drop_last() =~= reads.take(i as int));
        if lines[i].is_err() {
            let mut rest = lines;
            rest.truncate(i + 1);
            let last = rest.pop();
            match last {
                Some(Err(e)) => {
                    proof {
                        assert(scan(reads.take(i + 1)) is None);
                        lemma_scan_failed(reads, i + 1);
                    }
                    return Err(e);
                },
                _ => {
                    assert(false);
                    return Ok(Vec::new());
                },
            }
        }
        match &lines[i] {
            Ok(line) => {
                proof { lemma_step_wf(sampler@, line@); }
                sampler.feed(line.as_str());
            },
            Err(_) => {},
        }
        i = i + 1;
    }
    proof {
        if sampler@.len() >= SAMPLE_CAP {
            lemma_scan_full(reads, i as int);
        } else {
            assert(reads.take(i as int) =~= reads);
        }
    }
    Ok(sampler.into_samples())
}

/// Samples the lines of a line source and reports whether any sample has
/// leading tabs, with the non-zero space counts in line order.
pub fn count_indents<E>(lines: Vec<Result<String, E>>) -> (r: Result<(bool, Vec<u32>), E>)
    requires
        forall|i: int| 0 <= i < lines.len() && (#[trigger] lines@[i]) is Ok ==> lines@[i]->Ok_0@.len() <= u32::MAX,
    ensures
        r is Ok <==> scan(reads_of(lines@)) is Some,
        r is Ok ==> r->Ok_0.0 == tabs_observed(scan(reads_of(lines@))->0)
            && r->Ok_0.1@ == nonzero_spaces(scan(reads_of(lines@))->0),
        r is Err ==> exists|i: int|
            0 <= i < lines.len() && lines@[i] == Err::<String, E>(r->Err_0)
                && #[trigger] scan(reads_of(lines@).take(i)) is Some
                && scan(reads_of(lines@).take(i))->0.len() < SAMPLE_CAP,
{
    match sample_lines(lines) {
        Ok(samples) => Ok((has_tabs(samples.as_slice()), space_counts(samples.as_slice()))),
        Err(e) => Err(e),
    }
}

} // verus!
