//! The distributor and the driver: lines are classified in parallel on
//! rayon's thread pool and their batches merged into one summary.
//!
//! Backpressure: a `Pipeline` holds at most `capacity - 1` lines that are
//! submitted but not yet merged. The submission that would reach the bound
//! classifies and merges the whole pending chunk before it returns, so a
//! producer that submits line by line never runs more than `capacity` lines
//! ahead of the summary.

use vstd::prelude::*;
use rayon::iter::{IndexedParallelIterator, IntoParallelRefIterator, ParallelIterator};
use crate::classify::{batch_of, batch_view, batches_of, classify_line, strings_view, FieldResult};
use crate::laws::{lemma_batches_concat, lemma_merge_in_chunks};
use crate::summary::{batches_view, merged, summary_of, Summary};

verus! {

/// Relies on rayon: `par_iter().map(f).collect_into_vec(&mut out)` on a
/// slice calls `f` once on each item and leaves in `out` the results in the
/// order of the items. `f` here is the verified `classify_line`.
#[verifier::external_body]
fn classify_parallel(lines: &Vec<String>, keys: &Vec<String>) -> (r: Vec<Vec<Option<FieldResult>>>)
    ensures
        r@.len() == lines@.len(),
        forall|i: int|
            0 <= i < lines@.len() ==> batch_view(#[trigger] r@[i]@) == batch_of(
                lines@[i]@,
                strings_view(keys@),
            ),
{
    let mut out = Vec::new();
    lines.par_iter().map(|line| classify_line(line.as_str(), keys)).collect_into_vec(&mut out);
    out
}

/// Classifies every line in parallel: exactly one batch per line, the
/// batch at each position being that of the line at the same position.
pub fn distribute(lines: &Vec<String>, keys: &Vec<String>) -> (r: Vec<Vec<Option<FieldResult>>>)
    ensures
        batches_view(r@) == batches_of(strings_view(lines@), strings_view(keys@)),
{
    let r = classify_parallel(lines, keys);
    assert(batches_view(r@) =~= batches_of(strings_view(lines@), strings_view(keys@)));
    r
}

/// Classifies a chunk of lines and merges their batches into `summary`.
pub fn summarize_chunk(summary: &mut Summary, lines: &Vec<String>, keys: &Vec<String>)
    requires
        old(summary).wf(),
    ensures
        final(summary).wf(),
        final(summary)@ == merged(old(summary)@, batches_of(strings_view(lines@), strings_view(keys@))),
{
    let batches = distribute(lines, keys);
    summary.merge_all(&batches);
}

/// The summary of a whole input, classified in one parallel run.
pub fn summarize(lines: &Vec<String>, keys: &Vec<String>) -> (r: Summary)
    ensures
        r.wf(),
        r@ == summary_of(batches_of(strings_view(lines@), strings_view(keys@))),
{
    let mut r = Summary::new();
    summarize_chunk(&mut r, lines, keys);
    r
}

/// A bounded pipeline: lines go in one at a time, and at most
/// `capacity - 1` of them wait unmerged between calls.
pub struct Pipeline {
    keys: Vec<String>,
    capacity: usize,
    pending: Vec<String>,
    summary: Summary,
    drained: Ghost<Seq<Seq<char>>>,
}

impl Pipeline {
    /// The lines submitted so far, in order.
    pub closed spec fn submitted(&self) -> Seq<Seq<char>> {
        self.drained@ + strings_view(self.pending@)
    }

    /// The field names inspected.
    pub closed spec fn keys(&self) -> Seq<Seq<char>> {
        strings_view(self.keys@)
    }

    /// The bound on lines in flight.
    pub closed spec fn capacity(&self) -> nat {
        self.capacity as nat
    }

    /// The number of lines submitted and not yet merged.
    pub closed spec fn in_flight(&self) -> nat {
        self.pending@.len()
    }

    pub closed spec fn wf(&self) -> bool {
        &&& self.summary.wf()
        &&& 0 < self.capacity
        &&& self.pending@.len() < self.capacity
        &&& self.summary@ == summary_of(batches_of(self.drained@, strings_view(self.keys@)))
    }

    /// A pipeline over the field names `keys` that lets at most
    /// `capacity - 1` lines wait.
    pub fn new(keys: Vec<String>, capacity: usize) -> (r: Pipeline)
        requires
            capacity > 0,
        ensures
            r.wf(),
            r.submitted() == Seq::<Seq<char>>::empty(),
            r.keys() == strings_view(keys@),
            r.capacity() == capacity,
            r.in_flight() == 0,
    {
        let r = Pipeline {
            keys,
            capacity,
            pending: Vec::new(),
            summary: Summary::new(),
            drained: Ghost(Seq::empty()),
        };
        proof {
            let bs = batches_of(Seq::<Seq<char>>::empty(), strings_view(r.keys@));
            assert(bs =~= Seq::empty());
            assert(r.summary@ =~= summary_of(bs));
            assert(r.submitted() =~= Seq::<Seq<char>>::empty());
        }
        r
    }

    /// Classifies and merges every pending line.
    fn drain(&mut self)
        requires
            old(self).summary.wf(),
            0 < old(self).capacity,
            old(self).summary@ == summary_of(
                batches_of(old(self).drained@, strings_view(old(self).keys@)),
            ),
        ensures
            final(self).wf(),
            final(self).submitted() == old(self).submitted(),
            final(self).keys() == old(self).keys(),
            final(self).capacity() == old(self).capacity(),
            final(self).in_flight() == 0,
    {
        summarize_chunk(&mut self.summary, &self.pending, &self.keys);
        proof {
            let ks = strings_view(self.keys@);
            let ps = strings_view(self.pending@);
            lemma_merge_in_chunks(
                Map::empty(),
                batches_of(self.drained@, ks),
                batches_of(ps, ks),
            );
            lemma_batches_concat(self.drained@, ps, ks);
            self.drained = Ghost(self.drained@ + ps);
        }
        self.pending = Vec::new();
        proof {
            assert(strings_view(self.pending@) =~= Seq::<Seq<char>>::empty());
            assert(self.submitted() =~= self.drained@);
        }
    }

    /// Submits one line. Where the lines waiting would reach the capacity,
    /// they are classified and merged before the call returns.
    pub fn submit(&mut self, line: String)
        requires
            old(self).wf(),
        ensures
            final(self).wf(),
            final(self).submitted() == old(self).submitted().push(line@),
            final(self).keys() == old(self).keys(),
            final(self).capacity() == old(self).capacity(),
    {
        let ghost before = self.submitted();
        self.pending.push(line);
        proof {
            assert(self.submitted() =~= before.push(line@));
        }
        if self.pending.len() >= self.capacity {
            self.drain();
        }
    }

    /// Merges what is still pending and hands over the summary of every line
    /// submitted.
    pub fn finish(self) -> (r: Summary)
        requires
            self.wf(),
        ensures
            r.wf(),
            r@ == summary_of(batches_of(self.submitted(), self.keys())),
    {
        let mut p = self;
        p.drain();
        proof {
            assert(p.submitted() =~= p.drained@);
        }
        p.summary
    }
}

} // verus!
