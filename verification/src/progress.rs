//! The resumable loop that sends the pieces of a document to the LLM one by one.
//!
//! The loop alternates work that only the caller can do (asking the LLM, reading the
//! interruption flag, writing the state file) with decisions, which stand here: from the
//! progress and what happened, the next step.
use vstd::prelude::*;

verus! {

/// Why the loop stops before the end.
#[derive(Clone, Copy, Debug, PartialEq, Eq, Structural)]
pub enum StopReason {
    /// The job was interrupted.
    Interrupted,
    /// The LLM interaction failed.
    Failed,
}

/// What the caller does next.
#[derive(Clone, Copy, Debug, PartialEq, Eq, Structural)]
pub enum Step {
    /// Ask the LLM to translate the piece at this index.
    Translate(usize),
    /// Stop with the reason; write the state file first when `save`.
    Stop { save: bool, reason: StopReason },
    /// Every piece is translated; write the state file first when `save`.
    Finish { save: bool },
}

/// The progress over a list of `total` pieces: those before `trans_index` are translated;
/// `start_index` is where this run began, and `resumable` says that a state file is in use.
#[derive(Clone, Copy, Debug, PartialEq, Eq, Structural)]
pub struct Progress {
    pub start_index: usize,
    pub trans_index: usize,
    pub total: usize,
    pub resumable: bool,
}

/// Whether this run has translated anything.
pub open spec fn progressed(p: Progress) -> bool {
    p.trans_index > p.start_index
}

/// The step that continues the loop: the next piece, or the end, saving where this run has
/// translated something and a state file is in use.
pub open spec fn next_step(p: Progress) -> Step {
    if p.trans_index < p.total {
        Step::Translate(p.trans_index)
    } else {
        Step::Finish { save: p.resumable && progressed(p) }
    }
}

/// The progress and first step of a run that starts at `trans_index`: an interruption already
/// signalled stops a resumable run before anything is asked.
pub open spec fn begin_spec(trans_index: usize, total: usize, resumable: bool, interrupted: bool) -> (
    Progress,
    Step,
) {
    let p = Progress { start_index: trans_index, trans_index, total, resumable };
    if resumable && interrupted {
        (p, Step::Stop { save: false, reason: StopReason::Interrupted })
    } else {
        (p, next_step(p))
    }
}

/// The progress once the piece at `trans_index` is translated.
pub open spec fn advanced(p: Progress) -> Progress {
    Progress { trans_index: (p.trans_index + 1) as usize, ..p }
}

/// The step after a piece is translated: an interruption stops a resumable run, saving what
/// this run translated.
pub open spec fn after_translated_spec(p: Progress, interrupted: bool) -> Step {
    let q = advanced(p);
    if q.resumable && interrupted {
        Step::Stop { save: progressed(q), reason: StopReason::Interrupted }
    } else {
        next_step(q)
    }
}

/// The step after the LLM failed on a piece: stop, saving what this run translated where a
/// state file is in use.
pub open spec fn after_failed_spec(p: Progress) -> Step {
    Step::Stop { save: p.resumable && progressed(p), reason: StopReason::Failed }
}

impl Progress {
    /// Starts a run at `trans_index` over `total` pieces.
    pub fn begin(trans_index: usize, total: usize, resumable: bool, interrupted: bool) -> (r: (
        Progress,
        Step,
    ))
        ensures
            r == begin_spec(trans_index, total, resumable, interrupted),
    {
        let p = Progress { start_index: trans_index, trans_index, total, resumable };
        if resumable && interrupted {
            (p, Step::Stop { save: false, reason: StopReason::Interrupted })
        } else {
            (p, p.next())
        }
    }

    /// The step that continues the loop.
    pub fn next(&self) -> (r: Step)
        ensures
            r == next_step(*self),
    {
        if self.trans_index < self.total {
            Step::Translate(self.trans_index)
        } else {
            Step::Finish { save: self.resumable && self.trans_index > self.start_index }
        }
    }

    /// Records that the piece at `trans_index` is translated, and gives the next step.
    pub fn translated(&mut self, interrupted: bool) -> (r: Step)
        requires
            old(self).trans_index < old(self).total,
        ensures
            *final(self) == advanced(*old(self)),
            r == after_translated_spec(*old(self), interrupted),
    {
        self.trans_index = self.trans_index + 1;
        if self.resumable && interrupted {
            Step::Stop { save: self.trans_index > self.start_index, reason: StopReason::Interrupted }
        } else {
            self.next()
        }
    }

    /// The step after the LLM failed on the current piece.
    pub fn failed(&self) -> (r: Step)
        ensures
            r == after_failed_spec(*self),
    {
        Step::Stop {
            save: self.resumable && self.trans_index > self.start_index,
            reason: StopReason::Failed,
        }
    }
}

/// Whether a step writes the state file.
pub open spec fn saves(s: Step) -> bool {
    ||| s matches Step::Stop { save: true, .. }
    ||| s matches Step::Finish { save: true }
}

/// The state file is written only by a resumable run, and only once it has translated
/// something; no step of a run without a state file stops for an interruption.
pub proof fn law_save_only_after_progress(p: Progress, interrupted: bool)
    ensures
        saves(next_step(p)) ==> p.resumable && progressed(p),
        saves(after_failed_spec(p)) ==> p.resumable && progressed(p),
        saves(after_translated_spec(p, interrupted)) ==> p.resumable && progressed(advanced(p)),
        !p.resumable ==> !(after_translated_spec(p, interrupted) is Stop),
        !p.resumable ==> !(next_step(p) is Stop),
{
}

/// A run asks for the pieces in order, from where it began: the piece asked for is always the
/// first one not yet translated, and each translation moves on by exactly one piece.
pub proof fn law_pieces_in_order(p: Progress, interrupted: bool)
    requires
        p.trans_index < p.total,
    ensures
        next_step(p) == Step::Translate(p.trans_index),
        advanced(p).trans_index == p.trans_index + 1,
        advanced(p).start_index == p.start_index,
        after_translated_spec(p, interrupted) matches Step::Translate(i) ==> i == p.trans_index + 1,
{
}

/// A run finishes only once every piece is translated, and a run that starts past the end
/// finishes at once without writing anything.
pub proof fn law_finish_means_done(p: Progress, interrupted: bool)
    ensures
        next_step(p) is Finish ==> p.trans_index >= p.total,
        (after_translated_spec(p, interrupted) is Finish) ==> p.trans_index + 1 >= p.total,
        p.trans_index >= p.total && p.trans_index == p.start_index ==> next_step(p)
            == (Step::Finish { save: false }),
{
}

/// With no interruption, a run that begins at `k` and whose every request succeeds asks for
/// pieces `k`, `k + 1`, ... and finishes once `total` is reached.
pub proof fn law_uninterrupted_run(k: usize, total: usize, resumable: bool)
    ensures
        begin_spec(k, total, resumable, false).1 == next_step(begin_spec(k, total, resumable, false).0),
        k < total ==> begin_spec(k, total, resumable, false).1 == Step::Translate(k),
        k >= total ==> begin_spec(k, total, resumable, false).1 == (Step::Finish { save: false }),
{
}

/// The pieces that a run from `p` asks for, in order, when every request succeeds and nothing
/// interrupts it.
pub open spec fn run_pieces(p: Progress) -> Seq<int>
    decreases p.total - p.trans_index,
{
    if p.trans_index < p.total {
        seq![p.trans_index as int] + run_pieces(advanced(p))
    } else {
        Seq::empty()
    }
}

/// The numbers from `a` up to `b`, `b` left out.
pub open spec fn span(a: int, b: int) -> Seq<int> {
    Seq::new(if b > a { (b - a) as nat } else { 0 }, |i: int| a + i)
}

proof fn lemma_run_pieces_span(k: usize, total: usize, resumable: bool, start: usize)
    requires
        k <= total,
    ensures
        run_pieces(Progress { start_index: start, trans_index: k, total, resumable }) == span(
            k as int,
            total as int,
        ),
    decreases total - k,
{
    let p = Progress { start_index: start, trans_index: k, total, resumable };
    if k < total {
        lemma_run_pieces_span((k + 1) as usize, total, resumable, start);
        assert(advanced(p) == Progress { start_index: start, trans_index: (k + 1) as usize, total, resumable });
        assert(span(k as int, total as int) =~= seq![k as int] + span(k + 1, total as int));
    } else {
        assert(span(k as int, total as int) =~= Seq::<int>::empty());
    }
}

/// Resuming fills the same pieces: a run that begins at `s` and asks for every piece gets the
/// pieces `s`, `s + 1`, ... up to `total` once each, in order; and a run that stopped after the
/// pieces before `k` and is begun again at `k` (where the saved progress puts it) asks for
/// exactly the rest, so the two runs together fill what one uninterrupted run fills.
pub proof fn law_resumed_run_fills_same_pieces(s: usize, k: usize, total: usize, resumable: bool)
    requires
        s <= k <= total,
    ensures
        begin_spec(s, total, resumable, false).1 == next_step(begin_spec(s, total, resumable, false).0),
        begin_spec(k, total, resumable, false).1 == next_step(begin_spec(k, total, resumable, false).0),
        run_pieces(begin_spec(s, total, resumable, false).0) == span(s as int, total as int),
        run_pieces(begin_spec(k, total, resumable, false).0) == span(k as int, total as int),
        run_pieces(begin_spec(s, total, resumable, false).0) == span(s as int, k as int) + run_pieces(
            begin_spec(k, total, resumable, false).0,
        ),
{
    lemma_run_pieces_span(s, total, resumable, s);
    lemma_run_pieces_span(k, total, resumable, k);
    assert(span(s as int, total as int) =~= span(s as int, k as int) + span(k as int, total as int));
}

} // verus!
