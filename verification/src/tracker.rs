use vstd::prelude::*;

use crate::sample::TelemetrySample;

verus! {

/// The two lifecycle states of the session tracker.
#[derive(Clone, Copy, PartialEq, Eq, Structural, Debug)]
pub enum SessionPhase {
    /// No race session is open.
    Idle,
    /// A race session is open and collecting rows.
    InSession,
}

/// One transition of the tracker. A sample without `race_active` is a
/// heartbeat and moves nothing; an active sample with a positive track
/// position opens or continues a session; an active sample at position
/// zero closes any open session.
pub open spec fn phase_step(p: SessionPhase, s: TelemetrySample) -> SessionPhase {
    if !s.race_active {
        p
    } else if s.track_position > 0 {
        SessionPhase::InSession
    } else {
        SessionPhase::Idle
    }
}

/// The tracker's state after a whole history of decoded samples, starting
/// from `Idle`.
pub open spec fn phase_run(h: Seq<TelemetrySample>) -> SessionPhase
    decreases h.len(),
{
    if h.len() == 0 {
        SessionPhase::Idle
    } else {
        phase_step(phase_run(h.drop_last()), h.last())
    }
}

/// The rows the open session has collected after a history: every active
/// sample since the session opened, in arrival order; empty when no
/// session is open.
pub open spec fn rows_after(h: Seq<TelemetrySample>) -> Seq<TelemetrySample>
    decreases h.len(),
{
    if h.len() == 0 {
        Seq::empty()
    } else {
        let prev = rows_after(h.drop_last());
        let s = h.last();
        if !s.race_active {
            prev
        } else if s.track_position > 0 {
            if phase_run(h.drop_last()) == SessionPhase::InSession {
                prev.push(s)
            } else {
                seq![s]
            }
        } else {
            Seq::empty()
        }
    }
}

/// The samples of a history that carry `race_active`: the only ones the
/// tracker is fed.
pub open spec fn active_only(h: Seq<TelemetrySample>) -> Seq<TelemetrySample> {
    h.filter(|s: TelemetrySample| s.race_active)
}

/// Unfolds one step: appending a sample to a history steps the phase and
/// the collected rows exactly as the transition function says.
pub proof fn lemma_run_push(h: Seq<TelemetrySample>, s: TelemetrySample)
    ensures
        phase_run(h.push(s)) == phase_step(phase_run(h), s),
        rows_after(h.push(s)) == (if !s.race_active {
            rows_after(h)
        } else if s.track_position > 0 {
            if phase_run(h) == SessionPhase::InSession {
                rows_after(h).push(s)
            } else {
                seq![s]
            }
        } else {
            Seq::<TelemetrySample>::empty()
        }),
{
    assert(h.push(s).drop_last() =~= h);
    assert(h.push(s).last() == s);
}

/// A session is open after a history exactly when some sample with
/// `race_active` has been observed and the most recent such sample had a
/// positive track position — that is, no active sample at position zero
/// has arrived since the session opened.
pub proof fn lemma_session_open_iff(h: Seq<TelemetrySample>)
    ensures
        phase_run(h) == SessionPhase::InSession <==> (active_only(h).len() > 0 && active_only(
            h,
        ).last().track_position > 0),
    decreases h.len(),
{
    reveal(Seq::filter);
    if h.len() == 0 {
    } else {
        let prev = h.drop_last();
        let s = h.last();
        lemma_session_open_iff(prev);
        assert(h =~= prev.push(s));
        lemma_run_push(prev, s);
        assert(active_only(prev.push(s)) == if s.race_active {
            active_only(prev).push(s)
        } else {
            active_only(prev)
        });
    }
}

/// The rows collected for one full session are exactly the in-session
/// samples observed between its start and the present — no drops and no
/// duplicates: feeding a run of active, positive-position samples to a
/// tracker that had no open session collects precisely that run.
pub proof fn lemma_session_rows(h: Seq<TelemetrySample>, mid: Seq<TelemetrySample>)
    requires
        phase_run(h) != SessionPhase::InSession,
        mid.len() > 0,
        forall|i: int|
            0 <= i < mid.len() ==> (#[trigger] mid[i].race_active) && mid[i].track_position > 0,
    ensures
        phase_run(h + mid) == SessionPhase::InSession,
        rows_after(h + mid) == mid,
    decreases mid.len(),
{
    if mid.len() == 1 {
        assert(h + mid =~= h.push(mid[0]));
        lemma_run_push(h, mid[0]);
        assert(rows_after(h + mid) =~= mid);
    } else {
        let mid0 = mid.drop_last();
        let s = mid.last();
        lemma_session_rows(h, mid0);
        assert(h + mid =~= (h + mid0).push(s));
        lemma_run_push(h + mid0, s);
        assert(rows_after(h + mid) =~= mid0.push(s));
        assert(mid0.push(s) =~= mid);
    }
}

} // verus!
