use vstd::prelude::*;

use crate::csvout::{encode_session, session_doc};
use crate::ident::{ident_bytes, lemma_ident_unique, session_ident};
use crate::sample::{decode, decodes_to, TelemetrySample, RECORD_WIDTH};
use crate::store::{CommitError, SessionStore};
use crate::tracker::{
    active_only, lemma_run_push, lemma_session_open_iff, lemma_session_rows, phase_run,
    rows_after, SessionPhase,
};

verus! {

/// The session being collected: its identifier and the rows buffered so
/// far, in arrival order. Rows are held in memory only, so a session
/// reaches storage in one shot or not at all.
pub struct RaceSession {
    /// The name the session will be committed under, derived from the
    /// starting sample's vehicle and the session's sequence number.
    pub ident: Vec<u8>,
    /// The buffered rows: every in-session sample since the start.
    pub rows: Vec<TelemetrySample>,
    /// The session's sequence number: how many sessions were committed
    /// before it began.
    pub seq: Ghost<nat>,
}

/// What one datagram did to the pipeline.
pub enum FeedEvent {
    /// The datagram does not have the fixed record width: no sample was
    /// produced and nothing moved.
    Rejected,
    /// The sample carries no race context; it is filtered before the
    /// tracker sees it.
    Ignored,
    /// An idle sample while no session was open.
    Idle,
    /// A session was opened and its first row buffered.
    Started,
    /// A row was appended to the open session.
    Continued,
    /// The open session was closed and committed: the whole document
    /// `data` was filed under `name`, for the caller to persist.
    Ended { name: Vec<u8>, data: Vec<u8> },
}

/// The ingestion pipeline: decoder, session tracker, row buffer and
/// committer composed behind one `feed` step. The caller owns at most
/// this one open session and drives the collector once per datagram.
pub struct Collector {
    /// The open session, if the tracker is in-session.
    open: Option<RaceSession>,
    /// Every committed session, filed under its identifier.
    store: SessionStore,
    /// The most recent track position of an active sample.
    last_position: u8,
    /// The decoded samples observed so far, in arrival order.
    history: Ghost<Seq<TelemetrySample>>,
}

///`name` is the identifier of some vehicle with session sequence
/// number `k`.
pub open spec fn is_seq_name(name: Seq<u8>, k: nat) -> bool {
    exists|c: int, o: int| name == ident_bytes(c, o, k)
}

/// Entry `i` of the committed sessions is named with sequence number
/// `i`; with `lemma_ident_unique`, all stored names are distinct.
pub open spec fn named_in_order(sv: Seq<(Seq<u8>, Seq<u8>)>) -> bool {
    forall|i: int| 0 <= i < sv.len() ==> is_seq_name((#[trigger] sv[i]).0, i as nat)
}

impl Collector {
    /// The samples observed so far; rejected datagrams never appear.
    pub closed spec fn history(self) -> Seq<TelemetrySample> {
        self.history@
    }

    /// The committed sessions.
    pub closed spec fn store_view(self) -> Seq<(Seq<u8>, Seq<u8>)> {
        self.store.entries_view()
    }

    /// Whether some committed session is filed under `name`.
    pub open spec fn store_has(self, name: Seq<u8>) -> bool {
        exists|i: int| 0 <= i < self.store_view().len() && #[trigger] self.store_view()[i].0
            == name
    }

    /// Whether a session is open.
    pub closed spec fn is_open(self) -> bool {
        self.open is Some
    }

    /// The rows of the open session.
    pub closed spec fn open_rows(self) -> Seq<TelemetrySample> {
        self.open->Some_0.rows@
    }

    /// The identifier of the open session.
    pub closed spec fn open_ident(self) -> Seq<u8> {
        self.open->Some_0.ident@
    }

    /// The sequence number of the open session.
    pub closed spec fn open_seq(self) -> nat {
        self.open->Some_0.seq@
    }

    /// The most recent track position of an active sample.
    pub closed spec fn spec_position(self) -> u8 {
        self.last_position
    }

    /// The collector's invariant: it is in-session exactly when the
    /// tracker's state machine is; the buffered rows are exactly the
    /// in-session samples so far; the open session carries the next
    /// sequence number and is named after its first sample's vehicle;
    /// and committed entry `i` is named with sequence number `i`, so
    /// every identifier in the store is distinct.
    pub open spec fn inv(self) -> bool {
        &&& (self.is_open() <==> phase_run(self.history()) == SessionPhase::InSession)
        &&& (self.is_open() ==> {
            &&& self.open_rows() == rows_after(self.history())
            &&& self.open_rows().len() > 0
            &&& self.open_seq() == self.store_view().len()
            &&& self.open_ident() == ident_bytes(
                self.open_rows()[0].vehicle_class_index as int,
                self.open_rows()[0].vehicle_ordinal as int,
                self.open_seq(),
            )
        })
        &&& named_in_order(self.store_view())
    }

    /// A fresh pipeline: no history, no open session, nothing
    /// committed.
    pub fn new() -> (r: Collector)
        ensures
            r.inv(),
            r.history() == Seq::<TelemetrySample>::empty(),
            r.store_view() == Seq::<(Seq<u8>, Seq<u8>)>::empty(),
            !r.is_open(),
            r.spec_position() == 0,
    {
        Collector {
            open: None,
            store: SessionStore::new(),
            last_position: 0,
            history: Ghost(Seq::empty()),
        }
    }

    /// The committed sessions, for the caller to inspect or persist.
    pub fn store(&self) -> (r: &SessionStore)
        ensures
            r.entries_view() == self.store_view(),
    {
        &self.store
    }

    /// The most recent track position of an active sample; 0 before any
    /// arrived or outside a race.
    pub fn position(&self) -> (r: u8)
        ensures
            r == self.spec_position(),
    {
        self.last_position
    }

    /// Feeds one received datagram through the pipeline: validate and
    /// decode, filter heartbeats, step the tracker, buffer the row or
    /// commit the finished session. Exactly one event reports what
    /// happened; a datagram of the wrong width moves nothing at all,
    /// and a closing sample always files the finished session's whole
    /// document — in-run identifiers never collide.
    pub fn feed(&mut self, datagram: &Vec<u8>) -> (ev: FeedEvent)
        requires
            old(self).inv(),
        ensures
            final(self).inv(),
            datagram@.len() != RECORD_WIDTH ==> *final(self) == *old(self) && ev
                == FeedEvent::Rejected,
            datagram@.len() == RECORD_WIDTH ==> ({
                let s = final(self).history().last();
                &&& decodes_to(datagram@, s)
                &&& final(self).history() == old(self).history().push(s)
                &&& (!s.race_active ==> {
                    &&& ev == FeedEvent::Ignored
                    &&& final(self).is_open() == old(self).is_open()
                    &&& (final(self).is_open() ==> final(self).open_rows() == old(self).open_rows()
                        && final(self).open_ident() == old(self).open_ident())
                    &&& final(self).store_view() == old(self).store_view()
                    &&& final(self).spec_position() == old(self).spec_position()
                })
                &&& (s.race_active ==> final(self).spec_position() == s.track_position)
                &&& (s.race_active && s.track_position > 0 ==> {
                    &&& final(self).store_view() == old(self).store_view()
                    &&& final(self).is_open()
                    &&& (!old(self).is_open() ==> ev == FeedEvent::Started
                        && final(self).open_rows() == seq![s] && final(self).open_ident()
                        == ident_bytes(
                        s.vehicle_class_index as int,
                        s.vehicle_ordinal as int,
                        old(self).store_view().len() as nat,
                    ))
                    &&& (old(self).is_open() ==> ev == FeedEvent::Continued
                        && final(self).open_rows() == old(self).open_rows().push(s)
                        && final(self).open_ident() == old(self).open_ident())
                })
                &&& (s.race_active && s.track_position == 0 ==> {
                    &&& !final(self).is_open()
                    &&& (!old(self).is_open() ==> ev == FeedEvent::Idle
                        && final(self).store_view() == old(self).store_view())
                    &&& (old(self).is_open() ==> (ev matches FeedEvent::Ended { name, data }
                        && name@ == old(self).open_ident()
                        && data@ == session_doc(old(self).open_rows())
                        && final(self).store_view() == old(self).store_view().push(
                        (old(self).open_ident(), session_doc(old(self).open_rows())),
                    )))
                })
            }),
    {
        let decoded = decode(datagram);
        let s = match decoded {
            None => {
                return FeedEvent::Rejected;
            },
            Some(s) => s,
        };
        let ghost pre = self.history@;
        self.history = Ghost(self.history@.push(s));
        proof {
            lemma_run_push(pre, s);
        }
        if !s.race_active {
            return FeedEvent::Ignored;
        }
        self.last_position = s.track_position;
        if s.track_position > 0 {
            match &mut self.open {
                Some(sess) => {
                    sess.rows.push(s);
                    FeedEvent::Continued
                },
                None => {
                    let k = self.store.len();
                    let ident = session_ident(s.vehicle_class_index, s.vehicle_ordinal, k);
                    let mut rows: Vec<TelemetrySample> = Vec::new();
                    rows.push(s);
                    self.open = Some(RaceSession { ident, rows, seq: Ghost(k as nat) });
                    proof {
                        assert(self.open_rows() =~= seq![s]);
                    }
                    FeedEvent::Started
                },
            }
        } else {
            match self.open.take() {
                None => FeedEvent::Idle,
                Some(sess) => {
                    let data = encode_session(&sess.rows);
                    let name_copy = clone_bytes(&sess.ident);
                    let data_copy = clone_bytes(&data);
                    proof {
                        let sv = self.store.entries_view();
                        let c1 = sess.rows@[0].vehicle_class_index as int;
                        let o1 = sess.rows@[0].vehicle_ordinal as int;
                        assert forall|j: int| 0 <= j < sv.len() implies (#[trigger] sv[j]).0
                            != sess.ident@ by {
                            let (c, o) = choose|c: int, o: int| sv[j].0 == #[trigger] ident_bytes(
                                c,
                                o,
                                j as nat,
                            );
                            lemma_ident_unique(c, o, j as nat, c1, o1, sess.seq@);
                        }
                        assert(!self.store.has_name(sess.ident@));
                    }
                    let res = self.store.commit(name_copy, data_copy);
                    match res {
                        Ok(()) => {
                            proof {
                                let sv = self.store.entries_view();
                                assert forall|j: int| 0 <= j < sv.len() implies is_seq_name(
                                    (#[trigger] sv[j]).0,
                                    j as nat,
                                ) by {
                                    if j + 1 == sv.len() {
                                        let c1 = sess.rows@[0].vehicle_class_index as int;
                                        let o1 = sess.rows@[0].vehicle_ordinal as int;
                                        assert(sv[j].0 == ident_bytes(c1, o1, j as nat));
                                    }
                                }
                                assert(named_in_order(sv));
                            }
                            FeedEvent::Ended { name: sess.ident, data }
                        },
                        Err(CommitError::AlreadyExists) => {
                            // Unreachable: the identifier was just shown
                            // to be free.
                            proof {
                                assert(false);
                            }
                            FeedEvent::Ended { name: sess.ident, data }
                        },
                    }
                },
            }
        }
    }
}

/// A collector's session is open exactly when, among the samples with
/// race context it has observed, the most recent one had a positive
/// track position — no close has been seen since the session opened.
pub proof fn lemma_collector_open_iff(c: Collector)
    requires
        c.inv(),
    ensures
        c.is_open() <==> (active_only(c.history()).len() > 0 && active_only(
            c.history(),
        ).last().track_position > 0),
{
    lemma_session_open_iff(c.history());
}

/// The rows a collector has buffered for the session that opened after
/// `h` are exactly the in-session samples observed since — no drops and
/// no duplicates.
pub proof fn lemma_collector_rows_exact(
    c: Collector,
    h: Seq<TelemetrySample>,
    mid: Seq<TelemetrySample>,
)
    requires
        c.inv(),
        c.history() == h + mid,
        phase_run(h) != SessionPhase::InSession,
        mid.len() > 0,
        forall|i: int|
            0 <= i < mid.len() ==> (#[trigger] mid[i].race_active) && mid[i].track_position > 0,
    ensures
        c.is_open(),
        c.open_rows() == mid,
{
    lemma_session_rows(h, mid);
}

/// Copies a byte buffer.
fn clone_bytes(v: &Vec<u8>) -> (r: Vec<u8>)
    ensures
        r@ == v@,
{
    let r = v.clone();
    proof {
        assert(r@ =~= v@);
    }
    r
}

} // verus!
