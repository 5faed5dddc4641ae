//! The forwarding state machine of a paired session: every frame received on
//! one leg is handed to the other leg, in order, until either leg ends the
//! session — end-of-stream, a receive error, or a send error each tear the
//! whole pairing down, and nothing is forwarded afterwards.
//!
//! The machine decides; the surrounding task performs the I/O. For each thing
//! observed on a leg it calls [`Forwarder::on_event`] and obeys the action: on
//! `Deliver` it sends the frame on the opposite leg (reporting a send failure
//! as a `Failed` event on that leg), on `Stop` it closes both connections.

use vstd::prelude::*;

verus! {

/// One leg of a paired session: the two framed connections being relayed.
#[derive(Clone, Copy)]
pub enum Leg {
    A,
    B,
}

/// The opposite leg.
pub open spec fn leg_other(l: Leg) -> Leg {
    match l {
        Leg::A => Leg::B,
        Leg::B => Leg::A,
    }
}

/// What a leg can be observed to do: produce one frame, close in an orderly
/// way, or fail (a receive error, or a send toward it failing).
pub enum LegEvent {
    Frame(Vec<u8>),
    Closed,
    Failed,
}

/// What the surrounding task must do next.
pub enum ForwardAction {
    /// Send this frame on the leg opposite the one it came from.
    Deliver(Vec<u8>),
    /// The session is over: close both legs; no frame is delivered.
    Stop,
}

struct History {
    from_a: Seq<Seq<u8>>,
    to_b: Seq<Seq<u8>>,
    from_b: Seq<Seq<u8>>,
    to_a: Seq<Seq<u8>>,
}

/// The per-session forwarder: relays frames while running, and once stopped
/// stays stopped and relays nothing.
pub struct Forwarder {
    running: bool,
    hist: Ghost<History>,
}

impl Forwarder {
    /// The frames the forwarder has accepted from `leg`, in order.
    pub closed spec fn accepted(&self, leg: Leg) -> Seq<Seq<u8>> {
        match leg {
            Leg::A => self.hist@.from_a,
            Leg::B => self.hist@.from_b,
        }
    }

    /// The frames the forwarder has handed out for delivery toward `leg`, in
    /// order.
    pub closed spec fn delivered(&self, leg: Leg) -> Seq<Seq<u8>> {
        match leg {
            Leg::A => self.hist@.to_a,
            Leg::B => self.hist@.to_b,
        }
    }

    /// Whether the session is still live.
    pub closed spec fn is_running(&self) -> bool {
        self.running
    }

    #[verifier::type_invariant]
    spec fn wf(&self) -> bool {
        self.hist@.to_b == self.hist@.from_a && self.hist@.to_a == self.hist@.from_b
    }

    /// A fresh forwarder for a just-paired session: running, nothing relayed
    /// yet.
    pub fn new() -> (r: Self)
        ensures
            r.is_running(),
            r.accepted(Leg::A) == Seq::<Seq<u8>>::empty(),
            r.accepted(Leg::B) == Seq::<Seq<u8>>::empty(),
            r.delivered(Leg::A) == Seq::<Seq<u8>>::empty(),
            r.delivered(Leg::B) == Seq::<Seq<u8>>::empty(),
    {
        Forwarder {
            running: true,
            hist: Ghost(
                History {
                    from_a: Seq::empty(),
                    to_b: Seq::empty(),
                    from_b: Seq::empty(),
                    to_a: Seq::empty(),
                },
            ),
        }
    }

    /// Feeds one observation from a leg and decides what happens: a frame
    /// from a live leg is delivered, unchanged, toward the other leg; a close
    /// or failure stops the whole session; and a stopped session absorbs
    /// every further event, delivering nothing.
    ///
    /// The last two clauses are the forwarding-fidelity guarantee: at every
    /// point, what has been handed out toward a leg is exactly what was
    /// accepted from the other leg — same frames, same order, nothing
    /// dropped, duplicated, or reordered.
    pub fn on_event(&mut self, from: Leg, ev: LegEvent) -> (act: ForwardAction)
        ensures
            old(self).is_running() ==> (ev matches LegEvent::Frame(f) ==> ({
                &&& act == ForwardAction::Deliver(f)
                &&& final(self).is_running()
                &&& final(self).accepted(from) == old(self).accepted(from).push(f@)
                &&& final(self).accepted(leg_other(from)) == old(self).accepted(leg_other(from))
            })),
            old(self).is_running() && !(ev is Frame) ==> ({
                &&& act is Stop
                &&& !final(self).is_running()
                &&& final(self).accepted(Leg::A) == old(self).accepted(Leg::A)
                &&& final(self).accepted(Leg::B) == old(self).accepted(Leg::B)
            }),
            !old(self).is_running() ==> act is Stop && *final(self) == *old(self),
            final(self).delivered(Leg::B) == final(self).accepted(Leg::A),
            final(self).delivered(Leg::A) == final(self).accepted(Leg::B),
    {
        proof {
            use_type_invariant(&*self);
        }
        if !self.running {
            return ForwardAction::Stop;
        }
        match ev {
            LegEvent::Frame(f) => {
                match from {
                    Leg::A => {
                        self.hist = Ghost(
                            History {
                                from_a: self.hist@.from_a.push(f@),
                                to_b: self.hist@.to_b.push(f@),
                                from_b: self.hist@.from_b,
                                to_a: self.hist@.to_a,
                            },
                        );
                    },
                    Leg::B => {
                        self.hist = Ghost(
                            History {
                                from_a: self.hist@.from_a,
                                to_b: self.hist@.to_b,
                                from_b: self.hist@.from_b.push(f@),
                                to_a: self.hist@.to_a.push(f@),
                            },
                        );
                    },
                }
                ForwardAction::Deliver(f)
            },
            LegEvent::Closed => {
                self.running = false;
                ForwardAction::Stop
            },
            LegEvent::Failed => {
                self.running = false;
                ForwardAction::Stop
            },
        }
    }
}

/// Whether a session fed exactly these observations, in this order, is still
/// live: no leg has yet closed or failed.
pub open spec fn session_running(events: Seq<(Leg, LegEvent)>) -> bool
    decreases events.len(),
{
    if events.len() == 0 {
        true
    } else if events[0].1 is Frame {
        session_running(events.drop_first())
    } else {
        false
    }
}

/// The frames a session fed these observations delivers toward `to`, in
/// order: the frames the opposite leg produced before the first close or
/// failure anywhere.
pub open spec fn delivered_toward(events: Seq<(Leg, LegEvent)>, to: Leg) -> Seq<Seq<u8>>
    decreases events.len(),
{
    if events.len() == 0 {
        Seq::empty()
    } else {
        match events[0].1 {
            LegEvent::Frame(f) => {
                let rest = delivered_toward(events.drop_first(), to);
                if events[0].0 != to {
                    seq![f@] + rest
                } else {
                    rest
                }
            },
            LegEvent::Closed => Seq::empty(),
            LegEvent::Failed => Seq::empty(),
        }
    }
}

/// All frames `from` produced among these observations, in order.
pub open spec fn frames_from(events: Seq<(Leg, LegEvent)>, from: Leg) -> Seq<Seq<u8>>
    decreases events.len(),
{
    if events.len() == 0 {
        Seq::empty()
    } else {
        let rest = frames_from(events.drop_first(), from);
        match events[0].1 {
            LegEvent::Frame(f) => if events[0].0 == from {
                seq![f@] + rest
            } else {
                rest
            },
            LegEvent::Closed => rest,
            LegEvent::Failed => rest,
        }
    }
}

/// How one more observation extends a session: a frame from a live session
/// is appended to the deliveries toward the opposite leg; anything else ends
/// the session; and after the end nothing changes.
proof fn lemma_session_push(s: Seq<(Leg, LegEvent)>, e: (Leg, LegEvent), to: Leg)
    ensures
        session_running(s.push(e)) == (session_running(s) && e.1 is Frame),
        delivered_toward(s.push(e), to) == (if session_running(s) {
            match e.1 {
                LegEvent::Frame(f) => if e.0 != to {
                    delivered_toward(s, to).push(f@)
                } else {
                    delivered_toward(s, to)
                },
                LegEvent::Closed => delivered_toward(s, to),
                LegEvent::Failed => delivered_toward(s, to),
            }
        } else {
            delivered_toward(s, to)
        }),
    decreases s.len(),
{
    let t = s.push(e);
    assert(t[s.len() as int] == e);
    if s.len() == 0 {
        assert(t[0] == e);
        assert(t.drop_first() =~= Seq::<(Leg, LegEvent)>::empty());
        assert(session_running(Seq::<(Leg, LegEvent)>::empty()));
        assert(delivered_toward(Seq::<(Leg, LegEvent)>::empty(), to) == Seq::<Seq<u8>>::empty());
        match e.1 {
            LegEvent::Frame(f) => {
                if e.0 != to {
                    assert(delivered_toward(t, to) =~~= delivered_toward(s, to).push(f@));
                }
            },
            LegEvent::Closed => {},
            LegEvent::Failed => {},
        }
    } else {
        assert(t[0] == s[0]);
        assert(t.drop_first() =~= s.drop_first().push(e));
        lemma_session_push(s.drop_first(), e, to);
        if session_running(s) && e.1 is Frame && e.0 != to {
            let f = e.1->Frame_0;
            match s[0].1 {
                LegEvent::Frame(g) => {
                    if s[0].0 != to {
                        assert(delivered_toward(t, to) =~~= delivered_toward(s, to).push(f@));
                    }
                },
                LegEvent::Closed => {},
                LegEvent::Failed => {},
            }
        }
    }
}

/// Forwarding fidelity: in a session in which no leg closes or fails, the
/// frames delivered toward a leg are exactly the frames the opposite leg
/// sent — the same frames, in the same order, none dropped, duplicated, or
/// reordered.
pub proof fn lemma_forwarding_fidelity(events: Seq<(Leg, LegEvent)>, to: Leg)
    requires
        session_running(events),
    ensures
        delivered_toward(events, to) == frames_from(events, leg_other(to)),
    decreases events.len(),
{
    if events.len() > 0 {
        lemma_forwarding_fidelity(events.drop_first(), to);
        match (events[0].0, to) {
            (Leg::A, Leg::A) => {},
            (Leg::A, Leg::B) => {},
            (Leg::B, Leg::A) => {},
            (Leg::B, Leg::B) => {},
        }
    }
}

/// Fail-together: once any prefix of the observations has ended the session
/// — either leg closing or failing — the deliveries in both directions are
/// exactly those of that prefix; no later frame is forwarded anywhere.
pub proof fn lemma_fail_together(events: Seq<(Leg, LegEvent)>, k: int, to: Leg)
    requires
        0 <= k <= events.len(),
        !session_running(events.take(k)),
    ensures
        delivered_toward(events, to) == delivered_toward(events.take(k), to),
    decreases events.len() - k,
{
    if k == events.len() {
        assert(events.take(k) =~= events);
    } else {
        assert(events.take(k + 1) =~= events.take(k).push(events[k]));
        lemma_session_push(events.take(k), events[k], to);
        lemma_fail_together(events, k + 1, to);
    }
}

/// Replays a whole session's observations through a fresh forwarder and
/// collects what is delivered toward each leg: exactly the frames each leg
/// sent before the first close or failure, in order.
pub fn run_relay(events: Vec<(Leg, LegEvent)>) -> (r: (Vec<Vec<u8>>, Vec<Vec<u8>>))
    ensures
        r.0@.map_values(|v: Vec<u8>| v@) == delivered_toward(events@, Leg::A),
        r.1@.map_values(|v: Vec<u8>| v@) == delivered_toward(events@, Leg::B),
{
    let ghost all = events@;
    let mut rest = events;
    let mut fwd = Forwarder::new();
    let mut out_a: Vec<Vec<u8>> = Vec::new();
    let mut out_b: Vec<Vec<u8>> = Vec::new();
    let ghost mut i: int = 0;
    proof {
        assert(all.take(0) =~= Seq::<(Leg, LegEvent)>::empty());
        assert(rest@ =~= all.skip(0));
        assert(out_a@.map_values(|v: Vec<u8>| v@) =~= delivered_toward(all.take(0), Leg::A));
        assert(out_b@.map_values(|v: Vec<u8>| v@) =~= delivered_toward(all.take(0), Leg::B));
    }
    while rest.len() > 0
        invariant
            0 <= i <= all.len(),
            rest@ == all.skip(i),
            fwd.is_running() == session_running(all.take(i)),
            out_a@.map_values(|v: Vec<u8>| v@) == delivered_toward(all.take(i), Leg::A),
            out_b@.map_values(|v: Vec<u8>| v@) == delivered_toward(all.take(i), Leg::B),
        decreases rest@.len(),
    {
        proof {
            assert(all.skip(i)[0] == all[i]);
            assert(all.take(i + 1) =~= all.take(i).push(all[i]));
            lemma_session_push(all.take(i), all[i], Leg::A);
            lemma_session_push(all.take(i), all[i], Leg::B);
        }
        let e = rest.remove(0);
        proof {
            assert(rest@ =~= all.skip(i + 1));
        }
        let (leg, ev) = e;
        let act = fwd.on_event(leg, ev);
        match act {
            ForwardAction::Deliver(frame) => {
                let ghost old_a = out_a@;
                let ghost old_b = out_b@;
                match leg {
                    Leg::A => {
                        out_b.push(frame);
                        proof {
                            assert(out_b@.map_values(|v: Vec<u8>| v@) =~= old_b.map_values(
                                |v: Vec<u8>| v@,
                            ).push(all[i].1->Frame_0@));
                        }
                    },
                    Leg::B => {
                        out_a.push(frame);
                        proof {
                            assert(out_a@.map_values(|v: Vec<u8>| v@) =~= old_a.map_values(
                                |v: Vec<u8>| v@,
                            ).push(all[i].1->Frame_0@));
                        }
                    },
                }
            },
            ForwardAction::Stop => {},
        }
        proof {
            i = i + 1;
        }
    }
    proof {
        assert(all.take(i) =~= all);
    }
    (out_a, out_b)
}

} // verus!
