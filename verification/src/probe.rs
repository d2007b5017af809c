use vstd::prelude::*;

verus! {

/// How many times the whole port list is scanned before probing gives up.
pub const PROBE_ROUNDS: u32 = 2;

/// How many times one port is opened and read before moving to the next.
pub const OPEN_ATTEMPTS: u32 = 2;

/// The probe marker that identifies the sensor device: the bytes of `LIGHT`.
pub open spec fn marker() -> Seq<u8> {
    seq![76u8, 73u8, 71u8, 72u8, 84u8]
}

/// Whether the marker occurs somewhere in the bytes a candidate produced.
pub open spec fn has_marker(s: Seq<u8>) -> bool {
    exists|i: int| 0 <= i && i + 5 <= s.len() && #[trigger] s.subrange(i, i + 5) == marker()
}

/// Scans bytes for the probe marker.
pub fn contains_marker(s: &[u8]) -> (r: bool)
    ensures
        r == has_marker(s@),
{
    if s.len() < 5 {
        return false;
    }
    let mut i: usize = 0;
    let end = s.len() - 5;
    while i <= end
        invariant
            0 <= i <= end + 1,
            end == s@.len() - 5,
            s@.len() >= 5,
            forall|j: int| 0 <= j < i ==> #[trigger] s@.subrange(j, j + 5) != marker(),
        decreases end + 1 - i,
    {
        if s[i] == 76 && s[i + 1] == 73 && s[i + 2] == 71 && s[i + 3] == 72 && s[i + 4] == 84 {
            proof {
                assert(s@.subrange(i as int, i as int + 5) =~= marker());
            }
            return true;
        }
        proof {
            let w = s@.subrange(i as int, i as int + 5);
            if s@[i as int] != 76 {
                assert(w[0] != marker()[0]);
            } else if s@[i as int + 1] != 73 {
                assert(w[1] != marker()[1]);
            } else if s@[i as int + 2] != 71 {
                assert(w[2] != marker()[2]);
            } else if s@[i as int + 3] != 72 {
                assert(w[3] != marker()[3]);
            } else {
                assert(w[4] != marker()[4]);
            }
        }
        i = i + 1;
    }
    false
}

/// Where the prober stands: opening candidates, waiting on a probe read,
/// done, or out of rounds.
#[derive(Debug, Clone, Copy, PartialEq, Eq, Structural)]
pub enum ProbePhase {
    /// A round is starting; the port list is being enumerated.
    Listing,
    /// An open of the current candidate is pending.
    Opening,
    /// The current candidate is open; a probe read is pending.
    Reading,
    /// The device was identified.
    Accepted,
    /// Every round was exhausted without identifying the device.
    Exhausted,
}

/// The prober's whole state: which round, which candidate of how many, and
/// which open attempt.
#[derive(Debug, Clone, Copy, PartialEq, Eq, Structural)]
pub struct ProbeState {
    pub round: u32,
    pub port_idx: usize,
    pub port_count: usize,
    pub attempt: u32,
    pub phase: ProbePhase,
}

/// What the prober observed: the outside work's outcome, handed back by the
/// caller that performed it.
pub enum ProbeEvent {
    /// Enumeration finished with this many candidate ports.
    PortsListed(usize),
    OpenFailed,
    Opened,
    /// A probe read returned these bytes.
    ReadData(Vec<u8>),
    ReadFailed,
}

/// What the caller must do next: each step of outside work the prober asks
/// for, or the final verdict.
#[derive(Debug, Clone, Copy, PartialEq, Eq, Structural)]
pub enum ProbeAction {
    /// Enumerate the available serial ports (after a short delay).
    ListPorts,
    /// Try to open the candidate at this index, on this attempt number.
    Open(usize, u32),
    /// Read once from the candidate at this index.
    ReadProbe(usize),
    /// The candidate at this index is the device; probing is over.
    Accept(usize),
    /// No device was found in any round; probing failed.
    GiveUp,
}

impl ProbeState {
    /// The counters stay inside their fixed budgets, and a candidate index is
    /// only meaningful while a round is scanning a nonempty list.
    pub open spec fn wf(&self) -> bool {
        &&& 1 <= self.round <= PROBE_ROUNDS
        &&& 1 <= self.attempt <= OPEN_ATTEMPTS
        &&& (self.phase == ProbePhase::Opening || self.phase == ProbePhase::Reading
            || self.phase == ProbePhase::Accepted) ==> self.port_idx < self.port_count
    }

    /// The action the prober is waiting to see answered in its current phase.
    pub open spec fn pending_action(&self) -> ProbeAction {
        match self.phase {
            ProbePhase::Listing => ProbeAction::ListPorts,
            ProbePhase::Opening => ProbeAction::Open(self.port_idx, self.attempt),
            ProbePhase::Reading => ProbeAction::ReadProbe(self.port_idx),
            ProbePhase::Accepted => ProbeAction::Accept(self.port_idx),
            ProbePhase::Exhausted => ProbeAction::GiveUp,
        }
    }
}

/// Moving to the next round, or giving up when the round budget is spent.
pub open spec fn next_round(s: ProbeState) -> ProbeState {
    if s.round < PROBE_ROUNDS {
        ProbeState { round: (s.round + 1) as u32, phase: ProbePhase::Listing, ..s }
    } else {
        ProbeState { phase: ProbePhase::Exhausted, ..s }
    }
}

/// After a failed attempt on the current candidate: the next attempt on it,
/// the first attempt on the next candidate, or the next round.
pub open spec fn advance(s: ProbeState) -> ProbeState {
    if s.attempt < OPEN_ATTEMPTS {
        ProbeState { attempt: (s.attempt + 1) as u32, phase: ProbePhase::Opening, ..s }
    } else if s.port_idx + 1 < s.port_count {
        ProbeState { port_idx: (s.port_idx + 1) as usize, attempt: 1, phase: ProbePhase::Opening, ..s }
    } else {
        next_round(s)
    }
}

/// The prober's transition function: from a state and the outcome of the
/// last action to the next state. An event that does not answer the phase's
/// pending action changes nothing.
pub open spec fn probe_step(s: ProbeState, e: ProbeEvent) -> ProbeState {
    match s.phase {
        ProbePhase::Listing => match e {
            ProbeEvent::PortsListed(n) => if n > 0 {
                ProbeState {
                    port_idx: 0,
                    port_count: n,
                    attempt: 1,
                    phase: ProbePhase::Opening,
                    ..s
                }
            } else {
                next_round(s)
            },
            _ => s,
        },
        ProbePhase::Opening => match e {
            ProbeEvent::Opened => ProbeState { phase: ProbePhase::Reading, ..s },
            ProbeEvent::OpenFailed => advance(s),
            _ => s,
        },
        ProbePhase::Reading => match e {
            ProbeEvent::ReadData(data) => if has_marker(data@) {
                ProbeState { phase: ProbePhase::Accepted, ..s }
            } else {
                advance(s)
            },
            ProbeEvent::ReadFailed => advance(s),
            _ => s,
        },
        ProbePhase::Accepted => s,
        ProbePhase::Exhausted => s,
    }
}

impl ProbeState {
    /// A fresh prober, about to enumerate ports for its first round.
    pub fn new() -> (r: ProbeState)
        ensures
            r == (ProbeState {
                round: 1u32,
                port_idx: 0usize,
                port_count: 0usize,
                attempt: 1u32,
                phase: ProbePhase::Listing,
            }),
            r.wf(),
    {
        ProbeState { round: 1, port_idx: 0, port_count: 0, attempt: 1, phase: ProbePhase::Listing }
    }

    /// Feeds the outcome of the last action to the prober and returns the
    /// next state together with the action it now waits on.
    pub fn step(&self, e: &ProbeEvent) -> (r: (ProbeState, ProbeAction))
        ensures
            r.0 == probe_step(*self, *e),
            r.1 == r.0.pending_action(),
            self.wf() ==> r.0.wf(),
    {
        let next = match self.phase {
            ProbePhase::Listing => match e {
                ProbeEvent::PortsListed(n) => {
                    if *n > 0 {
                        ProbeState {
                            port_idx: 0,
                            port_count: *n,
                            attempt: 1,
                            phase: ProbePhase::Opening,
                            ..*self
                        }
                    } else {
                        self.next_round_exec()
                    }
                },
                _ => *self,
            },
            ProbePhase::Opening => match e {
                ProbeEvent::Opened => ProbeState { phase: ProbePhase::Reading, ..*self },
                ProbeEvent::OpenFailed => self.advance_exec(),
                _ => *self,
            },
            ProbePhase::Reading => match e {
                ProbeEvent::ReadData(data) => {
                    if contains_marker(data.as_slice()) {
                        ProbeState { phase: ProbePhase::Accepted, ..*self }
                    } else {
                        self.advance_exec()
                    }
                },
                ProbeEvent::ReadFailed => self.advance_exec(),
                _ => *self,
            },
            ProbePhase::Accepted => *self,
            ProbePhase::Exhausted => *self,
        };
        let action = match next.phase {
            ProbePhase::Listing => ProbeAction::ListPorts,
            ProbePhase::Opening => ProbeAction::Open(next.port_idx, next.attempt),
            ProbePhase::Reading => ProbeAction::ReadProbe(next.port_idx),
            ProbePhase::Accepted => ProbeAction::Accept(next.port_idx),
            ProbePhase::Exhausted => ProbeAction::GiveUp,
        };
        (next, action)
    }

    fn next_round_exec(&self) -> (r: ProbeState)
        ensures
            r == next_round(*self),
    {
        if self.round < PROBE_ROUNDS {
            ProbeState { round: self.round + 1, phase: ProbePhase::Listing, ..*self }
        } else {
            ProbeState { phase: ProbePhase::Exhausted, ..*self }
        }
    }

    fn advance_exec(&self) -> (r: ProbeState)
        ensures
            r == advance(*self),
    {
        if self.attempt < OPEN_ATTEMPTS {
            ProbeState { attempt: self.attempt + 1, phase: ProbePhase::Opening, ..*self }
        } else if let Some(next_idx) = self.port_idx.checked_add(1) {
            if next_idx < self.port_count {
                ProbeState { port_idx: next_idx, attempt: 1, phase: ProbePhase::Opening, ..*self }
            } else {
                self.next_round_exec()
            }
        } else {
            self.next_round_exec()
        }
    }
}

/// Once a probe read contains the marker, the candidate is accepted at once:
/// the prober's very next action is `Accept` of that candidate, so no further
/// attempt, port, or round is tried.
pub proof fn lemma_marker_read_accepts(s: ProbeState, data: Vec<u8>)
    requires
        s.phase == ProbePhase::Reading,
        has_marker(data@),
    ensures
        probe_step(s, ProbeEvent::ReadData(data)) == (ProbeState {
            phase: ProbePhase::Accepted,
            ..s
        }),
        probe_step(s, ProbeEvent::ReadData(data)).pending_action() == ProbeAction::Accept(
            s.port_idx,
        ),
{
}

/// Acceptance is terminal: whatever event arrives after acceptance, the
/// state stays accepted and the pending action stays `Accept` of the same
/// candidate.
pub proof fn lemma_accept_is_terminal(s: ProbeState, e: ProbeEvent)
    requires
        s.phase == ProbePhase::Accepted,
    ensures
        probe_step(s, e) == s,
        probe_step(s, e).pending_action() == ProbeAction::Accept(s.port_idx),
{
}

} // verus!
