use vstd::prelude::*;

use crate::response::Response;

verus! {

/// One observable action on the transport's response channel.
#[derive(Debug)]
pub enum WireEvent {
    /// The status code is set on the outgoing response.
    StatusSet(u32),
    /// One raw header line is added: name and value.
    HeaderLine(String, String),
    /// The status line and headers are written out; they can no longer
    /// change.
    Committed,
    /// Body bytes are streamed into the open body channel.
    BodyBytes(Vec<u8>),
    /// The framing is completed and the channel closed.
    Finalized,
}

/// Where the two-phase write protocol stands.
#[derive(Clone, Copy, PartialEq, Eq, Structural, Debug)]
pub enum EmitPhase {
    /// Status and headers may still be set; nothing is on the wire.
    Fresh,
    /// Headers are committed; only body bytes may follow.
    Streaming,
    /// The response is finalized; nothing may follow.
    Closed,
}

/// Drives the transport's two-phase response write and records every
/// action taken on the channel, in order.  The protocol is enforced by
/// the methods' preconditions: no body byte can be recorded before the
/// one commit, and nothing after finalization.
pub struct ResponseEmitter {
    phase: EmitPhase,
    events: Vec<WireEvent>,
    commit_at: Ghost<int>,
}

impl ResponseEmitter {
    pub closed spec fn spec_phase(&self) -> EmitPhase {
        self.phase
    }

    pub closed spec fn spec_events(&self) -> Seq<WireEvent> {
        self.events@
    }

    /// The position of the commit in the event trace, once one exists.
    pub closed spec fn spec_commit_at(&self) -> int {
        self.commit_at@
    }

    pub open spec fn is_header_event(e: WireEvent) -> bool {
        e is StatusSet || e is HeaderLine
    }

    /// The protocol invariant every emitter preserves.
    pub closed spec fn wf(&self) -> bool {
        let ev = self.events@;
        let c = self.commit_at@;
        match self.phase {
            EmitPhase::Fresh => forall|i: int|
                0 <= i < ev.len() ==> Self::is_header_event(#[trigger] ev[i]),
            EmitPhase::Streaming => {
                &&& 0 <= c < ev.len()
                &&& ev[c] is Committed
                &&& forall|i: int| 0 <= i < c ==> Self::is_header_event(#[trigger] ev[i])
                &&& forall|i: int| c < i < ev.len() ==> (#[trigger] ev[i]) is BodyBytes
            },
            EmitPhase::Closed => {
                &&& 0 <= c < ev.len()
                &&& ev[c] is Committed
                &&& forall|i: int| 0 <= i < c ==> Self::is_header_event(#[trigger] ev[i])
                &&& forall|i: int| c < i < ev.len() - 1 ==> (#[trigger] ev[i]) is BodyBytes
                &&& ev[ev.len() - 1] is Finalized
            },
        }
    }

    pub fn new() -> (e: ResponseEmitter)
        ensures
            e.wf(),
            e.spec_phase() == EmitPhase::Fresh,
            e.spec_events() == Seq::<WireEvent>::empty(),
    {
        ResponseEmitter { phase: EmitPhase::Fresh, events: Vec::new(), commit_at: Ghost(0) }
    }

    /// Set the status code; only possible before the commit.
    pub fn set_status(&mut self, code: u32)
        requires
            old(self).wf(),
            old(self).spec_phase() == EmitPhase::Fresh,
        ensures
            final(self).wf(),
            final(self).spec_phase() == EmitPhase::Fresh,
            final(self).spec_events() == old(self).spec_events().push(WireEvent::StatusSet(code)),
    {
        self.events.push(WireEvent::StatusSet(code));
    }

    /// Add one raw header line; only possible before the commit.
    pub fn add_header_line(&mut self, name: String, value: String)
        requires
            old(self).wf(),
            old(self).spec_phase() == EmitPhase::Fresh,
        ensures
            final(self).wf(),
            final(self).spec_phase() == EmitPhase::Fresh,
            final(self).spec_events() == old(self).spec_events().push(
                WireEvent::HeaderLine(name, value),
            ),
    {
        self.events.push(WireEvent::HeaderLine(name, value));
    }

    /// Write status line and headers out.  Irreversible: from here on
    /// the headers can no longer change.
    pub fn commit(&mut self)
        requires
            old(self).wf(),
            old(self).spec_phase() == EmitPhase::Fresh,
        ensures
            final(self).wf(),
            final(self).spec_phase() == EmitPhase::Streaming,
            final(self).spec_events() == old(self).spec_events().push(WireEvent::Committed),
            final(self).spec_commit_at() == old(self).spec_events().len(),
    {
        let ghost c = self.events@.len() as int;
        self.events.push(WireEvent::Committed);
        self.commit_at = Ghost(c);
        self.phase = EmitPhase::Streaming;
    }

    /// Stream body bytes; only possible after the commit.
    pub fn write_body(&mut self, chunk: Vec<u8>)
        requires
            old(self).wf(),
            old(self).spec_phase() == EmitPhase::Streaming,
        ensures
            final(self).wf(),
            final(self).spec_phase() == EmitPhase::Streaming,
            final(self).spec_events() == old(self).spec_events().push(WireEvent::BodyBytes(chunk)),
            final(self).spec_commit_at() == old(self).spec_commit_at(),
    {
        self.events.push(WireEvent::BodyBytes(chunk));
    }

    /// Complete the framing and close the channel.
    pub fn finalize(&mut self)
        requires
            old(self).wf(),
            old(self).spec_phase() == EmitPhase::Streaming,
        ensures
            final(self).wf(),
            final(self).spec_phase() == EmitPhase::Closed,
            final(self).spec_events() == old(self).spec_events().push(WireEvent::Finalized),
            final(self).spec_commit_at() == old(self).spec_commit_at(),
    {
        self.events.push(WireEvent::Finalized);
        self.phase = EmitPhase::Closed;
    }

    /// The recorded trace, for a transport double to replay or check.
    pub fn events(&self) -> (r: &Vec<WireEvent>)
        ensures
            r@ == self.spec_events(),
    {
        &self.events
    }

    pub fn phase(&self) -> (r: EmitPhase)
        ensures
            r == self.spec_phase(),
    {
        self.phase
    }
}

/// Two-phase ordering: while an emitter is fresh nothing is committed
/// and no body byte is out; afterwards, the trace holds exactly one
/// commit, every body write comes after it, and everything before it
/// only sets status or headers.
pub proof fn lemma_two_phase_ordering(e: &ResponseEmitter)
    requires
        e.wf(),
    ensures
        e.spec_phase() == EmitPhase::Fresh ==> forall|i: int|
            0 <= i < e.spec_events().len() ==> !((#[trigger] e.spec_events()[i]) is Committed)
                && !(e.spec_events()[i] is BodyBytes),
        e.spec_phase() != EmitPhase::Fresh ==> {
            &&& 0 <= e.spec_commit_at() < e.spec_events().len()
            &&& e.spec_events()[e.spec_commit_at()] is Committed
            &&& forall|i: int|
                0 <= i < e.spec_events().len() && (#[trigger] e.spec_events()[i]) is Committed
                    ==> i == e.spec_commit_at()
            &&& forall|i: int|
                0 <= i < e.spec_events().len() && (#[trigger] e.spec_events()[i]) is BodyBytes
                    ==> i > e.spec_commit_at()
        },
{
}

/// The header lines of one entry, one event per stored value.
pub open spec fn entry_line_events(h: (String, Vec<String>)) -> Seq<WireEvent> {
    Seq::new(h.1@.len(), |i: int| WireEvent::HeaderLine(h.0, h.1@[i]))
}

/// The header lines of a whole header list, in list order.
pub open spec fn header_line_events(hs: Seq<(String, Vec<String>)>) -> Seq<WireEvent>
    decreases hs.len(),
{
    if hs.len() == 0 {
        Seq::empty()
    } else {
        header_line_events(hs.drop_last()) + entry_line_events(hs.last())
    }
}

/// The complete well-ordered trace that emitting `resp` produces.
pub open spec fn emit_trace(resp: Response) -> Seq<WireEvent> {
    seq![WireEvent::StatusSet(resp.status.0)] + header_line_events(resp.headers@) + seq![
        WireEvent::Committed,
        WireEvent::BodyBytes(resp.body),
        WireEvent::Finalized,
    ]
}

/// Emit a response: set the status, copy every header value as its own
/// raw line, commit, stream the body, finalize.
pub fn emit(resp: Response) -> (e: ResponseEmitter)
    ensures
        e.wf(),
        e.spec_phase() == EmitPhase::Closed,
        e.spec_events() == emit_trace(resp),
{
    let ghost whole = resp;
    let mut e = ResponseEmitter::new();
    e.set_status(resp.status.0);
    let ghost hs = resp.headers@;
    let n = resp.headers.len();
    let mut i: usize = 0;
    proof {
        assert(e.spec_events() =~= seq![WireEvent::StatusSet(resp.status.0)]
            + header_line_events(hs.take(0)));
    }
    while i < n
        invariant
            i <= n,
            n == resp.headers@.len(),
            hs == resp.headers@,
            e.wf(),
            e.spec_phase() == EmitPhase::Fresh,
            e.spec_events() == seq![WireEvent::StatusSet(resp.status.0)] + header_line_events(
                hs.take(i as int),
            ),
        decreases n - i,
    {
        let entry = &resp.headers[i];
        let ghost evs_entry = e.spec_events();
        let m = entry.1.len();
        let mut j: usize = 0;
        while j < m
            invariant
                j <= m,
                m == entry.1@.len(),
                *entry == hs[i as int],
                e.wf(),
                e.spec_phase() == EmitPhase::Fresh,
                e.spec_events() == evs_entry + entry_line_events(*entry).take(j as int),
            decreases m - j,
        {
            e.add_header_line(entry.0.clone(), entry.1[j].clone());
            proof {
                assert(e.spec_events() =~= evs_entry + entry_line_events(*entry).take(j + 1));
            }
            j = j + 1;
        }
        proof {
            assert(hs.take(i + 1).drop_last() =~= hs.take(i as int));
            assert(hs.take(i + 1).last() == hs[i as int]);
            assert(entry_line_events(*entry).take(m as int) =~= entry_line_events(hs[i as int]));
            assert(e.spec_events() =~= seq![WireEvent::StatusSet(resp.status.0)]
                + header_line_events(hs.take(i + 1)));
        }
        i = i + 1;
    }
    proof {
        assert(hs.take(n as int) =~= hs);
    }
    e.commit();
    e.write_body(resp.body);
    e.finalize();
    proof {
        assert(e.spec_events() =~= emit_trace(whole));
    }
    e
}

} // verus!
