//! The router: runs several machines one instruction per round and carries
//! their messages.
use vstd::prelude::*;
use crate::error::RouterError;
use crate::layout::STACK_END;
use crate::layout::{CODE_END, DATA_END, DATA_START};
use crate::machine::{
    events_model, messages_model, program_of, program_state, symbol_words, Machine, MState,
};
use crate::mem::code_words;
use crate::parser::{parsed, Parser};
use crate::message::{Event, EventModel, MessageModel};

verus! {

/// The scheduler's view of a machine.
#[derive(Debug, Clone, Copy, PartialEq, Eq, Structural)]
pub enum MachineStatus {
    /// A program is loaded; `ready` has not been called since.
    Loaded,
    /// Reset by `ready`; the next round runs it.
    Ready,
    /// Neither halted nor blocked on a receive.
    Running,
    /// Expects a message and has none in its inbox.
    Waiting,
    /// The word at its program counter is `Halt` or `Eof`.
    Halted,
    /// An instruction failed; the router no longer runs it.
    Errored,
}

/// The mathematical state of a router.
pub struct RState {
    pub machines: Seq<MState>,
    pub statuses: Seq<MachineStatus>,
    pub printed: Seq<Seq<char>>,
}

/// A machine after the delivery phase of a round, its status, and whether a
/// delivery was attempted.
pub open spec fn deliver(m: MState, st: MachineStatus) -> (MState, MachineStatus, bool) {
    if st != MachineStatus::Errored && m.expected_receives > 0 && m.inbox.len() > 0 {
        match m.push_words(m.inbox[0].body) {
            Ok(m2) => (MState {
                inbox: m.inbox.drop_first(),
                expected_receives: (m.expected_receives - 1) as u16,
                ..m2
            }, st, true),
            Err(_) => (m, MachineStatus::Errored, true),
        }
    } else {
        (m, st, false)
    }
}

/// A machine after the advance phase of a round, its status, and whether it
/// was run.
pub open spec fn advance(m: MState, st: MachineStatus) -> (MState, MachineStatus, bool) {
    if st == MachineStatus::Halted || st == MachineStatus::Errored || st == MachineStatus::Waiting
        || m.halted() {
        (m, st, false)
    } else {
        match m.tick() {
            Ok(m2) => (m2, st, true),
            Err(_) => (m, MachineStatus::Errored, true),
        }
    }
}

/// Delivery, then advance, for one machine.
pub open spec fn settle(m: MState, st: MachineStatus) -> (MState, MachineStatus, bool) {
    let (m1, st1, got) = deliver(m, st);
    let (m2, st2, ran) = advance(m1, st1);
    (m2, st2, got || ran)
}

/// The effect of one drained event on the machines and the printed text.
pub open spec fn route_event(ms: Seq<MState>, printed: Seq<Seq<char>>, e: EventModel)
    -> (Seq<MState>, Seq<Seq<char>>)
{
    match e {
        EventModel::Print { text } => (ms, printed.push(text)),
        EventModel::Send { message } => if message.to < ms.len() {
            (ms.update(message.to as int, MState {
                inbox: ms[message.to as int].inbox.push(message),
                ..ms[message.to as int]
            }), printed)
        } else {
            (ms, printed)
        },
    }
}

/// The effect of a sequence of drained events, in order.
pub open spec fn route(ms: Seq<MState>, printed: Seq<Seq<char>>, evs: Seq<EventModel>)
    -> (Seq<MState>, Seq<Seq<char>>)
    decreases evs.len(),
{
    if evs.len() == 0 {
        (ms, printed)
    } else {
        let (ms1, printed1) = route(ms, printed, evs.drop_last());
        route_event(ms1, printed1, evs.last())
    }
}

/// A machine whose events and outbox have been taken by the router.
pub open spec fn emptied(m: MState) -> MState {
    MState { events: Seq::empty(), outbox: Seq::empty(), ..m }
}

/// Draining the events of machines `0..k` in turn, each machine's events in order.
pub open spec fn drain_upto(ms0: Seq<MState>, p0: Seq<Seq<char>>, k: nat)
    -> (Seq<MState>, Seq<Seq<char>>)
    decreases k,
{
    if k == 0 {
        (ms0, p0)
    } else {
        let (ms, p) = drain_upto(ms0, p0, (k - 1) as nat);
        route(ms.update(k - 1, emptied(ms[k - 1])), p, ms0[k - 1].events)
    }
}

/// The status of a machine at the end of a round.
pub open spec fn status_of(m: MState, st: MachineStatus) -> MachineStatus {
    if st == MachineStatus::Errored {
        MachineStatus::Errored
    } else if m.expected_receives > 0 {
        if m.inbox.len() == 0 {
            MachineStatus::Waiting
        } else {
            MachineStatus::Running
        }
    } else if m.halted() {
        MachineStatus::Halted
    } else {
        MachineStatus::Running
    }
}

/// Whether every status is `Halted` or `Errored`.
pub open spec fn all_terminal(sts: Seq<MachineStatus>) -> bool {
    forall|i: int| 0 <= i < sts.len()
        ==> #[trigger] sts[i] == MachineStatus::Halted || sts[i] == MachineStatus::Errored
}

impl RState {
    pub open spec fn wf(self) -> bool {
        &&& self.machines.len() == self.statuses.len()
        &&& self.machines.len() <= 0x10000
        &&& forall|i: int| 0 <= i < self.machines.len() ==> (#[trigger] self.machines[i]).wf()
            && self.machines[i].id == Some(i as u16)
    }

    /// The machines and statuses after delivery and advance.
    pub open spec fn settled(self) -> (Seq<MState>, Seq<MachineStatus>) {
        (
            Seq::new(self.machines.len(), |i: int| settle(self.machines[i], self.statuses[i]).0),
            Seq::new(self.machines.len(), |i: int| settle(self.machines[i], self.statuses[i]).1),
        )
    }

    /// Whether some machine received a message or was run in the round.
    pub open spec fn progress(self) -> bool {
        exists|i: int| 0 <= i < self.machines.len() && #[trigger] settle(self.machines[i], self.statuses[i]).2
    }

    /// The router after one round: delivery, advance, draining of events,
    /// and new statuses.
    pub open spec fn step(self) -> RState {
        let (ms1, sts1) = self.settled();
        let (ms2, printed) = drain_upto(ms1, self.printed, ms1.len());
        RState {
            machines: ms2,
            statuses: Seq::new(ms2.len(), |i: int| status_of(ms2[i], sts1[i])),
            printed,
        }
    }

    /// The router after `ready`.
    pub open spec fn readied(self) -> RState {
        RState {
            machines: Seq::new(self.machines.len(),
                |i: int| crate::machine::partially_reset(self.machines[i])),
            statuses: Seq::new(self.machines.len(), |i: int| MachineStatus::Ready),
            printed: self.printed,
        }
    }

    /// Playing rounds from this state until every machine is halted or
    /// failed, for at most `fuel` rounds.
    pub open spec fn run_rounds(self, fuel: nat) -> Result<RState, RouterError>
        decreases fuel,
    {
        if all_terminal(self.statuses) {
            Ok(self)
        } else if fuel == 0 {
            Err(RouterError::RoundLimit)
        } else {
            match self.step_result() {
                Err(e) => Err(e),
                Ok(()) => self.step().run_rounds((fuel - 1) as nat),
            }
        }
    }

    /// The state in which playing at most `fuel` rounds from this state
    /// stops: all machines halted or failed, out of rounds, or just after the
    /// round that found a deadlock.
    pub open spec fn run_end(self, fuel: nat) -> RState
        decreases fuel,
    {
        if all_terminal(self.statuses) || fuel == 0 {
            self
        } else {
            match self.step_result() {
                Err(_) => self.step(),
                Ok(()) => self.step().run_end((fuel - 1) as nat),
            }
        }
    }

    /// What `step` returns: a deadlock where nothing could progress while
    /// some machine is neither halted nor failed.
    pub open spec fn step_result(self) -> Result<(), RouterError> {
        if !self.progress() && !all_terminal(self.step().statuses) {
            Err(RouterError::Deadlock)
        } else {
            Ok(())
        }
    }
}

} // verus!

verus! {

/// Runs delivery for one machine: where it expects a message and has one,
/// the first message of its inbox is pushed onto its data stack.
fn deliver_machine(m: &mut Machine, st: MachineStatus) -> (r: (MachineStatus, bool))
    requires
        old(m).wf(),
    ensures
        final(m).wf(),
        (final(m)@, r.0, r.1) == deliver(old(m)@, st),
{
    if st != MachineStatus::Errored && m.expected_receives > 0 && m.inbox.len() > 0 {
        let len = m.inbox[0].body().len();
        let sp = m.reg.sp;
        if len > (STACK_END - sp) as usize {
            return (MachineStatus::Errored, true);
        }
        let ghost ib = m.inbox@;
        let msg = m.inbox.remove(0);
        assert(messages_model(m.inbox@) =~= messages_model(ib).drop_first());
        m.mem.write(sp, msg.body());
        m.reg.sp = sp + len as u16;
        m.expected_receives = m.expected_receives - 1;
        (st, true)
    } else {
        (st, false)
    }
}

/// Runs the advance phase for one machine: one instruction, unless it is
/// halted, failed or waiting.
fn advance_machine(m: &mut Machine, st: MachineStatus) -> (r: (MachineStatus, bool))
    requires
        old(m).wf(),
    ensures
        final(m).wf(),
        (final(m)@, r.0, r.1) == advance(old(m)@, st),
{
    if st == MachineStatus::Halted || st == MachineStatus::Errored || st == MachineStatus::Waiting
        || m.should_halt() {
        (st, false)
    } else {
        match m.tick() {
            Ok(()) => (st, true),
            Err(_) => (MachineStatus::Errored, true),
        }
    }
}

/// Delivery, then advance, for one machine.
fn settle_machine(m: &mut Machine, st: MachineStatus) -> (r: (MachineStatus, bool))
    requires
        old(m).wf(),
    ensures
        final(m).wf(),
        (final(m)@, r.0, r.1) == settle(old(m)@, st),
{
    let (st1, got) = deliver_machine(m, st);
    let (st2, ran) = advance_machine(m, st1);
    (st2, got || ran)
}

/// Computes the status of a machine at the end of a round.
fn status_for(m: &Machine, st: MachineStatus) -> (r: MachineStatus)
    requires
        m.wf(),
    ensures
        r == status_of(m@, st),
{
    if st == MachineStatus::Errored {
        MachineStatus::Errored
    } else if m.expected_receives > 0 {
        if m.inbox.len() == 0 {
            MachineStatus::Waiting
        } else {
            MachineStatus::Running
        }
    } else if m.should_halt() {
        MachineStatus::Halted
    } else {
        MachineStatus::Running
    }
}

/// Routing changes nothing of a machine but its inbox.
pub proof fn lemma_route_keeps(ms: Seq<MState>, p: Seq<Seq<char>>, evs: Seq<EventModel>)
    ensures
        route(ms, p, evs).0.len() == ms.len(),
        forall|j: int| 0 <= j < ms.len() ==> #[trigger] route(ms, p, evs).0[j] == (MState {
            inbox: route(ms, p, evs).0[j].inbox,
            ..ms[j]
        }),
    decreases evs.len(),
{
    if evs.len() > 0 {
        lemma_route_keeps(ms, p, evs.drop_last());
    }
}

/// Draining the first `k` machines changes nothing of any machine but its
/// inbox, and the events and outbox of those `k`.
pub proof fn lemma_drain_keeps(ms0: Seq<MState>, p0: Seq<Seq<char>>, k: nat)
    requires
        k <= ms0.len(),
    ensures
        drain_upto(ms0, p0, k).0.len() == ms0.len(),
        forall|j: int| 0 <= j < ms0.len() ==> #[trigger] drain_upto(ms0, p0, k).0[j] == (MState {
            inbox: drain_upto(ms0, p0, k).0[j].inbox,
            events: if j < k { Seq::empty() } else { ms0[j].events },
            outbox: if j < k { Seq::empty() } else { ms0[j].outbox },
            ..ms0[j]
        }),
    decreases k,
{
    if k > 0 {
        lemma_drain_keeps(ms0, p0, (k - 1) as nat);
        let (ms, p) = drain_upto(ms0, p0, (k - 1) as nat);
        let ms1 = ms.update(k - 1, emptied(ms[k - 1]));
        lemma_route_keeps(ms1, p, ms0[k - 1].events);
        assert forall|j: int| 0 <= j < ms0.len() implies #[trigger] drain_upto(ms0, p0, k).0[j] == (MState {
            inbox: drain_upto(ms0, p0, k).0[j].inbox,
            events: if j < k { Seq::empty() } else { ms0[j].events },
            outbox: if j < k { Seq::empty() } else { ms0[j].outbox },
            ..ms0[j]
        }) by {
            assert(route(ms1, p, ms0[k - 1].events).0[j] == (MState {
                inbox: route(ms1, p, ms0[k - 1].events).0[j].inbox,
                ..ms1[j]
            }));
        }
    }
}

} // verus!

verus! {

/// Most rounds `Router::run` plays before it gives up.
pub const MAX_ROUNDS: u64 = 1_000_000;

/// A set of machines, keyed by their ids `0, 1, ...`, run in rounds.
#[derive(Debug)]
pub struct Router {
    /// The machines; the machine at index `i` has id `i`.
    pub machines: Vec<Machine>,
    /// The status of each machine, by id.
    pub statuses: Vec<MachineStatus>,
    /// Texts of `Print` events drained so far, in order, for the host to show.
    pub printed: Vec<String>,
}

impl View for Router {
    type V = RState;

    open spec fn view(&self) -> RState {
        RState {
            machines: self.machines@.map_values(|m: Machine| m@),
            statuses: self.statuses@,
            printed: self.printed@.map_values(|s: String| s@),
        }
    }
}

impl Router {
    pub open spec fn wf(&self) -> bool {
        self@.wf()
    }

    /// Creates a router without machines.
    pub fn new() -> (r: Router)
        ensures
            r.wf(),
            r@.machines.len() == 0,
            r@.printed.len() == 0,
    {
        Router { machines: Vec::new(), statuses: Vec::new(), printed: Vec::new() }
    }

    /// Adds an empty machine under the next id, with status `Loaded`, and
    /// returns its id.
    pub fn add(&mut self) -> (r: u16)
        requires
            old(self).wf(),
            old(self)@.machines.len() < 0x10000,
        ensures
            final(self).wf(),
            r == old(self)@.machines.len(),
            final(self)@ == (RState {
                machines: old(self)@.machines.push(crate::machine::empty_state(Some(r))),
                statuses: old(self)@.statuses.push(MachineStatus::Loaded),
                printed: old(self)@.printed,
            }),
    {
        let id = self.machines.len() as u16;
        let mut m = Machine::new();
        m.id = Some(id);
        let ghost ms = self.machines@;
        self.machines.push(m);
        self.statuses.push(MachineStatus::Loaded);
        assert(self@.machines =~= old(self)@.machines.push(crate::machine::empty_state(Some(id))));
        id
    }

    /// Loads the program read from `source` into machine `id`, which then
    /// holds that program and nothing else, with status `Loaded`. Source
    /// that cannot be read leaves the router as it was.
    pub fn load(&mut self, id: u16, source: &str) -> (r: Result<(), RouterError>)
        requires
            old(self).wf(),
        ensures
            final(self).wf(),
            id >= old(self)@.machines.len() ==> r == Err::<(), _>(RouterError::NoMachine(id)),
            r is Err ==> final(self)@ == old(self)@,
            id < old(self)@.machines.len() ==> match parsed(source@) {
                Err(e) => r == Err::<(), _>(RouterError::Parse(e)),
                Ok((ops, ts)) => r is Ok && final(self)@ == (RState {
                    machines: old(self)@.machines.update(id as int,
                        MState { id: Some(id), ..program_of(ops, ts) }),
                    statuses: old(self)@.statuses.update(id as int, MachineStatus::Loaded),
                    printed: old(self)@.printed,
                }),
            },
    {
        if id as usize >= self.machines.len() {
            return Err(RouterError::NoMachine(id));
        }
        match Parser::parse(source) {
            Ok(p) => {
                proof {
                    crate::machine::lemma_symbol_words_texts(p.symbols@);
                }
                self.load_program(id, p);
                Ok(())
            },
            Err(e) => Err(RouterError::Parse(e)),
        }
    }

    /// Puts a fresh machine holding the program `p` under id `id`, with
    /// status `Loaded`.
    pub fn load_program(&mut self, id: u16, p: Parser)
        requires
            old(self).wf(),
            id < old(self)@.machines.len(),
            code_words(p.ops@).len() <= CODE_END,
            DATA_START + symbol_words(p.symbols@).len() <= DATA_END,
        ensures
            final(self).wf(),
            final(self)@ == (RState {
                machines: old(self)@.machines.update(id as int,
                    MState { id: Some(id), ..program_state(p.ops@, p.symbols@) }),
                statuses: old(self)@.statuses.update(id as int, MachineStatus::Loaded),
                printed: old(self)@.printed,
            }),
    {
        let ghost ops = p.ops@;
        let ghost symbols = p.symbols@;
        let mut m = Machine::from_program(p);
        m.id = Some(id);
        self.machines.set(id as usize, m);
        self.statuses.set(id as usize, MachineStatus::Loaded);
        assert(self@.machines =~= old(self)@.machines.update(id as int,
            MState { id: Some(id), ..program_state(ops, symbols) }));
    }

    /// Returns the machine with id `id`, if there is one.
    pub fn get(&self, id: u16) -> (r: Option<&Machine>)
        requires
            self.wf(),
        ensures
            match r {
                Some(m) => id < self@.machines.len() && m@ == self@.machines[id as int],
                None => id >= self@.machines.len(),
            },
    {
        if (id as usize) < self.machines.len() {
            Some(&self.machines[id as usize])
        } else {
            None
        }
    }

    /// Routes one drained event: a message goes to the end of its receiver's
    /// inbox (and is dropped where no machine has its id); a text is printed.
    fn route_one(&mut self, e: Event)
        requires
            old(self).wf(),
        ensures
            final(self).wf(),
            final(self)@.statuses == old(self)@.statuses,
            (final(self)@.machines, final(self)@.printed) == route_event(
                old(self)@.machines, old(self)@.printed, e@),
    {
        let ghost ev = e@;
        match e {
            Event::Print { text } => {
                self.printed.push(text);
                assert(self@.printed =~= old(self)@.printed.push(self.printed@.last()@));
            },
            Event::Send { message } => {
                let to = message.to as usize;
                if to < self.machines.len() {
                    let ghost mm = message@;
                    let ghost ib = self.machines@[to as int].inbox@;
                    self.machines[to].inbox.push(message);
                    assert(messages_model(self.machines@[to as int].inbox@) =~= messages_model(ib).push(mm));
                    assert(self@.machines =~= old(self)@.machines.update(to as int, MState {
                        inbox: old(self)@.machines[to as int].inbox.push(mm),
                        ..old(self)@.machines[to as int]
                    }));
                }
            },
        }
    }

    /// Routes drained events in order.
    fn route_all(&mut self, evs: Vec<Event>)
        requires
            old(self).wf(),
        ensures
            final(self).wf(),
            final(self)@.statuses == old(self)@.statuses,
            (final(self)@.machines, final(self)@.printed) == route(
                old(self)@.machines, old(self)@.printed, events_model(evs@)),
    {
        let ghost all = events_model(evs@);
        let mut evs = evs;
        let ghost k: int = 0;
        assert(all.subrange(0, 0) =~= Seq::<EventModel>::empty());
        assert(all.subrange(0, all.len() as int) =~= all);
        while evs.len() > 0
            invariant
                0 <= k <= all.len(),
                events_model(evs@) == all.subrange(k, all.len() as int),
                evs@.len() == all.len() - k,
                all.len() == events_model(evs@).len() + k,
                self.wf(),
                self@.statuses == old(self)@.statuses,
                (self@.machines, self@.printed) == route(
                    old(self)@.machines, old(self)@.printed, all.subrange(0, k)),
            decreases evs@.len(),
        {
            let ghost rest = evs@;
            assert(events_model(rest)[0] == all[k]);
            let e = evs.remove(0);
            assert(events_model(evs@) =~= events_model(rest).drop_first());
            assert(events_model(evs@) =~= all.subrange(k + 1, all.len() as int));
            assert(all.subrange(0, k + 1).drop_last() =~= all.subrange(0, k));
            assert(e@ == all[k]);
            self.route_one(e);
            proof {
                k = k + 1;
            }
        }
        assert(all.subrange(0, k) =~= all);
    }

    /// Whether every machine is halted or failed.
    pub fn all_terminal(&self) -> (r: bool)
        requires
            self.wf(),
        ensures
            r == all_terminal(self@.statuses),
    {
        let mut i: usize = 0;
        while i < self.statuses.len()
            invariant
                i <= self.statuses@.len(),
                forall|j: int| 0 <= j < i ==> #[trigger] self.statuses@[j] == MachineStatus::Halted
                    || self.statuses@[j] == MachineStatus::Errored,
            decreases self.statuses@.len() - i,
        {
            let st = self.statuses[i];
            if st != MachineStatus::Halted && st != MachineStatus::Errored {
                return false;
            }
            i += 1;
        }
        true
    }

    /// Delivery and advance for every machine; returns whether any progressed.
    fn settle_all(&mut self) -> (r: bool)
        requires
            old(self).wf(),
        ensures
            final(self).wf(),
            final(self)@.machines == old(self)@.settled().0,
            final(self)@.statuses == old(self)@.settled().1,
            final(self)@.printed == old(self)@.printed,
            r == old(self)@.progress(),
    {
        let n = self.machines.len();
        let ghost s0 = self@;
        let ghost ms1 = s0.settled().0;
        let ghost sts1 = s0.settled().1;
        let mut progress = false;
        let mut i: usize = 0;
        assert forall|j: int| 0 <= j < n implies (#[trigger] self.machines@[j]).wf() by {
            assert(self.machines@[j]@ == s0.machines[j]);
        }
        while i < n
            invariant
                i <= n,
                n == s0.machines.len(),
                s0 == old(self)@,
                s0.wf(),
                ms1 == s0.settled().0,
                sts1 == s0.settled().1,
                self.machines@.len() == n,
                self.statuses@.len() == n,
                self@.printed == s0.printed,
                forall|j: int| 0 <= j < n ==> #[trigger] self.machines@[j]@ == if j < i {
                    ms1[j]
                } else {
                    s0.machines[j]
                },
                forall|j: int| 0 <= j < n ==> #[trigger] self.statuses@[j] == if j < i {
                    sts1[j]
                } else {
                    s0.statuses[j]
                },
                forall|j: int| 0 <= j < n ==> (#[trigger] self.machines@[j]).wf(),
                progress == exists|j: int| 0 <= j < i && #[trigger] settle(s0.machines[j], s0.statuses[j]).2,
            decreases n - i,
        {
            assert(self.machines@[i as int]@ == s0.machines[i as int]);
            let st = self.statuses[i];
            let (st1, p) = settle_machine(&mut self.machines[i], st);
            self.statuses.set(i, st1);
            proof {
                if p {
                    assert(settle(s0.machines[i as int], s0.statuses[i as int]).2);
                }
                if !progress && !p {
                    assert forall|j: int| 0 <= j < i + 1 implies !#[trigger] settle(s0.machines[j], s0.statuses[j]).2 by {
                        if j == i {
                        }
                    }
                }
            }
            progress = progress || p;
            i += 1;
        }
        assert(self@.machines =~= ms1);
        assert(self@.statuses =~= sts1);
        assert(self@.wf()) by {
            assert forall|j: int| 0 <= j < n implies (#[trigger] self@.machines[j]).wf()
                && self@.machines[j].id == Some(j as u16) by {
                assert(self.machines@[j]@ == ms1[j]);
                assert(s0.machines[j].wf());
            }
        }
        progress
    }

    /// Drains the events of every machine, in order of id.
    fn drain_all(&mut self)
        requires
            old(self).wf(),
        ensures
            final(self).wf(),
            final(self)@.statuses == old(self)@.statuses,
            (final(self)@.machines, final(self)@.printed) == drain_upto(
                old(self)@.machines, old(self)@.printed, old(self)@.machines.len()),
    {
        let n = self.machines.len();
        let ghost s0 = self@;
        let mut k: usize = 0;
        while k < n
            invariant
                k <= n,
                n == s0.machines.len(),
                s0 == old(self)@,
                self.wf(),
                self@.statuses == s0.statuses,
                (self@.machines, self@.printed) == drain_upto(s0.machines, s0.printed, k as nat),
            decreases n - k,
        {
            proof {
                lemma_drain_keeps(s0.machines, s0.printed, k as nat);
            }
            let ghost before = self@.machines;
            let mut evs: Vec<Event> = Vec::new();
            std::mem::swap(&mut evs, &mut self.machines[k].events);
            self.machines[k].outbox.clear();
            assert(events_model(evs@) == s0.machines[k as int].events);
            assert(events_model(self.machines@[k as int].events@) =~= Seq::empty());
            assert(messages_model(self.machines@[k as int].outbox@) =~= Seq::empty());
            assert(self@.machines =~= before.update(k as int, emptied(before[k as int])));
            self.route_all(evs);
            k += 1;
        }
    }

    /// Recomputes every status from its machine.
    fn restatus(&mut self)
        requires
            old(self).wf(),
        ensures
            final(self).wf(),
            final(self)@.machines == old(self)@.machines,
            final(self)@.printed == old(self)@.printed,
            final(self)@.statuses == Seq::new(old(self)@.machines.len(),
                |q: int| status_of(old(self)@.machines[q], old(self)@.statuses[q])),
    {
        let n = self.machines.len();
        let ghost s0 = self@;
        let mut j: usize = 0;
        while j < n
            invariant
                j <= n,
                n == s0.machines.len(),
                s0 == old(self)@,
                s0.wf(),
                self@.machines == s0.machines,
                self@.printed == s0.printed,
                self.statuses@.len() == n,
                forall|q: int| 0 <= q < n ==> #[trigger] self.statuses@[q] == if q < j {
                    status_of(s0.machines[q], s0.statuses[q])
                } else {
                    s0.statuses[q]
                },
            decreases n - j,
        {
            assert(self.machines@[j as int]@ == s0.machines[j as int]);
            assert(s0.machines[j as int].wf());
            let st = status_for(&self.machines[j], self.statuses[j]);
            self.statuses.set(j, st);
            j += 1;
        }
        assert(self@.statuses =~= Seq::new(n as nat, |q: int| status_of(s0.machines[q], s0.statuses[q])));
    }

    /// Plays one round: delivery, then one instruction for each runnable
    /// machine, then the events of every machine are drained in order of
    /// id, then every status is recomputed. Fails with `Deadlock` when no
    /// machine could progress while some is neither halted nor failed.
    pub fn step(&mut self) -> (r: Result<(), RouterError>)
        requires
            old(self).wf(),
        ensures
            final(self).wf(),
            final(self)@ == old(self)@.step(),
            r == old(self)@.step_result(),
    {
        let progress = self.settle_all();
        self.drain_all();
        self.restatus();
        assert(self@ == old(self)@.step());
        if !progress && !self.all_terminal() {
            Err(RouterError::Deadlock)
        } else {
            Ok(())
        }
    }

    /// Readies every machine, then plays rounds until every machine is
    /// halted or failed, for at most `MAX_ROUNDS` rounds. Fails with the
    /// first router-level error.
    pub fn run(&mut self) -> (r: Result<(), RouterError>)
        requires
            old(self).wf(),
        ensures
            final(self).wf(),
            final(self)@ == old(self)@.readied().run_end(MAX_ROUNDS as nat),
            match r {
                Ok(()) => old(self)@.readied().run_rounds(MAX_ROUNDS as nat) == Ok::<_, RouterError>(final(self)@),
                Err(e) => old(self)@.readied().run_rounds(MAX_ROUNDS as nat) == Err::<RState, _>(e),
            },
    {
        self.ready();
        let ghost start = self@;
        let mut fuel: u64 = MAX_ROUNDS;
        while !self.all_terminal()
            invariant
                self.wf(),
                start == old(self)@.readied(),
                start.run_rounds(MAX_ROUNDS as nat) == self@.run_rounds(fuel as nat),
                start.run_end(MAX_ROUNDS as nat) == self@.run_end(fuel as nat),
            decreases fuel,
        {
            if fuel == 0 {
                return Err(RouterError::RoundLimit);
            }
            match self.step() {
                Ok(()) => {},
                Err(e) => return Err(e),
            }
            fuel -= 1;
        }
        Ok(())
    }

    /// Resets every machine's execution state and marks it `Ready`.
    pub fn ready(&mut self)
        requires
            old(self).wf(),
        ensures
            final(self).wf(),
            final(self)@ == old(self)@.readied(),
    {
        let n = self.machines.len();
        let ghost s0 = self@;
        let mut i: usize = 0;
        while i < n
            invariant
                i <= n,
                n == s0.machines.len(),
                s0 == old(self)@,
                s0.wf(),
                self.machines@.len() == n,
                self.statuses@.len() == n,
                self@.printed == s0.printed,
                forall|j: int| 0 <= j < n ==> #[trigger] self.machines@[j]@ == if j < i {
                    crate::machine::partially_reset(s0.machines[j])
                } else {
                    s0.machines[j]
                },
                forall|j: int| 0 <= j < n ==> #[trigger] self.statuses@[j] == if j < i {
                    MachineStatus::Ready
                } else {
                    s0.statuses[j]
                },
            decreases n - i,
        {
            self.machines[i].partial_reset();
            self.statuses.set(i, MachineStatus::Ready);
            i += 1;
        }
        assert(self@.machines =~= Seq::new(s0.machines.len(),
            |i: int| crate::machine::partially_reset(s0.machines[i])));
        assert(self@.statuses =~= Seq::new(s0.machines.len(), |i: int| MachineStatus::Ready));
    }
}

} // verus!

verus! {

/// The messages among `evs` addressed to machine `d`, in order.
pub open spec fn sends_to(evs: Seq<EventModel>, d: u16) -> Seq<MessageModel>
    decreases evs.len(),
{
    if evs.len() == 0 {
        Seq::empty()
    } else {
        let rest = sends_to(evs.drop_last(), d);
        match evs.last() {
            EventModel::Send { message } => if message.to == d { rest.push(message) } else { rest },
            EventModel::Print { .. } => rest,
        }
    }
}

/// The messages that draining machines `0..k` sends to `d`: those of
/// machine 0 first, each machine's in the order of its events.
pub open spec fn routed_to(ms: Seq<MState>, k: nat, d: u16) -> Seq<MessageModel>
    decreases k,
{
    if k == 0 {
        Seq::empty()
    } else {
        routed_to(ms, (k - 1) as nat, d) + sends_to(ms[k - 1].events, d)
    }
}

/// Routing events appends the messages for each machine to the end of its
/// inbox, in the order they were sent.
pub proof fn lemma_route_appends(ms: Seq<MState>, p: Seq<Seq<char>>, evs: Seq<EventModel>, d: u16)
    requires
        d < ms.len(),
    ensures
        route(ms, p, evs).0[d as int].inbox == ms[d as int].inbox + sends_to(evs, d),
    decreases evs.len(),
{
    if evs.len() == 0 {
        assert(ms[d as int].inbox + Seq::empty() =~= ms[d as int].inbox);
    } else {
        lemma_route_appends(ms, p, evs.drop_last(), d);
        lemma_route_keeps(ms, p, evs.drop_last());
        let prev = route(ms, p, evs.drop_last());
        match evs.last() {
            EventModel::Send { message } => {
                if message.to == d {
                    assert(ms[d as int].inbox + sends_to(evs.drop_last(), d).push(message)
                        =~= (ms[d as int].inbox + sends_to(evs.drop_last(), d)).push(message));
                }
            },
            EventModel::Print { .. } => {},
        }
    }
}

/// Messaging is first in, first out: draining the machines in order of id
/// appends to each inbox the messages for it, each source's in the order it
/// sent them, after those already there.
pub proof fn lemma_drain_fifo(ms: Seq<MState>, p: Seq<Seq<char>>, k: nat, d: u16)
    requires
        k <= ms.len(),
        d < ms.len(),
    ensures
        drain_upto(ms, p, k).0[d as int].inbox == ms[d as int].inbox + routed_to(ms, k, d),
    decreases k,
{
    if k == 0 {
        assert(ms[d as int].inbox + Seq::empty() =~= ms[d as int].inbox);
    } else {
        lemma_drain_fifo(ms, p, (k - 1) as nat, d);
        lemma_drain_keeps(ms, p, (k - 1) as nat);
        let (prev, q) = drain_upto(ms, p, (k - 1) as nat);
        let cleared = prev.update(k - 1, emptied(prev[k - 1]));
        assert(prev[k - 1].events == ms[k - 1].events);
        lemma_route_appends(cleared, q, ms[k - 1].events, d);
        assert(cleared[d as int].inbox == prev[d as int].inbox);
        assert(ms[d as int].inbox + routed_to(ms, (k - 1) as nat, d) + sends_to(ms[k - 1].events, d)
            =~= ms[d as int].inbox + routed_to(ms, k, d));
    }
}

/// Deliveries of a round come before its sends: the message a machine
/// receives in a round is the first one its inbox held when the round
/// began, its body pushed in order onto the data stack, and every message sent in the round stays in its receiver's inbox
/// at the round's end, to be delivered in a later round.
pub proof fn lemma_round_monotone(s: RState, d: u16)
    requires
        s.wf(),
        d < s.machines.len(),
    ensures
        s.step().machines[d as int].inbox == s.settled().0[d as int].inbox
            + routed_to(s.settled().0, s.machines.len(), d),
        s.settled().0[d as int].inbox == s.machines[d as int].inbox
            || s.settled().0[d as int].inbox == s.machines[d as int].inbox.drop_first(),
        deliver(s.machines[d as int], s.statuses[d as int]).2
            && deliver(s.machines[d as int], s.statuses[d as int]).1 != MachineStatus::Errored
            ==> deliver(s.machines[d as int], s.statuses[d as int]).0.stack()
                == s.machines[d as int].stack() + s.machines[d as int].inbox[0].body,
{
    let ms1 = s.settled().0;
    lemma_drain_fifo(ms1, s.printed, ms1.len(), d);
    let m = s.machines[d as int];
    let st = s.statuses[d as int];
    let (m1, st1, got) = deliver(m, st);
    if got && st1 != MachineStatus::Errored {
        let m2 = m.push_words(m.inbox[0].body)->Ok_0;
        assert(m2.stack() =~= m.stack() + m.inbox[0].body);
    }
}

/// Runs are deterministic: routers in the same state, run for the same
/// number of rounds, end in the same state with the same printed texts and
/// messages, or fail with the same error.
pub proof fn lemma_run_deterministic(a: RState, b: RState, fuel: nat)
    requires
        a == b,
    ensures
        a.readied().run_rounds(fuel) == b.readied().run_rounds(fuel),
        a.readied().run_end(fuel) == b.readied().run_end(fuel),
        a.step() == b.step(),
{
}

} // verus!
