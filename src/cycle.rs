//! One poll cycle: list each tracker's claimable tickets, claim them one by
//! one, print the batch, and give every claim back when anything fails.
//!
//! The cycle makes the decisions only. Its owner performs the pending
//! `action`, reports the outcome as an `Event` through `step`, and goes on
//! until the action is `Finish` or `Revert`.
//!
//! A failure gives back the whole batch, tickets already printed included:
//! a cycle that does not finish leaves nothing claimed. A ticket may then be
//! printed twice, but none is lost.

use vstd::prelude::*;
use crate::config::Config;
use crate::services::{select_service, tickets_of, Service, Ticket};

verus! {

/// Where a cycle stands.
#[derive(Debug, Clone, Copy, PartialEq, Eq, Structural)]
pub enum Phase {
    /// Waiting for the current tracker's listing.
    Listing,
    /// Taking the print label off the current tracker's tickets, one by one.
    Claiming,
    /// Rendering and dispatching the batch, from its end.
    Printing,
    /// Every ticket of the batch was printed.
    Done,
    /// Something failed: the batch is given back.
    Failed,
}

/// What the owner of a cycle reports.
#[derive(Debug)]
pub enum Event {
    /// The current tracker's tickets that carry the print label; tickets of
    /// another tracker among them are ignored.
    Listed(Vec<Ticket>),
    /// The listing failed: network, authentication or an unreadable answer.
    ListFailed,
    /// The current ticket's label was taken off.
    Claimed,
    /// Taking the current ticket's label off failed; the ticket is skipped.
    ClaimFailed,
    /// The current ticket's card was rendered and dispatched.
    Printed,
    /// Rendering or dispatching the current ticket's card failed.
    PrintFailed,
}

/// What the owner of a cycle is to do next.
#[derive(Debug)]
pub enum Action {
    /// List the tickets of this tracker that carry the print label.
    List(Service),
    /// Take the print label off this ticket.
    Claim(Ticket),
    /// Render this ticket's card and dispatch it.
    Print(Ticket),
    /// The cycle is over and succeeded.
    Finish,
    /// The cycle failed: put the label back on each ticket, through the
    /// tracker that it stands under, then report the failure.
    Revert(Vec<(Service, Vec<Ticket>)>),
}

/// A report, with contents as sequences.
pub enum EventView {
    Listed(Seq<Ticket>),
    ListFailed,
    Claimed,
    ClaimFailed,
    Printed,
    PrintFailed,
}

/// A decision, with contents as sequences.
pub enum ActionView {
    List(Service),
    Claim(Ticket),
    Print(Ticket),
    Finish,
    Revert(Seq<(Service, Seq<Ticket>)>),
}

impl View for Event {
    type V = EventView;

    open spec fn view(&self) -> EventView {
        match self {
            Event::Listed(v) => EventView::Listed(v@),
            Event::ListFailed => EventView::ListFailed,
            Event::Claimed => EventView::Claimed,
            Event::ClaimFailed => EventView::ClaimFailed,
            Event::Printed => EventView::Printed,
            Event::PrintFailed => EventView::PrintFailed,
        }
    }
}

/// The tickets of each revert group as a sequence.
pub open spec fn groups_view(g: Seq<(Service, Vec<Ticket>)>) -> Seq<(Service, Seq<Ticket>)> {
    g.map_values(|p: (Service, Vec<Ticket>)| (p.0, p.1@))
}

impl View for Action {
    type V = ActionView;

    open spec fn view(&self) -> ActionView {
        match self {
            Action::List(s) => ActionView::List(*s),
            Action::Claim(t) => ActionView::Claim(*t),
            Action::Print(t) => ActionView::Print(*t),
            Action::Finish => ActionView::Finish,
            Action::Revert(g) => ActionView::Revert(groups_view(g@)),
        }
    }
}

/// The state of a cycle, with contents as sequences.
pub struct CycleView {
    pub phase: Phase,
    /// The configured trackers, in configuration order.
    pub sources: Seq<Service>,
    /// The tracker being listed or claimed from.
    pub source: int,
    /// The current tracker's tickets that carry the print label.
    pub candidates: Seq<Ticket>,
    /// The candidate being claimed.
    pub next: int,
    /// The tickets claimed so far: exactly those whose label was taken off.
    pub batch: Seq<Ticket>,
    /// How many tickets of the batch, from its start, are not printed yet.
    pub remaining: int,
}

/// A cycle.
#[derive(Debug)]
pub struct Cycle {
    pub phase: Phase,
    pub sources: Vec<Service>,
    pub source: usize,
    pub candidates: Vec<Ticket>,
    pub next: usize,
    pub batch: Vec<Ticket>,
    pub remaining: usize,
}

impl View for Cycle {
    type V = CycleView;

    open spec fn view(&self) -> CycleView {
        CycleView {
            phase: self.phase,
            sources: self.sources@,
            source: self.source as int,
            candidates: self.candidates@,
            next: self.next as int,
            batch: self.batch@,
            remaining: self.remaining as int,
        }
    }
}

/// The trackers that `config` sets up, in configuration order: the board
/// service, then the issue tracker.
pub open spec fn sources_of(config: Config) -> Seq<Service> {
    (if config.trello is Some {
        seq![Service::Trello]
    } else {
        seq![]
    }) + (if config.jira is Some {
        seq![Service::Jira]
    } else {
        seq![]
    })
}

impl CycleView {
    /// The state that a cycle over `sources` starts in.
    pub open spec fn initial(sources: Seq<Service>) -> CycleView {
        CycleView {
            phase: if sources.len() > 0 {
                Phase::Listing
            } else {
                Phase::Done
            },
            sources,
            source: 0,
            candidates: seq![],
            next: 0,
            batch: seq![],
            remaining: 0,
        }
    }

    /// What holds of every state a cycle reaches.
    pub open spec fn wf(self) -> bool {
        &&& self.sources.no_duplicates()
        &&& 0 <= self.source <= self.sources.len()
        &&& 0 <= self.next
        &&& 0 <= self.remaining <= self.batch.len()
        &&& (self.phase == Phase::Listing ==> self.source < self.sources.len())
        &&& (self.phase == Phase::Claiming ==> {
            &&& self.source < self.sources.len()
            &&& self.next < self.candidates.len()
            &&& forall|i: int|
                0 <= i < self.candidates.len() ==> (#[trigger] self.candidates[i]).service
                    == self.sources[self.source]
        })
        &&& (self.phase == Phase::Printing ==> self.remaining > 0)
        &&& forall|i: int|
            0 <= i < self.batch.len() ==> self.sources.contains((#[trigger] self.batch[i]).service)
    }

    /// The state once the current tracker is done with: the next tracker is
    /// listed; after the last one the batch is printed, or the cycle is done
    /// where nothing was claimed.
    pub open spec fn advance(self) -> CycleView {
        let source = self.source + 1;
        let phase = if source < self.sources.len() {
            Phase::Listing
        } else if self.batch.len() == 0 {
            Phase::Done
        } else {
            Phase::Printing
        };
        CycleView {
            phase,
            source,
            candidates: seq![],
            next: 0,
            remaining: if phase == Phase::Printing {
                self.batch.len() as int
            } else {
                0
            },
            ..self
        }
    }

    /// The state once the current candidate is dealt with: claimed (it joins
    /// the batch) or skipped.
    pub open spec fn after_claim(self, claimed: bool) -> CycleView {
        let s = CycleView {
            batch: if claimed {
                self.batch.push(self.candidates[self.next])
            } else {
                self.batch
            },
            next: self.next + 1,
            ..self
        };
        if s.next >= s.candidates.len() {
            s.advance()
        } else {
            s
        }
    }

    /// The state after `e`. A report that does not answer the pending action
    /// changes nothing.
    pub open spec fn step(self, e: EventView) -> CycleView {
        match (self.phase, e) {
            (Phase::Listing, EventView::Listed(ts)) => {
                let c = tickets_of(ts, self.sources[self.source]);
                if c.len() == 0 {
                    self.advance()
                } else {
                    CycleView { phase: Phase::Claiming, candidates: c, next: 0, ..self }
                }
            },
            (Phase::Listing, EventView::ListFailed) => CycleView { phase: Phase::Failed, ..self },
            (Phase::Claiming, EventView::Claimed) => self.after_claim(true),
            (Phase::Claiming, EventView::ClaimFailed) => self.after_claim(false),
            (Phase::Printing, EventView::Printed) => {
                if self.remaining <= 1 {
                    CycleView { phase: Phase::Done, remaining: 0, ..self }
                } else {
                    CycleView { remaining: self.remaining - 1, ..self }
                }
            },
            (Phase::Printing, EventView::PrintFailed) => CycleView { phase: Phase::Failed, ..self },
            _ => self,
        }
    }

    /// Each configured tracker with the tickets of the batch that it gave.
    pub open spec fn revert_groups(self) -> Seq<(Service, Seq<Ticket>)> {
        self.sources.map_values(|s: Service| (s, tickets_of(self.batch, s)))
    }

    /// The action pending in this state.
    pub open spec fn action(self) -> ActionView {
        match self.phase {
            Phase::Listing => ActionView::List(self.sources[self.source]),
            Phase::Claiming => ActionView::Claim(self.candidates[self.next]),
            Phase::Printing => ActionView::Print(self.batch[self.remaining - 1]),
            Phase::Done => ActionView::Finish,
            Phase::Failed => ActionView::Revert(self.revert_groups()),
        }
    }
}

impl Cycle {
    /// A cycle over the trackers that `config` sets up, in configuration
    /// order. Without any tracker it is done at once.
    pub fn new(config: &Config) -> (r: Cycle)
        ensures
            r@ == CycleView::initial(sources_of(*config)),
            r@.wf(),
    {
        let mut sources: Vec<Service> = Vec::new();
        if config.trello.is_some() {
            sources.push(Service::Trello);
        }
        if config.jira.is_some() {
            sources.push(Service::Jira);
        }
        assert(sources@ =~= sources_of(*config));
        let phase = if sources.len() > 0 {
            Phase::Listing
        } else {
            Phase::Done
        };
        let r = Cycle {
            phase,
            sources,
            source: 0,
            candidates: Vec::new(),
            next: 0,
            batch: Vec::new(),
            remaining: 0,
        };
        assert(r@ =~= CycleView::initial(sources_of(*config)));
        r
    }

    /// Whether the cycle is over: done, or failed and giving its batch back.
    pub fn is_over(&self) -> (r: bool)
        ensures
            r == (self.phase == Phase::Done || self.phase == Phase::Failed),
    {
        self.phase == Phase::Done || self.phase == Phase::Failed
    }

    /// The action pending.
    pub fn action(&self) -> (r: Action)
        requires
            self@.wf(),
        ensures
            r@ == self@.action(),
    {
        match self.phase {
            Phase::Listing => Action::List(self.sources[self.source]),
            Phase::Claiming => Action::Claim(self.candidates[self.next].duplicate()),
            Phase::Printing => Action::Print(self.batch[self.remaining - 1].duplicate()),
            Phase::Done => Action::Finish,
            Phase::Failed => {
                let mut groups: Vec<(Service, Vec<Ticket>)> = Vec::new();
                let mut i: usize = 0;
                while i < self.sources.len()
                    invariant
                        i <= self.sources.len(),
                        groups_view(groups@) == self@.revert_groups().take(i as int),
                    decreases self.sources.len() - i,
                {
                    let s = self.sources[i];
                    let sel = select_service(&self.batch, s);
                    let ghost before = groups_view(groups@);
                    groups.push((s, sel));
                    assert(groups_view(groups@) =~= before.push((s, sel@)));
                    assert(groups_view(groups@) =~= self@.revert_groups().take(i as int + 1));
                    i = i + 1;
                }
                assert(self@.revert_groups().take(i as int) =~= self@.revert_groups());
                Action::Revert(groups)
            },
        }
    }

    fn advance(&mut self)
        requires
            old(self).source < old(self).sources.len(),
        ensures
            final(self)@ == old(self)@.advance(),
    {
        self.source = self.source + 1;
        self.candidates = Vec::new();
        self.next = 0;
        if self.source < self.sources.len() {
            self.phase = Phase::Listing;
            self.remaining = 0;
        } else if self.batch.len() == 0 {
            self.phase = Phase::Done;
            self.remaining = 0;
        } else {
            self.phase = Phase::Printing;
            self.remaining = self.batch.len();
        }
        assert(self@ =~= old(self)@.advance());
    }

    fn finish_claim(&mut self, claimed: bool)
        requires
            old(self)@.wf(),
            old(self).phase == Phase::Claiming,
        ensures
            final(self)@ == old(self)@.after_claim(claimed),
    {
        if claimed {
            let t = self.candidates[self.next].duplicate();
            self.batch.push(t);
        }
        let n = self.candidates.len();
        self.next = self.next + 1;
        if self.next >= n {
            self.advance();
        }
    }

    /// Takes in the outcome of the pending action.
    pub fn step(&mut self, event: Event)
        requires
            old(self)@.wf(),
        ensures
            final(self)@ == old(self)@.step(event@),
            final(self)@.wf(),
    {
        proof {
            lemma_step_wf(self@, event@);
        }
        match event {
            Event::Listed(ts) => {
                if self.phase == Phase::Listing {
                    let c = select_service(&ts, self.sources[self.source]);
                    if c.len() == 0 {
                        self.advance();
                    } else {
                        self.candidates = c;
                        self.next = 0;
                        self.phase = Phase::Claiming;
                    }
                }
            },
            Event::ListFailed => {
                if self.phase == Phase::Listing {
                    self.phase = Phase::Failed;
                }
            },
            Event::Claimed => {
                if self.phase == Phase::Claiming {
                    self.finish_claim(true);
                }
            },
            Event::ClaimFailed => {
                if self.phase == Phase::Claiming {
                    self.finish_claim(false);
                }
            },
            Event::Printed => {
                if self.phase == Phase::Printing {
                    if self.remaining <= 1 {
                        self.phase = Phase::Done;
                        self.remaining = 0;
                    } else {
                        self.remaining = self.remaining - 1;
                    }
                }
            },
            Event::PrintFailed => {
                if self.phase == Phase::Printing {
                    self.phase = Phase::Failed;
                }
            },
        }
    }
}

/// The state after `e` is a state that a cycle reaches.
pub proof fn lemma_step_wf(s: CycleView, e: EventView)
    requires
        s.wf(),
    ensures
        s.step(e).wf(),
{
    broadcast use vstd::seq_lib::group_filter_ensures;

    match (s.phase, e) {
        (Phase::Listing, EventView::Listed(ts)) => {
            let c = tickets_of(ts, s.sources[s.source]);
            assert forall|i: int| 0 <= i < c.len() implies (#[trigger] c[i]).service
                == s.sources[s.source] by {}
        },
        (Phase::Claiming, EventView::Claimed) => {
            let t = s.candidates[s.next];
            assert(s.sources.contains(t.service)) by {
                assert(s.sources[s.source] == t.service);
            }
            let b = s.batch.push(t);
            assert forall|i: int| 0 <= i < b.len() implies s.sources.contains(
                (#[trigger] b[i]).service,
            ) by {
                if i < s.batch.len() {
                    assert(b[i] == s.batch[i]);
                }
            }
        },
        _ => {},
    }
}

/// The batch only grows, and only by a claim that succeeded: the ticket
/// whose label was just taken off joins it. Nothing else changes it.
pub proof fn lemma_batch_is_claims(s: CycleView, e: EventView)
    requires
        s.wf(),
    ensures
        s.step(e).batch == (if s.phase == Phase::Claiming && e is Claimed {
            s.batch.push(s.candidates[s.next])
        } else {
            s.batch
        }),
{
}

/// A failed cycle gives back every claimed ticket exactly once, through the
/// tracker that it came from: the revert action holds one group for each
/// configured tracker, no tracker twice, and each group holds exactly the
/// tickets of the batch that came from its tracker, in batch order.
pub proof fn lemma_failed_cycle_reverts_each_claim(s: CycleView)
    requires
        s.wf(),
        s.phase == Phase::Failed,
    ensures
        s.action() is Revert,
        ({
            let g = s.revert_groups();
            &&& s.action() == ActionView::Revert(g)
            &&& forall|j: int, k: int|
                0 <= j < g.len() && 0 <= k < g.len() && (#[trigger] g[j]).0 == (#[trigger] g[k]).0
                    ==> j == k
            &&& forall|i: int|
                0 <= i < s.batch.len() ==> exists|j: int|
                    0 <= j < g.len() && (#[trigger] g[j]).0 == (#[trigger] s.batch[i]).service
            &&& forall|j: int| 0 <= j < g.len() ==> (#[trigger] g[j]).1 == tickets_of(s.batch, g[j].0)
        }),
{
    let g = s.revert_groups();
    assert forall|i: int| 0 <= i < s.batch.len() implies exists|j: int|
        0 <= j < g.len() && (#[trigger] g[j]).0 == (#[trigger] s.batch[i]).service by {
        let j = choose|j: int| 0 <= j < s.sources.len() && s.sources[j] == s.batch[i].service;
        assert(g[j].0 == s.sources[j]);
    }
    assert forall|j: int, k: int|
        0 <= j < g.len() && 0 <= k < g.len() && (#[trigger] g[j]).0 == (#[trigger] g[k]).0 implies j
        == k by {
        assert(g[j].0 == s.sources[j]);
        assert(g[k].0 == s.sources[k]);
    }
}

/// The state after the reports `events`, one by one.
pub open spec fn run(s: CycleView, events: Seq<EventView>) -> CycleView
    decreases events.len(),
{
    if events.len() == 0 {
        s
    } else {
        run(s, events.drop_last()).step(events.last())
    }
}

/// The tickets whose claim was reported to have gone through during
/// `events`, in order: each answered a pending `Claim` with `Claimed`.
pub open spec fn claims(s: CycleView, events: Seq<EventView>) -> Seq<Ticket>
    decreases events.len(),
{
    if events.len() == 0 {
        seq![]
    } else {
        let before = run(s, events.drop_last());
        let earlier = claims(s, events.drop_last());
        if before.phase == Phase::Claiming && events.last() is Claimed {
            earlier.push(before.candidates[before.next])
        } else {
            earlier
        }
    }
}

/// Over any reports, a cycle stays in the states it may reach, and its
/// batch is what it started with followed by exactly the tickets whose claim
/// went through.
pub proof fn lemma_run_batch_is_claims(s: CycleView, events: Seq<EventView>)
    requires
        s.wf(),
    ensures
        run(s, events).wf(),
        run(s, events).batch == s.batch + claims(s, events),
    decreases events.len(),
{
    if events.len() == 0 {
        assert(s.batch + Seq::<Ticket>::empty() =~= s.batch);
    } else {
        let prev = events.drop_last();
        lemma_run_batch_is_claims(s, prev);
        let before = run(s, prev);
        lemma_step_wf(before, events.last());
        lemma_batch_is_claims(before, events.last());
        if before.phase == Phase::Claiming && events.last() is Claimed {
            assert(s.batch + claims(s, prev).push(before.candidates[before.next]) =~= (s.batch
                + claims(s, prev)).push(before.candidates[before.next]));
        }
    }
}

/// Whatever the reports, a cycle that fails gives back each ticket whose
/// claim went through exactly once, through the tracker it came from: one
/// revert group for each configured tracker, no tracker twice, each holding
/// exactly the claimed tickets of its tracker in the order of their claims.
pub proof fn lemma_failed_run_reverts_each_claim(config: Config, events: Seq<EventView>)
    requires
        run(CycleView::initial(sources_of(config)), events).phase == Phase::Failed,
    ensures
        ({
            let start = CycleView::initial(sources_of(config));
            let end = run(start, events);
            let claimed = claims(start, events);
            let g = end.revert_groups();
            &&& end.action() == ActionView::Revert(g)
            &&& g.len() == sources_of(config).len()
            &&& forall|j: int, k: int|
                0 <= j < g.len() && 0 <= k < g.len() && (#[trigger] g[j]).0 == (#[trigger] g[k]).0
                    ==> j == k
            &&& forall|i: int|
                0 <= i < claimed.len() ==> exists|j: int|
                    0 <= j < g.len() && (#[trigger] g[j]).0 == (#[trigger] claimed[i]).service
            &&& forall|j: int| 0 <= j < g.len() ==> (#[trigger] g[j]).1 == tickets_of(claimed, g[j].0)
        }),
{
    let start = CycleView::initial(sources_of(config));
    assert(start.wf()) by {
        let src = sources_of(config);
        if config.trello is Some && config.jira is Some {
            assert(src =~= seq![Service::Trello, Service::Jira]);
        }
        assert(src.no_duplicates());
    }
    lemma_run_batch_is_claims(start, events);
    let end = run(start, events);
    assert(end.batch =~= claims(start, events));
    assert(end.sources == start.sources) by {
        lemma_run_keeps_sources(start, events);
    }
    lemma_failed_cycle_reverts_each_claim(end);
}

/// The trackers of a cycle never change.
proof fn lemma_run_keeps_sources(s: CycleView, events: Seq<EventView>)
    ensures
        run(s, events).sources == s.sources,
    decreases events.len(),
{
    if events.len() > 0 {
        lemma_run_keeps_sources(s, events.drop_last());
    }
}

/// `n` reports of empty listings.
pub open spec fn empty_listings(n: nat) -> Seq<EventView> {
    Seq::new(n, |i: int| EventView::Listed(seq![]))
}

/// A cycle in which every tracker lists nothing finishes once the last one
/// did: no card is ever printed, nothing is claimed, nothing given back.
pub proof fn lemma_nothing_listed_run_is_done(config: Config)
    ensures
        ({
            let start = CycleView::initial(sources_of(config));
            let n = sources_of(config).len();
            &&& forall|k: nat|
                k <= n ==> {
                    &&& (#[trigger] run(start, empty_listings(k))).phase != Phase::Printing
                    &&& run(start, empty_listings(k)).phase != Phase::Failed
                    &&& run(start, empty_listings(k)).batch.len() == 0
                }
            &&& run(start, empty_listings(n)).phase == Phase::Done
            &&& run(start, empty_listings(n)).action() == ActionView::Finish
        }),
{
    let start = CycleView::initial(sources_of(config));
    let n = sources_of(config).len();
    assert forall|k: nat| k <= n implies {
        &&& (#[trigger] run(start, empty_listings(k))).phase != Phase::Printing
        &&& run(start, empty_listings(k)).phase != Phase::Failed
        &&& run(start, empty_listings(k)).batch.len() == 0
    } by {
        lemma_empty_listings_prefix(start, k);
    }
    lemma_empty_listings_prefix(start, n);
}

/// After `k` empty listings, a fresh cycle lists tracker `k`, or is done
/// once every tracker listed.
proof fn lemma_empty_listings_prefix(start: CycleView, k: nat)
    requires
        start == CycleView::initial(start.sources),
        k <= start.sources.len(),
    ensures
        run(start, empty_listings(k)).batch.len() == 0,
        run(start, empty_listings(k)).source == k,
        run(start, empty_listings(k)).sources == start.sources,
        run(start, empty_listings(k)).phase == (if k < start.sources.len() {
            Phase::Listing
        } else {
            Phase::Done
        }),
    decreases k,
{
    if k > 0 {
        let prev = (k - 1) as nat;
        assert(empty_listings(k).drop_last() =~= empty_listings(prev));
        lemma_empty_listings_prefix(start, prev);
        let before = run(start, empty_listings(prev));
        let c = tickets_of(seq![], before.sources[before.source]);
        assert(c.len() == 0) by {
            reveal(Seq::filter);
        }
    }
}

/// `n` reports of printed cards.
pub open spec fn printed(n: nat) -> Seq<EventView> {
    Seq::new(n, |i: int| EventView::Printed)
}

/// Printing attempts each ticket of the batch exactly once, from the end of
/// the batch to its start, and the cycle is done after the last one.
pub proof fn lemma_prints_each_once(s: CycleView)
    requires
        s.wf(),
        s.phase == Phase::Printing,
        s.remaining == s.batch.len(),
    ensures
        forall|j: nat|
            j < s.batch.len() ==> (#[trigger] run(s, printed(j))).action() == ActionView::Print(
                s.batch[s.batch.len() - 1 - j],
            ),
        run(s, printed(s.batch.len() as nat)).phase == Phase::Done,
        run(s, printed(s.batch.len() as nat)).action() == ActionView::Finish,
{
    assert forall|j: nat| j < s.batch.len() implies (#[trigger] run(s, printed(j))).action()
        == ActionView::Print(s.batch[s.batch.len() - 1 - j]) by {
        lemma_printed_prefix(s, j);
    }
    lemma_printed_prefix(s, s.batch.len() as nat);
}

/// After `j` printed cards, `remaining - j` tickets are left to print.
proof fn lemma_printed_prefix(s: CycleView, j: nat)
    requires
        s.wf(),
        s.phase == Phase::Printing,
        j <= s.remaining,
    ensures
        run(s, printed(j)).batch == s.batch,
        run(s, printed(j)).remaining == s.remaining - j,
        run(s, printed(j)).phase == (if j < s.remaining {
            Phase::Printing
        } else {
            Phase::Done
        }),
    decreases j,
{
    if j > 0 {
        let prev = (j - 1) as nat;
        assert(printed(j).drop_last() =~= printed(prev));
        lemma_printed_prefix(s, prev);
    }
}

} // verus!
