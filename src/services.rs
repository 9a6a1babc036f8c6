//! The ticket shape shared by every tracker adapter.

use vstd::prelude::*;

verus! {

/// The tracker that produced a ticket, and therefore the only one that may
/// give its claim back.
#[derive(Debug, Clone, Copy, PartialEq, Eq, Structural)]
pub enum Service {
    Trello,
    Jira,
}

/// The display name of a tracker.
pub open spec fn service_name(s: Service) -> Seq<char> {
    match s {
        Service::Trello => seq!['T', 'r', 'e', 'l', 'l', 'o'],
        Service::Jira => seq!['J', 'i', 'r', 'a'],
    }
}

impl Service {
    /// The display name of the tracker.
    pub fn name(self) -> (r: &'static str)
        ensures
            r@ == service_name(self),
    {
        match self {
            Service::Trello => {
                let r = "Trello";
                proof {
                    reveal_strlit("Trello");
                }
                assert(r@ =~= service_name(self));
                r
            },
            Service::Jira => {
                let r = "Jira";
                proof {
                    reveal_strlit("Jira");
                }
                assert(r@ =~= service_name(self));
                r
            },
        }
    }
}

/// One claimed (or claimable) item of a tracker.
///
/// `label_id` is what the tracker needs to put the label back: the id of the
/// label instance on the board service, the label's name on the issue tracker.
#[derive(Debug, Clone)]
pub struct Ticket {
    pub id: String,
    pub label_id: String,
    pub title: String,
    pub subtitle: String,
    pub url: String,
    pub service: Service,
}

impl Ticket {
    /// A copy of the ticket, field by field.
    pub fn duplicate(&self) -> (r: Ticket)
        ensures
            r == *self,
    {
        Ticket {
            id: self.id.clone(),
            label_id: self.label_id.clone(),
            title: self.title.clone(),
            subtitle: self.subtitle.clone(),
            url: self.url.clone(),
            service: self.service,
        }
    }
}

/// The tickets of `tickets` that belong to `service`, in their order.
pub open spec fn tickets_of(tickets: Seq<Ticket>, service: Service) -> Seq<Ticket> {
    tickets.filter(|t: Ticket| t.service == service)
}

/// The tickets of one tracker, in the order in which they stand in `tickets`.
pub fn select_service(tickets: &Vec<Ticket>, service: Service) -> (r: Vec<Ticket>)
    ensures
        r@ == tickets_of(tickets@, service),
{
    let mut r: Vec<Ticket> = Vec::new();
    let mut i: usize = 0;
    while i < tickets.len()
        invariant
            i <= tickets.len(),
            r@ == tickets_of(tickets@.take(i as int), service),
        decreases tickets.len() - i,
    {
        proof {
            assert(tickets@.take(i as int + 1).drop_last() =~= tickets@.take(i as int));
            reveal(Seq::filter);
        }
        if tickets[i].service == service {
            r.push(tickets[i].duplicate());
        }
        i = i + 1;
    }
    assert(tickets@.take(tickets.len() as int) =~= tickets@);
    r
}

} // verus!
