//! The issue tracker: the search query, its paging, and what ticket a found
//! issue becomes.

use vstd::prelude::*;
use vstd::string::StringExecFns;
use crate::config::Jira;
use crate::services::{Service, Ticket};
use crate::text::texts;

verus! {

/// How many issues one search page asks for.
pub const PAGE_SIZE: usize = 50;

/// An issue as the search lists it.
#[derive(Debug, Clone)]
pub struct Issue {
    pub id: String,
    /// The issue's own address in the tracker's interface.
    pub url: String,
    pub key: String,
    pub summary: String,
}

/// `items` with `sep` between each two.
pub open spec fn join(items: Seq<Seq<char>>, sep: Seq<char>) -> Seq<char>
    decreases items.len(),
{
    if items.len() == 0 {
        seq![]
    } else if items.len() == 1 {
        items[0]
    } else {
        join(items.drop_last(), sep) + sep + items.last()
    }
}

/// `project = p` for each project.
pub open spec fn project_terms(projects: Seq<Seq<char>>) -> Seq<Seq<char>> {
    projects.map_values(|p: Seq<char>| "project = "@ + p)
}

/// The search for issues that carry the print label, limited to the
/// configured projects and issue types where there are any: the project part,
/// a space, the type part, then ` labels = ` and the label. An absent part is
/// empty, so its space stays.
pub open spec fn query_of(jira: Jira) -> Seq<char> {
    let projects = texts(jira.limit_to_projects@);
    let types = texts(jira.limit_to_types@);
    let project_part = if projects.len() == 0 {
        seq![]
    } else {
        "("@ + join(project_terms(projects), " OR "@) + ") AND"@
    };
    let type_part = if types.len() == 0 {
        seq![]
    } else {
        "issuetype in ("@ + join(types, ", "@) + ") AND"@
    };
    project_part + " "@ + type_part + " labels = "@ + jira.print_label@
}

/// Appends the strings of `items` to `out`, with `sep` between each two.
fn push_joined(out: &mut String, items: &Vec<String>, sep: &str)
    ensures
        final(out)@ == old(out)@ + join(texts(items@), sep@),
{
    let mut i: usize = 0;
    let ghost start = out@;
    while i < items.len()
        invariant
            i <= items.len(),
            out@ == start + join(texts(items@.take(i as int)), sep@),
        decreases items.len() - i,
    {
        let ghost before = texts(items@.take(i as int));
        assert(texts(items@.take(i as int + 1)).drop_last() =~= before);
        assert(texts(items@.take(i as int + 1)).last() == items@[i as int]@);
        if i > 0 {
            out.append(sep);
        }
        out.append(items[i].as_str());
        proof {
            if i == 0 {
                assert(before =~= seq![]);
            }
        }
        i = i + 1;
    }
    assert(items@.take(items.len() as int) =~= items@);
}

/// The search for issues that carry the print label. Projects are matched by
/// any of the allowed names and types by any of the allowed types.
pub fn build_query(jira: &Jira) -> (r: String)
    ensures
        r@ == query_of(*jira),
{
    let mut q = String::new();
    if jira.limit_to_projects.len() > 0 {
        let mut terms: Vec<String> = Vec::new();
        let mut i: usize = 0;
        while i < jira.limit_to_projects.len()
            invariant
                i <= jira.limit_to_projects.len(),
                texts(terms@) == project_terms(texts(jira.limit_to_projects@.take(i as int))),
            decreases jira.limit_to_projects.len() - i,
        {
            let mut t = String::from_str("project = ");
            t.append(jira.limit_to_projects[i].as_str());
            let ghost prev = terms@;
            assert(t@ == "project = "@ + jira.limit_to_projects@[i as int]@);
            terms.push(t);
            assert(texts(terms@) =~= texts(prev).push(t@));
            assert(texts(jira.limit_to_projects@.take(i as int + 1)) =~= texts(
                jira.limit_to_projects@.take(i as int),
            ).push(jira.limit_to_projects@[i as int]@));
            assert(terms@ =~= prev.push(t));
            assert(texts(terms@) =~= project_terms(
                texts(jira.limit_to_projects@.take(i as int + 1)),
            ));
            i = i + 1;
        }
        assert(jira.limit_to_projects@.take(i as int) =~= jira.limit_to_projects@);
        q.append("(");
        push_joined(&mut q, &terms, " OR ");
        q.append(") AND");
    }
    q.append(" ");
    if jira.limit_to_types.len() > 0 {
        q.append("issuetype in (");
        push_joined(&mut q, &jira.limit_to_types, ", ");
        q.append(") AND");
    }
    q.append(" labels = ");
    q.append(jira.print_label.as_str());
    assert(q@ =~= query_of(*jira));
    q
}

/// Where the next search page starts: after the issues just returned, unless
/// that page came back with fewer issues than asked for, which makes it the
/// last one (or the position would leave the machine's range).
pub fn next_page(start_at: usize, returned: usize) -> (r: Option<usize>)
    ensures
        r == (if returned < PAGE_SIZE || start_at + returned > usize::MAX {
            None
        } else {
            Some((start_at + returned) as usize)
        }),
{
    if returned < PAGE_SIZE {
        None
    } else {
        start_at.checked_add(returned)
    }
}

/// The ticket that a found issue becomes; its label is given back by name.
pub open spec fn issue_ticket(jira: Jira, issue: Issue) -> Ticket {
    Ticket {
        id: issue.id,
        label_id: jira.print_label,
        title: issue.summary,
        subtitle: issue.key,
        url: issue.url,
        service: Service::Jira,
    }
}

/// Appends to `tickets` the ticket of every issue found, in search order.
/// The search only finds issues with the print label: each of them is a claim
/// to make.
pub fn fetch_tickets(jira: &Jira, issues: &Vec<Issue>, tickets: &mut Vec<Ticket>)
    ensures
        final(tickets)@ == old(tickets)@ + issues@.map_values(|i: Issue| issue_ticket(*jira, i)),
{
    let mut i: usize = 0;
    while i < issues.len()
        invariant
            i <= issues.len(),
            tickets@ == old(tickets)@ + issues@.take(i as int).map_values(
                |x: Issue| issue_ticket(*jira, x),
            ),
        decreases issues.len() - i,
    {
        let issue = &issues[i];
        tickets.push(
            Ticket {
                id: issue.id.clone(),
                label_id: jira.print_label.clone(),
                title: issue.summary.clone(),
                subtitle: issue.key.clone(),
                url: issue.url.clone(),
                service: Service::Jira,
            },
        );
        assert(tickets@ =~= old(tickets)@ + issues@.take(i as int + 1).map_values(
            |x: Issue| issue_ticket(*jira, x),
        ));
        i = i + 1;
    }
    assert(issues@.take(issues.len() as int) =~= issues@);
}

/// The tickets of `tickets` whose label goes back on an issue: those that the
/// issue tracker gave, in their order.
pub fn revert_tickets(tickets: &Vec<Ticket>) -> (r: Vec<Ticket>)
    ensures
        r@ == crate::services::tickets_of(tickets@, Service::Jira),
{
    crate::services::select_service(tickets, Service::Jira)
}

} // verus!
