use ticket_printer::config::{Config, Jira, PDfDimension, Trello};
use ticket_printer::cycle::{Action, Cycle, Event, Phase};
use ticket_printer::services::{Service, Ticket};

fn trello() -> Trello {
    Trello {
        app_key: "key".to_string(),
        token: "token".to_string(),
        print_label: "print".to_string(),
        limit_to_boards: vec![],
    }
}

fn jira() -> Jira {
    Jira {
        host: "example.atlassian.net".to_string(),
        user: "me".to_string(),
        token: "token".to_string(),
        print_label: "print".to_string(),
        limit_to_projects: vec![],
        limit_to_types: vec![],
    }
}

fn config(with_trello: bool, with_jira: bool) -> Config {
    Config {
        pdf: PDfDimension::default(),
        printer: None,
        trello: if with_trello { Some(trello()) } else { None },
        jira: if with_jira { Some(jira()) } else { None },
        global: None,
    }
}

fn ticket(id: &str, service: Service) -> Ticket {
    Ticket {
        id: id.to_string(),
        label_id: format!("label-{}", id),
        title: format!("Title {}", id),
        subtitle: id.to_string(),
        url: format!("https://example.com/{}", id),
        service,
    }
}

fn ids(v: &[Ticket]) -> Vec<String> {
    v.iter().map(|t| t.id.clone()).collect()
}

#[test]
fn one_adapter_two_tickets_print_failure_reverts_both() {
    let mut c = Cycle::new(&config(true, false));
    assert!(matches!(c.action(), Action::List(Service::Trello)));
    c.step(Event::Listed(vec![ticket("1", Service::Trello), ticket("2", Service::Trello)]));
    match c.action() {
        Action::Claim(t) => assert_eq!(t.id, "1"),
        other => panic!("unexpected {:?}", other),
    }
    c.step(Event::Claimed);
    match c.action() {
        Action::Claim(t) => assert_eq!(t.id, "2"),
        other => panic!("unexpected {:?}", other),
    }
    c.step(Event::Claimed);
    // The batch is printed from its end.
    match c.action() {
        Action::Print(t) => assert_eq!(t.id, "2"),
        other => panic!("unexpected {:?}", other),
    }
    c.step(Event::Printed);
    match c.action() {
        Action::Print(t) => assert_eq!(t.id, "1"),
        other => panic!("unexpected {:?}", other),
    }
    c.step(Event::PrintFailed);
    assert_eq!(c.phase, Phase::Failed);
    assert!(c.is_over());
    match c.action() {
        Action::Revert(groups) => {
            assert_eq!(groups.len(), 1);
            assert_eq!(groups[0].0, Service::Trello);
            assert_eq!(ids(&groups[0].1), vec!["1", "2"]);
            assert_eq!(groups[0].1[0].label_id, "label-1");
        }
        other => panic!("unexpected {:?}", other),
    }
}

#[test]
fn nothing_listed_finishes_at_once() {
    let mut c = Cycle::new(&config(true, true));
    assert!(matches!(c.action(), Action::List(Service::Trello)));
    c.step(Event::Listed(vec![]));
    assert!(matches!(c.action(), Action::List(Service::Jira)));
    c.step(Event::Listed(vec![]));
    assert_eq!(c.phase, Phase::Done);
    assert!(matches!(c.action(), Action::Finish));
    assert!(c.batch.is_empty());
}

#[test]
fn all_printed_finishes() {
    let mut c = Cycle::new(&config(false, true));
    c.step(Event::Listed(vec![ticket("7", Service::Jira)]));
    c.step(Event::Claimed);
    match c.action() {
        Action::Print(t) => assert_eq!(t.id, "7"),
        other => panic!("unexpected {:?}", other),
    }
    c.step(Event::Printed);
    assert_eq!(c.phase, Phase::Done);
    assert!(matches!(c.action(), Action::Finish));
}

#[test]
fn failed_claim_is_skipped_not_reverted() {
    let mut c = Cycle::new(&config(true, false));
    c.step(Event::Listed(vec![ticket("1", Service::Trello), ticket("2", Service::Trello)]));
    c.step(Event::ClaimFailed);
    c.step(Event::Claimed);
    assert_eq!(ids(&c.batch), vec!["2"]);
    c.step(Event::PrintFailed);
    match c.action() {
        Action::Revert(groups) => assert_eq!(ids(&groups[0].1), vec!["2"]),
        other => panic!("unexpected {:?}", other),
    }
}

#[test]
fn listing_failure_reverts_other_adapters_claims() {
    let mut c = Cycle::new(&config(true, true));
    c.step(Event::Listed(vec![ticket("t1", Service::Trello)]));
    c.step(Event::Claimed);
    assert!(matches!(c.action(), Action::List(Service::Jira)));
    c.step(Event::ListFailed);
    match c.action() {
        Action::Revert(groups) => {
            assert_eq!(groups.len(), 2);
            assert_eq!(groups[0].0, Service::Trello);
            assert_eq!(ids(&groups[0].1), vec!["t1"]);
            assert_eq!(groups[1].0, Service::Jira);
            assert!(groups[1].1.is_empty());
        }
        other => panic!("unexpected {:?}", other),
    }
}

#[test]
fn reverts_go_to_the_originating_tracker() {
    let mut c = Cycle::new(&config(true, true));
    c.step(Event::Listed(vec![ticket("t1", Service::Trello)]));
    c.step(Event::Claimed);
    c.step(Event::Listed(vec![ticket("j1", Service::Jira), ticket("j2", Service::Jira)]));
    c.step(Event::Claimed);
    c.step(Event::Claimed);
    assert_eq!(ids(&c.batch), vec!["t1", "j1", "j2"]);
    c.step(Event::Printed);
    c.step(Event::PrintFailed);
    match c.action() {
        Action::Revert(groups) => {
            assert_eq!(ids(&groups[0].1), vec!["t1"]);
            assert_eq!(ids(&groups[1].1), vec!["j1", "j2"]);
        }
        other => panic!("unexpected {:?}", other),
    }
}

#[test]
fn listed_tickets_of_another_tracker_are_ignored() {
    let mut c = Cycle::new(&config(true, false));
    c.step(Event::Listed(vec![ticket("j", Service::Jira)]));
    assert_eq!(c.phase, Phase::Done);
}

#[test]
fn events_out_of_turn_change_nothing() {
    let mut c = Cycle::new(&config(true, false));
    c.step(Event::Printed);
    c.step(Event::Claimed);
    assert_eq!(c.phase, Phase::Listing);
    assert!(matches!(c.action(), Action::List(Service::Trello)));
}

#[test]
fn no_tracker_is_done() {
    let c = Cycle::new(&config(false, false));
    assert_eq!(c.phase, Phase::Done);
    assert!(matches!(c.action(), Action::Finish));
}
