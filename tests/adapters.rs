use ticket_printer::config::{create_default_config, Config, Jira, PDfDimension, Printer, Trello};
use ticket_printer::jira::{self, build_query, next_page, Issue};
use ticket_printer::print::print_pdf;
use ticket_printer::services::{select_service, Service, Ticket};
use ticket_printer::text::{split_words, to_decimal};
use ticket_printer::trello::{self, handle_card, keep_board, select_boards, Board, Card, Label};

fn board_service(limit: &[&str]) -> Trello {
    Trello {
        app_key: "key".to_string(),
        token: "token".to_string(),
        print_label: "print".to_string(),
        limit_to_boards: limit.iter().map(|s| s.to_string()).collect(),
    }
}

fn tracker(projects: &[&str], types: &[&str]) -> Jira {
    Jira {
        host: "example.atlassian.net".to_string(),
        user: "me".to_string(),
        token: "token".to_string(),
        print_label: "print".to_string(),
        limit_to_projects: projects.iter().map(|s| s.to_string()).collect(),
        limit_to_types: types.iter().map(|s| s.to_string()).collect(),
    }
}

fn board(name: &str) -> Board {
    Board { id: format!("id-{}", name), name: name.to_string() }
}

fn label(id: &str, name: &str) -> Label {
    Label { id: id.to_string(), name: name.to_string() }
}

fn card(id: &str, labels: Vec<Label>) -> Card {
    Card {
        id: id.to_string(),
        name: format!("Card {}", id),
        url: format!("https://trello.com/c/{}", id),
        labels,
    }
}

#[test]
fn allow_list_limits_boards() {
    let t = board_service(&["A"]);
    let kept = select_boards(&t, &vec![board("A"), board("B")]);
    assert_eq!(kept.len(), 1);
    assert_eq!(kept[0].name, "A");
    assert_eq!(kept[0].id, "id-A");
}

#[test]
fn empty_allow_list_keeps_every_board() {
    let t = board_service(&[]);
    let kept = select_boards(&t, &vec![board("A"), board("B")]);
    assert_eq!(kept.iter().map(|b| b.name.clone()).collect::<Vec<_>>(), vec!["A", "B"]);
    assert!(keep_board(&t, &board("C")));
}

#[test]
fn board_names_match_exactly() {
    let t = board_service(&["A"]);
    assert!(!keep_board(&t, &board("a")));
    assert!(!keep_board(&t, &board("A ")));
}

#[test]
fn card_with_print_label_becomes_ticket() {
    let t = board_service(&[]);
    let c = card("c1", vec![label("x", "other"), label("l1", "print"), label("l2", "print")]);
    let ticket = handle_card(&c, &t).unwrap();
    assert_eq!(ticket.id, "c1");
    assert_eq!(ticket.label_id, "l1");
    assert_eq!(ticket.title, "Card c1");
    assert_eq!(ticket.subtitle, "c1");
    assert_eq!(ticket.url, "https://trello.com/c/c1");
    assert_eq!(ticket.service, Service::Trello);
}

#[test]
fn card_without_print_label_is_left() {
    let t = board_service(&[]);
    assert!(handle_card(&card("c1", vec![label("x", "other")]), &t).is_none());
    assert!(handle_card(&card("c2", vec![]), &t).is_none());
}

#[test]
fn cards_are_claimed_in_listing_order() {
    let t = board_service(&[]);
    let cards = vec![
        card("1", vec![label("a", "print")]),
        card("2", vec![]),
        card("3", vec![label("b", "print")]),
    ];
    let mut tickets = Vec::new();
    trello::fetch_tickets(&t, &cards, &mut tickets);
    assert_eq!(tickets.iter().map(|t| t.id.clone()).collect::<Vec<_>>(), vec!["1", "3"]);
}

#[test]
fn second_listing_after_claims_finds_nothing() {
    let t = board_service(&[]);
    let before = vec![card("1", vec![label("a", "print"), label("b", "x")]), card("2", vec![])];
    let mut first = Vec::new();
    trello::fetch_tickets(&t, &before, &mut first);
    assert_eq!(first.len(), 1);
    // The service once the label instance "a" was taken off card 1.
    let after = vec![card("1", vec![label("b", "x")]), card("2", vec![])];
    let mut second = Vec::new();
    trello::fetch_tickets(&t, &after, &mut second);
    assert!(second.is_empty());
}

#[test]
fn issues_become_tickets() {
    let j = tracker(&[], &[]);
    let issues = vec![Issue {
        id: "10001".to_string(),
        url: "https://example.atlassian.net/rest/api/2/issue/10001".to_string(),
        key: "ABC-1".to_string(),
        summary: "Fix it".to_string(),
    }];
    let mut tickets = Vec::new();
    jira::fetch_tickets(&j, &issues, &mut tickets);
    assert_eq!(tickets.len(), 1);
    assert_eq!(tickets[0].id, "10001");
    assert_eq!(tickets[0].label_id, "print");
    assert_eq!(tickets[0].title, "Fix it");
    assert_eq!(tickets[0].subtitle, "ABC-1");
    assert_eq!(tickets[0].service, Service::Jira);
}

#[test]
fn query_without_limits() {
    assert_eq!(build_query(&tracker(&[], &[])), "  labels = print");
}

#[test]
fn query_with_projects_and_types() {
    assert_eq!(
        build_query(&tracker(&["A", "B"], &["Bug", "Task"])),
        "(project = A OR project = B) AND issuetype in (Bug, Task) AND labels = print"
    );
    assert_eq!(build_query(&tracker(&["A"], &[])), "(project = A) AND  labels = print");
    assert_eq!(build_query(&tracker(&[], &["Bug"])), " issuetype in (Bug) AND labels = print");
}

#[test]
fn short_page_is_the_last() {
    assert_eq!(next_page(0, 50), Some(50));
    assert_eq!(next_page(50, 50), Some(100));
    assert_eq!(next_page(100, 49), None);
    assert_eq!(next_page(0, 0), None);
    assert_eq!(next_page(usize::MAX - 10, 50), None);
}

fn mixed() -> Vec<Ticket> {
    let t = |id: &str, s: Service| Ticket {
        id: id.to_string(),
        label_id: "l".to_string(),
        title: String::new(),
        subtitle: String::new(),
        url: String::new(),
        service: s,
    };
    vec![t("a", Service::Trello), t("b", Service::Jira), t("c", Service::Trello)]
}

#[test]
fn reverts_are_split_by_tracker() {
    let all = mixed();
    let ids = |v: Vec<Ticket>| v.into_iter().map(|t| t.id).collect::<Vec<_>>();
    assert_eq!(ids(trello::revert_tickets(&all)), vec!["a", "c"]);
    assert_eq!(ids(jira::revert_tickets(&all)), vec!["b"]);
    assert_eq!(ids(select_service(&all, Service::Jira)), vec!["b"]);
}

#[test]
fn print_arguments() {
    let printer = Some(Printer {
        media: "Custom.62x100m".to_string(),
        orientation: "landscape".to_string(),
        number_of_copies: 2,
        name: "brother".to_string(),
    });
    let args = print_pdf(&printer, "/tmp/42.pdf").unwrap();
    assert_eq!(
        args,
        vec![
            "-o",
            "fit-to-page",
            "-o",
            "media=Custom.62x100m",
            "-o",
            "landscape",
            "-n",
            "2",
            "-d",
            "brother",
            "/tmp/42.pdf"
        ]
    );
}

#[test]
fn no_printer_only_keeps_the_document() {
    assert!(print_pdf(&None, "/tmp/42.pdf").is_none());
}

#[test]
fn decimal_numbers() {
    assert_eq!(to_decimal(0), "0");
    assert_eq!(to_decimal(7), "7");
    assert_eq!(to_decimal(10), "10");
    assert_eq!(to_decimal(65535), "65535");
    assert_eq!(to_decimal(u64::MAX), "18446744073709551615");
}

#[test]
fn words_split_on_any_white_space() {
    assert_eq!(split_words(" a\tbc \n d\u{3000}e "), vec!["a", "bc", "d", "e"]);
    assert!(split_words("   ").is_empty());
    assert!(split_words("").is_empty());
}

#[test]
fn service_names() {
    assert_eq!(Service::Trello.name(), "Trello");
    assert_eq!(Service::Jira.name(), "Jira");
}

#[test]
fn default_config_shows_every_setting() {
    let c = create_default_config();
    assert_eq!(c.pdf, PDfDimension::default());
    assert_eq!(c.pdf.height, 62000);
    assert_eq!(c.pdf.width, 100000);
    assert_eq!(c.pdf.title_lines, 2);
    assert_eq!(c.printer.as_ref().unwrap().number_of_copies, 2);
    assert!(c.trello.is_some());
    assert!(c.jira.is_some());
    assert!(c.global.is_none());
    assert!(c.service_available());
}

#[test]
fn no_service_configured() {
    let c = Config { pdf: PDfDimension::default(), printer: None, trello: None, jira: None, global: None };
    assert!(!c.service_available());
    assert_eq!(c.poll_interval(), None);
}
