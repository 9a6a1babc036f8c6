//! The resolved configuration that one run works with.
//!
//! Lengths are whole thousandths of the page unit (millimetres on the usual
//! label printers): a page 62 units high has `height == 62000`.

use vstd::prelude::*;
use vstd::string::StringExecFns;

verus! {

/// The card's page geometry and type sizes.
#[derive(Debug, Clone, Copy, PartialEq, Eq, Structural)]
pub struct PDfDimension {
    pub height: u32,
    pub width: u32,
    pub margin: u32,
    /// How many lines the title may take.
    pub title_lines: u32,
    pub title_seperator_margin: u32,
    pub qrcode_seperator_margin: u32,
    pub subtitle_size: u32,
}

impl PDfDimension {
    /// Every length is positive and the title has at least one line.
    pub open spec fn wf(&self) -> bool {
        &&& self.height > 0
        &&& self.width > 0
        &&& self.margin > 0
        &&& self.title_lines >= 1
        &&& self.title_seperator_margin > 0
        &&& self.qrcode_seperator_margin > 0
        &&& self.subtitle_size > 0
    }

    /// A 62 × 100 card with 4 unit margins and a two line title.
    pub open spec fn spec_default() -> PDfDimension {
        PDfDimension {
            height: 62000,
            width: 100000,
            margin: 4000,
            title_lines: 2,
            title_seperator_margin: 4000,
            qrcode_seperator_margin: 4000,
            subtitle_size: 4000,
        }
    }
}

impl PDfDimension {
    /// Whether every length is positive and the title has a line.
    pub fn is_valid(&self) -> (r: bool)
        ensures
            r == self.wf(),
    {
        self.height > 0 && self.width > 0 && self.margin > 0 && self.title_lines >= 1
            && self.title_seperator_margin > 0 && self.qrcode_seperator_margin > 0
            && self.subtitle_size > 0
    }
}

impl Default for PDfDimension {
    fn default() -> (r: PDfDimension)
        ensures
            r == PDfDimension::spec_default(),
            r.wf(),
    {
        PDfDimension {
            height: 62000,
            width: 100000,
            margin: 4000,
            title_lines: 2,
            title_seperator_margin: 4000,
            qrcode_seperator_margin: 4000,
            subtitle_size: 4000,
        }
    }
}

/// Where and how a card is printed.
#[derive(Debug, Clone)]
pub struct Printer {
    pub media: String,
    pub orientation: String,
    pub number_of_copies: u16,
    pub name: String,
}

/// Access to the board service.
#[derive(Debug, Clone)]
pub struct Trello {
    pub app_key: String,
    pub token: String,
    /// Cards that carry a label of this name are printed.
    pub print_label: String,
    /// Only boards of these names are searched; none means every board.
    pub limit_to_boards: Vec<String>,
}

/// Access to the issue tracker.
#[derive(Debug, Clone)]
pub struct Jira {
    /// Host name only: the tracker is always reached over https.
    pub host: String,
    pub user: String,
    pub token: String,
    /// Issues that carry this label are printed.
    pub print_label: String,
    /// Only issues of these projects are searched; none means every project.
    pub limit_to_projects: Vec<String>,
    /// Only issues of these types are searched; none means every type.
    pub limit_to_types: Vec<String>,
}

/// Settings of the run as a whole.
#[derive(Debug, Clone)]
pub struct Global {
    /// Seconds to wait between two cycles; none runs a single cycle.
    pub poll: Option<u64>,
    /// Directory that keeps the cards; none writes them to a scratch directory.
    pub out_dir: Option<String>,
}

/// Everything one run is configured with.
#[derive(Debug, Clone)]
pub struct Config {
    pub pdf: PDfDimension,
    pub printer: Option<Printer>,
    pub trello: Option<Trello>,
    pub jira: Option<Jira>,
    pub global: Option<Global>,
}

impl Config {
    /// Whether at least one tracker is configured.
    pub fn service_available(&self) -> (r: bool)
        ensures
            r == (self.trello is Some || self.jira is Some),
    {
        self.trello.is_some() || self.jira.is_some()
    }

    /// Seconds to wait before the next cycle, if the run polls.
    pub fn poll_interval(&self) -> (r: Option<u64>)
        ensures
            r == (match self.global {
                Some(g) => g.poll,
                None => None,
            }),
    {
        match &self.global {
            Some(g) => g.poll,
            None => None,
        }
    }
}

/// A configuration that shows every setting, with placeholders for the
/// credentials.
pub fn create_default_config() -> (r: Config)
    ensures
        r.pdf == PDfDimension::spec_default(),
        r.printer is Some,
        r.printer->0.media@ == "Custom.62x100m2"@,
        r.printer->0.orientation@ == "landscape"@,
        r.printer->0.number_of_copies == 2,
        r.printer->0.name@ == "<printer name>"@,
        r.trello is Some,
        r.trello->0.app_key@ == "<trello app key>"@,
        r.trello->0.token@ == "<trello user token>"@,
        r.trello->0.print_label@ == "<label to find tickets>"@,
        r.trello->0.limit_to_boards@.len() == 1,
        r.trello->0.limit_to_boards@[0]@
            == "<Optional boards to limit search. Empty array to search all boards.>"@,
        r.jira is Some,
        r.jira->0.host@ == "<jira host>"@,
        r.jira->0.user@ == "<jira user>"@,
        r.jira->0.token@ == "<jira user token>"@,
        r.jira->0.print_label@ == "<label to find tickets>"@,
        r.jira->0.limit_to_projects@.len() == 1,
        r.jira->0.limit_to_projects@[0]@
            == "<Optional projects to limit search. Empty array to search all projects.>"@,
        r.jira->0.limit_to_types@.len() == 0,
        r.global is None,
{
    Config {
        pdf: PDfDimension::default(),
        printer: Some(
            Printer {
                media: String::from_str("Custom.62x100m2"),
                orientation: String::from_str("landscape"),
                number_of_copies: 2,
                name: String::from_str("<printer name>"),
            },
        ),
        trello: Some(
            Trello {
                app_key: String::from_str("<trello app key>"),
                token: String::from_str("<trello user token>"),
                print_label: String::from_str("<label to find tickets>"),
                limit_to_boards: vec![
                    String::from_str(
                        "<Optional boards to limit search. Empty array to search all boards.>",
                    ),
                ],
            },
        ),
        jira: Some(
            Jira {
                host: String::from_str("<jira host>"),
                user: String::from_str("<jira user>"),
                token: String::from_str("<jira user token>"),
                print_label: String::from_str("<label to find tickets>"),
                limit_to_projects: vec![
                    String::from_str(
                        "<Optional projects to limit search. Empty array to search all projects.>",
                    ),
                ],
                limit_to_types: Vec::new(),
            },
        ),
        global: None,
    }
}

} // verus!
