//! The arguments of the print spool command that sends a card to a printer.

use vstd::prelude::*;
use vstd::string::StringExecFns;
use crate::config::Printer;
use crate::text::{decimal, texts, to_decimal};

verus! {

/// The spool arguments for printing the document at `path` on `printer`:
/// scaled to fit the page, on the configured media and orientation, in the
/// configured number of copies, on the named printer.
pub open spec fn print_args_of(printer: Printer, path: Seq<char>) -> Seq<Seq<char>> {
    seq![
        "-o"@,
        "fit-to-page"@,
        "-o"@,
        "media="@ + printer.media@,
        "-o"@,
        printer.orientation@,
        "-n"@,
        decimal(printer.number_of_copies as nat),
        "-d"@,
        printer.name@,
        path,
    ]
}

/// The spool arguments for printing the document at `path`, or none where no
/// printer is configured and the document is only kept.
pub fn print_pdf(printer: &Option<Printer>, path: &str) -> (r: Option<Vec<String>>)
    ensures
        r is Some == printer is Some,
        r matches Some(args) ==> texts(args@) == print_args_of(printer->0, path@),
{
    match printer {
        None => None,
        Some(p) => {
            let mut media = String::from_str("media=");
            media.append(p.media.as_str());
            let args = vec![
                String::from_str("-o"),
                String::from_str("fit-to-page"),
                String::from_str("-o"),
                media,
                String::from_str("-o"),
                p.orientation.clone(),
                String::from_str("-n"),
                to_decimal(p.number_of_copies as u64),
                String::from_str("-d"),
                p.name.clone(),
                String::from_str(path),
            ];
            assert(texts(args@) =~= print_args_of(*p, path@));
            Some(args)
        },
    }
}

} // verus!
