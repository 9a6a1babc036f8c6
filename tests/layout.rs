use ticket_printer::config::PDfDimension;
use ticket_printer::layout::{fits_width, layout_card, measure_fits, setup_qrcode, setup_titel};
use ticket_printer::services::{Service, Ticket};

fn dim(width: u32, height: u32) -> PDfDimension {
    PDfDimension {
        height,
        width,
        margin: 4000,
        title_lines: 2,
        title_seperator_margin: 4000,
        qrcode_seperator_margin: 4000,
        subtitle_size: 4000,
    }
}

fn ticket(title: &str, url: &str) -> Ticket {
    Ticket {
        id: "42".to_string(),
        label_id: "l".to_string(),
        title: title.to_string(),
        subtitle: "ABC-42".to_string(),
        url: url.to_string(),
        service: Service::Jira,
    }
}

// With a 30 unit page and 4 unit margins the text width is 22 units; the
// title band is 25 units for two lines, a font size of 12.5. A line fits
// while its Helvetica width stays under 1760 thousandths of the font size:
// "a" is 556 wide and a space 278.
#[test]
fn width_is_measured_in_helvetica() {
    let d = dim(30000, 62000);
    assert!(measure_fits(&d, "aaa"));
    assert!(!measure_fits(&d, "aaaa"));
    assert!(measure_fits(&d, ""));
    assert!(measure_fits(&d, "a a"));
}

#[test]
fn long_title_takes_exactly_the_line_budget() {
    let d = dim(30000, 62000);
    let lines = setup_titel(&d, "aa aa aa aa aa");
    assert_eq!(lines, vec!["aa".to_string(), "aa".to_string()]);
    for l in &lines {
        assert!(measure_fits(&d, l));
    }
}

#[test]
fn overlong_word_is_cut_character_by_character() {
    let d = dim(30000, 62000);
    let lines = setup_titel(&d, "aaaaaaaaaa");
    assert_eq!(lines, vec!["aaa".to_string()]);
}

#[test]
fn overlong_word_after_a_line_starts_a_new_one() {
    let d = dim(30000, 62000);
    let lines = setup_titel(&d, "a aaaaaaa");
    assert_eq!(lines, vec!["a".to_string(), "aaa".to_string()]);
}

#[test]
fn short_title_is_one_line() {
    let d = dim(100000, 62000);
    let lines = setup_titel(&d, "  Fix   the\tprinter ");
    assert_eq!(lines, vec!["Fix the printer".to_string()]);
}

#[test]
fn empty_title_is_one_empty_line() {
    let d = dim(100000, 62000);
    assert_eq!(setup_titel(&d, ""), vec![String::new()]);
}

#[test]
fn single_title_line_budget() {
    let mut d = dim(30000, 62000);
    d.title_lines = 1;
    // One line of 25 units: twice the font size, so half as much fits.
    let lines = setup_titel(&d, "a a a");
    assert_eq!(lines, vec!["a".to_string()]);
}

// A 150 × 100 page leaves a QR region of 69 × 44 units: the 29 module
// symbol gets modules of 44000 / 29 = 1517 thousandths and is centred in
// the region's height.
#[test]
fn short_url_gets_a_symbol_inside_the_region() {
    let d = dim(150000, 100000);
    let url = "https://trello.com/c/ab";
    assert_eq!(url.len(), 23);
    let p = setup_qrcode(&d, url).expect("a 23 character address fits");
    assert_eq!(p.image.width, 29);
    assert_eq!(p.image.height, 29);
    assert_eq!(p.image.pixels.len(), 29 * 29);
    assert_eq!(p.module, 1517);
    assert!(29 * p.module <= 69000);
    assert!(29 * p.module <= 44000);
    assert_eq!(p.x, 4000);
    assert_eq!(p.y, 4000 + (44000 - 29 * 1517) / 2);
    assert!(p.image.pixels.iter().any(|&b| b == 0));
    assert!(p.image.pixels.iter().any(|&b| b == 255));
}

#[test]
fn symbol_scales_with_the_region() {
    let d = dim(300000, 200000);
    // Region: 144 × 94 units, so modules of 94000 / 29 = 3241 thousandths.
    let p = setup_qrcode(&d, "https://x.io/1").unwrap();
    assert_eq!(p.image.width, 29);
    assert_eq!(p.module, 3241);
    assert_eq!(p.y, 4000 + (94000 - 29 * 3241) / 2);
}

#[test]
fn symbol_fits_the_default_card() {
    // Region: 44 × 25 units; modules of 25000 / 29 = 862 thousandths.
    let d = dim(100000, 62000);
    let p = setup_qrcode(&d, "https://x.io/1").unwrap();
    assert_eq!(p.module, 862);
    assert!(29 * p.module <= 25000);
    assert!(29 * p.module <= 44000);
    assert_eq!(p.y, 4000 + (25000 - 29 * 862) / 2);
}

#[test]
fn no_title_line_starts_or_ends_with_space() {
    let d = dim(30000, 62000);
    for title in ["a b", "aa aa aa aa aa", " a  aaaaaaa b ", "a\tb\nc"] {
        for line in setup_titel(&d, title) {
            assert_eq!(line.trim(), line, "line {:?} of {:?}", line, title);
        }
    }
    // "a b" does not fit one line: the second line is the bare word.
    assert_eq!(setup_titel(&d, "aaa b"), vec!["aaa".to_string(), "b".to_string()]);
}

#[test]
fn long_url_goes_without_symbol() {
    let d = dim(150000, 100000);
    let url = format!("https://example.com/{}", "x".repeat(200));
    assert!(setup_qrcode(&d, &url).is_none());
    let card = layout_card(&d, &ticket("Title", &url));
    assert!(card.qr.is_none());
    assert_eq!(card.title.len(), 1);
    assert_eq!(card.title[0].text, "Title");
}

#[test]
fn card_places_title_and_subtitle() {
    let d = dim(100000, 62000);
    let card = layout_card(&d, &ticket("Fix the printer", "https://x.io/1"));
    assert_eq!(card.width, 100000);
    assert_eq!(card.height, 62000);
    assert!(card.qr.is_some());
    assert_eq!(card.title_size, 12500);
    assert_eq!(card.title.len(), 1);
    assert_eq!(card.title[0].x, 50000);
    assert_eq!(card.title[0].y, 62000);
    assert_eq!(card.subtitle, "ABC-42");
    assert_eq!(card.subtitle_x, 96000);
    assert_eq!(card.subtitle_y, 4000);
    assert_eq!(card.subtitle_size, 4000);
}

#[test]
fn second_title_line_is_one_font_size_lower() {
    let d = dim(30000, 62000);
    let card = layout_card(&d, &ticket("aa aa aa", "https://x.io/1"));
    assert_eq!(card.title.len(), 2);
    assert_eq!(card.title[1].y, 62000 - 12500);
}

#[test]
fn same_inputs_same_layout() {
    let d = dim(30000, 62000);
    let a = setup_titel(&d, "one two three four five");
    let b = setup_titel(&d, "one two three four five");
    assert_eq!(a, b);
}

#[test]
fn fit_threshold_on_given_widths() {
    // 25 unit band over two lines and a 22 unit text width: widths under 1760 fit.
    let d = dim(30000, 62000);
    assert!(fits_width(&d, 0));
    assert!(fits_width(&d, 1759));
    assert!(!fits_width(&d, 1760));
    assert!(!fits_width(&d, u32::MAX));
    // A page narrower than its margins fits nothing.
    let narrow = dim(8000, 62000);
    assert!(!fits_width(&narrow, 0));
    // A band with no height fits everything on a wide enough page.
    let flat = dim(30000, 12000);
    assert!(fits_width(&flat, u32::MAX));
}

#[test]
fn twenty_ascii_characters_always_get_a_symbol() {
    let d = dim(100000, 62000);
    assert!(setup_qrcode(&d, "https://ab.cd/efghij").is_some());
    assert!(setup_qrcode(&d, "").is_some());
}

#[test]
fn symbol_pixels_follow_the_address() {
    let d = dim(100000, 62000);
    let a = setup_qrcode(&d, "https://x.io/1").unwrap();
    let b = setup_qrcode(&d, "https://x.io/2").unwrap();
    let a2 = setup_qrcode(&d, "https://x.io/1").unwrap();
    assert_ne!(a.image.pixels, b.image.pixels);
    assert_eq!(a.image.pixels, a2.image.pixels);
}
