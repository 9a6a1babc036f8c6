//! Where everything goes on a card: the wrapped title, the QR symbol and the
//! subtitle. Coordinates start at the bottom left corner of the page and are
//! thousandths of the page unit, like the lengths of `PDfDimension`.

use vstd::prelude::*;
use vstd::string::StrSliceExecFns;
use vstd::string::StringExecFns;
use pdf_canvas::{BuiltinFont, FontSource};
use crate::config::PDfDimension;
use crate::qr::{all_ascii, qr_pixels, render_qr, scaled_side, QrImage, QR_MODULES, QR_SURE_CHARS};
use crate::services::Ticket;
use crate::text::{is_space, lemma_words_solid, solid, split_words, texts, words_of};

verus! {

/// The longest text, in characters, whose width is measured. A longer text
/// never fits a line.
pub const MAX_MEASURED_CHARS: usize = 32767;

/// The width of `s` set in Helvetica, in thousandths of the font size.
pub uninterp spec fn helvetica_width(s: Seq<char>) -> nat;

/// Relies on pdf_canvas's `FontSource::get_width_raw` for
/// `BuiltinFont::Helvetica`: the sum of the glyph widths of the text in
/// thousandths of the font size, which depends on the characters alone. Each
/// character adds at most two glyphs of at most 65535, so the sum fits a `u32`
/// up to `MAX_MEASURED_CHARS` characters; an empty text sums nothing.
#[verifier::external_body]
fn helvetica_width_raw(text: &str) -> (r: u32)
    requires
        text@.len() <= MAX_MEASURED_CHARS,
    ensures
        r as nat == helvetica_width(text@),
        text@.len() == 0 ==> r == 0,
{
    BuiltinFont::Helvetica.get_width_raw(text)
}

/// Twice the height of the title band: the upper half of the page less the
/// margin and half the title separator.
pub open spec fn title_band2(dim: PDfDimension) -> int {
    dim.height - 2 * dim.margin - dim.title_seperator_margin
}

/// The width available to a title line: the page less both margins.
pub open spec fn text_width(dim: PDfDimension) -> int {
    dim.width - 2 * dim.margin
}

/// Whether a text `width` thousandths of the font size wide fits a title
/// line: set at the title's font size (the band's height shared by the
/// lines), it is narrower than the text width. That is
/// `width * (band2 / 2) / lines / 1000 < text_width`, without division.
pub open spec fn width_fits(dim: PDfDimension, width: int) -> bool {
    title_band2(dim) * width < 2000 * text_width(dim) * dim.title_lines
}

/// Whether `s` fits a title line.
pub open spec fn fits(dim: PDfDimension, s: Seq<char>) -> bool {
    &&& s.len() <= MAX_MEASURED_CHARS
    &&& width_fits(dim, helvetica_width(s) as int)
}

/// Whether a text `width` thousandths of the font size wide fits a title
/// line.
pub fn fits_width(dim: &PDfDimension, width: u32) -> (r: bool)
    ensures
        r == width_fits(*dim, width as int),
{
    let w = width as i128;
    let band2 = dim.height as i128 - 2 * dim.margin as i128 - dim.title_seperator_margin as i128;
    let tw = dim.width as i128 - 2 * dim.margin as i128;
    assert(-0x4_0000_0000 < band2 < 0x4_0000_0000);
    assert(-0x4_0000_0000 < tw < 0x4_0000_0000);
    assert(-0x1_0000_0000_0000_0000_0000_0000 < band2 * w < 0x1_0000_0000_0000_0000_0000_0000)
        by (nonlinear_arith)
        requires
            -0x4_0000_0000 < band2 < 0x4_0000_0000,
            0 <= w < 0x1_0000_0000,
    ;
    assert(-0x1_0000_0000_0000_0000_0000_0000 < 2000 * tw * (dim.title_lines as i128)
        < 0x1_0000_0000_0000_0000_0000_0000) by (nonlinear_arith)
        requires
            -0x4_0000_0000 < tw < 0x4_0000_0000,
            0 <= dim.title_lines < 0x1_0000_0000,
    ;
    band2 * w < 2000 * tw * (dim.title_lines as i128)
}

/// Whether `s` fits a title line.
pub fn measure_fits(dim: &PDfDimension, s: &str) -> (r: bool)
    ensures
        r == fits(*dim, s@),
{
    if s.unicode_len() > MAX_MEASURED_CHARS {
        return false;
    }
    fits_width(dim, helvetica_width_raw(s))
}

/// How many leading characters of `w`, from `k` on, are taken one by one
/// onto an empty line: each is taken while the line with it still fits.
pub open spec fn fitting_prefix(dim: PDfDimension, w: Seq<char>, k: int) -> int
    decreases w.len() - k,
{
    if 0 <= k < w.len() && fits(dim, w.take(k + 1)) {
        fitting_prefix(dim, w, k + 1)
    } else {
        k
    }
}

/// Puts the word `w` on the current line `cur`, below the finished
/// `lines`. On an empty line the word stands alone, cut to what fits where it
/// is too wide. After other words it follows a single space where that still
/// fits; otherwise the current line is finished and the word starts the next
/// one. Nothing is placed once every line is finished.
pub open spec fn place(
    dim: PDfDimension,
    lines: Seq<Seq<char>>,
    cur: Seq<char>,
    w: Seq<char>,
) -> (Seq<Seq<char>>, Seq<char>)
    decreases dim.title_lines - lines.len(),
{
    if lines.len() >= dim.title_lines {
        (lines, cur)
    } else if cur.len() == 0 {
        if fits(dim, w) {
            (lines, w)
        } else {
            (lines, w.take(fitting_prefix(dim, w, 0)))
        }
    } else if fits(dim, cur + seq![' '] + w) {
        (lines, cur + seq![' '] + w)
    } else {
        place(dim, lines.push(cur), seq![], w)
    }
}

/// The finished lines and the current line after `words` are placed one by
/// one.
pub open spec fn wrap_words(dim: PDfDimension, words: Seq<Seq<char>>) -> (
    Seq<Seq<char>>,
    Seq<char>,
)
    decreases words.len(),
{
    if words.len() == 0 {
        (seq![], seq![])
    } else {
        let (lines, cur) = wrap_words(dim, words.drop_last());
        if lines.len() >= dim.title_lines {
            (lines, cur)
        } else {
            place(dim, lines, cur, words.last())
        }
    }
}

/// The lines of a title, top down: its words wrapped greedily; words that
/// find no line are dropped, and the current line is the last one where the
/// lines are not all finished.
pub open spec fn title_lines_of(dim: PDfDimension, title: Seq<char>) -> Seq<Seq<char>> {
    let (lines, cur) = wrap_words(dim, words_of(title));
    if lines.len() < dim.title_lines {
        lines.push(cur)
    } else {
        lines
    }
}

/// Whether a line may stand on the card: it is empty, or it fits and
/// neither starts nor ends with white space.
pub open spec fn line_ok(dim: PDfDimension, line: Seq<char>) -> bool {
    line.len() == 0 || (fits(dim, line) && !is_space(line[0]) && !is_space(line.last()))
}

/// Cutting a word from `k` on stops at the first character that would not
/// fit, or at the end; what was taken fits.
proof fn lemma_fitting_prefix(dim: PDfDimension, w: Seq<char>, k: int)
    requires
        0 <= k <= w.len(),
        k == 0 || fits(dim, w.take(k)),
    ensures
        k <= fitting_prefix(dim, w, k) <= w.len(),
        fitting_prefix(dim, w, k) == 0 || fits(dim, w.take(fitting_prefix(dim, w, k))),
        fitting_prefix(dim, w, k) < w.len() ==> !fits(
            dim,
            w.take(fitting_prefix(dim, w, k) + 1),
        ),
    decreases w.len() - k,
{
    if k < w.len() && fits(dim, w.take(k + 1)) {
        lemma_fitting_prefix(dim, w, k + 1);
    }
}

/// Placing a word keeps the lines within their number and every line fit
/// and free of white space at its ends.
proof fn lemma_place_ok(dim: PDfDimension, lines: Seq<Seq<char>>, cur: Seq<char>, w: Seq<char>)
    requires
        lines.len() <= dim.title_lines,
        forall|i: int| 0 <= i < lines.len() ==> line_ok(dim, #[trigger] lines[i]),
        line_ok(dim, cur),
        solid(w),
    ensures
        ({
            let (l2, c2) = place(dim, lines, cur, w);
            &&& l2.len() <= dim.title_lines
            &&& forall|i: int| 0 <= i < l2.len() ==> line_ok(dim, #[trigger] l2[i])
            &&& line_ok(dim, c2)
        }),
    decreases dim.title_lines - lines.len(),
{
    if lines.len() >= dim.title_lines {
    } else if cur.len() == 0 {
        assert(w[0] == w[0] && !is_space(w[w.len() - 1]));
        if !fits(dim, w) {
            lemma_fitting_prefix(dim, w, 0);
            let k = fitting_prefix(dim, w, 0);
            let p = w.take(k);
            assert(p.len() == k);
            if k > 0 {
                assert(p[0] == w[0]);
                assert(p.last() == w[k - 1]);
            }
        }
    } else if fits(dim, cur + seq![' '] + w) {
        let c2 = cur + seq![' '] + w;
        assert(c2[0] == cur[0]);
        assert(c2.last() == w.last());
        assert(!is_space(w[w.len() - 1]));
    } else {
        let l1 = lines.push(cur);
        assert forall|i: int| 0 <= i < l1.len() implies line_ok(dim, #[trigger] l1[i]) by {
            if i < lines.len() {
                assert(l1[i] == lines[i]);
            }
        }
        lemma_place_ok(dim, l1, seq![], w);
    }
}

/// Wrapping words keeps the lines within their number and every line fit
/// and free of white space at its ends.
proof fn lemma_wrap_ok(dim: PDfDimension, words: Seq<Seq<char>>)
    requires
        forall|j: int| 0 <= j < words.len() ==> solid(#[trigger] words[j]),
    ensures
        ({
            let (lines, cur) = wrap_words(dim, words);
            &&& lines.len() <= dim.title_lines
            &&& forall|i: int| 0 <= i < lines.len() ==> line_ok(dim, #[trigger] lines[i])
            &&& line_ok(dim, cur)
        }),
    decreases words.len(),
{
    if words.len() > 0 {
        let prev = words.drop_last();
        assert forall|j: int| 0 <= j < prev.len() implies solid(#[trigger] prev[j]) by {
            assert(prev[j] == words[j]);
        }
        lemma_wrap_ok(dim, prev);
        let (lines, cur) = wrap_words(dim, prev);
        if lines.len() < dim.title_lines {
            assert(solid(words[words.len() - 1]));
            lemma_place_ok(dim, lines, cur, words.last());
        }
    }
}

/// A title never takes more lines than the card has for it, and takes at
/// least one; every line is empty or narrower than the text width at the
/// title's font size, and no line starts or ends with white space. Words
/// that find no line are dropped.
pub proof fn lemma_title_within_budget(dim: PDfDimension, title: Seq<char>)
    requires
        dim.wf(),
    ensures
        1 <= title_lines_of(dim, title).len() <= dim.title_lines,
        forall|i: int|
            0 <= i < title_lines_of(dim, title).len() ==> line_ok(
                dim,
                #[trigger] title_lines_of(dim, title)[i],
            ),
{
    lemma_words_solid(title, 0, seq![]);
    lemma_wrap_ok(dim, words_of(title));
    let (lines, cur) = wrap_words(dim, words_of(title));
    if lines.len() < dim.title_lines {
        let l1 = lines.push(cur);
        assert forall|i: int| 0 <= i < l1.len() implies line_ok(dim, #[trigger] l1[i]) by {
            if i < lines.len() {
                assert(l1[i] == lines[i]);
            }
        }
    }
}

/// Once every line is finished, further words change nothing.
proof fn lemma_full_stays(dim: PDfDimension, words: Seq<Seq<char>>, k: int)
    requires
        0 <= k <= words.len(),
        wrap_words(dim, words.take(k)).0.len() >= dim.title_lines,
    ensures
        wrap_words(dim, words) == wrap_words(dim, words.take(k)),
    decreases words.len(),
{
    if words.len() == k {
        assert(words.take(k) =~= words);
    } else {
        let prev = words.drop_last();
        assert(prev.take(k) =~= words.take(k));
        lemma_full_stays(dim, prev, k);
    }
}

/// Words are dropped only once every title line is taken: where the first
/// `k` words leave every line finished, the title shows exactly
/// `title_lines` lines, those of the first `k` words, and the later words
/// are dropped without a mark.
pub proof fn lemma_dropped_words_fill_budget(dim: PDfDimension, title: Seq<char>, k: int)
    requires
        dim.wf(),
        0 <= k <= words_of(title).len(),
        wrap_words(dim, words_of(title).take(k)).0.len() >= dim.title_lines,
    ensures
        title_lines_of(dim, title) == wrap_words(dim, words_of(title).take(k)).0,
        title_lines_of(dim, title).len() == dim.title_lines,
{
    let words = words_of(title);
    lemma_full_stays(dim, words, k);
    lemma_words_solid(title, 0, seq![]);
    lemma_wrap_ok(dim, words);
}

/// A title of one word too wide for a line is that word cut to one line: its
/// characters are taken one by one up to the first that would make the line
/// too wide, and the rest is dropped.
pub proof fn lemma_overlong_word_cut(dim: PDfDimension, title: Seq<char>)
    requires
        dim.wf(),
        words_of(title).len() == 1,
        !fits(dim, words_of(title)[0]),
    ensures
        ({
            let w = words_of(title)[0];
            let k = fitting_prefix(dim, w, 0);
            &&& title_lines_of(dim, title) == seq![w.take(k)]
            &&& k < w.len()
            &&& k == 0 || fits(dim, w.take(k))
            &&& !fits(dim, w.take(k + 1))
            &&& k + 1 <= MAX_MEASURED_CHARS ==> !width_fits(
                dim,
                helvetica_width(w.take(k + 1)) as int,
            )
        }),
{
    let words = words_of(title);
    let w = words[0];
    lemma_words_solid(title, 0, seq![]);
    assert(solid(words[0]));
    assert(w.len() > 0);
    assert(words.drop_last() =~= Seq::<Seq<char>>::empty());
    assert(wrap_words(dim, words.drop_last()) == (Seq::<Seq<char>>::empty(), Seq::<char>::empty()));
    assert(words.last() == w);
    lemma_fitting_prefix(dim, w, 0);
    let k = fitting_prefix(dim, w, 0);
    if k == w.len() {
        assert(w.take(k) =~= w);
    }
    assert(k < w.len());
    assert(w.take(k + 1).len() == k + 1);
    assert(place(dim, Seq::<Seq<char>>::empty(), Seq::<char>::empty(), w) == (
        Seq::<Seq<char>>::empty(),
        w.take(k),
    ));
    assert(wrap_words(dim, words) == (Seq::<Seq<char>>::empty(), w.take(k)));
    assert(Seq::<Seq<char>>::empty().push(w.take(k)) =~= seq![w.take(k)]);
}

/// The leading characters of `w` that an empty line takes one by one.
fn cut_word(dim: &PDfDimension, w: &String) -> (r: String)
    ensures
        r@ == w@.take(fitting_prefix(*dim, w@, 0)),
{
    let n = w.as_str().unicode_len();
    let mut k: usize = 0;
    let mut full = false;
    while !full && k < n
        invariant
            n == w@.len(),
            k <= n,
            fitting_prefix(*dim, w@, 0) == fitting_prefix(*dim, w@, k as int),
            full ==> k < n && !fits(*dim, w@.take(k as int + 1)),
        decreases n - k + (if full { 0int } else { 1int }),
    {
        let probe = w.as_str().substring_char(0, k + 1);
        assert(probe@ =~= w@.take(k as int + 1));
        if measure_fits(dim, probe) {
            k = k + 1;
        } else {
            full = true;
        }
    }
    assert(fitting_prefix(*dim, w@, k as int) == k);
    let r = String::from_str(w.as_str().substring_char(0, k));
    assert(r@ =~= w@.take(k as int));
    r
}

/// Places one word, as `place` does.
fn place_word(dim: &PDfDimension, lines: &mut Vec<String>, cur: &mut String, w: &String)
    requires
        old(lines)@.len() <= dim.title_lines,
    ensures
        (texts(final(lines)@), final(cur)@) == place(*dim, texts(old(lines)@), old(cur)@, w@),
        final(lines)@.len() <= dim.title_lines,
{
    loop
        invariant
            lines@.len() <= dim.title_lines,
            place(*dim, texts(lines@), cur@, w@) == place(
                *dim,
                texts(old(lines)@),
                old(cur)@,
                w@,
            ),
        decreases dim.title_lines - lines@.len(),
    {
        if lines.len() >= dim.title_lines as usize {
            return;
        }
        if cur.as_str().unicode_len() == 0 {
            if measure_fits(dim, w.as_str()) {
                *cur = w.clone();
            } else {
                *cur = cut_word(dim, w);
            }
            return;
        }
        let mut probe = cur.clone();
        probe.append(" ");
        probe.append(w.as_str());
        proof {
            reveal_strlit(" ");
        }
        assert(probe@ =~= cur@ + seq![' '] + w@);
        if measure_fits(dim, probe.as_str()) {
            *cur = probe;
            return;
        } else {
            let ghost before = texts(lines@);
            let line = cur.clone();
            lines.push(line);
            *cur = String::new();
            assert(texts(lines@) =~= before.push(line@));
        }
    }
}

/// The lines of `title`, top down, as `title_lines_of` gives them.
pub fn setup_titel(dim: &PDfDimension, title: &str) -> (r: Vec<String>)
    ensures
        texts(r@) == title_lines_of(*dim, title@),
{
    let words = split_words(title);
    let mut lines: Vec<String> = Vec::new();
    let mut cur = String::new();
    let mut i: usize = 0;
    assert(texts(words@).take(0) =~= seq![]);
    assert(texts(lines@) =~= seq![]);
    while i < words.len()
        invariant
            i <= words.len(),
            lines@.len() <= dim.title_lines,
            (texts(lines@), cur@) == wrap_words(*dim, texts(words@).take(i as int)),
        decreases words.len() - i,
    {
        assert(texts(words@).take(i as int + 1).drop_last() =~= texts(words@).take(i as int));
        if lines.len() < dim.title_lines as usize {
            place_word(dim, &mut lines, &mut cur, &words[i]);
        }
        i = i + 1;
    }
    assert(texts(words@).take(words.len() as int) =~= texts(words@));
    if lines.len() < dim.title_lines as usize {
        let ghost before = texts(lines@);
        lines.push(cur);
        assert(texts(lines@) =~= before.push(cur@));
    }
    lines
}

/// The QR region's width: the left half of the page less the margin and
/// half the QR separator, or nothing.
pub open spec fn qr_region_width(dim: PDfDimension) -> int {
    let w2 = dim.width - 2 * dim.margin - dim.qrcode_seperator_margin;
    if w2 <= 0 {
        0
    } else {
        w2 / 2
    }
}

/// The QR region's height: the height of the title band, or nothing.
pub open spec fn qr_region_height(dim: PDfDimension) -> int {
    let h2 = title_band2(dim);
    if h2 <= 0 {
        0
    } else {
        h2 / 2
    }
}

/// The side of one module, in thousandths, for a symbol of `modules`
/// modules a side: the smaller side of the QR region shared by the modules,
/// so that the symbol stays square and inside the region.
pub open spec fn qr_module(dim: PDfDimension, modules: int) -> int {
    let w = qr_region_width(dim);
    let h = qr_region_height(dim);
    if modules <= 0 {
        0
    } else {
        (if w < h {
            w
        } else {
            h
        }) / modules
    }
}

/// The bottom of a symbol `drawn` thousandths high: above the margin,
/// centred in the QR region's height, and never below the margin.
pub open spec fn qr_y(dim: PDfDimension, drawn: int) -> int {
    let spare = qr_region_height(dim) - drawn;
    dim.margin + (if spare > 0 {
        spare / 2
    } else {
        0
    })
}

/// A symbol, the side at which each of its pixels (one a module) is drawn,
/// and the bottom left corner where it stands.
#[derive(Debug, Clone)]
pub struct QrPlacement {
    pub image: QrImage,
    pub module: i64,
    pub x: i64,
    pub y: i64,
}

fn region_width(dim: &PDfDimension) -> (r: i64)
    ensures
        r == qr_region_width(*dim),
        0 <= r < 0x1_0000_0000,
{
    let w2 = dim.width as i64 - 2 * dim.margin as i64 - dim.qrcode_seperator_margin as i64;
    if w2 <= 0 {
        0
    } else {
        w2 / 2
    }
}

fn region_height(dim: &PDfDimension) -> (r: i64)
    ensures
        r == qr_region_height(*dim),
        0 <= r < 0x1_0000_0000,
{
    let h2 = dim.height as i64 - 2 * dim.margin as i64 - dim.title_seperator_margin as i64;
    if h2 <= 0 {
        0
    } else {
        h2 / 2
    }
}

/// Places a rendered symbol, one pixel a module, in the QR region: scaled
/// to the largest whole module side that fits and centred in its height.
pub fn place_qr(dim: &PDfDimension, image: QrImage) -> (r: QrPlacement)
    ensures
        r.image == image,
        r.module == qr_module(*dim, image.width as int),
        r.x == dim.margin,
        r.y == qr_y(*dim, image.height as int * r.module),
{
    let w = region_width(dim);
    let h = region_height(dim);
    let mn = if w < h {
        w
    } else {
        h
    };
    let module: i64 = if image.width == 0 {
        0
    } else {
        mn / image.width as i64
    };
    proof {
        if image.width > 0 {
            let a: int = mn as int;
            let d: int = image.width as int;
            assert(0 <= a / d <= a) by (nonlinear_arith)
                requires
                    0 <= a,
                    d > 0,
            ;
        }
    }
    assert(0 <= module < 0x1_0000_0000);
    assert(0 <= image.height as int * module as int <= 0x1_0000_0000_0000_0000) by (nonlinear_arith)
        requires
            0 <= module < 0x1_0000_0000,
            0 <= image.height < 0x1_0000_0000,
    ;
    let drawn = image.height as i128 * module as i128;
    let spare = h as i128 - drawn;
    let lift: i64 = if spare > 0 {
        (spare / 2) as i64
    } else {
        0
    };
    QrPlacement { image, module, x: dim.margin as i64, y: dim.margin as i64 + lift }
}

/// The symbol of `url`, placed in the QR region; none where the address does
/// not fit the symbol, in which case the card goes without one.
pub fn setup_qrcode(dim: &PDfDimension, url: &str) -> (r: Option<QrPlacement>)
    ensures
        r is Some == crate::qr::qr_encodable(url@),
        url@.len() <= QR_SURE_CHARS && all_ascii(url@) ==> r is Some,
        r matches Some(p) ==> {
            &&& p.image.width == QR_MODULES
            &&& p.image.height == QR_MODULES
            &&& p.image.pixels@ == qr_pixels(url@, QR_MODULES as nat)
            &&& p.image.pixels@.len() == p.image.width * p.image.height
            &&& p.module == qr_module(*dim, QR_MODULES as int)
            &&& p.x == dim.margin
            &&& p.y == qr_y(*dim, QR_MODULES * p.module)
        },
{
    match render_qr(url, QR_MODULES) {
        Some(image) => {
            assert(scaled_side(QR_MODULES as int) == QR_MODULES);
            Some(place_qr(dim, image))
        },
        None => None,
    }
}

/// The drawn symbol stays inside the QR region, no wider than its width and
/// no higher than its height, and never below its bottom; where the region
/// is at least one thousandth a module, the modules are visible.
pub proof fn lemma_qr_within_region(dim: PDfDimension)
    ensures
        QR_MODULES * qr_module(dim, QR_MODULES as int) <= qr_region_width(dim),
        QR_MODULES * qr_module(dim, QR_MODULES as int) <= qr_region_height(dim),
        qr_y(dim, QR_MODULES * qr_module(dim, QR_MODULES as int)) >= dim.margin,
        qr_y(dim, QR_MODULES * qr_module(dim, QR_MODULES as int)) + QR_MODULES * qr_module(
            dim,
            QR_MODULES as int,
        ) <= dim.margin + qr_region_height(dim),
        qr_region_width(dim) >= QR_MODULES && qr_region_height(dim) >= QR_MODULES ==> qr_module(
            dim,
            QR_MODULES as int,
        ) >= 1,
{
    let n = QR_MODULES as int;
    let w = qr_region_width(dim);
    let h = qr_region_height(dim);
    let mn = if w < h {
        w
    } else {
        h
    };
    let m = qr_module(dim, n);
    assert(m == mn / n);
    assert(n * m <= mn) by (nonlinear_arith)
        requires
            n == 29,
            m == mn / n,
            mn >= 0,
    ;
    assert(mn >= n ==> m >= 1) by (nonlinear_arith)
        requires
            n == 29,
            m == mn / n,
    ;
}

/// The title's font size: the title band's height shared by the lines.
pub open spec fn title_size(dim: PDfDimension) -> int {
    let h2 = title_band2(dim);
    if h2 <= 0 || dim.title_lines == 0 {
        0
    } else {
        h2 / (2 * dim.title_lines)
    }
}

/// One line of the title and the middle of its top edge.
#[derive(Debug, Clone)]
pub struct TitleLine {
    pub text: String,
    pub x: i64,
    pub y: i64,
}

/// Everything a card shows, and where.
#[derive(Debug, Clone)]
pub struct CardLayout {
    pub width: u32,
    pub height: u32,
    pub qr: Option<QrPlacement>,
    /// The title's font size.
    pub title_size: i64,
    /// The title's lines, top down, each centred on the page.
    pub title: Vec<TitleLine>,
    pub subtitle: String,
    /// Where the subtitle's bottom right corner stands.
    pub subtitle_x: i64,
    pub subtitle_y: i64,
    pub subtitle_size: u32,
}

/// The text of each title line.
pub open spec fn line_texts(v: Seq<TitleLine>) -> Seq<Seq<char>> {
    v.map_values(|l: TitleLine| l.text@)
}

/// The card of `ticket`: the symbol of its address in the QR region, its
/// title wrapped into the title band, its subtitle in the bottom right
/// corner.
pub fn layout_card(dim: &PDfDimension, ticket: &Ticket) -> (r: CardLayout)
    requires
        dim.wf(),
    ensures
        r.width == dim.width,
        r.height == dim.height,
        r.qr is Some == crate::qr::qr_encodable(ticket.url@),
        ticket.url@.len() <= QR_SURE_CHARS && all_ascii(ticket.url@) ==> r.qr is Some,
        r.qr matches Some(p) ==> {
            &&& p.image.pixels@ == qr_pixels(ticket.url@, QR_MODULES as nat)
            &&& p.image.width == QR_MODULES
            &&& p.image.height == QR_MODULES
            &&& p.image.pixels@.len() == p.image.width * p.image.height
            &&& p.module == qr_module(*dim, QR_MODULES as int)
            &&& p.x == dim.margin
            &&& p.y == qr_y(*dim, QR_MODULES * p.module)
        },
        r.title_size == title_size(*dim),
        line_texts(r.title@) == title_lines_of(*dim, ticket.title@),
        forall|i: int|
            0 <= i < r.title@.len() ==> {
                &&& (#[trigger] r.title@[i]).x == dim.width / 2
                &&& r.title@[i].y == dim.height - i * title_size(*dim)
            },
        r.subtitle == ticket.subtitle,
        r.subtitle_x == dim.width - dim.margin,
        r.subtitle_y == dim.margin,
        r.subtitle_size == dim.subtitle_size,
{
    let qr = setup_qrcode(dim, ticket.url.as_str());
    let h2 = dim.height as i64 - 2 * dim.margin as i64 - dim.title_seperator_margin as i64;
    let size: i64 = if h2 <= 0 {
        0
    } else {
        h2 / (2 * dim.title_lines as i64)
    };
    let lines = setup_titel(dim, ticket.title.as_str());
    proof {
        lemma_title_within_budget(*dim, ticket.title@);
        if h2 > 0 {
            let n: int = 2 * dim.title_lines as int;
            let hh: int = h2 as int;
            let ss: int = size as int;
            assert(ss == hh / n);
            assert(ss * n <= hh) by (nonlinear_arith)
                requires
                    ss == hh / n,
                    n > 0,
                    hh > 0,
            ;
        }
    }
    let mut title: Vec<TitleLine> = Vec::new();
    let mut i: usize = 0;
    while i < lines.len()
        invariant
            i <= lines.len(),
            lines@.len() <= dim.title_lines,
            dim.title_lines >= 1,
            size == title_size(*dim),
            0 <= size,
            size * (2 * dim.title_lines as int) <= 0x2_0000_0000,
            title@.len() == i,
            line_texts(title@) == texts(lines@).take(i as int),
            forall|j: int|
                0 <= j < i ==> {
                    &&& (#[trigger] title@[j]).x == dim.width / 2
                    &&& title@[j].y == dim.height - j * size
                },
        decreases lines.len() - i,
    {
        assert(i * size <= 0x2_0000_0000) by (nonlinear_arith)
            requires
                i < dim.title_lines,
                size >= 0,
                size * (2 * dim.title_lines as int) <= 0x2_0000_0000,
        ;
        let y = dim.height as i64 - i as i64 * size;
        let ghost before = line_texts(title@);
        title.push(TitleLine { text: lines[i].clone(), x: dim.width as i64 / 2, y });
        assert(line_texts(title@) =~= texts(lines@).take(i as int + 1));
        i = i + 1;
    }
    assert(texts(lines@).take(lines@.len() as int) =~= texts(lines@));
    CardLayout {
        width: dim.width,
        height: dim.height,
        qr,
        title_size: size,
        title,
        subtitle: ticket.subtitle.clone(),
        subtitle_x: dim.width as i64 - dim.margin as i64,
        subtitle_y: dim.margin as i64,
        subtitle_size: dim.subtitle_size,
    }
}

} // verus!
