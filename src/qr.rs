//! The QR symbol that carries a ticket's address.

use vstd::prelude::*;
use qrcode::{EcLevel, QrCode, Version};

verus! {

/// Modules per side of the symbol used: version 3 has 4 * 3 + 17.
pub const QR_MODULES: u32 = 29;

/// The largest side, in pixels, that a symbol is rendered to fit.
pub const MAX_QR_SIDE: u32 = 4096;

/// A rendered symbol: one grey byte per pixel, row by row, 0 for a dark
/// pixel and 255 for a light one.
#[derive(Debug, Clone)]
pub struct QrImage {
    pub width: u32,
    pub height: u32,
    pub pixels: Vec<u8>,
}

/// Whether `data` fits a version 3 symbol at the lowest error correction
/// level (about 7% of the symbol may be damaged).
pub uninterp spec fn qr_encodable(data: Seq<char>) -> bool;

/// The pixels of the symbol of `data` rendered to fit `side` pixels a side.
pub uninterp spec fn qr_pixels(data: Seq<char>, side: nat) -> Seq<u8>;

/// The longest address, in ASCII characters, that always fits the symbol.
pub const QR_SURE_CHARS: usize = 20;

/// Whether every character of `s` is ASCII.
pub open spec fn all_ascii(s: Seq<char>) -> bool {
    forall|i: int| 0 <= i < s.len() ==> ((#[trigger] s[i]) as u32) < 0x80
}

/// The side, in pixels, of a symbol drawn to fit `side`: each module takes
/// the same whole number of pixels, at least one.
pub open spec fn scaled_side(side: int) -> int {
    let unit = side / QR_MODULES as int;
    QR_MODULES as int * (if unit >= 1 {
        unit
    } else {
        1
    })
}

/// Relies on qrcode's `QrCode::with_version` (version 3, error correction
/// level L), which fails where the data does not fit, and on its renderer
/// without quiet zone and with `max_dimensions(side, side)`: the module side
/// is `max(side / 29, 1)` pixels, and the grey image has one byte a pixel.
/// ASCII data is split into segments of at least one byte, none of which a
/// version 3 symbol codes in more than 4 + 10 + 8 bits a byte (merging them
/// never lengthens the code), so up to 20 ASCII characters fit its 440 data
/// bits. The pixels depend on the data and the side alone.
#[verifier::external_body]
pub(crate) fn render_qr(url: &str, side: u32) -> (r: Option<QrImage>)
    requires
        side <= MAX_QR_SIDE,
    ensures
        r is Some == qr_encodable(url@),
        url@.len() <= QR_SURE_CHARS && all_ascii(url@) ==> r is Some,
        r matches Some(img) ==> {
            &&& img.width as int == scaled_side(side as int)
            &&& img.height == img.width
            &&& img.pixels@.len() == img.width as int * img.height as int
            &&& img.pixels@ == qr_pixels(url@, side as nat)
        },
{
    match QrCode::with_version(url, Version::Normal(3), EcLevel::L) {
        Ok(code) => {
            let img = code.render::<image::Luma<u8>>().quiet_zone(false).max_dimensions(
                side,
                side,
            ).build();
            Some(QrImage { width: img.width(), height: img.height(), pixels: img.into_raw() })
        },
        Err(_) => None,
    }
}

} // verus!
