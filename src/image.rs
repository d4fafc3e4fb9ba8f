//! Images: the QR code of the website, in the accent color.
use crate::color::{byte_of, rgb_bytes, Rgb};
use vstd::prelude::*;

verus! {

/// The grey pixels, row by row, of the QR code that qrcode_generator draws
/// for `url` at high error correction in a `size` by `size` image; `None`
/// where it rejects the text or the size.
pub uninterp spec fn qr_luma_of(url: Seq<char>, size: nat) -> Option<Seq<u8>>;

/// Relies on `qrcode_generator::to_image_buffer_from_str` with
/// `QrCodeEcc::High`: on success a `size` by `size` grey image; `None`
/// where the text does not fit a QR code or `size` cannot hold it.
#[verifier::external_body]
fn qr_luma(url: &str, size: usize) -> (r: Option<Vec<u8>>)
    ensures
        r is None <==> qr_luma_of(url@, size as nat) is None,
        r matches Some(v) ==> Some(v@) == qr_luma_of(url@, size as nat) && v@.len() == size * size,
{
    qrcode_generator::to_image_buffer_from_str(url, qrcode_generator::QrCodeEcc::High, size)
        .ok()
        .map(|image| image.into_raw())
}

/// A grey image as RGB: each grey value on all three channels.
pub open spec fn grey_to_rgb_spec(luma: Seq<u8>) -> Seq<u8> {
    Seq::new(3 * luma.len(), |i: int| luma[i / 3])
}

/// The three bytes of pixel `p` of an RGB image.
pub open spec fn pixel(rgb: Seq<u8>, p: int) -> (u8, u8, u8) {
    (rgb[3 * p], rgb[3 * p + 1], rgb[3 * p + 2])
}

/// Spreads each grey value of a grey image over the three channels of an
/// RGB pixel.
pub fn grey_to_rgb(luma: &Vec<u8>) -> (r: Vec<u8>)
    requires
        3 * luma@.len() <= usize::MAX,
    ensures
        r@ == grey_to_rgb_spec(luma@),
{
    let mut r: Vec<u8> = Vec::new();
    let mut i: usize = 0;
    while i < luma.len()
        invariant
            i <= luma.len(),
            3 * luma@.len() <= usize::MAX,
            r@ == grey_to_rgb_spec(luma@.take(i as int)),
        decreases luma.len() - i,
    {
        let v = luma[i];
        r.push(v);
        r.push(v);
        r.push(v);
        i = i + 1;
        assert(r@ =~= grey_to_rgb_spec(luma@.take(i as int)));
    }
    assert(luma@.take(luma.len() as int) == luma@);
    r
}

/// Every pure black pixel of `before` is `color` in `after`; every other
/// pixel is the same in both.
pub open spec fn recolored(before: Seq<u8>, after: Seq<u8>, color: (u8, u8, u8)) -> bool {
    &&& after.len() == before.len()
    &&& forall|p: int|
        0 <= p < before.len() / 3 ==> #[trigger] pixel(after, p) == if pixel(before, p) == (0u8, 0u8, 0u8) {
            color
        } else {
            pixel(before, p)
        }
    &&& forall|i: int| 3 * (before.len() / 3) <= i < before.len() ==> after[i] == before[i]
}

/// Paints every pure black pixel of an RGB image in `color`, leaving every
/// other pixel as it is.
pub fn recolor_black(rgb: &mut Vec<u8>, color: (u8, u8, u8))
    ensures
        recolored(old(rgb)@, final(rgb)@, color),
{
    let ghost before = rgb@;
    let n = rgb.len() / 3;
    let mut p: usize = 0;
    while p < n
        invariant
            n == before.len() / 3,
            before.len() <= usize::MAX,
            p <= n,
            rgb@.len() == before.len(),
            forall|q: int| 0 <= q < p ==> #[trigger] pixel(rgb@, q) == if pixel(before, q) == (0u8, 0u8, 0u8) {
                color
            } else {
                pixel(before, q)
            },
            forall|i: int| 3 * p <= i < before.len() ==> rgb@[i] == before[i],
        decreases n - p,
    {
        assert(3 * p + 2 < before.len()) by (nonlinear_arith)
            requires
                p < n,
                n == before.len() / 3,
        ;
        let i = 3 * p;
        let ghost prev = rgb@;
        assert(pixel(prev, p as int) == pixel(before, p as int));
        if rgb[i] == 0 && rgb[i + 1] == 0 && rgb[i + 2] == 0 {
            rgb.set(i, color.0);
            rgb.set(i + 1, color.1);
            rgb.set(i + 2, color.2);
        }
        p = p + 1;
        assert forall|q: int| 0 <= q < p implies #[trigger] pixel(rgb@, q) == if pixel(before, q) == (
        0u8, 0u8, 0u8) {
            color
        } else {
            pixel(before, q)
        } by {
            if q < p - 1 {
                assert(3 * q + 2 < 3 * (p - 1));
                assert(pixel(rgb@, q) == pixel(prev, q));
            }
        }
    }
}

/// Draws the QR code of `url`, `size` pixels a side, and paints its black
/// modules in `color`. `None` where qrcode_generator cannot encode `url` at
/// that size; otherwise the image is the recolored QR code.
pub fn qrcode(url: &str, size: usize, color: Rgb) -> (r: Option<Vec<u8>>)
    requires
        color.wf(),
        3 * size * size <= usize::MAX,
    ensures
        r is Some <==> qr_luma_of(url@, size as nat) is Some,
        r matches Some(v) ==> recolored(
            grey_to_rgb_spec(qr_luma_of(url@, size as nat)->0),
            v@,
            (byte_of(color.r), byte_of(color.g), byte_of(color.b)),
        ),
{
    let luma = qr_luma(url, size)?;
    assert(3 * (size * size) == 3 * size * size) by (nonlinear_arith);
    let mut rgb = grey_to_rgb(&luma);
    recolor_black(&mut rgb, rgb_bytes(color));
    Some(rgb)
}

} // verus!
