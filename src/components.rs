use vstd::prelude::*;

verus! {

/// Where an entity stands, in whole pixels.
#[derive(Clone, Copy, Debug, PartialEq, Eq, Structural)]
pub struct Position {
    pub x: i64,
    pub y: i64,
}

/// How large an entity is, in pixels.
#[derive(Clone, Copy, Debug, PartialEq, Eq, Structural)]
pub struct Size {
    pub width: u32,
    pub height: u32,
}

/// How far an entity moves each tick, in pixels.
#[derive(Clone, Copy, Debug, PartialEq, Eq, Structural)]
pub struct Velocity {
    pub x: i64,
    pub y: i64,
}

/// Marks the entity that the player controls.
#[derive(Clone, Copy, Debug, PartialEq, Eq, Structural)]
pub struct Player {}

/// A decoded image: `width * height` pixels, four bytes (RGBA) each, row by row.
pub struct Sprite {
    pub width: u16,
    pub height: u16,
    pub image: Option<Vec<u8>>,
}

/// What decoding PNG bytes gives: the image's width, height and RGBA bytes,
/// or nothing where the bytes are no PNG image.
pub uninterp spec fn rgba_decoding(encoded: Seq<u8>) -> Option<(u32, u32, Seq<u8>)>;

/// Relies on image::load_from_memory_with_format with the built-in PNG
/// format (no format guessing and no registered decoding hook is consulted),
/// DynamicImage::to_rgba8 and ImageBuffer::into_raw: the result depends on
/// the encoded bytes alone.
#[verifier::external_body]
fn decode_rgba(encoded: &[u8]) -> (r: Option<(u32, u32, Vec<u8>)>)
    ensures
        match r {
            Some(d) => rgba_decoding(encoded@) == Some((d.0, d.1, d.2@)),
            None => rgba_decoding(encoded@) is None,
        },
{
    match image::load_from_memory_with_format(encoded, image::ImageFormat::Png) {
        Ok(img) => {
            let rgba = img.to_rgba8();
            Some((rgba.width(), rgba.height(), rgba.into_raw()))
        },
        Err(_) => None,
    }
}

/// Whether a sprite of these dimensions can hold `len` bytes of pixels.
pub open spec fn sprite_fits(width: int, height: int, len: int) -> bool {
    width <= u16::MAX && height <= u16::MAX && len == width * height * 4
}

impl Sprite {
    /// The sprite holds pixels, exactly four bytes for each.
    pub open spec fn wf(&self) -> bool {
        self.image is Some && self.image->Some_0@.len() == self.width * self.height * 4
    }

    /// The sprite holds pixels, at least four bytes for each.
    pub open spec fn holds_pixels(&self) -> bool {
        self.image is Some && self.image->Some_0@.len() >= self.width * self.height * 4
    }

    /// A sprite from decoded RGBA bytes; `None` where the dimensions exceed
    /// 16 bits or the bytes are not four for each pixel.
    pub fn from_rgba(width: u32, height: u32, pixels: Vec<u8>) -> (r: Option<Sprite>)
        ensures
            r is Some <==> sprite_fits(width as int, height as int, pixels@.len() as int),
            r is Some ==> r->Some_0.width == width && r->Some_0.height == height
                && r->Some_0.image == Some(pixels) && r->Some_0.wf(),
    {
        if width > 65535 || height > 65535 {
            return None;
        }
        assert(width as u64 * height as u64 <= 65535 * 65535) by (nonlinear_arith)
            requires
                width <= 65535,
                height <= 65535,
        ;
        let n: u64 = width as u64 * height as u64 * 4;
        if pixels.len() as u64 != n {
            return None;
        }
        Some(Sprite { width: width as u16, height: height as u16, image: Some(pixels) })
    }

    /// Decodes a PNG image into a sprite; `None` where the bytes are no PNG
    /// image or the image does not fit a sprite.
    pub fn new(encoded: &[u8]) -> (r: Option<Sprite>)
        ensures
            r is Some <==> match rgba_decoding(encoded@) {
                Some(d) => sprite_fits(d.0 as int, d.1 as int, d.2.len() as int),
                None => false,
            },
            r is Some ==> r->Some_0.wf() && rgba_decoding(encoded@) == Some(
                (
                    r->Some_0.width as u32,
                    r->Some_0.height as u32,
                    r->Some_0.image->Some_0@,
                ),
            ),
    {
        match decode_rgba(encoded) {
            Some(d) => Sprite::from_rgba(d.0, d.1, d.2),
            None => None,
        }
    }
}

} // verus!
