//! Images in a Word document: the media parts, and the drawings that point at
//! them.
//!
//! A `w:drawing` does not carry an image, it carries an `r:embed` naming a
//! relationship, so a picture only appears if the drawing, the relationship
//! and the part agree — and this module is the one place all three are
//! decided.
//!
//! Only PNG is placed: [`Media::drawing`] measures the bytes it is given and
//! refuses anything whose signature is not a PNG's, so the caller falls back
//! to printing the Markdown source. A PNG states its pixel size and may state
//! its resolution in a `pHYs` chunk; anything larger than the text area is
//! scaled down to fit, in one step, so it keeps its proportions.
use vstd::prelude::*;

use crate::export::{escape_xml_spec, push_escaped};
use crate::text::{decimal_spec, extend_str, push_decimal, string_from_chars};

verus! {

/// The PNG magic number every PNG file opens with.
pub open spec fn png_signature() -> Seq<u8> {
    seq![0x89u8, 0x50u8, 0x4Eu8, 0x47u8, 0x0Du8, 0x0Au8, 0x1Au8, 0x0Au8]
}

/// The PNG magic number, as bytes: the signature check above spells it.
pub const PNG_SIGNATURE: [u8; 8] = [0x89, 0x50, 0x4E, 0x47, 0x0D, 0x0A, 0x1A, 0x0A];

/// Bytes of CRC that follow every PNG chunk's data.
pub const CRC_LEN: usize = 4;

/// The `pHYs` unit code meaning "per metre".
pub const PHYS_UNIT_METRE: u8 = 1;

/// English Metric Units per inch — the unit every OOXML drawing measurement
/// is in.
pub const EMU_PER_INCH: u64 = 914_400;

/// English Metric Units per twip, the unit pages are set in.
pub const EMU_PER_TWIP: u64 = 635;

/// The resolution assumed for a PNG that does not declare one: Word's own.
pub const DEFAULT_DPI: u64 = 96;

/// The widest an image may print, in EMUs: the text column of a US Letter
/// page with one-inch margins.
pub const MAX_WIDTH: u64 = 5_943_600;

/// The tallest an image may print, in EMUs: the text height of one page.
pub const MAX_HEIGHT: u64 = 8_229_600;

/// The relationship type that marks a target as an embedded image.
pub const IMAGE_REL_TYPE: &'static str = "http://schemas.openxmlformats.org/officeDocument/2006/relationships/image";

/// The DrawingML main namespace.
pub const A_NS: &'static str = "http://schemas.openxmlformats.org/drawingml/2006/main";

/// The DrawingML picture namespace.
pub const PIC_NS: &'static str = "http://schemas.openxmlformats.org/drawingml/2006/picture";

/// The big-endian `u32` at `at` in `b`, if four bytes are there.
pub open spec fn be_u32_spec(b: Seq<u8>, at: int) -> Option<u32> {
    if 0 <= at && at + 4 <= b.len() {
        Some((b[at] as int * 16777216 + b[at + 1] as int * 65536 + b[at + 2] as int * 256
            + b[at + 3] as int) as u32)
    } else {
        None
    }
}

/// The big-endian `u32` at offset `at` in `bytes`.
pub fn be_u32(bytes: &[u8], at: usize) -> (res: Option<u32>)
    ensures
        res == be_u32_spec(bytes@, at as int),
{
    if at > bytes.len() || bytes.len() - at < 4 {
        return None;
    }
    let value: u32 = bytes[at] as u32 * 16777216 + bytes[at + 1] as u32 * 65536 + bytes[at + 2]
        as u32 * 256 + bytes[at + 3] as u32;
    Some(value)
}

/// One chunk of a PNG, located in the file: where its type, data and the
/// next chunk start.
#[derive(Debug, Clone, Copy, PartialEq, Eq)]
pub struct Chunk {
    /// Offset of the four-byte chunk type.
    pub kind: usize,
    /// Offset of the chunk data.
    pub data: usize,
    /// Offset just past the chunk data.
    pub data_end: usize,
    /// Offset of the next chunk, past the unchecked four-byte CRC.
    pub next: usize,
}

/// The chunk at `at`: a four-byte length, a four-byte type, that many data
/// bytes, then the CRC, none of which may run past the end of `b`.
pub open spec fn chunk_spec(b: Seq<u8>, at: int) -> Option<Chunk> {
    match be_u32_spec(b, at) {
        None => None,
        Some(length) => {
            let data_end = at + 8 + length;
            if data_end <= b.len() && data_end + 4 <= usize::MAX {
                Some(
                    Chunk {
                        kind: (at + 4) as usize,
                        data: (at + 8) as usize,
                        data_end: data_end as usize,
                        next: (data_end + 4) as usize,
                    },
                )
            } else {
                None
            }
        },
    }
}

/// The chunk at `at`, if the file holds all of it.
///
/// The length field is not trusted: a chunk claiming more bytes than the file
/// has ends the walk rather than being read past its end.
pub fn chunk(bytes: &[u8], at: usize) -> (res: Option<Chunk>)
    ensures
        res == chunk_spec(bytes@, at as int),
{
    let length = match be_u32(bytes, at) {
        Some(length) => length as usize,
        None => return None,
    };
    if at > usize::MAX - 8 {
        return None;
    }
    let data = at + 8;
    if length > bytes.len() || bytes.len() - length < data {
        return None;
    }
    let data_end = data + length;
    if data_end > usize::MAX - 4 {
        return None;
    }
    Some(Chunk { kind: at + 4, data, data_end, next: data_end + 4 })
}

/// Whether the four bytes at `at` spell `kind`.
pub open spec fn kind_is(b: Seq<u8>, at: int, kind: Seq<u8>) -> bool {
    0 <= at && at + 4 <= b.len() && b.subrange(at, at + 4) == kind
}

/// Whether the four bytes at `at` are `a b c d`.
fn kind_eq(bytes: &[u8], at: usize, a: u8, b: u8, c: u8, d: u8) -> (res: bool)
    ensures
        res == kind_is(bytes@, at as int, seq![a, b, c, d]),
{
    if at > bytes.len() || bytes.len() - at < 4 {
        return false;
    }
    let res = bytes[at] == a && bytes[at + 1] == b && bytes[at + 2] == c && bytes[at + 3] == d;
    assert(res == (bytes@.subrange(at as int, at + 4) =~= seq![a, b, c, d]));
    res
}

/// `pHYs` in ASCII.
pub open spec fn phys_kind() -> Seq<u8> {
    seq![0x70u8, 0x48u8, 0x59u8, 0x73u8]
}

/// `IDAT` in ASCII.
pub open spec fn idat_kind() -> Seq<u8> {
    seq![0x49u8, 0x44u8, 0x41u8, 0x54u8]
}

/// `IEND` in ASCII.
pub open spec fn iend_kind() -> Seq<u8> {
    seq![0x49u8, 0x45u8, 0x4Eu8, 0x44u8]
}

/// `IHDR` in ASCII.
pub open spec fn ihdr_kind() -> Seq<u8> {
    seq![0x49u8, 0x48u8, 0x44u8, 0x52u8]
}

/// Pixels per metre as dots per inch, rounded to nearest.
pub open spec fn per_metre_to_dpi_spec(per_metre: u32) -> u64 {
    ((per_metre as int * 254 + 5000) / 10000) as u64
}

/// Pixels per metre as dots per inch, rounded to nearest: 3780 per metre is
/// the 96 DPI almost every tool writes, and truncating it would give 95.
pub fn per_metre_to_dpi(per_metre: u32) -> (res: u64)
    ensures
        res == per_metre_to_dpi_spec(per_metre),
{
    (per_metre as u64 * 254 + 5000) / 10000
}

/// The `(x, y)` DPI a `pHYs` chunk's data `d` states: only when its unit
/// byte says "per metre", and only when neither axis rounds to zero.
pub open spec fn dots_per_inch_spec(d: Seq<u8>) -> Option<(u64, u64)> {
    if d.len() > 8 && d[8] == 1u8 {
        match (be_u32_spec(d, 0), be_u32_spec(d, 4)) {
            (Some(x), Some(y)) => {
                let (dx, dy) = (per_metre_to_dpi_spec(x), per_metre_to_dpi_spec(y));
                if dx > 0 && dy > 0 {
                    Some((dx, dy))
                } else {
                    None
                }
            },
            _ => None,
        }
    } else {
        None
    }
}

/// The `(x, y)` DPI a `pHYs` chunk's `data` states.
pub fn dots_per_inch(data: &[u8]) -> (res: Option<(u64, u64)>)
    ensures
        res == dots_per_inch_spec(data@),
{
    if data.len() <= 8 || data[8] != 1 {
        return None;
    }
    let x = match be_u32(data, 0) {
        Some(x) => per_metre_to_dpi(x),
        None => return None,
    };
    let y = match be_u32(data, 4) {
        Some(y) => per_metre_to_dpi(y),
        None => return None,
    };
    if x > 0 && y > 0 {
        Some((x, y))
    } else {
        None
    }
}

/// The resolution the chunks from `at` on declare: the first `pHYs` read as
/// [`dots_per_inch_spec`], none once `IDAT` or `IEND` is reached (the format
/// puts `pHYs` before the image data), none when a chunk does not fit.
pub open spec fn resolution_from(b: Seq<u8>, at: int) -> Option<(u64, u64)>
    decreases b.len() + 4 - at,
{
    match chunk_spec(b, at) {
        None => None,
        Some(c) => if kind_is(b, c.kind as int, phys_kind()) {
            dots_per_inch_spec(b.subrange(c.data as int, c.data_end as int))
        } else if kind_is(b, c.kind as int, idat_kind()) || kind_is(b, c.kind as int, iend_kind()) {
            None
        } else if c.next > at {
            resolution_from(b, c.next as int)
        } else {
            None
        },
    }
}

/// The `(x, y)` resolution a PNG's `pHYs` chunk declares, in DPI.
pub fn resolution(bytes: &[u8]) -> (res: Option<(u64, u64)>)
    ensures
        res == resolution_from(bytes@, 8),
        res matches Some((x, y)) ==> x > 0 && y > 0,
{
    let mut at: usize = 8;
    loop
        invariant
            resolution_from(bytes@, 8) == resolution_from(bytes@, at as int),
        decreases bytes.len() + 4 - at,
    {
        let c = match chunk(bytes, at) {
            Some(c) => c,
            None => return None,
        };
        if kind_eq(bytes, c.kind, 0x70, 0x48, 0x59, 0x73) {
            let data = crate::export::docx::media::byte_range(bytes, c.data, c.data_end);
            return dots_per_inch(data.as_slice());
        }
        if kind_eq(bytes, c.kind, 0x49, 0x44, 0x41, 0x54) || kind_eq(bytes, c.kind, 0x49, 0x45,
            0x4E, 0x44) {
            return None;
        }
        at = c.next;
    }
}

/// The bytes `b[from..to]`.
pub fn byte_range(bytes: &[u8], from: usize, to: usize) -> (res: Vec<u8>)
    requires
        from <= to <= bytes.len(),
    ensures
        res@ == bytes@.subrange(from as int, to as int),
{
    let mut out: Vec<u8> = Vec::new();
    let mut i: usize = from;
    while i < to
        invariant
            from <= i <= to <= bytes.len(),
            out@ == bytes@.subrange(from as int, i as int),
        decreases to - i,
    {
        out.push(bytes[i]);
        i = i + 1;
        assert(out@ =~= bytes@.subrange(from as int, i as int));
    }
    out
}

} // verus!

verus! {

/// The pixel size and resolution a PNG declares.
#[derive(Debug, Clone, Copy, PartialEq, Eq)]
pub struct Png {
    /// Width in pixels.
    pub width: u32,
    /// Height in pixels.
    pub height: u32,
    /// Horizontal resolution in dots per inch.
    pub dpi_x: u64,
    /// Vertical resolution in dots per inch.
    pub dpi_y: u64,
}

/// The printed size of an image, in EMUs.
#[derive(Debug, Clone, Copy, PartialEq, Eq)]
pub struct Extent {
    /// Width.
    pub cx: u64,
    /// Height.
    pub cy: u64,
}

/// `b` read as a PNG header: the signature, then `IHDR` first with a width and
/// height that are not zero; the resolution from `pHYs`, else 96 DPI.
pub open spec fn read_png_spec(b: Seq<u8>) -> Option<Png> {
    if b.len() >= 8 && b.subrange(0, 8) == png_signature() && kind_is(b, 12, ihdr_kind()) {
        match (be_u32_spec(b, 16), be_u32_spec(b, 20)) {
            (Some(w), Some(h)) => if w == 0 || h == 0 {
                None
            } else {
                let (dx, dy) = match resolution_from(b, 8) {
                    Some(r) => r,
                    None => (DEFAULT_DPI, DEFAULT_DPI),
                };
                Some(Png { width: w, height: h, dpi_x: dx, dpi_y: dy })
            },
            _ => None,
        }
    } else {
        None
    }
}

/// Read `bytes` as a PNG header.
///
/// `None` for anything that is not a PNG, and for a PNG declaring a zero
/// dimension — which is not an image, and would divide by zero when scaled.
pub fn read_png(bytes: &[u8]) -> (res: Option<Png>)
    ensures
        res == read_png_spec(bytes@),
        res matches Some(p) ==> p.dpi_x > 0 && p.dpi_y > 0,
{
    if bytes.len() < 8 {
        return None;
    }
    let signature = bytes[0] == 0x89 && bytes[1] == 0x50 && bytes[2] == 0x4E && bytes[3] == 0x47
        && bytes[4] == 0x0D && bytes[5] == 0x0A && bytes[6] == 0x1A && bytes[7] == 0x0A;
    assert(signature == (bytes@.subrange(0, 8) =~= png_signature()));
    if !signature || !kind_eq(bytes, 12, 0x49, 0x48, 0x44, 0x52) {
        return None;
    }
    let (width, height) = match (be_u32(bytes, 16), be_u32(bytes, 20)) {
        (Some(w), Some(h)) => (w, h),
        _ => return None,
    };
    if width == 0 || height == 0 {
        return None;
    }
    let (dpi_x, dpi_y) = match resolution(bytes) {
        Some(r) => r,
        None => (DEFAULT_DPI, DEFAULT_DPI),
    };
    Some(Png { width, height, dpi_x, dpi_y })
}

/// A scaled dimension, never larger than `limit` and never zero.
pub open spec fn shrink_spec(scaled: int, limit: u64) -> u64 {
    if scaled < 1 {
        1
    } else if scaled > limit {
        limit
    } else {
        scaled as u64
    }
}

/// A scaled dimension as a `u64`, never larger than the `limit` it was scaled
/// to fit and never zero — a zero extent is a picture Word draws as nothing.
pub fn shrink(scaled: u128, limit: u64) -> (res: u64)
    requires
        limit >= 1,
    ensures
        res == shrink_spec(scaled as int, limit),
{
    if scaled < 1 {
        1
    } else if scaled > limit as u128 {
        limit
    } else {
        scaled as u64
    }
}

/// `size` scaled down to fit the text area, keeping its proportions: one
/// step, by whichever dimension overruns by more. A size with a zero axis
/// has no ratio to keep, so each axis is clamped on its own.
pub open spec fn fit_spec(size: Extent) -> Extent {
    let (cx, cy) = (size.cx as int, size.cy as int);
    let (w, h) = (MAX_WIDTH as int, MAX_HEIGHT as int);
    if cx == 0 || cy == 0 {
        Extent { cx: shrink_spec(cx, MAX_WIDTH), cy: shrink_spec(cy, MAX_HEIGHT) }
    } else if cx <= w && cy <= h {
        size
    } else if cx * h > cy * w {
        Extent { cx: MAX_WIDTH, cy: shrink_spec(cy * w / cx, MAX_HEIGHT) }
    } else {
        Extent { cx: shrink_spec(cx * h / cy, MAX_WIDTH), cy: MAX_HEIGHT }
    }
}

/// Scale `size` down until it fits the text area, keeping its proportions.
pub fn fit(size: Extent) -> (res: Extent)
    ensures
        res == fit_spec(size),
{
    let (cx, cy) = (size.cx as u128, size.cy as u128);
    let (w, h) = (MAX_WIDTH as u128, MAX_HEIGHT as u128);
    if cx == 0 || cy == 0 {
        return Extent { cx: shrink(cx, MAX_WIDTH), cy: shrink(cy, MAX_HEIGHT) };
    }
    if cx <= w && cy <= h {
        return size;
    }
    assert(cx * h <= 0xffff_ffff_ffff_ffff * 8229600) by (nonlinear_arith)
        requires cx <= 0xffff_ffff_ffff_ffff, h == 8229600;
    assert(cy * w <= 0xffff_ffff_ffff_ffff * 5943600) by (nonlinear_arith)
        requires cy <= 0xffff_ffff_ffff_ffff, w == 5943600;
    if cx * h > cy * w {
        Extent { cx: MAX_WIDTH, cy: shrink(cy * w / cx, MAX_HEIGHT) }
    } else {
        Extent { cx: shrink(cx * h / cy, MAX_WIDTH), cy: MAX_HEIGHT }
    }
}

/// The size `png` prints at at its own resolution, before fitting.
pub open spec fn natural_extent(png: Png) -> Extent {
    Extent {
        cx: (png.width as int * EMU_PER_INCH as int / png.dpi_x as int) as u64,
        cy: (png.height as int * EMU_PER_INCH as int / png.dpi_y as int) as u64,
    }
}

/// The size `png` should print at, scaled down to fit the text column.
pub open spec fn extent_spec(png: Png) -> Extent {
    fit_spec(natural_extent(png))
}

/// The size `png` should print at, scaled down to fit the text column.
pub fn extent(png: &Png) -> (res: Extent)
    requires
        png.dpi_x > 0,
        png.dpi_y > 0,
    ensures
        res == extent_spec(*png),
{
    assert(png.width as int * 914400 <= 0xffff_ffff * 914400) by (nonlinear_arith)
        requires png.width <= 0xffff_ffff;
    assert(png.height as int * 914400 <= 0xffff_ffff * 914400) by (nonlinear_arith)
        requires png.height <= 0xffff_ffff;
    let cx = png.width as u64 * EMU_PER_INCH / png.dpi_x;
    let cy = png.height as u64 * EMU_PER_INCH / png.dpi_y;
    fit(Extent { cx, cy })
}

} // verus!

verus! {

/// The relationship id for the image in `slot`.
pub open spec fn relationship_id_spec(slot: nat) -> Seq<char> {
    "rIdImage"@ + decimal_spec(slot + 1)
}

/// The part name for the image in `slot`, relative to the media directory.
pub open spec fn part_name_spec(slot: nat) -> Seq<char> {
    "image"@ + decimal_spec(slot + 1) + ".png"@
}

/// The relationship id for the image in `slot`.
pub fn relationship_id(slot: usize) -> (res: String)
    requires
        slot < usize::MAX,
    ensures
        res@ == relationship_id_spec(slot as nat),
{
    let mut out: Vec<char> = Vec::new();
    extend_str(&mut out, "rIdImage");
    push_decimal(&mut out, slot as u64 + 1);
    string_from_chars(&out)
}

/// The part name for the image in `slot`.
///
/// Numbered by slot rather than named after the authored path: a part name is
/// a URI, and an authored `figures/a b.png` would need escaping that a reader
/// and a writer can disagree about.
pub fn part_name(slot: usize) -> (res: String)
    requires
        slot < usize::MAX,
    ensures
        res@ == part_name_spec(slot as nat),
{
    let mut out: Vec<char> = Vec::new();
    extend_str(&mut out, "image");
    push_decimal(&mut out, slot as u64 + 1);
    extend_str(&mut out, ".png");
    string_from_chars(&out)
}

/// One inline picture: a `w:drawing` run sized `e`, resolving through
/// relationship `rel`, numbered `id` in the document, naming part `name`,
/// described by `alt` (escaped).
pub open spec fn drawing_spec(rel: Seq<char>, id: u32, name: Seq<char>, alt: Seq<char>, e: Extent) -> Seq<char> {
    let alt = escape_xml_spec(alt);
    let cx = decimal_spec(e.cx as nat);
    let cy = decimal_spec(e.cy as nat);
    let n = decimal_spec(id as nat);
    "<w:r><w:drawing><wp:inline distT=\"0\" distB=\"0\" distL=\"0\" distR=\"0\"><wp:extent cx=\""@
        + cx + "\" cy=\""@ + cy
        + "\"/><wp:effectExtent l=\"0\" t=\"0\" r=\"0\" b=\"0\"/><wp:docPr id=\""@ + n
        + "\" name=\"Picture "@ + n + "\" descr=\""@ + alt
        + "\"/><wp:cNvGraphicFramePr><a:graphicFrameLocks xmlns:a=\""@ + A_NS@
        + "\" noChangeAspect=\"1\"/></wp:cNvGraphicFramePr><a:graphic xmlns:a=\""@ + A_NS@
        + "\"><a:graphicData uri=\""@ + PIC_NS@ + "\"><pic:pic xmlns:pic=\""@ + PIC_NS@
        + "\"><pic:nvPicPr><pic:cNvPr id=\""@ + n + "\" name=\""@ + name + "\" descr=\""@ + alt
        + "\"/><pic:cNvPicPr/></pic:nvPicPr><pic:blipFill><a:blip r:embed=\""@ + rel
        + "\"/><a:stretch><a:fillRect/></a:stretch></pic:blipFill><pic:spPr><a:xfrm><a:off x=\"0\" y=\"0\"/><a:ext cx=\""@
        + cx + "\" cy=\""@ + cy
        + "\"/></a:xfrm><a:prstGeom prst=\"rect\"><a:avLst/></a:prstGeom></pic:spPr></pic:pic></a:graphicData></a:graphic></wp:inline></w:drawing></w:r>"@
}

/// One inline picture: a `w:drawing` run sized `extent`, resolving through
/// relationship `rel`.
pub fn drawing(rel: &str, id: u32, name: &str, alt: &str, extent: Extent) -> (res: String)
    ensures
        res@ == drawing_spec(rel@, id, name@, alt@, extent),
{
    let mut alt_x: Vec<char> = Vec::new();
    push_escaped(&mut alt_x, alt);
    let mut cx: Vec<char> = Vec::new();
    push_decimal(&mut cx, extent.cx);
    let mut cy: Vec<char> = Vec::new();
    push_decimal(&mut cy, extent.cy);
    let mut n: Vec<char> = Vec::new();
    push_decimal(&mut n, id as u64);
    let mut out: Vec<char> = Vec::new();
    extend_str(&mut out, "<w:r><w:drawing><wp:inline distT=\"0\" distB=\"0\" distL=\"0\" distR=\"0\"><wp:extent cx=\"");
    crate::text::extend_chars(&mut out, &cx);
    extend_str(&mut out, "\" cy=\"");
    crate::text::extend_chars(&mut out, &cy);
    extend_str(&mut out, "\"/><wp:effectExtent l=\"0\" t=\"0\" r=\"0\" b=\"0\"/><wp:docPr id=\"");
    crate::text::extend_chars(&mut out, &n);
    extend_str(&mut out, "\" name=\"Picture ");
    crate::text::extend_chars(&mut out, &n);
    extend_str(&mut out, "\" descr=\"");
    crate::text::extend_chars(&mut out, &alt_x);
    extend_str(&mut out, "\"/><wp:cNvGraphicFramePr><a:graphicFrameLocks xmlns:a=\"");
    extend_str(&mut out, A_NS);
    extend_str(&mut out, "\" noChangeAspect=\"1\"/></wp:cNvGraphicFramePr><a:graphic xmlns:a=\"");
    extend_str(&mut out, A_NS);
    extend_str(&mut out, "\"><a:graphicData uri=\"");
    extend_str(&mut out, PIC_NS);
    extend_str(&mut out, "\"><pic:pic xmlns:pic=\"");
    extend_str(&mut out, PIC_NS);
    extend_str(&mut out, "\"><pic:nvPicPr><pic:cNvPr id=\"");
    crate::text::extend_chars(&mut out, &n);
    extend_str(&mut out, "\" name=\"");
    extend_str(&mut out, name);
    extend_str(&mut out, "\" descr=\"");
    crate::text::extend_chars(&mut out, &alt_x);
    extend_str(&mut out, "\"/><pic:cNvPicPr/></pic:nvPicPr><pic:blipFill><a:blip r:embed=\"");
    extend_str(&mut out, rel);
    extend_str(&mut out, "\"/><a:stretch><a:fillRect/></a:stretch></pic:blipFill><pic:spPr><a:xfrm><a:off x=\"0\" y=\"0\"/><a:ext cx=\"");
    crate::text::extend_chars(&mut out, &cx);
    extend_str(&mut out, "\" cy=\"");
    crate::text::extend_chars(&mut out, &cy);
    extend_str(&mut out, "\"/></a:xfrm><a:prstGeom prst=\"rect\"><a:avLst/></a:prstGeom></pic:spPr></pic:pic></a:graphicData></a:graphic></wp:inline></w:drawing></w:r>");
    assert(out@ =~= drawing_spec(rel@, id, name@, alt@, extent));
    string_from_chars(&out)
}

} // verus!

verus! {

/// Whether `i` is the first supplied image whose path is `url`.
pub open spec fn first_supplied(supplied: Seq<(String, Vec<u8>)>, url: Seq<char>, i: int) -> bool {
    0 <= i < supplied.len() && supplied[i].0@ == url && forall|k: int|
        0 <= k < i ==> supplied[k].0@ != url
}

/// The first supplied image whose path is `url`, if any.
pub open spec fn supplied_named(supplied: Seq<(String, Vec<u8>)>, url: Seq<char>) -> Option<nat> {
    if exists|i: int| first_supplied(supplied, url, i) {
        Some((choose|i: int| first_supplied(supplied, url, i)) as nat)
    } else {
        None
    }
}

/// Whether `slot` is the first used image whose path is `url`.
pub open spec fn first_used(supplied: Seq<(String, Vec<u8>)>, used: Seq<usize>, url: Seq<char>, slot: int) -> bool {
    0 <= slot < used.len() && supplied[used[slot] as int].0@ == url && forall|k: int|
        0 <= k < slot ==> supplied[used[k] as int].0@ != url
}

/// The slot already holding the image at `url`, if any.
pub open spec fn used_slot(supplied: Seq<(String, Vec<u8>)>, used: Seq<usize>, url: Seq<char>) -> Option<nat> {
    if exists|s: int| first_used(supplied, used, url, s) {
        Some((choose|s: int| first_used(supplied, used, url, s)) as nat)
    } else {
        None
    }
}

/// `n + 1`, held at `u32::MAX`.
pub open spec fn saturating_inc(n: u32) -> u32 {
    if n == u32::MAX {
        n
    } else {
        (n + 1) as u32
    }
}

/// What drawing the image at `url` (described by `alt`) does to a registry
/// over `supplied` holding `used` after `drawings` drawings: the run it
/// writes, if any, and the registry after it. No such image, or bytes that
/// are no PNG this writer can measure, write nothing and register nothing;
/// else the image keeps the slot it holds, or takes the next, and the
/// drawing is numbered one past the last.
pub open spec fn drawing_step(
    supplied: Seq<(String, Vec<u8>)>,
    used: Seq<usize>,
    drawings: u32,
    url: Seq<char>,
    alt: Seq<char>,
) -> (Option<Seq<char>>, Seq<usize>, u32) {
    match supplied_named(supplied, url) {
        None => (None, used, drawings),
        Some(e) => match read_png_spec(supplied[e as int].1@) {
            None => (None, used, drawings),
            Some(png) => {
                let held = used_slot(supplied, used, url);
                let slot = match held {
                    Some(s) => s,
                    None => used.len(),
                };
                let number = saturating_inc(drawings);
                (
                    Some(drawing_spec(relationship_id_spec(slot), number, part_name_spec(slot), alt, extent_spec(png))),
                    if held is Some { used } else { used.push(e as usize) },
                    number,
                )
            },
        },
    }
}

/// The registry after drawing each of `calls`, an `(url, alt)` pair, in
/// turn, from `used` after `drawings` drawings.
pub open spec fn drawings_after(
    supplied: Seq<(String, Vec<u8>)>,
    used: Seq<usize>,
    drawings: u32,
    calls: Seq<(Seq<char>, Seq<char>)>,
) -> (Seq<usize>, u32)
    decreases calls.len(),
{
    if calls.len() == 0 {
        (used, drawings)
    } else {
        let prev = drawings_after(supplied, used, drawings, calls.drop_last());
        let step = drawing_step(supplied, prev.0, prev.1, calls.last().0, calls.last().1);
        (step.1, step.2)
    }
}

/// Drawing only ever adds images after those already used: whatever is
/// drawn after a mark, the images used at the mark stay first, in their
/// slots, so rewinding to the mark (keeping its first `used.len()` slots and
/// its drawing count) gives back exactly the registry it was taken from.
pub proof fn rewinding_discards_only_later_drawings(
    supplied: Seq<(String, Vec<u8>)>,
    used: Seq<usize>,
    drawings: u32,
    calls: Seq<(Seq<char>, Seq<char>)>,
)
    ensures
        used.len() <= drawings_after(supplied, used, drawings, calls).0.len(),
        drawings_after(supplied, used, drawings, calls).0.subrange(0, used.len() as int) == used,
        (if used.len() <= drawings_after(supplied, used, drawings, calls).0.len() {
            drawings_after(supplied, used, drawings, calls).0.subrange(0, used.len() as int)
        } else {
            drawings_after(supplied, used, drawings, calls).0
        }) == used,
    decreases calls.len(),
{
    if calls.len() == 0 {
        assert(used.subrange(0, used.len() as int) =~= used);
    } else {
        rewinding_discards_only_later_drawings(supplied, used, drawings, calls.drop_last());
        let prev = drawings_after(supplied, used, drawings, calls.drop_last());
        let next = drawings_after(supplied, used, drawings, calls).0;
        assert(next == prev.0 || next == prev.0.push(next.last()));
        assert(next.subrange(0, used.len() as int) =~= prev.0.subrange(0, used.len() as int));
    }
}

/// An image drawn for the first time, as after a rewind, takes the next
/// slot and the next drawing number: its drawing cites the relationship and
/// part of slot `used.len()` and is numbered one past `drawings`, and the
/// image is registered in that slot.
pub proof fn a_new_image_takes_the_next_slot(
    supplied: Seq<(String, Vec<u8>)>,
    used: Seq<usize>,
    drawings: u32,
    url: Seq<char>,
    alt: Seq<char>,
)
    requires
        supplied_named(supplied, url) is Some,
        read_png_spec(supplied[supplied_named(supplied, url)->0 as int].1@) is Some,
        used_slot(supplied, used, url) is None,
    ensures
        ({
            let e = supplied_named(supplied, url)->0;
            let png = read_png_spec(supplied[e as int].1@)->0;
            let step = drawing_step(supplied, used, drawings, url, alt);
            &&& step.0 == Some(drawing_spec(
                relationship_id_spec(used.len()),
                saturating_inc(drawings),
                part_name_spec(used.len()),
                alt,
                extent_spec(png),
            ))
            &&& step.1 == used.push(e as usize)
            &&& step.2 == saturating_inc(drawings)
        }),
{
}

/// The first `n` positions of `v`, then `extra` if given.
fn prefix_then(v: &Vec<usize>, n: usize, extra: Option<usize>) -> (res: Vec<usize>)
    requires
        n <= v@.len(),
    ensures
        res@ == match extra {
            Some(x) => v@.subrange(0, n as int).push(x),
            None => v@.subrange(0, n as int),
        },
{
    let mut out: Vec<usize> = Vec::new();
    let mut i: usize = 0;
    while i < n
        invariant
            i <= n <= v@.len(),
            out@ == v@.subrange(0, i as int),
        decreases n - i,
    {
        out.push(v[i]);
        i = i + 1;
        assert(out@ =~= v@.subrange(0, i as int));
    }
    match extra {
        Some(x) => out.push(x),
        None => {},
    }
    out
}

/// The images a document uses, in the order it first used them.
///
/// The relationship id is minted at the moment the drawing that cites it is
/// written, so an `r:embed` cannot name a relationship the package does not
/// define.
#[derive(Debug)]
pub struct Media<'a> {
    /// Every image the caller supplied, by its authored path.
    supplied: &'a [(String, Vec<u8>)],
    /// The images drawn so far, as positions in `supplied`, in the order the
    /// document first drew them.
    used: Vec<usize>,
    /// How many drawings have been written: `w:docPr/@id` is unique per
    /// drawing, not per image.
    drawings: u32,
}

/// Where a [`Media`] registry stood at some point, so it can be rewound.
#[derive(Debug, Clone, Copy)]
pub struct Mark {
    /// How many distinct images had been drawn.
    pub used: usize,
    /// How many drawings had been written.
    pub drawings: u32,
}

impl<'a> Media<'a> {
    /// Every used slot names a supplied image, and no image holds two slots.
    #[verifier::type_invariant]
    spec fn wf(self) -> bool {
        &&& forall|k: int| 0 <= k < self.used@.len() ==> #[trigger] self.used@[k] < self.supplied@.len()
        &&& forall|a: int, b: int|
            0 <= a < b < self.used@.len() ==> #[trigger] self.supplied@[self.used@[a] as int].0@
                != #[trigger] self.supplied@[self.used@[b] as int].0@
    }

    /// The images the caller supplied.
    pub closed spec fn supplied_spec(self) -> Seq<(String, Vec<u8>)> {
        self.supplied@
    }

    /// The drawn images, as positions in the supplied list.
    pub closed spec fn used_spec(self) -> Seq<usize> {
        self.used@
    }

    /// How many drawings have been written.
    pub closed spec fn drawings_spec(self) -> u32 {
        self.drawings
    }

    /// A registry over the images `supplied` by the caller.
    pub fn new(supplied: &'a [(String, Vec<u8>)]) -> (res: Self)
        ensures
            res.supplied_spec() == supplied@,
            res.used_spec().len() == 0,
            res.drawings_spec() == 0,
    {
        Media { supplied, used: Vec::new(), drawings: 0 }
    }

    /// The first supplied image at `url`.
    fn find_supplied(&self, url: &str) -> (res: Option<usize>)
        ensures
            match supplied_named(self.supplied@, url@) {
                Some(i) => res == Some(i as usize) && i < self.supplied@.len(),
                None => res is None,
            },
    {
        let mut i: usize = 0;
        while i < self.supplied.len()
            invariant
                i <= self.supplied@.len(),
                forall|k: int| 0 <= k < i ==> self.supplied@[k].0@ != url@,
            decreases self.supplied@.len() - i,
        {
            if crate::text::str_eq(self.supplied[i].0.as_str(), url) {
                assert(first_supplied(self.supplied@, url@, i as int));
                let ghost j = choose|j: int| first_supplied(self.supplied@, url@, j);
                assert(j == i) by {
                    if j < i {
                        assert(self.supplied@[j].0@ != url@);
                    }
                    if j > i {
                        assert(self.supplied@[i as int].0@ != url@);
                    }
                }
                return Some(i);
            }
            i = i + 1;
        }
        assert(!exists|j: int| first_supplied(self.supplied@, url@, j));
        None
    }

    /// The slot already holding the image at `url`.
    fn find_used(&self, url: &str) -> (res: Option<usize>)
        ensures
            match used_slot(self.supplied@, self.used@, url@) {
                Some(s) => res == Some(s as usize) && s < self.used@.len(),
                None => res is None && forall|k: int| 0 <= k < self.used@.len() ==> self.supplied@[self.used@[k] as int].0@ != url@,
            },
    {
        proof { use_type_invariant(self); }
        let mut s: usize = 0;
        while s < self.used.len()
            invariant
                s <= self.used@.len(),
                forall|k: int| 0 <= k < self.used@.len() ==> #[trigger] self.used@[k] < self.supplied@.len(),
                forall|k: int| 0 <= k < s ==> self.supplied@[self.used@[k] as int].0@ != url@,
            decreases self.used@.len() - s,
        {
            let index = self.used[s];
            if crate::text::str_eq(self.supplied[index].0.as_str(), url) {
                assert(first_used(self.supplied@, self.used@, url@, s as int));
                let ghost j = choose|j: int| first_used(self.supplied@, self.used@, url@, j);
                assert(j == s) by {
                    if j < s {
                        assert(self.supplied@[self.used@[j] as int].0@ != url@);
                    }
                    if j > s {
                        assert(self.supplied@[self.used@[s as int] as int].0@ != url@);
                    }
                }
                return Some(s);
            }
            s = s + 1;
        }
        assert(!exists|j: int| first_used(self.supplied@, self.used@, url@, j));
        None
    }

    /// The run drawing the image at `url`, described to a reader by `alt`.
    ///
    /// `None` when there is no such image, or its bytes are not a PNG this
    /// writer can measure, and then nothing is registered. Otherwise the image
    /// takes the slot it already holds, or the next one, and the drawing is
    /// numbered one past the last.
    pub fn drawing(&mut self, url: &str, alt: &str) -> (res: Option<String>)
        ensures
            final(self).supplied_spec() == old(self).supplied_spec(),
            drawing_step(old(self).supplied_spec(), old(self).used_spec(), old(self).drawings_spec(), url@, alt@)
                == (match res {
                Some(xml) => Some(xml@),
                None => None,
            }, final(self).used_spec(), final(self).drawings_spec()),
    {
        proof { use_type_invariant(&*self); }
        let entry = match self.find_supplied(url) {
            Some(e) => e,
            None => return None,
        };
        let png = match read_png(self.supplied[entry].1.as_slice()) {
            Some(p) => p,
            None => return None,
        };
        let size = extent(&png);
        let slot = match self.find_used(url) {
            Some(s) => s,
            None => {
                let grown = prefix_then(&self.used, self.used.len(), Some(entry));
                self.used = grown;
                self.used.len() - 1
            },
        };
        let count = self.used.len();
        assert(slot < count);
        self.drawings = if self.drawings == u32::MAX { u32::MAX } else { self.drawings + 1 };
        let rel = relationship_id(slot);
        let name = part_name(slot);
        Some(drawing(rel.as_str(), self.drawings, name.as_str(), alt, size))
    }
}

} // verus!

verus! {

/// The `<Relationship/>` entry for the image in `slot`.
pub open spec fn relationship_spec(slot: nat) -> Seq<char> {
    "<Relationship Id=\""@ + relationship_id_spec(slot) + "\" Type=\""@ + IMAGE_REL_TYPE@
        + "\" Target=\"media/"@ + part_name_spec(slot) + "\"/>"@
}

/// The relationship entries for the first `count` slots, in slot order.
pub open spec fn relationships_spec(count: nat) -> Seq<char>
    decreases count,
{
    if count == 0 {
        Seq::empty()
    } else {
        relationships_spec((count - 1) as nat) + relationship_spec((count - 1) as nat)
    }
}

impl<'a> Media<'a> {
    /// Where the registry stands, so a caller can rewind to it.
    pub fn mark(&self) -> (res: Mark)
        ensures
            res.used == self.used_spec().len(),
            res.drawings == self.drawings_spec(),
    {
        Mark { used: self.used.len(), drawings: self.drawings }
    }

    /// Discard every image registered since `mark`.
    ///
    /// A paragraph is written speculatively, and one that falls back to
    /// Markdown source throws its runs away; the images they drew go with
    /// them, so the package carries no part that nothing cites. An image an
    /// earlier paragraph placed is never pushed again, so it survives.
    pub fn rewind(&mut self, mark: Mark)
        ensures
            final(self).supplied_spec() == old(self).supplied_spec(),
            final(self).used_spec() == (if mark.used <= old(self).used_spec().len() {
                old(self).used_spec().subrange(0, mark.used as int)
            } else {
                old(self).used_spec()
            }),
            final(self).drawings_spec() == mark.drawings,
    {
        proof { use_type_invariant(&*self); }
        let keep = if mark.used <= self.used.len() { mark.used } else { self.used.len() };
        assert(self.used@.subrange(0, self.used@.len() as int) =~= self.used@);
        let kept = prefix_then(&self.used, keep, None);
        self.used = kept;
        self.drawings = mark.drawings;
    }

    /// Every image part to put in the package, as `(path, bytes)`, in slot
    /// order.
    pub fn parts(&self) -> (res: Vec<(String, &'a [u8])>)
        ensures
            res@.len() == self.used_spec().len(),
            forall|k: int| 0 <= k < res@.len() ==> {
                &&& (#[trigger] res@[k]).0@ == "word/media/"@ + part_name_spec(k as nat)
                &&& res@[k].1@ == self.supplied_spec()[self.used_spec()[k] as int].1@
            },
    {
        proof { use_type_invariant(self); }
        let mut out: Vec<(String, &'a [u8])> = Vec::new();
        let mut k: usize = 0;
        while k < self.used.len()
            invariant
                k <= self.used@.len(),
                forall|m: int| 0 <= m < self.used@.len() ==> #[trigger] self.used@[m] < self.supplied@.len(),
                out@.len() == k,
                forall|m: int| 0 <= m < k ==> {
                    &&& (#[trigger] out@[m]).0@ == "word/media/"@ + part_name_spec(m as nat)
                    &&& out@[m].1@ == self.supplied@[self.used@[m] as int].1@
                },
            decreases self.used@.len() - k,
        {
            let mut path: Vec<char> = Vec::new();
            extend_str(&mut path, "word/media/");
            let name = part_name(k);
            extend_str(&mut path, name.as_str());
            let index = self.used[k];
            let supplied: &'a [(String, Vec<u8>)] = self.supplied;
            let bytes: &'a [u8] = supplied[index].1.as_slice();
            out.push((string_from_chars(&path), bytes));
            k = k + 1;
        }
        out
    }

    /// The `<Relationship/>` entries the document part needs to resolve its
    /// drawings, ready to splice into `word/_rels/document.xml.rels`.
    pub fn relationships(&self) -> (res: String)
        ensures
            res@ == relationships_spec(self.used_spec().len()),
    {
        let mut out: Vec<char> = Vec::new();
        let mut k: usize = 0;
        while k < self.used.len()
            invariant
                k <= self.used@.len(),
                out@ == relationships_spec(k as nat),
            decreases self.used@.len() - k,
        {
            extend_str(&mut out, "<Relationship Id=\"");
            let id = relationship_id(k);
            extend_str(&mut out, id.as_str());
            extend_str(&mut out, "\" Type=\"");
            extend_str(&mut out, IMAGE_REL_TYPE);
            extend_str(&mut out, "\" Target=\"media/");
            let name = part_name(k);
            extend_str(&mut out, name.as_str());
            extend_str(&mut out, "\"/>");
            k = k + 1;
            assert(out@ =~= relationships_spec(k as nat));
        }
        string_from_chars(&out)
    }
}

/// Two pictures never share a part or a relationship: each slot's part
/// name and relationship id are its own.
pub proof fn pictures_never_share_a_part(a: nat, b: nat)
    requires
        a != b,
    ensures
        part_name_spec(a) != part_name_spec(b),
        relationship_id_spec(a) != relationship_id_spec(b),
{
    reveal_strlit("image");
    reveal_strlit(".png");
    reveal_strlit("rIdImage");
    if part_name_spec(a) == part_name_spec(b) {
        let (da, db) = (decimal_spec(a + 1), decimal_spec(b + 1));
        assert(part_name_spec(a) =~= "image"@ + da + ".png"@);
        assert(part_name_spec(a).subrange(5, part_name_spec(a).len() - 4) =~= da);
        assert(part_name_spec(b).subrange(5, part_name_spec(b).len() - 4) =~= db);
        crate::text::decimal_is_one_to_one(a + 1, b + 1);
    }
    if relationship_id_spec(a) == relationship_id_spec(b) {
        assert(relationship_id_spec(a).skip(8) =~= decimal_spec(a + 1));
        assert(relationship_id_spec(b).skip(8) =~= decimal_spec(b + 1));
        crate::text::decimal_is_one_to_one(a + 1, b + 1);
    }
}

/// A fitted picture always fits the text area and is never drawn at zero
/// size; one that already fits (and has both sides) is left as it is.
pub proof fn a_fitted_picture_fits_the_page(size: Extent)
    ensures
        1 <= fit_spec(size).cx <= MAX_WIDTH,
        1 <= fit_spec(size).cy <= MAX_HEIGHT,
        size.cx > 0 && size.cy > 0 && size.cx <= MAX_WIDTH && size.cy <= MAX_HEIGHT ==> fit_spec(size) == size,
{
}

} // verus!
