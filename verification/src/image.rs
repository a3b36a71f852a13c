//! Turning a bitmap of glyph tiles into a sprite sheet: the bitmap is
//! decoded by the `bmp` crate, the tiles are cut out of it here.

use vstd::prelude::*;
use crate::geometry::{Point2D, PointIterExt, Rect, Size2D};
use crate::graphics::{lemma_cell_index, PalletColor, SpriteData, SpriteSheet, TileKey};
use crate::renderer::{Color, Pixels};

verus! {

/// The colour of the ink in a bitmap of glyphs.
pub open spec fn black() -> Color {
    Color { r: 0, g: 0, b: 0 }
}

/// The greatest width and height of a bitmap that is decoded.
pub const IMAGE_SIDE_LIMIT: u32 = 4096;

/// Why a bitmap was not decoded.
#[derive(Clone, Copy, Debug, PartialEq, Eq, Structural, Hash)]
pub enum ImageError {
    /// The header is not one that is handed to the decoder.
    Unsupported,
    /// The decoder reported an error.
    Rejected,
    /// The decoded bitmap is larger than `IMAGE_SIDE_LIMIT` allows.
    TooLarge,
}

/// Makes `bmp::Image`, the bitmap that the decoder returns, known as a
/// type whose inside is not looked at.
#[verifier::external_type_specification]
#[verifier::external_body]
pub struct ExBmpImage(bmp::Image);

/// The pixels of a decoded bitmap as red, green and blue, row by row from
/// the top, each row from the left.
pub uninterp spec fn image_rows(image: bmp::Image) -> Seq<Seq<(u8, u8, u8)>>;

/// The width of a decoded bitmap.
pub uninterp spec fn image_width(image: bmp::Image) -> nat;

/// What `bmp::from_reader` makes of a file with these bytes: the width and
/// the rows of the bitmap, or `None` where it reports an error.
pub uninterp spec fn bmp_image(bytes: Seq<u8>) -> Option<(nat, Seq<Seq<(u8, u8, u8)>>)>;

/// The number that two bytes of `bytes` from `at` on spell, the low byte
/// first.
pub open spec fn le16(bytes: Seq<u8>, at: int) -> int {
    bytes[at] + bytes[at + 1] * 256
}

/// The number that four bytes of `bytes` from `at` on spell, the lowest
/// byte first.
pub open spec fn le32(bytes: Seq<u8>, at: int) -> int {
    bytes[at] + bytes[at + 1] * 256 + bytes[at + 2] * 65536 + bytes[at + 3] * 16777216
}

/// The bytes that a row of `width` pixels of `bits` bits each takes in a
/// bitmap file: whole bytes, filled up to a multiple of four.
pub open spec fn row_stride(width: int, bits: int) -> int {
    ((width * bits + 7) / 8 + 3) / 4 * 4
}

/// Whether `bytes` start like a bitmap file that is handed to the decoder:
/// the magic number, a header of forty bytes, a width and a height from one
/// to `IMAGE_SIDE_LIMIT`, one, four, eight or twenty-four bits for a pixel,
/// no compression, no colour count, and, where the pixels are indices into
/// a palette, every row inside the file.
pub open spec fn bmp_supported(bytes: Seq<u8>) -> bool {
    &&& bytes.len() >= 54
    &&& bytes[0] == 0x42
    &&& bytes[1] == 0x4d
    &&& le32(bytes, 14) == 40
    &&& 1 <= le32(bytes, 18) <= IMAGE_SIDE_LIMIT
    &&& 1 <= le32(bytes, 22) <= IMAGE_SIDE_LIMIT
    &&& (le16(bytes, 28) == 1 || le16(bytes, 28) == 4 || le16(bytes, 28) == 8 || le16(bytes, 28)
        == 24)
    &&& le32(bytes, 30) == 0
    &&& le32(bytes, 46) == 0
    &&& (le16(bytes, 28) != 24 ==> le32(bytes, 10) + row_stride(
        le32(bytes, 18),
        le16(bytes, 28),
    ) * le32(bytes, 22) <= bytes.len())
}

fn read_le16(bytes: &Vec<u8>, at: usize) -> (r: u32)
    requires
        at + 2 <= bytes@.len(),
        at <= 64,
    ensures
        r == le16(bytes@, at as int),
{
    bytes[at] as u32 + bytes[at + 1] as u32 * 256
}

fn read_le32(bytes: &Vec<u8>, at: usize) -> (r: u32)
    requires
        at + 4 <= bytes@.len(),
        at <= 64,
    ensures
        r == le32(bytes@, at as int),
{
    bytes[at] as u32 + bytes[at + 1] as u32 * 256 + bytes[at + 2] as u32 * 65536 + bytes[at + 3] as u32
        * 16777216
}

/// Whether `bytes` start like a bitmap file that is handed to the decoder.
pub fn is_supported(bytes: &Vec<u8>) -> (b: bool)
    ensures
        b == bmp_supported(bytes@),
{
    if bytes.len() < 54 || bytes[0] != 0x42 || bytes[1] != 0x4d {
        return false;
    }
    let header = read_le32(bytes, 14);
    let width = read_le32(bytes, 18);
    let height = read_le32(bytes, 22);
    let bits = read_le16(bytes, 28);
    let packing = read_le32(bytes, 30);
    let colors = read_le32(bytes, 46);
    if header != 40 || width < 1 || width > IMAGE_SIDE_LIMIT || height < 1 || height
        > IMAGE_SIDE_LIMIT || packing != 0 || colors != 0 {
        return false;
    }
    if bits == 24 {
        return true;
    }
    if bits != 1 && bits != 4 && bits != 8 {
        return false;
    }
    let offset = read_le32(bytes, 10) as u64;
    let row_bits: u64 = if bits == 1 {
        width as u64
    } else if bits == 4 {
        width as u64 * 4
    } else {
        width as u64 * 8
    };
    let stride: u64 = ((row_bits + 7) / 8 + 3) / 4 * 4;
    assert(stride == row_stride(width as int, bits as int));
    assert(stride <= 4100);
    assert(stride * height <= 4100 * 4096) by (nonlinear_arith)
        requires
            stride <= 4100,
            height <= 4096,
    ;
    offset + stride * height as u64 <= bytes.len() as u64
}

/// Calls `bmp::from_reader` on the bytes. The contract claims that the
/// decoder returns on every file that `bmp_supported` admits, and names
/// what it returns: the same bytes give the same bitmap. Whatever error the
/// decoder reports comes back as `Rejected`.
#[verifier::external_body]
fn bmp_from_reader(bytes: &Vec<u8>) -> (r: Result<bmp::Image, ImageError>)
    requires
        bmp_supported(bytes@),
    ensures
        match r {
            Ok(image) => bmp_image(bytes@) == Some((image_width(image), image_rows(image))),
            Err(e) => bmp_image(bytes@) is None && e == ImageError::Rejected,
        },
{
    let mut source: &[u8] = bytes.as_slice();
    match bmp::from_reader(&mut source) {
        Ok(image) => Ok(image),
        Err(_) => Err(ImageError::Rejected),
    }
}

/// Calls `bmp::Image::get_width`: the width of the bitmap.
#[verifier::external_body]
fn bmp_get_width(image: &bmp::Image) -> (w: u32)
    ensures
        w == image_width(*image),
{
    image.get_width()
}

/// Calls `bmp::Image::get_height`: the number of rows of the bitmap.
#[verifier::external_body]
fn bmp_get_height(image: &bmp::Image) -> (h: u32)
    ensures
        h == image_rows(*image).len(),
{
    image.get_height()
}

/// Calls `bmp::Image::get_pixel`: the pixel in column `x` of row `y`,
/// counted from the top left. The contract claims that the call returns
/// for every point of a bitmap that is no larger than `IMAGE_SIDE_LIMIT`.
#[verifier::external_body]
fn bmp_get_pixel(image: &bmp::Image, x: u32, y: u32) -> (c: Color)
    requires
        x < image_width(*image) <= IMAGE_SIDE_LIMIT,
        y < image_rows(*image).len() <= IMAGE_SIDE_LIMIT,
    ensures
        (c.r, c.g, c.b) == image_rows(*image)[y as int][x as int],
{
    let pixel = image.get_pixel(x, y);
    Color { r: pixel.r, g: pixel.g, b: pixel.b }
}

/// Whether a bitmap was decoded and one of its sides is over
/// `IMAGE_SIDE_LIMIT`.
pub open spec fn too_large(decoded: Option<(nat, Seq<Seq<(u8, u8, u8)>>)>) -> bool {
    match decoded {
        Some(bitmap) => bitmap.0 > IMAGE_SIDE_LIMIT || bitmap.1.len() > IMAGE_SIDE_LIMIT,
        None => false,
    }
}

/// A decoded bitmap.
pub struct Bitmap {
    inner: bmp::Image,
}

impl Bitmap {
    /// The width of the bitmap.
    pub closed spec fn width(&self) -> int {
        image_width(self.inner) as int
    }

    /// The height of the bitmap.
    pub closed spec fn height(&self) -> int {
        image_rows(self.inner).len() as int
    }

    /// The colour in column `x` of row `y`, counted from the top left.
    pub closed spec fn color(&self, x: int, y: int) -> Color {
        Color {
            r: image_rows(self.inner)[y][x].0,
            g: image_rows(self.inner)[y][x].1,
            b: image_rows(self.inner)[y][x].2,
        }
    }

    /// What the decoder made of the file that the bitmap was read from.
    pub closed spec fn decoded(&self) -> Option<(nat, Seq<Seq<(u8, u8, u8)>>)> {
        Some((image_width(self.inner), image_rows(self.inner)))
    }

    /// Neither side of the bitmap is over `IMAGE_SIDE_LIMIT`.
    pub closed spec fn wf(&self) -> bool {
        &&& image_width(self.inner) <= IMAGE_SIDE_LIMIT
        &&& image_rows(self.inner).len() <= IMAGE_SIDE_LIMIT
    }

    /// The sides of a well-formed bitmap are not negative and not over the
    /// limit.
    pub proof fn lemma_sides(&self)
        requires
            self.wf(),
        ensures
            0 <= self.width() <= IMAGE_SIDE_LIMIT,
            0 <= self.height() <= IMAGE_SIDE_LIMIT,
    {
    }

    /// Decodes a bitmap file. A file whose header is not supported is not
    /// handed to the decoder.
    pub fn from_bytes(bytes: &Vec<u8>) -> (r: Result<Self, ImageError>)
        ensures
            !bmp_supported(bytes@) ==> r == Err::<Self, ImageError>(ImageError::Unsupported),
            match r {
                Ok(image) => image.wf() && bmp_supported(bytes@) && bmp_image(bytes@)
                    == image.decoded(),
                Err(ImageError::Unsupported) => !bmp_supported(bytes@),
                Err(ImageError::TooLarge) => bmp_supported(bytes@) && too_large(bmp_image(bytes@)),
                Err(ImageError::Rejected) => bmp_supported(bytes@) && bmp_image(bytes@) is None,
            },
            r is Ok <==> bmp_supported(bytes@) && bmp_image(bytes@) is Some && !too_large(
                bmp_image(bytes@),
            ),
    {
        if !is_supported(bytes) {
            return Err(ImageError::Unsupported);
        }
        match bmp_from_reader(bytes) {
            Ok(inner) => {
                if bmp_get_width(&inner) > IMAGE_SIDE_LIMIT || bmp_get_height(&inner)
                    > IMAGE_SIDE_LIMIT {
                    Err(ImageError::TooLarge)
                } else {
                    Ok(Bitmap { inner })
                }
            },
            Err(e) => Err(e),
        }
    }

    pub fn get_pixel(&self, p: Point2D<Pixels>) -> (c: Color)
        requires
            self.wf(),
            0 <= p.x < self.width(),
            0 <= p.y < self.height(),
        ensures
            c == self.color(p.x as int, p.y as int),
    {
        bmp_get_pixel(&self.inner, p.x as u32, p.y as u32)
    }

    pub fn size(&self) -> (s: Size2D<Pixels>)
        requires
            self.wf(),
        ensures
            s == Size2D::<Pixels>::of(self.width(), self.height()),
    {
        Size2D::new(bmp_get_width(&self.inner) as i32, bmp_get_height(&self.inner) as i32)
    }
}

/// The place of a glyph in the bitmap of the font, counted row by row.
#[derive(Debug, Clone, Copy)]
pub struct TileNumber(u32);

/// The characters that have a tile of their own after the letters and the
/// digits, in the order of their tiles.
pub open spec fn special_chars() -> Seq<char> {
    ".,;:?!-_~#z'&()[]{}^|`/\\@*+=z%z$zz<>"@
}

/// Where `c` stands first in `s`, if it stands in it.
pub open spec fn first_index(s: Seq<char>, c: char) -> Option<int>
    decreases s.len(),
{
    if s.len() == 0 {
        None
    } else if first_index(s.drop_last(), c) is Some {
        first_index(s.drop_last(), c)
    } else if s.last() == c {
        Some(s.len() - 1)
    } else {
        None
    }
}

/// The tile of the glyph of `c`: the letters from tile 0, the digits from
/// tile 52, the special characters from tile 62, the space at tile 259;
/// `None` for a character with no glyph.
pub open spec fn tile_of(c: char) -> Option<int> {
    if c == ' ' {
        Some(259)
    } else if 'a' <= c && c <= 'z' {
        Some(c as int - 'a' as int)
    } else if '0' <= c && c <= '9' {
        Some(c as int - '0' as int + 52)
    } else if (c as int) < 128 && first_index(special_chars(), c) is Some {
        Some(first_index(special_chars(), c)->0 + 62)
    } else {
        None
    }
}

fn find_char(s: &str, c: char) -> (r: Option<usize>)
    ensures
        match r {
            Some(i) => first_index(s@, c) == Some(i as int) && i < s@.len(),
            None => first_index(s@, c) is None,
        },
{
    let n = s.unicode_len();
    let mut i: usize = 0;
    while i < n
        invariant
            i <= n,
            n == s@.len(),
            first_index(s@.subrange(0, i as int), c) is None,
        decreases n - i,
    {
        if s.get_char(i) == c {
            proof {
                lemma_first_index_found(s@, c, i as int);
            }
            return Some(i);
        }
        proof {
            assert(s@.subrange(0, i + 1).drop_last() =~= s@.subrange(0, i as int));
        }
        i = i + 1;
    }
    proof {
        assert(s@.subrange(0, n as int) =~= s@);
    }
    None
}

proof fn lemma_first_index_found(s: Seq<char>, c: char, i: int)
    requires
        0 <= i < s.len(),
        s[i] == c,
        first_index(s.subrange(0, i), c) is None,
    ensures
        first_index(s, c) == Some(i),
    decreases s.len(),
{
    if s.len() - 1 == i {
        assert(s.drop_last() =~= s.subrange(0, i));
    } else {
        assert(s.drop_last().subrange(0, i) =~= s.subrange(0, i));
        lemma_first_index_found(s.drop_last(), c, i);
    }
}

impl TileNumber {
    /// The number of the tile.
    pub closed spec fn value(self) -> int {
        self.0 as int
    }

    pub fn new(value: u32) -> (t: Self)
        requires
            value < i32::MAX,
        ensures
            t.value() == value,
    {
        TileNumber(value)
    }

    /// The number of the tile.
    pub fn get(&self) -> (v: u32)
        ensures
            v == self.value(),
    {
        self.0
    }

    /// The tile of the glyph of `c`, a character that has one.
    pub fn from_ascii(c: char) -> (t: Self)
        requires
            tile_of(c) is Some,
        ensures
            t.value() == tile_of(c)->0,
    {
        if c == ' ' {
            Self::new(259)
        } else if c >= 'a' && c <= 'z' {
            Self::new(c as u32 - 'a' as u32)
        } else if c >= '0' && c <= '9' {
            Self::new(c as u32 - '0' as u32 + 52)
        } else {
            match find_char(".,;:?!-_~#z'&()[]{}^|`/\\@*+=z%z$zz<>", c) {
                Some(i) => {
                    proof {
                        reveal_strlit(".,;:?!-_~#z'&()[]{}^|`/\\@*+=z%z$zz<>");
                    }
                    Self::new((i + 62) as u32)
                },
                None => {
                    proof {
                        assert(false);
                    }
                    Self::new(0)
                },
            }
        }
    }

    /// The tile of the glyph of `c`, or `None` for a character with no
    /// glyph.
    pub fn try_from_ascii(c: char) -> (r: Option<Self>)
        ensures
            r is Some <==> tile_of(c) is Some,
            r matches Some(t) ==> t.value() == tile_of(c)->0,
    {
        if c == ' ' || (c >= 'a' && c <= 'z') || (c >= '0' && c <= '9') {
            Some(Self::from_ascii(c))
        } else if c as u32 >= 128 {
            None
        } else {
            match find_char(".,;:?!-_~#z'&()[]{}^|`/\\@*+=z%z$zz<>", c) {
                Some(_) => Some(Self::from_ascii(c)),
                None => None,
            }
        }
    }
}

/// Unit for counting tiles of a sheet
#[derive(Clone, Copy, Debug, PartialEq, Eq, Hash)]
pub struct Tiles;

/// A bitmap cut into tiles of one size, counted row by row from the top
/// left.
pub struct ImageSpriteSheet {
    pub image: Bitmap,
    pub tile_size: Size2D<Pixels>,
    pub bounds: Rect<Tiles>,
}

impl ImageSpriteSheet {
    /// The tiles are at least one pixel wide and high, and the sheet counts
    /// as many columns and rows of them as fit into the bitmap.
    pub open spec fn wf(&self) -> bool {
        &&& self.image.wf()
        &&& self.tile_size.width >= 1
        &&& self.tile_size.height >= 1
        &&& self.bounds.origin == Point2D::<Tiles>::at(0, 0)
        &&& self.bounds.size.width == self.image.width() / (self.tile_size.width as int)
        &&& self.bounds.size.height == self.image.height() / (self.tile_size.height as int)
    }

    /// The number of tiles of the sheet.
    pub open spec fn tiles(&self) -> int {
        self.bounds.size.width * self.bounds.size.height
    }

    /// The column and the row of tiles in which tile `tile` lies.
    pub open spec fn tile_point(&self, tile: int) -> Point2D<Tiles> {
        Point2D::at(tile % (self.bounds.size.width as int), tile / (self.bounds.size.width as int))
    }

    /// The corner of tile `tile` in the bitmap.
    pub open spec fn tile_corner(&self, tile: int) -> Point2D<Pixels> {
        Point2D::at(
            self.tile_point(tile).x * self.tile_size.width,
            self.tile_point(tile).y * self.tile_size.height,
        )
    }

    /// The pallet index that the sheet gives the point `x`, `y` of tile
    /// `tile`: the ink index where the bitmap is black, else the first.
    pub open spec fn tile_pixel(&self, tile: int, x: int, y: int) -> PalletColor {
        if self.image.color(self.tile_corner(tile).x + x, self.tile_corner(tile).y + y) == black() {
            PalletColor::Color2
        } else {
            PalletColor::Color1
        }
    }

    /// The sheet of the bitmap file `image` with tiles of `tile_size`.
    pub fn new(image: &Vec<u8>, tile_size: Size2D<Pixels>) -> (r: Result<Self, ImageError>)
        requires
            tile_size.width >= 1,
            tile_size.height >= 1,
        ensures
            match r {
                Ok(sheet) => sheet.wf() && sheet.tile_size == tile_size && bmp_image(image@)
                    == sheet.image.decoded(),
                Err(ImageError::Unsupported) => !bmp_supported(image@),
                Err(ImageError::TooLarge) => bmp_supported(image@) && too_large(bmp_image(image@)),
                Err(ImageError::Rejected) => bmp_supported(image@) && bmp_image(image@) is None,
            },
            r is Ok <==> bmp_supported(image@) && bmp_image(image@) is Some && !too_large(
                bmp_image(image@),
            ),
    {
        let image = match Bitmap::from_bytes(image) {
            Ok(image) => image,
            Err(e) => {
                return Err(e);
            },
        };
        let image_size = image.size();
        proof {
            image.lemma_sides();
        }
        let bounds = Rect::new(
            Point2D::new(0, 0),
            Size2D::new(image_size.width / tile_size.width, image_size.height / tile_size.height),
        );
        Ok(ImageSpriteSheet { image, tile_size, bounds })
    }

    /// A tile of the sheet lies inside the bitmap.
    pub proof fn lemma_tile_inside(&self, tile: int, x: int, y: int)
        requires
            self.wf(),
            0 <= tile < self.tiles(),
            0 <= x < self.tile_size.width,
            0 <= y < self.tile_size.height,
        ensures
            self.bounds.size.width > 0,
            self.tiles() <= 0x100_0000,
            0 <= tile % (self.bounds.size.width as int) < self.bounds.size.width,
            0 <= tile / (self.bounds.size.width as int) < self.bounds.size.height,
            0 <= (tile % (self.bounds.size.width as int)) * self.tile_size.width,
            0 <= (tile / (self.bounds.size.width as int)) * self.tile_size.height,
            (tile % (self.bounds.size.width as int)) * self.tile_size.width + x
                < self.image.width(),
            (tile / (self.bounds.size.width as int)) * self.tile_size.height + y
                < self.image.height(),
            self.tile_corner(tile).x == (tile % (self.bounds.size.width as int))
                * self.tile_size.width,
            self.tile_corner(tile).y == (tile / (self.bounds.size.width as int))
                * self.tile_size.height,
            0 <= self.tile_size.width * self.tile_size.height <= 0x100_0000,
    {
        self.image.lemma_sides();
        let cols = self.bounds.size.width as int;
        let rows = self.bounds.size.height as int;
        let tw = self.tile_size.width as int;
        let th = self.tile_size.height as int;
        let iw = self.image.width();
        let ih = self.image.height();
        assert(cols > 0 && rows > 0) by (nonlinear_arith)
            requires
                0 <= tile < cols * rows,
                cols >= 0,
                rows >= 0,
        ;
        let tx = tile % cols;
        let ty = tile / cols;
        assert(0 <= tx < cols && tile == cols * ty + tx) by {
            vstd::arithmetic::div_mod::lemma_fundamental_div_mod(tile, cols);
            vstd::arithmetic::div_mod::lemma_mod_bound(tile, cols);
        }
        assert(0 <= ty < rows) by (nonlinear_arith)
            requires
                0 <= tile < cols * rows,
                tile == cols * ty + tx,
                0 <= tx < cols,
        ;
        assert(cols * tw <= iw && rows * th <= ih) by {
            vstd::arithmetic::div_mod::lemma_fundamental_div_mod(iw, tw);
            vstd::arithmetic::div_mod::lemma_mod_bound(iw, tw);
            vstd::arithmetic::div_mod::lemma_fundamental_div_mod(ih, th);
            vstd::arithmetic::div_mod::lemma_mod_bound(ih, th);
            assert(cols * tw == tw * cols) by (nonlinear_arith);
            assert(rows * th == th * rows) by (nonlinear_arith);
        }
        assert(0 <= tx * tw && tx * tw + tw <= cols * tw) by (nonlinear_arith)
            requires
                0 <= tx < cols,
                tw >= 1,
        ;
        assert(0 <= ty * th && ty * th + th <= rows * th) by (nonlinear_arith)
            requires
                0 <= ty < rows,
                th >= 1,
        ;
        assert(tw <= iw && th <= ih && cols <= iw && rows <= ih) by (nonlinear_arith)
            requires
                cols >= 1,
                rows >= 1,
                cols * tw <= iw,
                rows * th <= ih,
                tw >= 1,
                th >= 1,
        ;
        assert(0 <= tw * th <= 0x100_0000) by (nonlinear_arith)
            requires
                1 <= tw <= 4096,
                1 <= th <= 4096,
        ;
        assert(cols * rows <= 0x100_0000) by (nonlinear_arith)
            requires
                1 <= cols <= 4096,
                1 <= rows <= 4096,
        ;
    }

    /// The corner of the tile in the bitmap.
    pub fn tile_start(&self, tile: TileNumber) -> (p: Point2D<Pixels>)
        requires
            self.wf(),
            tile.value() < self.tiles(),
        ensures
            p == self.tile_corner(tile.value()),
    {
        proof {
            self.lemma_tile_inside(tile.value(), 0, 0);
        }
        let tile_num: i32 = tile.get() as i32;
        let tile_point: Point2D<Tiles> = Point2D::new(
            tile_num % self.bounds.size.width,
            tile_num / self.bounds.size.width,
        );
        Point2D::new(tile_point.x * self.tile_size.width, tile_point.y * self.tile_size.height)
    }

    /// The tile as a sprite: the ink index where the bitmap is black, the
    /// first index elsewhere.
    pub fn tile_to_data(&self, tile: TileNumber) -> (data: SpriteData)
        requires
            self.wf(),
            tile.value() < self.tiles(),
        ensures
            data.wf(),
            data.size == self.tile_size,
            forall|x: int, y: int|
                0 <= x < self.tile_size.width && 0 <= y < self.tile_size.height
                    ==> #[trigger] data.data@[y * self.tile_size.width + x] == self.tile_pixel(
                    tile.value(),
                    x,
                    y,
                ),
    {
        let ghost t = tile.value();
        let width = self.tile_size.width;
        let height = self.tile_size.height;
        proof {
            self.lemma_tile_inside(t, 0, 0);
        }
        let mut data: Vec<PalletColor> = Vec::new();
        let mut it = self.tile_size.point_iter();
        loop
            invariant
                self.wf(),
                t == tile.value(),
                0 <= t < self.tiles(),
                width == self.tile_size.width,
                height == self.tile_size.height,
                it.wf(),
                it.rect == self.tile_size.as_rect(),
                0 <= it.i.y <= height,
                it.i.y == height ==> it.i.x == 0,
                data@.len() == it.i.y * width + it.i.x,
                forall|x: int, y: int|
                    0 <= x < width && 0 <= y < height && (y < it.i.y || (y == it.i.y && x < it.i.x))
                        ==> #[trigger] data@[y * width + x] == self.tile_pixel(t, x, y),
            ensures
                data@.len() == width * height,
                forall|x: int, y: int|
                    0 <= x < width && 0 <= y < height ==> #[trigger] data@[y * width + x]
                        == self.tile_pixel(t, x, y),
            decreases it.rows_left(), it.cols_left(),
        {
            let ghost before = data@;
            let ghost at = it.i;
            match it.next() {
                None => {
                    proof {
                        assert(it.i.y == height);
                        assert(height * width == width * height) by (nonlinear_arith);
                    }
                    break ;
                },
                Some(tile_pixel) => {
                    let tile_start = self.tile_start(tile);
                    proof {
                        self.lemma_tile_inside(t, tile_pixel.x as int, tile_pixel.y as int);
                        lemma_cell_index(
                            width as int,
                            height as int,
                            tile_pixel.x as int,
                            tile_pixel.y as int,
                        );
                    }
                    let pixel = self.image.get_pixel(
                        Point2D::new(tile_start.x + tile_pixel.x, tile_start.y + tile_pixel.y),
                    );
                    let index = if pixel.r == 0 && pixel.g == 0 && pixel.b == 0 {
                        PalletColor::Color2
                    } else {
                        PalletColor::Color1
                    };
                    data.push(index);
                    proof {
                        assert(index == self.tile_pixel(t, at.x as int, at.y as int));
                        assert((at.y + 1) * width == at.y * width + width) by (nonlinear_arith);
                        assert forall|x: int, y: int|
                            0 <= x < width && 0 <= y < height && (y < it.i.y || (y == it.i.y && x
                                < it.i.x)) implies #[trigger] data@[y * width + x]
                            == self.tile_pixel(t, x, y) by {
                            if y == at.y && x == at.x {
                            } else {
                                assert(y < at.y || (y == at.y && x < at.x));
                                assert(before[y * width + x] == self.tile_pixel(t, x, y));
                                lemma_cell_before(width as int, x, y, at.x as int, at.y as int);
                            }
                        }
                    }
                },
            }
        }
        proof {
            self.lemma_tile_inside(t, 0, 0);
        }
        SpriteData { size: self.tile_size, data }
    }
}

/// In a grid, a cell that comes before another in reading order has the
/// smaller index.
pub proof fn lemma_cell_before(width: int, x: int, y: int, u: int, v: int)
    requires
        0 <= x < width,
        0 <= u < width,
        0 <= y,
        y < v || (y == v && x < u),
    ensures
        0 <= y * width + x < v * width + u,
{
    if y < v {
        assert((y + 1) * width <= v * width) by (nonlinear_arith)
            requires
                y + 1 <= v,
                width >= 0,
        ;
        assert((y + 1) * width == y * width + width) by (nonlinear_arith);
    }
    assert(y * width >= 0) by (nonlinear_arith)
        requires
            y >= 0,
            width >= 0,
    ;
}

/// The characters that the font has a glyph for.
pub open spec fn font_chars() -> Seq<char> {
    "abcdefghijklmnopqrstuvwxyz0123456789 .,;:?!-_~#'&()[]{}^|`/\\@*+=$%<>"@
}

/// The tile numbers of glyphs end here.
pub const GLYPH_TILES: i32 = 260;

proof fn lemma_first_index_bound(s: Seq<char>, c: char)
    ensures
        first_index(s, c) matches Some(i) ==> 0 <= i < s.len(),
    decreases s.len(),
{
    if s.len() > 0 {
        lemma_first_index_bound(s.drop_last(), c);
    }
}

/// The tile of a glyph is one of the first `GLYPH_TILES` tiles.
pub proof fn lemma_tile_of_bound(c: char)
    ensures
        tile_of(c) matches Some(t) ==> 0 <= t < GLYPH_TILES,
{
    reveal_strlit(".,;:?!-_~#z'&()[]{}^|`/\\@*+=z%z$zz<>");
    lemma_first_index_bound(special_chars(), c);
}

proof fn lemma_first_index_some(s: Seq<char>, c: char, i: int)
    requires
        0 <= i < s.len(),
        s[i] == c,
    ensures
        first_index(s, c) is Some,
    decreases s.len(),
{
    if i < s.len() - 1 {
        lemma_first_index_some(s.drop_last(), c, i);
    }
}

/// Every character of the font has a tile.
pub proof fn lemma_font_chars_have_tiles()
    ensures
        font_chars().len() == 68,
        forall|k: int| 0 <= k < 68 ==> tile_of(#[trigger] font_chars()[k]) is Some,
{
    reveal_strlit(".,;:?!-_~#z'&()[]{}^|`/\\@*+=z%z$zz<>");
    reveal_strlit("abcdefghijklmnopqrstuvwxyz0123456789 .,;:?!-_~#'&()[]{}^|`/\\@*+=$%<>");
    assert(tile_of(font_chars()[0]) is Some);
    assert(tile_of(font_chars()[1]) is Some);
    assert(tile_of(font_chars()[2]) is Some);
    assert(tile_of(font_chars()[3]) is Some);
    assert(tile_of(font_chars()[4]) is Some);
    assert(tile_of(font_chars()[5]) is Some);
    assert(tile_of(font_chars()[6]) is Some);
    assert(tile_of(font_chars()[7]) is Some);
    assert(tile_of(font_chars()[8]) is Some);
    assert(tile_of(font_chars()[9]) is Some);
    assert(tile_of(font_chars()[10]) is Some);
    assert(tile_of(font_chars()[11]) is Some);
    assert(tile_of(font_chars()[12]) is Some);
    assert(tile_of(font_chars()[13]) is Some);
    assert(tile_of(font_chars()[14]) is Some);
    assert(tile_of(font_chars()[15]) is Some);
    assert(tile_of(font_chars()[16]) is Some);
    assert(tile_of(font_chars()[17]) is Some);
    assert(tile_of(font_chars()[18]) is Some);
    assert(tile_of(font_chars()[19]) is Some);
    assert(tile_of(font_chars()[20]) is Some);
    assert(tile_of(font_chars()[21]) is Some);
    assert(tile_of(font_chars()[22]) is Some);
    assert(tile_of(font_chars()[23]) is Some);
    assert(tile_of(font_chars()[24]) is Some);
    assert(tile_of(font_chars()[25]) is Some);
    assert(tile_of(font_chars()[26]) is Some);
    assert(tile_of(font_chars()[27]) is Some);
    assert(tile_of(font_chars()[28]) is Some);
    assert(tile_of(font_chars()[29]) is Some);
    assert(tile_of(font_chars()[30]) is Some);
    assert(tile_of(font_chars()[31]) is Some);
    assert(tile_of(font_chars()[32]) is Some);
    assert(tile_of(font_chars()[33]) is Some);
    assert(tile_of(font_chars()[34]) is Some);
    assert(tile_of(font_chars()[35]) is Some);
    assert(tile_of(font_chars()[36]) is Some);
    lemma_first_index_some(special_chars(), '.', 0);
    assert(tile_of(font_chars()[37]) is Some);
    lemma_first_index_some(special_chars(), ',', 1);
    assert(tile_of(font_chars()[38]) is Some);
    lemma_first_index_some(special_chars(), ';', 2);
    assert(tile_of(font_chars()[39]) is Some);
    lemma_first_index_some(special_chars(), ':', 3);
    assert(tile_of(font_chars()[40]) is Some);
    lemma_first_index_some(special_chars(), '?', 4);
    assert(tile_of(font_chars()[41]) is Some);
    lemma_first_index_some(special_chars(), '!', 5);
    assert(tile_of(font_chars()[42]) is Some);
    lemma_first_index_some(special_chars(), '-', 6);
    assert(tile_of(font_chars()[43]) is Some);
    lemma_first_index_some(special_chars(), '_', 7);
    assert(tile_of(font_chars()[44]) is Some);
    lemma_first_index_some(special_chars(), '~', 8);
    assert(tile_of(font_chars()[45]) is Some);
    lemma_first_index_some(special_chars(), '#', 9);
    assert(tile_of(font_chars()[46]) is Some);
    lemma_first_index_some(special_chars(), '\'', 11);
    assert(tile_of(font_chars()[47]) is Some);
    lemma_first_index_some(special_chars(), '&', 12);
    assert(tile_of(font_chars()[48]) is Some);
    lemma_first_index_some(special_chars(), '(', 13);
    assert(tile_of(font_chars()[49]) is Some);
    lemma_first_index_some(special_chars(), ')', 14);
    assert(tile_of(font_chars()[50]) is Some);
    lemma_first_index_some(special_chars(), '[', 15);
    assert(tile_of(font_chars()[51]) is Some);
    lemma_first_index_some(special_chars(), ']', 16);
    assert(tile_of(font_chars()[52]) is Some);
    lemma_first_index_some(special_chars(), '{', 17);
    assert(tile_of(font_chars()[53]) is Some);
    lemma_first_index_some(special_chars(), '}', 18);
    assert(tile_of(font_chars()[54]) is Some);
    lemma_first_index_some(special_chars(), '^', 19);
    assert(tile_of(font_chars()[55]) is Some);
    lemma_first_index_some(special_chars(), '|', 20);
    assert(tile_of(font_chars()[56]) is Some);
    lemma_first_index_some(special_chars(), '`', 21);
    assert(tile_of(font_chars()[57]) is Some);
    lemma_first_index_some(special_chars(), '/', 22);
    assert(tile_of(font_chars()[58]) is Some);
    lemma_first_index_some(special_chars(), '\\', 23);
    assert(tile_of(font_chars()[59]) is Some);
    lemma_first_index_some(special_chars(), '@', 24);
    assert(tile_of(font_chars()[60]) is Some);
    lemma_first_index_some(special_chars(), '*', 25);
    assert(tile_of(font_chars()[61]) is Some);
    lemma_first_index_some(special_chars(), '+', 26);
    assert(tile_of(font_chars()[62]) is Some);
    lemma_first_index_some(special_chars(), '=', 27);
    assert(tile_of(font_chars()[63]) is Some);
    lemma_first_index_some(special_chars(), '$', 31);
    assert(tile_of(font_chars()[64]) is Some);
    lemma_first_index_some(special_chars(), '%', 29);
    assert(tile_of(font_chars()[65]) is Some);
    lemma_first_index_some(special_chars(), '<', 34);
    assert(tile_of(font_chars()[66]) is Some);
    lemma_first_index_some(special_chars(), '>', 35);
    assert(tile_of(font_chars()[67]) is Some);
}

/// Whether `half` is the left half of `whole`: half as wide, rounded down,
/// as high, and with the indices that `whole` has there.
pub open spec fn is_left_half(half: SpriteData, whole: SpriteData) -> bool {
    &&& half.size == Size2D::<Pixels>::of(whole.size.width / 2, whole.size.height as int)
    &&& forall|x: int, y: int|
        0 <= x < whole.size.width / 2 && 0 <= y < whole.size.height
            ==> #[trigger] half.data@[y * (whole.size.width / 2) + x] == whole.data@[y
            * whole.size.width + x]
}

/// The left half of a sprite.
pub fn left_half(sprite: &SpriteData) -> (half: SpriteData)
    requires
        sprite.wf(),
    ensures
        half.wf(),
        is_left_half(half, *sprite),
{
    let width = sprite.size.width / 2;
    let height = sprite.size.height;
    let new_size: Size2D<Pixels> = Size2D::new(width, height);
    let mut data: Vec<PalletColor> = Vec::new();
    let mut it = new_size.point_iter();
    loop
        invariant
            sprite.wf(),
            width == sprite.size.width / 2,
            width >= 0,
            height == sprite.size.height,
            it.wf(),
            it.rect == new_size.as_rect(),
            new_size == Size2D::<Pixels>::of(width as int, height as int),
            0 <= it.i.y,
            width > 0 ==> it.i.y <= height,
            it.i.y == height ==> it.i.x == 0,
            width == 0 ==> it.i == Point2D::<Pixels>::at(0, 0),
            data@.len() == it.i.y * width + it.i.x,
            forall|x: int, y: int|
                0 <= x < width && 0 <= y < height && (y < it.i.y || (y == it.i.y && x < it.i.x))
                    ==> #[trigger] data@[y * width + x] == sprite.data@[y * sprite.size.width + x],
        ensures
            data@.len() == width * height,
            forall|x: int, y: int|
                0 <= x < width && 0 <= y < height ==> #[trigger] data@[y * width + x]
                    == sprite.data@[y * sprite.size.width + x],
        decreases it.rows_left(), it.cols_left(),
    {
        let ghost before = data@;
        let ghost at = it.i;
        match it.next() {
            None => {
                proof {
                    assert(data@.len() == at.y * width + at.x);
                    if width > 0 {
                        assert(at.y == height);
                        assert(at.y * width == height * width);
                    } else {
                        assert(width == 0);
                        assert(at.x == 0 && at.y == 0);
                        assert(width * height == 0) by (nonlinear_arith)
                            requires
                                width == 0,
                        ;
                    }
                    assert(height * width == width * height) by (nonlinear_arith);
                    assert(data@.len() == width * height);
                }
                break ;
            },
            Some(p) => {
                data.push(sprite.get_pixel(p));
                proof {
                    assert((at.y + 1) * width == at.y * width + width) by (nonlinear_arith);
                    assert forall|x: int, y: int|
                        0 <= x < width && 0 <= y < height && (y < it.i.y || (y == it.i.y && x
                            < it.i.x)) implies #[trigger] data@[y * width + x] == sprite.data@[y
                        * sprite.size.width + x] by {
                        if y == at.y && x == at.x {
                            lemma_cell_index(width as int, height as int, x, y);
                        } else {
                            assert(y < at.y || (y == at.y && x < at.x));
                            assert(before[y * width + x] == sprite.data@[y * sprite.size.width
                                + x]);
                            lemma_cell_before(width as int, x, y, at.x as int, at.y as int);
                        }
                    }
                }
            },
        }
    }
    proof {
        assert(0 <= width * height <= sprite.size.width * sprite.size.height) by (nonlinear_arith)
            requires
                0 <= width <= sprite.size.width,
                0 <= height == sprite.size.height,
        ;
    }
    SpriteData { size: new_size, data }
}

/// Whether `glyph` is the left half of tile `tile` of `font`.
pub open spec fn is_glyph_of(glyph: SpriteData, font: &ImageSpriteSheet, tile: int) -> bool {
    &&& glyph.size == Size2D::<Pixels>::of(font.tile_size.width / 2, font.tile_size.height as int)
    &&& forall|x: int, y: int|
        0 <= x < font.tile_size.width / 2 && 0 <= y < font.tile_size.height
            ==> #[trigger] glyph.data@[y * (font.tile_size.width / 2) + x] == font.tile_pixel(
            tile,
            x,
            y,
        )
}

/// The sprite sheet of the font: for each character of `font_chars`, under
/// the character as its key, the left half of the character's tile.
pub fn font_sheet(font: &ImageSpriteSheet) -> (sheet: SpriteSheet)
    requires
        font.wf(),
        font.tiles() >= GLYPH_TILES,
    ensures
        sheet.wf(),
        forall|k: int|
            0 <= k < font_chars().len() ==> sheet.has(seq![#[trigger] font_chars()[k]])
                && is_glyph_of(
                sheet.sprite(seq![font_chars()[k]]),
                font,
                tile_of(font_chars()[k])->0,
            ),
        forall|key: Seq<char>| #[trigger]
            sheet.has(key) ==> exists|k: int|
                0 <= k < font_chars().len() && key == seq![#[trigger] font_chars()[k]],
{
    proof {
        lemma_font_chars_have_tiles();
    }
    let chars = "abcdefghijklmnopqrstuvwxyz0123456789 .,;:?!-_~#'&()[]{}^|`/\\@*+=$%<>";
    let n = chars.unicode_len();
    let mut sheet = SpriteSheet::new();
    let mut k: usize = 0;
    while k < n
        invariant
            k <= n,
            n == chars@.len(),
            chars@ == font_chars(),
            font.wf(),
            font.tiles() >= GLYPH_TILES,
            sheet.wf(),
            font_chars().len() == 68,
            forall|j: int| 0 <= j < 68 ==> tile_of(#[trigger] font_chars()[j]) is Some,
            forall|j: int|
                0 <= j < k ==> sheet.has(seq![#[trigger] font_chars()[j]]) && is_glyph_of(
                    sheet.sprite(seq![font_chars()[j]]),
                    font,
                    tile_of(font_chars()[j])->0,
                ),
            forall|key: Seq<char>| #[trigger]
                sheet.has(key) ==> exists|j: int|
                    0 <= j < k && key == seq![#[trigger] font_chars()[j]],
        decreases n - k,
    {
        let c = chars.get_char(k);
        match TileNumber::try_from_ascii(c) {
            Some(tile) => {
                proof {
                    lemma_tile_of_bound(c);
                }
                let sprite_data = font.tile_to_data(tile);
                let glyph = left_half(&sprite_data);
                let ghost before = sheet;
                proof {
                    assert(is_glyph_of(glyph, font, tile.value())) by {
                        assert forall|x: int, y: int|
                            0 <= x < font.tile_size.width / 2 && 0 <= y
                                < font.tile_size.height implies #[trigger] glyph.data@[y * (
                        font.tile_size.width / 2) + x] == font.tile_pixel(tile.value(), x, y) by {
                            assert(glyph.data@[y * (sprite_data.size.width / 2) + x]
                                == sprite_data.data@[y * sprite_data.size.width + x]);
                            assert(sprite_data.data@[y * font.tile_size.width + x]
                                == font.tile_pixel(tile.value(), x, y));
                        }
                    }
                }
                sheet.insert_sprite(TileKey::Char(c), glyph);
                proof {
                    assert(TileKey::Char(c)@ == seq![c]);
                    assert forall|key: Seq<char>| #[trigger] sheet.has(key) implies exists|j: int|
                        0 <= j < k + 1 && key == seq![#[trigger] font_chars()[j]] by {
                        if key == seq![c] {
                            assert(key == seq![font_chars()[k as int]]);
                        } else {
                            assert(before.has(key));
                            let j = choose|j: int|
                                0 <= j < k && key == seq![#[trigger] font_chars()[j]];
                            assert(key == seq![font_chars()[j]]);
                        }
                    }
                    assert forall|j: int| 0 <= j < k + 1 implies sheet.has(
                        seq![#[trigger] font_chars()[j]],
                    ) && is_glyph_of(
                        sheet.sprite(seq![font_chars()[j]]),
                        font,
                        tile_of(font_chars()[j])->0,
                    ) by {
                        let d = font_chars()[j];
                        if d == c {
                            assert(seq![d] == seq![c]);
                        } else {
                            assert(seq![d][0] != seq![c][0]);
                            assert(seq![d] != seq![c]);
                            assert(before.has(seq![d]));
                        }
                    }
                }
            },
            None => {
                proof {
                    assert(tile_of(font_chars()[k as int]) is Some);
                    assert(false);
                }
            },
        }
        k = k + 1;
    }
    sheet
}

} // verus!
