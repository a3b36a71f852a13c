//! Drawing: the pallet, sprites made of pallet indices, the sprite sheet
//! that holds the font, and the painting of tiles and text.

use vstd::prelude::*;
use crate::geometry::{Point2D, PointIterExt, PointIterator, Rect, Size2D};
use crate::renderer::{
    RENDER_HEIGHT,
    RENDER_WIDTH,
    alpha_at,
    color_at,
    lemma_painted_twice,
    lemma_with_pixel,
    painted,
    render_rect,
    render_rect_exec,
    CanvasRenderer,
    Color,
    Pixels,
};

verus! {

/// Where an entity is and how large: a rectangle of the pixel grid.
#[derive(Clone, Copy, Debug, PartialEq, Eq, Hash)]
pub struct Bounds(pub Rect<Pixels>);

/// The screen that an entity belongs to and is removed with.
#[derive(Copy, Clone, Debug, PartialEq, Eq, Structural, Hash)]
pub enum Owner {
    OnMenu,
    OnGame,
}

/// Something on a screen: a sprite, the place it takes, and its owner.
#[derive(Debug)]
pub struct Entity<S> {
    pub bounds: Bounds,
    pub sprite: S,
    pub owner: Owner,
}

#[derive(Copy, Clone, Debug, PartialEq, Eq, Structural, Hash)]
pub enum PalletColor {
    Color1,
    Color2,
    Color3,
    Color4,
}

/// The number of colours of the pallet.
pub const PALLET_SIZE: usize = 4;

/// The pallet index that is drawn; the others are see-through.
pub open spec fn ink_index() -> PalletColor {
    PalletColor::Color2
}

/// The colour at `index` of the pallet: background, dim, highlight and
/// selected, in that order.
pub open spec fn pallet(index: int) -> Color {
    if index == 0 {
        Color { r: 6, g: 35, b: 39 }
    } else if index == 1 {
        Color { r: 28, g: 124, b: 148 }
    } else if index == 2 {
        Color { r: 254, g: 160, b: 0 }
    } else {
        Color { r: 250, g: 232, b: 150 }
    }
}

/// The colour at `index` of the pallet.
pub fn pallet_color(index: usize) -> (c: Color)
    requires
        index < PALLET_SIZE,
    ensures
        c == pallet(index as int),
{
    if index == 0 {
        Color { r: 6, g: 35, b: 39 }
    } else if index == 1 {
        Color { r: 28, g: 124, b: 148 }
    } else if index == 2 {
        Color { r: 254, g: 160, b: 0 }
    } else {
        Color { r: 250, g: 232, b: 150 }
    }
}

impl PalletColor {
    /// The place of this colour in the pallet.
    pub open spec fn index(self) -> int {
        match self {
            PalletColor::Color1 => 0,
            PalletColor::Color2 => 1,
            PalletColor::Color3 => 2,
            PalletColor::Color4 => 3,
        }
    }

    /// The colour that this index stands for.
    pub fn color(self) -> (c: Color)
        ensures
            c == pallet(self.index()),
    {
        match self {
            PalletColor::Color1 => pallet_color(0),
            PalletColor::Color2 => pallet_color(1),
            PalletColor::Color3 => pallet_color(2),
            PalletColor::Color4 => pallet_color(3),
        }
    }
}

/// A picture made of pallet indices, row after row.
#[derive(Debug, PartialEq, Eq)]
pub struct SpriteData {
    pub size: Size2D<Pixels>,
    pub data: Vec<PalletColor>,
}

/// In a grid `width` wide and `height` high, the cells before the cell in
/// column `x` of row `y` are fewer than the grid has cells.
pub proof fn lemma_cell_index(width: int, height: int, x: int, y: int)
    requires
        0 <= x < width,
        0 <= y < height,
    ensures
        0 <= y * width + x < width * height,
        y * width >= 0,
{
    assert(y * width >= 0) by (nonlinear_arith)
        requires
            y >= 0,
            width >= 0,
    ;
    assert((y + 1) * width <= height * width) by (nonlinear_arith)
        requires
            y + 1 <= height,
            width >= 0,
    ;
    assert((y + 1) * width == y * width + width) by (nonlinear_arith);
    assert(height * width == width * height) by (nonlinear_arith);
}

impl SpriteData {
    /// The sprite has no negative side and one index for each of its
    /// points, and the number of its points fits 32 bits.
    pub open spec fn wf(&self) -> bool {
        &&& 0 <= self.size.width
        &&& 0 <= self.size.height
        &&& self.data@.len() == self.size.width * self.size.height
        &&& self.size.width * self.size.height <= i32::MAX
    }

    /// The pallet index at `pos`, a point of the sprite.
    pub open spec fn pixel(&self, pos: Point2D<Pixels>) -> PalletColor {
        self.data@[pos.y * self.size.width + pos.x]
    }

    /// Whether column `x` of row `y` is a point of the sprite that gets
    /// drawn.
    pub open spec fn ink_at(&self, x: int, y: int) -> bool {
        &&& 0 <= x < self.size.width
        &&& 0 <= y < self.size.height
        &&& self.data@[y * self.size.width + x] == ink_index()
    }

    /// A sprite of the given size and indices, where they make one.
    pub fn new(size: Size2D<Pixels>, data: Vec<PalletColor>) -> (r: Option<Self>)
        ensures
            r matches Some(s) ==> s.wf() && s.size == size && s.data == data,
            r is Some <==> (0 <= size.width && 0 <= size.height && data@.len() == size.width
                * size.height && size.width * size.height <= i32::MAX),
    {
        if size.width < 0 || size.height < 0 {
            return None;
        }
        proof {
            assert(0 <= size.width * size.height <= 0x7fff_ffff * 0x7fff_ffff) by (nonlinear_arith)
                requires
                    0 <= size.width <= 0x7fff_ffff,
                    0 <= size.height <= 0x7fff_ffff,
            ;
        }
        let area: i64 = size.width as i64 * size.height as i64;
        if area > i32::MAX as i64 || data.len() as u64 != area as u64 {
            return None;
        }
        Some(SpriteData { size, data })
    }

    fn rect(&self) -> (r: Rect<Pixels>)
        ensures
            r == self.size.as_rect(),
    {
        self.size.to_rect()
    }

    pub fn get_pixel(&self, pos: Point2D<Pixels>) -> (c: PalletColor)
        requires
            self.wf(),
            self.size.as_rect().contains_point(pos),
        ensures
            c == self.pixel(pos),
    {
        proof {
            lemma_cell_index(
                self.size.width as int,
                self.size.height as int,
                pos.x as int,
                pos.y as int,
            );
        }
        self.data[(pos.y * self.size.width + pos.x) as usize]
    }

    /// A copy of the sprite.
    pub fn duplicate(&self) -> (r: Self)
        ensures
            r.size == self.size,
            r.data@ == self.data@,
    {
        let mut data: Vec<PalletColor> = Vec::new();
        let mut n: usize = 0;
        while n < self.data.len()
            invariant
                n <= self.data@.len(),
                data@ == self.data@.subrange(0, n as int),
            decreases self.data@.len() - n,
        {
            data.push(self.data[n]);
            assert(data@ =~= self.data@.subrange(0, n + 1));
            n = n + 1;
        }
        assert(data@ =~= self.data@);
        SpriteData { size: self.size, data }
    }
}

/// The name of a tile: one character, or a short text.
#[derive(Copy, Clone, Debug)]
pub enum TileKey {
    Char(char),
    Str(&'static str),
}

impl View for TileKey {
    type V = Seq<char>;

    open spec fn view(&self) -> Seq<char> {
        match self {
            TileKey::Char(c) => seq![*c],
            TileKey::Str(s) => s@,
        }
    }
}

impl From<char> for TileKey {
    fn from(c: char) -> (k: Self) {
        Self::Char(c)
    }
}

impl vstd::std_specs::convert::FromSpecImpl<char> for TileKey {
    open spec fn obeys_from_spec() -> bool {
        true
    }

    open spec fn from_spec(c: char) -> Self {
        TileKey::Char(c)
    }
}

impl From<&'static str> for TileKey {
    fn from(s: &'static str) -> (k: Self) {
        Self::Str(s)
    }
}

impl vstd::std_specs::convert::FromSpecImpl<&'static str> for TileKey {
    open spec fn obeys_from_spec() -> bool {
        true
    }

    open spec fn from_spec(s: &'static str) -> Self {
        TileKey::Str(s)
    }
}

impl TileKey {
    /// The key of the tile of the character `c`.
    pub fn from_char(c: char) -> (k: Self)
        ensures
            k == TileKey::Char(c),
    {
        TileKey::Char(c)
    }

    /// The key of the tile named `s`.
    pub fn from_name(s: &'static str) -> (k: Self)
        ensures
            k == TileKey::Str(s),
    {
        TileKey::Str(s)
    }

    /// The characters of the key.
    pub fn chars(&self) -> (r: Vec<char>)
        ensures
            r@ == self@,
    {
        match self {
            TileKey::Char(c) => {
                let mut r: Vec<char> = Vec::new();
                r.push(*c);
                assert(r@ =~= seq![*c]);
                r
            },
            TileKey::Str(s) => {
                let n = s.unicode_len();
                let mut r: Vec<char> = Vec::new();
                let mut i: usize = 0;
                while i < n
                    invariant
                        i <= n,
                        n == s@.len(),
                        r@ == s@.subrange(0, i as int),
                    decreases n - i,
                {
                    r.push(s.get_char(i));
                    assert(r@ =~= s@.subrange(0, i + 1));
                    i = i + 1;
                }
                assert(r@ =~= s@);
                r
            },
        }
    }
}

fn same_chars(a: &Vec<char>, b: &Vec<char>) -> (r: bool)
    ensures
        r == (a@ == b@),
{
    if a.len() != b.len() {
        return false;
    }
    let mut i: usize = 0;
    while i < a.len()
        invariant
            i <= a@.len(),
            a@.len() == b@.len(),
            forall|k: int| 0 <= k < i ==> a@[k] == b@[k],
        decreases a@.len() - i,
    {
        if a[i] != b[i] {
            return false;
        }
        i = i + 1;
    }
    assert(a@ =~= b@);
    true
}

/// A tile of a sheet under its key.
pub struct SheetEntry {
    pub key: Vec<char>,
    pub data: SpriteData,
}

/// The tiles of a font, each under its key.
pub struct SpriteSheet {
    pub sprites: Vec<SheetEntry>,
}

impl SpriteSheet {
    /// No key occurs twice, and every tile is a well-formed sprite.
    pub open spec fn wf(&self) -> bool {
        &&& forall|i: int, j: int|
            0 <= i < j < self.sprites@.len() ==> (#[trigger] self.sprites@[i]).key@ != (
            #[trigger] self.sprites@[j]).key@
        &&& forall|i: int| 0 <= i < self.sprites@.len() ==> (#[trigger] self.sprites@[i]).data.wf()
    }

    /// Where the tile of `key` stands in the sheet, if it has one.
    pub open spec fn index_of(&self, key: Seq<char>) -> Option<int> {
        if exists|i: int| 0 <= i < self.sprites@.len() && (#[trigger] self.sprites@[i]).key@ == key {
            Some(
                choose|i: int|
                    0 <= i < self.sprites@.len() && (#[trigger] self.sprites@[i]).key@ == key,
            )
        } else {
            None
        }
    }

    /// Whether the sheet has a tile of `key`.
    pub open spec fn has(&self, key: Seq<char>) -> bool {
        self.index_of(key) is Some
    }

    /// The tile of `key`, which the sheet has.
    pub open spec fn sprite(&self, key: Seq<char>) -> SpriteData {
        self.sprites@[self.index_of(key)->0].data
    }

    /// In a well-formed sheet the entry that holds a key is the one that
    /// `index_of` gives.
    pub proof fn lemma_index_of(&self, i: int)
        requires
            self.wf(),
            0 <= i < self.sprites@.len(),
        ensures
            self.index_of(self.sprites@[i].key@) == Some(i),
    {
        let key = self.sprites@[i].key@;
        let j = self.index_of(key)->0;
        if j < i {
            assert(self.sprites@[j].key@ != self.sprites@[i].key@);
        } else if i < j {
            assert(self.sprites@[i].key@ != self.sprites@[j].key@);
        }
    }

    /// A sheet with no tile.
    pub fn new() -> (s: Self)
        ensures
            s.wf(),
            s.sprites@.len() == 0,
    {
        SpriteSheet { sprites: Vec::new() }
    }

    fn position(&self, key: &Vec<char>) -> (r: Option<usize>)
        requires
            self.wf(),
        ensures
            match r {
                Some(i) => self.index_of(key@) == Some(i as int) && i < self.sprites@.len(),
                None => self.index_of(key@) is None,
            },
    {
        let mut i: usize = 0;
        while i < self.sprites.len()
            invariant
                i <= self.sprites@.len(),
                self.wf(),
                forall|k: int| 0 <= k < i ==> (#[trigger] self.sprites@[k]).key@ != key@,
            decreases self.sprites@.len() - i,
        {
            if same_chars(&self.sprites[i].key, key) {
                proof {
                    self.lemma_index_of(i as int);
                }
                return Some(i);
            }
            i = i + 1;
        }
        None
    }

    pub fn get_sprite_data(&self, tile: TileKey) -> (r: Option<&SpriteData>)
        requires
            self.wf(),
        ensures
            r is Some <==> self.has(tile@),
            r matches Some(data) ==> *data == self.sprite(tile@) && data.wf(),
    {
        let key = tile.chars();
        match self.position(&key) {
            Some(i) => Some(&self.sprites[i].data),
            None => None,
        }
    }

    /// Puts `data` into the sheet as the tile of `tile`, in place of the
    /// tile that the key had, if it had one.
    pub fn insert_sprite(&mut self, tile: TileKey, data: SpriteData)
        requires
            old(self).wf(),
            data.wf(),
        ensures
            final(self).wf(),
            final(self).has(tile@),
            final(self).sprite(tile@) == data,
            forall|key: Seq<char>|
                key != tile@ ==> final(self).has(key) == old(self).has(key) && (old(self).has(key)
                    ==> final(self).sprite(key) == old(self).sprite(key)),
    {
        let key = tile.chars();
        let ghost before = *self;
        match self.position(&key) {
            Some(i) => {
                self.sprites[i] = SheetEntry { key, data };
                proof {
                    assert(self.wf()) by {
                        assert forall|a: int, b: int|
                            0 <= a < b < self.sprites@.len() implies (
                        #[trigger] self.sprites@[a]).key@ != (#[trigger] self.sprites@[b]).key@ by {
                            assert(self.sprites@[a].key@ == before.sprites@[a].key@);
                            assert(self.sprites@[b].key@ == before.sprites@[b].key@);
                        }
                    }
                    self.lemma_index_of(i as int);
                    assert forall|k: Seq<char>| k != tile@ implies self.has(k) == before.has(k)
                        && (before.has(k) ==> self.sprite(k) == before.sprite(k)) by {
                        if before.has(k) {
                            let j = before.index_of(k)->0;
                            assert(self.sprites@[j] == before.sprites@[j]);
                            self.lemma_index_of(j);
                        }
                        if self.has(k) {
                            let j = self.index_of(k)->0;
                            assert(self.sprites@[j] == before.sprites@[j]);
                        }
                    }
                }
            },
            None => {
                self.sprites.push(SheetEntry { key, data });
                proof {
                    let n = before.sprites@.len() as int;
                    assert(self.wf()) by {
                        assert forall|a: int, b: int|
                            0 <= a < b < self.sprites@.len() implies (
                        #[trigger] self.sprites@[a]).key@ != (#[trigger] self.sprites@[b]).key@ by {
                            assert(self.sprites@[a] == before.sprites@[a]);
                            if b < n {
                                assert(self.sprites@[b] == before.sprites@[b]);
                            }
                        }
                        assert forall|a: int| 0 <= a < self.sprites@.len() implies (
                        #[trigger] self.sprites@[a]).data.wf() by {
                            if a < n {
                                assert(self.sprites@[a] == before.sprites@[a]);
                            }
                        }
                    }
                    self.lemma_index_of(n);
                    assert forall|k: Seq<char>| k != tile@ implies self.has(k) == before.has(k)
                        && (before.has(k) ==> self.sprite(k) == before.sprite(k)) by {
                        if before.has(k) {
                            let j = before.index_of(k)->0;
                            assert(self.sprites@[j] == before.sprites@[j]);
                            self.lemma_index_of(j);
                        }
                        if self.has(k) {
                            let j = self.index_of(k)->0;
                            assert(j < n);
                            assert(self.sprites@[j] == before.sprites@[j]);
                        }
                    }
                }
            },
        }
    }
}

/// Whether the cursor has gone past column `x` of row `y`.
pub open spec fn passed_by(it: PointIterator<Pixels>, x: int, y: int) -> bool {
    y < it.i.y || (y == it.i.y && x < it.i.x)
}

/// Whether the tile `data`, drawn with its corner at `origin`, has ink at
/// the point `q` of the grid.
pub open spec fn tile_ink(data: SpriteData, origin: Point2D<Pixels>, q: Point2D<Pixels>) -> bool {
    data.ink_at(q.x - origin.x, q.y - origin.y)
}

/// Whether every point where the tile has ink, drawn with its corner at
/// `origin`, is a pixel of the grid.
pub open spec fn tile_fits(data: SpriteData, origin: Point2D<Pixels>) -> bool {
    forall|x: int, y: int| #[trigger]
        data.ink_at(x, y) ==> 0 <= origin.x + x < RENDER_WIDTH && 0 <= origin.y + y < RENDER_HEIGHT
}

/// Whether every point where the tile has ink, drawn with its corner at
/// `origin`, is a pixel of the grid.
pub fn tile_fits_at(data: &SpriteData, origin: Point2D<Pixels>) -> (b: bool)
    requires
        data.wf(),
    ensures
        b == tile_fits(*data, origin),
{
    let mut it = data.size.point_iter();
    loop
        invariant
            data.wf(),
            it.wf(),
            it.rect == data.size.as_rect(),
            forall|x: int, y: int|
                passed_by(it, x, y) && #[trigger] data.ink_at(x, y) ==> 0 <= origin.x + x
                    < RENDER_WIDTH && 0 <= origin.y + y < RENDER_HEIGHT,
        decreases it.rows_left(), it.cols_left(),
    {
        let ghost before_it = it;
        match it.next() {
            None => {
                proof {
                    assert forall|x: int, y: int| #[trigger] data.ink_at(x, y) implies 0
                        <= origin.x + x < RENDER_WIDTH && 0 <= origin.y + y < RENDER_HEIGHT by {
                        assert(passed_by(it, x, y));
                    }
                }
                return true;
            },
            Some(tp) => {
                if data.get_pixel(tp) == PalletColor::Color2 {
                    let x = origin.x as i64 + tp.x as i64;
                    let y = origin.y as i64 + tp.y as i64;
                    if x < 0 || x >= RENDER_WIDTH as i64 || y < 0 || y >= RENDER_HEIGHT as i64 {
                        assert(data.ink_at(tp.x as int, tp.y as int));
                        return false;
                    }
                }
                proof {
                    assert forall|x: int, y: int|
                        passed_by(it, x, y) && #[trigger] data.ink_at(x, y) implies 0 <= origin.x
                        + x < RENDER_WIDTH && 0 <= origin.y + y < RENDER_HEIGHT by {
                        assert(passed_by(before_it, x, y) || (x == tp.x && y == tp.y));
                    }
                }
            },
        }
    }
}

impl SpriteSheet {
    /// Draws the tile of `tile` with its corner at `p`: the points where the
    /// tile holds the ink index are painted `color`. Returns the size of
    /// the tile.
    pub fn draw_tile(
        &self,
        tile: TileKey,
        p: Point2D<Pixels>,
        color: Color,
        renderer: &mut CanvasRenderer,
    ) -> (size: Size2D<Pixels>)
        requires
            self.wf(),
            self.has(tile@),
            old(renderer).wf(),
            tile_fits(self.sprite(tile@), p),
        ensures
            final(renderer).wf(),
            size == self.sprite(tile@).size,
            painted(
                old(renderer)@,
                final(renderer)@,
                |q: Point2D<Pixels>| tile_ink(self.sprite(tile@), p, q),
                color,
            ),
    {
        let found = self.get_sprite_data(tile);
        let data = match found {
            Some(data) => data,
            None => {
                proof {
                    assert(false);
                }
                return Size2D::new(0, 0);
            },
        };
        let ghost sprite = self.sprite(tile@);
        let mut it = data.size.point_iter();
        loop
            invariant
                it.wf(),
                it.rect == sprite.size.as_rect(),
                *data == sprite,
                sprite.wf(),
                tile_fits(sprite, p),
                renderer.wf(),
                painted(
                    old(renderer)@,
                    renderer@,
                    |q: Point2D<Pixels>| tile_ink(sprite, p, q) && passed_by(it, q.x - p.x, q.y - p.y),
                    color,
                ),
            ensures
                renderer.wf(),
                painted(
                    old(renderer)@,
                    renderer@,
                    |q: Point2D<Pixels>| tile_ink(sprite, p, q),
                    color,
                ),
            decreases it.rows_left(), it.cols_left(),
        {
            let ghost before_it = it;
            let ghost canvas = renderer@;
            match it.next() {
                None => {
                    proof {
                        assert forall|q: Point2D<Pixels>|
                            #![trigger color_at(renderer@, q)]
                            #![trigger alpha_at(renderer@, q)]
                            render_rect().contains_point(q) implies if tile_ink(sprite, p, q) {
                            color_at(renderer@, q) == color && alpha_at(renderer@, q) == 255
                        } else {
                            color_at(renderer@, q) == color_at(old(renderer)@, q) && alpha_at(
                                renderer@,
                                q,
                            ) == alpha_at(old(renderer)@, q)
                        } by {
                            if tile_ink(sprite, p, q) {
                                assert(passed_by(it, q.x - p.x, q.y - p.y));
                            }
                        }
                    }
                    break ;
                },
                Some(tile_pixel) => {
                    let pixel = data.get_pixel(tile_pixel);
                    if pixel == PalletColor::Color2 {
                        assert(sprite.ink_at(tile_pixel.x as int, tile_pixel.y as int));
                        let at = Point2D::new(p.x + tile_pixel.x, p.y + tile_pixel.y);
                        renderer.color_pixel(at, color);
                        proof {
                            assert forall|q: Point2D<Pixels>|
                                #![trigger color_at(renderer@, q)]
                                #![trigger alpha_at(renderer@, q)]
                                render_rect().contains_point(q) implies if tile_ink(sprite, p, q)
                                && passed_by(it, q.x - p.x, q.y - p.y) {
                                color_at(renderer@, q) == color && alpha_at(renderer@, q) == 255
                            } else {
                                color_at(renderer@, q) == color_at(old(renderer)@, q) && alpha_at(
                                    renderer@,
                                    q,
                                ) == alpha_at(old(renderer)@, q)
                            } by {
                                lemma_with_pixel(canvas, at, color, q);
                                let _ = color_at(canvas, q);
                                let _ = alpha_at(canvas, q);
                                assert(passed_by(before_it, q.x - p.x, q.y - p.y) || q == at
                                    || !passed_by(it, q.x - p.x, q.y - p.y) || !tile_ink(
                                    sprite,
                                    p,
                                    q,
                                ));
                            }
                        }
                    } else {
                        proof {
                            assert forall|q: Point2D<Pixels>|
                                #![trigger color_at(renderer@, q)]
                                #![trigger alpha_at(renderer@, q)]
                                render_rect().contains_point(q) implies if tile_ink(sprite, p, q)
                                && passed_by(it, q.x - p.x, q.y - p.y) {
                                color_at(renderer@, q) == color && alpha_at(renderer@, q) == 255
                            } else {
                                color_at(renderer@, q) == color_at(old(renderer)@, q) && alpha_at(
                                    renderer@,
                                    q,
                                ) == alpha_at(old(renderer)@, q)
                            } by {
                                let _ = color_at(canvas, q);
                                let _ = alpha_at(canvas, q);
                                assert(passed_by(before_it, q.x - p.x, q.y - p.y) || !passed_by(
                                    it,
                                    q.x - p.x,
                                    q.y - p.y,
                                ) || !tile_ink(sprite, p, q));
                            }
                        }
                    }
                },
            }
        }
        data.size
    }
}

/// What the drawing code needs besides the sprites: the font.
pub struct Assets {
    pub font: SpriteSheet,
}

impl Assets {
    /// The font is a well-formed sheet.
    pub open spec fn wf(&self) -> bool {
        self.font.wf()
    }

    /// The assets with `font` as their font.
    pub fn new(font: SpriteSheet) -> (a: Self)
        ensures
            a.font == font,
    {
        Assets { font }
    }
}

/// Something that can be drawn into the framebuffer in one colour.
pub trait Sprite {
    /// Whether the sprite can be drawn at `bounds`: its tiles are in the
    /// font and its ink stays on the grid.
    spec fn drawable(&self, bounds: Bounds, assets: &Assets) -> bool;

    /// Whether the sprite, drawn at `bounds`, has ink at `q`.
    spec fn ink(&self, bounds: Bounds, assets: &Assets, q: Point2D<Pixels>) -> bool;

    /// The colour of the sprite's ink.
    spec fn ink_color(&self) -> Color;

    /// Whether the sprite can be drawn at `bounds`.
    fn can_draw(&self, bounds: &Bounds, assets: &Assets) -> (b: bool)
        requires
            assets.wf(),
        ensures
            b == self.drawable(*bounds, assets),
    ;

    /// Paints the sprite's ink, and nothing else.
    fn draw(&self, bounds: &Bounds, assets: &Assets, renderer: &mut CanvasRenderer)
        requires
            old(renderer).wf(),
            assets.wf(),
            self.drawable(*bounds, assets),
        ensures
            final(renderer).wf(),
            painted(
                old(renderer)@,
                final(renderer)@,
                |q: Point2D<Pixels>| self.ink(*bounds, assets, q),
                self.ink_color(),
            ),
    ;
}

/// One tile in one colour.
#[derive(Clone, Copy, Debug)]
pub struct SimpleSprite {
    pub tile: TileKey,
    pub color: Color,
}

impl Sprite for SimpleSprite {
    open spec fn drawable(&self, bounds: Bounds, assets: &Assets) -> bool {
        &&& assets.font.has(self.tile@)
        &&& tile_fits(assets.font.sprite(self.tile@), bounds.0.origin)
    }

    fn can_draw(&self, bounds: &Bounds, assets: &Assets) -> (b: bool) {
        match assets.font.get_sprite_data(self.tile) {
            Some(data) => tile_fits_at(data, bounds.0.origin),
            None => false,
        }
    }

    open spec fn ink(&self, bounds: Bounds, assets: &Assets, q: Point2D<Pixels>) -> bool {
        tile_ink(assets.font.sprite(self.tile@), bounds.0.origin, q)
    }

    open spec fn ink_color(&self) -> Color {
        self.color
    }

    fn draw(&self, bounds: &Bounds, assets: &Assets, renderer: &mut CanvasRenderer) {
        assets.font.draw_tile(self.tile, bounds.0.origin, self.color, renderer);
        assert(painted(
            old(renderer)@,
            renderer@,
            |q: Point2D<Pixels>| self.ink(*bounds, assets, q),
            self.ink_color(),
        ));
    }
}

/// A line of text in one colour.
#[derive(Debug)]
pub struct TextBox {
    pub text: String,
    pub color: Color,
}

/// The column at which glyph `k` of `text` starts, when the text starts at
/// column `start`: each glyph before it has moved the cursor on by its
/// width.
pub open spec fn text_cursor(font: &SpriteSheet, text: Seq<char>, start: int, k: nat) -> int
    decreases k,
{
    if k == 0 {
        start
    } else {
        text_cursor(font, text, start, (k - 1) as nat) + font.sprite(
            seq![text[k - 1]],
        ).size.width
    }
}

/// Whether one of the first `k` glyphs of `text`, drawn from `origin` on,
/// has ink at `q`.
pub open spec fn text_ink(
    font: &SpriteSheet,
    text: Seq<char>,
    origin: Point2D<Pixels>,
    k: nat,
    q: Point2D<Pixels>,
) -> bool
    decreases k,
{
    if k == 0 {
        false
    } else {
        text_ink(font, text, origin, (k - 1) as nat, q) || tile_ink(
            font.sprite(seq![text[k - 1]]),
            Point2D::at(text_cursor(font, text, origin.x as int, (k - 1) as nat), origin.y as int),
            q,
        )
    }
}

/// Whether glyph `k` of `text` can be drawn, the text starting at `origin`:
/// the font has a tile for the character, the cursor is a machine integer
/// before and after the glyph, and the glyph's ink stays on the grid.
pub open spec fn glyph_fits(
    font: &SpriteSheet,
    text: Seq<char>,
    origin: Point2D<Pixels>,
    k: nat,
) -> bool {
    &&& font.has(seq![text[k as int]])
    &&& i32::MIN <= text_cursor(font, text, origin.x as int, k) <= i32::MAX
    &&& i32::MIN <= text_cursor(font, text, origin.x as int, k + 1) <= i32::MAX
    &&& tile_fits(
        font.sprite(seq![text[k as int]]),
        Point2D::at(text_cursor(font, text, origin.x as int, k), origin.y as int),
    )
}

/// Whether `text` can be drawn from `origin` on: each of its glyphs can.
pub open spec fn text_fits(font: &SpriteSheet, text: Seq<char>, origin: Point2D<Pixels>) -> bool {
    forall|k: nat| k < text.len() ==> #[trigger] glyph_fits(font, text, origin, k)
}

impl TextBox {
    pub fn new(text: String, color: Color) -> (t: Self)
        ensures
            t.text == text,
            t.color == color,
    {
        TextBox { text, color }
    }

    /// A text box with the place it takes: a hundred pixels wide and ten
    /// high, with its corner at `pos`.
    pub fn spawn(text: String, pos: Point2D<Pixels>, color: Color) -> (r: (TextBox, Bounds))
        ensures
            r.0.text == text,
            r.0.color == color,
            r.1.0.origin == pos,
            r.1.0.size == Size2D::<Pixels>::of(100, 10),
    {
        (TextBox::new(text, color), Bounds(Rect::new(pos, Size2D::new(100, 10))))
    }
}

impl Sprite for TextBox {
    open spec fn drawable(&self, bounds: Bounds, assets: &Assets) -> bool {
        text_fits(&assets.font, self.text@, bounds.0.origin)
    }

    fn can_draw(&self, bounds: &Bounds, assets: &Assets) -> (b: bool) {
        let text = self.text.as_str();
        let n = text.unicode_len();
        let mut x: i32 = bounds.0.origin.x;
        let mut k: usize = 0;
        while k < n
            invariant
                k <= n,
                n == self.text@.len(),
                text@ == self.text@,
                assets.wf(),
                x == text_cursor(&assets.font, self.text@, bounds.0.origin.x as int, k as nat),
                forall|j: nat|
                    j < k ==> #[trigger] glyph_fits(&assets.font, self.text@, bounds.0.origin, j),
            decreases n - k,
        {
            let c = text.get_char(k);
            assert(TileKey::Char(c)@ == seq![self.text@[k as int]]);
            let ghost key = seq![self.text@[k as int]];
            let data = match assets.font.get_sprite_data(TileKey::Char(c)) {
                Some(data) => data,
                None => {
                    assert(!glyph_fits(&assets.font, self.text@, bounds.0.origin, k as nat));
                    return false;
                },
            };
            if !tile_fits_at(data, Point2D::new(x, bounds.0.origin.y)) {
                assert(!glyph_fits(&assets.font, self.text@, bounds.0.origin, k as nat));
                return false;
            }
            let next = match x.checked_add(data.size.width) {
                Some(next) => next,
                None => {
                    assert(!glyph_fits(&assets.font, self.text@, bounds.0.origin, k as nat));
                    return false;
                },
            };
            assert(glyph_fits(&assets.font, self.text@, bounds.0.origin, k as nat));
            x = next;
            k = k + 1;
        }
        true
    }

    open spec fn ink(&self, bounds: Bounds, assets: &Assets, q: Point2D<Pixels>) -> bool {
        text_ink(&assets.font, self.text@, bounds.0.origin, self.text@.len(), q)
    }

    open spec fn ink_color(&self) -> Color {
        self.color
    }

    /// Draws the glyphs of the text from left to right, each where the one
    /// before it ends.
    fn draw(&self, bounds: &Bounds, assets: &Assets, renderer: &mut CanvasRenderer) {
        let mut p = bounds.0.origin;
        let text = self.text.as_str();
        let n = text.unicode_len();
        let mut k: usize = 0;
        while k < n
            invariant
                k <= n,
                n == self.text@.len(),
                text@ == self.text@,
                assets.font.wf(),
                text_fits(&assets.font, self.text@, bounds.0.origin),
                renderer.wf(),
                p.y == bounds.0.origin.y,
                p.x == text_cursor(&assets.font, self.text@, bounds.0.origin.x as int, k as nat),
                painted(
                    old(renderer)@,
                    renderer@,
                    |q: Point2D<Pixels>|
                        text_ink(&assets.font, self.text@, bounds.0.origin, k as nat, q),
                    self.color,
                ),
            decreases n - k,
        {
            let c = text.get_char(k);
            let ghost canvas = renderer@;
            assert(glyph_fits(&assets.font, self.text@, bounds.0.origin, k as nat));
            assert(TileKey::Char(c)@ == seq![self.text@[k as int]]);
            assert(p == Point2D::<Pixels>::at(
                text_cursor(&assets.font, self.text@, bounds.0.origin.x as int, k as nat),
                bounds.0.origin.y as int,
            ));
            let size = assets.font.draw_tile(TileKey::Char(c), p, self.color, renderer);
            proof {
                let glyph = assets.font.sprite(seq![self.text@[k as int]]);
                lemma_painted_twice(
                    old(renderer)@,
                    canvas,
                    renderer@,
                    |q: Point2D<Pixels>|
                        text_ink(&assets.font, self.text@, bounds.0.origin, k as nat, q),
                    |q: Point2D<Pixels>| tile_ink(assets.font.sprite(TileKey::Char(c)@), p, q),
                    |q: Point2D<Pixels>|
                        text_ink(&assets.font, self.text@, bounds.0.origin, (k + 1) as nat, q),
                    self.color,
                );
            }
            p.x = p.x + size.width;
            k = k + 1;
        }
    }
}

/// The colour of the background: the first of the pallet.
pub open spec fn background() -> Color {
    pallet(0)
}

/// What a filled rectangle paints: its points.
pub open spec fn rect_ink(rect: Rect<Pixels>, q: Point2D<Pixels>) -> bool {
    rect.contains_point(q)
}

/// Paints the pixels of the grid that lie in `rect`.
pub fn fill_rect(rect: &Rect<Pixels>, color: Color, renderer: &mut CanvasRenderer)
    requires
        old(renderer).wf(),
        rect.fits(),
    ensures
        final(renderer).wf(),
        painted(old(renderer)@, final(renderer)@, |q: Point2D<Pixels>| rect_ink(*rect, q), color),
{
    let grid = render_rect_exec();
    let mut it = rect.point_iter();
    loop
        invariant
            it.wf(),
            it.rect == *rect,
            grid == render_rect(),
            renderer.wf(),
            painted(
                old(renderer)@,
                renderer@,
                |q: Point2D<Pixels>| rect_ink(*rect, q) && it.passed(q),
                color,
            ),
        ensures
            renderer.wf(),
            painted(old(renderer)@, renderer@, |q: Point2D<Pixels>| rect_ink(*rect, q), color),
        decreases it.rows_left(), it.cols_left(),
    {
        let ghost before_it = it;
        let ghost canvas = renderer@;
        match it.next() {
            None => {
                proof {
                    assert forall|q: Point2D<Pixels>|
                        #![trigger color_at(renderer@, q)]
                        #![trigger alpha_at(renderer@, q)]
                        render_rect().contains_point(q) implies if rect_ink(*rect, q) {
                        color_at(renderer@, q) == color && alpha_at(renderer@, q) == 255
                    } else {
                        color_at(renderer@, q) == color_at(old(renderer)@, q) && alpha_at(
                            renderer@,
                            q,
                        ) == alpha_at(old(renderer)@, q)
                    } by {
                        if rect_ink(*rect, q) {
                            assert(it.passed(q));
                        }
                    }
                }
                break ;
            },
            Some(p) => {
                if grid.contains(p) {
                    renderer.color_pixel(p, color);
                    proof {
                        assert forall|q: Point2D<Pixels>|
                            #![trigger color_at(renderer@, q)]
                            #![trigger alpha_at(renderer@, q)]
                            render_rect().contains_point(q) implies if rect_ink(*rect, q)
                            && it.passed(q) {
                            color_at(renderer@, q) == color && alpha_at(renderer@, q) == 255
                        } else {
                            color_at(renderer@, q) == color_at(old(renderer)@, q) && alpha_at(
                                renderer@,
                                q,
                            ) == alpha_at(old(renderer)@, q)
                        } by {
                            lemma_with_pixel(canvas, p, color, q);
                            let _ = color_at(canvas, q);
                            let _ = alpha_at(canvas, q);
                            assert(before_it.passed(q) || q == p || !it.passed(q) || !rect_ink(
                                *rect,
                                q,
                            ));
                        }
                    }
                } else {
                    proof {
                        assert forall|q: Point2D<Pixels>|
                            #![trigger color_at(renderer@, q)]
                            #![trigger alpha_at(renderer@, q)]
                            render_rect().contains_point(q) implies if rect_ink(*rect, q)
                            && it.passed(q) {
                            color_at(renderer@, q) == color && alpha_at(renderer@, q) == 255
                        } else {
                            color_at(renderer@, q) == color_at(old(renderer)@, q) && alpha_at(
                                renderer@,
                                q,
                            ) == alpha_at(old(renderer)@, q)
                        } by {
                            let _ = color_at(canvas, q);
                            let _ = alpha_at(canvas, q);
                            assert(before_it.passed(q) || q == p || !it.passed(q) || !rect_ink(
                                *rect,
                                q,
                            ));
                        }
                    }
                }
            },
        }
    }
}

/// Paints the whole grid in the background colour.
pub fn draw_background(renderer: &mut CanvasRenderer)
    requires
        old(renderer).wf(),
    ensures
        final(renderer).wf(),
        forall|q: Point2D<Pixels>|
            #![trigger color_at(final(renderer)@, q)]
            #![trigger alpha_at(final(renderer)@, q)]
            render_rect().contains_point(q) ==> color_at(final(renderer)@, q) == background()
                && alpha_at(final(renderer)@, q) == 255,
{
    let grid = render_rect_exec();
    fill_rect(&grid, pallet_color(0), renderer);
}

/// The colour and opacity that the pixel `q` has once the first `k` of the
/// sprites were drawn, in order, over a pixel that showed `under`: those of
/// the last of them with ink at `q`, else what was there.
pub open spec fn layered<S: Sprite>(
    under: (Color, u8),
    sprites: Seq<Entity<S>>,
    assets: &Assets,
    k: nat,
    q: Point2D<Pixels>,
) -> (Color, u8)
    decreases k,
{
    if k == 0 {
        under
    } else if sprites[k - 1].sprite.ink(sprites[k - 1].bounds, assets, q) {
        (sprites[k - 1].sprite.ink_color(), 255u8)
    } else {
        layered(under, sprites, assets, (k - 1) as nat, q)
    }
}

/// Whether each of the sprites can be drawn at its bounds.
pub open spec fn all_drawable<S: Sprite>(sprites: Seq<Entity<S>>, assets: &Assets) -> bool {
    forall|i: int|
        0 <= i < sprites.len() ==> (#[trigger] sprites[i]).sprite.drawable(
            sprites[i].bounds,
            assets,
        )
}

/// Whether each of the sprites can be drawn at its bounds.
pub fn can_draw_sprites<S: Sprite>(assets: &Assets, sprites: &Vec<Entity<S>>) -> (b: bool)
    requires
        assets.wf(),
    ensures
        b == all_drawable(sprites@, assets),
{
    let mut n: usize = 0;
    while n < sprites.len()
        invariant
            n <= sprites@.len(),
            assets.wf(),
            forall|i: int|
                0 <= i < n ==> (#[trigger] sprites@[i]).sprite.drawable(sprites@[i].bounds, assets),
        decreases sprites@.len() - n,
    {
        if !sprites[n].sprite.can_draw(&sprites[n].bounds, assets) {
            return false;
        }
        n = n + 1;
    }
    true
}

/// Draws the sprites in order, each at its bounds, later ones over earlier
/// ones.
pub fn draw_sprites<S: Sprite>(
    assets: &Assets,
    renderer: &mut CanvasRenderer,
    sprites: &Vec<Entity<S>>,
)
    requires
        old(renderer).wf(),
        assets.wf(),
        all_drawable(sprites@, assets),
    ensures
        final(renderer).wf(),
        forall|q: Point2D<Pixels>|
            #![trigger color_at(final(renderer)@, q)]
            #![trigger alpha_at(final(renderer)@, q)]
            render_rect().contains_point(q) ==> (
            color_at(final(renderer)@, q),
            alpha_at(final(renderer)@, q),
        ) == layered(
            (color_at(old(renderer)@, q), alpha_at(old(renderer)@, q)),
            sprites@,
            assets,
            sprites@.len(),
            q,
        ),
{
    let mut n: usize = 0;
    while n < sprites.len()
        invariant
            n <= sprites@.len(),
            renderer.wf(),
            assets.wf(),
            all_drawable(sprites@, assets),
            forall|q: Point2D<Pixels>|
                #![trigger color_at(renderer@, q)]
                #![trigger alpha_at(renderer@, q)]
                render_rect().contains_point(q) ==> (color_at(renderer@, q), alpha_at(renderer@, q))
                    == layered(
                    (color_at(old(renderer)@, q), alpha_at(old(renderer)@, q)),
                    sprites@,
                    assets,
                    n as nat,
                    q,
                ),
        decreases sprites@.len() - n,
    {
        let ghost canvas = renderer@;
        assert(sprites@[n as int].sprite.drawable(sprites@[n as int].bounds, assets));
        sprites[n].sprite.draw(&sprites[n].bounds, assets, renderer);
        proof {
            assert forall|q: Point2D<Pixels>|
                #![trigger color_at(renderer@, q)]
                #![trigger alpha_at(renderer@, q)]
                render_rect().contains_point(q) implies (
                color_at(renderer@, q),
                alpha_at(renderer@, q),
            ) == layered(
                (color_at(old(renderer)@, q), alpha_at(old(renderer)@, q)),
                sprites@,
                assets,
                (n + 1) as nat,
                q,
            ) by {
                let _ = color_at(canvas, q);
                let _ = alpha_at(canvas, q);
            }
        }
        n = n + 1;
    }
}

} // verus!
