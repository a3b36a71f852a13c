//! A small demonstration of the framebuffer: squares that drift across a
//! shaded background.

use vstd::prelude::*;
use crate::geometry::{Point2D, Rect, Size2D, Vector2D};
use crate::hash::{fnv1a, hash_u64, le_bytes};
use crate::renderer::{
    alpha_at,
    color_at,
    lemma_with_pixel,
    render_rect,
    render_rect_exec,
    CanvasRenderer,
    Color,
    Pixels,
    RENDER_HEIGHT,
    RENDER_WIDTH,
};

verus! {

/// What a tick adds to the counter.
pub const COUNTER_STEP: u64 = 13;

/// A square that drifts.
#[derive(Clone, Copy, Debug, PartialEq, Eq, Hash)]
pub struct Object {
    pub rect: Rect<Pixels>,
    pub velocity: Vector2D<Pixels>,
    pub color: Color,
}

/// The program: the framebuffer, the squares, and a counter that gives
/// each new square its colour.
pub struct Program {
    pub renderer: CanvasRenderer,
    pub objects: Vec<Object>,
    pub counter: u64,
}

/// The colour of a square that is made when the counter shows `counter`:
/// the three lowest bytes of the hash of the counter.
pub open spec fn object_color(counter: u64) -> Color {
    Color {
        r: (fnv1a(le_bytes(counter)) & 0xff) as u8,
        g: (fnv1a(le_bytes(counter)) >> 8u64 & 0xff) as u8,
        b: (fnv1a(le_bytes(counter)) >> 16u64 & 0xff) as u8,
    }
}

/// The square that is made when the counter shows `counter`: ten pixels
/// square, at the origin, drifting down and to the right.
pub open spec fn new_object(counter: u64) -> Object {
    Object {
        rect: Rect { origin: Point2D::at(0, 0), size: Size2D::of(10, 10) },
        velocity: Vector2D::of(1, 1),
        color: object_color(counter),
    }
}

/// The colour of the background at `p`: its column in red and blue, its
/// row in green, each cut to a byte.
pub open spec fn backdrop(p: Point2D<Pixels>) -> Color {
    Color { r: (p.x % 256) as u8, g: (p.y % 256) as u8, b: (p.x % 256) as u8 }
}

/// The colour that the program shows at `p`: that of the first of the
/// first `k` squares that holds `p`, else the background.
pub open spec fn shade(objects: Seq<Object>, k: nat, p: Point2D<Pixels>) -> Color
    decreases k,
{
    if k == 0 {
        backdrop(p)
    } else if exists|i: int| 0 <= i < k - 1 && (#[trigger] objects[i]).rect.contains_point(p) {
        shade(objects, (k - 1) as nat, p)
    } else if objects[k - 1].rect.contains_point(p) {
        objects[k - 1].color
    } else {
        backdrop(p)
    }
}

impl Object {
    /// Coordinates, speeds and sizes lie within a distance of zero that
    /// lets a tick form its sums.
    pub open spec fn steppable(self) -> bool {
        &&& -0x1000_0000 <= self.rect.origin.x <= 0x1000_0000
        &&& -0x1000_0000 <= self.rect.origin.y <= 0x1000_0000
        &&& -0x1000_0000 <= self.rect.size.width <= 0x1000_0000
        &&& -0x1000_0000 <= self.rect.size.height <= 0x1000_0000
        &&& -0x1000_0000 <= self.velocity.x <= 0x1000_0000
        &&& -0x1000_0000 <= self.velocity.y <= 0x1000_0000
    }

    /// The square one tick later: moved by its velocity, its vertical
    /// speed turned round at the ceiling and below the ground, and put
    /// back to the left of the grid once it shares no pixel with it.
    pub open spec fn ticked(self) -> Object {
        let x = self.rect.origin.x + self.velocity.x;
        let y = self.rect.origin.y + self.velocity.y;
        let vy = if y <= 0 || y + self.rect.size.height > RENDER_HEIGHT {
            -self.velocity.y
        } else {
            self.velocity.y as int
        };
        let moved = Rect { origin: Point2D::<Pixels>::at(x, y), size: self.rect.size };
        let x2 = if render_rect().overlaps(moved) {
            x
        } else {
            -self.rect.size.width
        };
        Object {
            rect: Rect { origin: Point2D::at(x2, y), size: self.rect.size },
            velocity: Vector2D::of(self.velocity.x as int, vy),
            color: self.color,
        }
    }

    /// One tick of the square.
    pub fn tick(&mut self)
        requires
            old(self).steppable(),
        ensures
            *final(self) == old(self).ticked(),
    {
        self.rect.origin.x = self.rect.origin.x + self.velocity.x;
        self.rect.origin.y = self.rect.origin.y + self.velocity.y;
        if self.rect.origin.y <= 0 || self.rect.origin.y + self.rect.size.height > RENDER_HEIGHT {
            self.velocity.y = -self.velocity.y;
        }
        let grid = render_rect_exec();
        if !grid.intersects(&self.rect) {
            self.rect.origin.x = -self.rect.size.width;
        }
    }
}

impl Program {
    /// The framebuffer is well-formed and every square can be stepped.
    pub open spec fn wf(&self) -> bool {
        &&& self.renderer.wf()
        &&& forall|i: int| 0 <= i < self.objects@.len() ==> (#[trigger] self.objects@[i]).steppable()
    }

    /// A program with one square.
    pub fn new() -> (p: Self)
        ensures
            p.wf(),
            p.counter == 0,
            p.objects@ == seq![new_object(0)],
    {
        let mut s = Program { renderer: CanvasRenderer::new(), objects: Vec::new(), counter: 0 };
        s.add_object();
        assert(s.objects@ =~= seq![new_object(0)]);
        s
    }

    fn add_object(&mut self)
        requires
            old(self).wf(),
        ensures
            final(self).wf(),
            final(self).counter == old(self).counter,
            final(self).renderer == old(self).renderer,
            final(self).objects@ == old(self).objects@.push(new_object(old(self).counter)),
    {
        let hash = hash_u64(self.counter);
        let r = hash & 0xff;
        let g = hash >> 8 & 0xff;
        let b = hash >> 16 & 0xff;
        assert(r < 256 && g < 256 && b < 256) by (bit_vector)
            requires
                r == hash & 0xff,
                g == hash >> 8 & 0xff,
                b == hash >> 16 & 0xff,
        ;
        self.objects.push(
            Object {
                rect: Rect::new(Point2D::new(0, 0), Size2D::new(10, 10)),
                velocity: Vector2D::new(1, 1),
                color: Color { r: r as u8, g: g as u8, b: b as u8 },
            },
        );
    }

    /// A key went down: a square is added.
    pub fn on_key_down(&mut self, _code: &str)
        requires
            old(self).wf(),
        ensures
            final(self).wf(),
            final(self).counter == old(self).counter,
            final(self).renderer == old(self).renderer,
            final(self).objects@ == old(self).objects@.push(new_object(old(self).counter)),
    {
        self.add_object()
    }

    /// A key went up: nothing happens.
    pub fn on_key_up(&mut self, _code: &str)
        ensures
            *final(self) == *old(self),
    {
    }

    /// The first square that holds `p`, if one does.
    fn object_at(&self, p: Point2D<Pixels>) -> (c: Color)
        requires
            self.wf(),
            render_rect().contains_point(p),
        ensures
            c == shade(self.objects@, self.objects@.len(), p),
    {
        let mut n: usize = 0;
        while n < self.objects.len()
            invariant
                n <= self.objects@.len(),
                self.wf(),
                render_rect().contains_point(p),
                forall|i: int| 0 <= i < n ==> !(#[trigger] self.objects@[i]).rect.contains_point(p),
            decreases self.objects@.len() - n,
        {
            let o = self.objects[n];
            assert(self.objects@[n as int].steppable());
            if o.rect.contains(p) {
                proof {
                    lemma_shade_first(self.objects@, self.objects@.len(), n as int, p);
                }
                return o.color;
            }
            n = n + 1;
        }
        proof {
            lemma_shade_none(self.objects@, self.objects@.len(), p);
        }
        Color { r: (p.x % 256) as u8, g: (p.y % 256) as u8, b: (p.x % 256) as u8 }
    }

    /// Paints every pixel: the colour of the first square that holds it,
    /// else the background.
    pub fn draw(&mut self)
        requires
            old(self).wf(),
        ensures
            final(self).wf(),
            final(self).objects == old(self).objects,
            final(self).counter == old(self).counter,
            forall|q: Point2D<Pixels>|
                #![trigger color_at(final(self).renderer@, q)]
                #![trigger alpha_at(final(self).renderer@, q)]
                render_rect().contains_point(q) ==> color_at(final(self).renderer@, q) == shade(
                    final(self).objects@,
                    final(self).objects@.len(),
                    q,
                ) && alpha_at(final(self).renderer@, q) == 255,
    {
        let mut y: i32 = 0;
        while y < RENDER_HEIGHT
            invariant
                0 <= y <= RENDER_HEIGHT,
                self.wf(),
                self.objects == old(self).objects,
                self.counter == old(self).counter,
                forall|q: Point2D<Pixels>|
                    #![trigger color_at(self.renderer@, q)]
                    #![trigger alpha_at(self.renderer@, q)]
                    render_rect().contains_point(q) && q.y < y ==> color_at(self.renderer@, q)
                        == shade(self.objects@, self.objects@.len(), q) && alpha_at(
                        self.renderer@,
                        q,
                    ) == 255,
            decreases RENDER_HEIGHT - y,
        {
            let mut x: i32 = 0;
            while x < RENDER_WIDTH
                invariant
                    0 <= x <= RENDER_WIDTH,
                    0 <= y < RENDER_HEIGHT,
                    self.wf(),
                    self.objects == old(self).objects,
                    self.counter == old(self).counter,
                    forall|q: Point2D<Pixels>|
                        #![trigger color_at(self.renderer@, q)]
                        #![trigger alpha_at(self.renderer@, q)]
                        render_rect().contains_point(q) && (q.y < y || (q.y == y && q.x < x))
                            ==> color_at(self.renderer@, q) == shade(
                            self.objects@,
                            self.objects@.len(),
                            q,
                        ) && alpha_at(self.renderer@, q) == 255,
                decreases RENDER_WIDTH - x,
            {
                let p = Point2D::new(x, y);
                let color = self.object_at(p);
                let ghost canvas = self.renderer@;
                self.renderer.color_pixel(p, color);
                proof {
                    assert forall|q: Point2D<Pixels>|
                        #![trigger color_at(self.renderer@, q)]
                        #![trigger alpha_at(self.renderer@, q)]
                        render_rect().contains_point(q) && (q.y < y || (q.y == y && q.x < x + 1))
                        implies color_at(self.renderer@, q) == shade(
                        self.objects@,
                        self.objects@.len(),
                        q,
                    ) && alpha_at(self.renderer@, q) == 255 by {
                        lemma_with_pixel(canvas, p, color, q);
                        let _ = color_at(canvas, q);
                        let _ = alpha_at(canvas, q);
                    }
                }
                x = x + 1;
            }
            y = y + 1;
        }
    }

    /// One tick: the picture is painted, the counter counts on, and every
    /// square moves. Returns the milliseconds to wait for the next tick.
    pub fn tick(&mut self) -> (wait: i32)
        requires
            old(self).wf(),
            old(self).counter <= u64::MAX - COUNTER_STEP,
        ensures
            wait == 10,
            final(self).renderer.wf(),
            final(self).counter == old(self).counter + COUNTER_STEP,
            final(self).objects@.len() == old(self).objects@.len(),
            forall|i: int|
                0 <= i < old(self).objects@.len() ==> #[trigger] final(self).objects@[i] == old(self).objects@[i].ticked(),
            forall|q: Point2D<Pixels>|
                #![trigger color_at(final(self).renderer@, q)]
                #![trigger alpha_at(final(self).renderer@, q)]
                render_rect().contains_point(q) ==> color_at(final(self).renderer@, q) == shade(
                    old(self).objects@,
                    old(self).objects@.len(),
                    q,
                ) && alpha_at(final(self).renderer@, q) == 255,
    {
        self.draw();
        self.counter = self.counter + COUNTER_STEP;
        let mut n: usize = 0;
        while n < self.objects.len()
            invariant
                n <= self.objects@.len(),
                self.objects@.len() == old(self).objects@.len(),
                self.renderer.wf(),
                self.counter == old(self).counter + COUNTER_STEP,
                forall|i: int| 0 <= i < old(self).objects@.len() ==> (#[trigger] old(self).objects@[i]).steppable(),
                forall|i: int|
                    0 <= i < n ==> #[trigger] self.objects@[i] == old(self).objects@[i].ticked(),
                forall|i: int| n <= i < self.objects@.len() ==> #[trigger] self.objects@[i] == old(self).objects@[i],
                forall|q: Point2D<Pixels>|
                    #![trigger color_at(self.renderer@, q)]
                    #![trigger alpha_at(self.renderer@, q)]
                    render_rect().contains_point(q) ==> color_at(self.renderer@, q) == shade(
                        old(self).objects@,
                        old(self).objects@.len(),
                        q,
                    ) && alpha_at(self.renderer@, q) == 255,
            decreases self.objects@.len() - n,
        {
            let mut o = self.objects[n];
            assert(old(self).objects@[n as int].steppable());
            o.tick();
            self.objects[n] = o;
            n = n + 1;
        }
        10
    }
}

/// Where none of the first `k` squares holds `p`, the background shows.
pub proof fn lemma_shade_none(objects: Seq<Object>, k: nat, p: Point2D<Pixels>)
    requires
        k <= objects.len(),
        forall|i: int| 0 <= i < k ==> !(#[trigger] objects[i]).rect.contains_point(p),
    ensures
        shade(objects, k, p) == backdrop(p),
    decreases k,
{
    if k > 0 {
        lemma_shade_none(objects, (k - 1) as nat, p);
    }
}

/// Where square `n` is the first that holds `p`, its colour shows.
pub proof fn lemma_shade_first(objects: Seq<Object>, k: nat, n: int, p: Point2D<Pixels>)
    requires
        0 <= n < k <= objects.len(),
        objects[n].rect.contains_point(p),
        forall|i: int| 0 <= i < n ==> !(#[trigger] objects[i]).rect.contains_point(p),
    ensures
        shade(objects, k, p) == objects[n].color,
    decreases k,
{
    if k - 1 == n {
    } else {
        assert(objects[n].rect.contains_point(p));
        lemma_shade_first(objects, (k - 1) as nat, n, p);
    }
}

} // verus!
