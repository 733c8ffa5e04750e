use vstd::prelude::*;
use crate::config::{MAX_COORD, MAX_EXTENT, MAX_SPEED};

verus! {

/// Which renderable resource an entity stands for. The renderer maps each
/// variant to a texture and sprite; the core only carries it.
#[derive(Clone, Copy, Debug, PartialEq, Eq, Structural)]
pub enum Visual {
    Player,
    Bullet,
    EnemySmall,
    EnemyMedium,
    EnemyBig,
}

/// An axis-aligned rectangle given by its top-left corner and extents.
#[derive(Clone, Copy, Debug, PartialEq, Eq, Structural)]
pub struct Rect {
    pub x: i64,
    pub y: i64,
    pub w: i64,
    pub h: i64,
}

/// A positioned, sized, moving game entity (player, bullet or enemy).
/// Its rectangle is centered on `(x, y)` with extents `width` x `height`.
/// Positions and extents are fixed-point units (see `config`), speeds are
/// units per millisecond.
#[derive(Clone, Copy, Debug, PartialEq, Eq, Structural)]
pub struct GameObject {
    pub width: i64,
    pub height: i64,
    pub speed: i64,
    pub x: i64,
    pub y: i64,
    pub collided: bool,
    pub visual: Visual,
    pub animation_num: usize,
}

/// The mathematical model of an entity: the same fields over unbounded
/// integers. Contracts and the frame-step specification speak of this type.
#[verifier::ext_equal]
pub ghost struct ObjView {
    pub width: int,
    pub height: int,
    pub speed: int,
    pub x: int,
    pub y: int,
    pub collided: bool,
    pub visual: Visual,
    pub animation_num: int,
}

impl View for GameObject {
    type V = ObjView;

    open spec fn view(&self) -> ObjView {
        ObjView {
            width: self.width as int,
            height: self.height as int,
            speed: self.speed as int,
            x: self.x as int,
            y: self.y as int,
            collided: self.collided,
            visual: self.visual,
            animation_num: self.animation_num as int,
        }
    }
}

impl ObjView {
    /// Well-formedness: positive extents, nonnegative bounded speed, and
    /// coordinates within the coarse working range.
    pub open spec fn wf(self) -> bool {
        &&& 0 < self.width <= MAX_EXTENT
        &&& 0 < self.height <= MAX_EXTENT
        &&& 0 <= self.speed <= MAX_SPEED
        &&& -MAX_COORD <= self.x <= MAX_COORD
        &&& -MAX_COORD <= self.y <= MAX_COORD
    }

    /// Closed-interval axis-aligned box overlap, stated in doubled
    /// coordinates so that half-extents stay exact: the interval of `a`
    /// on the x axis is `[2x - width, 2x + width]`, and likewise on y.
    /// Two boxes overlap when both axis intervals intersect; boxes that
    /// merely touch (shared edge or corner) count as overlapping.
    pub open spec fn overlaps(self, other: ObjView) -> bool {
        &&& 2 * self.x - self.width <= 2 * other.x + other.width
        &&& 2 * other.x - other.width <= 2 * self.x + self.width
        &&& 2 * self.y - self.height <= 2 * other.y + other.height
        &&& 2 * other.y - other.height <= 2 * self.y + self.height
    }

    /// The entity with its collision flag raised; every other field is
    /// kept. The flag is write-once: nothing ever lowers it again.
    pub open spec fn flagged(self) -> ObjView {
        ObjView { collided: true, ..self }
    }
}

impl GameObject {
    /// Whether this entity's rectangle overlaps the other's.
    pub fn collides_with(&self, other: &Self) -> (r: bool)
        requires
            self@.wf(),
            other@.wf(),
        ensures
            r == self@.overlaps(other@),
    {
        2 * self.x - self.width <= 2 * other.x + other.width
            && 2 * other.x - other.width <= 2 * self.x + self.width
            && 2 * self.y - self.height <= 2 * other.y + other.height
            && 2 * other.y - other.height <= 2 * self.y + self.height
    }

    /// The entity's rectangle with its top-left corner made explicit.
    /// Half-extents are rounded toward zero; overlap testing does not go
    /// through this form, so no precision is lost there.
    pub fn rect(&self) -> (r: Rect)
        requires
            self@.wf(),
        ensures
            r.x == self@.x - self@.width / 2,
            r.y == self@.y - self@.height / 2,
            r.w == self@.width,
            r.h == self@.height,
    {
        Rect {
            x: self.x - self.width / 2,
            y: self.y - self.height / 2,
            w: self.width,
            h: self.height,
        }
    }

    /// Selects which animation row the renderer shows for this entity.
    pub fn set_animation_num(&mut self, num: usize)
        ensures
            final(self)@ == (ObjView { animation_num: num as int, ..old(self)@ }),
    {
        self.animation_num = num;
    }
}

/// Overlap is symmetric: testing a against b and b against a agree,
/// for all entity pairs.
pub proof fn lemma_overlaps_symmetric(a: ObjView, b: ObjView)
    ensures
        a.overlaps(b) == b.overlaps(a),
{
}

/// A value bounded into `[lo, hi]`: below the range gives `lo`, above it
/// gives `hi`.
pub open spec fn clamp_spec(v: int, lo: int, hi: int) -> int {
    if v < lo {
        lo
    } else if v > hi {
        hi
    } else {
        v
    }
}

/// A value bounded into `[lo, hi]`.
pub fn clamp_i64(v: i64, lo: i64, hi: i64) -> (r: i64)
    requires
        lo <= hi,
    ensures
        r == clamp_spec(v as int, lo as int, hi as int),
{
    if v < lo {
        lo
    } else if v > hi {
        hi
    } else {
        v
    }
}

/// Approximate circle-vs-square containment: the circle's center is
/// clamped into the square's bounds to find the closest point of the
/// square, and the squared distance from the center to that point is
/// compared against the square of half the square's size. The circle's
/// own radius does not enter the threshold. Stated in doubled
/// coordinates, so the halving is exact.
pub open spec fn spec_circle_hits_square(cx: int, cy: int, sx: int, sy: int, size: int) -> bool {
    let dx = 2 * cx - clamp_spec(2 * cx, 2 * sx - size, 2 * sx + size);
    let dy = 2 * cy - clamp_spec(2 * cy, 2 * sy - size, 2 * sy + size);
    dx * dx + dy * dy <= size * size
}

/// Whether a circle centered at `(cx, cy)` hits the axis-aligned square
/// centered at `(sx, sy)` with side length `size`, by the closest-point
/// containment test.
pub fn circle_hits_square(cx: i64, cy: i64, sx: i64, sy: i64, size: i64) -> (r: bool)
    requires
        -MAX_COORD <= cx <= MAX_COORD,
        -MAX_COORD <= cy <= MAX_COORD,
        -MAX_COORD <= sx <= MAX_COORD,
        -MAX_COORD <= sy <= MAX_COORD,
        0 < size <= MAX_EXTENT,
    ensures
        r == spec_circle_hits_square(cx as int, cy as int, sx as int, sy as int, size as int),
{
    let px = clamp_i64(2 * cx, 2 * sx - size, 2 * sx + size);
    let py = clamp_i64(2 * cy, 2 * sy - size, 2 * sy + size);
    let dx = 2 * cx - px;
    let dy = 2 * cy - py;
    proof {
        let b: int = 500_000_000_000;
        assert(-b <= dx as int <= b && -b <= dy as int <= b);
        assert((dx as int) * (dx as int) <= b * b && (dy as int) * (dy as int) <= b * b)
            by (nonlinear_arith)
            requires
                -b <= dx as int <= b,
                -b <= dy as int <= b,
        ;
        assert((dx as int) * (dx as int) >= 0 && (dy as int) * (dy as int) >= 0)
            by (nonlinear_arith)
        ;
        assert((size as int) * (size as int) <= (MAX_EXTENT as int) * (MAX_EXTENT as int))
            by (nonlinear_arith)
            requires
                0 < size <= MAX_EXTENT,
        ;
    }
    let dist2 = (dx as i128) * (dx as i128) + (dy as i128) * (dy as i128);
    dist2 <= (size as i128) * (size as i128)
}

/// Containment holds whenever the circle's center coincides with the
/// square's center, for any positive square size: the clamped point is
/// the center itself, at squared distance zero.
pub proof fn lemma_center_hits_square(cx: int, cy: int, size: int)
    requires
        0 < size,
    ensures
        spec_circle_hits_square(cx, cy, cx, cy, size),
{
    let c2x: int = 2 * cx;
    let c2y: int = 2 * cy;
    assert(clamp_spec(c2x, c2x - size, c2x + size) == c2x);
    assert(clamp_spec(c2y, c2y - size, c2y + size) == c2y);
    assert(size * size >= 0) by (nonlinear_arith);
}

} // verus!
