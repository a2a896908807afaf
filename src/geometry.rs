use vstd::prelude::*;

verus! {

/// Largest magnitude of a coordinate that the geometry accepts.
pub const COORD_LIMIT: i64 = 4_503_599_627_370_496;

/// Largest width or height that the geometry accepts.
pub const SIZE_LIMIT: i64 = 1_099_511_627_776;

/// Largest magnitude of a velocity component.
pub const VEL_LIMIT: i64 = 1_000_000;

/// A point in the plane.
#[derive(Clone, Copy, Debug, PartialEq, Eq, Structural)]
pub struct Point {
    pub x: i64,
    pub y: i64,
}

/// A velocity: a direction whose components are thousandths of a unit speed.
#[derive(Clone, Copy, Debug, PartialEq, Eq, Structural)]
pub struct Vel {
    pub x: i64,
    pub y: i64,
}

/// An axis-aligned rectangle: top-left corner, width and height
/// (y grows downwards).
#[derive(Clone, Copy, Debug, PartialEq, Eq, Structural)]
pub struct Rect {
    pub x: i64,
    pub y: i64,
    pub w: i64,
    pub h: i64,
}

pub open spec fn min_int(a: int, b: int) -> int {
    if a <= b { a } else { b }
}

pub open spec fn max_int(a: int, b: int) -> int {
    if a >= b { a } else { b }
}

impl Rect {
    /// The rectangle lies within the coordinate limits and has a
    /// non-negative size within the size limit.
    pub open spec fn valid(self) -> bool {
        -COORD_LIMIT <= self.x <= COORD_LIMIT && -COORD_LIMIT <= self.y <= COORD_LIMIT
            && 0 <= self.w <= SIZE_LIMIT && 0 <= self.h <= SIZE_LIMIT
    }

    pub open spec fn right(self) -> int {
        self.x + self.w
    }

    pub open spec fn bottom(self) -> int {
        self.y + self.h
    }
}

impl Vel {
    pub open spec fn valid(self) -> bool {
        -VEL_LIMIT <= self.x <= VEL_LIMIT && -VEL_LIMIT <= self.y <= VEL_LIMIT
    }
}

/// The common part of two rectangles. Rectangles that only touch along an
/// edge still meet, in a rectangle of width or height zero.
pub open spec fn intersection(a: Rect, b: Rect) -> Option<Rect> {
    let left = max_int(a.x as int, b.x as int);
    let top = max_int(a.y as int, b.y as int);
    let right = min_int(a.right(), b.right());
    let bottom = min_int(a.bottom(), b.bottom());
    if right < left || bottom < top {
        None
    } else {
        Some(Rect { x: left as i64, y: top as i64, w: (right - left) as i64, h: (bottom - top) as i64 })
    }
}

/// The centre of the extent `[lo_b, lo_b + size_b]` lies at or beyond the
/// centre of `[lo_a, lo_a + size_a]`: the step between them has sign +1
/// (equal centres count as +1), else -1.
pub open spec fn toward(lo_a: int, size_a: int, lo_b: int, size_b: int) -> bool {
    2 * lo_b + size_b >= 2 * lo_a + size_a
}

/// `lo` moved by `d` against the direction that `toward` gives.
pub open spec fn push_back(lo: i64, forward: bool, d: i64) -> i64 {
    if forward { (lo - d) as i64 } else { (lo + d) as i64 }
}

/// The rectangle `a` moving with velocity `v` after meeting the still
/// rectangle `b`: where the intersection is wider than high, the vertical
/// component is reflected and `a` is pushed vertically, away from `b`'s
/// centre, by the intersection's height; otherwise the same happens on the
/// horizontal axis with the intersection's width.
pub open spec fn bounced(a: Rect, v: Vel, b: Rect) -> (Rect, Vel) {
    match intersection(a, b) {
        None => (a, v),
        Some(i) => if i.w > i.h {
            (
                Rect { y: push_back(a.y, toward(a.y as int, a.h as int, b.y as int, b.h as int), i.h), ..a },
                Vel { y: (-v.y) as i64, ..v },
            )
        } else {
            (
                Rect { x: push_back(a.x, toward(a.x as int, a.w as int, b.x as int, b.w as int), i.w), ..a },
                Vel { x: (-v.x) as i64, ..v },
            )
        },
    }
}

/// The intersection of two rectangles, if they meet.
pub fn intersect(a: &Rect, b: &Rect) -> (r: Option<Rect>)
    requires
        a.valid(),
        b.valid(),
    ensures
        r == intersection(*a, *b),
{
    let left = if a.x >= b.x { a.x } else { b.x };
    let top = if a.y >= b.y { a.y } else { b.y };
    let ar = a.x + a.w;
    let br = b.x + b.w;
    let right = if ar <= br { ar } else { br };
    let ab = a.y + a.h;
    let bb = b.y + b.h;
    let bottom = if ab <= bb { ab } else { bb };
    if right < left || bottom < top {
        None
    } else {
        Some(Rect { x: left, y: top, w: right - left, h: bottom - top })
    }
}

/// Resolves a collision of the moving rectangle `a` (velocity `vel`) with the
/// still rectangle `b`. Returns whether they met; when they did, `a` and `vel`
/// change as `bounced` describes.
pub fn resolve_collision(a: &mut Rect, vel: &mut Vel, b: &Rect) -> (r: bool)
    requires
        old(a).valid(),
        old(vel).valid(),
        b.valid(),
    ensures
        r == intersection(*old(a), *b) is Some,
        (*final(a), *final(vel)) == bounced(*old(a), *old(vel), *b),
{
    match intersect(a, b) {
        None => false,
        Some(i) => {
            if i.w > i.h {
                let down = 2 * b.y + b.h >= 2 * a.y + a.h;
                if down {
                    a.y = a.y - i.h;
                } else {
                    a.y = a.y + i.h;
                }
                vel.y = -vel.y;
            } else {
                let right = 2 * b.x + b.w >= 2 * a.x + a.w;
                if right {
                    a.x = a.x - i.w;
                } else {
                    a.x = a.x + i.w;
                }
                vel.x = -vel.x;
            }
            true
        },
    }
}

/// Where the moving rectangle's extent along an axis is not strictly nested
/// in the target's (nor the other way round), a collision is reported and,
/// after the correction, the two rectangles no longer overlap along the axis
/// on which the collision was resolved: they at most touch.
pub proof fn lemma_bounce_separates(a: Rect, v: Vel, b: Rect)
    requires
        a.valid(),
        b.valid(),
        intersection(a, b) is Some,
        ({
            let i = intersection(a, b).unwrap();
            if i.w > i.h {
                (a.y <= b.y && a.bottom() <= b.bottom()) || (a.y >= b.y && a.bottom() >= b.bottom())
            } else {
                (a.x <= b.x && a.right() <= b.right()) || (a.x >= b.x && a.right() >= b.right())
            }
        }),
    ensures
        ({
            let i = intersection(a, b).unwrap();
            let na = bounced(a, v, b).0;
            if i.w > i.h {
                na.bottom() <= b.y || na.y >= b.bottom()
            } else {
                na.right() <= b.x || na.x >= b.right()
            }
        }),
{
}

} // verus!
