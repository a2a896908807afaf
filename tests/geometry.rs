use breakout::geometry::{intersect, resolve_collision, Rect, Vel};

fn rect(x: i64, y: i64, w: i64, h: i64) -> Rect {
    Rect { x, y, w, h }
}

#[test]
fn intersect_overlapping() {
    let r = intersect(&rect(0, 0, 10, 10), &rect(5, 8, 10, 10));
    assert_eq!(r, Some(rect(5, 8, 5, 2)));
}

#[test]
fn intersect_disjoint() {
    assert_eq!(intersect(&rect(0, 0, 10, 10), &rect(11, 0, 5, 5)), None);
}

#[test]
fn intersect_touching_edge_is_thin() {
    assert_eq!(intersect(&rect(0, 0, 10, 10), &rect(10, 2, 5, 5)), Some(rect(10, 2, 0, 5)));
}

#[test]
fn collision_from_above_bounces_vertically() {
    // ball 10x10 at (5, 0) falls onto block at (0, 8) 40x10: overlap 10 wide, 2 high
    let mut a = rect(5, 0, 10, 10);
    let mut v = Vel { x: 300, y: 1200 };
    let b = rect(0, 8, 40, 10);
    assert!(resolve_collision(&mut a, &mut v, &b));
    assert_eq!(a, rect(5, -2, 10, 10));
    assert_eq!(v, Vel { x: 300, y: -1200 });
    // separated along the resolved axis: ball's bottom now touches block's top
    assert!(a.y + a.h <= b.y);
}

#[test]
fn collision_from_below_pushes_down() {
    let mut a = rect(5, 15, 10, 10);
    let mut v = Vel { x: 0, y: -1000 };
    let b = rect(0, 8, 40, 10);
    assert!(resolve_collision(&mut a, &mut v, &b));
    assert_eq!(a, rect(5, 18, 10, 10));
    assert_eq!(v, Vel { x: 0, y: 1000 });
    assert!(a.y >= b.y + b.h);
}

#[test]
fn collision_from_side_bounces_horizontally() {
    // overlap 3 wide, 10 high: horizontal bounce, pushed left
    let mut a = rect(0, 10, 10, 10);
    let mut v = Vel { x: 500, y: -700 };
    let b = rect(7, 0, 20, 40);
    assert!(resolve_collision(&mut a, &mut v, &b));
    assert_eq!(a, rect(-3, 10, 10, 10));
    assert_eq!(v, Vel { x: -500, y: -700 });
    assert!(a.x + a.w <= b.x);
}

#[test]
fn collision_from_right_side_pushes_right() {
    let mut a = rect(24, 10, 10, 10);
    let mut v = Vel { x: -500, y: 0 };
    let b = rect(7, 0, 20, 40);
    assert!(resolve_collision(&mut a, &mut v, &b));
    assert_eq!(a, rect(27, 10, 10, 10));
    assert_eq!(v, Vel { x: 500, y: 0 });
}

#[test]
fn square_overlap_resolves_horizontally() {
    let mut a = rect(0, 0, 10, 10);
    let mut v = Vel { x: 1, y: 1 };
    let b = rect(5, 5, 10, 10);
    assert!(resolve_collision(&mut a, &mut v, &b));
    assert_eq!(a, rect(-5, 0, 10, 10));
    assert_eq!(v, Vel { x: -1, y: 1 });
}

#[test]
fn no_collision_leaves_everything() {
    let mut a = rect(0, 0, 10, 10);
    let mut v = Vel { x: 3, y: 4 };
    let b = rect(100, 100, 10, 10);
    assert!(!resolve_collision(&mut a, &mut v, &b));
    assert_eq!(a, rect(0, 0, 10, 10));
    assert_eq!(v, Vel { x: 3, y: 4 });
}

#[test]
fn equal_centres_push_up() {
    let mut a = rect(0, 0, 20, 10);
    let mut v = Vel { x: 0, y: 5 };
    let b = rect(0, 0, 20, 10);
    assert!(resolve_collision(&mut a, &mut v, &b));
    assert_eq!(a, rect(0, -10, 20, 10));
    assert_eq!(v, Vel { x: 0, y: -5 });
}
