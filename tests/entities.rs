use breakout::entities::{
    Ball, Block, BlockColor, BlockType, Player, BALL_SIZE, BLOCK_H, BLOCK_W, PLAYER_H, PLAYER_W, UNIT,
};
use breakout::geometry::{Point, Rect, Vel};

const SCREEN_W: i64 = 1000 * UNIT;
const SCREEN_H: i64 = 800 * UNIT;

fn ball(x: i64, y: i64, vx: i64, vy: i64) -> Ball {
    Ball { rect: Rect { x, y, w: BALL_SIZE, h: BALL_SIZE }, vel: Vel { x: vx, y: vy } }
}

#[test]
fn new_ball_has_spawn_velocity() {
    let mut xs = Vec::new();
    for _ in 0..200 {
        let b = Ball::new(Point { x: 7, y: 9 });
        assert_eq!(b.rect, Rect { x: 7, y: 9, w: BALL_SIZE, h: BALL_SIZE });
        assert!(-1500 <= b.vel.x && b.vel.x <= 1500);
        assert!(-1500 <= b.vel.y && b.vel.y <= -1000);
        xs.push(b.vel.x);
    }
    assert!(xs.iter().any(|&x| x != xs[0]));
}

#[test]
fn ball_moves_by_velocity_and_time() {
    let mut b = ball(100 * UNIT, 100 * UNIT, 1000, -500);
    b.update(10, SCREEN_W);
    // 1000 thousandths * 10 ms * 450 units = 4.5 pixels
    assert_eq!(b.rect.x, 100 * UNIT + 4_500_000);
    assert_eq!(b.rect.y, 100 * UNIT - 2_250_000);
    assert_eq!(b.vel, Vel { x: 1000, y: -500 });
}

#[test]
fn ball_bounces_off_top() {
    let mut b = ball(100 * UNIT, 1_000_000, 0, -1000);
    b.update(10, SCREEN_W);
    assert_eq!(b.rect.y, 1_000_000 - 4_500_000);
    assert_eq!(b.vel, Vel { x: 0, y: 1000 });
}

#[test]
fn ball_flips_at_top_edge_exactly() {
    let mut b = ball(100 * UNIT, 4_500_000, 0, -1000);
    b.update(10, SCREEN_W);
    assert_eq!(b.rect.y, 0);
    assert_eq!(b.vel.y, 1000);
    let mut c = ball(100 * UNIT, 4_500_001, 0, -1000);
    c.update(10, SCREEN_W);
    assert_eq!(c.rect.y, 1);
    assert_eq!(c.vel.y, -1000);
}

#[test]
fn ball_bounces_off_sides() {
    let mut l = ball(1_000_000, 100 * UNIT, -1000, -1000);
    l.update(10, SCREEN_W);
    assert_eq!(l.vel.x, 1000);
    let mut r = ball(SCREEN_W - BALL_SIZE - 1_000_000, 100 * UNIT, 1000, -1000);
    r.update(10, SCREEN_W);
    assert_eq!(r.vel.x, -1000);
    let mut m = ball(SCREEN_W - BALL_SIZE - 4_500_000, 100 * UNIT, 1000, -1000);
    m.update(10, SCREEN_W);
    assert_eq!(m.rect.x, SCREEN_W - BALL_SIZE);
    assert_eq!(m.vel.x, 1000);
}

#[test]
fn ball_does_not_bounce_at_bottom() {
    let mut b = ball(100 * UNIT, SCREEN_H, 0, 1000);
    b.update(10, SCREEN_W);
    assert_eq!(b.rect.y, SCREEN_H + 4_500_000);
    assert_eq!(b.vel.y, 1000);
}

#[test]
fn block_new_and_colors() {
    let b = Block::new(Point { x: 3, y: 4 }, BlockType::Regular, 2);
    assert_eq!(b.rect, Rect { x: 3, y: 4, w: BLOCK_W, h: BLOCK_H });
    assert_eq!(b.lives, 2);
    assert_eq!(b.color(), BlockColor::Gold);
    let one = Block::new(Point { x: 3, y: 4 }, BlockType::Regular, 1);
    assert_eq!(one.color(), BlockColor::Red);
    let spawn = Block::new(Point { x: 3, y: 4 }, BlockType::SpawnBall, 2);
    assert_eq!(spawn.color(), BlockColor::Purple);
    assert_eq!(b.center(), Point { x: 3 + BLOCK_W / 2, y: 4 + BLOCK_H / 2 });
}

#[test]
fn player_starts_centred() {
    let p = Player::new(SCREEN_W, SCREEN_H);
    assert_eq!(p.rect, Rect { x: 425 * UNIT, y: 700 * UNIT, w: PLAYER_W, h: PLAYER_H });
}

#[test]
fn player_moves_and_clamps() {
    let mut p = Player::new(SCREEN_W, SCREEN_H);
    p.update(true, false, 100, SCREEN_W);
    assert_eq!(p.rect.x, 355 * UNIT);
    p.update(false, true, 100, SCREEN_W);
    assert_eq!(p.rect.x, 425 * UNIT);
    p.update(true, true, 100, SCREEN_W);
    assert_eq!(p.rect.x, 425 * UNIT);
    p.update(false, false, 100, SCREEN_W);
    assert_eq!(p.rect.x, 425 * UNIT);
    p.update(true, false, 10_000, SCREEN_W);
    assert_eq!(p.rect.x, 0);
    p.update(false, true, 10_000, SCREEN_W);
    assert_eq!(p.rect.x, SCREEN_W - PLAYER_W);
}

#[test]
fn ball_far_away_moves_exactly() {
    let far: i64 = 1 << 51;
    let mut still = ball(far, far, 0, 0);
    still.update(16, SCREEN_W);
    assert_eq!(still.rect.x, far);
    assert_eq!(still.rect.y, far);
    let mut moving = ball(far, far, 1500, 1500);
    moving.update(16, SCREEN_W);
    assert_eq!(moving.rect.x, far + 1500 * 16 * 450);
    assert_eq!(moving.vel.x, -1500);
    assert_eq!(moving.vel.y, 1500);
}
