use breakout::entities::{Ball, Block, BlockType, BALL_SIZE, BLOCK_H, BLOCK_W, UNIT};
use breakout::geometry::{Point, Rect, Vel};
use breakout::scan::{collide_block, collide_blocks, remove_destroyed, remove_fallen};

fn ball(x: i64, y: i64, vx: i64, vy: i64) -> Ball {
    Ball { rect: Rect { x, y, w: BALL_SIZE, h: BALL_SIZE }, vel: Vel { x: vx, y: vy } }
}

fn block(x: i64, y: i64, t: BlockType, lives: i32) -> Block {
    Block::new(Point { x, y }, t, lives)
}

#[test]
fn last_hit_destroys_and_scores_once() {
    let mut b = block(0, 100 * UNIT, BlockType::Regular, 1);
    // ball overlapping the block's top by 2 pixels
    let mut balls = vec![ball(10 * UNIT, 52 * UNIT, 0, 1000)];
    let mut spawn = Vec::new();
    let mut score: u64 = 5;
    collide_block(&mut b, &mut balls, &mut spawn, &mut score);
    assert_eq!(b.lives, 0);
    assert_eq!(score, 6);
    assert!(spawn.is_empty());
    assert_eq!(balls[0].vel.y, -1000);
    assert_eq!(balls[0].rect.y, 50 * UNIT);
    let mut blocks = vec![b];
    remove_destroyed(&mut blocks);
    assert!(blocks.is_empty());
}

#[test]
fn two_hit_block_survives_one_hit() {
    let mut b = block(0, 100 * UNIT, BlockType::Regular, 2);
    let mut balls = vec![ball(10 * UNIT, 52 * UNIT, 0, 1000)];
    let mut spawn = Vec::new();
    let mut score: u64 = 0;
    collide_block(&mut b, &mut balls, &mut spawn, &mut score);
    assert_eq!(b.lives, 1);
    assert_eq!(score, 0);
}

#[test]
fn spawn_block_queues_centre_once() {
    let mut b = block(0, 100 * UNIT, BlockType::SpawnBall, 1);
    let mut balls = vec![ball(10 * UNIT, 52 * UNIT, 0, 1000), ball(20 * UNIT, 52 * UNIT, 0, 1000)];
    let mut spawn = Vec::new();
    let mut score: u64 = 0;
    collide_block(&mut b, &mut balls, &mut spawn, &mut score);
    assert_eq!(balls.len(), 2);
    assert_eq!(b.lives, 0);
    assert_eq!(score, 1);
    assert_eq!(spawn, vec![Point { x: BLOCK_W / 2, y: 100 * UNIT + BLOCK_H / 2 }]);
    assert_eq!(balls[1].vel.y, -1000);
}

#[test]
fn scan_keeps_ball_count_and_lists_spawns() {
    let mut blocks = vec![
        block(0, 100 * UNIT, BlockType::SpawnBall, 1),
        block(500 * UNIT, 100 * UNIT, BlockType::SpawnBall, 1),
        block(0, 300 * UNIT, BlockType::Regular, 1),
    ];
    let mut balls = vec![ball(10 * UNIT, 52 * UNIT, 0, 1000), ball(510 * UNIT, 52 * UNIT, 0, 1000)];
    let mut score: u64 = 0;
    let spawns = collide_blocks(&mut blocks, &mut balls, &mut score);
    assert_eq!(balls.len(), 2);
    assert_eq!(score, 2);
    assert_eq!(
        spawns,
        vec![
            Point { x: BLOCK_W / 2, y: 100 * UNIT + BLOCK_H / 2 },
            Point { x: 500 * UNIT + BLOCK_W / 2, y: 100 * UNIT + BLOCK_H / 2 },
        ]
    );
    assert_eq!(blocks[2].lives, 1);
    remove_destroyed(&mut blocks);
    assert_eq!(blocks.len(), 1);
    assert_eq!(blocks[0].rect.y, 300 * UNIT);
}

#[test]
fn losing_all_balls_is_reported() {
    let h = 800 * UNIT;
    let mut balls = vec![ball(0, h, 0, 1000), ball(0, h + 5, 0, 1000)];
    assert!(remove_fallen(&mut balls, h));
    assert!(balls.is_empty());
    assert!(!remove_fallen(&mut balls, h));
}

#[test]
fn keeping_some_balls_is_not_a_loss() {
    let h = 800 * UNIT;
    let mut balls = vec![ball(0, h, 0, 1000), ball(1, h - 1, 0, 1000)];
    assert!(!remove_fallen(&mut balls, h));
    assert_eq!(balls.len(), 1);
    assert_eq!(balls[0].rect.x, 1);
}
