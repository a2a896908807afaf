use breakout::entities::{Ball, Block, BlockType, BALL_SIZE, UNIT};
use breakout::geometry::{Point, Rect, Vel};
use breakout::session::{spawn_ball, transition, FrameInput, GameState, Screen, Session, Step};

fn screen() -> Screen {
    Screen { width: 1000 * UNIT, height: 800 * UNIT }
}

fn idle(launch: bool) -> FrameInput {
    FrameInput { left: false, right: false, launch, dt_ms: 16 }
}

#[test]
fn menu_launch_starts_a_game() {
    let mut s = Session::new(&screen());
    assert_eq!(s.state, GameState::Menu);
    assert_eq!(s.lives, 3);
    assert_eq!(s.score, 0);
    s.frame(&idle(false), &screen());
    assert_eq!(s.state, GameState::Menu);
    s.frame(&idle(true), &screen());
    assert_eq!(s.state, GameState::Playing);
    assert_eq!(s.lives, 3);
    assert_eq!(s.score, 0);
    assert_eq!(s.blocks.len(), 64);
    let spawn = s.blocks.iter().filter(|b| b.block_type == BlockType::SpawnBall).count();
    assert!(spawn >= 1 && spawn <= 8);
    for b in s.blocks.iter().filter(|b| b.block_type == BlockType::SpawnBall) {
        assert_eq!(b.lives, 1);
    }
    assert_eq!(s.balls.len(), 1);
    // centred above the paddle
    let p = s.player.rect;
    assert_eq!(s.balls[0].rect.x, p.x + p.w / 2);
    assert_eq!(s.balls[0].rect.y, p.y - 40 * UNIT);
    assert!(s.balls[0].vel.y < 0);
}

#[test]
fn menu_resets_counters() {
    let mut s = Session::new(&screen());
    s.lives = 0;
    s.score = 17;
    s.frame(&idle(false), &screen());
    assert_eq!(s.lives, 3);
    assert_eq!(s.score, 0);
}

#[test]
fn empty_board_wins_on_next_frame() {
    let mut s = Session::new(&screen());
    s.frame(&idle(true), &screen());
    for b in s.blocks.iter_mut() {
        b.lives = 0;
    }
    s.frame(&idle(false), &screen());
    assert!(s.blocks.is_empty());
    assert_eq!(s.state, GameState::Won);
    s.frame(&idle(true), &screen());
    assert_eq!(s.state, GameState::Menu);
}

#[test]
fn no_lives_dies_on_next_frame() {
    let mut s = Session::new(&screen());
    s.frame(&idle(true), &screen());
    s.lives = 0;
    s.frame(&idle(false), &screen());
    assert!(!s.blocks.is_empty());
    assert_eq!(s.state, GameState::Dead);
    s.frame(&idle(false), &screen());
    assert_eq!(s.state, GameState::Dead);
    s.frame(&idle(true), &screen());
    assert_eq!(s.state, GameState::Menu);
}

#[test]
fn losing_the_last_ball_costs_one_life() {
    let mut s = Session::new(&screen());
    s.frame(&idle(true), &screen());
    let below = Ball { rect: Rect { x: 0, y: 900 * UNIT, w: BALL_SIZE, h: BALL_SIZE }, vel: Vel { x: 0, y: 1000 } };
    s.balls = vec![below, below];
    s.frame(&idle(false), &screen());
    assert!(s.balls.is_empty());
    assert_eq!(s.lives, 2);
    assert_eq!(s.state, GameState::Playing);
    // no balls in play: no further loss
    s.frame(&idle(false), &screen());
    assert_eq!(s.lives, 2);
    // relaunch
    s.frame(&idle(true), &screen());
    assert_eq!(s.balls.len(), 1);
}

#[test]
fn destroyed_spawn_block_adds_a_ball_after_the_scan() {
    let mut s = Session::new(&screen());
    s.state = GameState::Playing;
    s.blocks = vec![
        Block::new(Point { x: 0, y: 100 * UNIT }, BlockType::SpawnBall, 1),
        Block::new(Point { x: 600 * UNIT, y: 100 * UNIT }, BlockType::Regular, 2),
    ];
    s.balls = vec![Ball { rect: Rect { x: 10 * UNIT, y: 52 * UNIT, w: BALL_SIZE, h: BALL_SIZE }, vel: Vel { x: 0, y: 1000 } }];
    s.frame(&idle(false), &screen());
    assert_eq!(s.score, 1);
    assert_eq!(s.blocks.len(), 1);
    assert_eq!(s.balls.len(), 2);
    assert_eq!(s.state, GameState::Playing);
}

#[test]
fn transition_table() {
    assert_eq!(
        transition(GameState::Menu, 0, 3, 0, true),
        Step { state: GameState::Playing, reset: true, deal: true, launch_ball: true }
    );
    assert_eq!(
        transition(GameState::Menu, 0, 1, 0, false),
        Step { state: GameState::Menu, reset: true, deal: false, launch_ball: false }
    );
    assert_eq!(transition(GameState::Playing, 0, 2, 1, false).state, GameState::Won);
    assert_eq!(transition(GameState::Playing, 0, 0, 1, false).state, GameState::Dead);
    assert_eq!(transition(GameState::Playing, 5, -1, 1, false).state, GameState::Dead);
    assert_eq!(transition(GameState::Playing, 5, 1, 1, true).state, GameState::Playing);
    assert!(!transition(GameState::Playing, 5, 1, 1, true).launch_ball);
    assert!(transition(GameState::Playing, 5, 1, 0, true).launch_ball);
    assert_eq!(transition(GameState::Won, 0, 1, 0, true).state, GameState::Menu);
    assert_eq!(transition(GameState::Won, 0, 1, 0, false).state, GameState::Won);
    assert_eq!(transition(GameState::Dead, 3, 0, 0, true).state, GameState::Menu);
}

#[test]
fn spawn_ball_adds_one() {
    let mut balls = Vec::new();
    spawn_ball(&mut balls, Point { x: 5, y: 6 });
    assert_eq!(balls.len(), 1);
    assert_eq!(balls[0].rect, Rect { x: 5, y: 6, w: BALL_SIZE, h: BALL_SIZE });
}

#[test]
fn new_game_after_loss_has_a_fresh_board() {
    let mut s = Session::new(&screen());
    s.frame(&idle(true), &screen());
    s.blocks.truncate(10);
    s.lives = 0;
    s.frame(&idle(false), &screen());
    assert_eq!(s.state, GameState::Dead);
    assert_eq!(s.blocks.len(), 10);
    s.frame(&idle(true), &screen());
    assert_eq!(s.state, GameState::Menu);
    s.frame(&idle(true), &screen());
    assert_eq!(s.state, GameState::Playing);
    assert_eq!(s.blocks.len(), 64);
}
