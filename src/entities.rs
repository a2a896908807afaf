use vstd::prelude::*;
use crate::geometry::{Point, Rect, Vel, COORD_LIMIT, SIZE_LIMIT, VEL_LIMIT};
use crate::random::random_between;

verus! {

/// Length units in one pixel.
pub const UNIT: i64 = 1_000_000;

/// Side of a ball (50 pixels).
pub const BALL_SIZE: i64 = 50_000_000;

/// Width and height of a block (100 by 40 pixels).
pub const BLOCK_W: i64 = 100_000_000;
pub const BLOCK_H: i64 = 40_000_000;

/// Width and height of the paddle (150 by 40 pixels).
pub const PLAYER_W: i64 = 150_000_000;
pub const PLAYER_H: i64 = 40_000_000;

/// Distance from the paddle's top to the screen's bottom (100 pixels).
pub const PLAYER_LIFT: i64 = 100_000_000;

/// Ball travel per millisecond for each thousandth of velocity
/// (450 pixels a second at velocity 1).
pub const BALL_SPEED: i64 = 450;

/// Paddle travel per millisecond (700 pixels a second).
pub const PLAYER_SPEED: i64 = 700_000;

/// Longest frame the simulation accepts, in milliseconds (an hour).
pub const MAX_FRAME_MS: u64 = 3_600_000;

/// Largest screen side accepted.
pub const SCREEN_LIMIT: i64 = 1_099_511_627_776;

/// Largest distance from the origin, on each axis, of a block or the paddle
/// that a frame accepts.
pub const WORLD_LIMIT: i64 = 1_125_899_906_842_624;

/// Bounds of a new ball's velocity, in thousandths.
pub const SPAWN_VEL_X_MIN: i64 = -1500;
pub const SPAWN_VEL_X_MAX: i64 = 1500;
pub const SPAWN_VEL_Y_MIN: i64 = -1500;
pub const SPAWN_VEL_Y_MAX: i64 = -1000;

/// A ball: a square and its velocity.
#[derive(Clone, Copy, Debug, PartialEq, Eq, Structural)]
pub struct Ball {
    pub rect: Rect,
    pub vel: Vel,
}

/// What a destroyed block does besides scoring.
#[derive(Clone, Copy, Debug, PartialEq, Eq, Structural)]
pub enum BlockType {
    Regular,
    SpawnBall,
}

/// The colour a block is drawn in.
#[derive(Clone, Copy, Debug, PartialEq, Eq, Structural)]
pub enum BlockColor {
    Gold,
    Red,
    Purple,
}

/// A destructible block with its remaining hit-count.
#[derive(Clone, Copy, Debug, PartialEq, Eq, Structural)]
pub struct Block {
    pub rect: Rect,
    pub lives: i32,
    pub block_type: BlockType,
}

/// The paddle.
#[derive(Clone, Copy, Debug, PartialEq, Eq, Structural)]
pub struct Player {
    pub rect: Rect,
}

impl Ball {
    pub open spec fn valid(self) -> bool {
        self.rect.valid() && self.vel.valid()
    }

    /// The ball's position after `dt_ms` milliseconds of travel at its
    /// velocity, before any bounce.
    pub open spec fn moved(self, dt_ms: u64) -> Rect {
        Rect {
            x: (self.rect.x + self.vel.x * dt_ms * BALL_SPEED) as i64,
            y: (self.rect.y + self.vel.y * dt_ms * BALL_SPEED) as i64,
            ..self.rect
        }
    }

    /// The ball after one frame: moved, then bounced off the screen's sides
    /// and top.
    pub open spec fn advanced(self, dt_ms: u64, screen_w: i64) -> Ball {
        let r = self.moved(dt_ms);
        Ball {
            rect: r,
            vel: Vel {
                x: if r.x < 0 || r.x > screen_w - r.w { -self.vel.x } else { self.vel.x as int } as i64,
                y: if r.y <= 0 { -self.vel.y } else { self.vel.y as int } as i64,
            },
        }
    }

    /// A ball at `pos` with a random velocity: horizontal in
    /// `[-1.5, 1.5]`, vertical in `[-1.5, -1.0]` (always upwards).
    pub fn new(pos: Point) -> (r: Ball)
        ensures
            r.rect == (Rect { x: pos.x, y: pos.y, w: BALL_SIZE, h: BALL_SIZE }),
            SPAWN_VEL_X_MIN <= r.vel.x <= SPAWN_VEL_X_MAX,
            SPAWN_VEL_Y_MIN <= r.vel.y <= SPAWN_VEL_Y_MAX,
    {
        let vx = random_between(SPAWN_VEL_X_MIN, SPAWN_VEL_X_MAX);
        let vy = random_between(SPAWN_VEL_Y_MIN, SPAWN_VEL_Y_MAX);
        Ball { rect: Rect { x: pos.x, y: pos.y, w: BALL_SIZE, h: BALL_SIZE }, vel: Vel { x: vx, y: vy } }
    }

    /// Advances the ball by one frame and bounces it off the screen's sides
    /// and top: the horizontal velocity flips exactly when the ball's left
    /// edge is left of the screen or its right edge beyond it; the vertical
    /// velocity flips exactly when its top edge is at or above the screen's
    /// top. There is no bounce at the bottom.
    pub fn update(&mut self, dt_ms: u64, screen_w: i64)
        requires
            old(self).valid(),
            dt_ms <= MAX_FRAME_MS,
            0 <= screen_w <= SCREEN_LIMIT,
        ensures
            final(self).rect.x == old(self).rect.x + old(self).vel.x * dt_ms * BALL_SPEED,
            final(self).rect.y == old(self).rect.y + old(self).vel.y * dt_ms * BALL_SPEED,
            final(self).rect.w == old(self).rect.w,
            final(self).rect.h == old(self).rect.h,
            final(self).vel.x == (if final(self).rect.x < 0 || final(self).rect.x > screen_w - final(self).rect.w {
                -old(self).vel.x
            } else {
                old(self).vel.x as int
            }),
            final(self).vel.y == (if final(self).rect.y <= 0 { -old(self).vel.y } else { old(self).vel.y as int }),
            final(self).vel.valid(),
            *final(self) == old(self).advanced(dt_ms, screen_w),
    {
        let dt = dt_ms as i64;
        proof {
            assert(-VEL_LIMIT * MAX_FRAME_MS <= self.vel.x * dt <= VEL_LIMIT * MAX_FRAME_MS) by (nonlinear_arith)
                requires -VEL_LIMIT <= self.vel.x <= VEL_LIMIT, 0 <= dt <= MAX_FRAME_MS;
            assert(-VEL_LIMIT * MAX_FRAME_MS <= self.vel.y * dt <= VEL_LIMIT * MAX_FRAME_MS) by (nonlinear_arith)
                requires -VEL_LIMIT <= self.vel.y <= VEL_LIMIT, 0 <= dt <= MAX_FRAME_MS;
        }
        self.rect.x = self.rect.x + self.vel.x * dt * BALL_SPEED;
        self.rect.y = self.rect.y + self.vel.y * dt * BALL_SPEED;
        if self.rect.x < 0 || self.rect.x > screen_w - self.rect.w {
            self.vel.x = -self.vel.x;
        }
        if self.rect.y <= 0 {
            self.vel.y = -self.vel.y;
        }
    }
}

impl Block {
    /// A block of the standard size at `pos`.
    pub fn new(pos: Point, block_type: BlockType, lives: i32) -> (r: Block)
        ensures
            r == (Block { rect: Rect { x: pos.x, y: pos.y, w: BLOCK_W, h: BLOCK_H }, lives, block_type }),
    {
        Block { rect: Rect { x: pos.x, y: pos.y, w: BLOCK_W, h: BLOCK_H }, lives, block_type }
    }

    /// The colour of the block: spawn blocks are purple; a regular block is
    /// gold while two hits remain and red otherwise.
    pub fn color(&self) -> (r: BlockColor)
        ensures
            r == (match self.block_type {
                BlockType::SpawnBall => BlockColor::Purple,
                BlockType::Regular => if self.lives == 2 { BlockColor::Gold } else { BlockColor::Red },
            }),
    {
        match self.block_type {
            BlockType::Regular => if self.lives == 2 { BlockColor::Gold } else { BlockColor::Red },
            BlockType::SpawnBall => BlockColor::Purple,
        }
    }

    /// The centre of the block.
    pub fn center(&self) -> (r: Point)
        requires
            self.rect.valid(),
        ensures
            r == self.center_spec(),
    {
        Point { x: self.rect.x + self.rect.w / 2, y: self.rect.y + self.rect.h / 2 }
    }

    pub open spec fn center_spec(self) -> Point {
        Point { x: (self.rect.x + self.rect.w / 2) as i64, y: (self.rect.y + self.rect.h / 2) as i64 }
    }
}

/// The horizontal direction chosen by the two inputs: -1 for left alone, +1
/// for right alone, 0 for both or neither.
pub open spec fn direction(left: bool, right: bool) -> int {
    if left && !right { -1 } else if right && !left { 1 } else { 0 }
}

/// The paddle's left edge after moving `dx` and being kept on the screen.
pub open spec fn paddle_x(x: int, w: int, screen_w: int) -> int {
    if x + w > screen_w { screen_w - w } else if x < 0 { 0 } else { x }
}

impl Player {
    /// The paddle after one frame of the given inputs.
    pub open spec fn moved(self, left: bool, right: bool, dt_ms: u64, screen_w: i64) -> Player {
        Player {
            rect: Rect {
                x: paddle_x(self.rect.x + direction(left, right) * dt_ms * PLAYER_SPEED, self.rect.w as int, screen_w as int)
                    as i64,
                ..self.rect
            },
        }
    }

    /// The paddle centred horizontally, its top `PLAYER_LIFT` above the
    /// screen's bottom.
    pub fn new(screen_w: i64, screen_h: i64) -> (r: Player)
        requires
            0 <= screen_w <= SCREEN_LIMIT,
            0 <= screen_h <= SCREEN_LIMIT,
        ensures
            r.rect == (Rect {
                x: (screen_w / 2 - PLAYER_W / 2) as i64,
                y: (screen_h - PLAYER_LIFT) as i64,
                w: PLAYER_W,
                h: PLAYER_H,
            }),
    {
        Player { rect: Rect { x: screen_w / 2 - PLAYER_W / 2, y: screen_h - PLAYER_LIFT, w: PLAYER_W, h: PLAYER_H } }
    }

    /// Moves the paddle by the direction of the inputs times its speed and
    /// the frame time, then keeps it on the screen horizontally.
    pub fn update(&mut self, left: bool, right: bool, dt_ms: u64, screen_w: i64)
        requires
            old(self).rect.valid(),
            dt_ms <= MAX_FRAME_MS,
            0 <= screen_w <= SCREEN_LIMIT,
        ensures
            final(self).rect == (Rect {
                x: paddle_x(
                    old(self).rect.x + direction(left, right) * dt_ms * PLAYER_SPEED,
                    old(self).rect.w as int,
                    screen_w as int,
                ) as i64,
                ..old(self).rect
            }),
            *final(self) == old(self).moved(left, right, dt_ms, screen_w),
    {
        let dir: i64 = if left && !right { -1 } else if right && !left { 1 } else { 0 };
        let dt = dt_ms as i64;
        assert(0 <= dt * PLAYER_SPEED <= MAX_FRAME_MS * PLAYER_SPEED) by (nonlinear_arith)
            requires 0 <= dt <= MAX_FRAME_MS;
        let step = dt * PLAYER_SPEED;
        let x = if dir < 0 { self.rect.x - step } else if dir > 0 { self.rect.x + step } else { self.rect.x };
        assert(x == self.rect.x + direction(left, right) * dt_ms * PLAYER_SPEED) by (nonlinear_arith)
            requires
                dir == direction(left, right),
                step == dt_ms * PLAYER_SPEED,
                x == (if dir < 0 { self.rect.x - step } else if dir > 0 { self.rect.x + step } else { self.rect.x as int });
        if x + self.rect.w > screen_w {
            self.rect.x = screen_w - self.rect.w;
        } else if x < 0 {
            self.rect.x = 0;
        } else {
            self.rect.x = x;
        }
    }
}

} // verus!
