use vstd::prelude::*;
use crate::geometry::{Point, Rect, SIZE_LIMIT, VEL_LIMIT};
use crate::entities::{
    Ball, Player, BALL_SIZE, MAX_FRAME_MS, SCREEN_LIMIT, SPAWN_VEL_X_MAX, SPAWN_VEL_X_MIN, SPAWN_VEL_Y_MAX,
    SPAWN_VEL_Y_MIN, WORLD_LIMIT,
};
use crate::entities::Block;
use crate::board::{dealt, init_blocks, BOARD_SIZE};
use crate::scan::{
    after_blocks, ball_bounced, ball_ok, balls_ok, blocks_in_world, collide_blocks, destroyed, destroyed_count, hits_on,
    in_world,
    kept_balls, kept_blocks, lemma_bounce_in_reach, REACH_LIMIT, remove_destroyed, remove_fallen, spawn_list, struck_blocks,
};

verus! {

/// Lives at the start of a game.
pub const START_LIVES: i32 = 3;

/// Height above the paddle at which a launched ball appears (40 pixels).
pub const LAUNCH_GAP: i64 = 40_000_000;

/// The screen the game is played on.
#[derive(Clone, Copy, Debug, PartialEq, Eq, Structural)]
pub struct Screen {
    pub width: i64,
    pub height: i64,
}

impl Screen {
    pub open spec fn valid(self) -> bool {
        0 <= self.width <= SCREEN_LIMIT && 0 <= self.height <= SCREEN_LIMIT
    }

    /// Whether the screen's sides lie within the accepted range.
    pub fn is_valid(&self) -> (r: bool)
        ensures
            r == self.valid(),
    {
        0 <= self.width && self.width <= SCREEN_LIMIT && 0 <= self.height && self.height <= SCREEN_LIMIT
    }
}

/// The inputs of one frame: the two movement directions, the launch key,
/// and the frame's duration.
#[derive(Clone, Copy, Debug, PartialEq, Eq, Structural)]
pub struct FrameInput {
    pub left: bool,
    pub right: bool,
    pub launch: bool,
    pub dt_ms: u64,
}

/// The screen the game shows.
#[derive(Clone, Copy, Debug, PartialEq, Eq, Structural)]
pub enum GameState {
    Menu,
    Playing,
    Won,
    Dead,
}

/// What the state machine decides in a frame: the next state, and whether to
/// reset score and lives, lay out a board, and launch a ball above the paddle.
#[derive(Clone, Copy, Debug, PartialEq, Eq, Structural)]
pub struct Step {
    pub state: GameState,
    pub reset: bool,
    pub deal: bool,
    pub launch_ball: bool,
}

/// The decision of the state machine, from the state and what the frame
/// left: in the menu, score and lives are reset and launching starts a game
/// with a board and a ball; in a game, no blocks left wins, no lives left
/// loses (whatever blocks are left), and launching with no ball in play
/// launches one; the end screens go back to the menu on launch.
pub open spec fn next_step(state: GameState, blocks_left: nat, lives: int, balls_left: nat, launch: bool) -> Step {
    match state {
        GameState::Menu => Step {
            state: if launch { GameState::Playing } else { GameState::Menu },
            reset: true,
            deal: launch,
            launch_ball: launch,
        },
        GameState::Playing => Step {
            state: if lives <= 0 {
                GameState::Dead
            } else if blocks_left == 0 {
                GameState::Won
            } else {
                GameState::Playing
            },
            reset: false,
            deal: false,
            launch_ball: balls_left == 0 && launch,
        },
        GameState::Won | GameState::Dead => Step {
            state: if launch { GameState::Menu } else { state },
            reset: false,
            deal: false,
            launch_ball: false,
        },
    }
}

/// The state machine's decision for one frame.
pub fn transition(state: GameState, blocks_left: usize, lives: i32, balls_left: usize, launch: bool) -> (r: Step)
    ensures
        r == next_step(state, blocks_left as nat, lives as int, balls_left as nat, launch),
        state == GameState::Playing && lives <= 0 ==> r.state == GameState::Dead,
        state == GameState::Playing && lives > 0 && blocks_left == 0 ==> r.state == GameState::Won,
        state == GameState::Menu && launch ==> r.state == GameState::Playing && r.deal && r.launch_ball,
{
    match state {
        GameState::Menu => Step {
            state: if launch { GameState::Playing } else { GameState::Menu },
            reset: true,
            deal: launch,
            launch_ball: launch,
        },
        GameState::Playing => {
            let mut next = GameState::Playing;
            if blocks_left == 0 {
                next = GameState::Won;
            }
            if lives <= 0 {
                next = GameState::Dead;
            }
            Step { state: next, reset: false, deal: false, launch_ball: balls_left == 0 && launch }
        },
        GameState::Won => Step {
            state: if launch { GameState::Menu } else { GameState::Won },
            reset: false,
            deal: false,
            launch_ball: false,
        },
        GameState::Dead => Step {
            state: if launch { GameState::Menu } else { GameState::Dead },
            reset: false,
            deal: false,
            launch_ball: false,
        },
    }
}

/// Whether `r` lies within the world.
pub fn rect_in_world(r: &Rect) -> (b: bool)
    ensures
        b == in_world(*r),
{
    -WORLD_LIMIT <= r.x && r.x <= WORLD_LIMIT && -WORLD_LIMIT <= r.y && r.y <= WORLD_LIMIT && 0 <= r.w && r.w
        <= SIZE_LIMIT && 0 <= r.h && r.h <= SIZE_LIMIT
}

/// `b` is a newly made ball at `p`, with a velocity in the spawn ranges.
pub open spec fn fresh_ball_at(b: Ball, p: Point) -> bool {
    &&& b.rect == (Rect { x: p.x, y: p.y, w: BALL_SIZE, h: BALL_SIZE })
    &&& SPAWN_VEL_X_MIN <= b.vel.x <= SPAWN_VEL_X_MAX
    &&& SPAWN_VEL_Y_MIN <= b.vel.y <= SPAWN_VEL_Y_MAX
}

/// Where a ball is launched: centred above the paddle.
pub open spec fn launch_point(p: Player) -> Point {
    Point { x: (p.rect.x + p.rect.w / 2) as i64, y: (p.rect.y - LAUNCH_GAP) as i64 }
}

/// Adds a new ball at `position`.
pub fn spawn_ball(balls: &mut Vec<Ball>, position: Point)
    ensures
        final(balls)@.len() == old(balls)@.len() + 1,
        final(balls)@.drop_last() == old(balls)@,
        fresh_ball_at(final(balls)@.last(), position),
{
    balls.push(Ball::new(position));
    assert(balls@.drop_last() =~= old(balls)@);
}

/// Adds a new ball at each of `positions`, in order.
pub fn spawn_balls(balls: &mut Vec<Ball>, positions: &Vec<Point>)
    ensures
        final(balls)@.len() == old(balls)@.len() + positions@.len(),
        final(balls)@.take(old(balls)@.len() as int) == old(balls)@,
        forall|i: int| 0 <= i < positions@.len() ==> fresh_ball_at(#[trigger] final(balls)@[old(balls)@.len() + i], positions@[i]),
{
    let ghost s0 = balls@;
    let mut i: usize = 0;
    while i < positions.len()
        invariant
            i <= positions.len(),
            balls@.len() == s0.len() + i,
            balls@.take(s0.len() as int) == s0,
            forall|k: int| 0 <= k < i ==> fresh_ball_at(#[trigger] balls@[s0.len() + k], positions@[k]),
        decreases positions.len() - i,
    {
        spawn_ball(balls, positions[i]);
        assert(balls@.take(s0.len() as int) =~= s0);
        i = i + 1;
        assert forall|k: int| 0 <= k < i implies fresh_ball_at(#[trigger] balls@[s0.len() + k], positions@[k]) by {
            if k < i - 1 {
                assert(balls@[s0.len() + k] == balls@.drop_last()[s0.len() + k]);
            }
        }
    }
}

/// The ball after meeting the paddle and then moving for one frame.
pub open spec fn paddled(b: Ball, paddle: Rect, dt_ms: u64, screen_w: i64) -> Ball {
    ball_bounced(b, paddle).advanced(dt_ms, screen_w)
}

/// Resolves each ball's collision with the paddle, then moves it for one
/// frame.
pub fn bounce_and_advance(balls: &mut Vec<Ball>, paddle: &Rect, dt_ms: u64, screen_w: i64)
    requires
        balls_ok(old(balls)@),
        in_world(*paddle),
        dt_ms <= MAX_FRAME_MS,
        0 <= screen_w <= SCREEN_LIMIT,
    ensures
        final(balls)@ == Seq::new(old(balls)@.len(), |i: int| paddled(old(balls)@[i], *paddle, dt_ms, screen_w)),
{
    let ghost s0 = balls@;
    let mut i: usize = 0;
    while i < balls.len()
        invariant
            balls.len() == s0.len(),
            i <= balls.len(),
            in_world(*paddle),
            dt_ms <= MAX_FRAME_MS,
            0 <= screen_w <= SCREEN_LIMIT,
            balls_ok(s0),
            forall|k: int| 0 <= k < i ==> #[trigger] balls@[k] == paddled(s0[k], *paddle, dt_ms, screen_w),
            forall|k: int| i <= k < balls.len() ==> #[trigger] balls@[k] == s0[k],
        decreases balls.len() - i,
    {
        let mut ball = balls[i];
        proof {
            lemma_bounce_in_reach(ball, *paddle);
        }
        crate::geometry::resolve_collision(&mut ball.rect, &mut ball.vel, paddle);
        ball.update(dt_ms, screen_w);
        balls.set(i, ball);
        i = i + 1;
    }
    assert(balls@ =~= Seq::new(s0.len(), |i: int| paddled(s0[i], *paddle, dt_ms, screen_w)));
}

pub proof fn lemma_kept_balls(s: Seq<Ball>, h: int)
    requires
        balls_ok(s),
    ensures
        balls_ok(kept_balls(s, h)),
        kept_balls(s, h).len() <= s.len(),
    decreases s.len(),
{
    if s.len() > 0 {
        lemma_kept_balls(s.drop_last(), h);
    }
}

pub proof fn lemma_kept_blocks(s: Seq<Block>)
    requires
        blocks_in_world(s),
    ensures
        blocks_in_world(kept_blocks(s)),
        kept_blocks(s).len() <= s.len(),
    decreases s.len(),
{
    if s.len() > 0 {
        lemma_kept_blocks(s.drop_last());
    }
}

/// Every block of `s` has hits left.
pub open spec fn all_alive(s: Seq<Block>) -> bool {
    forall|i: int| 0 <= i < s.len() ==> (#[trigger] s[i]).lives > 0
}

pub proof fn lemma_kept_blocks_alive(s: Seq<Block>)
    ensures
        all_alive(kept_blocks(s)),
    decreases s.len(),
{
    if s.len() > 0 {
        lemma_kept_blocks_alive(s.drop_last());
    }
}

/// A freshly laid out board has hits left in every block.
pub proof fn lemma_dealt_alive(after: Seq<Block>, screen_w: int, rolls: Seq<i32>, picks: Seq<usize>)
    requires
        dealt(after, screen_w, rolls, picks),
    ensures
        all_alive(after),
{
    assert forall|i: int| 0 <= i < after.len() implies (#[trigger] after[i]).lives > 0 by {
        assert(1 <= rolls[i]);
    }
}

/// The whole game: state, score, lives, paddle, blocks and balls.
pub struct Session {
    pub state: GameState,
    pub score: u64,
    pub lives: i32,
    pub player: Player,
    pub blocks: Vec<Block>,
    pub balls: Vec<Ball>,
}

/// `t` is `s` after the world part of a frame, in which the balls created
/// for destroyed spawn blocks are `fresh`: the paddle moves; every ball meets
/// every block (scoring and queueing spawns); the queued balls are added
/// after the scan; balls below the screen are removed, and a life is lost
/// when that empties a collection that held balls; blocks without hits are
/// removed; each ball meets the paddle and moves.
pub open spec fn world_step(s: Session, t: Session, input: FrameInput, screen: Screen, fresh: Seq<Ball>) -> bool {
    let player = s.player.moved(input.left, input.right, input.dt_ms, screen.width);
    let n = s.blocks@.len() as int;
    let spawns = spawn_list(s.balls@, s.blocks@, n);
    let all = after_blocks(s.balls@, s.blocks@, n) + fresh;
    let remaining = kept_balls(all, screen.height as int);
    let lost = all.len() > 0 && remaining.len() == 0;
    &&& fresh.len() == spawns.len()
    &&& forall|i: int| 0 <= i < fresh.len() ==> fresh_ball_at(#[trigger] fresh[i], spawns[i])
    &&& t.player == player
    &&& t.state == s.state
    &&& t.score == s.score + destroyed_count(s.balls@, s.blocks@, n)
    &&& t.lives == if lost { s.lives - 1 } else { s.lives as int }
    &&& t.blocks@ == kept_blocks(struck_blocks(s.balls@, s.blocks@))
    &&& t.balls@ == Seq::new(
        remaining.len(),
        |i: int| paddled(remaining[i], player.rect, input.dt_ms, screen.width),
    )
}

/// `t` is `s` after the state machine's part of a frame.
pub open spec fn state_step(s: Session, t: Session, launch: bool, screen: Screen) -> bool {
    let st = next_step(s.state, s.blocks@.len(), s.lives as int, s.balls@.len(), launch);
    &&& t.state == st.state
    &&& t.player == s.player
    &&& t.lives == if st.reset { START_LIVES } else { s.lives }
    &&& t.score == if st.reset { 0 } else { s.score }
    &&& if st.deal {
        exists|rolls: Seq<i32>, picks: Seq<usize>| dealt(t.blocks@, screen.width as int, rolls, picks)
    } else {
        t.blocks@ == s.blocks@
    }
    &&& if st.launch_ball {
        &&& t.balls@.len() == s.balls@.len() + 1
        &&& t.balls@.drop_last() == s.balls@
        &&& fresh_ball_at(t.balls@.last(), launch_point(s.player))
    } else {
        t.balls@ == s.balls@
    }
}

impl Session {
    /// Paddle and blocks lie within the world.
    pub open spec fn placed(self) -> bool {
        &&& in_world(self.player.rect)
        &&& blocks_in_world(self.blocks@)
    }

    /// Paddle, blocks and balls lie where a frame's arithmetic is safe.
    pub open spec fn wf(self) -> bool {
        &&& self.placed()
        &&& balls_ok(self.balls@)
    }

    /// What a frame needs beyond well-formedness: the counters cannot
    /// overflow.
    pub open spec fn ready(self, input: FrameInput, screen: Screen) -> bool {
        &&& self.wf()
        &&& screen.valid()
        &&& input.dt_ms <= MAX_FRAME_MS
        &&& self.score + self.blocks@.len() <= u64::MAX
        &&& self.lives > i32::MIN
    }

    /// Whether `frame` may be called with these inputs.
    pub fn is_ready(&self, input: &FrameInput, screen: &Screen) -> (r: bool)
        ensures
            r == self.ready(*input, *screen),
    {
        if !screen.is_valid() {
            return false;
        }
        if input.dt_ms > MAX_FRAME_MS || self.lives == i32::MIN {
            return false;
        }
        if self.score > u64::MAX - self.blocks.len() as u64 {
            return false;
        }
        if !rect_in_world(&self.player.rect) {
            return false;
        }
        let mut i: usize = 0;
        while i < self.blocks.len()
            invariant
                i <= self.blocks.len(),
                forall|k: int| 0 <= k < i ==> in_world(#[trigger] self.blocks@[k].rect),
            decreases self.blocks.len() - i,
        {
            if !rect_in_world(&self.blocks[i].rect) {
                return false;
            }
            i = i + 1;
        }
        let mut j: usize = 0;
        while j < self.balls.len()
            invariant
                j <= self.balls.len(),
                forall|k: int| 0 <= k < j ==> ball_ok(#[trigger] self.balls@[k]),
            decreases self.balls.len() - j,
        {
            let b = self.balls[j];
            let v = b.vel;
            if !(-VEL_LIMIT <= v.x && v.x <= VEL_LIMIT && -VEL_LIMIT <= v.y && v.y <= VEL_LIMIT) {
                return false;
            }
            if !(-REACH_LIMIT <= b.rect.x && b.rect.x <= REACH_LIMIT && -REACH_LIMIT <= b.rect.y && b.rect.y <= REACH_LIMIT
                && 0 <= b.rect.w && b.rect.w <= SIZE_LIMIT && 0 <= b.rect.h && b.rect.h <= SIZE_LIMIT) {
                return false;
            }
            j = j + 1;
        }
        true
    }

    /// A session in the menu, with a full set of lives, no score, the paddle
    /// centred, and no blocks or balls.
    pub fn new(screen: &Screen) -> (r: Session)
        requires
            screen.valid(),
        ensures
            r.state == GameState::Menu,
            r.score == 0,
            r.lives == START_LIVES,
            r.player.rect == (Rect {
                x: (screen.width / 2 - crate::entities::PLAYER_W / 2) as i64,
                y: (screen.height - crate::entities::PLAYER_LIFT) as i64,
                w: crate::entities::PLAYER_W,
                h: crate::entities::PLAYER_H,
            }),
            r.blocks@.len() == 0,
            r.balls@.len() == 0,
            r.wf(),
    {
        Session {
            state: GameState::Menu,
            score: 0,
            lives: START_LIVES,
            player: Player::new(screen.width, screen.height),
            blocks: Vec::new(),
            balls: Vec::new(),
        }
    }

    /// The world part of a frame (see `world_step`).
    pub fn update_world(&mut self, input: &FrameInput, screen: &Screen)
        requires
            old(self).wf(),
            screen.valid(),
            input.dt_ms <= MAX_FRAME_MS,
            old(self).score + old(self).blocks@.len() <= u64::MAX,
            old(self).lives > i32::MIN,
        ensures
            final(self).placed(),
            final(self).blocks@.len() <= old(self).blocks@.len(),
            all_alive(final(self).blocks@),
            exists|fresh: Seq<Ball>| world_step(*old(self), *final(self), *input, *screen, fresh),
    {
        let ghost s0 = *self;
        self.player.update(input.left, input.right, input.dt_ms, screen.width);
        let to_spawn = collide_blocks(&mut self.blocks, &mut self.balls, &mut self.score);
        let ghost scanned = self.balls@;
        spawn_balls(&mut self.balls, &to_spawn);
        let ghost fresh = self.balls@.skip(scanned.len() as int);
        assert(self.balls@ =~= scanned + fresh);
        let ghost all = self.balls@;
        assert forall|i: int| 0 <= i < all.len() implies ball_ok(#[trigger] all[i]) by {
            if i >= scanned.len() {
                assert(fresh_ball_at(all[scanned.len() + (i - scanned.len())], to_spawn@[i - scanned.len()]));
                crate::scan::lemma_spawn_in_world(s0.balls@, s0.blocks@, s0.blocks@.len() as int, i - scanned.len());
            }
        }
        assert forall|i: int| 0 <= i < fresh.len() implies fresh_ball_at(
            #[trigger] fresh[i],
            spawn_list(s0.balls@, s0.blocks@, s0.blocks@.len() as int)[i],
        ) by {
            assert(fresh[i] == all[scanned.len() + i]);
        }
        let lost = remove_fallen(&mut self.balls, screen.height);
        if lost {
            self.lives = self.lives - 1;
        }
        proof {
            lemma_kept_balls(all, screen.height as int);
            crate::scan::lemma_struck_in_world(s0.balls@, s0.blocks@);
            lemma_kept_blocks(struck_blocks(s0.balls@, s0.blocks@));
        }
        remove_destroyed(&mut self.blocks);
        bounce_and_advance(&mut self.balls, &self.player.rect, input.dt_ms, screen.width);
        proof {
            lemma_kept_blocks_alive(struck_blocks(s0.balls@, s0.blocks@));
        }
        assert(world_step(s0, *self, *input, *screen, fresh));
    }

    /// The state machine's part of a frame (see `state_step`).
    pub fn update_state(&mut self, launch: bool, screen: &Screen)
        requires
            old(self).placed(),
            screen.valid(),
        ensures
            final(self).placed(),
            all_alive(old(self).blocks@) ==> all_alive(final(self).blocks@),
            state_step(*old(self), *final(self), launch, *screen),
    {
        let ghost s0 = *self;
        let t = transition(self.state, self.blocks.len(), self.lives, self.balls.len(), launch);
        let ghost mut rolls: Seq<i32> = Seq::empty();
        let ghost mut picks: Seq<usize> = Seq::empty();
        self.state = t.state;
        if t.reset {
            self.lives = START_LIVES;
            self.score = 0;
        }
        if t.deal {
            init_blocks(&mut self.blocks, screen.width);
            proof {
                let (r, p) = choose|r: Seq<i32>, p: Seq<usize>| dealt(self.blocks@, screen.width as int, r, p);
                rolls = r;
                picks = p;
                crate::board::lemma_dealt_in_world(self.blocks@, screen.width as int);
            }
        }
        if t.launch_ball {
            let p = Point {
                x: self.player.rect.x + self.player.rect.w / 2,
                y: self.player.rect.y - LAUNCH_GAP,
            };
            spawn_ball(&mut self.balls, p);
            assert(self.balls@ =~= s0.balls@.push(self.balls@.last()));
        }
        if t.deal {
            assert(dealt(self.blocks@, screen.width as int, rolls, picks));
            proof {
                lemma_dealt_alive(self.blocks@, screen.width as int, rolls, picks);
            }
        }
    }

    /// One frame: the world part, then the state machine's part. Afterwards
    /// every block present has hits left.
    pub fn frame(&mut self, input: &FrameInput, screen: &Screen)
        requires
            old(self).ready(*input, *screen),
        ensures
            final(self).placed(),
            all_alive(final(self).blocks@),
            exists|mid: Session, fresh: Seq<Ball>|
                world_step(*old(self), mid, *input, *screen, fresh) && state_step(mid, *final(self), input.launch, *screen),
    {
        self.update_world(input, screen);
        let ghost mid = *self;
        let ghost fresh = choose|fresh: Seq<Ball>| world_step(*old(self), mid, *input, *screen, fresh);
        self.update_state(input.launch, screen);
        assert(world_step(*old(self), mid, *input, *screen, fresh) && state_step(mid, *self, input.launch, *screen));
    }
}

/// Lives fall by exactly one when the frame's removal of fallen balls
/// empties a collection that held balls, and the rule takes none when no
/// ball was in play.
pub proof fn lemma_lives_rule(s: Session, t: Session, input: FrameInput, screen: Screen, fresh: Seq<Ball>)
    requires
        world_step(s, t, input, screen, fresh),
    ensures
        ({
            let all = after_blocks(s.balls@, s.blocks@, s.blocks@.len() as int) + fresh;
            &&& all.len() > 0 && kept_balls(all, screen.height as int).len() == 0 ==> t.lives == s.lives - 1
            &&& all.len() == 0 ==> t.lives == s.lives
            &&& kept_balls(all, screen.height as int).len() > 0 ==> t.lives == s.lives
        }),
{
}

/// Launching from the menu starts a game: score and lives are reset, the
/// blocks are replaced by a board of 64, each a regular block with one or
/// two hits or a spawn block with one hit, and exactly one ball is added
/// above the paddle.
pub proof fn lemma_launch_from_menu(s: Session, t: Session, screen: Screen)
    requires
        s.state == GameState::Menu,
        state_step(s, t, true, screen),
    ensures
        t.state == GameState::Playing,
        t.lives == START_LIVES,
        t.score == 0,
        t.blocks@.len() == BOARD_SIZE,
        1 <= crate::board::spawn_count(t.blocks@) <= crate::board::SPAWN_PICKS,
        forall|i: int|
            0 <= i < t.blocks@.len() ==> {
                let b = #[trigger] t.blocks@[i];
                (b.block_type == crate::entities::BlockType::Regular && 1 <= b.lives <= 2) || (b.block_type
                    == crate::entities::BlockType::SpawnBall && b.lives == 1)
            },
        t.balls@.len() == s.balls@.len() + 1,
        fresh_ball_at(t.balls@.last(), launch_point(s.player)),
{
    let (rolls, picks) = choose|rolls: Seq<i32>, picks: Seq<usize>| dealt(t.blocks@, screen.width as int, rolls, picks);
    crate::board::lemma_dealt_spawn_count(t.blocks@, screen.width as int, rolls, picks);
    assert forall|i: int| 0 <= i < t.blocks@.len() implies {
        let b = #[trigger] t.blocks@[i];
        (b.block_type == crate::entities::BlockType::Regular && 1 <= b.lives <= 2) || (b.block_type
            == crate::entities::BlockType::SpawnBall && b.lives == 1)
    } by {
        assert(1 <= rolls[i] <= 2);
    }
}

/// In a game, a frame that starts with no blocks left and lives left ends
/// in the won state; one that starts with no lives left ends in the dead
/// state, whatever blocks remain.
pub proof fn lemma_game_end(s: Session, t: Session, launch: bool, screen: Screen)
    requires
        s.state == GameState::Playing,
        state_step(s, t, launch, screen),
    ensures
        s.lives > 0 && s.blocks@.len() == 0 ==> t.state == GameState::Won,
        s.lives <= 0 ==> t.state == GameState::Dead,
{
}

proof fn lemma_kept_blocks_none(s: Seq<Block>)
    requires
        forall|i: int| 0 <= i < s.len() ==> (#[trigger] s[i]).lives <= 0,
    ensures
        kept_blocks(s).len() == 0,
    decreases s.len(),
{
    if s.len() > 0 {
        assert forall|i: int| 0 <= i < s.drop_last().len() implies (#[trigger] s.drop_last()[i]).lives <= 0 by {
            assert(s.drop_last()[i] == s[i]);
        }
        lemma_kept_blocks_none(s.drop_last());
    }
}

proof fn lemma_kept_blocks_shrink(s: Seq<Block>, j: int)
    requires
        0 <= j < s.len(),
        s[j].lives <= 0,
    ensures
        kept_blocks(s).len() < s.len(),
    decreases s.len(),
{
    if j < s.len() - 1 {
        assert(s.drop_last()[j] == s[j]);
        lemma_kept_blocks_shrink(s.drop_last(), j);
    } else {
        lemma_kept_blocks_len(s.drop_last());
    }
}

proof fn lemma_kept_blocks_len(s: Seq<Block>)
    ensures
        kept_blocks(s).len() <= s.len(),
    decreases s.len(),
{
    if s.len() > 0 {
        lemma_kept_blocks_len(s.drop_last());
    }
}

proof fn lemma_lone_destroyed(balls: Seq<Ball>, blocks: Seq<Block>, j: int, m: int)
    requires
        0 <= j < blocks.len(),
        0 <= m <= blocks.len(),
        destroyed(blocks[j], hits_on(balls, blocks, j)),
        forall|k: int| 0 <= k < blocks.len() && k != j ==> !destroyed(#[trigger] blocks[k], hits_on(balls, blocks, k)),
    ensures
        destroyed_count(balls, blocks, m) == if j < m { 1nat } else { 0nat },
    decreases m,
{
    if m > 0 {
        lemma_lone_destroyed(balls, blocks, j, m - 1);
    }
}

/// In a game, a block with one hit left that some ball meets during the
/// frame's scan is gone once the frame's cleanup has run, and when no other
/// block is destroyed in that frame the score grows by exactly one.
pub proof fn lemma_frame_last_hit(s: Session, t: Session, input: FrameInput, screen: Screen, fresh: Seq<Ball>, j: int)
    requires
        world_step(s, t, input, screen, fresh),
        0 <= j < s.blocks@.len(),
        s.blocks@[j].lives == 1,
        hits_on(s.balls@, s.blocks@, j) >= 1,
    ensures
        struck_blocks(s.balls@, s.blocks@)[j].lives == 0,
        t.blocks@.len() < s.blocks@.len(),
        all_alive(t.blocks@),
        (forall|k: int|
            0 <= k < s.blocks@.len() && k != j ==> !destroyed(
                #[trigger] s.blocks@[k],
                hits_on(s.balls@, s.blocks@, k),
            )) ==> t.score == s.score + 1,
{
    let st = struck_blocks(s.balls@, s.blocks@);
    lemma_kept_blocks_shrink(st, j);
    lemma_kept_blocks_alive(st);
    if forall|k: int|
        0 <= k < s.blocks@.len() && k != j ==> !destroyed(
            #[trigger] s.blocks@[k],
            hits_on(s.balls@, s.blocks@, k),
        ) {
        lemma_lone_destroyed(s.balls@, s.blocks@, j, s.blocks@.len() as int);
    }
}

/// In a game, a whole frame ends in the dead state when it starts with no
/// lives left, whatever blocks remain; it ends in the won state when the
/// scan leaves every block without hits and a life remains after the
/// frame's ball removal.
pub proof fn lemma_frame_end(
    s: Session,
    mid: Session,
    t: Session,
    input: FrameInput,
    screen: Screen,
    fresh: Seq<Ball>,
)
    requires
        s.state == GameState::Playing,
        world_step(s, mid, input, screen, fresh),
        state_step(mid, t, input.launch, screen),
    ensures
        s.lives <= 0 ==> t.state == GameState::Dead,
        mid.lives > 0 && (forall|k: int|
            0 <= k < s.blocks@.len() ==> (#[trigger] struck_blocks(s.balls@, s.blocks@)[k]).lives <= 0)
            ==> t.state == GameState::Won,
{
    let st = struck_blocks(s.balls@, s.blocks@);
    if forall|k: int| 0 <= k < s.blocks@.len() ==> (#[trigger] st[k]).lives <= 0 {
        lemma_kept_blocks_none(st);
    }
}

} // verus!
