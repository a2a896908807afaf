use vstd::prelude::*;
use crate::geometry::{bounced, intersection, Point, Rect, SIZE_LIMIT};
use crate::entities::{Ball, Block, BlockType, WORLD_LIMIT};

verus! {

/// How far from the origin a ball may be pushed by a collision with a
/// rectangle that lies within the world.
pub const REACH_LIMIT: i64 = 1_128_098_930_098_176;

/// `r` is a valid rectangle within the world's extent.
pub open spec fn in_world(r: Rect) -> bool {
    r.valid() && -WORLD_LIMIT <= r.x <= WORLD_LIMIT && -WORLD_LIMIT <= r.y <= WORLD_LIMIT
}

/// `b` is a valid ball within reach of the world.
pub open spec fn ball_ok(b: Ball) -> bool {
    b.valid() && -REACH_LIMIT <= b.rect.x <= REACH_LIMIT && -REACH_LIMIT <= b.rect.y <= REACH_LIMIT
}

pub open spec fn balls_ok(s: Seq<Ball>) -> bool {
    forall|i: int| 0 <= i < s.len() ==> ball_ok(#[trigger] s[i])
}

pub open spec fn blocks_in_world(s: Seq<Block>) -> bool {
    forall|i: int| 0 <= i < s.len() ==> in_world(#[trigger] s[i].rect)
}

/// The ball touches or overlaps `r`.
pub open spec fn meets(b: Ball, r: Rect) -> bool {
    intersection(b.rect, r) is Some
}

/// The ball after resolving a collision with the still rectangle `r`.
pub open spec fn ball_bounced(b: Ball, r: Rect) -> Ball {
    Ball { rect: bounced(b.rect, b.vel, r).0, vel: bounced(b.rect, b.vel, r).1 }
}

/// Every ball of `s` after resolving a collision with `r`.
pub open spec fn bounce_all(s: Seq<Ball>, r: Rect) -> Seq<Ball> {
    Seq::new(s.len(), |i: int| ball_bounced(s[i], r))
}

/// How many balls of `s` meet `r`.
pub open spec fn hit_count(s: Seq<Ball>, r: Rect) -> nat
    decreases s.len(),
{
    if s.len() == 0 {
        0
    } else {
        hit_count(s.drop_last(), r) + if meets(s.last(), r) { 1nat } else { 0nat }
    }
}

/// The block is destroyed by `k` hits: it had hits left, and `k` used them up.
pub open spec fn destroyed(b: Block, k: nat) -> bool {
    b.lives > 0 && k >= b.lives
}

/// The block after `k` hits: each hit takes one from its hit-count while the
/// count is positive.
pub open spec fn struck(b: Block, k: nat) -> Block {
    Block {
        lives: if b.lives <= 0 { b.lives } else if k >= b.lives { 0 } else { (b.lives - k) as i32 },
        ..b
    }
}

/// The spawn positions queued by a block taking `k` hits: its centre, once,
/// when it is a spawn block that they destroy.
pub open spec fn spawns_of(b: Block, k: nat) -> Seq<Point> {
    if destroyed(b, k) && b.block_type == BlockType::SpawnBall {
        seq![b.center_spec()]
    } else {
        Seq::empty()
    }
}

/// The balls after the collision scan has gone through the first `j` blocks.
pub open spec fn after_blocks(balls: Seq<Ball>, blocks: Seq<Block>, j: int) -> Seq<Ball>
    decreases j,
{
    if j <= 0 {
        balls
    } else {
        bounce_all(after_blocks(balls, blocks, j - 1), blocks[j - 1].rect)
    }
}

/// How many balls hit block `j` in the scan.
pub open spec fn hits_on(balls: Seq<Ball>, blocks: Seq<Block>, j: int) -> nat {
    hit_count(after_blocks(balls, blocks, j), blocks[j].rect)
}

/// The blocks after the scan.
pub open spec fn struck_blocks(balls: Seq<Ball>, blocks: Seq<Block>) -> Seq<Block> {
    Seq::new(blocks.len(), |j: int| struck(blocks[j], hits_on(balls, blocks, j)))
}

/// How many of the first `j` blocks the scan destroys.
pub open spec fn destroyed_count(balls: Seq<Ball>, blocks: Seq<Block>, j: int) -> nat
    decreases j,
{
    if j <= 0 {
        0
    } else {
        destroyed_count(balls, blocks, j - 1) + if destroyed(blocks[j - 1], hits_on(balls, blocks, j - 1)) {
            1nat
        } else {
            0nat
        }
    }
}

/// The spawn positions queued by the first `j` blocks, in block order.
pub open spec fn spawn_list(balls: Seq<Ball>, blocks: Seq<Block>, j: int) -> Seq<Point>
    decreases j,
{
    if j <= 0 {
        Seq::empty()
    } else {
        spawn_list(balls, blocks, j - 1) + spawns_of(blocks[j - 1], hits_on(balls, blocks, j - 1))
    }
}

/// The balls of `s` still above the screen's bottom edge, in order.
pub open spec fn kept_balls(s: Seq<Ball>, screen_h: int) -> Seq<Ball>
    decreases s.len(),
{
    if s.len() == 0 {
        s
    } else if s.last().rect.y < screen_h {
        kept_balls(s.drop_last(), screen_h).push(s.last())
    } else {
        kept_balls(s.drop_last(), screen_h)
    }
}

/// The blocks of `s` with hits left, in order.
pub open spec fn kept_blocks(s: Seq<Block>) -> Seq<Block>
    decreases s.len(),
{
    if s.len() == 0 {
        s
    } else if s.last().lives > 0 {
        kept_blocks(s.drop_last()).push(s.last())
    } else {
        kept_blocks(s.drop_last())
    }
}

/// A collision with a rectangle in the world leaves a ball within reach.
pub proof fn lemma_bounce_in_reach(b: Ball, r: Rect)
    requires
        ball_ok(b),
        in_world(r),
    ensures
        ball_ok(ball_bounced(b, r)),
{
}

pub proof fn lemma_after_blocks(balls: Seq<Ball>, blocks: Seq<Block>, j: int)
    requires
        balls_ok(balls),
        blocks_in_world(blocks),
        0 <= j <= blocks.len(),
    ensures
        balls_ok(after_blocks(balls, blocks, j)),
        after_blocks(balls, blocks, j).len() == balls.len(),
    decreases j,
{
    if j > 0 {
        lemma_after_blocks(balls, blocks, j - 1);
        let prev = after_blocks(balls, blocks, j - 1);
        assert forall|i: int| 0 <= i < prev.len() implies ball_ok(#[trigger] bounce_all(prev, blocks[j - 1].rect)[i]) by {
            lemma_bounce_in_reach(prev[i], blocks[j - 1].rect);
        }
    }
}

pub proof fn lemma_destroyed_count_bound(balls: Seq<Ball>, blocks: Seq<Block>, j: int)
    requires
        0 <= j,
    ensures
        destroyed_count(balls, blocks, j) <= j,
    decreases j,
{
    if j > 0 {
        lemma_destroyed_count_bound(balls, blocks, j - 1);
    }
}

/// Resolves the collision of every ball with one block, in ball order.
/// Each ball that meets the block takes one hit from it while it has hits
/// left; when the count reaches zero the score grows by one and, for a
/// spawn block, its centre is queued once for a new ball. The ball
/// collection keeps its length.
pub fn collide_block(block: &mut Block, balls: &mut Vec<Ball>, to_spawn: &mut Vec<Point>, score: &mut u64)
    requires
        in_world(old(block).rect),
        balls_ok(old(balls)@),
        *old(score) < u64::MAX,
    ensures
        final(balls)@ == bounce_all(old(balls)@, old(block).rect),
        final(balls)@.len() == old(balls)@.len(),
        *final(block) == struck(*old(block), hit_count(old(balls)@, old(block).rect)),
        *final(score) == *old(score) + if destroyed(*old(block), hit_count(old(balls)@, old(block).rect)) {
            1int
        } else {
            0int
        },
        final(to_spawn)@ == old(to_spawn)@ + spawns_of(*old(block), hit_count(old(balls)@, old(block).rect)),
{
    let ghost b0 = *block;
    let ghost balls0 = balls@;
    let ghost spawn0 = to_spawn@;
    let ghost score0 = *score;
    let r = block.rect;
    let mut i: usize = 0;
    while i < balls.len()
        invariant
            r == b0.rect,
            in_world(r),
            balls.len() == balls0.len(),
            i <= balls.len(),
            balls_ok(balls0),
            score0 < u64::MAX,
            forall|k: int| 0 <= k < i ==> #[trigger] balls@[k] == ball_bounced(balls0[k], r),
            forall|k: int| i <= k < balls.len() ==> #[trigger] balls@[k] == balls0[k],
            *block == struck(b0, hit_count(balls0.take(i as int), r)),
            *score == score0 + if destroyed(b0, hit_count(balls0.take(i as int), r)) { 1int } else { 0int },
            to_spawn@ == spawn0 + spawns_of(b0, hit_count(balls0.take(i as int), r)),
        decreases balls.len() - i,
    {
        let mut ball = balls[i];
        let hit = crate::geometry::resolve_collision(&mut ball.rect, &mut ball.vel, &r);
        balls.set(i, ball);
        let ghost kp = hit_count(balls0.take(i as int), r);
        assert(balls0.take(i + 1).drop_last() =~= balls0.take(i as int));
        assert(balls0.take(i + 1).last() == balls0[i as int]);
        let ghost kn = hit_count(balls0.take(i + 1), r);
        assert(kn == kp + if hit { 1nat } else { 0nat });
        assert(spawn0 + Seq::<Point>::empty() =~= spawn0);
        if hit {
            if block.lives > 0 {
                block.lives = block.lives - 1;
                if block.lives == 0 {
                    *score = *score + 1;
                    if block.block_type == BlockType::SpawnBall {
                        to_spawn.push(block.center());
                        assert(to_spawn@ =~= spawn0 + seq![b0.center_spec()]);
                    }
                }
            }
        }
        i = i + 1;
    }
    assert(balls0.take(balls0.len() as int) =~= balls0);
    assert(balls@ =~= bounce_all(balls0, r));
}

/// Resolves the collision of every ball with every block: blocks in order,
/// and for each block the balls in order. Returns the spawn positions queued
/// by destroyed spawn blocks; no ball is added or removed during the scan.
pub fn collide_blocks(blocks: &mut Vec<Block>, balls: &mut Vec<Ball>, score: &mut u64) -> (r: Vec<Point>)
    requires
        blocks_in_world(old(blocks)@),
        balls_ok(old(balls)@),
        *old(score) + old(blocks).len() <= u64::MAX,
    ensures
        final(balls)@ == after_blocks(old(balls)@, old(blocks)@, old(blocks).len() as int),
        final(balls)@.len() == old(balls)@.len(),
        balls_ok(final(balls)@),
        final(blocks)@ == struck_blocks(old(balls)@, old(blocks)@),
        *final(score) == *old(score) + destroyed_count(old(balls)@, old(blocks)@, old(blocks).len() as int),
        r@ == spawn_list(old(balls)@, old(blocks)@, old(blocks).len() as int),
{
    let ghost balls0 = balls@;
    let ghost blocks0 = blocks@;
    let ghost score0 = *score;
    let mut to_spawn: Vec<Point> = Vec::new();
    let mut j: usize = 0;
    while j < blocks.len()
        invariant
            blocks.len() == blocks0.len(),
            j <= blocks.len(),
            blocks_in_world(blocks0),
            balls_ok(balls0),
            score0 + blocks0.len() <= u64::MAX,
            balls@ == after_blocks(balls0, blocks0, j as int),
            balls_ok(balls@),
            forall|k: int| 0 <= k < j ==> #[trigger] blocks@[k] == struck(blocks0[k], hits_on(balls0, blocks0, k)),
            forall|k: int| j <= k < blocks.len() ==> #[trigger] blocks@[k] == blocks0[k],
            *score == score0 + destroyed_count(balls0, blocks0, j as int),
            to_spawn@ == spawn_list(balls0, blocks0, j as int),
        decreases blocks.len() - j,
    {
        proof {
            lemma_destroyed_count_bound(balls0, blocks0, j as int);
        }
        let mut b = blocks[j];
        assert(in_world(blocks0[j as int].rect));
        collide_block(&mut b, balls, &mut to_spawn, score);
        blocks.set(j, b);
        j = j + 1;
        proof {
            lemma_after_blocks(balls0, blocks0, j as int);
        }
    }
    assert(blocks@ =~= struck_blocks(balls0, blocks0));
    proof {
        lemma_after_blocks(balls0, blocks0, blocks0.len() as int);
    }
    to_spawn
}

/// Removes the balls whose top edge is at or below the screen's bottom.
/// Returns whether that emptied a collection that held balls.
pub fn remove_fallen(balls: &mut Vec<Ball>, screen_h: i64) -> (lost_all: bool)
    ensures
        final(balls)@ == kept_balls(old(balls)@, screen_h as int),
        lost_all == (old(balls)@.len() > 0 && final(balls)@.len() == 0),
{
    let ghost s0 = balls@;
    let before = balls.len();
    let mut kept: Vec<Ball> = Vec::new();
    let mut i: usize = 0;
    while i < balls.len()
        invariant
            balls@ == s0,
            i <= balls.len(),
            kept@ == kept_balls(s0.take(i as int), screen_h as int),
        decreases balls.len() - i,
    {
        assert(s0.take(i + 1).drop_last() =~= s0.take(i as int));
        if balls[i].rect.y < screen_h {
            kept.push(balls[i]);
        }
        i = i + 1;
    }
    assert(s0.take(s0.len() as int) =~= s0);
    *balls = kept;
    before > 0 && balls.len() == 0
}

/// Removes the blocks that have no hits left.
pub fn remove_destroyed(blocks: &mut Vec<Block>)
    ensures
        final(blocks)@ == kept_blocks(old(blocks)@),
{
    let ghost s0 = blocks@;
    let mut kept: Vec<Block> = Vec::new();
    let mut i: usize = 0;
    while i < blocks.len()
        invariant
            blocks@ == s0,
            i <= blocks.len(),
            kept@ == kept_blocks(s0.take(i as int)),
        decreases blocks.len() - i,
    {
        assert(s0.take(i + 1).drop_last() =~= s0.take(i as int));
        if blocks[i].lives > 0 {
            kept.push(blocks[i]);
        }
        i = i + 1;
    }
    assert(s0.take(s0.len() as int) =~= s0);
    *blocks = kept;
}

/// Every queued spawn position is the centre of a block in the world.
pub proof fn lemma_spawn_in_world(balls: Seq<Ball>, blocks: Seq<Block>, j: int, i: int)
    requires
        blocks_in_world(blocks),
        0 <= j <= blocks.len(),
        0 <= i < spawn_list(balls, blocks, j).len(),
    ensures
        -WORLD_LIMIT <= spawn_list(balls, blocks, j)[i].x <= WORLD_LIMIT + SIZE_LIMIT,
        -WORLD_LIMIT <= spawn_list(balls, blocks, j)[i].y <= WORLD_LIMIT + SIZE_LIMIT,
    decreases j,
{
    if j > 0 {
        let prev = spawn_list(balls, blocks, j - 1);
        assert(in_world(blocks[j - 1].rect));
        if i < prev.len() {
            lemma_spawn_in_world(balls, blocks, j - 1, i);
        }
    }
}

/// The scan keeps every block where it was.
pub proof fn lemma_struck_in_world(balls: Seq<Ball>, blocks: Seq<Block>)
    requires
        blocks_in_world(blocks),
    ensures
        blocks_in_world(struck_blocks(balls, blocks)),
        struck_blocks(balls, blocks).len() == blocks.len(),
{
    assert forall|i: int| 0 <= i < blocks.len() implies in_world(#[trigger] struck_blocks(balls, blocks)[i].rect) by {
        assert(in_world(blocks[i].rect));
    }
}

/// A block with one hit left that one ball meets is used up by that
/// collision: its hit-count drops to zero, it counts as destroyed (so the
/// score grows by one), and the cleanup pass removes it.
pub proof fn lemma_last_hit_destroys(b: Block, ball: Ball)
    requires
        b.lives == 1,
        meets(ball, b.rect),
    ensures
        hit_count(seq![ball], b.rect) == 1,
        struck(b, 1).lives == 0,
        destroyed(b, 1),
        kept_blocks(seq![struck(b, 1)]).len() == 0,
{
    reveal_with_fuel(hit_count, 2);
    reveal_with_fuel(kept_blocks, 2);
    assert(seq![ball].drop_last() =~= Seq::<Ball>::empty());
    assert(seq![ball].last() == ball);
    assert(hit_count(Seq::<Ball>::empty(), b.rect) == 0);
    assert(seq![struck(b, 1)].drop_last() =~= Seq::<Block>::empty());
    assert(seq![struck(b, 1)].last() == struck(b, 1));
}

/// Destroying a spawn block queues exactly one spawn position, its centre.
pub proof fn lemma_spawn_block_queues_one(b: Block, k: nat)
    requires
        b.block_type == BlockType::SpawnBall,
        destroyed(b, k),
    ensures
        spawns_of(b, k) == seq![b.center_spec()],
        spawns_of(b, k).len() == 1,
{
}

} // verus!
