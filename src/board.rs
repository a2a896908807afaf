use vstd::prelude::*;
use crate::geometry::Rect;
use crate::entities::{Block, BlockType, BLOCK_W, BLOCK_H, SCREEN_LIMIT};
use crate::scan::{blocks_in_world, in_world};
use crate::random::random_between;

verus! {

/// Columns and rows of the board.
pub const BLOCKS_WIDE: usize = 8;
pub const BLOCKS_HIGH: usize = 8;

/// Number of blocks in a fresh board.
pub const BOARD_SIZE: usize = 64;

/// Number of draws of a block to turn into a spawn block.
pub const SPAWN_PICKS: usize = 8;

/// Width and height of a board cell: a block and 15 pixels of padding.
pub const CELL_W: i64 = 115_000_000;
pub const CELL_H: i64 = 55_000_000;

/// Distance of the board's first row from the screen's top (50 pixels).
pub const BOARD_TOP: i64 = 50_000_000;

/// Left edge of the board, which is centred on the screen.
pub open spec fn board_left(screen_w: int) -> int {
    screen_w / 2 - (BLOCKS_WIDE * CELL_W) / 2
}

/// The regular block in cell `i` (row by row) with `lives` hits.
pub open spec fn grid_block(screen_w: int, i: int, lives: i32) -> Block {
    Block {
        rect: Rect {
            x: (board_left(screen_w) + (i % BLOCKS_WIDE as int) * CELL_W) as i64,
            y: (BOARD_TOP + (i / BLOCKS_WIDE as int) * CELL_H) as i64,
            w: BLOCK_W,
            h: BLOCK_H,
        },
        lives,
        block_type: BlockType::Regular,
    }
}

/// The grid of regular blocks whose hit-counts are `rolls`, cell by cell.
pub open spec fn grid_seq(screen_w: int, rolls: Seq<i32>) -> Seq<Block> {
    Seq::new(rolls.len(), |i: int| grid_block(screen_w, i, rolls[i]))
}

/// `b` turned into a spawn block with one hit left.
pub open spec fn spawn_marked(b: Block) -> Block {
    Block { block_type: BlockType::SpawnBall, lives: 1, ..b }
}

/// Index `i` is among `picks`.
pub open spec fn picked(picks: Seq<usize>, i: int) -> bool {
    exists|j: int| 0 <= j < picks.len() && picks[j] == i
}

/// `s` with every picked block turned into a spawn block.
pub open spec fn marked_seq(s: Seq<Block>, picks: Seq<usize>) -> Seq<Block> {
    Seq::new(s.len(), |i: int| if picked(picks, i) { spawn_marked(s[i]) } else { s[i] })
}

/// `after` is a fresh grid whose hit-counts are `rolls` (each 1 or 2), in
/// which the blocks at the indices `picks` (possibly repeated) became spawn
/// blocks.
pub open spec fn dealt(after: Seq<Block>, screen_w: int, rolls: Seq<i32>, picks: Seq<usize>) -> bool {
    &&& rolls.len() == BOARD_SIZE
    &&& forall|i: int| 0 <= i < rolls.len() ==> 1 <= #[trigger] rolls[i] <= 2
    &&& picks.len() == SPAWN_PICKS
    &&& forall|j: int| 0 <= j < picks.len() ==> #[trigger] picks[j] < BOARD_SIZE
    &&& after == marked_seq(grid_seq(screen_w, rolls), picks)
}

/// The grid of regular blocks, centred on a screen `screen_w` wide, with the
/// given hit-counts.
pub fn grid_blocks(screen_w: i64, rolls: &Vec<i32>) -> (r: Vec<Block>)
    requires
        0 <= screen_w <= SCREEN_LIMIT,
        rolls.len() == BOARD_SIZE,
    ensures
        r@ == grid_seq(screen_w as int, rolls@),
{
    let left = screen_w / 2 - (BLOCKS_WIDE as i64 * CELL_W) / 2;
    let mut r: Vec<Block> = Vec::new();
    let mut i: usize = 0;
    while i < BOARD_SIZE
        invariant
            i <= BOARD_SIZE,
            rolls.len() == BOARD_SIZE,
            left == board_left(screen_w as int),
            0 <= screen_w <= SCREEN_LIMIT,
            r@ == grid_seq(screen_w as int, rolls@).take(i as int),
        decreases BOARD_SIZE - i,
    {
        let col = (i % BLOCKS_WIDE) as i64;
        let row = (i / BLOCKS_WIDE) as i64;
        let b = Block {
            rect: Rect { x: left + col * CELL_W, y: BOARD_TOP + row * CELL_H, w: BLOCK_W, h: BLOCK_H },
            lives: rolls[i],
            block_type: BlockType::Regular,
        };
        r.push(b);
        i = i + 1;
        assert(r@ =~= grid_seq(screen_w as int, rolls@).take(i as int));
    }
    assert(r@ =~= grid_seq(screen_w as int, rolls@));
    r
}

/// Turns the block at each index of `picks` into a spawn block with one hit
/// left; repeated indices change nothing further.
pub fn mark_spawn_blocks(blocks: &mut Vec<Block>, picks: &Vec<usize>)
    requires
        forall|j: int| 0 <= j < picks.len() ==> #[trigger] picks[j] < old(blocks).len(),
    ensures
        final(blocks)@ == marked_seq(old(blocks)@, picks@),
{
    let ghost start = blocks@;
    let mut j: usize = 0;
    assert(blocks@ =~= marked_seq(start, picks@.take(0)));
    while j < picks.len()
        invariant
            j <= picks.len(),
            blocks.len() == start.len(),
            forall|k: int| 0 <= k < picks.len() ==> #[trigger] picks[k] < start.len(),
            blocks@ == marked_seq(start, picks@.take(j as int)),
        decreases picks.len() - j,
    {
        let p = picks[j];
        let mut b = blocks[p];
        b.block_type = BlockType::SpawnBall;
        b.lives = 1;
        blocks.set(p, b);
        j = j + 1;
        assert forall|i: int| 0 <= i < start.len() implies picked(picks@.take(j as int), i) == (picked(
            picks@.take(j - 1),
            i,
        ) || i == p) by {
            if picked(picks@.take(j as int), i) && i != p {
                let k = choose|k: int| 0 <= k < j && #[trigger] picks@.take(j as int)[k] == i;
                assert(picks@.take(j - 1)[k] == i);
            }
            if i == p {
                assert(picks@.take(j as int)[j - 1] == i);
            }
            if picked(picks@.take(j - 1), i) {
                let k = choose|k: int| 0 <= k < j - 1 && #[trigger] picks@.take(j - 1)[k] == i;
                assert(picks@.take(j as int)[k] == i);
            }
        }
        assert(blocks@ =~= marked_seq(start, picks@.take(j as int)));
    }
    assert(picks@.take(picks.len() as int) =~= picks@);
}

/// Replaces the blocks with a fresh board: a centred 8 by 8 grid of regular
/// blocks, each with 1 or 2 hits drawn at random; then eight times a block
/// index is drawn over the board and that block becomes a spawn block with
/// one hit. Draws are independent, so fewer than eight distinct blocks may
/// become spawn blocks. Blocks left from an earlier round are dropped.
pub fn init_blocks(blocks: &mut Vec<Block>, screen_w: i64)
    requires
        0 <= screen_w <= SCREEN_LIMIT,
    ensures
        exists|rolls: Seq<i32>, picks: Seq<usize>| dealt(final(blocks)@, screen_w as int, rolls, picks),
        1 <= spawn_count(final(blocks)@) <= SPAWN_PICKS,
{
    let mut rolls: Vec<i32> = Vec::new();
    let mut i: usize = 0;
    while i < BOARD_SIZE
        invariant
            i <= BOARD_SIZE,
            rolls.len() == i,
            forall|k: int| 0 <= k < rolls.len() ==> 1 <= #[trigger] rolls[k] <= 2,
        decreases BOARD_SIZE - i,
    {
        let roll = random_between(1, 3);
        rolls.push(roll as i32);
        i = i + 1;
    }
    *blocks = grid_blocks(screen_w, &rolls);
    let n = blocks.len();
    let mut picks: Vec<usize> = Vec::new();
    let mut j: usize = 0;
    while j < SPAWN_PICKS
        invariant
            j <= SPAWN_PICKS,
            picks.len() == j,
            n == blocks.len(),
            n == BOARD_SIZE,
            forall|k: int| 0 <= k < picks.len() ==> #[trigger] picks[k] < n,
        decreases SPAWN_PICKS - j,
    {
        let p = random_between(0, n as i64);
        picks.push(p as usize);
        j = j + 1;
    }
    mark_spawn_blocks(blocks, &picks);
    assert(dealt(blocks@, screen_w as int, rolls@, picks@));
    proof {
        lemma_dealt_spawn_count(blocks@, screen_w as int, rolls@, picks@);
    }
}

/// A freshly laid out board lies within the world.
pub proof fn lemma_dealt_in_world(after: Seq<Block>, screen_w: int)
    requires
        0 <= screen_w <= SCREEN_LIMIT,
        exists|rolls: Seq<i32>, picks: Seq<usize>| dealt(after, screen_w, rolls, picks),
    ensures
        blocks_in_world(after),
{
    let (rolls, picks) = choose|rolls: Seq<i32>, picks: Seq<usize>| dealt(after, screen_w, rolls, picks);
    let all = grid_seq(screen_w, rolls);
    assert forall|i: int| 0 <= i < after.len() implies in_world(#[trigger] after[i].rect) by {
        assert(after[i].rect == all[i].rect);
        assert(0 <= i % 8 < 8);
        assert(0 <= i / 8 < 8);
        assert(0 <= (i % 8) * CELL_W <= 7 * CELL_W) by (nonlinear_arith)
            requires 0 <= i % 8 < 8;
        assert(0 <= (i / 8) * CELL_H <= 7 * CELL_H) by (nonlinear_arith)
            requires 0 <= i / 8 < 8;
    }
}

/// How many blocks of `s` are spawn blocks.
pub open spec fn spawn_count(s: Seq<Block>) -> nat
    decreases s.len(),
{
    if s.len() == 0 {
        0
    } else {
        spawn_count(s.drop_last()) + if s.last().block_type == BlockType::SpawnBall { 1nat } else { 0nat }
    }
}

pub open spec fn is_spawn(b: Block) -> bool {
    b.block_type == BlockType::SpawnBall
}

proof fn lemma_count_none(s: Seq<Block>)
    requires
        forall|i: int| 0 <= i < s.len() ==> !is_spawn(#[trigger] s[i]),
    ensures
        spawn_count(s) == 0,
    decreases s.len(),
{
    if s.len() > 0 {
        assert forall|i: int| 0 <= i < s.drop_last().len() implies !is_spawn(#[trigger] s.drop_last()[i]) by {
            assert(s.drop_last()[i] == s[i]);
        }
        lemma_count_none(s.drop_last());
    }
}

proof fn lemma_count_some(s: Seq<Block>, k: int)
    requires
        0 <= k < s.len(),
        is_spawn(s[k]),
    ensures
        spawn_count(s) >= 1,
    decreases s.len(),
{
    if k < s.len() - 1 {
        assert(s.drop_last()[k] == s[k]);
        lemma_count_some(s.drop_last(), k);
    }
}

/// Two sequences whose spawn blocks differ at most at index `p` differ in
/// spawn count by at most one.
proof fn lemma_count_one_change(s1: Seq<Block>, s2: Seq<Block>, p: int)
    requires
        s1.len() == s2.len(),
        forall|i: int| 0 <= i < s1.len() && i != p ==> is_spawn(#[trigger] s1[i]) == is_spawn(s2[i]),
    ensures
        spawn_count(s2) <= spawn_count(s1) + if 0 <= p < s1.len() { 1int } else { 0int },
    decreases s1.len(),
{
    if s1.len() > 0 {
        let (a, b) = (s1.drop_last(), s2.drop_last());
        assert forall|i: int| 0 <= i < a.len() && i != p implies is_spawn(#[trigger] a[i]) == is_spawn(b[i]) by {
            assert(a[i] == s1[i] && b[i] == s2[i]);
        }
        lemma_count_one_change(a, b, p);
    }
}

/// Marking with the first `j` picks makes at most `j` spawn blocks in a
/// sequence that held none.
proof fn lemma_marked_count(g: Seq<Block>, picks: Seq<usize>, j: int)
    requires
        0 <= j <= picks.len(),
        forall|i: int| 0 <= i < g.len() ==> !is_spawn(#[trigger] g[i]),
    ensures
        spawn_count(marked_seq(g, picks.take(j))) <= j,
    decreases j,
{
    if j == 0 {
        assert(marked_seq(g, picks.take(0)) =~= g);
        lemma_count_none(g);
    } else {
        let j0 = j - 1;
        lemma_marked_count(g, picks, j0);
        let s1 = marked_seq(g, picks.take(j0));
        let s2 = marked_seq(g, picks.take(j));
        assert forall|i: int| 0 <= i < s1.len() && i != picks[j0] implies is_spawn(#[trigger] s1[i]) == is_spawn(s2[i]) by {
            if picked(picks.take(j), i) {
                let k = choose|k: int| 0 <= k < j && #[trigger] picks.take(j)[k] == i;
                assert(k != j0);
                assert(picks.take(j0)[k] == i);
            }
            if picked(picks.take(j0), i) {
                let k = choose|k: int| 0 <= k < j0 && #[trigger] picks.take(j0)[k] == i;
                assert(picks.take(j)[k] == i);
            }
        }
        lemma_count_one_change(s1, s2, picks[j0] as int);
    }
}

/// A freshly laid out board has between one and eight spawn blocks.
pub proof fn lemma_dealt_spawn_count(after: Seq<Block>, screen_w: int, rolls: Seq<i32>, picks: Seq<usize>)
    requires
        dealt(after, screen_w, rolls, picks),
    ensures
        1 <= spawn_count(after) <= SPAWN_PICKS,
{
    let g = grid_seq(screen_w, rolls);
    assert(is_spawn(after[picks[0] as int]));
    assert(picked(picks, picks[0] as int));
    lemma_count_some(after, picks[0] as int);
    lemma_marked_count(g, picks, picks.len() as int);
    assert(picks.take(picks.len() as int) =~= picks);
}

} // verus!
