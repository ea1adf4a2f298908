use std::collections::VecDeque;
use vstd::prelude::*;

verus! {

/// A cell of the grid.
#[derive(Clone, Copy, Debug, PartialEq, Eq, Structural)]
pub struct Block {
    pub x: i32,
    pub y: i32,
}

impl From<(i32, i32)> for Block {
    fn from(tuple: (i32, i32)) -> (r: Self)
        ensures
            r.x == tuple.0,
            r.y == tuple.1,
    {
        Block { x: tuple.0, y: tuple.1 }
    }
}

impl vstd::std_specs::convert::FromSpecImpl<(i32, i32)> for Block {
    open spec fn obeys_from_spec() -> bool {
        true
    }

    open spec fn from_spec(v: (i32, i32)) -> Block {
        Block { x: v.0, y: v.1 }
    }
}

/// A heading on the grid. `Up` decreases `y`, `Down` increases it.
#[derive(Clone, Copy, Debug, PartialEq, Eq, Structural)]
pub enum Direction {
    Up,
    Down,
    Left,
    Right,
}

impl Direction {
    /// Horizontal displacement of one step.
    pub open spec fn dx(self) -> int {
        match self {
            Direction::Left => -1,
            Direction::Right => 1,
            _ => 0,
        }
    }

    /// Vertical displacement of one step.
    pub open spec fn dy(self) -> int {
        match self {
            Direction::Up => -1,
            Direction::Down => 1,
            _ => 0,
        }
    }

    pub open spec fn spec_opposite(self) -> Direction {
        match self {
            Direction::Up => Direction::Down,
            Direction::Down => Direction::Up,
            Direction::Left => Direction::Right,
            Direction::Right => Direction::Left,
        }
    }

    /// One step from `b` stays within the range of `i32`.
    pub open spec fn can_step(self, b: Block) -> bool {
        &&& i32::MIN <= b.x + self.dx() <= i32::MAX
        &&& i32::MIN <= b.y + self.dy() <= i32::MAX
    }

    /// The cell one step from `b`.
    pub open spec fn step(self, b: Block) -> Block {
        Block { x: (b.x + self.dx()) as i32, y: (b.y + self.dy()) as i32 }
    }

    /// The cell one step from `block` in this direction.
    pub fn forward(&self, block: Block) -> (r: Block)
        requires
            self.can_step(block),
        ensures
            r == self.step(block),
    {
        let mut block = block;
        match *self {
            Direction::Up => block.y = block.y - 1,
            Direction::Down => block.y = block.y + 1,
            Direction::Left => block.x = block.x - 1,
            Direction::Right => block.x = block.x + 1,
        };
        block
    }

    /// The reverse heading.
    pub fn opposite(&self) -> (r: Self)
        ensures
            r == self.spec_opposite(),
            r.dx() == -self.dx(),
            r.dy() == -self.dy(),
    {
        match *self {
            Direction::Up => Direction::Down,
            Direction::Down => Direction::Up,
            Direction::Left => Direction::Right,
            Direction::Right => Direction::Left,
        }
    }
}

/// Reversing a heading twice gives it back, and no heading is its own reverse.
pub proof fn lemma_opposite_involutive(d: Direction)
    ensures
        d.spec_opposite().spec_opposite() == d,
        d != d.spec_opposite(),
{
}

/// The abstract state of a snake: its heading, its cells from head to tail,
/// and the cell that the last forward move dropped from the tail.
pub struct SnakeView {
    pub direction: Direction,
    pub body: Seq<Block>,
    pub last_removed_tail: Option<Block>,
}

/// `n` cells laid out from `start` against heading `d`, `start` first.
pub open spec fn layout(start: Block, d: Direction, n: nat) -> Seq<Block> {
    Seq::new(n, |i: int| Block { x: (start.x - i * d.dx()) as i32, y: (start.y - i * d.dy()) as i32 })
}

/// Every cell of `layout(start, d, n)` has coordinates within `i32`.
pub open spec fn layout_fits(start: Block, d: Direction, n: nat) -> bool {
    &&& i32::MIN <= start.x - (n - 1) * d.dx() <= i32::MAX
    &&& i32::MIN <= start.y - (n - 1) * d.dy() <= i32::MAX
}

/// Each cell of a layout that fits holds its exact coordinates.
proof fn lemma_layout_cell(start: Block, d: Direction, n: nat, j: int)
    requires
        layout_fits(start, d, n),
        0 <= j < n,
    ensures
        layout(start, d, n)[j].x == start.x - j * d.dx(),
        layout(start, d, n)[j].y == start.y - j * d.dy(),
{
    assert(i32::MIN <= start.x - j * d.dx() <= i32::MAX) by (nonlinear_arith)
        requires
            -1 <= d.dx() <= 1,
            0 <= j <= n - 1,
            i32::MIN <= start.x <= i32::MAX,
            i32::MIN <= start.x - (n - 1) * d.dx() <= i32::MAX,
    ;
    assert(i32::MIN <= start.y - j * d.dy() <= i32::MAX) by (nonlinear_arith)
        requires
            -1 <= d.dy() <= 1,
            0 <= j <= n - 1,
            i32::MIN <= start.y <= i32::MAX,
            i32::MIN <= start.y - (n - 1) * d.dy() <= i32::MAX,
    ;
}

/// The heading a move takes: the one given, or else the current one.
pub open spec fn heading_of(v: SnakeView, d: Option<Direction>) -> Direction {
    match d {
        Some(nd) => nd,
        None => v.direction,
    }
}

/// Where the head goes on a move with the optional heading `d`.
pub open spec fn next_head_of(v: SnakeView, d: Option<Direction>) -> Block {
    heading_of(v, d).step(v.body[0])
}

/// A move with the optional heading `d` can be computed without overflow.
pub open spec fn can_move(v: SnakeView, d: Option<Direction>) -> bool {
    &&& v.body.len() > 0
    &&& heading_of(v, d).can_step(v.body[0])
}

/// The state after a forward move: the new head is pushed at the front and
/// the tail cell is dropped and remembered.
pub open spec fn moved(v: SnakeView, d: Option<Direction>) -> SnakeView {
    SnakeView {
        direction: heading_of(v, d),
        body: (seq![next_head_of(v, d)] + v.body).drop_last(),
        last_removed_tail: Some(v.body.last()),
    }
}

/// The state after the remembered tail cell is put back at the tail.
pub open spec fn restored(v: SnakeView) -> SnakeView {
    SnakeView {
        direction: v.direction,
        body: v.body.push(v.last_removed_tail.unwrap()),
        last_removed_tail: v.last_removed_tail,
    }
}

/// A snake on the grid.
pub struct Snake {
    direction: Direction,
    body: VecDeque<Block>,
    last_removed_tail: Option<Block>,
}

impl View for Snake {
    type V = SnakeView;

    closed spec fn view(&self) -> SnakeView {
        SnakeView {
            direction: self.direction,
            body: self.body@,
            last_removed_tail: self.last_removed_tail,
        }
    }
}

impl Snake {
    /// A snake has at least one cell.
    pub open spec fn wf(&self) -> bool {
        self@.body.len() > 0
    }

    /// A snake of `length` cells with its head at `(x, y)`, heading
    /// `direction`, the other cells laid out behind the head.
    pub fn with_detail(x: i32, y: i32, direction: Direction, length: u16) -> (r: Self)
        requires
            length > 0,
            layout_fits(Block { x, y }, direction, length as nat),
        ensures
            r.wf(),
            r@.direction == direction,
            r@.body == layout(Block { x, y }, direction, length as nat),
            r@.last_removed_tail.is_none(),
    {
        let start = Block { x, y };
        let back = direction.opposite();
        let mut body: VecDeque<Block> = VecDeque::new();
        let mut last_block = start;
        let mut i: u16 = 0;
        while i < length
            invariant
                0 <= i <= length,
                layout_fits(start, direction, length as nat),
                back.dx() == -direction.dx(),
                back.dy() == -direction.dy(),
                body@ == layout(start, direction, i as nat),
                i < length ==> last_block == layout(start, direction, length as nat)[i as int],
            decreases length - i,
        {
            body.push_back(last_block);
            proof {
                assert(body@ =~= layout(start, direction, (i + 1) as nat));
            }
            if i + 1 < length {
                proof {
                    lemma_layout_cell(start, direction, length as nat, i as int);
                    lemma_layout_cell(start, direction, length as nat, i + 1);
                    assert(start.x - i * direction.dx() - direction.dx() == start.x - (i + 1) * direction.dx()) by (nonlinear_arith);
                    assert(start.y - i * direction.dy() - direction.dy() == start.y - (i + 1) * direction.dy()) by (nonlinear_arith);
                }
                last_block = back.forward(last_block);
            }
            i = i + 1;
        }
        Snake { direction, body, last_removed_tail: None }
    }

    /// A snake of three cells with its head at `(x, y)`, heading right.
    pub fn new(x: i32, y: i32) -> (r: Self)
        requires
            x >= i32::MIN + 2,
        ensures
            r.wf(),
            r@.direction == Direction::Right,
            r@.body == layout(Block { x, y }, Direction::Right, 3),
            r@.last_removed_tail.is_none(),
    {
        Self::with_detail(x, y, Direction::Right, 3)
    }

    /// The head cell.
    pub fn head(&self) -> (r: &Block)
        requires
            self.wf(),
        ensures
            *r == self@.body[0],
    {
        &self.body[0]
    }

    /// Removes and returns the tail cell, if there is one.
    pub fn pop(&mut self) -> (r: Option<Block>)
        ensures
            final(self)@.direction == old(self)@.direction,
            final(self)@.last_removed_tail == old(self)@.last_removed_tail,
            old(self)@.body.len() == 0 ==> r.is_none() && final(self)@.body == old(self)@.body,
            old(self)@.body.len() > 0 ==> r == Some(old(self)@.body.last())
                && final(self)@.body == old(self)@.body.drop_last(),
    {
        self.body.pop_back()
    }

    /// Moves one cell forward, taking heading `direction` first if given:
    /// the body shifts by one cell and keeps its length.
    pub fn move_forward(&mut self, direction: Option<Direction>)
        requires
            can_move(old(self)@, direction),
        ensures
            final(self)@ == moved(old(self)@, direction),
            final(self).wf(),
    {
        if let Some(direction) = direction {
            self.direction = direction;
        }
        let next_block = self.direction.forward(*self.head());
        self.body.push_front(next_block);
        self.last_removed_tail = self.pop();
        proof {
            assert(self@.body =~= moved(old(self)@, direction).body);
        }
    }

    /// The current heading.
    pub fn head_direction(&self) -> (r: Direction)
        ensures
            r == self@.direction,
    {
        self.direction
    }

    /// Where the head would go on a move with the optional heading
    /// `direction`; the snake itself does not change.
    pub fn next_head(&self, direction: Option<Direction>) -> (r: Block)
        requires
            can_move(self@, direction),
        ensures
            r == next_head_of(self@, direction),
    {
        let d = match direction {
            Some(d) => d,
            None => self.direction,
        };
        d.forward(*self.head())
    }

    /// Puts the cell that the last move dropped back at the tail.
    pub fn restore_tail(&mut self)
        requires
            old(self)@.last_removed_tail.is_some(),
        ensures
            final(self)@ == restored(old(self)@),
    {
        let block = self.last_removed_tail.unwrap();
        self.body.push_back(block);
    }

    /// Whether any cell of the body, head included, is `(x, y)`.
    pub fn tail_overlaps(&self, x: i32, y: i32) -> (r: bool)
        ensures
            r == self@.body.contains(Block { x, y }),
    {
        let n = self.body.len();
        let mut i: usize = 0;
        while i < n
            invariant
                n == self@.body.len(),
                0 <= i <= n,
                forall|j: int| 0 <= j < i ==> self@.body[j] != (Block { x, y }),
            decreases n - i,
        {
            let block = &self.body[i];
            if x == block.x && y == block.y {
                assert(self@.body[i as int] == Block { x, y });
                return true;
            }
            i = i + 1;
        }
        false
    }

    /// The cells from head to tail.
    pub fn blocks(&self) -> (r: Vec<Block>)
        ensures
            r@ == self@.body,
    {
        let n = self.body.len();
        let mut r: Vec<Block> = Vec::new();
        let mut i: usize = 0;
        while i < n
            invariant
                n == self@.body.len(),
                0 <= i <= n,
                r@ == self@.body.take(i as int),
            decreases n - i,
        {
            r.push(self.body[i]);
            proof {
                assert(r@ =~= self@.body.take(i + 1));
            }
            i = i + 1;
        }
        proof {
            assert(r@ =~= self@.body);
        }
        r
    }

    /// The cell that the last forward move dropped, if any.
    pub fn last_removed_tail(&self) -> (r: Option<Block>)
        ensures
            r == self@.last_removed_tail,
    {
        self.last_removed_tail
    }
}

/// A forward move keeps the length of the body, and putting back the dropped
/// tail cell afterwards makes it one cell longer.
pub proof fn lemma_move_then_restore_grows(v: SnakeView, d: Option<Direction>)
    requires
        v.body.len() > 0,
    ensures
        moved(v, d).body.len() == v.body.len(),
        restored(moved(v, d)).body.len() == v.body.len() + 1,
        restored(moved(v, d)).body == seq![next_head_of(v, d)] + v.body,
{
    assert(restored(moved(v, d)).body =~= seq![next_head_of(v, d)] + v.body);
}

} // verus!
