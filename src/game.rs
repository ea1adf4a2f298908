use crate::snake::{
    Block, Direction, Snake, SnakeView, can_move, layout, moved, next_head_of, restored,
};
use vstd::prelude::*;
use vstd::string::StringSliceAdditionalSpecFns;

verus! {

/// Where a new snake's head starts.
pub const STARTING_X: i32 = 2;

pub const STARTING_Y: i32 = 2;

/// Where the first food of each attempt lies.
pub const STARTING_FOOD_X: i32 = 6;

pub const STARTING_FOOD_Y: i32 = 4;

/// Time is counted in microseconds.
pub const MICROS_PER_SECOND: u64 = 1000000;

/// How fast the snake moves on its own.
#[derive(Clone, Copy, Debug, PartialEq, Eq, Structural)]
pub enum Difficulty {
    Easy,
    Normal,
    Hard,
    Insane,
}

impl Difficulty {
    pub open spec fn spec_moves_per_second(self) -> u64 {
        match self {
            Difficulty::Easy => 5,
            Difficulty::Normal => 10,
            Difficulty::Hard => 20,
            Difficulty::Insane => 30,
        }
    }

    /// Automatic moves per second.
    pub fn moves_per_second(&self) -> (r: u64)
        ensures
            r == self.spec_moves_per_second(),
    {
        match *self {
            Difficulty::Easy => 5,
            Difficulty::Normal => 10,
            Difficulty::Hard => 20,
            Difficulty::Insane => 30,
        }
    }

    /// The time between automatic moves, in whole microseconds, rounded
    /// down. For a whole number of microseconds `t`, `t` exceeds this value
    /// exactly when `t` microseconds exceed one move's period.
    pub fn moving_period_us(&self) -> (r: u64)
        ensures
            r == MICROS_PER_SECOND / self.spec_moves_per_second(),
    {
        MICROS_PER_SECOND / self.moves_per_second()
    }
}

/// `c` with ASCII upper-case letters taken to lower case.
pub open spec fn ascii_lower(c: u8) -> u8 {
    if 65 <= c <= 90 {
        (c + 32) as u8
    } else {
        c
    }
}

/// `token` spells the lower-case `word`, each ASCII letter in either case.
pub open spec fn spells(token: Seq<u8>, word: Seq<u8>) -> bool {
    &&& token.len() == word.len()
    &&& forall|i: int| 0 <= i < token.len() ==> ascii_lower(#[trigger] token[i]) == word[i]
}

/// The difficulty named by the bytes of `token`: `e` or `easy`, `n` or
/// `normal`, `h` or `hard`, `i` or `insane`, in any case (the words are
/// written below as their ASCII codes).
pub open spec fn difficulty_of_token(token: Seq<u8>) -> Option<Difficulty> {
    if spells(token, seq![101u8]) || spells(token, seq![101u8, 97, 115, 121]) {
        Some(Difficulty::Easy)
    } else if spells(token, seq![110u8]) || spells(token, seq![110u8, 111, 114, 109, 97, 108]) {
        Some(Difficulty::Normal)
    } else if spells(token, seq![104u8]) || spells(token, seq![104u8, 97, 114, 100]) {
        Some(Difficulty::Hard)
    } else if spells(token, seq![105u8]) || spells(token, seq![105u8, 110, 115, 97, 110, 101]) {
        Some(Difficulty::Insane)
    } else {
        None
    }
}

/// Whether `token` spells the lower-case `word`, ignoring ASCII case.
fn spells_word(token: &[u8], word: &[u8]) -> (r: bool)
    ensures
        r == spells(token@, word@),
{
    if token.len() != word.len() {
        return false;
    }
    let mut i: usize = 0;
    while i < token.len()
        invariant
            token@.len() == word@.len(),
            0 <= i <= token@.len(),
            forall|j: int| 0 <= j < i ==> ascii_lower(#[trigger] token@[j]) == word@[j],
        decreases token@.len() - i,
    {
        let c = token[i];
        let lower = if 65 <= c && c <= 90 {
            c + 32
        } else {
            c
        };
        if lower != word[i] {
            assert(ascii_lower(token@[i as int]) != word@[i as int]);
            return false;
        }
        i = i + 1;
    }
    true
}

impl Difficulty {
    /// The difficulty that `token` names, if any; see `difficulty_of_token`.
    pub fn from_token(token: &str) -> (r: Option<Difficulty>)
        ensures
            r == difficulty_of_token(token.spec_bytes()),
    {
        let t = token.as_bytes();
        let e = vec![101u8];
        let easy = vec![101u8, 97, 115, 121];
        let n = vec![110u8];
        let normal = vec![110u8, 111, 114, 109, 97, 108];
        let h = vec![104u8];
        let hard = vec![104u8, 97, 114, 100];
        let i = vec![105u8];
        let insane = vec![105u8, 110, 115, 97, 110, 101];
        if spells_word(t, e.as_slice()) || spells_word(t, easy.as_slice()) {
            Some(Difficulty::Easy)
        } else if spells_word(t, n.as_slice()) || spells_word(t, normal.as_slice()) {
            Some(Difficulty::Normal)
        } else if spells_word(t, h.as_slice()) || spells_word(t, hard.as_slice()) {
            Some(Difficulty::Hard)
        } else if spells_word(t, i.as_slice()) || spells_word(t, insane.as_slice()) {
            Some(Difficulty::Insane)
        } else {
            None
        }
    }
}

/// A logical input event.
#[derive(Clone, Copy, Debug, PartialEq, Eq, Structural)]
pub enum Input {
    /// Starts an attempt, or the next one after a death.
    Start,
    /// Asks the snake to move at once in a direction.
    Steer(Direction),
    /// Any other key; it has no effect.
    Other,
}

/// The abstract state of a game.
pub struct GameView {
    pub snake: SnakeView,
    pub food: Option<Block>,
    pub width: i32,
    pub height: i32,
    pub active: bool,
    pub attempt: u64,
    pub waiting_us: u64,
    pub moving_period_us: u64,
}

/// `b` lies in the arena, border included.
pub open spec fn in_arena(width: i32, height: i32, b: Block) -> bool {
    0 <= b.x < width && 0 <= b.y < height
}

/// `b` lies strictly inside the one-cell border.
pub open spec fn is_interior(width: i32, height: i32, b: Block) -> bool {
    0 < b.x < width - 1 && 0 < b.y < height - 1
}

/// The snake every attempt starts with.
pub open spec fn initial_snake() -> SnakeView {
    SnakeView {
        direction: Direction::Right,
        body: layout(Block { x: STARTING_X, y: STARTING_Y }, Direction::Right, 3),
        last_removed_tail: None,
    }
}

pub open spec fn initial_food() -> Option<Block> {
    Some(Block { x: STARTING_FOOD_X, y: STARTING_FOOD_Y })
}

/// What every reachable game state satisfies.
pub open spec fn game_wf(g: GameView) -> bool {
    &&& g.width >= 5
    &&& g.height >= 5
    &&& g.snake.body.len() > 0
    &&& g.snake.body.no_duplicates()
    &&& forall|i: int| 0 <= i < g.snake.body.len() ==> in_arena(g.width, g.height, #[trigger] g.snake.body[i])
    &&& g.snake.last_removed_tail matches Some(t) ==> in_arena(g.width, g.height, t)
}

/// The next move with the optional heading `d` keeps the snake alive: the new
/// head lands neither on the body nor on or beyond the border.
pub open spec fn alive_after(g: GameView, d: Option<Direction>) -> bool {
    let next = next_head_of(g.snake, d);
    !g.snake.body.contains(next) && is_interior(g.width, g.height, next)
}

/// One move with the optional heading `d`: a fatal move ends the attempt and
/// leaves the snake in place; otherwise the snake moves, and grows by eating
/// the food under its new head. The move timer restarts either way.
pub open spec fn after_move(g: GameView, d: Option<Direction>) -> GameView {
    if alive_after(g, d) {
        let s = moved(g.snake, d);
        if g.food == Some(s.body[0]) {
            GameView { snake: restored(s), food: None, waiting_us: 0, ..g }
        } else {
            GameView { snake: s, waiting_us: 0, ..g }
        }
    } else {
        GameView { active: false, waiting_us: 0, ..g }
    }
}

/// The state a new attempt starts from.
pub open spec fn restarted(g: GameView) -> GameView {
    GameView { snake: initial_snake(), food: initial_food(), waiting_us: 0, ..g }
}

/// The effect of an input event.
pub open spec fn after_key(g: GameView, input: Input) -> GameView {
    if !g.active {
        if input == Input::Start {
            let g1 = if g.attempt > 0 { restarted(g) } else { g };
            GameView { active: true, attempt: g.attempt.saturating_add(1), ..g1 }
        } else {
            g
        }
    } else {
        match input {
            Input::Steer(d) => if d == g.snake.direction.spec_opposite() {
                g
            } else {
                after_move(g, Some(d))
            },
            _ => g,
        }
    }
}

/// The cell at index `i` of the interior, taken row by row.
pub open spec fn interior_cell(width: i32, i: int) -> Block {
    Block { x: (1 + i % (width - 2)) as i32, y: (1 + i / (width - 2)) as i32 }
}

/// The interior cells, row by row from the top, each row from the left.
pub open spec fn interior_cells(width: i32, height: i32) -> Seq<Block> {
    Seq::new(((width - 2) * (height - 2)) as nat, |i: int| interior_cell(width, i))
}

/// The test that a cell is not part of `body`.
pub open spec fn vacant(body: Seq<Block>) -> spec_fn(Block) -> bool {
    |b: Block| !body.contains(b)
}

/// The interior cells that the snake does not occupy, in row order.
pub open spec fn free_cells_of(g: GameView) -> Seq<Block> {
    interior_cells(g.width, g.height).filter(vacant(g.snake.body))
}

/// The state after food is placed on free cell number `pick` (modulo the
/// number of free cells); no food when the snake fills the interior.
pub open spec fn with_food(g: GameView, pick: nat) -> GameView {
    let free = free_cells_of(g);
    GameView { food: if free.len() > 0 { Some(free[(pick % free.len()) as int]) } else { None }, ..g }
}

/// The effect of `delta_us` microseconds passing, where `pick` chooses the
/// free cell for food if food has to be placed.
pub open spec fn after_update(g: GameView, delta_us: u64, pick: nat) -> GameView {
    let g1 = GameView { waiting_us: g.waiting_us.saturating_add(delta_us), ..g };
    if !g1.active {
        g1
    } else {
        let g2 = if g1.food.is_none() { with_food(g1, pick) } else { g1 };
        if g2.waiting_us > g2.moving_period_us {
            after_move(g2, None)
        } else {
            g2
        }
    }
}

/// Relies on rand's `Rng::random_range` over the thread-local generator: it
/// returns a value of `0..n`, and panics only on an empty range.
#[verifier::external_body]
fn random_below(n: usize) -> (r: usize)
    requires
        n > 0,
    ensures
        r < n,
{
    rand::Rng::random_range(&mut rand::rng(), 0..n)
}

proof fn lemma_filter_take_step(s: Seq<Block>, p: spec_fn(Block) -> bool, i: int)
    requires
        0 <= i < s.len(),
    ensures
        s.take(i + 1).filter(p) == (if p(s[i]) {
            s.take(i).filter(p).push(s[i])
        } else {
            s.take(i).filter(p)
        }),
{
    reveal(Seq::filter);
    assert(s.take(i + 1).drop_last() =~= s.take(i));
}

/// A game: one snake, the food, the arena and the attempt's state. After a
/// death the game waits for an explicit `Start`; it never restarts by itself.
pub struct Game {
    snake: Snake,
    food: Option<Block>,
    width: i32,
    height: i32,
    game_active: bool,
    attempt: u64,
    waiting_time: u64,
    moving_period: u64,
}

impl View for Game {
    type V = GameView;

    closed spec fn view(&self) -> GameView {
        GameView {
            snake: self.snake@,
            food: self.food,
            width: self.width,
            height: self.height,
            active: self.game_active,
            attempt: self.attempt,
            waiting_us: self.waiting_time,
            moving_period_us: self.moving_period,
        }
    }
}

impl Game {
    pub open spec fn wf(&self) -> bool {
        game_wf(self@)
    }

    /// A game that waits for its first start, on an arena of `width` by
    /// `height` cells, border included.
    pub fn new(width: i32, height: i32, difficulty: Difficulty) -> (r: Self)
        requires
            width >= 5,
            height >= 5,
        ensures
            r.wf(),
            r@.snake == initial_snake(),
            r@.food == initial_food(),
            r@.width == width,
            r@.height == height,
            !r@.active,
            r@.attempt == 0,
            r@.waiting_us == 0,
            r@.moving_period_us == MICROS_PER_SECOND / difficulty.spec_moves_per_second(),
    {
        let snake = Snake::new(STARTING_X, STARTING_Y);
        let r = Game {
            snake,
            food: Some(Block { x: STARTING_FOOD_X, y: STARTING_FOOD_Y }),
            width,
            height,
            game_active: false,
            attempt: 0,
            waiting_time: 0,
            moving_period: difficulty.moving_period_us(),
        };
        proof {
            lemma_initial_snake_wf(width, height);
        }
        r
    }

    /// Whether the move with the optional heading `direction` keeps the
    /// snake alive.
    fn is_snake_alive(&self, direction: Option<Direction>) -> (r: bool)
        requires
            game_wf(self@),
        ensures
            r == alive_after(self@, direction),
    {
        proof {
            lemma_wf_can_move(self@, direction);
        }
        let next = self.snake.next_head(direction);
        if self.snake.tail_overlaps(next.x, next.y) {
            return false;
        }
        next.x > 0 && next.y > 0 && next.x < self.width - 1 && next.y < self.height - 1
    }

    /// Eats the food if it lies under the head: the food goes and the snake
    /// gets back the cell its last move dropped.
    fn check_eating(&mut self)
        requires
            old(self)@.snake.body.len() > 0,
            old(self)@.food == Some(old(self)@.snake.body[0]) ==> old(self)@.snake.last_removed_tail.is_some(),
        ensures
            final(self)@ == (if old(self)@.food == Some(old(self)@.snake.body[0]) {
                GameView { snake: restored(old(self)@.snake), food: None, ..old(self)@ }
            } else {
                old(self)@
            }),
    {
        let head = *self.snake.head();
        if let Some(food_block) = self.food {
            if food_block == head {
                self.food = None;
                self.snake.restore_tail();
            }
        }
    }

    /// Performs one move with the optional heading `direction`, or ends the
    /// attempt if that move is fatal; the move timer restarts.
    fn update_snake(&mut self, direction: Option<Direction>)
        requires
            game_wf(old(self)@),
        ensures
            final(self)@ == after_move(old(self)@, direction),
            game_wf(final(self)@),
    {
        proof {
            lemma_wf_can_move(self@, direction);
            lemma_after_move_wf(self@, direction);
        }
        if self.is_snake_alive(direction) {
            self.snake.move_forward(direction);
            self.check_eating();
        } else {
            self.game_active = false;
        }
        self.waiting_time = 0;
    }

    /// Puts back the starting snake and food and restarts the move timer.
    fn restart(&mut self)
        requires
            game_wf(old(self)@),
        ensures
            final(self)@ == restarted(old(self)@),
            game_wf(final(self)@),
    {
        self.snake = Snake::new(STARTING_X, STARTING_Y);
        self.food = Some(Block { x: STARTING_FOOD_X, y: STARTING_FOOD_Y });
        self.waiting_time = 0;
        proof {
            lemma_initial_snake_wf(self.width, self.height);
        }
    }

    /// Handles an input event. While inactive only `Start` counts: it starts
    /// an attempt, from the starting state again if one was made before.
    /// While active a steer moves the snake at once unless it asks for the
    /// reverse of the current heading, which is ignored.
    pub fn key_pressed(&mut self, input: Input)
        requires
            old(self).wf(),
        ensures
            final(self).wf(),
            final(self)@ == after_key(old(self)@, input),
    {
        if !self.game_active {
            if input == Input::Start {
                self.game_active = true;
                if self.attempt > 0 {
                    self.restart();
                }
                self.attempt = self.attempt.saturating_add(1);
            }
            return;
        }
        let direction = match input {
            Input::Steer(d) => d,
            _ => {
                return;
            },
        };
        if direction == self.snake.head_direction().opposite() {
            return;
        }
        self.update_snake(Some(direction));
    }

    /// The interior cells that the snake does not occupy, in row order.
    pub fn free_cells(&self) -> (r: Vec<Block>)
        requires
            self.wf(),
        ensures
            r@ == free_cells_of(self@),
    {
        let cols: u64 = (self.width - 2) as u64;
        let rows: u64 = (self.height - 2) as u64;
        proof {
            assert(cols * rows <= u64::MAX) by (nonlinear_arith)
                requires
                    cols <= i32::MAX,
                    rows <= i32::MAX,
            ;
        }
        let n: u64 = cols * rows;
        let ghost cells = interior_cells(self.width, self.height);
        let ghost p = vacant(self@.snake.body);
        let mut r: Vec<Block> = Vec::new();
        let mut i: u64 = 0;
        while i < n
            invariant
                cols == self.width - 2,
                rows == self.height - 2,
                cols > 0,
                n == cols * rows,
                cells == interior_cells(self.width, self.height),
                p == vacant(self@.snake.body),
                cells.len() == n,
                0 <= i <= n,
                r@ == cells.take(i as int).filter(p),
            decreases n - i,
        {
            let q: u64 = i / cols;
            proof {
                vstd::arithmetic::div_mod::lemma_fundamental_div_mod(i as int, cols as int);
                assert(q < rows) by (nonlinear_arith)
                    requires
                        i == cols * q + i % cols,
                        0 <= i % cols,
                        i < cols * rows,
                        cols > 0,
                ;
                lemma_filter_take_step(cells, p, i as int);
            }
            let x: i32 = 1 + (i % cols) as i32;
            let y: i32 = 1 + q as i32;
            proof {
                assert(cells[i as int] == Block { x, y });
            }
            if !self.snake.tail_overlaps(x, y) {
                r.push(Block { x, y });
            }
            i = i + 1;
        }
        proof {
            assert(cells.take(n as int) =~= cells);
        }
        r
    }

    /// Places food on free cell number `pick` (modulo the number of free
    /// cells), or none when the snake fills the interior.
    pub fn place_food(&mut self, pick: usize)
        requires
            old(self).wf(),
        ensures
            final(self).wf(),
            final(self)@ == with_food(old(self)@, pick as nat),
    {
        let free = self.free_cells();
        if free.len() == 0 {
            self.food = None;
        } else {
            self.food = Some(free[pick % free.len()]);
        }
    }

    /// Draws a free cell number at random; zero when there is none.
    fn random_food_pick(&self) -> (r: usize)
        requires
            self.wf(),
        ensures
            free_cells_of(self@).len() > 0 ==> r < free_cells_of(self@).len(),
    {
        let n = self.free_cells().len();
        if n == 0 {
            0
        } else {
            random_below(n)
        }
    }

    /// Lets `delta_us` microseconds pass, with `pick` choosing the free cell
    /// if food has to be placed. The time always counts; an active game then
    /// places food if there is none, and moves the snake once the time since
    /// the last move exceeds the moving period.
    pub fn update_with_pick(&mut self, delta_us: u64, pick: usize)
        requires
            old(self).wf(),
        ensures
            final(self).wf(),
            final(self)@ == after_update(old(self)@, delta_us, pick as nat),
    {
        self.waiting_time = self.waiting_time.saturating_add(delta_us);
        if !self.game_active {
            return;
        }
        if self.food.is_none() {
            self.place_food(pick);
        }
        if self.waiting_time > self.moving_period {
            self.update_snake(None);
        }
    }

    /// Lets `delta_us` microseconds pass; new food goes on a free cell drawn
    /// at random.
    pub fn update(&mut self, delta_us: u64)
        requires
            old(self).wf(),
        ensures
            final(self).wf(),
            exists|pick: nat| final(self)@ == after_update(old(self)@, delta_us, pick),
    {
        let pick = if self.game_active && self.food.is_none() {
            self.random_food_pick()
        } else {
            0
        };
        self.update_with_pick(delta_us, pick);
        assert(self@ == after_update(old(self)@, delta_us, pick as nat));
    }

    /// The snake.
    pub fn snake(&self) -> (r: &Snake)
        ensures
            r@ == self@.snake,
    {
        &self.snake
    }

    /// The food cell, if any.
    pub fn food(&self) -> (r: Option<Block>)
        ensures
            r == self@.food,
    {
        self.food
    }

    pub fn width(&self) -> (r: i32)
        ensures
            r == self@.width,
    {
        self.width
    }

    pub fn height(&self) -> (r: i32)
        ensures
            r == self@.height,
    {
        self.height
    }

    /// Whether an attempt is under way.
    pub fn is_active(&self) -> (r: bool)
        ensures
            r == self@.active,
    {
        self.game_active
    }

    /// How many attempts were started.
    pub fn attempt(&self) -> (r: u64)
        ensures
            r == self@.attempt,
    {
        self.attempt
    }

    /// Microseconds since the last move or start of the timer.
    pub fn waiting_time_us(&self) -> (r: u64)
        ensures
            r == self@.waiting_us,
    {
        self.waiting_time
    }

    pub fn moving_period_us(&self) -> (r: u64)
        ensures
            r == self@.moving_period_us,
    {
        self.moving_period
    }
}

/// In a well-formed game the head can take a step without overflow.
proof fn lemma_wf_can_move(g: GameView, d: Option<Direction>)
    requires
        game_wf(g),
    ensures
        can_move(g.snake, d),
{
    assert(in_arena(g.width, g.height, g.snake.body[0]));
}

/// Every move keeps a game well formed.
proof fn lemma_after_move_wf(g: GameView, d: Option<Direction>)
    requires
        game_wf(g),
    ensures
        game_wf(after_move(g, d)),
{
    if alive_after(g, d) {
        let nh = next_head_of(g.snake, d);
        let s = moved(g.snake, d);
        let last = g.snake.body.last();
        assert(s.body =~= seq![nh] + g.snake.body.drop_last());
        assert(in_arena(g.width, g.height, last));
        assert forall|i: int| 0 <= i < s.body.len() implies in_arena(g.width, g.height, #[trigger] s.body[i]) by {
            if i > 0 {
                assert(s.body[i] == g.snake.body[i - 1]);
            }
        }
        assert(!g.snake.body.drop_last().contains(last)) by {
            if g.snake.body.drop_last().contains(last) {
                let j = choose|j: int| 0 <= j < g.snake.body.len() - 1 && g.snake.body.drop_last()[j] == last;
                assert(g.snake.body[j] == g.snake.body[g.snake.body.len() - 1]);
            }
        }
        assert(!g.snake.body.drop_last().contains(nh)) by {
            if g.snake.body.drop_last().contains(nh) {
                let j = choose|j: int| 0 <= j < g.snake.body.len() - 1 && g.snake.body.drop_last()[j] == nh;
                assert(g.snake.body[j] == nh);
            }
        }
        assert(s.body.no_duplicates()) by {
            assert forall|i: int, j: int| 0 <= i < s.body.len() && 0 <= j < s.body.len() && i != j implies s.body[i] != s.body[j] by {
                if i == 0 {
                    assert(g.snake.body.drop_last()[j - 1] == s.body[j]);
                } else if j == 0 {
                    assert(g.snake.body.drop_last()[i - 1] == s.body[i]);
                } else {
                    assert(s.body[i] == g.snake.body[i - 1]);
                    assert(s.body[j] == g.snake.body[j - 1]);
                }
            }
        }
        if g.food == Some(s.body[0]) {
            let r = restored(s);
            assert(r.body =~= s.body.push(last));
            assert(!s.body.contains(last)) by {
                if s.body.contains(last) {
                    let j = choose|j: int| 0 <= j < s.body.len() && s.body[j] == last;
                    if j == 0 {
                        assert(g.snake.body.contains(last));
                    } else {
                        assert(g.snake.body.drop_last()[j - 1] == last);
                    }
                }
            }
            assert forall|i: int| 0 <= i < r.body.len() implies in_arena(g.width, g.height, #[trigger] r.body[i]) by {
                if i < s.body.len() {
                    assert(r.body[i] == s.body[i]);
                }
            }
            assert(r.body.no_duplicates()) by {
                assert forall|i: int, j: int| 0 <= i < r.body.len() && 0 <= j < r.body.len() && i != j implies r.body[i] != r.body[j] by {
                    if i == s.body.len() as int {
                        assert(r.body[j] == s.body[j]);
                    } else if j == s.body.len() as int {
                        assert(r.body[i] == s.body[i]);
                    } else {
                        assert(r.body[i] == s.body[i]);
                        assert(r.body[j] == s.body[j]);
                    }
                }
            }
        }
    }
}

proof fn lemma_initial_snake_wf(width: i32, height: i32)
    requires
        width >= 5,
        height >= 5,
    ensures
        initial_snake().body.len() == 3,
        initial_snake().body.no_duplicates(),
        forall|i: int| 0 <= i < initial_snake().body.len() ==> in_arena(width, height, #[trigger] initial_snake().body[i]),
{
    let b = initial_snake().body;
    assert(b[0] == Block { x: 2, y: 2 });
    assert(b[1] == Block { x: 1, y: 2 });
    assert(b[2] == Block { x: 0, y: 2 });
}

/// While an attempt is under way, steering against the current heading
/// changes nothing: not the snake, its heading, the food or the timer.
pub proof fn lemma_reversal_ignored(g: GameView, d: Direction)
    requires
        g.active,
        d == g.snake.direction.spec_opposite(),
    ensures
        after_key(g, Input::Steer(d)) == g,
{
}

/// A move whose new head lands on or beyond the border is fatal: the attempt
/// ends and the snake stays where it was.
pub proof fn lemma_wall_collision(g: GameView, d: Option<Direction>)
    requires
        ({
            let next = next_head_of(g.snake, d);
            next.x <= 0 || next.y <= 0 || next.x >= g.width - 1 || next.y >= g.height - 1
        }),
    ensures
        !after_move(g, d).active,
        after_move(g, d).snake == g.snake,
        after_move(g, d).food == g.food,
{
}

/// A move whose new head lands on any cell of the body, the tail included, is
/// fatal: the attempt ends and the snake stays where it was.
pub proof fn lemma_self_collision(g: GameView, d: Option<Direction>)
    requires
        g.snake.body.contains(next_head_of(g.snake, d)),
    ensures
        !after_move(g, d).active,
        after_move(g, d).snake == g.snake,
        after_move(g, d).food == g.food,
{
}

/// On a move that is not fatal, food under the new head is eaten and the
/// snake grows by one cell; without food there the length stays the same and
/// the food stays where it was.
pub proof fn lemma_eating(g: GameView, d: Option<Direction>)
    requires
        game_wf(g),
        alive_after(g, d),
    ensures
        after_move(g, d).active == g.active,
        after_move(g, d).snake.body[0] == next_head_of(g.snake, d),
        g.food == Some(next_head_of(g.snake, d)) ==> {
            &&& after_move(g, d).food.is_none()
            &&& after_move(g, d).snake.body.len() == g.snake.body.len() + 1
            &&& after_move(g, d).snake.body == seq![next_head_of(g.snake, d)] + g.snake.body
        },
        g.food != Some(next_head_of(g.snake, d)) ==> {
            &&& after_move(g, d).food == g.food
            &&& after_move(g, d).snake.body.len() == g.snake.body.len()
            &&& after_move(g, d).snake.body == (seq![next_head_of(g.snake, d)] + g.snake.body).drop_last()
        },
{
    crate::snake::lemma_move_then_restore_grows(g.snake, d);
}

/// Starting again after an attempt puts back the starting snake and food,
/// restarts the move timer, makes the game active and counts one more
/// attempt (the count stops at `u64::MAX`).
pub proof fn lemma_restart(g: GameView)
    requires
        !g.active,
        g.attempt > 0,
    ensures
        after_key(g, Input::Start).active,
        after_key(g, Input::Start).snake == initial_snake(),
        after_key(g, Input::Start).food == initial_food(),
        after_key(g, Input::Start).waiting_us == 0,
        g.attempt < u64::MAX ==> after_key(g, Input::Start).attempt == g.attempt + 1,
{
}

} // verus!
