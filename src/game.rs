use crate::coord::{Coordinate, Direction, Player, Velocity};
use crate::random::random_below;
use crate::{BASE_TICK, CELL_COUNT, MAX_SNAKE_LENGTH, WIDTH};
use vstd::arithmetic::div_mod::lemma_div_denominator;
use vstd::arithmetic::power2::{lemma_pow2_pos, lemma_pow2_unfold, pow2};
use vstd::prelude::*;

verus! {

/// The cell every new snake starts on.
pub open spec fn start_cell() -> Coordinate {
    Coordinate(1, 3)
}

/// The cell with row-major index `i`: rows bottom up, each row left to right.
pub open spec fn cell_at(i: int) -> Coordinate {
    Coordinate((i % WIDTH as int) as usize, (i / WIDTH as int) as usize)
}

/// Row-major index of a cell.
pub open spec fn index_of(c: Coordinate) -> int {
    c.1 * WIDTH + c.0
}

/// How many of the first `n` cells in row-major order `body` leaves free.
pub open spec fn free_before(body: Seq<Coordinate>, n: int) -> int
    decreases n,
{
    if n <= 0 {
        0
    } else {
        free_before(body, n - 1) + if body.contains(cell_at(n - 1)) {
            0int
        } else {
            1int
        }
    }
}

/// The cells are on the playfield and pairwise distinct.
pub open spec fn valid_body(body: Seq<Coordinate>) -> bool {
    &&& forall|i: int| 0 <= i < body.len() ==> (#[trigger] body[i]).in_bounds()
    &&& forall|i: int, j: int| 0 <= i < j < body.len() ==> body[i] != body[j]
}

/// Tick duration at `level`: the base duration halved once per level.
pub open spec fn tick_duration(level: u32) -> int {
    BASE_TICK as int / pow2(level as nat) as int
}

proof fn lemma_cell_index(i: int)
    requires
        0 <= i < CELL_COUNT,
    ensures
        cell_at(i).in_bounds(),
        index_of(cell_at(i)) == i,
{
}

proof fn lemma_index_cell(c: Coordinate)
    requires
        c.in_bounds(),
    ensures
        0 <= index_of(c) < CELL_COUNT,
        cell_at(index_of(c)) == c,
{
}

/// Adding one cell to a body takes at most one free cell away.
proof fn lemma_free_push(body: Seq<Coordinate>, c: Coordinate, n: int)
    requires
        0 <= n <= CELL_COUNT,
    ensures
        free_before(body.push(c), n) >= free_before(body, n) - 1,
        free_before(body.push(c), n) >= free_before(body, n) - if c.in_bounds() && index_of(c) < n {
            1int
        } else {
            0int
        },
    decreases n,
{
    if n > 0 {
        lemma_free_push(body, c, n - 1);
        lemma_cell_index(n - 1);
        assert(forall|x: Coordinate| body.push(c).contains(x) <==> body.contains(x) || x == c) by {
            assert forall|x: Coordinate| body.push(c).contains(x) implies body.contains(x) || x == c by {
                if body.push(c).contains(x) {
                    let k = choose|k: int| 0 <= k < body.push(c).len() && body.push(c)[k] == x;
                    if k < body.len() {
                        assert(body[k] == x);
                    }
                }
            }
            assert forall|x: Coordinate| body.contains(x) || x == c implies body.push(c).contains(x) by {
                if x == c {
                    assert(body.push(c)[body.len() as int] == x);
                } else {
                    let k = choose|k: int| 0 <= k < body.len() && body[k] == x;
                    assert(body.push(c)[k] == x);
                }
            }
        }
        if c == cell_at(n - 1) {
            lemma_index_cell(c);
        }
    }
}

/// A body of `len` cells leaves at least `n - len` of the first `n` cells free.
proof fn lemma_free_lower_bound(body: Seq<Coordinate>, n: int)
    requires
        0 <= n <= CELL_COUNT,
    ensures
        free_before(body, n) >= n - body.len(),
    decreases body.len(),
{
    if body.len() == 0 {
        lemma_free_all(body, n);
    } else {
        let rest = body.drop_last();
        lemma_free_lower_bound(rest, n);
        lemma_free_push(rest, body.last(), n);
        assert(rest.push(body.last()) =~= body);
    }
}

proof fn lemma_free_all(body: Seq<Coordinate>, n: int)
    requires
        body.len() == 0,
        0 <= n,
    ensures
        free_before(body, n) == n,
    decreases n,
{
    if n > 0 {
        lemma_free_all(body, n - 1);
    }
}

/// The `k`-th cell (counting from zero, in row-major order) that is not in
/// the first `length` slots of `snake`.
pub fn nth_free_cell(snake: &[Coordinate; MAX_SNAKE_LENGTH], length: usize, k: usize) -> (c: Coordinate)
    requires
        length <= MAX_SNAKE_LENGTH,
        k < free_before(snake@.subrange(0, length as int), CELL_COUNT as int),
    ensures
        c.in_bounds(),
        !snake@.subrange(0, length as int).contains(c),
        free_before(snake@.subrange(0, length as int), index_of(c)) == k,
{
    let ghost body = snake@.subrange(0, length as int);
    let mut seen: usize = 0;
    let mut i: usize = 0;
    while i < CELL_COUNT
        invariant
            i <= CELL_COUNT,
            seen == free_before(body, i as int),
            seen <= k,
            length <= MAX_SNAKE_LENGTH,
            body == snake@.subrange(0, length as int),
            k < free_before(body, CELL_COUNT as int),
        decreases CELL_COUNT - i,
    {
        let cell = Coordinate(i % WIDTH, i / WIDTH);
        proof {
            lemma_cell_index(i as int);
        }
        let taken = contains_cell(snake, length, cell);
        if !taken {
            if seen == k {
                return cell;
            }
            seen = seen + 1;
        }
        i = i + 1;
    }
    proof {
        assert(false);
    }
    Coordinate(0, 0)
}

/// Whether `c` is in the first `length` slots of `snake`.
pub(crate) fn contains_cell(snake: &[Coordinate; MAX_SNAKE_LENGTH], length: usize, c: Coordinate) -> (r: bool)
    requires
        length <= MAX_SNAKE_LENGTH,
    ensures
        r == snake@.subrange(0, length as int).contains(c),
{
    let mut i: usize = 0;
    while i < length
        invariant
            i <= length <= MAX_SNAKE_LENGTH,
            forall|j: int| 0 <= j < i ==> snake@[j] != c,
        decreases length - i,
    {
        if snake[i] == c {
            assert(snake@.subrange(0, length as int)[i as int] == c);
            return true;
        }
        i = i + 1;
    }
    proof {
        if snake@.subrange(0, length as int).contains(c) {
            let j = choose|j: int| 0 <= j < length && snake@.subrange(0, length as int)[j] == c;
            assert(snake@[j] == c);
        }
    }
    false
}

/// A cell not in the first `length` slots of `snake`, drawn uniformly at random
/// from the free cells.
fn place_food(snake: &[Coordinate; MAX_SNAKE_LENGTH], length: usize, rng: &mut rand::rngs::SmallRng) -> (c: Coordinate)
    requires
        1 <= length < MAX_SNAKE_LENGTH,
    ensures
        c.in_bounds(),
        !snake@.subrange(0, length as int).contains(c),
{
    let ghost body = snake@.subrange(0, length as int);
    let mut free: usize = 0;
    let mut i: usize = 0;
    while i < CELL_COUNT
        invariant
            i <= CELL_COUNT,
            free == free_before(body, i as int),
            free <= i,
            length <= MAX_SNAKE_LENGTH,
            body == snake@.subrange(0, length as int),
        decreases CELL_COUNT - i,
    {
        let cell = Coordinate(i % WIDTH, i / WIDTH);
        proof {
            lemma_cell_index(i as int);
        }
        if !contains_cell(snake, length, cell) {
            free = free + 1;
        }
        i = i + 1;
    }
    proof {
        lemma_free_lower_bound(body, CELL_COUNT as int);
    }
    let k = random_below(rng, free);
    nth_free_cell(snake, length, k)
}

/// Whether `c` lies on the playfield.
fn on_playfield(c: Coordinate) -> (r: bool)
    ensures
        r == c.in_bounds(),
{
    c.0 < WIDTH && c.1 < crate::HEIGHT
}

/// The level after a lap: one more, held at `u32::MAX`.
pub open spec fn level_after_lap(level: u32) -> u32 {
    if level < u32::MAX {
        (level + 1) as u32
    } else {
        level
    }
}

/// The tick duration at `level`: `BASE_TICK` halved `level` times.
pub fn duration(level: u32) -> (r: u32)
    ensures
        r == tick_duration(level),
{
    let mut d: u32 = BASE_TICK;
    let mut i: u32 = 0;
    proof {
        assert(pow2(0) == 1) by {
            vstd::arithmetic::power2::lemma2_to64();
        }
    }
    while i < level && d > 0
        invariant
            i <= level,
            d == BASE_TICK as int / pow2(i as nat) as int,
        decreases level - i,
    {
        proof {
            lemma_pow2_pos(i as nat);
            lemma_pow2_unfold((i + 1) as nat);
            lemma_div_denominator(BASE_TICK as int, pow2(i as nat) as int, 2);
        }
        d = d / 2;
        i = i + 1;
    }
    proof {
        if i < level {
            let rest = (level - i) as nat;
            lemma_pow2_pos(i as nat);
            lemma_pow2_pos(rest);
            vstd::arithmetic::power2::lemma_pow2_adds(i as nat, rest);
            lemma_div_denominator(BASE_TICK as int, pow2(i as nat) as int, pow2(rest) as int);
            assert((i as nat + rest) == level as nat);
        }
    }
    d
}

/// The whole game: heading and queued turn, the snake's body, the food,
/// whose turn it is to drive, and the level.
#[derive(Debug)]
pub struct GameState {
    next_direction: Option<Direction>,
    velocity: Velocity,
    snake: [Coordinate; MAX_SNAKE_LENGTH],
    length: usize,
    food: Coordinate,
    pub player: Player,
    level: u32,
}

impl GameState {
    /// The occupied cells, head first.
    pub closed spec fn body(&self) -> Seq<Coordinate> {
        self.snake@.subrange(0, self.length as int)
    }

    /// The turn queued for the next tick, if any.
    pub closed spec fn pending(&self) -> Option<Direction> {
        self.next_direction
    }

    /// The current heading.
    pub closed spec fn heading(&self) -> Velocity {
        self.velocity
    }

    /// The cell holding the food.
    pub closed spec fn food_cell(&self) -> Coordinate {
        self.food
    }

    /// The slot count stays within the array.
    pub closed spec fn slots_fit(&self) -> bool {
        self.length <= MAX_SNAKE_LENGTH
    }

    /// The player who drives now.
    pub closed spec fn driver(&self) -> Player {
        self.player
    }

    /// The current level.
    pub closed spec fn level_of(&self) -> u32 {
        self.level
    }

    /// The state's invariant: a non-empty body below capacity, on the
    /// playfield and without repeated cells, and food on a free cell.
    pub open spec fn wf(&self) -> bool {
        &&& self.slots_fit()
        &&& 1 <= self.body().len() < MAX_SNAKE_LENGTH
        &&& valid_body(self.body())
        &&& self.food_cell().in_bounds()
        &&& !self.body().contains(self.food_cell())
    }

    /// A state as a new game has it, whatever food was drawn.
    pub open spec fn is_fresh(&self) -> bool {
        &&& self.wf()
        &&& self.body() == seq![start_cell()]
        &&& self.heading() == Velocity::Right
        &&& self.pending() is None
        &&& self.driver() == Player::P2
        &&& self.level_of() == 0
    }

    /// The heading the next tick moves along: the current one, turned by
    /// the queued turn if there is one.
    pub open spec fn next_heading(&self) -> Velocity {
        match self.pending() {
            Some(d) => self.heading().turned(d),
            None => self.heading(),
        }
    }

    /// Where the head goes on the next tick, or `Err` where it would leave
    /// the playfield.
    pub open spec fn target(&self) -> Result<Coordinate, ()> {
        self.body()[0].moved(self.next_heading())
    }

    /// The next tick ends the game: the head would leave the playfield or
    /// run into the body.
    pub open spec fn collides(&self) -> bool {
        match self.target() {
            Ok(c) => self.body().contains(c),
            Err(_) => true,
        }
    }

    /// The next tick eats the food.
    pub open spec fn eats(&self) -> bool {
        !self.collides() && self.target() == Ok::<Coordinate, ()>(self.food_cell())
    }

    /// Starts a game: a one-cell snake heading right, player two driving,
    /// level zero, and food on a random free cell.
    pub fn new(rng: &mut rand::rngs::SmallRng) -> (r: Self)
        ensures
            r.is_fresh(),
    {
        let snake = [Coordinate(1, 3); MAX_SNAKE_LENGTH];
        let food = place_food(&snake, 1, rng);
        let r = GameState {
            next_direction: None,
            velocity: Velocity::Right,
            snake,
            length: 1,
            food,
            player: Player::P2,
            level: 0,
        };
        assert(r.body() =~= seq![start_cell()]);
        r
    }

    /// Whether `player` is the one who drives now.
    pub fn is_driver(&self, player: Player) -> (r: bool)
        ensures
            r == (player == self.driver()),
    {
        match self.player {
            Player::P1 => match player {
                Player::P1 => true,
                Player::P2 => false,
            },
            Player::P2 => match player {
                Player::P1 => false,
                Player::P2 => true,
            },
        }
    }

    /// Queues a turn for the next tick, if `player` drives; otherwise does
    /// nothing. A later push before the tick replaces an earlier one.
    pub fn button_push(&mut self, player: Player, direction: Direction)
        ensures
            final(self).pending() == if player == old(self).driver() {
                Some(direction)
            } else {
                old(self).pending()
            },
            final(self).body() == old(self).body(),
            final(self).heading() == old(self).heading(),
            final(self).food_cell() == old(self).food_cell(),
            final(self).driver() == old(self).driver(),
            final(self).level_of() == old(self).level_of(),
            old(self).wf() ==> final(self).wf(),
    {
        if !self.is_driver(player) {
            return;
        }
        self.next_direction = Some(direction);
    }

    /// A game in progress with the given body (head first), heading, food,
    /// driver and level, and no queued turn; `None` unless the body has at
    /// least one and fewer than `MAX_SNAKE_LENGTH` cells, all on the
    /// playfield and distinct, and the food is on a free cell.
    pub fn with_body(body: &Vec<Coordinate>, velocity: Velocity, food: Coordinate, player: Player, level: u32) -> (r: Option<Self>)
        ensures
            r is Some <==> (1 <= body@.len() < MAX_SNAKE_LENGTH && valid_body(body@) && food.in_bounds()
                && !body@.contains(food)),
            r matches Some(g) ==> g.wf() && g.body() == body@ && g.heading() == velocity && g.pending() is None
                && g.food_cell() == food && g.driver() == player && g.level_of() == level,
    {
        if body.len() == 0 || body.len() >= MAX_SNAKE_LENGTH || !on_playfield(food) {
            return None;
        }
        let mut snake = [body[0]; MAX_SNAKE_LENGTH];
        let mut i: usize = 0;
        while i < body.len()
            invariant
                i <= body@.len() < MAX_SNAKE_LENGTH,
                forall|j: int| 0 <= j < i ==> snake@[j] == body@[j],
            decreases body@.len() - i,
        {
            snake[i] = body[i];
            i = i + 1;
        }
        assert(snake@.subrange(0, body@.len() as int) =~= body@);
        let length = body.len();
        let mut j: usize = 0;
        while j < length
            invariant
                j <= length == body@.len() < MAX_SNAKE_LENGTH,
                snake@.subrange(0, length as int) == body@,
                forall|a: int, b: int| 0 <= a < b < body@.len() && a < j ==> body@[a] != body@[b],
                forall|a: int| 0 <= a < j ==> (#[trigger] body@[a]).in_bounds(),
            decreases length - j,
        {
            if !on_playfield(body[j]) {
                return None;
            }
            let mut k: usize = j + 1;
            while k < length
                invariant
                    j < length == body@.len() < MAX_SNAKE_LENGTH,
                    j < k <= length,
                    forall|b: int| j < b < k ==> body@[j as int] != #[trigger] body@[b],
                decreases length - k,
            {
                if body[j] == body[k] {
                    return None;
                }
                k = k + 1;
            }
            j = j + 1;
        }
        if contains_cell(&snake, length, food) {
            return None;
        }
        Some(GameState { next_direction: None, velocity, snake, length, food, player, level })
    }

    /// The head's cell.
    pub fn head(&self) -> (c: Coordinate)
        requires
            self.wf(),
        ensures
            c == self.body()[0],
    {
        self.snake[0]
    }

    /// The current heading.
    pub fn velocity(&self) -> (v: Velocity)
        ensures
            v == self.heading(),
    {
        self.velocity
    }

    /// The current level.
    pub fn level(&self) -> (l: u32)
        ensures
            l == self.level_of(),
    {
        self.level
    }

    /// The food's cell.
    pub fn food(&self) -> (c: Coordinate)
        ensures
            c == self.food_cell(),
    {
        self.food
    }

    /// Whether the body holds `c`.
    pub fn occupies(&self, c: Coordinate) -> (r: bool)
        requires
            self.wf(),
        ensures
            r == self.body().contains(c),
    {
        contains_cell(&self.snake, self.length, c)
    }

    /// The occupied cells, head first.
    pub fn snake(&self) -> (r: Vec<Coordinate>)
        requires
            self.wf(),
        ensures
            r@ == self.body(),
    {
        let mut r: Vec<Coordinate> = Vec::new();
        let mut i: usize = 0;
        while i < self.length
            invariant
                i <= self.length <= MAX_SNAKE_LENGTH,
                r@ == self.snake@.subrange(0, i as int),
            decreases self.length - i,
        {
            r.push(self.snake[i]);
            i = i + 1;
            assert(r@ =~= self.snake@.subrange(0, i as int));
        }
        r
    }
}


impl GameState {
    /// Writes `head` in front of the body, which grows by one.
    fn insert_head(&mut self, head: Coordinate)
        requires
            old(self).slots_fit(),
            old(self).length < MAX_SNAKE_LENGTH,
        ensures
            final(self).slots_fit(),
            final(self).length == old(self).length + 1,
            final(self).body() == seq![head] + old(self).body(),
            final(self).food == old(self).food,
            final(self).player == old(self).player,
            final(self).level == old(self).level,
            final(self).velocity == old(self).velocity,
            final(self).next_direction == old(self).next_direction,
    {
        let ghost before = self.snake@;
        let mut i: usize = self.length;
        while i > 0
            invariant
                i <= self.length < MAX_SNAKE_LENGTH,
                self.length == old(self).length,
                self.food == old(self).food,
                self.player == old(self).player,
                self.level == old(self).level,
                self.velocity == old(self).velocity,
                self.next_direction == old(self).next_direction,
                forall|j: int| 0 <= j <= i ==> self.snake@[j] == before[j],
                forall|j: int| i < j <= self.length ==> self.snake@[j] == before[j - 1],
            decreases i,
        {
            self.snake[i] = self.snake[i - 1];
            i = i - 1;
        }
        self.snake[0] = head;
        self.length = self.length + 1;
        assert(self.body() =~= seq![head] + old(self).body());
    }

    /// Advances the game by one step and returns how long to wait before
    /// the next one.
    ///
    /// The queued turn is applied to the heading first. A head that would
    /// leave the playfield or run into the body starts a new game. A head
    /// that reaches the food grows the snake by one and hands the controls
    /// to the other player; at full capacity that is a lap, which shrinks
    /// the snake to its head and raises the level. New food is then drawn
    /// from the free cells. Any other move keeps the length.
    pub fn tick(&mut self, rng: &mut rand::rngs::SmallRng) -> (r: u32)
        requires
            old(self).wf(),
        ensures
            final(self).wf(),
            r == tick_duration(final(self).level_of()),
            old(self).collides() ==> final(self).is_fresh(),
            !old(self).collides() ==> final(self).heading() == old(self).next_heading()
                && final(self).pending() is None,
            old(self).eats() ==> final(self).driver() == old(self).driver().other(),
            old(self).eats() && old(self).body().len() + 1 < MAX_SNAKE_LENGTH ==> final(self).body()
                == seq![old(self).food_cell()] + old(self).body() && final(self).level_of()
                == old(self).level_of(),
            old(self).eats() && old(self).body().len() + 1 == MAX_SNAKE_LENGTH ==> final(self).body()
                == seq![old(self).food_cell()] && final(self).level_of() == level_after_lap(
                old(self).level_of(),
            ),
            !old(self).collides() && !old(self).eats() ==> (old(self).target() matches Ok(c)
                && final(self).body() == seq![c] + old(self).body().drop_last()
                && final(self).food_cell() == old(self).food_cell() && final(self).driver()
                == old(self).driver() && final(self).level_of() == old(self).level_of()),
    {
        let ghost start = *self;
        let snake_head = self.snake[0];
        if let Some(next_direction) = self.next_direction {
            self.velocity = self.velocity.apply(next_direction);
            self.next_direction = None;
        }
        assert(start.body()[0] == snake_head);
        let new_snake_head = snake_head.apply(self.velocity);
        match new_snake_head {
            Ok(h) => {
                if !contains_cell(&self.snake, self.length, h) {
                    self.insert_head(h);
                    proof {
                        let b = self.body();
                        assert(b[0] == h);
                        assert forall|i: int, j: int| 0 <= i < j < b.len() implies b[i] != b[j] by {
                            if i == 0 {
                                assert(b[j] == start.body()[j - 1]);
                            }
                        }
                        assert(valid_body(b));
                    }
                    if h == self.food {
                        if self.length >= MAX_SNAKE_LENGTH {
                            self.length = 1;
                            self.level = if self.level < u32::MAX {
                                self.level + 1
                            } else {
                                self.level
                            };
                            assert(self.body() =~= seq![h]);
                        }
                        self.food = place_food(&self.snake, self.length, rng);
                        self.player = match self.player {
                            Player::P1 => Player::P2,
                            Player::P2 => Player::P1,
                        };
                    } else {
                        let ghost grown = self.body();
                        self.length = self.length - 1;
                        assert(self.body() =~= seq![h] + start.body().drop_last());
                        assert(self.body() =~= grown.drop_last());
                        proof {
                            if self.body().contains(self.food) {
                                let k = choose|k: int| 0 <= k < self.body().len() && self.body()[k] == self.food;
                                assert(grown[k] == self.food);
                                if k > 0 {
                                    assert(start.body()[k - 1] == self.food);
                                }
                            }
                        }
                    }
                } else {
                    *self = GameState::new(rng);
                }
            },
            Err(()) => {
                *self = GameState::new(rng);
            },
        }
        duration(self.level)
    }
}

/// A turn pushed by the player who does not drive changes nothing the next
/// tick reads: the queued turn, the heading, and so where the head goes.
pub proof fn lemma_non_driver_push_ignored(before: GameState, after: GameState, player: Player, d: Direction)
    requires
        player != before.driver(),
        after.pending() == (if player == before.driver() {
            Some(d)
        } else {
            before.pending()
        }),
        after.body() == before.body(),
        after.heading() == before.heading(),
        after.food_cell() == before.food_cell(),
    ensures
        after.pending() == before.pending(),
        after.next_heading() == before.next_heading(),
        after.target() == before.target(),
        after.collides() == before.collides(),
        after.eats() == before.eats(),
{
}

/// A head in the rightmost column that moves right leaves the playfield,
/// so the tick starts a new game.
pub proof fn lemma_right_edge_collides(g: GameState)
    requires
        g.wf(),
        g.body()[0].0 == WIDTH - 1,
        g.next_heading() == Velocity::Right,
    ensures
        g.target() is Err,
        g.collides(),
{
}

/// A head whose next cell is already in the body runs into itself, so the
/// tick starts a new game.
pub proof fn lemma_self_collision(g: GameState, c: Coordinate)
    requires
        g.wf(),
        g.target() == Ok::<Coordinate, ()>(c),
        g.body().contains(c),
    ensures
        g.collides(),
        !g.eats(),
{
}

/// A lap makes the next tick strictly shorter, until the duration has
/// reached zero, where it stays.
pub proof fn lemma_lap_speeds_up(level: u32)
    ensures
        tick_duration(level) > 0 && level < u32::MAX ==> tick_duration(level_after_lap(level)) < tick_duration(level),
        tick_duration(level_after_lap(level)) <= tick_duration(level),
{
    let l = level as nat;
    lemma_pow2_pos(l);
    if level < u32::MAX {
        lemma_pow2_unfold(l + 1);
        lemma_div_denominator(BASE_TICK as int, pow2(l) as int, 2);
        assert(level_after_lap(level) as nat == l + 1);
    }
}

} // verus!
