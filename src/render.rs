use crate::coord::{Coordinate, Player};
use crate::game::{contains_cell, GameState};
use crate::{HEIGHT, LED_COUNT, MAX_SNAKE_LENGTH, WIDTH};
use vstd::prelude::*;

verus! {

#[verifier::external_type_specification]
#[verifier::reject_recursive_types(T)]
pub struct ExRgb<T>(smart_leds::RGB<T>);

/// Colour of an empty cell.
pub open spec fn playfield_color() -> smart_leds::RGB8 {
    smart_leds::RGB8 { r: 0, g: 0, b: 0 }
}

/// Colour of the LEDs between rows.
pub open spec fn spare_color() -> smart_leds::RGB8 {
    smart_leds::RGB8 { r: 0, g: 0, b: 0 }
}

/// Colour of the snake's head.
pub open spec fn head_color() -> smart_leds::RGB8 {
    smart_leds::RGB8 { r: 0, g: 0x80, b: 0 }
}

/// Colour of the snake's other segments.
pub open spec fn tail_color() -> smart_leds::RGB8 {
    smart_leds::RGB8 { r: 0xff, g: 0, b: 0 }
}

/// Colour of the food.
pub open spec fn food_color() -> smart_leds::RGB8 {
    smart_leds::RGB8 { r: 0, g: 0, b: 0xff }
}

/// Relies on `smart_leds::colors::BLACK` being (0, 0, 0).
#[verifier::external_body]
fn black() -> (c: smart_leds::RGB8)
    ensures
        c == playfield_color(),
        c == spare_color(),
{
    smart_leds::colors::BLACK
}

/// Relies on `smart_leds::colors::GREEN` being (0, 0x80, 0).
#[verifier::external_body]
fn green() -> (c: smart_leds::RGB8)
    ensures
        c == head_color(),
{
    smart_leds::colors::GREEN
}

/// Relies on `smart_leds::colors::RED` being (0xff, 0, 0).
#[verifier::external_body]
fn red() -> (c: smart_leds::RGB8)
    ensures
        c == tail_color(),
{
    smart_leds::colors::RED
}

/// Relies on `smart_leds::colors::BLUE` being (0, 0, 0xff).
#[verifier::external_body]
fn blue() -> (c: smart_leds::RGB8)
    ensures
        c == food_color(),
{
    smart_leds::colors::BLUE
}

impl GameState {
    /// Colour of cell `c` for `player`, before any mirroring. The head is
    /// always shown; the driver also sees the food, the other player the
    /// rest of the body.
    pub open spec fn cell_color(&self, player: Player, c: Coordinate) -> smart_leds::RGB8 {
        if c == self.body()[0] {
            head_color()
        } else if player == self.driver() {
            if c == self.food_cell() {
                food_color()
            } else {
                playfield_color()
            }
        } else if self.body().contains(c) {
            tail_color()
        } else {
            playfield_color()
        }
    }

    /// Row `y` of `player`'s playfield, left to right, before mirroring.
    pub open spec fn plain_row(&self, player: Player, y: int) -> Seq<smart_leds::RGB8> {
        Seq::new(WIDTH as nat, |x: int| self.cell_color(player, Coordinate(x as usize, y as usize)))
    }

    /// Row `y` of `player`'s playfield as shown: the other player's rows
    /// are mirrored, the driver's are not.
    pub open spec fn shown_row(&self, player: Player, y: int) -> Seq<smart_leds::RGB8> {
        if player == self.driver() {
            self.plain_row(player, y)
        } else {
            self.plain_row(player, y).reverse()
        }
    }

    /// The strip's LEDs for rows `2 * i` and `2 * i + 1`: both players' even
    /// rows forwards, a separator, then both odd rows backwards.
    pub open spec fn row_pair(&self, i: int) -> Seq<smart_leds::RGB8> {
        self.shown_row(Player::P1, 2 * i) + self.shown_row(Player::P2, 2 * i) + seq![spare_color()]
            + self.shown_row(Player::P2, 2 * i + 1).reverse() + self.shown_row(Player::P1, 2 * i + 1).reverse()
    }

    /// The whole strip: the three row pairs with a separator between each.
    pub open spec fn strip(&self) -> Seq<smart_leds::RGB8> {
        self.row_pair(0) + seq![spare_color()] + self.row_pair(1) + seq![spare_color()] + self.row_pair(2)
    }

    /// `player`'s playfield as shown, one array per row, bottom row first.
    fn playfield(&self, player: Player) -> (grid: [[smart_leds::RGB8; WIDTH]; HEIGHT])
        requires
            self.wf(),
        ensures
            forall|y: int| 0 <= y < HEIGHT ==> (#[trigger] grid@[y])@ == self.shown_row(player, y),
    {
        let driver = self.is_driver(player);
        let head = self.head();
        let food = self.food();
        let mut grid = [[black(); WIDTH]; HEIGHT];
        let mut y: usize = 0;
        while y < HEIGHT
            invariant
                y <= HEIGHT,
                self.wf(),
                driver == (player == self.driver()),
                head == self.body()[0],
                food == self.food_cell(),
                forall|k: int| 0 <= k < y ==> (#[trigger] grid@[k])@ == self.shown_row(player, k),
            decreases HEIGHT - y,
        {
            let mut row = [black(); WIDTH];
            let mut x: usize = 0;
            while x < WIDTH
                invariant
                    x <= WIDTH,
                    y < HEIGHT,
                    self.wf(),
                    driver == (player == self.driver()),
                    head == self.body()[0],
                    food == self.food_cell(),
                    forall|k: int| 0 <= k < x ==> row@[k] == #[trigger] self.shown_row(player, y as int)[k],
                decreases WIDTH - x,
            {
                let cx = if driver {
                    x
                } else {
                    WIDTH - 1 - x
                };
                let cell = Coordinate(cx, y);
                let color = if cell == head {
                    green()
                } else if driver {
                    if cell == food {
                        blue()
                    } else {
                        black()
                    }
                } else if self.occupies(cell) {
                    red()
                } else {
                    black()
                };
                row[x] = color;
                x = x + 1;
            }
            assert(row@ =~= self.shown_row(player, y as int));
            grid[y] = row;
            y = y + 1;
        }
        grid
    }

    /// The colours for the whole LED strip, in wiring order: for each pair
    /// of rows, both players' lower rows left to right, a separator, both
    /// upper rows right to left, and a separator between pairs.
    pub fn leds(&self) -> (r: [smart_leds::RGB8; LED_COUNT])
        requires
            self.wf(),
        ensures
            r@ == self.strip(),
            r@.len() == 2 * WIDTH * HEIGHT + 5,
    {
        let mut leds = [black(); LED_COUNT];
        let playfield_p1 = self.playfield(Player::P1);
        let playfield_p2 = self.playfield(Player::P2);
        let mut offset: usize = 0;
        let mut i: usize = 0;
        while i < 3
            invariant
                i <= 3,
                offset == if i < 3 {
                    26 * i
                } else {
                    LED_COUNT as int
                },
                forall|y: int| 0 <= y < HEIGHT ==> (#[trigger] playfield_p1@[y])@ == self.shown_row(Player::P1, y),
                forall|y: int| 0 <= y < HEIGHT ==> (#[trigger] playfield_p2@[y])@ == self.shown_row(Player::P2, y),
                i == 0 ==> leds@.subrange(0, offset as int) == Seq::<smart_leds::RGB8>::empty(),
                i == 1 ==> leds@.subrange(0, offset as int) == self.row_pair(0) + seq![spare_color()],
                i == 2 ==> leds@.subrange(0, offset as int) == self.row_pair(0) + seq![spare_color()]
                    + self.row_pair(1) + seq![spare_color()],
                i == 3 ==> leds@ == self.strip(),
            decreases 3 - i,
        {
            let ghost before = leds@.subrange(0, offset as int);
            let ghost y = 2 * i as int;
            let ghost o0 = offset as int;
            offset = copy_row(&playfield_p1[i * 2], &mut leds, offset, false);
            assert(leds@.subrange(0, offset as int) =~= leds@.subrange(0, o0) + leds@.subrange(o0, offset as int));
            let ghost s1 = before + self.shown_row(Player::P1, y);
            assert(leds@.subrange(0, offset as int) =~= s1);
            let ghost o1 = offset as int;
            offset = copy_row(&playfield_p2[i * 2], &mut leds, offset, false);
            assert(leds@.subrange(0, offset as int) =~= leds@.subrange(0, o1) + leds@.subrange(o1, offset as int));
            let ghost s2 = s1 + self.shown_row(Player::P2, y);
            assert(leds@.subrange(0, offset as int) =~= s2);
            leds[offset] = black();
            offset = offset + 1;
            let ghost s3 = s2 + seq![spare_color()];
            assert(leds@.subrange(0, offset as int) =~= s3);
            let ghost o3 = offset as int;
            offset = copy_row(&playfield_p2[i * 2 + 1], &mut leds, offset, true);
            assert(leds@.subrange(0, offset as int) =~= leds@.subrange(0, o3) + leds@.subrange(o3, offset as int));
            let ghost s4 = s3 + self.shown_row(Player::P2, y + 1).reverse();
            assert(leds@.subrange(0, offset as int) =~= s4);
            let ghost o4 = offset as int;
            offset = copy_row(&playfield_p1[i * 2 + 1], &mut leds, offset, true);
            assert(leds@.subrange(0, offset as int) =~= leds@.subrange(0, o4) + leds@.subrange(o4, offset as int));
            let ghost s5 = s4 + self.shown_row(Player::P1, y + 1).reverse();
            assert(leds@.subrange(0, offset as int) =~= s5);
            assert(s5 =~= before + self.row_pair(i as int));
            if offset < LED_COUNT {
                leds[offset] = black();
                offset = offset + 1;
                assert(leds@.subrange(0, offset as int) =~= before + self.row_pair(i as int) + seq![spare_color()]);
            }
            i = i + 1;
            if i == 3 {
                assert(leds@ =~= leds@.subrange(0, offset as int));
            }
        }
        leds
    }
}

/// Copies `row` into `target` from `offset` on, backwards where `reverse`
/// holds, and returns the offset just past it.
fn copy_row(
    row: &[smart_leds::RGB8; WIDTH],
    target: &mut [smart_leds::RGB8; LED_COUNT],
    offset: usize,
    reverse: bool,
) -> (next: usize)
    requires
        offset + WIDTH <= LED_COUNT,
    ensures
        next == offset + WIDTH,
        final(target)@.subrange(0, offset as int) == old(target)@.subrange(0, offset as int),
        final(target)@.subrange(offset as int, next as int) == if reverse {
            row@.reverse()
        } else {
            row@
        },
{
    let mut k: usize = 0;
    while k < WIDTH
        invariant
            k <= WIDTH,
            offset + WIDTH <= LED_COUNT,
            forall|j: int| 0 <= j < offset ==> target@[j] == old(target)@[j],
            forall|j: int| 0 <= j < k ==> #[trigger] target@[offset + j] == if reverse {
                row@[WIDTH - 1 - j]
            } else {
                row@[j]
            },
        decreases WIDTH - k,
    {
        target[offset + k] = if reverse {
            row[WIDTH - 1 - k]
        } else {
            row[k]
        };
        k = k + 1;
    }
    assert(target@.subrange(0, offset as int) =~= old(target)@.subrange(0, offset as int));
    let ghost copied = target@.subrange(offset as int, (offset + WIDTH) as int);
    assert forall|j: int| 0 <= j < WIDTH implies copied[j] == if reverse {
        row@[WIDTH - 1 - j]
    } else {
        row@[j]
    } by {
        assert(copied[j] == target@[offset + j]);
    }
    if reverse {
        assert(row@.reverse() =~= Seq::new(WIDTH as nat, |j: int| row@[WIDTH - 1 - j]));
        assert(target@.subrange(offset as int, (offset + WIDTH) as int) =~= row@.reverse());
    } else {
        assert(target@.subrange(offset as int, (offset + WIDTH) as int) =~= row@);
    }
    offset + WIDTH
}

/// The strip has one LED per cell of both playfields and five separators.
pub proof fn lemma_strip_length(g: GameState)
    ensures
        g.strip().len() == 2 * WIDTH * HEIGHT + 5,
        g.strip().len() == LED_COUNT,
{
}

/// The strip depends on the state alone: two renderings of one state,
/// with no tick between them, are equal.
pub proof fn lemma_leds_repeatable(g: GameState, first: [smart_leds::RGB8; LED_COUNT], second: [smart_leds::RGB8; LED_COUNT])
    requires
        first@ == g.strip(),
        second@ == g.strip(),
    ensures
        first@ == second@,
{
}

/// The player who does not drive sees each row mirrored; the driver sees it
/// as it is.
pub proof fn lemma_mirroring(g: GameState, y: int)
    ensures
        g.shown_row(g.driver(), y) == g.plain_row(g.driver(), y),
        g.shown_row(g.driver().other(), y) == g.plain_row(g.driver().other(), y).reverse(),
        forall|x: int|
            0 <= x < WIDTH ==> #[trigger] g.shown_row(g.driver().other(), y)[x] == g.plain_row(
                g.driver().other(),
                y,
            )[WIDTH - 1 - x],
{
    let p = g.driver().other();
    assert(p != g.driver());
}

} // verus!
