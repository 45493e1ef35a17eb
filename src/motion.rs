//! Directions, mirrors and the toroidal movement of the instruction pointer.

use crate::codebox::Pos;
use vstd::prelude::*;

verus! {

/// The heading of the instruction pointer.
#[derive(Debug, Clone, Copy, PartialEq, Eq, Structural)]
pub enum Direction {
    North,
    East,
    South,
    West,
}

/// The opposite heading.
pub open spec fn reversed(d: Direction) -> Direction {
    match d {
        Direction::North => Direction::South,
        Direction::East => Direction::West,
        Direction::South => Direction::North,
        Direction::West => Direction::East,
    }
}

/// The heading after the mirror `/`: North and East swap, South and West swap.
pub open spec fn slash(d: Direction) -> Direction {
    match d {
        Direction::North => Direction::East,
        Direction::East => Direction::North,
        Direction::South => Direction::West,
        Direction::West => Direction::South,
    }
}

/// The heading after the mirror `\`: North and West swap, South and East swap.
pub open spec fn backslash(d: Direction) -> Direction {
    match d {
        Direction::North => Direction::West,
        Direction::East => Direction::South,
        Direction::South => Direction::East,
        Direction::West => Direction::North,
    }
}

/// Whether `d` is East or West.
pub open spec fn is_horizontal(d: Direction) -> bool {
    d == Direction::East || d == Direction::West
}

/// The heading after executing `c` while heading `d`: arrows set it,
/// mirrors reflect it, `|` reverses horizontal travel, `_` vertical travel
/// and `#` any travel; other characters leave it.
pub open spec fn turned(c: char, d: Direction) -> Direction {
    if c == '^' {
        Direction::North
    } else if c == '>' {
        Direction::East
    } else if c == 'v' {
        Direction::South
    } else if c == '<' {
        Direction::West
    } else if c == '/' {
        slash(d)
    } else if c == '\\' {
        backslash(d)
    } else if c == '|' {
        if is_horizontal(d) { reversed(d) } else { d }
    } else if c == '_' {
        if is_horizontal(d) { d } else { reversed(d) }
    } else if c == '#' {
        reversed(d)
    } else {
        d
    }
}

/// Whether `c` is an arrow or a mirror.
pub open spec fn is_turn(c: char) -> bool {
    c == '^' || c == '>' || c == 'v' || c == '<' || c == '/' || c == '\\' || c == '|' || c
        == '_' || c == '#'
}

impl Direction {
    /// The opposite heading.
    pub fn reverse(&self) -> (r: Direction)
        ensures
            r == reversed(*self),
    {
        match self {
            Direction::North => Direction::South,
            Direction::East => Direction::West,
            Direction::South => Direction::North,
            Direction::West => Direction::East,
        }
    }

    /// The heading after executing the arrow or mirror `c`.
    pub fn turn(&self, c: char) -> (r: Direction)
        ensures
            r == turned(c, *self),
    {
        match c {
            '^' => Direction::North,
            '>' => Direction::East,
            'v' => Direction::South,
            '<' => Direction::West,
            '/' => match self {
                Direction::North => Direction::East,
                Direction::East => Direction::North,
                Direction::South => Direction::West,
                Direction::West => Direction::South,
            },
            '\\' => match self {
                Direction::North => Direction::West,
                Direction::East => Direction::South,
                Direction::South => Direction::East,
                Direction::West => Direction::North,
            },
            '|' => match self {
                Direction::East | Direction::West => self.reverse(),
                _ => *self,
            },
            '_' => match self {
                Direction::North | Direction::South => self.reverse(),
                _ => *self,
            },
            '#' => self.reverse(),
            _ => *self,
        }
    }

    /// The heading that a random draw `n` picks: each of the four headings
    /// for a quarter of the draws.
    pub fn from_draw(n: u32) -> (r: Direction)
        ensures
            n % 4 == 0 ==> r == Direction::North,
            n % 4 == 1 ==> r == Direction::East,
            n % 4 == 2 ==> r == Direction::South,
            n % 4 == 3 ==> r == Direction::West,
    {
        match n % 4 {
            0 => Direction::North,
            1 => Direction::East,
            2 => Direction::South,
            _ => Direction::West,
        }
    }
}

/// One step along an axis of size `max`: backward from 0 wraps to the last
/// cell; any other step that would end at `max` or beyond wraps to 0.
pub open spec fn wrapped(coord: int, incr: int, max: int) -> int {
    if incr < 0 {
        if coord == 0 {
            if max == 0 { 0 } else { max - 1 }
        } else if coord - 1 >= max {
            0
        } else {
            coord - 1
        }
    } else {
        if coord + 1 >= max { 0 } else { coord + 1 }
    }
}

/// The coordinate after one step of `incr` (1 or -1) on an axis of size
/// `max`.
pub fn get_wrapped_coord(coord: usize, incr: isize, max: usize) -> (r: usize)
    requires
        incr == 1 || incr == -1,
    ensures
        r == wrapped(coord as int, incr as int, max as int),
{
    if incr < 0 {
        if coord == 0 {
            if max == 0 { 0 } else { max - 1 }
        } else if coord - 1 >= max {
            0
        } else {
            coord - 1
        }
    } else {
        if coord >= max || max - coord == 1 {
            0
        } else {
            coord + 1
        }
    }
}

/// The cell after `p` heading `d` on a `w` by `h` torus.
pub open spec fn next_pos(p: Pos, d: Direction, w: usize, h: usize) -> Pos {
    match d {
        Direction::North => Pos { x: p.x, y: wrapped(p.y as int, -1, h as int) as usize },
        Direction::East => Pos { x: wrapped(p.x as int, 1, w as int) as usize, y: p.y },
        Direction::South => Pos { x: p.x, y: wrapped(p.y as int, 1, h as int) as usize },
        Direction::West => Pos { x: wrapped(p.x as int, -1, w as int) as usize, y: p.y },
    }
}

/// The cell after `p` heading `d` on a `w` by `h` torus.
pub fn step_pos(p: Pos, d: Direction, w: usize, h: usize) -> (r: Pos)
    ensures
        r == next_pos(p, d, w, h),
{
    match d {
        Direction::North => Pos { x: p.x, y: get_wrapped_coord(p.y, -1, h) },
        Direction::East => Pos { x: get_wrapped_coord(p.x, 1, w), y: p.y },
        Direction::South => Pos { x: p.x, y: get_wrapped_coord(p.y, 1, h) },
        Direction::West => Pos { x: get_wrapped_coord(p.x, -1, w), y: p.y },
    }
}

/// The cell `k` steps after `p` heading `d`.
pub open spec fn moved(p: Pos, d: Direction, w: usize, h: usize, k: nat) -> Pos
    decreases k,
{
    if k == 0 {
        p
    } else {
        next_pos(moved(p, d, w, h, (k - 1) as nat), d, w, h)
    }
}

/// `#` twice restores the heading.
pub proof fn lemma_reverse_involution(d: Direction)
    ensures
        turned('#', turned('#', d)) == d,
{
}

/// Four reflections in `/`, or four in `\`, restore the heading.
pub proof fn lemma_mirrors_order_four(d: Direction)
    ensures
        turned('/', turned('/', turned('/', turned('/', d)))) == d,
        turned('\\', turned('\\', turned('\\', turned('\\', d)))) == d,
{
}

proof fn lemma_mod_succ(a: int, w: int)
    requires
        a >= 0,
        w > 0,
    ensures
        (a + 1) % w == if a % w + 1 >= w { 0 } else { a % w + 1 },
        0 <= a % w < w,
{
    vstd::arithmetic::div_mod::lemma_fundamental_div_mod(a, w);
    vstd::arithmetic::div_mod::lemma_mod_pos_bound(a, w);
    let q = a / w;
    let r = a % w;
    assert(a == q * w + r) by (nonlinear_arith)
        requires
            a == w * (a / w) + a % w,
            q == a / w,
            r == a % w,
    ;
    if r + 1 >= w {
        assert(a + 1 == (q + 1) * w + 0) by (nonlinear_arith)
            requires
                a == q * w + r,
                r + 1 == w,
        ;
        vstd::arithmetic::div_mod::lemma_fundamental_div_mod_converse(a + 1, w, q + 1, 0);
    } else {
        vstd::arithmetic::div_mod::lemma_fundamental_div_mod_converse(a + 1, w, q, r + 1);
    }
}

proof fn lemma_moved_east(p: Pos, w: usize, h: usize, k: nat)
    requires
        p.x < w,
    ensures
        moved(p, Direction::East, w, h, k) == (Pos { x: ((p.x + k) % (w as int)) as usize, y: p.y }),
    decreases k,
{
    if k == 0 {
        vstd::arithmetic::div_mod::lemma_small_mod(p.x as nat, w as nat);
    } else {
        lemma_moved_east(p, w, h, (k - 1) as nat);
        lemma_mod_succ(p.x + k - 1, w as int);
    }
}

proof fn lemma_moved_south(p: Pos, w: usize, h: usize, k: nat)
    requires
        p.y < h,
    ensures
        moved(p, Direction::South, w, h, k) == (Pos { x: p.x, y: ((p.y + k) % (h as int)) as usize }),
    decreases k,
{
    if k == 0 {
        vstd::arithmetic::div_mod::lemma_small_mod(p.y as nat, h as nat);
    } else {
        lemma_moved_south(p, w, h, (k - 1) as nat);
        lemma_mod_succ(p.y + k - 1, h as int);
    }
}

/// Inside a `w` by `h` grid, `w` steps East, or `h` steps South, come back
/// to the cell they started from.
pub proof fn lemma_wrap_around(p: Pos, w: usize, h: usize)
    requires
        p.x < w,
        p.y < h,
    ensures
        moved(p, Direction::East, w, h, w as nat) == p,
        moved(p, Direction::South, w, h, h as nat) == p,
{
    lemma_moved_east(p, w, h, w as nat);
    lemma_moved_south(p, w, h, h as nat);
    vstd::arithmetic::div_mod::lemma_mod_add_multiples_vanish(p.x as int, w as int);
    vstd::arithmetic::div_mod::lemma_mod_add_multiples_vanish(p.y as int, h as int);
    vstd::arithmetic::div_mod::lemma_small_mod(p.x as nat, w as nat);
    vstd::arithmetic::div_mod::lemma_small_mod(p.y as nat, h as nat);
}

} // verus!
