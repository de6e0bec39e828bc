//! The robot: position, heading and pen state, with bounds-checked motion.

use vstd::prelude::*;

use crate::error::Error;

verus! {

/// One of the four cardinal headings the robot can face.
#[derive(Clone, Copy, PartialEq, Eq, Structural, Debug)]
pub enum Direction {
    Up,
    Down,
    Left,
    Right,
}

/// The mathematical state of a robot: coordinates as unbounded integers,
/// heading and pen state.
pub struct RobotView {
    pub x: int,
    pub y: int,
    pub direction: Direction,
    pub drawing: bool,
}

/// The heading after one left turn: Up -> Left -> Down -> Right -> Up.
pub open spec fn left_of(d: Direction) -> Direction {
    match d {
        Direction::Up => Direction::Left,
        Direction::Left => Direction::Down,
        Direction::Down => Direction::Right,
        Direction::Right => Direction::Up,
    }
}

/// The heading after one right turn: the exact inverse cycle of `left_of`.
pub open spec fn right_of(d: Direction) -> Direction {
    match d {
        Direction::Up => Direction::Right,
        Direction::Right => Direction::Down,
        Direction::Down => Direction::Left,
        Direction::Left => Direction::Up,
    }
}

/// The heading after `n` left turns.
pub open spec fn rot_left(d: Direction, n: nat) -> Direction
    decreases n,
{
    if n == 0 {
        d
    } else {
        left_of(rot_left(d, (n - 1) as nat))
    }
}

/// The heading after `n` right turns.
pub open spec fn rot_right(d: Direction, n: nat) -> Direction
    decreases n,
{
    if n == 0 {
        d
    } else {
        right_of(rot_right(d, (n - 1) as nat))
    }
}

/// Both coordinates lie in the range of the machine integers that store them.
pub open spec fn in_bounds(v: RobotView) -> bool {
    &&& i32::MIN <= v.x <= i32::MAX
    &&& i32::MIN <= v.y <= i32::MAX
}

/// How many forward steps remain before the coordinate range ends in the
/// current heading.
pub open spec fn steps_left(v: RobotView) -> int {
    match v.direction {
        Direction::Up => i32::MAX - v.y,
        Direction::Right => i32::MAX - v.x,
        Direction::Down => v.y - i32::MIN,
        Direction::Left => v.x - i32::MIN,
    }
}

/// The state after `n` forward steps along the current heading.
pub open spec fn forward_n(v: RobotView, n: int) -> RobotView {
    match v.direction {
        Direction::Up => RobotView { y: v.y + n, ..v },
        Direction::Right => RobotView { x: v.x + n, ..v },
        Direction::Down => RobotView { y: v.y - n, ..v },
        Direction::Left => RobotView { x: v.x - n, ..v },
    }
}

/// Rotating left `n` times is rotating left `n % 4` times: the cycle of
/// headings has length four.
pub proof fn lemma_rot_left_period(d: Direction, n: nat)
    ensures
        rot_left(d, n) == rot_left(d, n % 4),
    decreases n,
{
    if n >= 4 {
        lemma_rot_left_shift(d, n);
        lemma_rot_left_shift(d, (n - 1) as nat);
        lemma_rot_left_shift(d, (n - 2) as nat);
        lemma_rot_left_shift(d, (n - 3) as nat);
        assert(rot_left(d, n) == rot_left(d, (n - 4) as nat));
        lemma_rot_left_period(d, (n - 4) as nat);
    }
}

/// Rotating right `n` times is rotating right `n % 4` times.
pub proof fn lemma_rot_right_period(d: Direction, n: nat)
    ensures
        rot_right(d, n) == rot_right(d, n % 4),
    decreases n,
{
    if n >= 4 {
        lemma_rot_right_shift(d, n);
        lemma_rot_right_shift(d, (n - 1) as nat);
        lemma_rot_right_shift(d, (n - 2) as nat);
        lemma_rot_right_shift(d, (n - 3) as nat);
        assert(rot_right(d, n) == rot_right(d, (n - 4) as nat));
        lemma_rot_right_period(d, (n - 4) as nat);
    }
}

/// Any multiple of four left turns leaves the heading unchanged.
pub proof fn lemma_rot_left_multiple_of_four(d: Direction, n: nat)
    requires
        n % 4 == 0,
    ensures
        rot_left(d, n) == d,
{
    lemma_rot_left_period(d, n);
}

/// Any multiple of four right turns leaves the heading unchanged.
pub proof fn lemma_rot_right_multiple_of_four(d: Direction, n: nat)
    requires
        n % 4 == 0,
    ensures
        rot_right(d, n) == d,
{
    lemma_rot_right_period(d, n);
}

/// `n` right turns undo `n` left turns.
pub proof fn lemma_rot_right_undoes_left(d: Direction, n: nat)
    ensures
        rot_right(rot_left(d, n), n) == d,
    decreases n,
{
    if n > 0 {
        lemma_rot_right_shift(left_of(d), n);
        lemma_rot_left_shift(d, n);
        lemma_rot_right_undoes_left(left_of(d), (n - 1) as nat);
        assert(rot_right(rot_left(left_of(d), (n - 1) as nat), n) == right_of(
            rot_right(rot_left(left_of(d), (n - 1) as nat), (n - 1) as nat),
        ));
    }
}

/// `n` left turns undo `n` right turns.
pub proof fn lemma_rot_left_undoes_right(d: Direction, n: nat)
    ensures
        rot_left(rot_right(d, n), n) == d,
    decreases n,
{
    if n > 0 {
        lemma_rot_left_shift(right_of(d), n);
        lemma_rot_right_shift(d, n);
        lemma_rot_left_undoes_right(right_of(d), (n - 1) as nat);
        assert(rot_left(rot_right(right_of(d), (n - 1) as nat), n) == left_of(
            rot_left(rot_right(right_of(d), (n - 1) as nat), (n - 1) as nat),
        ));
    }
}

/// The outermost turn of a left rotation can instead be taken first.
proof fn lemma_rot_left_shift(d: Direction, n: nat)
    requires
        n >= 1,
    ensures
        rot_left(d, n) == rot_left(left_of(d), (n - 1) as nat),
    decreases n,
{
    if n == 1 {
        assert(rot_left(d, 1) == left_of(rot_left(d, 0)));
        assert(rot_left(left_of(d), 0) == left_of(d));
    } else {
        lemma_rot_left_shift(d, (n - 1) as nat);
        assert(rot_left(d, n) == left_of(rot_left(d, (n - 1) as nat)));
        assert(rot_left(left_of(d), (n - 1) as nat) == left_of(
            rot_left(left_of(d), (n - 2) as nat),
        ));
    }
}

/// The outermost turn of a right rotation can instead be taken first.
proof fn lemma_rot_right_shift(d: Direction, n: nat)
    requires
        n >= 1,
    ensures
        rot_right(d, n) == rot_right(right_of(d), (n - 1) as nat),
    decreases n,
{
    if n == 1 {
        assert(rot_right(d, 1) == right_of(rot_right(d, 0)));
        assert(rot_right(right_of(d), 0) == right_of(d));
    } else {
        lemma_rot_right_shift(d, (n - 1) as nat);
        assert(rot_right(d, n) == right_of(rot_right(d, (n - 1) as nat)));
        assert(rot_right(right_of(d), (n - 1) as nat) == right_of(
            rot_right(right_of(d), (n - 2) as nat),
        ));
    }
}

/// A robot on the grid.  Its coordinates are bounded machine integers; a move
/// past the end of their range is refused, never wrapped.
pub struct Robot {
    x: i32,
    y: i32,
    direction: Direction,
    drawing: bool,
}

impl View for Robot {
    type V = RobotView;

    closed spec fn view(&self) -> RobotView {
        RobotView {
            x: self.x as int,
            y: self.y as int,
            direction: self.direction,
            drawing: self.drawing,
        }
    }
}

impl Robot {
    pub fn new(x: i32, y: i32, direction: Direction, drawing: bool) -> (r: Self)
        ensures
            r@ == (RobotView { x: x as int, y: y as int, direction, drawing }),
    {
        Self { x, y, direction, drawing }
    }

    /// A real robot's coordinates always fit the machine integers that store
    /// them.
    pub proof fn lemma_in_bounds(&self)
        ensures
            in_bounds(self@),
    {
    }

    pub fn x(&self) -> (r: i32)
        ensures
            r as int == self@.x,
    {
        self.x
    }

    pub fn y(&self) -> (r: i32)
        ensures
            r as int == self@.y,
    {
        self.y
    }

    pub fn direction(&self) -> (r: Direction)
        ensures
            r == self@.direction,
    {
        self.direction
    }

    pub fn is_drawing(&self) -> (r: bool)
        ensures
            r == self@.drawing,
    {
        self.drawing
    }

    /// Advances one unit along the current heading.  At the end of the
    /// coordinate range the move is refused and the robot is unchanged.
    pub fn move_forward(&mut self) -> (r: Result<(), Error>)
        ensures
            steps_left(old(self)@) > 0 ==> r is Ok && final(self)@ == forward_n(old(self)@, 1),
            steps_left(old(self)@) == 0 ==> r is Err && r->Err_0 == Error::OutOfBounds
                && final(self)@ == old(self)@,
    {
        match self.direction {
            Direction::Up => {
                if self.y == i32::MAX {
                    return Err(Error::OutOfBounds);
                }
                self.y = self.y + 1;
            },
            Direction::Right => {
                if self.x == i32::MAX {
                    return Err(Error::OutOfBounds);
                }
                self.x = self.x + 1;
            },
            Direction::Down => {
                if self.y == i32::MIN {
                    return Err(Error::OutOfBounds);
                }
                self.y = self.y - 1;
            },
            Direction::Left => {
                if self.x == i32::MIN {
                    return Err(Error::OutOfBounds);
                }
                self.x = self.x - 1;
            },
        }
        Ok(())
    }

    /// Rotates the heading a quarter turn left.  Never fails.
    pub fn turn_left(&mut self)
        ensures
            final(self)@ == (RobotView { direction: left_of(old(self)@.direction), ..old(self)@ }),
    {
        self.direction = match self.direction {
            Direction::Up => Direction::Left,
            Direction::Left => Direction::Down,
            Direction::Down => Direction::Right,
            Direction::Right => Direction::Up,
        };
    }

    /// Rotates the heading a quarter turn right.  Never fails.
    pub fn turn_right(&mut self)
        ensures
            final(self)@ == (RobotView { direction: right_of(old(self)@.direction), ..old(self)@ }),
    {
        self.direction = match self.direction {
            Direction::Up => Direction::Right,
            Direction::Right => Direction::Down,
            Direction::Down => Direction::Left,
            Direction::Left => Direction::Up,
        };
    }

    /// Lowers the pen.  Idempotent: lowering an already lowered pen changes
    /// nothing.
    pub fn down_pen(&mut self)
        ensures
            final(self)@ == (RobotView { drawing: true, ..old(self)@ }),
    {
        if !self.drawing {
            self.drawing = true;
        }
    }

    /// Raises the pen.  Idempotent: raising an already raised pen changes
    /// nothing.
    pub fn up_pen(&mut self)
        ensures
            final(self)@ == (RobotView { drawing: false, ..old(self)@ }),
    {
        if self.drawing {
            self.drawing = false;
        }
    }
}

impl Default for Robot {
    /// The default robot: at the origin, facing up, pen raised.
    fn default() -> (r: Self)
        ensures
            r@ == (RobotView { x: 0, y: 0, direction: Direction::Up, drawing: false }),
    {
        Robot::new(0, 0, Direction::Up, false)
    }
}

/// A fluent configuration object producing a `Robot`, with defaults
/// `(0, 0, Up, not drawing)` for whatever is left unset.
pub struct RobotBuilder {
    x: i32,
    y: i32,
    direction: Direction,
    drawing: bool,
}

impl View for RobotBuilder {
    type V = RobotView;

    closed spec fn view(&self) -> RobotView {
        RobotView {
            x: self.x as int,
            y: self.y as int,
            direction: self.direction,
            drawing: self.drawing,
        }
    }
}

impl RobotBuilder {
    pub fn new() -> (r: Self)
        ensures
            r@ == (RobotView { x: 0, y: 0, direction: Direction::Up, drawing: false }),
    {
        Self { x: 0, y: 0, direction: Direction::Up, drawing: false }
    }

    pub fn x(self, x: i32) -> (r: Self)
        ensures
            r@ == (RobotView { x: x as int, ..self@ }),
    {
        Self { x, ..self }
    }

    pub fn y(self, y: i32) -> (r: Self)
        ensures
            r@ == (RobotView { y: y as int, ..self@ }),
    {
        Self { y, ..self }
    }

    pub fn direction(self, direction: Direction) -> (r: Self)
        ensures
            r@ == (RobotView { direction, ..self@ }),
    {
        Self { direction, ..self }
    }

    pub fn drawing(self, drawing: bool) -> (r: Self)
        ensures
            r@ == (RobotView { drawing, ..self@ }),
    {
        Self { drawing, ..self }
    }

    pub fn build(self) -> (r: Robot)
        ensures
            r@ == self@,
    {
        Robot::new(self.x, self.y, self.direction, self.drawing)
    }
}

impl Default for RobotBuilder {
    fn default() -> (r: Self)
        ensures
            r@ == (RobotView { x: 0, y: 0, direction: Direction::Up, drawing: false }),
    {
        RobotBuilder::new()
    }
}

} // verus!
