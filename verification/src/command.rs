//! Reversible commands over a robot, and ordered lists of them.

use vstd::prelude::*;

use crate::error::Error;
use crate::robot::{
    forward_n, in_bounds, left_of, lemma_rot_left_undoes_right, lemma_rot_right_undoes_left,
    right_of, rot_left, rot_right, steps_left, Direction, Robot, RobotView,
};

verus! {

/// Moves the robot forward a fixed number of steps.
#[derive(Debug, Clone, Copy, PartialEq, Eq, Structural)]
pub struct MoveCommand {
    pub distance: u32,
}

/// Turns the robot left a fixed number of quarter turns.
#[derive(Debug, Clone, Copy, PartialEq, Eq, Structural)]
pub struct TurnLeftCommand {
    pub times: u8,
}

/// Turns the robot right a fixed number of quarter turns.
#[derive(Debug, Clone, Copy, PartialEq, Eq, Structural)]
pub struct TurnRightCommand {
    pub times: u8,
}

/// Lowers the pen.
#[derive(Debug, Clone, Copy, PartialEq, Eq, Structural)]
pub struct DownPenCommand;

/// Raises the pen.
#[derive(Debug, Clone, Copy, PartialEq, Eq, Structural)]
pub struct UpPenCommand;

/// One reversible unit of work over a robot: the closed set of command
/// variants, handled by exhaustive matching.
#[derive(Debug, Clone, Copy, PartialEq, Eq, Structural)]
pub enum Command {
    Move(MoveCommand),
    TurnLeft(TurnLeftCommand),
    TurnRight(TurnRightCommand),
    DownPen(DownPenCommand),
    UpPen(UpPenCommand),
}

/// What running one command leaves behind: whether it succeeded, and the
/// robot state either way.  On failure the state is where the robot stopped.
pub struct RunOutcome {
    pub ok: bool,
    pub state: RobotView,
}

/// The effect of executing one command on a robot state.  A move that runs
/// past the coordinate range stops at its end and fails; everything else
/// succeeds.
pub open spec fn cmd_execute(c: Command, v: RobotView) -> RunOutcome {
    match c {
        Command::Move(m) => {
            if m.distance <= steps_left(v) {
                RunOutcome { ok: true, state: forward_n(v, m.distance as int) }
            } else {
                RunOutcome { ok: false, state: forward_n(v, steps_left(v)) }
            }
        },
        Command::TurnLeft(t) => {
            RunOutcome {
                ok: true,
                state: RobotView { direction: rot_left(v.direction, t.times as nat), ..v },
            }
        },
        Command::TurnRight(t) => {
            RunOutcome {
                ok: true,
                state: RobotView { direction: rot_right(v.direction, t.times as nat), ..v },
            }
        },
        Command::DownPen(_) => RunOutcome { ok: true, state: RobotView { drawing: true, ..v } },
        Command::UpPen(_) => RunOutcome { ok: true, state: RobotView { drawing: false, ..v } },
    }
}

/// The effect of rolling one command back.  A move rollback reverses the
/// heading, retraces the distance, then restores the heading; if it runs past
/// the coordinate range it stops there, heading still reversed.  Pen
/// rollbacks set the opposite fixed state, not the prior value.
pub open spec fn cmd_rollback(c: Command, v: RobotView) -> RunOutcome {
    match c {
        Command::Move(m) => {
            let w = RobotView { direction: left_of(left_of(v.direction)), ..v };
            if m.distance <= steps_left(w) {
                RunOutcome {
                    ok: true,
                    state: RobotView { direction: v.direction, ..forward_n(w, m.distance as int) },
                }
            } else {
                RunOutcome { ok: false, state: forward_n(w, steps_left(w)) }
            }
        },
        Command::TurnLeft(t) => {
            RunOutcome {
                ok: true,
                state: RobotView { direction: rot_right(v.direction, t.times as nat), ..v },
            }
        },
        Command::TurnRight(t) => {
            RunOutcome {
                ok: true,
                state: RobotView { direction: rot_left(v.direction, t.times as nat), ..v },
            }
        },
        Command::DownPen(_) => RunOutcome { ok: true, state: RobotView { drawing: false, ..v } },
        Command::UpPen(_) => RunOutcome { ok: true, state: RobotView { drawing: true, ..v } },
    }
}

impl MoveCommand {
    pub fn new(distance: u32) -> (r: Self)
        ensures
            r.distance == distance,
    {
        Self { distance }
    }

    /// Calls `move_forward` exactly `distance` times, stopping at the first
    /// failure; the partial movement before a failure is not undone here.
    pub fn execute(&self, robot: &mut Robot) -> (r: Result<(), Error>)
        ensures
            r is Ok <==> cmd_execute(Command::Move(*self), old(robot)@).ok,
            final(robot)@ == cmd_execute(Command::Move(*self), old(robot)@).state,
            r is Err ==> r->Err_0 == Error::OutOfBounds,
    {
        proof {
            robot.lemma_in_bounds();
        }
        let mut i: u32 = 0;
        while i < self.distance
            invariant
                i <= self.distance,
                in_bounds(robot@),
                i <= steps_left(old(robot)@),
                robot@ == forward_n(old(robot)@, i as int),
            decreases self.distance - i,
        {
            match robot.move_forward() {
                Ok(()) => {},
                Err(e) => {
                    proof {
                        assert(steps_left(robot@) == 0);
                        assert(steps_left(old(robot)@) == i);
                    }
                    return Err(e);
                },
            }
            i = i + 1;
        }
        Ok(())
    }

    /// Turns the robot around, retraces `distance` steps, and turns it back.
    /// Restores the position only if the robot's heading equals its heading
    /// at execute time; a failure along the way leaves the heading reversed.
    pub fn rollback(&self, robot: &mut Robot) -> (r: Result<(), Error>)
        ensures
            r is Ok <==> cmd_rollback(Command::Move(*self), old(robot)@).ok,
            final(robot)@ == cmd_rollback(Command::Move(*self), old(robot)@).state,
            r is Err ==> r->Err_0 == Error::OutOfBounds,
    {
        proof {
            robot.lemma_in_bounds();
        }
        robot.turn_left();
        robot.turn_left();
        let ghost w = robot@;
        proof {
            assert(w == (RobotView {
                direction: left_of(left_of(old(robot)@.direction)),
                ..old(robot)@
            }));
        }
        let mut i: u32 = 0;
        while i < self.distance
            invariant
                i <= self.distance,
                in_bounds(robot@),
                i <= steps_left(w),
                robot@ == forward_n(w, i as int),
                w == (RobotView {
                    direction: left_of(left_of(old(robot)@.direction)),
                    ..old(robot)@
                }),
            decreases self.distance - i,
        {
            match robot.move_forward() {
                Ok(()) => {},
                Err(e) => {
                    proof {
                        assert(steps_left(robot@) == 0);
                        assert(steps_left(w) == i);
                    }
                    return Err(e);
                },
            }
            i = i + 1;
        }
        robot.turn_left();
        robot.turn_left();
        Ok(())
    }
}

impl TurnLeftCommand {
    /// Normalizes the turn count modulo four at construction time.
    pub fn new(times: u32) -> (r: Self)
        ensures
            r.times == times % 4,
    {
        let times = (times % 4) as u8;
        Self { times }
    }

    /// Applies `times` left turns.  Never fails.
    pub fn execute(&self, robot: &mut Robot) -> (r: Result<(), Error>)
        ensures
            r is Ok,
            final(robot)@ == cmd_execute(Command::TurnLeft(*self), old(robot)@).state,
    {
        let mut i: u8 = 0;
        while i < self.times
            invariant
                i <= self.times,
                robot@ == (RobotView {
                    direction: rot_left(old(robot)@.direction, i as nat),
                    ..old(robot)@
                }),
            decreases self.times - i,
        {
            robot.turn_left();
            i = i + 1;
        }
        Ok(())
    }

    /// Applies the same count of right turns.  Never fails.
    pub fn rollback(&self, robot: &mut Robot) -> (r: Result<(), Error>)
        ensures
            r is Ok,
            final(robot)@ == cmd_rollback(Command::TurnLeft(*self), old(robot)@).state,
    {
        let mut i: u8 = 0;
        while i < self.times
            invariant
                i <= self.times,
                robot@ == (RobotView {
                    direction: rot_right(old(robot)@.direction, i as nat),
                    ..old(robot)@
                }),
            decreases self.times - i,
        {
            robot.turn_right();
            i = i + 1;
        }
        Ok(())
    }
}

impl TurnRightCommand {
    /// Normalizes the turn count modulo four at construction time.
    pub fn new(times: u32) -> (r: Self)
        ensures
            r.times == times % 4,
    {
        let times = (times % 4) as u8;
        Self { times }
    }

    /// Applies `times` right turns.  Never fails.
    pub fn execute(&self, robot: &mut Robot) -> (r: Result<(), Error>)
        ensures
            r is Ok,
            final(robot)@ == cmd_execute(Command::TurnRight(*self), old(robot)@).state,
    {
        let mut i: u8 = 0;
        while i < self.times
            invariant
                i <= self.times,
                robot@ == (RobotView {
                    direction: rot_right(old(robot)@.direction, i as nat),
                    ..old(robot)@
                }),
            decreases self.times - i,
        {
            robot.turn_right();
            i = i + 1;
        }
        Ok(())
    }

    /// Applies the same count of left turns.  Never fails.
    pub fn rollback(&self, robot: &mut Robot) -> (r: Result<(), Error>)
        ensures
            r is Ok,
            final(robot)@ == cmd_rollback(Command::TurnRight(*self), old(robot)@).state,
    {
        let mut i: u8 = 0;
        while i < self.times
            invariant
                i <= self.times,
                robot@ == (RobotView {
                    direction: rot_left(old(robot)@.direction, i as nat),
                    ..old(robot)@
                }),
            decreases self.times - i,
        {
            robot.turn_left();
            i = i + 1;
        }
        Ok(())
    }
}

impl DownPenCommand {
    /// Lowers the pen.  Never fails.
    pub fn execute(&self, robot: &mut Robot) -> (r: Result<(), Error>)
        ensures
            r is Ok,
            final(robot)@ == cmd_execute(Command::DownPen(*self), old(robot)@).state,
    {
        robot.down_pen();
        Ok(())
    }

    /// Raises the pen, whatever its state before the execute.  Never fails.
    pub fn rollback(&self, robot: &mut Robot) -> (r: Result<(), Error>)
        ensures
            r is Ok,
            final(robot)@ == cmd_rollback(Command::DownPen(*self), old(robot)@).state,
    {
        robot.up_pen();
        Ok(())
    }
}

impl UpPenCommand {
    /// Raises the pen.  Never fails.
    pub fn execute(&self, robot: &mut Robot) -> (r: Result<(), Error>)
        ensures
            r is Ok,
            final(robot)@ == cmd_execute(Command::UpPen(*self), old(robot)@).state,
    {
        robot.up_pen();
        Ok(())
    }

    /// Lowers the pen, whatever its state before the execute.  Never fails.
    pub fn rollback(&self, robot: &mut Robot) -> (r: Result<(), Error>)
        ensures
            r is Ok,
            final(robot)@ == cmd_rollback(Command::UpPen(*self), old(robot)@).state,
    {
        robot.down_pen();
        Ok(())
    }
}

impl Command {
    /// Executes this command against the robot.
    pub fn execute(&self, robot: &mut Robot) -> (r: Result<(), Error>)
        ensures
            r is Ok <==> cmd_execute(*self, old(robot)@).ok,
            final(robot)@ == cmd_execute(*self, old(robot)@).state,
            r is Err ==> r->Err_0 == Error::OutOfBounds,
    {
        match self {
            Command::Move(c) => c.execute(robot),
            Command::TurnLeft(c) => c.execute(robot),
            Command::TurnRight(c) => c.execute(robot),
            Command::DownPen(c) => c.execute(robot),
            Command::UpPen(c) => c.execute(robot),
        }
    }

    /// Undoes this command's effect on the robot.
    pub fn rollback(&self, robot: &mut Robot) -> (r: Result<(), Error>)
        ensures
            r is Ok <==> cmd_rollback(*self, old(robot)@).ok,
            final(robot)@ == cmd_rollback(*self, old(robot)@).state,
            r is Err ==> r->Err_0 == Error::OutOfBounds,
    {
        match self {
            Command::Move(c) => c.rollback(robot),
            Command::TurnLeft(c) => c.rollback(robot),
            Command::TurnRight(c) => c.rollback(robot),
            Command::DownPen(c) => c.rollback(robot),
            Command::UpPen(c) => c.rollback(robot),
        }
    }
}

/// Runs `execute` over the commands in order, fail-fast: on the first
/// failure later commands are not attempted and earlier ones stay applied.
pub open spec fn run_execute_all(cmds: Seq<Command>, v: RobotView) -> RunOutcome
    decreases cmds.len(),
{
    if cmds.len() == 0 {
        RunOutcome { ok: true, state: v }
    } else {
        let o = cmd_execute(cmds[0], v);
        if o.ok {
            run_execute_all(cmds.drop_first(), o.state)
        } else {
            o
        }
    }
}

/// Runs `rollback` over the commands in strict reverse insertion order,
/// fail-fast.
pub open spec fn run_rollback_all(cmds: Seq<Command>, v: RobotView) -> RunOutcome
    decreases cmds.len(),
{
    if cmds.len() == 0 {
        RunOutcome { ok: true, state: v }
    } else {
        let o = cmd_rollback(cmds.last(), v);
        if o.ok {
            run_rollback_all(cmds.drop_last(), o.state)
        } else {
            o
        }
    }
}

/// Whether rolling the command back restores the exact prior robot state.
/// Holds of moves and turns; pen commands roll back to a fixed state, not
/// necessarily the prior one.
pub open spec fn reversible(c: Command) -> bool {
    c is Move || c is TurnLeft || c is TurnRight
}

/// An ordered sequence of commands; insertion order is execution order.
pub struct CommandList {
    commands: Vec<Command>,
}

impl View for CommandList {
    type V = Seq<Command>;

    closed spec fn view(&self) -> Seq<Command> {
        self.commands@
    }
}

impl CommandList {
    pub fn new() -> (r: Self)
        ensures
            r@ == Seq::<Command>::empty(),
    {
        Self { commands: Vec::new() }
    }

    /// Appends a command at the end of the sequence.
    pub fn add_command(&mut self, command: Command)
        ensures
            final(self)@ == old(self)@.push(command),
    {
        self.commands.push(command);
    }

    /// The commands in insertion order.
    pub fn commands(&self) -> (r: &Vec<Command>)
        ensures
            r@ == self@,
    {
        &self.commands
    }

    /// Applies every command in insertion order, stopping at the first
    /// error; earlier commands are not rolled back automatically.
    pub fn execute_all(&mut self, robot: &mut Robot) -> (r: Result<(), Error>)
        ensures
            final(self)@ == old(self)@,
            r is Ok <==> run_execute_all(old(self)@, old(robot)@).ok,
            final(robot)@ == run_execute_all(old(self)@, old(robot)@).state,
            r is Err ==> r->Err_0 == Error::OutOfBounds,
    {
        let ghost cmds = self@;
        let ghost v0 = robot@;
        let n = self.commands.len();
        let mut idx: usize = 0;
        proof {
            assert(cmds.subrange(0, n as int) =~= cmds);
        }
        while idx < n
            invariant
                idx <= n,
                n == self.commands.len(),
                self@ == cmds,
                cmds == old(self)@,
                v0 == old(robot)@,
                run_execute_all(cmds, v0) == run_execute_all(
                    cmds.subrange(idx as int, n as int),
                    robot@,
                ),
            decreases n - idx,
        {
            let c = self.commands[idx];
            let ghost tail = cmds.subrange(idx as int, n as int);
            proof {
                assert(tail[0] == cmds[idx as int]);
            }
            match c.execute(robot) {
                Ok(()) => {},
                Err(e) => {
                    return Err(e);
                },
            }
            proof {
                assert(tail.drop_first() =~= cmds.subrange(idx + 1, n as int));
            }
            idx = idx + 1;
        }
        proof {
            assert(cmds.subrange(n as int, n as int) =~= Seq::<Command>::empty());
        }
        Ok(())
    }

    /// Applies `rollback` to every command in strict reverse insertion
    /// order, stopping at the first error.
    pub fn rollback_all(&mut self, robot: &mut Robot) -> (r: Result<(), Error>)
        ensures
            final(self)@ == old(self)@,
            r is Ok <==> run_rollback_all(old(self)@, old(robot)@).ok,
            final(robot)@ == run_rollback_all(old(self)@, old(robot)@).state,
            r is Err ==> r->Err_0 == Error::OutOfBounds,
    {
        let ghost cmds = self@;
        let ghost v0 = robot@;
        let n = self.commands.len();
        let mut idx: usize = n;
        proof {
            assert(cmds.subrange(0, n as int) =~= cmds);
        }
        while idx > 0
            invariant
                idx <= n,
                n == self.commands.len(),
                self@ == cmds,
                cmds == old(self)@,
                v0 == old(robot)@,
                run_rollback_all(cmds, v0) == run_rollback_all(
                    cmds.subrange(0, idx as int),
                    robot@,
                ),
            decreases idx,
        {
            let c = self.commands[idx - 1];
            let ghost head = cmds.subrange(0, idx as int);
            proof {
                assert(head.last() == cmds[idx - 1]);
            }
            match c.rollback(robot) {
                Ok(()) => {},
                Err(e) => {
                    return Err(e);
                },
            }
            proof {
                assert(head.drop_last() =~= cmds.subrange(0, idx - 1));
            }
            idx = idx - 1;
        }
        proof {
            assert(cmds.subrange(0, 0) =~= Seq::<Command>::empty());
        }
        Ok(())
    }
}

impl Default for CommandList {
    fn default() -> (r: Self)
        ensures
            r@ == Seq::<Command>::empty(),
    {
        CommandList::new()
    }
}

/// A command that executed successfully keeps the robot's coordinates in
/// bounds.
proof fn lemma_cmd_execute_in_bounds(c: Command, v: RobotView)
    requires
        in_bounds(v),
        cmd_execute(c, v).ok,
    ensures
        in_bounds(cmd_execute(c, v).state),
{
}

/// Rolling back a move or a turn right after executing it restores the
/// exact prior robot state.
proof fn lemma_cmd_rollback_inverts(c: Command, v: RobotView)
    requires
        in_bounds(v),
        reversible(c),
        cmd_execute(c, v).ok,
    ensures
        cmd_rollback(c, cmd_execute(c, v).state).ok,
        cmd_rollback(c, cmd_execute(c, v).state).state == v,
{
    match c {
        Command::Move(m) => {
            assert(cmd_rollback(c, cmd_execute(c, v).state).state =~= v);
        },
        Command::TurnLeft(t) => {
            lemma_rot_right_undoes_left(v.direction, t.times as nat);
        },
        Command::TurnRight(t) => {
            lemma_rot_left_undoes_right(v.direction, t.times as nat);
        },
        _ => {},
    }
}

/// Peeling the front command off a rollback run: the rest of the sequence
/// is rolled back first, then the front command.
proof fn lemma_run_rollback_cons(c: Command, rest: Seq<Command>, v: RobotView)
    ensures
        run_rollback_all(seq![c] + rest, v) == (if run_rollback_all(rest, v).ok {
            cmd_rollback(c, run_rollback_all(rest, v).state)
        } else {
            run_rollback_all(rest, v)
        }),
    decreases rest.len(),
{
    let s = seq![c] + rest;
    if rest.len() == 0 {
        assert(s.last() == c);
        assert(s.drop_last() =~= Seq::<Command>::empty());
        let o = cmd_rollback(c, v);
        if o.ok {
            assert(run_rollback_all(s, v) == run_rollback_all(s.drop_last(), o.state));
            assert(run_rollback_all(s, v) =~= o);
        }
    } else {
        assert(s.last() == rest.last());
        let o = cmd_rollback(rest.last(), v);
        if o.ok {
            assert(s.drop_last() =~= seq![c] + rest.drop_last());
            lemma_run_rollback_cons(c, rest.drop_last(), o.state);
            assert(run_rollback_all(s, v) == run_rollback_all(seq![c] + rest.drop_last(), o.state));
            assert(run_rollback_all(rest, v) == run_rollback_all(rest.drop_last(), o.state));
        }
    }
}

/// `TurnLeftCommand::new(n)` is equivalent, for execution purposes, to
/// `TurnLeftCommand::new(n % 4)`: construction stores the same normalized
/// count either way, and `n` left turns land on the same heading as `n % 4`
/// left turns.
pub proof fn lemma_turn_left_count_mod_four(n: u32, d: Direction)
    ensures
        (n % 4) % 4 == n % 4,
        rot_left(d, n as nat) == rot_left(d, (n % 4) as nat),
{
    crate::robot::lemma_rot_left_period(d, n as nat);
}

/// `TurnRightCommand::new(n)` is equivalent, for execution purposes, to
/// `TurnRightCommand::new(n % 4)`.
pub proof fn lemma_turn_right_count_mod_four(n: u32, d: Direction)
    ensures
        (n % 4) % 4 == n % 4,
        rot_right(d, n as nat) == rot_right(d, (n % 4) as nat),
{
    crate::robot::lemma_rot_right_period(d, n as nat);
}

/// Executing a command list and then rolling it back restores the robot to
/// its pre-execute state, provided the list holds only moves and turns:
/// strict LIFO rollback order undoes each command against exactly the state
/// its own execute produced.
pub proof fn lemma_execute_then_rollback_restores(cmds: Seq<Command>, v: RobotView)
    requires
        in_bounds(v),
        forall|i: int| 0 <= i < cmds.len() ==> reversible(#[trigger] cmds[i]),
        run_execute_all(cmds, v).ok,
    ensures
        run_rollback_all(cmds, run_execute_all(cmds, v).state).ok,
        run_rollback_all(cmds, run_execute_all(cmds, v).state).state == v,
    decreases cmds.len(),
{
    if cmds.len() > 0 {
        let c = cmds[0];
        let rest = cmds.drop_first();
        let o = cmd_execute(c, v);
        lemma_cmd_execute_in_bounds(c, v);
        assert(forall|i: int|
            0 <= i < rest.len() ==> reversible(#[trigger] rest[i]) && rest[i] == cmds[i + 1]);
        lemma_execute_then_rollback_restores(rest, o.state);
        let fin = run_execute_all(cmds, v).state;
        assert(fin == run_execute_all(rest, o.state).state);
        assert(cmds =~= seq![c] + rest);
        lemma_run_rollback_cons(c, rest, fin);
        lemma_cmd_rollback_inverts(c, v);
    }
}

} // verus!
