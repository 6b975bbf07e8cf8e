//! The world: the levels, the bodies that move through them, and the step
//! that takes the world from one instant to the next.

use crate::collider::{advanced_all, integrate, Mobile};
use crate::contacts::{gather_contacts, gathered};
use crate::geometry::touching;
use crate::level::{Level, LevelView};
use crate::restitution::{lemma_restituted_len, restitute, restituted};
use vstd::prelude::*;

verus! {

/// The speed, in pixels per step, that a held direction key gives the
/// player.
pub const PLAYER_SPEED: i32 = 2;

/// Which keys are held during a step.
#[derive(Clone, Copy, Debug, PartialEq, Eq, Structural)]
pub struct Input {
    pub left: bool,
    pub right: bool,
    pub up: bool,
    pub down: bool,
    /// The key that leaves the title screen.
    pub start: bool,
}

/// What the game is showing.
#[derive(Clone, Copy, Debug, PartialEq, Eq, Structural)]
pub enum Mode {
    /// Waiting for the start key; nothing moves.
    TitleScreen,
    /// The simulation runs.
    GamePlay,
    /// The exit of the last level was reached; nothing moves any more.
    EndGame,
}

/// Why a world could not be made.
#[derive(Clone, Copy, Debug, PartialEq, Eq, Structural)]
pub enum WorldError {
    /// There is no level to play.
    NoLevels,
    /// There is no body to be the player.
    NoPlayer,
}

/// The whole state of a game. Body 0 is the player.
pub struct World {
    levels: Vec<Level>,
    current_level: usize,
    bodies: Vec<Mobile>,
    mode: Mode,
}

/// A world as a mathematical value.
pub struct WorldView {
    /// The levels, in the order they are played.
    pub levels: Seq<LevelView>,
    /// The index of the level being played.
    pub current_level: nat,
    /// The dynamic bodies; the player comes first.
    pub bodies: Seq<Mobile>,
    /// What the game is showing.
    pub mode: Mode,
}

/// The views of a list of levels.
pub open spec fn level_views(levels: Seq<Level>) -> Seq<LevelView> {
    Seq::new(levels.len(), |i: int| levels[i]@)
}

impl Input {
    /// No key held.
    pub fn none() -> (input: Input)
        ensures
            input == (Input { left: false, right: false, up: false, down: false, start: false }),
    {
        Input { left: false, right: false, up: false, down: false, start: false }
    }
}

impl Mobile {
    /// The body as the held keys steer it: a held direction sets the
    /// velocity on its axis, left before right and down before up; an axis
    /// with no key held keeps the velocity it had.
    pub open spec fn steered(self, input: Input) -> Mobile {
        Mobile {
            rect: self.rect,
            vx: if input.left {
                (-PLAYER_SPEED) as i32
            } else if input.right {
                PLAYER_SPEED
            } else {
                self.vx
            },
            vy: if input.down {
                PLAYER_SPEED
            } else if input.up {
                (-PLAYER_SPEED) as i32
            } else {
                self.vy
            },
        }
    }

    /// Applies the held keys to the velocity.
    pub fn steer(&mut self, input: Input)
        ensures
            *final(self) == old(self).steered(input),
    {
        if input.right {
            self.vx = PLAYER_SPEED;
        }
        if input.left {
            self.vx = -PLAYER_SPEED;
        }
        if input.up {
            self.vy = -PLAYER_SPEED;
        }
        if input.down {
            self.vy = PLAYER_SPEED;
        }
    }
}

impl WorldView {
    /// There is a level being played and a player.
    pub open spec fn wf(self) -> bool {
        &&& self.current_level < self.levels.len()
        &&& self.bodies.len() > 0
    }

    /// The level being played.
    pub open spec fn level(self) -> LevelView {
        self.levels[self.current_level as int]
    }

    /// The player.
    pub open spec fn player(self) -> Mobile {
        self.bodies[0]
    }

    /// The bodies after input, movement and restitution, before any change
    /// of level: the player is steered, every body moves by its velocity,
    /// the contacts with each other and with the walls of the level are
    /// gathered, and the batch is restituted.
    pub open spec fn moved(self, input: Input) -> Seq<Mobile> {
        let steered = self.bodies.update(0, self.bodies[0].steered(input));
        let free = advanced_all(steered);
        restituted(self.level().obstacles, free, gathered(self.level().obstacles, free))
    }

    /// The world after the rule of the exit: a player touching the exit of
    /// the level enters the next level at its entry point; on the last level
    /// the game ends instead and the player stays.
    pub open spec fn transitioned(self) -> WorldView {
        if self.player().rect.touches(self.level().exit) {
            if self.current_level + 1 < self.levels.len() {
                let next = self.levels[self.current_level as int + 1];
                WorldView {
                    levels: self.levels,
                    current_level: (self.current_level + 1) as nat,
                    bodies: self.bodies.update(
                        0,
                        Mobile {
                            rect: self.player().rect.placed(next.spawn),
                            vx: self.player().vx,
                            vy: self.player().vy,
                        },
                    ),
                    mode: self.mode,
                }
            } else {
                WorldView { mode: Mode::EndGame, ..self }
            }
        } else {
            self
        }
    }

    /// The world one simulation step later.
    pub open spec fn simulated(self, input: Input) -> WorldView {
        (WorldView { bodies: self.moved(input), ..self }).transitioned()
    }

    /// The world one step later, whatever it is showing: the title screen
    /// waits for the start key, play simulates, the end stays.
    pub open spec fn stepped(self, input: Input) -> WorldView {
        match self.mode {
            Mode::TitleScreen => if input.start {
                WorldView { mode: Mode::GamePlay, ..self }
            } else {
                self
            },
            Mode::GamePlay => self.simulated(input),
            Mode::EndGame => self,
        }
    }

    /// The world `n` steps later, the same keys held throughout.
    pub open spec fn stepped_by(self, input: Input, n: nat) -> WorldView
        decreases n,
    {
        if n == 0 {
            self
        } else {
            self.stepped_by(input, (n - 1) as nat).stepped(input)
        }
    }
}

/// A step keeps the world sound and its levels as they are, keeps every
/// body, and changes the level only at the exit, and then to the next one:
/// walls stop the player but never send it anywhere.
pub proof fn lemma_step_keeps_world(w: WorldView, input: Input)
    requires
        w.wf(),
    ensures
        w.stepped(input).wf(),
        w.stepped(input).levels == w.levels,
        w.stepped(input).bodies.len() == w.bodies.len(),
        w.stepped(input).current_level != w.current_level ==> {
            &&& w.mode == Mode::GamePlay
            &&& w.moved(input)[0].rect.touches(w.level().exit)
            &&& w.stepped(input).current_level == w.current_level + 1
            &&& w.stepped(input).player().rect == w.moved(input)[0].rect.placed(
                w.levels[w.current_level as int + 1].spawn,
            )
        },
{
    let steered = w.bodies.update(0, w.bodies[0].steered(input));
    let free = advanced_all(steered);
    let found = gathered(w.level().obstacles, free);
    lemma_restituted_len(w.level().obstacles, free, found);
}

/// Any number of steps keeps the world sound and its levels as they are.
pub proof fn lemma_steps_keep_world(w: WorldView, input: Input, n: nat)
    requires
        w.wf(),
    ensures
        w.stepped_by(input, n).wf(),
        w.stepped_by(input, n).levels == w.levels,
        w.stepped_by(input, n).bodies.len() == w.bodies.len(),
        w.stepped_by(input, n).current_level >= w.current_level,
    decreases n,
{
    if n > 0 {
        lemma_steps_keep_world(w, input, (n - 1) as nat);
        lemma_step_keeps_world(w.stepped_by(input, (n - 1) as nat), input);
    }
}

impl View for World {
    type V = WorldView;

    closed spec fn view(&self) -> WorldView {
        WorldView {
            levels: level_views(self.levels@),
            current_level: self.current_level as nat,
            bodies: self.bodies@,
            mode: self.mode,
        }
    }
}

impl World {
    /// There is a level being played and a player. `new` establishes this
    /// and every method keeps it.
    pub open spec fn wf(&self) -> bool {
        self@.wf()
    }

    /// A world on the title screen of its first level. `bodies[0]` is the
    /// player. A world needs at least one level and a player; the want of
    /// levels is reported first.
    pub fn new(levels: Vec<Level>, bodies: Vec<Mobile>) -> (made: Result<World, WorldError>)
        ensures
            match made {
                Ok(world) => {
                    &&& levels@.len() > 0
                    &&& bodies@.len() > 0
                    &&& world.wf()
                    &&& world@ == (WorldView {
                        levels: level_views(levels@),
                        current_level: 0,
                        bodies: bodies@,
                        mode: Mode::TitleScreen,
                    })
                },
                Err(WorldError::NoLevels) => levels@.len() == 0,
                Err(WorldError::NoPlayer) => levels@.len() > 0 && bodies@.len() == 0,
            },
    {
        if levels.len() == 0 {
            Err(WorldError::NoLevels)
        } else if bodies.len() == 0 {
            Err(WorldError::NoPlayer)
        } else {
            Ok(World { levels, current_level: 0, bodies, mode: Mode::TitleScreen })
        }
    }

    /// What the game is showing.
    pub fn mode(&self) -> (mode: Mode)
        ensures
            mode == self@.mode,
    {
        self.mode
    }

    /// The index of the level being played.
    pub fn current_level(&self) -> (index: usize)
        ensures
            index == self@.current_level,
    {
        self.current_level
    }

    /// The level being played.
    pub fn level(&self) -> (level: &Level)
        requires
            self.wf(),
        ensures
            level@ == self@.level(),
    {
        &self.levels[self.current_level]
    }

    /// The dynamic bodies, the player first.
    pub fn bodies(&self) -> (bodies: &Vec<Mobile>)
        ensures
            bodies@ == self@.bodies,
    {
        &self.bodies
    }

    /// The player.
    pub fn player(&self) -> (player: Mobile)
        requires
            self.wf(),
        ensures
            player == self@.player(),
    {
        self.bodies[0]
    }

    /// Advances the world by one step.
    ///
    /// On the title screen the start key begins play and nothing else
    /// happens. During play the step applies the input to the player, moves
    /// every body by its velocity, gathers the contacts, restitutes them,
    /// and then applies the rule of the exit. After the end nothing changes.
    pub fn step(&mut self, input: Input)
        requires
            old(self).wf(),
        ensures
            final(self)@ == old(self)@.stepped(input),
            final(self).wf(),
    {
        match self.mode {
            Mode::TitleScreen => {
                if input.start {
                    self.mode = Mode::GamePlay;
                }
            },
            Mode::GamePlay => {
                let mut player: Mobile = self.bodies[0];
                player.steer(input);
                self.bodies.set(0, player);
                integrate(&mut self.bodies);
                let level: &Level = &self.levels[self.current_level];
                let mut contacts = gather_contacts(level.obstacles(), &self.bodies);
                restitute(level.obstacles(), &mut self.bodies, &mut contacts);
                let player: Mobile = self.bodies[0];
                if touching(player.rect, level.exit()) {
                    assert(self.current_level < self.levels.len());
                    if self.current_level + 1 < self.levels.len() {
                        self.current_level += 1;
                        let spawn = self.levels[self.current_level].spawn();
                        self.bodies.set(
                            0,
                            Mobile { rect: player.rect.place(spawn), vx: player.vx, vy: player.vy },
                        );
                    } else {
                        self.mode = Mode::EndGame;
                    }
                }
            },
            Mode::EndGame => {},
        }
    }
}

} // verus!
