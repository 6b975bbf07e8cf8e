//! Levels: the walls of one room, the zone that leads out of it, and the
//! place where the player comes in.

use crate::collider::Wall;
use crate::geometry::{rect_from, GeometryError, Rect, Vec2i};
use crate::tiles::Tilemap;
use vstd::prelude::*;

verus! {

/// One level. Its walls are fixed once it is built.
pub struct Level {
    obstacles: Vec<Wall>,
    exit: Rect,
    spawn: Vec2i,
}

/// A level as a mathematical value.
pub struct LevelView {
    /// The walls, in the order their indices name them.
    pub obstacles: Seq<Wall>,
    /// The zone that leads to the next level.
    pub exit: Rect,
    /// Where the player is put on entry.
    pub spawn: Vec2i,
}

/// Why a level description was refused.
#[derive(Clone, Copy, Debug, PartialEq, Eq, Structural)]
pub enum LevelError {
    /// The wall with this index has a bad extent; it is the first such wall.
    Obstacle { index: usize, reason: GeometryError },
    /// Every wall is sound, the exit has a bad extent.
    Exit { reason: GeometryError },
}

/// The rectangle that a quadruple `(x, y, w, h)` describes, if any.
pub open spec fn described(e: (i32, i32, i32, i32)) -> Result<Rect, GeometryError> {
    rect_from(e.0, e.1, e.2 as int, e.3 as int)
}

/// The walls that sound descriptions describe, in the same order.
pub open spec fn walls_described(extents: Seq<(i32, i32, i32, i32)>) -> Seq<Wall> {
    Seq::new(extents.len(), |k: int| Wall { rect: described(extents[k])->Ok_0 })
}

impl View for Level {
    type V = LevelView;

    closed spec fn view(&self) -> LevelView {
        LevelView { obstacles: self.obstacles@, exit: self.exit, spawn: self.spawn }
    }
}

impl Level {
    /// A level with the given walls, exit and entry point.
    pub fn new(obstacles: Vec<Wall>, exit: Rect, spawn: Vec2i) -> (level: Level)
        ensures
            level@ == (LevelView { obstacles: obstacles@, exit, spawn }),
    {
        Level { obstacles, exit, spawn }
    }

    /// Builds a level from raw level data, in which every rectangle is a
    /// quadruple `(x, y, w, h)` of signed numbers.
    ///
    /// A rectangle with a negative extent, or with one beyond 16 bits, makes
    /// the whole level fail: the first such wall is reported, or the exit if
    /// all walls are sound.
    pub fn from_extents(
        obstacles: &Vec<(i32, i32, i32, i32)>,
        exit: (i32, i32, i32, i32),
        spawn: Vec2i,
    ) -> (made: Result<Level, LevelError>)
        ensures
            match made {
                Ok(level) => {
                    &&& forall|k: int|
                        0 <= k < obstacles@.len() ==> described(#[trigger] obstacles@[k]) is Ok
                    &&& described(exit) is Ok
                    &&& level@ == (LevelView {
                        obstacles: walls_described(obstacles@),
                        exit: described(exit)->Ok_0,
                        spawn,
                    })
                },
                Err(LevelError::Obstacle { index, reason }) => {
                    &&& index < obstacles@.len()
                    &&& described(obstacles@[index as int]) == Err::<Rect, GeometryError>(reason)
                    &&& forall|k: int| 0 <= k < index ==> described(#[trigger] obstacles@[k]) is Ok
                },
                Err(LevelError::Exit { reason }) => {
                    &&& forall|k: int|
                        0 <= k < obstacles@.len() ==> described(#[trigger] obstacles@[k]) is Ok
                    &&& described(exit) == Err::<Rect, GeometryError>(reason)
                },
            },
    {
        let mut walls: Vec<Wall> = Vec::new();
        let mut k: usize = 0;
        while k < obstacles.len()
            invariant
                k <= obstacles.len(),
                walls@.len() == k,
                forall|m: int| 0 <= m < k ==> described(#[trigger] obstacles@[m]) is Ok,
                forall|m: int|
                    0 <= m < k ==> (#[trigger] walls@[m]).rect == described(obstacles@[m])->Ok_0,
            decreases obstacles.len() - k,
        {
            let e: (i32, i32, i32, i32) = obstacles[k];
            match Rect::from_extents(e.0, e.1, e.2, e.3) {
                Ok(rect) => {
                    walls.push(Wall { rect });
                },
                Err(reason) => {
                    return Err(LevelError::Obstacle { index: k, reason });
                },
            }
            k += 1;
        }
        match Rect::from_extents(exit.0, exit.1, exit.2, exit.3) {
            Ok(rect) => {
                assert(walls@ =~= walls_described(obstacles@));
                Ok(Level { obstacles: walls, exit: rect, spawn })
            },
            Err(reason) => Err(LevelError::Exit { reason }),
        }
    }

    /// A level whose walls are the solid tiles of a grid.
    pub fn from_tiles(map: &Tilemap, exit: Rect, spawn: Vec2i) -> (level: Level)
        ensures
            level@ == (LevelView { obstacles: map@.walls(), exit, spawn }),
    {
        Level { obstacles: map.walls(), exit, spawn }
    }

    /// The walls of the level.
    pub fn obstacles(&self) -> (walls: &Vec<Wall>)
        ensures
            walls@ == self@.obstacles,
    {
        &self.obstacles
    }

    /// The zone that leads to the next level.
    pub fn exit(&self) -> (zone: Rect)
        ensures
            zone == self@.exit,
    {
        self.exit
    }

    /// Where the player is put on entry.
    pub fn spawn(&self) -> (at: Vec2i)
        ensures
            at == self@.spawn,
    {
        self.spawn
    }
}

} // verus!
