use vstd::prelude::*;
use crate::dungeon::{framed, gen_dungeon, is_dungeon, is_room, on_border};
use crate::grid::{
    after_consume, as_tile, cells, consume_treasure_if_present, holds_treasure, in_grid, movable,
    tile_of, walkable_at, MAP_HEIGHT, MAP_WIDTH, TILE_SIZE,
};
use crate::random::rnd_n;
use crate::sprite::{advanced, Sprite, STEP};

verus! {

/// Frames of play a session starts with: thirty seconds at sixty frames a second.
pub const SESSION_FRAMES: u32 = 1800;

/// Tile index, on both axes, of the exit that leads to the next stage.
pub const EXIT_TILE: i32 = 13;

/// Points for reaching the exit.
pub const STAGE_POINTS: u32 = 10;

/// Frames of play added for reaching the exit.
pub const STAGE_FRAMES: u32 = 300;

/// Frames during which the next-stage banner is shown.
pub const BANNER_FRAMES: u32 = 120;

/// An input event that the session reacts to.
#[derive(Clone, Copy, Debug, PartialEq, Eq, Structural)]
pub enum Key {
    Up,
    Down,
    Left,
    Right,
    Escape,
    Quit,
}

/// What the session loop does after an input.
#[derive(Clone, Copy, Debug, PartialEq, Eq, Structural)]
pub enum Control {
    /// Keep playing.
    Continue,
    /// End this session and wait for the next one.
    EndSession,
    /// Leave the program.
    Quit,
}

/// The outcome of one frame of play.
#[derive(Clone, Copy, Debug, PartialEq, Eq, Structural)]
pub enum Tick {
    /// The clock had run out: the session is over.
    TimeUp,
    /// The player asked to leave the program.
    Quit,
    /// The player asked for a new session.
    Restart,
    /// Play goes on; the flags say whether the exit was reached and whether a
    /// treasure was collected this frame.
    Running { next_stage: bool, treasure: bool },
}

/// The sprite where every session and stage begins, on tile `(1, 1)`.
pub open spec fn start_sprite() -> Sprite {
    Sprite { x: TILE_SIZE, y: TILE_SIZE, dx: 0, dy: 0 }
}

/// The sprite stays inside the walls: where it stands and where its pending
/// step ends both lie between the first and the last inner tile, the step
/// ends on a tile's corner, and it is a whole number of animation ticks.
pub open spec fn on_course(p: Sprite) -> bool {
    &&& p.dx % STEP == 0
    &&& p.dy % STEP == 0
    &&& TILE_SIZE <= p.x <= (MAP_WIDTH - 2) * TILE_SIZE
    &&& TILE_SIZE <= p.y <= (MAP_HEIGHT - 2) * TILE_SIZE
    &&& TILE_SIZE <= p.x + p.dx <= (MAP_WIDTH - 2) * TILE_SIZE
    &&& TILE_SIZE <= p.y + p.dy <= (MAP_HEIGHT - 2) * TILE_SIZE
    &&& (p.x + p.dx) % (TILE_SIZE as int) == 0
    &&& (p.y + p.dy) % (TILE_SIZE as int) == 0
}

/// The sprite stands on the exit tile.
pub open spec fn at_exit(p: Sprite) -> bool {
    tile_of(p.x as int) == EXIT_TILE && tile_of(p.y as int) == EXIT_TILE
}

/// `p` with a step of `(sx, sy)` pixels queued.
pub open spec fn queued(p: Sprite, sx: int, sy: int) -> Sprite {
    Sprite { x: p.x, y: p.y, dx: (p.dx + sx) as i32, dy: (p.dy + sy) as i32 }
}

/// One input on grid `g`, for sprite `p` facing right or not: what the sprite,
/// its facing and the session loop become. Quit and escape leave play at any
/// moment; an arrow is ignored while a step is in flight, and otherwise
/// queues a one-tile step unless a wall blocks it.
pub open spec fn key_step(p: Sprite, right: bool, g: Seq<Seq<i32>>, key: Key) -> (
    Sprite,
    bool,
    Control,
) {
    match key {
        Key::Quit => (p, right, Control::Quit),
        Key::Escape => (p, right, Control::EndSession),
        _ => if !p.idle() {
            (p, right, Control::Continue)
        } else {
            match key {
                Key::Up => if walkable_at(g, p.x as int, p.y - TILE_SIZE) {
                    (queued(p, 0, -TILE_SIZE), right, Control::Continue)
                } else {
                    (p, right, Control::Continue)
                },
                Key::Down => if walkable_at(g, p.x as int, p.y + TILE_SIZE) {
                    (queued(p, 0, TILE_SIZE as int), right, Control::Continue)
                } else {
                    (p, right, Control::Continue)
                },
                Key::Right => if walkable_at(g, p.x + TILE_SIZE, p.y as int) {
                    (queued(p, TILE_SIZE as int, 0), true, Control::Continue)
                } else {
                    (p, right, Control::Continue)
                },
                _ => if walkable_at(g, p.x - TILE_SIZE, p.y as int) {
                    (queued(p, -TILE_SIZE, 0), false, Control::Continue)
                } else {
                    (p, right, Control::Continue)
                },
            }
        },
    }
}

/// A frame's inputs taken in order, up to the first that leaves play.
pub open spec fn keys_step(p: Sprite, right: bool, g: Seq<Seq<i32>>, keys: Seq<Key>) -> (
    Sprite,
    bool,
    Control,
)
    decreases keys.len(),
{
    if keys.len() == 0 {
        (p, right, Control::Continue)
    } else {
        let s = key_step(p, right, g, keys[0]);
        if s.2 == Control::Continue {
            keys_step(s.0, s.1, g, keys.drop_first())
        } else {
            s
        }
    }
}

/// The state of one session of play.
pub struct Game {
    /// The current dungeon.
    pub map: Vec<Vec<i32>>,
    /// The player.
    pub player: Sprite,
    /// Frames of play left.
    pub time: u32,
    /// Points collected.
    pub score: u32,
    /// Frames the next-stage banner is still shown.
    pub banner: u32,
    /// Whether the player faces right.
    pub facing_right: bool,
}

impl Game {
    /// The dungeon is walled in and the player walks inside it.
    pub open spec fn wf(&self) -> bool {
        framed(cells(&self.map)) && on_course(self.player)
    }

    /// A fresh session: a new dungeon, the player on tile `(1, 1)` facing
    /// right, the full clock and no points.
    pub fn new() -> (g: Game)
        ensures
            g.wf(),
            is_dungeon(cells(&g.map)),
            g.player == start_sprite(),
            g.time == SESSION_FRAMES,
            g.score == 0,
            g.banner == 0,
            g.facing_right,
    {
        Game {
            map: gen_dungeon(),
            player: Sprite { x: TILE_SIZE, y: TILE_SIZE, dx: 0, dy: 0 },
            time: SESSION_FRAMES,
            score: 0,
            banner: 0,
            facing_right: true,
        }
    }

    /// Reacts to one input, as `key_step` says.
    pub fn handle_key(&mut self, key: Key) -> (c: Control)
        requires
            old(self).wf(),
        ensures
            final(self).wf(),
            (final(self).player, final(self).facing_right, c) == key_step(
                old(self).player,
                old(self).facing_right,
                cells(&old(self).map),
                key,
            ),
            final(self).map == old(self).map,
            final(self).time == old(self).time,
            final(self).score == old(self).score,
            final(self).banner == old(self).banner,
    {
        match key {
            Key::Quit => return Control::Quit,
            Key::Escape => return Control::EndSession,
            _ => {},
        }
        if self.player.dx != 0 || self.player.dy != 0 {
            return Control::Continue;
        }
        let x = self.player.x;
        let y = self.player.y;
        match key {
            Key::Quit => Control::Quit,
            Key::Escape => Control::EndSession,
            Key::Up => {
                if movable(x, y - TILE_SIZE, &self.map) {
                    self.player.dy = self.player.dy - TILE_SIZE;
                }
                Control::Continue
            },
            Key::Down => {
                if movable(x, y + TILE_SIZE, &self.map) {
                    self.player.dy = self.player.dy + TILE_SIZE;
                }
                Control::Continue
            },
            Key::Right => {
                if movable(x + TILE_SIZE, y, &self.map) {
                    self.player.dx = self.player.dx + TILE_SIZE;
                    self.facing_right = true;
                }
                Control::Continue
            },
            Key::Left => {
                if movable(x - TILE_SIZE, y, &self.map) {
                    self.player.dx = self.player.dx - TILE_SIZE;
                    self.facing_right = false;
                }
                Control::Continue
            },
        }
    }

    /// Takes a frame's inputs in order, as `keys_step` says: each goes to
    /// `handle_key` until one of them leaves play.
    pub fn handle_keys(&mut self, keys: &Vec<Key>) -> (c: Control)
        requires
            old(self).wf(),
        ensures
            final(self).wf(),
            (final(self).player, final(self).facing_right, c) == keys_step(
                old(self).player,
                old(self).facing_right,
                cells(&old(self).map),
                keys@,
            ),
            final(self).map == old(self).map,
            final(self).time == old(self).time,
            final(self).score == old(self).score,
            final(self).banner == old(self).banner,
    {
        let ghost g = cells(&self.map);
        let ghost total = keys_step(self.player, self.facing_right, g, keys@);
        let mut c = Control::Continue;
        let mut i: usize = 0;
        assert(keys@.subrange(0, keys@.len() as int) =~= keys@);
        while i < keys.len() && c == Control::Continue
            invariant
                self.wf(),
                cells(&self.map) == g,
                self.map == old(self).map,
                self.time == old(self).time,
                self.score == old(self).score,
                self.banner == old(self).banner,
                0 <= i <= keys@.len(),
                g == cells(&old(self).map),
                total == keys_step(old(self).player, old(self).facing_right, g, keys@),
                c == Control::Continue ==> keys_step(
                    self.player,
                    self.facing_right,
                    g,
                    keys@.subrange(i as int, keys@.len() as int),
                ) == total,
                c != Control::Continue ==> (self.player, self.facing_right, c) == total,
            decreases keys@.len() - i,
        {
            proof {
                let rest = keys@.subrange(i as int, keys@.len() as int);
                assert(rest.drop_first() =~= keys@.subrange(i as int + 1, keys@.len() as int));
                assert(rest[0] == keys@[i as int]);
            }
            c = self.handle_key(keys[i]);
            i += 1;
        }
        proof {
            if c == Control::Continue {
                assert(keys@.subrange(i as int, keys@.len() as int) =~= Seq::<Key>::empty());
            }
        }
        c
    }

    /// Moves on to the next stage when the player stands on the exit tile: a
    /// new dungeon, the player back on tile `(1, 1)` with no step pending,
    /// `STAGE_POINTS` more points, `STAGE_FRAMES` more frames and the banner
    /// shown. Reports whether it did.
    pub fn reach_exit(&mut self) -> (r: bool)
        requires
            old(self).wf(),
            old(self).score <= u32::MAX - STAGE_POINTS,
            old(self).time <= u32::MAX - STAGE_FRAMES,
        ensures
            final(self).wf(),
            r == at_exit(old(self).player),
            r ==> {
                &&& is_dungeon(cells(&final(self).map))
                &&& final(self).player == start_sprite()
                &&& final(self).score == old(self).score + STAGE_POINTS
                &&& final(self).time == old(self).time + STAGE_FRAMES
                &&& final(self).banner == BANNER_FRAMES
                &&& final(self).facing_right == old(self).facing_right
            },
            !r ==> *final(self) == *old(self),
    {
        if as_tile(self.player.x) == EXIT_TILE as usize && as_tile(self.player.y)
            == EXIT_TILE as usize {
            self.map = gen_dungeon();
            self.player = Sprite { x: TILE_SIZE, y: TILE_SIZE, dx: 0, dy: 0 };
            self.score = self.score + STAGE_POINTS;
            self.time = self.time + STAGE_FRAMES;
            self.banner = BANNER_FRAMES;
            true
        } else {
            false
        }
    }

    /// Collects the treasure under the player, if any, for one to four
    /// points drawn at random. Reports whether there was one.
    pub fn collect_treasure(&mut self) -> (r: bool)
        requires
            old(self).wf(),
            old(self).score <= u32::MAX - 4,
        ensures
            final(self).wf(),
            r == holds_treasure(
                cells(&old(self).map),
                tile_of(old(self).player.x as int),
                tile_of(old(self).player.y as int),
            ),
            cells(&final(self).map) == after_consume(
                cells(&old(self).map),
                tile_of(old(self).player.x as int),
                tile_of(old(self).player.y as int),
            ),
            r ==> old(self).score + 1 <= final(self).score <= old(self).score + 4,
            !r ==> final(self).score == old(self).score,
            final(self).player == old(self).player,
            final(self).time == old(self).time,
            final(self).banner == old(self).banner,
            final(self).facing_right == old(self).facing_right,
    {
        let tx = as_tile(self.player.x);
        let ty = as_tile(self.player.y);
        proof {
            assert(cells(&self.map)[ty as int].len() == MAP_WIDTH);
        }
        let found = consume_treasure_if_present(tx, ty, &mut self.map);
        if found {
            self.score = self.score + rnd_n(4) + 1;
        }
        found
    }

    /// Counts down one frame of the next-stage banner; reports whether the
    /// banner is to be shown this frame.
    pub fn take_banner_frame(&mut self) -> (r: bool)
        ensures
            r == (old(self).banner > 0),
            final(self).banner == if r {
                (old(self).banner - 1) as u32
            } else {
                0
            },
            final(self).map == old(self).map,
            final(self).player == old(self).player,
            final(self).time == old(self).time,
            final(self).score == old(self).score,
            final(self).facing_right == old(self).facing_right,
    {
        if self.banner > 0 {
            self.banner = self.banner - 1;
            true
        } else {
            false
        }
    }

    /// One frame of play. With the clock run out nothing changes and the
    /// result is `TimeUp`. Otherwise the clock loses a frame, the player
    /// advances one animation tick, and the frame's inputs are taken as
    /// `keys_step` says. Unless one of them leaves play, the exit is then
    /// checked as in `reach_exit` and the treasure under the player is
    /// collected as in `collect_treasure`.
    pub fn tick(&mut self, keys: &Vec<Key>) -> (r: Tick)
        requires
            old(self).wf(),
            old(self).score <= u32::MAX - STAGE_POINTS - 4,
            old(self).time <= u32::MAX - STAGE_FRAMES,
        ensures
            final(self).wf(),
            old(self).time == 0 ==> r == Tick::TimeUp && *final(self) == *old(self),
            old(self).time > 0 ==> {
                let s = keys_step(
                    advanced(old(self).player),
                    old(self).facing_right,
                    cells(&old(self).map),
                    keys@,
                );
                &&& r !is TimeUp
                &&& s.2 == Control::Quit <==> r is Quit
                &&& s.2 == Control::EndSession <==> r is Restart
                &&& r !is Running ==> {
                    &&& final(self).player == s.0
                    &&& final(self).facing_right == s.1
                    &&& final(self).map == old(self).map
                    &&& final(self).time == old(self).time - 1
                    &&& final(self).score == old(self).score
                    &&& final(self).banner == old(self).banner
                }
                &&& r is Running ==> {
                    let bonus = if r->next_stage {
                        STAGE_POINTS as int
                    } else {
                        0
                    };
                    &&& r->next_stage == at_exit(s.0)
                    &&& final(self).facing_right == s.1
                    &&& r->treasure ==> old(self).score + bonus + 1 <= final(self).score
                        <= old(self).score + bonus + 4
                    &&& !r->treasure ==> final(self).score == old(self).score + bonus
                    &&& r->next_stage ==> {
                        &&& final(self).player == start_sprite()
                        &&& final(self).time == old(self).time - 1 + STAGE_FRAMES
                        &&& final(self).banner == BANNER_FRAMES
                        &&& exists|m: Seq<Seq<i32>>|
                            is_dungeon(m) && r->treasure == holds_treasure(m, 1, 1) && cells(
                                &final(self).map,
                            ) == #[trigger] after_consume(m, 1, 1)
                    }
                    &&& !r->next_stage ==> {
                        &&& final(self).player == s.0
                        &&& final(self).time == old(self).time - 1
                        &&& final(self).banner == old(self).banner
                        &&& r->treasure == holds_treasure(
                            cells(&old(self).map),
                            tile_of(s.0.x as int),
                            tile_of(s.0.y as int),
                        )
                        &&& cells(&final(self).map) == after_consume(
                            cells(&old(self).map),
                            tile_of(s.0.x as int),
                            tile_of(s.0.y as int),
                        )
                    }
                }
            },
    {
        if self.time == 0 {
            return Tick::TimeUp;
        }
        self.time = self.time - 1;
        self.player.d_move();
        match self.handle_keys(keys) {
            Control::Quit => Tick::Quit,
            Control::EndSession => Tick::Restart,
            Control::Continue => {
                let ghost before = cells(&self.map);
                let next_stage = self.reach_exit();
                let ghost fresh = cells(&self.map);
                let treasure = self.collect_treasure();
                proof {
                    if next_stage {
                        assert(tile_of(TILE_SIZE as int) == 1);
                        assert(is_dungeon(fresh) && treasure == holds_treasure(fresh, 1, 1)
                            && cells(&self.map) == after_consume(fresh, 1, 1));
                    } else {
                        assert(fresh == before);
                    }
                }
                Tick::Running { next_stage, treasure }
            },
        }
    }
}


/// What an input does on the score screen between sessions: quit leaves the
/// program, escape starts the next session, anything else is ignored.
pub fn wait_key(key: Key) -> (c: Control)
    ensures
        c == match key {
            Key::Quit => Control::Quit,
            Key::Escape => Control::EndSession,
            _ => Control::Continue,
        },
{
    match key {
        Key::Quit => Control::Quit,
        Key::Escape => Control::EndSession,
        _ => Control::Continue,
    }
}

/// In every dungeon the start tile `(1, 1)` and the exit tile can be walked
/// on, and the corner pixel `(0, 0)` lies in the wall.
pub proof fn lemma_start_and_exit_open(g: Seq<Seq<i32>>)
    requires
        is_dungeon(g),
    ensures
        walkable_at(g, TILE_SIZE as int, TILE_SIZE as int),
        walkable_at(g, EXIT_TILE * TILE_SIZE, EXIT_TILE * TILE_SIZE),
        !walkable_at(g, 0, 0),
{
    assert(tile_of(TILE_SIZE as int) == 1);
    assert(tile_of(EXIT_TILE * TILE_SIZE) == EXIT_TILE);
    assert(tile_of(0) == 0);
    assert(in_grid(g, 1, 1) && is_room(1, 1));
    assert(in_grid(g, 13, 13) && is_room(13, 13));
    assert(in_grid(g, 0, 0) && on_border(0, 0));
}


/// Where a stage change puts the player is not the exit, so one arrival at
/// the exit moves to the next stage only once.
pub proof fn lemma_restart_off_exit()
    ensures
        !at_exit(start_sprite()),
{
    assert(tile_of(TILE_SIZE as int) == 1);
}

} // verus!
