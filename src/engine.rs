use vstd::prelude::*;
use vstd::string::is_ascii_spec_bytes;
use vstd::utf8::is_ascii_chars;
use crate::components::{Player, Position, Size, Sprite, Velocity};
use crate::storage::{Entity, Storage};
use crate::world::{Component, Kind, World};

verus! {

/// Bytes in one RGBA pixel.
pub const RGBA_SIZE: u32 = 4;

/// The largest speed, in pixels per tick, along either axis.
pub const MAX_VELOCITY: i64 = 5;

/// How much one impulse changes the speed along its axis.
pub const VELOCITY_STEP: i64 = 1;

/// The world, the size of the frame it is drawn into, and the entity that
/// the player controls.
pub struct GameState {
    pub width: u32,
    pub height: u32,
    pub world: World,
    pub player: Entity,
}

/// One of the four impulses the player can give.
#[derive(Clone, Copy, Debug, PartialEq, Eq, Structural)]
pub enum Direction {
    Up,
    Down,
    Left,
    Right,
}

/// The direction that `text` names, if any.
pub open spec fn direction_named(text: Seq<char>) -> Option<Direction> {
    if text == seq!['u', 'p'] {
        Some(Direction::Up)
    } else if text == seq!['d', 'o', 'w', 'n'] {
        Some(Direction::Down)
    } else if text == seq!['l', 'e', 'f', 't'] {
        Some(Direction::Left)
    } else if text == seq!['r', 'i', 'g', 'h', 't'] {
        Some(Direction::Right)
    } else {
        None
    }
}

pub open spec fn clamp(v: int, lo: int, hi: int) -> int {
    if v < lo {
        lo
    } else if v > hi {
        hi
    } else {
        v
    }
}

/// One impulse along an axis: motion the other way first stops, then the
/// speed moves one step toward the impulse, kept within the speed limit.
pub open spec fn impulse(v: i64, positive: bool) -> i64 {
    if positive {
        let start = if v < 0 { 0 } else { v as int };
        clamp(start + VELOCITY_STEP, -MAX_VELOCITY, MAX_VELOCITY as int) as i64
    } else {
        let start = if v > 0 { 0 } else { v as int };
        clamp(start - VELOCITY_STEP, -MAX_VELOCITY, MAX_VELOCITY as int) as i64
    }
}

/// An impulse never leaves the speed limit: the result lies within
/// `-MAX_VELOCITY..=MAX_VELOCITY`, whatever the speed before.
pub proof fn lemma_impulse_bounded(v: i64, positive: bool)
    ensures
        -MAX_VELOCITY <= impulse(v, positive) <= MAX_VELOCITY,
{
}

/// An impulse against the current motion stops it first and then takes one
/// step: the result is one step in the impulse's direction, never a plain
/// decrement of the old speed.
pub proof fn lemma_reversal_stops_then_steps(v: i64, positive: bool)
    requires
        (positive && v < 0) || (!positive && v > 0),
    ensures
        impulse(v, positive) == (if positive { VELOCITY_STEP as int } else { -VELOCITY_STEP }),
{
}

/// The velocity after one impulse in direction `d`.
pub open spec fn steered(v: Velocity, d: Direction) -> Velocity {
    match d {
        Direction::Up => Velocity { x: v.x, y: impulse(v.y, false) },
        Direction::Down => Velocity { x: v.x, y: impulse(v.y, true) },
        Direction::Left => Velocity { x: impulse(v.x, false), y: v.y },
        Direction::Right => Velocity { x: impulse(v.x, true), y: v.y },
    }
}

/// Whether moving each positioned entity by its velocity stays within `i64`.
pub open spec fn moves_fit(positions: Map<Entity, Position>, velocities: Map<Entity, Velocity>) -> bool {
    forall|e: Entity|
        positions.contains_key(e) && velocities.contains_key(e) ==> i64::MIN <= positions[e].x
            + velocities[e].x <= i64::MAX && i64::MIN <= positions[e].y + velocities[e].y
            <= i64::MAX
}

/// `p` moved by `v`.
pub open spec fn moved(p: Position, v: Velocity) -> Position {
    Position { x: (p.x + v.x) as i64, y: (p.y + v.y) as i64 }
}

/// Every positioned entity that has a velocity moved by it; the others stay.
pub open spec fn advanced(positions: Map<Entity, Position>, velocities: Map<Entity, Velocity>) -> Map<
    Entity,
    Position,
> {
    Map::new(
        |e: Entity| positions.contains_key(e),
        |e: Entity|
            if velocities.contains_key(e) {
                moved(positions[e], velocities[e])
            } else {
                positions[e]
            },
    )
}

/// Some of the first `j` entries of `s` belong to `e`.
pub open spec fn seen<T>(s: Seq<(Entity, T)>, j: int, e: Entity) -> bool {
    exists|k: int| 0 <= k < j && s[k].0 == e
}


/// Byte `c` of the background colour (RGBA).
pub open spec fn background_byte(c: int) -> u8 {
    if c == 0 {
        0x48
    } else if c == 1 {
        0xb2
    } else if c == 2 {
        0xe8
    } else {
        0xff
    }
}

/// Whether pixel (`px`, `py`) of the frame lies on sprite `s` drawn with its
/// top left corner at `p`.
pub open spec fn covers(p: Position, s: Sprite, px: int, py: int) -> bool {
    p.x <= px < p.x + s.width && p.y <= py < p.y + s.height
}

/// Byte `c` of the sprite's pixel that lands on frame pixel (`px`, `py`).
pub open spec fn sprite_byte(p: Position, s: Sprite, px: int, py: int, c: int) -> u8 {
    s.image->Some_0@[((px - p.x) + (py - p.y) * s.width) * 4 + c]
}

/// Byte `i` of a frame `width` pixels wide: the sprite where it covers the
/// pixel, the background elsewhere.
pub open spec fn frame_byte(width: int, p: Position, sprite: Option<Sprite>, i: int) -> u8 {
    let px = (i / 4) % width;
    let py = (i / 4) / width;
    let c = i % 4;
    match sprite {
        Some(s) => if covers(p, s, px, py) {
            sprite_byte(p, s, px, py, c)
        } else {
            background_byte(c)
        },
        None => background_byte(c),
    }
}

/// The sprite of `e`, if it has one.
pub open spec fn sprite_of(w: World, e: Entity) -> Option<Sprite> {
    if w.sprites().contains_key(e) {
        Some(w.sprites()[e])
    } else {
        None
    }
}

fn background_at(c: usize) -> (r: u8)
    requires
        c < 4,
    ensures
        r == background_byte(c as int),
{
    if c == 0 {
        0x48
    } else if c == 1 {
        0xb2
    } else if c == 2 {
        0xe8
    } else {
        0xff
    }
}

fn direction_of(text: &str) -> (r: Option<Direction>)
    ensures
        r == direction_named(text@),
{
    if !text.is_ascii() {
        assert(is_ascii_chars(seq!['u', 'p']));
        assert(is_ascii_chars(seq!['d', 'o', 'w', 'n']));
        assert(is_ascii_chars(seq!['l', 'e', 'f', 't']));
        assert(is_ascii_chars(seq!['r', 'i', 'g', 'h', 't']));
        return None;
    }
    proof {
        is_ascii_spec_bytes(text);
    }
    let b = text.as_bytes();
    assert(b@.len() == text@.len());
    assert(forall|i: int| 0 <= i < b@.len() ==> b@[i] == text@[i] as u8);
    assert(forall|i: int| 0 <= i < text@.len() ==> '\0' <= #[trigger] text@[i] <= '\u{7f}');
    if b.len() == 2 && b[0] == 117 && b[1] == 112 {
        assert(text@ =~= seq!['u', 'p']);
        Some(Direction::Up)
    } else if b.len() == 4 && b[0] == 100 && b[1] == 111 && b[2] == 119 && b[3] == 110 {
        assert(text@ =~= seq!['d', 'o', 'w', 'n']);
        Some(Direction::Down)
    } else if b.len() == 4 && b[0] == 108 && b[1] == 101 && b[2] == 102 && b[3] == 116 {
        assert(text@ =~= seq!['l', 'e', 'f', 't']);
        Some(Direction::Left)
    } else if b.len() == 5 && b[0] == 114 && b[1] == 105 && b[2] == 103 && b[3] == 104 && b[4]
        == 116 {
        assert(text@ =~= seq!['r', 'i', 'g', 'h', 't']);
        Some(Direction::Right)
    } else {
        assert(text@ != seq!['u', 'p']) by {
            if text@ == seq!['u', 'p'] {
                assert(b@[0] == 117 && b@[1] == 112);
            }
        }
        assert(text@ != seq!['d', 'o', 'w', 'n']) by {
            if text@ == seq!['d', 'o', 'w', 'n'] {
                assert(b@[0] == 100 && b@[1] == 111 && b@[2] == 119 && b@[3] == 110);
            }
        }
        assert(text@ != seq!['l', 'e', 'f', 't']) by {
            if text@ == seq!['l', 'e', 'f', 't'] {
                assert(b@[0] == 108 && b@[1] == 101 && b@[2] == 102 && b@[3] == 116);
            }
        }
        assert(text@ != seq!['r', 'i', 'g', 'h', 't']) by {
            if text@ == seq!['r', 'i', 'g', 'h', 't'] {
                assert(b@[0] == 114 && b@[1] == 105 && b@[2] == 103 && b@[3] == 104 && b@[4] == 116);
            }
        }
        None
    }
}

fn apply_impulse(v: i64, positive: bool) -> (r: i64)
    ensures
        r == impulse(v, positive),
{
    if positive {
        let start = if v < 0 { 0 } else { v };
        if start >= MAX_VELOCITY { MAX_VELOCITY } else { start + VELOCITY_STEP }
    } else {
        let start = if v > 0 { 0 } else { v };
        if start <= -MAX_VELOCITY { -MAX_VELOCITY } else { start - VELOCITY_STEP }
    }
}

impl GameState {
    pub open spec fn wf(&self) -> bool {
        self.world.wf()
    }

    /// A world holding one entity, the player, at (100, 100), standing
    /// still, 50 by 50 pixels, drawn with `sprite`.
    pub fn new(width: u32, height: u32, sprite: Sprite) -> (r: GameState)
        ensures
            r.wf(),
            r.width == width,
            r.height == height,
            r.player == (Entity { id: 0 }),
            r.world.next_id() == 1,
            r.world.positions() == Map::<Entity, Position>::empty().insert(
                r.player,
                Position { x: 100, y: 100 },
            ),
            r.world.velocities() == Map::<Entity, Velocity>::empty().insert(
                r.player,
                Velocity { x: 0, y: 0 },
            ),
            r.world.sizes() == Map::<Entity, Size>::empty().insert(
                r.player,
                Size { width: 50, height: 50 },
            ),
            r.world.players() == Map::<Entity, Player>::empty().insert(r.player, Player {  }),
            r.world.sprites() == Map::<Entity, Sprite>::empty().insert(r.player, sprite),
    {
        let mut world = World::new();
        let player = world.create_entity();
        world.add_component(player, Position { x: 100, y: 100 });
        world.add_component(player, Velocity { x: 0, y: 0 });
        world.add_component(player, Size { width: 50, height: 50 });
        world.add_component(player, Player {  });
        world.add_component(player, sprite);
        GameState { width, height, world, player }
    }

    /// What drawing a frame needs: its byte count fits in 32 bits, the player
    /// has a position and a size, and any sprite of the player holds enough
    /// pixels.
    pub open spec fn frame_ready(&self) -> bool {
        &&& self.wf()
        &&& self.width * self.height * 4 <= u32::MAX
        &&& self.world.positions().contains_key(self.player)
        &&& self.world.sizes().contains_key(self.player)
        &&& (self.world.sprites().contains_key(self.player) ==> self.world.sprites()[
            self.player
        ].holds_pixels())
    }

    /// A frame of `width * height` RGBA pixels: the background, with the
    /// player's sprite drawn over it at the player's position.
    pub fn generate_frame(&mut self) -> (r: Vec<u8>)
        requires
            old(self).frame_ready(),
        ensures
            *final(self) == *old(self),
            r@.len() == old(self).width * old(self).height * 4,
            forall|i: int|
                0 <= i < r@.len() ==> #[trigger] r@[i] == frame_byte(
                    old(self).width as int,
                    old(self).world.positions()[old(self).player],
                    sprite_of(old(self).world, old(self).player),
                    i,
                ),
    {
        let n: usize = (self.width * self.height * RGBA_SIZE) as usize;
        let mut frame: Vec<u8> = vec![0x10u8; n];
        self.draw_background(&mut frame);
        self.draw_player(&mut frame);
        frame
    }

    /// Paints every whole pixel of `frame` in the background colour; bytes
    /// after the last whole pixel stay as they were.
    fn draw_background(&self, frame: &mut Vec<u8>)
        ensures
            final(frame)@.len() == old(frame)@.len(),
            forall|i: int|
                0 <= i < old(frame)@.len() / 4 * 4 ==> #[trigger] final(frame)@[i]
                    == background_byte(i % 4),
            forall|i: int|
                old(frame)@.len() / 4 * 4 <= i < old(frame)@.len() ==> #[trigger] final(frame)@[i]
                    == old(frame)@[i],
    {
        let end: usize = frame.len() / 4 * 4;
        let mut i: usize = 0;
        while i < end
            invariant
                0 <= i <= end,
                end == old(frame)@.len() / 4 * 4,
                frame@.len() == old(frame)@.len(),
                forall|k: int| 0 <= k < i ==> #[trigger] frame@[k] == background_byte(k % 4),
                forall|k: int| i <= k < frame@.len() ==> #[trigger] frame@[k] == old(frame)@[k],
            decreases end - i,
        {
            let b = background_at(i % 4);
            frame.set(i, b);
            i += 1;
        }
    }

    /// Copies the player's sprite onto `frame` at the player's position,
    /// leaving the pixels it does not cover alone; without a sprite nothing
    /// changes.
    fn draw_player(&self, frame: &mut Vec<u8>)
        requires
            self.wf(),
            old(frame)@.len() == self.width * self.height * 4,
            self.world.sprites().contains_key(self.player) ==> self.world.sprites()[
                self.player
            ].holds_pixels() && self.world.positions().contains_key(self.player),
        ensures
            final(frame)@.len() == old(frame)@.len(),
            forall|i: int|
                0 <= i < final(frame)@.len() ==> #[trigger] final(frame)@[i] == match sprite_of(
                    self.world,
                    self.player,
                ) {
                    Some(s) => if covers(
                        self.world.positions()[self.player],
                        s,
                        (i / 4) % (self.width as int),
                        (i / 4) / (self.width as int),
                    ) {
                        sprite_byte(
                            self.world.positions()[self.player],
                            s,
                            (i / 4) % (self.width as int),
                            (i / 4) / (self.width as int),
                            i % 4,
                        )
                    } else {
                        old(frame)@[i]
                    },
                    None => old(frame)@[i],
                },
    {
        let sprite: &Sprite = match self.world.get_component::<Sprite>(self.player) {
            Some(s) => s,
            None => return,
        };
        let image: &Vec<u8> = match &sprite.image {
            Some(img) => img,
            None => return,
        };
        let p: Position = match self.world.get_component::<Position>(self.player) {
            Some(p) => *p,
            None => return,
        };
        if self.width == 0 {
            return;
        }
        let ghost s = *sprite;
        let w: usize = self.width as usize;
        let sw: i128 = sprite.width as i128;
        let sh: i128 = sprite.height as i128;
        let mut i: usize = 0;
        while i < frame.len()
            invariant
                0 <= i <= frame@.len(),
                frame@.len() == old(frame)@.len(),
                w == self.width,
                w > 0,
                sprite_of(self.world, self.player) == Some(s),
                s.image == Some(*image),
                s.holds_pixels(),
                sw == s.width,
                sh == s.height,
                p == self.world.positions()[self.player],
                forall|k: int|
                    i <= k < frame@.len() ==> #[trigger] frame@[k] == old(frame)@[k],
                forall|k: int|
                    0 <= k < i ==> #[trigger] frame@[k] == if covers(
                        p,
                        s,
                        (k / 4) % (w as int),
                        (k / 4) / (w as int),
                    ) {
                        sprite_byte(p, s, (k / 4) % (w as int), (k / 4) / (w as int), k % 4)
                    } else {
                        old(frame)@[k]
                    },
            decreases frame@.len() - i,
        {
            let px: usize = (i / 4) % w;
            let py: usize = (i / 4) / w;
            let c: usize = i % 4;
            let dx: i128 = px as i128 - p.x as i128;
            let dy: i128 = py as i128 - p.y as i128;
            let ghost before = frame@;
            assert(px as int == (i as int / 4) % (w as int));
            assert(py as int == (i as int / 4) / (w as int));
            if 0 <= dx && dx < sw && 0 <= dy && dy < sh {
                assert(0 <= dx + dy * sw < sw * sh) by (nonlinear_arith)
                    requires
                        0 <= dx < sw,
                        0 <= dy < sh,
                ;
                assert(image@.len() >= sw * sh * 4);
                assert((dx + dy * sw) * 4 + 3 < sw * sh * 4) by (nonlinear_arith)
                    requires
                        0 <= dx + dy * sw < sw * sh,
                ;
                assert(0 <= dy * sw <= 65535 * 65535) by (nonlinear_arith)
                    requires
                        0 <= dy < sh,
                        0 <= sw <= 65535,
                        sh <= 65535,
                ;
                let offset: i128 = dx + dy * sw;
                let len: usize = image.len();
                assert(offset * 4 + 3 < len);
                assert(c < 4);
                let base: usize = (offset * 4) as usize;
                assert(base == offset * 4);
                let index: usize = base + c;
                assert(index == ((px - p.x) + (py - p.y) * s.width) * 4 + c);
                assert(covers(p, s, px as int, py as int));
                assert(image@[index as int] == sprite_byte(p, s, px as int, py as int, c as int));
                frame.set(i, image[index]);
            } else {
                assert(!covers(p, s, px as int, py as int));
            }
            assert forall|k: int| 0 <= k < i + 1 implies #[trigger] frame@[k] == if covers(
                p,
                s,
                (k / 4) % (w as int),
                (k / 4) / (w as int),
            ) {
                sprite_byte(p, s, (k / 4) % (w as int), (k / 4) / (w as int), k % 4)
            } else {
                old(frame)@[k]
            } by {
                if k < i {
                    assert(frame@[k] == before[k]);
                }
            }
            i += 1;
        }
    }

    /// Moves every entity that has both a position and a velocity by its
    /// velocity; an entity with a velocity but no position is left alone.
    pub fn update_entity_positions(&mut self)
        requires
            old(self).wf(),
            moves_fit(old(self).world.positions(), old(self).world.velocities()),
        ensures
            final(self).wf(),
            final(self).world.positions() == advanced(
                old(self).world.positions(),
                old(self).world.velocities(),
            ),
            final(self).world.agrees_except(old(self).world, Kind::Position),
            final(self).world.next_id() == old(self).world.next_id(),
            final(self).width == old(self).width,
            final(self).height == old(self).height,
            final(self).player == old(self).player,
    {
        let ghost w0 = self.world;
        let storage: &Storage<Velocity> = self.world.get_storage::<Velocity>();
        let entries = storage.entries();
        proof {
            crate::storage::lemma_entries_are_table(*storage);
        }
        let ghost vs = entries@;
        let mut moves: Vec<(Entity, Velocity)> = Vec::new();
        let mut i: usize = 0;
        while i < entries.len()
            invariant
                0 <= i <= entries.len(),
                entries@ == vs,
                moves@ == vs.subrange(0, i as int),
            decreases entries.len() - i,
        {
            moves.push(entries[i]);
            i += 1;
        }
        assert(moves@ =~= vs);
        let mut j: usize = 0;
        while j < moves.len()
            invariant
                0 <= j <= moves.len(),
                moves@ == vs,
                crate::storage::keys_unique(vs),
                forall|k: int|
                    0 <= k < vs.len() ==> w0.velocities().contains_key(#[trigger] vs[k].0)
                        && w0.velocities()[vs[k].0] == vs[k].1,
                forall|e: Entity|
                    #[trigger] w0.velocities().contains_key(e) ==> exists|k: int|
                        0 <= k < vs.len() && vs[k].0 == e,
                moves_fit(w0.positions(), w0.velocities()),
                self.world.wf(),
                self.world.agrees_except(w0, Kind::Position),
                self.world.next_id() == w0.next_id(),
                self.width == old(self).width,
                self.height == old(self).height,
                self.player == old(self).player,
                self.world.positions().dom() == w0.positions().dom(),
                forall|e: Entity|
                    #[trigger] self.world.positions().contains_key(e) ==> self.world.positions()[e]
                        == if seen(vs, j as int, e) {
                        moved(w0.positions()[e], w0.velocities()[e])
                    } else {
                        w0.positions()[e]
                    },
            decreases moves.len() - j,
        {
            let (e, v) = moves[j];
            assert(vs[j as int] == (e, v));
            assert(!seen(vs, j as int, e)) by {
                if seen(vs, j as int, e) {
                    let k = choose|k: int| 0 <= k < j && vs[k].0 == e;
                    assert(vs[k].0 == vs[j as int].0);
                }
            }
            assert forall|x: Entity| #[trigger] seen(vs, j + 1, x) <==> seen(vs, j as int, x) || x
                == e by {
                if x == e {
                    assert(vs[j as int].0 == x);
                }
                if seen(vs, j + 1, x) && x != e {
                    let k = choose|k: int| 0 <= k < j + 1 && vs[k].0 == x;
                    assert(k != j);
                }
            }
            match self.world.get_component_mut::<Position>(e) {
                Some(p) => {
                    assert(*p == w0.positions()[e]);
                    p.x = p.x + v.x;
                    p.y = p.y + v.y;
                },
                None => {},
            }
            assert(self.world.positions().dom() =~= w0.positions().dom());
            j += 1;
        }
        proof {
            assert forall|e: Entity| #[trigger]
                self.world.positions().contains_key(e) implies (seen(vs, vs.len() as int, e)
                <==> w0.velocities().contains_key(e)) by {
                if w0.velocities().contains_key(e) {
                    let k = choose|k: int| 0 <= k < vs.len() && vs[k].0 == e;
                    assert(seen(vs, vs.len() as int, e));
                }
                if seen(vs, vs.len() as int, e) {
                    let k = choose|k: int| 0 <= k < vs.len() && vs[k].0 == e;
                    assert(w0.velocities().contains_key(vs[k].0));
                }
            }
            assert(self.world.positions() =~= advanced(w0.positions(), w0.velocities()));
        }
    }

    /// Gives the player's velocity one impulse in the named direction
    /// ("up", "down", "left" or "right"); any other text changes nothing.
    pub fn update_player_velocity(&mut self, direction: &str)
        requires
            old(self).wf(),
        ensures
            final(self).wf(),
            final(self).world.velocities() == match direction_named(direction@) {
                Some(d) => if old(self).world.velocities().contains_key(old(self).player) {
                    old(self).world.velocities().insert(
                        old(self).player,
                        steered(old(self).world.velocities()[old(self).player], d),
                    )
                } else {
                    old(self).world.velocities()
                },
                None => old(self).world.velocities(),
            },
            final(self).world.agrees_except(old(self).world, Kind::Velocity),
            final(self).world.next_id() == old(self).world.next_id(),
            final(self).width == old(self).width,
            final(self).height == old(self).height,
            final(self).player == old(self).player,
    {
        let d = match direction_of(direction) {
            Some(d) => d,
            None => return,
        };
        if let Some(velocity) = self.world.get_component_mut::<Velocity>(self.player) {
            match d {
                Direction::Up => velocity.y = apply_impulse(velocity.y, false),
                Direction::Down => velocity.y = apply_impulse(velocity.y, true),
                Direction::Left => velocity.x = apply_impulse(velocity.x, false),
                Direction::Right => velocity.x = apply_impulse(velocity.x, true),
            }
        }
    }

    /// Stops the player along the x axis, the y axis, or both.
    pub fn zero_player_vel(&mut self, x: bool, y: bool)
        requires
            old(self).wf(),
        ensures
            final(self).wf(),
            final(self).world.velocities() == if old(self).world.velocities().contains_key(
                old(self).player,
            ) {
                old(self).world.velocities().insert(
                    old(self).player,
                    Velocity {
                        x: if x {
                            0
                        } else {
                            old(self).world.velocities()[old(self).player].x
                        },
                        y: if y {
                            0
                        } else {
                            old(self).world.velocities()[old(self).player].y
                        },
                    },
                )
            } else {
                old(self).world.velocities()
            },
            final(self).world.agrees_except(old(self).world, Kind::Velocity),
            final(self).world.next_id() == old(self).world.next_id(),
            final(self).width == old(self).width,
            final(self).height == old(self).height,
            final(self).player == old(self).player,
    {
        if let Some(velocity) = self.world.get_component_mut::<Velocity>(self.player) {
            if x {
                velocity.x = 0;
            }
            if y {
                velocity.y = 0;
            }
        }
    }
}

} // verus!
