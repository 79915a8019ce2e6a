use vstd::prelude::*;
use crate::components::{Player, Position, Size, Sprite, Velocity};
use crate::storage::{Entity, Storage};

verus! {

/// Names the table of a world that holds one component type.
pub enum Kind {
    Position,
    Velocity,
    Size,
    Player,
    Sprite,
}

/// The entity allocator and one table per component type.
pub struct World {
    next: u64,
    positions: Storage<Position>,
    velocities: Storage<Velocity>,
    sizes: Storage<Size>,
    players: Storage<Player>,
    sprites: Storage<Sprite>,
}

/// A type that a world stores, in a table of its own.
pub trait Component: Sized {
    /// The table that holds this type.
    spec fn kind() -> Kind;

    /// The contents of this type's table in `w`.
    spec fn table(w: World) -> Map<Entity, Self>;

    /// The whole table of this type.
    fn storage(w: &World) -> (r: &Storage<Self>)
        requires
            w.wf(),
        ensures
            r.wf(),
            r@ == Self::table(*w),
    ;

    /// The whole table of this type, to change in place; no other table
    /// changes.
    fn storage_mut(w: &mut World) -> (r: &mut Storage<Self>)
        requires
            old(w).wf(),
        ensures
            r.wf(),
            r@ == Self::table(*old(w)),
            Self::table(*final(w)) == final(r)@,
            final(r).wf() ==> final(w).wf(),
            final(w).agrees_except(*old(w), Self::kind()),
            final(w).next_id() == old(w).next_id(),
    ;

    /// Sets the component of `e` in this type's table, touching no other.
    fn insert_into(w: &mut World, e: Entity, v: Self)
        requires
            old(w).wf(),
        ensures
            final(w).wf(),
            Self::table(*final(w)) == Self::table(*old(w)).insert(e, v),
            final(w).agrees_except(*old(w), Self::kind()),
            final(w).next_id() == old(w).next_id(),
    ;

    /// Tables other than this type's do not hold it.
    proof fn lemma_other_kind(w1: World, w2: World, k: Kind)
        requires
            w1.agrees_except(w2, k),
            k != Self::kind(),
        ensures
            Self::table(w1) == Self::table(w2),
    ;

    /// Worlds with the same tables hold the same components of this type.
    proof fn lemma_kind_agnostic(w1: World, w2: World)
        requires
            w1.same_tables(w2),
        ensures
            Self::table(w1) == Self::table(w2),
    ;

    /// A fresh world holds nothing of this type.
    proof fn lemma_fresh(w: World)
        requires
            w.is_fresh(),
        ensures
            Self::table(w) == Map::<Entity, Self>::empty(),
    ;
}

impl World {
    /// The identifier that the next created entity gets.
    pub closed spec fn next_id(&self) -> nat {
        self.next as nat
    }

    pub closed spec fn positions(&self) -> Map<Entity, Position> {
        self.positions@
    }

    pub closed spec fn velocities(&self) -> Map<Entity, Velocity> {
        self.velocities@
    }

    pub closed spec fn sizes(&self) -> Map<Entity, Size> {
        self.sizes@
    }

    pub closed spec fn players(&self) -> Map<Entity, Player> {
        self.players@
    }

    pub closed spec fn sprites(&self) -> Map<Entity, Sprite> {
        self.sprites@
    }

    pub closed spec fn wf(&self) -> bool {
        self.positions.wf() && self.velocities.wf() && self.sizes.wf() && self.players.wf()
            && self.sprites.wf()
    }

    /// Every table other than that of `k` is the same in both worlds.
    pub open spec fn agrees_except(&self, other: World, k: Kind) -> bool {
        &&& (k != Kind::Position ==> self.positions() == other.positions())
        &&& (k != Kind::Velocity ==> self.velocities() == other.velocities())
        &&& (k != Kind::Size ==> self.sizes() == other.sizes())
        &&& (k != Kind::Player ==> self.players() == other.players())
        &&& (k != Kind::Sprite ==> self.sprites() == other.sprites())
    }

    /// Every table is the same in both worlds.
    pub open spec fn same_tables(&self, other: World) -> bool {
        &&& self.positions() == other.positions()
        &&& self.velocities() == other.velocities()
        &&& self.sizes() == other.sizes()
        &&& self.players() == other.players()
        &&& self.sprites() == other.sprites()
    }

    /// No entity created yet, and every table empty.
    pub open spec fn is_fresh(&self) -> bool {
        &&& self.next_id() == 0
        &&& self.positions() == Map::<Entity, Position>::empty()
        &&& self.velocities() == Map::<Entity, Velocity>::empty()
        &&& self.sizes() == Map::<Entity, Size>::empty()
        &&& self.players() == Map::<Entity, Player>::empty()
        &&& self.sprites() == Map::<Entity, Sprite>::empty()
    }

    pub fn new() -> (r: World)
        ensures
            r.wf(),
            r.is_fresh(),
    {
        World {
            next: 0,
            positions: Storage::new(),
            velocities: Storage::new(),
            sizes: Storage::new(),
            players: Storage::new(),
            sprites: Storage::new(),
        }
    }

    /// A fresh entity, distinct from every one issued before.
    pub fn create_entity(&mut self) -> (r: Entity)
        requires
            old(self).wf(),
            old(self).next_id() < u64::MAX,
        ensures
            final(self).wf(),
            r.id == old(self).next_id(),
            final(self).next_id() == old(self).next_id() + 1,
            final(self).same_tables(*old(self)),
    {
        let e = Entity { id: self.next };
        self.next = self.next + 1;
        e
    }

    /// Sets the `T` component of `e` to `v`, replacing any earlier one.
    pub fn add_component<T: Component>(&mut self, e: Entity, v: T)
        requires
            old(self).wf(),
        ensures
            final(self).wf(),
            T::table(*final(self)) == T::table(*old(self)).insert(e, v),
            final(self).agrees_except(*old(self), T::kind()),
            final(self).next_id() == old(self).next_id(),
    {
        T::insert_into(self, e, v);
    }

    /// The `T` component of `e`, if it has one.
    pub fn get_component<T: Component>(&self, e: Entity) -> (r: Option<&T>)
        requires
            self.wf(),
        ensures
            match r {
                Some(v) => T::table(*self).contains_key(e) && *v == T::table(*self)[e],
                None => !T::table(*self).contains_key(e),
            },
    {
        T::storage(self).get(e)
    }

    /// The `T` component of `e` to change in place, if it has one; no other
    /// entry of any table changes.
    pub fn get_component_mut<T: Component>(&mut self, e: Entity) -> (r: Option<&mut T>)
        requires
            old(self).wf(),
        ensures
            final(self).agrees_except(*old(self), T::kind()),
            final(self).next_id() == old(self).next_id(),
            match r {
                Some(v) => T::table(*old(self)).contains_key(e) && *v == T::table(*old(self))[e]
                    && final(self).wf() && T::table(*final(self)) == T::table(*old(self)).insert(
                    e,
                    *final(v),
                ),
                None => !T::table(*old(self)).contains_key(e) && final(self).wf() && T::table(
                    *final(self),
                ) == T::table(*old(self)),
            },
    {
        let table = T::storage_mut(self);
        table.get_mut(e)
    }

    /// The whole table of `T`; empty where no `T` was ever added.
    pub fn get_storage<T: Component>(&self) -> (r: &Storage<T>)
        requires
            self.wf(),
        ensures
            r.wf(),
            r@ == T::table(*self),
    {
        T::storage(self)
    }
}

impl Component for Position {
    open spec fn kind() -> Kind {
        Kind::Position
    }

    open spec fn table(w: World) -> Map<Entity, Position> {
        w.positions()
    }

    fn storage(w: &World) -> (r: &Storage<Position>) {
        &w.positions
    }

    fn storage_mut(w: &mut World) -> (r: &mut Storage<Position>) {
        &mut w.positions
    }

    fn insert_into(w: &mut World, e: Entity, v: Position) {
        w.positions.insert(e, v);
    }

    proof fn lemma_other_kind(w1: World, w2: World, k: Kind) {
    }

    proof fn lemma_kind_agnostic(w1: World, w2: World) {
    }

    proof fn lemma_fresh(w: World) {
    }
}

impl Component for Velocity {
    open spec fn kind() -> Kind {
        Kind::Velocity
    }

    open spec fn table(w: World) -> Map<Entity, Velocity> {
        w.velocities()
    }

    fn storage(w: &World) -> (r: &Storage<Velocity>) {
        &w.velocities
    }

    fn storage_mut(w: &mut World) -> (r: &mut Storage<Velocity>) {
        &mut w.velocities
    }

    fn insert_into(w: &mut World, e: Entity, v: Velocity) {
        w.velocities.insert(e, v);
    }

    proof fn lemma_other_kind(w1: World, w2: World, k: Kind) {
    }

    proof fn lemma_kind_agnostic(w1: World, w2: World) {
    }

    proof fn lemma_fresh(w: World) {
    }
}

impl Component for Size {
    open spec fn kind() -> Kind {
        Kind::Size
    }

    open spec fn table(w: World) -> Map<Entity, Size> {
        w.sizes()
    }

    fn storage(w: &World) -> (r: &Storage<Size>) {
        &w.sizes
    }

    fn storage_mut(w: &mut World) -> (r: &mut Storage<Size>) {
        &mut w.sizes
    }

    fn insert_into(w: &mut World, e: Entity, v: Size) {
        w.sizes.insert(e, v);
    }

    proof fn lemma_other_kind(w1: World, w2: World, k: Kind) {
    }

    proof fn lemma_kind_agnostic(w1: World, w2: World) {
    }

    proof fn lemma_fresh(w: World) {
    }
}

impl Component for Player {
    open spec fn kind() -> Kind {
        Kind::Player
    }

    open spec fn table(w: World) -> Map<Entity, Player> {
        w.players()
    }

    fn storage(w: &World) -> (r: &Storage<Player>) {
        &w.players
    }

    fn storage_mut(w: &mut World) -> (r: &mut Storage<Player>) {
        &mut w.players
    }

    fn insert_into(w: &mut World, e: Entity, v: Player) {
        w.players.insert(e, v);
    }

    proof fn lemma_other_kind(w1: World, w2: World, k: Kind) {
    }

    proof fn lemma_kind_agnostic(w1: World, w2: World) {
    }

    proof fn lemma_fresh(w: World) {
    }
}

impl Component for Sprite {
    open spec fn kind() -> Kind {
        Kind::Sprite
    }

    open spec fn table(w: World) -> Map<Entity, Sprite> {
        w.sprites()
    }

    fn storage(w: &World) -> (r: &Storage<Sprite>) {
        &w.sprites
    }

    fn storage_mut(w: &mut World) -> (r: &mut Storage<Sprite>) {
        &mut w.sprites
    }

    fn insert_into(w: &mut World, e: Entity, v: Sprite) {
        w.sprites.insert(e, v);
    }

    proof fn lemma_other_kind(w1: World, w2: World, k: Kind) {
    }

    proof fn lemma_kind_agnostic(w1: World, w2: World) {
    }

    proof fn lemma_fresh(w: World) {
    }
}

/// After `add_component(e, v)` the `T` component of `e` is `v`, and the table
/// of every other component type `U` is as it was.
pub proof fn lemma_add_then_get<T: Component, U: Component>(w1: World, w2: World, e: Entity, v: T)
    requires
        T::table(w2) == T::table(w1).insert(e, v),
        w2.agrees_except(w1, T::kind()),
    ensures
        T::table(w2).contains_key(e),
        T::table(w2)[e] == v,
        U::kind() != T::kind() ==> U::table(w2) == U::table(w1),
{
    if U::kind() != T::kind() {
        U::lemma_other_kind(w2, w1, T::kind());
    }
}

/// In a fresh world no entity has a component of any type `T`.
pub proof fn lemma_fresh_world_absent<T: Component>(w: World, e: Entity)
    requires
        w.is_fresh(),
    ensures
        !T::table(w).contains_key(e),
{
    T::lemma_fresh(w);
}

/// An entity without a `T` component still has none after a component of
/// another type `U` is added to any entity.
pub proof fn lemma_absent_after_other_type<T: Component, U: Component>(
    w1: World,
    w2: World,
    target: Entity,
    e: Entity,
    v: U,
)
    requires
        !T::table(w1).contains_key(target),
        U::table(w2) == U::table(w1).insert(e, v),
        w2.agrees_except(w1, U::kind()),
        U::kind() != T::kind(),
    ensures
        !T::table(w2).contains_key(target),
{
    T::lemma_other_kind(w2, w1, U::kind());
}

/// An entity without a `T` component still has none after a `T` component
/// is added to another entity.
pub proof fn lemma_absent_after_other_entity<T: Component>(
    w1: World,
    w2: World,
    target: Entity,
    e: Entity,
    v: T,
)
    requires
        !T::table(w1).contains_key(target),
        T::table(w2) == T::table(w1).insert(e, v),
        e != target,
    ensures
        !T::table(w2).contains_key(target),
{
}

/// Creating an entity adds no component of any type `T`.
pub proof fn lemma_create_keeps_tables<T: Component>(w1: World, w2: World)
    requires
        w2.same_tables(w1),
    ensures
        T::table(w2) == T::table(w1),
{
    T::lemma_kind_agnostic(w2, w1);
}

/// Adding `v1` and then `v2` to `e` leaves one entry for `e`, equal to `v2`:
/// the same table as adding `v2` alone.
pub proof fn lemma_overwrite<T: Component>(w1: World, w2: World, w3: World, e: Entity, v1: T, v2: T)
    requires
        T::table(w2) == T::table(w1).insert(e, v1),
        T::table(w3) == T::table(w2).insert(e, v2),
    ensures
        T::table(w3) == T::table(w1).insert(e, v2),
        T::table(w3)[e] == v2,
{
    assert(T::table(w3) =~= T::table(w1).insert(e, v2));
}

/// Entities created one after another have strictly increasing, hence
/// pairwise distinct, identifiers, in the order of creation.
pub proof fn lemma_created_distinct(worlds: Seq<World>, created: Seq<Entity>)
    requires
        worlds.len() == created.len() + 1,
        forall|i: int|
            0 <= i < created.len() ==> (#[trigger] created[i]).id == worlds[i].next_id()
                && worlds[i + 1].next_id() == worlds[i].next_id() + 1,
    ensures
        forall|i: int, j: int| 0 <= i < j < created.len() ==> created[i].id < created[j].id,
{
    assert forall|i: int, j: int| 0 <= i < j < created.len() implies created[i].id
        < created[j].id by {
        lemma_next_grows(worlds, created, i, j);
    }
}

proof fn lemma_next_grows(worlds: Seq<World>, created: Seq<Entity>, i: int, j: int)
    requires
        worlds.len() == created.len() + 1,
        forall|k: int|
            0 <= k < created.len() ==> (#[trigger] created[k]).id == worlds[k].next_id()
                && worlds[k + 1].next_id() == worlds[k].next_id() + 1,
        0 <= i < j <= created.len(),
    ensures
        worlds[i].next_id() < worlds[j].next_id(),
    decreases j - i,
{
    let _ = created[i];
    if j > i + 1 {
        lemma_next_grows(worlds, created, i + 1, j);
    }
}

} // verus!
