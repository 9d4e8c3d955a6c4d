//! The order of one player's motion within a frame.
//!
//! The arithmetic of motion is floating-point arithmetic and is not part of
//! this crate: it comes in as five functions on bit patterns.  What this
//! module fixes is the order in which they act and which of them a
//! player's decisions call for.  Changing that order would change every
//! trajectory, so it is stated once, here.

use crate::game::{advanced, decisions, functional, lemma_absent_player_spins, GameView};
use crate::input::{lemma_idle_coasts, resolved, Controls, InputFrame, Thrust, Turn, NULL_FRAME};
use crate::state::PlayerState;
use vstd::prelude::*;

verus! {

/// The arithmetic of one player's motion.  Every scalar is the bit pattern
/// of a single-precision number.
pub struct Motion<D, T, R, L, M> {
    /// Friction: what is left of a velocity after one frame.
    pub decay: D,
    /// Thrust: a velocity after one frame of acceleration, given the
    /// heading, along the heading (`true`) or against it (`false`).
    pub thrust: T,
    /// Turning: a heading after one angular step to the left (`true`) or
    /// to the right (`false`).
    pub turn: R,
    /// The speed cap: a velocity scaled back to the cap where it exceeds it.
    pub limit: L,
    /// Displacement: a position moved by a velocity and clipped to the
    /// field.
    pub displace: M,
}

impl<D, T, R, L, M> Motion<D, T, R, L, M> where
    D: Fn((u32, u32)) -> (u32, u32),
    T: Fn((u32, u32), u32, bool) -> (u32, u32),
    R: Fn(u32, bool) -> u32,
    L: Fn((u32, u32)) -> (u32, u32),
    M: Fn((u32, u32), (u32, u32)) -> (u32, u32),
 {
    /// Every function accepts every argument.
    pub open spec fn total(self) -> bool {
        &&& forall|velocity: (u32, u32)| call_requires(self.decay, (velocity,))
        &&& forall|velocity: (u32, u32), heading: u32, forward: bool|
            call_requires(self.thrust, (velocity, heading, forward))
        &&& forall|heading: u32, left: bool| call_requires(self.turn, (heading, left))
        &&& forall|velocity: (u32, u32)| call_requires(self.limit, (velocity,))
        &&& forall|position: (u32, u32), velocity: (u32, u32)|
            call_requires(self.displace, (position, velocity))
    }

    /// Every function is a function: its result depends on its arguments
    /// alone.
    pub open spec fn deterministic(self) -> bool {
        &&& forall|velocity: (u32, u32), a: (u32, u32), b: (u32, u32)|
            call_ensures(self.decay, (velocity,), a) && call_ensures(self.decay, (velocity,), b)
                ==> a == b
        &&& forall|velocity: (u32, u32), heading: u32, forward: bool, a: (u32, u32), b: (u32, u32)|
            call_ensures(self.thrust, (velocity, heading, forward), a) && call_ensures(
                self.thrust,
                (velocity, heading, forward),
                b,
            ) ==> a == b
        &&& forall|heading: u32, left: bool, a: u32, b: u32|
            call_ensures(self.turn, (heading, left), a) && call_ensures(
                self.turn,
                (heading, left),
                b,
            ) ==> a == b
        &&& forall|velocity: (u32, u32), a: (u32, u32), b: (u32, u32)|
            call_ensures(self.limit, (velocity,), a) && call_ensures(self.limit, (velocity,), b)
                ==> a == b
        &&& forall|position: (u32, u32), velocity: (u32, u32), a: (u32, u32), b: (u32, u32)|
            call_ensures(self.displace, (position, velocity), a) && call_ensures(
                self.displace,
                (position, velocity),
                b,
            ) ==> a == b
    }

    /// What thrust makes of a velocity that friction has slowed: nothing
    /// when the player coasts, and else one frame of acceleration along or
    /// against the heading.
    pub open spec fn driven(
        self,
        slowed: (u32, u32),
        heading: u32,
        thrust: Thrust,
        driven: (u32, u32),
    ) -> bool {
        match thrust {
            Thrust::Coast => driven == slowed,
            Thrust::Forward => call_ensures(self.thrust, (slowed, heading, true), driven),
            Thrust::Brake => call_ensures(self.thrust, (slowed, heading, false), driven),
        }
    }

    /// What turning makes of a heading: nothing when the player goes
    /// straight, and else one angular step.
    pub open spec fn turned(self, heading: u32, turn: Turn, turned: u32) -> bool {
        match turn {
            Turn::Straight => turned == heading,
            Turn::Left => call_ensures(self.turn, (heading, true), turned),
            Turn::Right => call_ensures(self.turn, (heading, false), turned),
        }
    }

    /// One frame of a player's motion, with the velocities between the
    /// steps named.
    ///
    /// Friction acts first, on the old velocity.  Thrust acts on what
    /// friction left, with the old heading.  The heading turns.  The speed
    /// cap acts on what thrust left, and its result is the new velocity.
    /// The old position is displaced by the new velocity.
    pub open spec fn moved_through(
        self,
        player: PlayerState,
        made: Controls,
        slowed: (u32, u32),
        driven: (u32, u32),
        next: PlayerState,
    ) -> bool {
        &&& call_ensures(self.decay, (player.velocity,), slowed)
        &&& self.driven(slowed, player.rotation, made.thrust, driven)
        &&& self.turned(player.rotation, made.turn, next.rotation)
        &&& call_ensures(self.limit, (driven,), next.velocity)
        &&& call_ensures(self.displace, (player.position, next.velocity), next.position)
    }

    /// One frame of a player's motion: `next` is what the steps, in their
    /// order, make of `player` under the decisions `made`.
    pub open spec fn moved(self, player: PlayerState, made: Controls, next: PlayerState) -> bool {
        exists|slowed: (u32, u32), driven: (u32, u32)|
            self.moved_through(player, made, slowed, driven, next)
    }

    /// Moves one player by one frame.
    pub fn step(&self, player: PlayerState, made: Controls) -> (next: PlayerState)
        requires
            self.total(),
        ensures
            self.moved(player, made, next),
    {
        let slowed = (self.decay)(player.velocity);
        let driven = match made.thrust {
            Thrust::Coast => slowed,
            Thrust::Forward => (self.thrust)(slowed, player.rotation, true),
            Thrust::Brake => (self.thrust)(slowed, player.rotation, false),
        };
        let rotation = match made.turn {
            Turn::Straight => player.rotation,
            Turn::Left => (self.turn)(player.rotation, true),
            Turn::Right => (self.turn)(player.rotation, false),
        };
        let velocity = (self.limit)(driven);
        let position = (self.displace)(player.position, velocity);
        let next = PlayerState { position, velocity, rotation };
        assert(self.moved_through(player, made, slowed, driven, next));
        next
    }

    /// The rule of this motion: the relation between a player's state, its
    /// decisions and its next state.
    pub open spec fn rule(self) -> spec_fn(PlayerState, Controls, PlayerState) -> bool {
        |player: PlayerState, made: Controls, next: PlayerState| self.moved(player, made, next)
    }

    /// With functions for its arithmetic, one frame of motion has one
    /// outcome.
    pub proof fn lemma_moved_deterministic(
        self,
        player: PlayerState,
        made: Controls,
        first: PlayerState,
        second: PlayerState,
    )
        requires
            self.deterministic(),
            self.moved(player, made, first),
            self.moved(player, made, second),
        ensures
            first == second,
    {
        let (slowed_a, driven_a) = choose|slowed: (u32, u32), driven: (u32, u32)|
            self.moved_through(player, made, slowed, driven, first);
        let (slowed_b, driven_b) = choose|slowed: (u32, u32), driven: (u32, u32)|
            self.moved_through(player, made, slowed, driven, second);
        assert(slowed_a == slowed_b);
        assert(driven_a == driven_b);
        assert(first.rotation == second.rotation);
        assert(first.velocity == second.velocity);
        assert(first.position == second.position);
    }

    /// A player that neither thrusts nor brakes is left to friction: its
    /// new velocity is what the speed cap makes of what friction left, and
    /// thrust has no part in it.
    pub proof fn lemma_coasting_is_friction_only(
        self,
        player: PlayerState,
        made: Controls,
        next: PlayerState,
    )
        requires
            self.moved(player, made, next),
            made.thrust == Thrust::Coast,
        ensures
            exists|slowed: (u32, u32)|
                call_ensures(self.decay, (player.velocity,), slowed) && call_ensures(
                    self.limit,
                    (slowed,),
                    next.velocity,
                ),
    {
        let (slowed, driven) = choose|slowed: (u32, u32), driven: (u32, u32)|
            self.moved_through(player, made, slowed, driven, next);
        assert(call_ensures(self.decay, (player.velocity,), slowed) && call_ensures(
            self.limit,
            (slowed,),
            next.velocity,
        ));
    }

    /// A player that does not turn keeps its heading, bit for bit.
    pub proof fn lemma_straight_keeps_heading(
        self,
        player: PlayerState,
        made: Controls,
        next: PlayerState,
    )
        requires
            self.moved(player, made, next),
            made.turn == Turn::Straight,
        ensures
            next.rotation == player.rotation,
    {
        let (slowed, driven) = choose|slowed: (u32, u32), driven: (u32, u32)|
            self.moved_through(player, made, slowed, driven, next);
        assert(self.turned(player.rotation, made.turn, next.rotation));
    }

    /// A player that turns has turned by one angular step from its old
    /// heading, to the side it decided for.
    pub proof fn lemma_turning_steps(self, player: PlayerState, made: Controls, next: PlayerState)
        requires
            self.moved(player, made, next),
            made.turn != Turn::Straight,
        ensures
            call_ensures(self.turn, (player.rotation, made.turn == Turn::Left), next.rotation),
    {
        let (slowed, driven) = choose|slowed: (u32, u32), driven: (u32, u32)|
            self.moved_through(player, made, slowed, driven, next);
        assert(self.turned(player.rotation, made.turn, next.rotation));
    }

    /// Every new velocity has passed the speed cap, and every new position
    /// the clipping to the field, whatever the player decided: what the
    /// speed cap promises of its results holds of the new velocity, and
    /// what the displacement promises of its results holds of the new
    /// position.
    pub proof fn lemma_capped_and_clipped(
        self,
        player: PlayerState,
        made: Controls,
        next: PlayerState,
        capped: spec_fn((u32, u32)) -> bool,
        on_field: spec_fn((u32, u32)) -> bool,
    )
        requires
            self.moved(player, made, next),
            forall|velocity: (u32, u32), out: (u32, u32)|
                call_ensures(self.limit, (velocity,), out) ==> capped(out),
            forall|position: (u32, u32), velocity: (u32, u32), out: (u32, u32)|
                call_ensures(self.displace, (position, velocity), out) ==> on_field(out),
        ensures
            capped(next.velocity),
            on_field(next.position),
    {
        let (slowed, driven) = choose|slowed: (u32, u32), driven: (u32, u32)|
            self.moved_through(player, made, slowed, driven, next);
        assert(call_ensures(self.limit, (driven,), next.velocity));
        assert(call_ensures(self.displace, (player.position, next.velocity), next.position));
    }

    /// After an advance by this motion, no player is faster than the speed
    /// cap allows and none is off the field, however much thrust has
    /// accumulated: `capped` holds of every velocity and `on_field` of
    /// every position, if the speed cap and the displacement promise them
    /// of their results.
    pub proof fn lemma_advance_caps_and_clips(
        self,
        pre: GameView,
        inputs: Seq<InputFrame>,
        post: GameView,
        capped: spec_fn((u32, u32)) -> bool,
        on_field: spec_fn((u32, u32)) -> bool,
    )
        requires
            advanced(pre, inputs, self.rule(), post),
            forall|velocity: (u32, u32), out: (u32, u32)|
                call_ensures(self.limit, (velocity,), out) ==> capped(out),
            forall|position: (u32, u32), velocity: (u32, u32), out: (u32, u32)|
                call_ensures(self.displace, (position, velocity), out) ==> on_field(out),
        ensures
            forall|i: int|
                0 <= i < post.state.players() ==> capped(
                    (#[trigger] post.state.player(i)).velocity,
                ) && on_field(post.state.player(i).position),
    {
        let rule = self.rule();
        assert forall|i: int| 0 <= i < post.state.players() implies capped(
            (#[trigger] post.state.player(i)).velocity,
        ) && on_field(post.state.player(i).position) by {
            let next = post.state.player(i);
            assert(rule(pre.state.player(i), decisions(inputs, i), next));
            self.lemma_capped_and_clipped(
                pre.state.player(i),
                decisions(inputs, i),
                next,
                capped,
                on_field,
            );
        }
    }

    /// After an advance by this motion, a player whose input asserts
    /// nothing has kept its heading, and its velocity is what the speed cap
    /// makes of what friction left of the old one.
    pub proof fn lemma_advance_leaves_idle_to_friction(
        self,
        pre: GameView,
        inputs: Seq<InputFrame>,
        post: GameView,
        index: int,
    )
        requires
            advanced(pre, inputs, self.rule(), post),
            0 <= index < pre.state.players(),
            resolved(inputs[index]) == Some(0u8),
        ensures
            post.state.player(index).rotation == pre.state.player(index).rotation,
            exists|slowed: (u32, u32)|
                call_ensures(self.decay, (pre.state.player(index).velocity,), slowed)
                    && call_ensures(self.limit, (slowed,), post.state.player(index).velocity),
    {
        let rule = self.rule();
        let player = pre.state.player(index);
        let next = post.state.player(index);
        lemma_idle_coasts();
        assert(rule(player, decisions(inputs, index), next));
        self.lemma_coasting_is_friction_only(player, decisions(inputs, index), next);
        self.lemma_straight_keeps_heading(player, decisions(inputs, index), next);
    }

    /// After an advance by this motion, a player whose input frame carries
    /// no input has turned one step to the left, and its velocity is what
    /// the speed cap makes of what friction left of the old one: it spins,
    /// and is not thrust.
    pub proof fn lemma_advance_spins_absent(
        self,
        pre: GameView,
        inputs: Seq<InputFrame>,
        post: GameView,
        index: int,
    )
        requires
            advanced(pre, inputs, self.rule(), post),
            0 <= index < pre.state.players(),
            index < inputs.len(),
            inputs[index].frame == NULL_FRAME,
        ensures
            call_ensures(
                self.turn,
                (pre.state.player(index).rotation, true),
                post.state.player(index).rotation,
            ),
            exists|slowed: (u32, u32)|
                call_ensures(self.decay, (pre.state.player(index).velocity,), slowed)
                    && call_ensures(self.limit, (slowed,), post.state.player(index).velocity),
    {
        let rule = self.rule();
        let player = pre.state.player(index);
        let next = post.state.player(index);
        lemma_absent_player_spins(inputs, index);
        assert(rule(player, decisions(inputs, index), next));
        self.lemma_coasting_is_friction_only(player, decisions(inputs, index), next);
        self.lemma_turning_steps(player, decisions(inputs, index), next);
    }

    /// With functions for its arithmetic, the rule of this motion is a
    /// function, so that advances by it are deterministic.
    pub proof fn lemma_rule_functional(self)
        requires
            self.deterministic(),
        ensures
            functional(self.rule()),
    {
        let rule = self.rule();
        assert forall|player: PlayerState, made: Controls, first: PlayerState, second: PlayerState|
            #[trigger] rule(player, made, first) && #[trigger] rule(
                player,
                made,
                second,
            ) implies first == second by {
            self.lemma_moved_deterministic(player, made, first, second);
        }
    }
}

} // verus!
