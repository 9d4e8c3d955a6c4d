//! The simulation engine: the live state, its checksum records, and the
//! requests that save, load and advance it.
//!
//! How a player moves within a frame is the business of a `Motion`: the
//! engine moves each player by the rule of the motion it is handed.  What
//! this module states of an advance, it states over such a rule, a relation
//! between a player's state, its decisions and its next state.

use crate::checksum::{checksum_of, fletcher16, lemma_checksum_halves};
use crate::input::{
    controls, controls_of, encode_keys, encoded_input, lemma_fallback_spins, mask_of, resolve,
    resolved, Controls, InputFrame, Thrust, Turn, NULL_FRAME,
};
use crate::motion::Motion;
use crate::state::{
    lemma_snapshot_round_trip, parsed, snapshot_bytes, BoxGameState, PlayerState, StateView,
};
use vstd::prelude::*;

verus! {

/// What is fixed for a session.
#[derive(Clone, Copy, Debug, PartialEq, Eq, Structural)]
pub struct Config {
    /// The number of player slots.
    pub num_players: usize,
    /// Every frame that is a multiple of this period leaves a checksum
    /// record of its own.
    pub checksum_period: i32,
}

impl Config {
    /// The period is positive.
    pub open spec fn wf(self) -> bool {
        self.checksum_period > 0
    }
}

impl Default for Config {
    /// Two players, and a periodic checksum every hundred frames.
    fn default() -> (config: Config)
        ensures
            config == (Config { num_players: 2, checksum_period: 100 }),
    {
        Config { num_players: 2, checksum_period: 100 }
    }
}

/// A saved state: what a save request deposits into its cell.
#[derive(Clone, Debug, PartialEq, Eq)]
pub struct Snapshot {
    /// The frame of the saved state.
    pub frame: i32,
    /// The encoded state.
    pub buffer: Vec<u8>,
    /// The checksum of `buffer`.
    pub checksum: u64,
}

/// Why a request was not carried out.
#[derive(Clone, Copy, Debug, PartialEq, Eq, Structural)]
pub enum Error {
    /// A save was requested for a frame that is not the live one.
    FrameMismatch { live: i32, requested: i32 },
    /// The buffer to load ends before the state it holds does.
    TruncatedSnapshot,
    /// The buffer to load holds a state for another number of players, or
    /// one whose sequences differ in length.
    PlayerCount,
    /// An advance came with fewer input frames than there are players.
    MissingInput,
    /// The input buffer of a player holds no control mask.
    MalformedInput { player: usize },
    /// The frame counter cannot be increased any further.
    FrameOverflow,
}

/// One command of the rollback session.
#[derive(Clone, Debug, PartialEq, Eq)]
pub enum Request {
    /// Save the live state, which is expected to be at `frame`.
    Save { frame: i32 },
    /// Replace the live state by the one that `buffer` holds.
    Load { buffer: Vec<u8> },
    /// Advance the live state by one frame with one input frame per player.
    Advance { inputs: Vec<InputFrame> },
}

/// What came of a request that was carried out.
#[derive(Clone, Debug, PartialEq, Eq)]
pub enum Reply {
    /// The state was saved; the snapshot is to be deposited.
    Saved(Snapshot),
    /// The state was replaced.
    Loaded,
    /// The state moved on by one frame.
    Advanced,
}

/// A batch that stopped early.
#[derive(Clone, Debug, PartialEq, Eq)]
pub struct Failure {
    /// The replies to the requests before the failing one.
    pub replies: Vec<Reply>,
    /// Why the request behind them was not carried out.
    pub error: Error,
}

/// The game: the live state with its two checksum records.
pub struct BoxGame {
    game_state: BoxGameState,
    /// Which of the keys up, left, down and right are held down.
    pub key_states: [bool; 4],
    last_checksum: (i32, u64),
    periodic_checksum: (i32, u64),
    config: Config,
}

/// The mathematical value of a `BoxGame`.
pub struct GameView {
    pub state: StateView,
    pub keys: Seq<bool>,
    pub last_checksum: (i32, u64),
    pub periodic_checksum: (i32, u64),
    pub config: Config,
}

impl GameView {
    /// The state has one entry per player slot in each of its sequences.
    pub open spec fn wf(self) -> bool {
        &&& self.config.wf()
        &&& self.state.wf()
        &&& self.state.players() == self.config.num_players
        &&& self.keys.len() == 4
    }
}

/// Whether `frame` is a multiple of `period`.
pub open spec fn on_period(frame: i32, period: i32) -> bool {
    frame as int % period as int == 0
}

/// The checksum record of a state: its frame and the checksum of its
/// snapshot.
pub open spec fn record_of(state: StateView) -> (i32, u64) {
    (state.frame, checksum_of(snapshot_bytes(state)) as u64)
}

/// The record that no frame has written yet.
pub open spec fn no_record() -> (i32, u64) {
    (NULL_FRAME, 0u64)
}

/// What a save request for `frame` comes to in the game `pre`: the
/// snapshot of the live state, or a mismatch if another frame is live.
pub open spec fn saved(pre: GameView, frame: i32, out: Result<Snapshot, Error>) -> bool {
    match out {
        Ok(snapshot) => {
            &&& frame == pre.state.frame
            &&& snapshot.frame == frame
            &&& snapshot.buffer@ == snapshot_bytes(pre.state)
            &&& snapshot.checksum == checksum_of(snapshot_bytes(pre.state))
        },
        Err(error) => {
            &&& frame != pre.state.frame
            &&& error == (Error::FrameMismatch { live: pre.state.frame, requested: frame })
        },
    }
}

/// Whether `buffer` can be loaded into the game `pre`: it holds a whole
/// state, and that state has one entry per player slot.
pub open spec fn loadable(pre: GameView, buffer: Seq<u8>) -> bool {
    &&& parsed(buffer) is Some
    &&& parsed(buffer)->Some_0.wf()
    &&& parsed(buffer)->Some_0.players() == pre.config.num_players
}

/// What a load request for `buffer` makes of the game `pre`: the state
/// that the buffer holds replaces the live one and nothing else changes, or
/// the game stays as it is.
pub open spec fn loaded(pre: GameView, buffer: Seq<u8>, post: GameView, out: Result<(), Error>)
    -> bool {
    match out {
        Ok(_) => {
            &&& loadable(pre, buffer)
            &&& post == (GameView { state: parsed(buffer)->Some_0, ..pre })
        },
        Err(error) => {
            &&& !loadable(pre, buffer)
            &&& post == pre
            &&& error == if parsed(buffer) is None {
                Error::TruncatedSnapshot
            } else {
                Error::PlayerCount
            }
        },
    }
}

/// Whether the game `pre` can advance with `inputs`: the frame counter has
/// room, and each player has an input frame that yields a control mask.
pub open spec fn advanceable(pre: GameView, inputs: Seq<InputFrame>) -> bool {
    &&& pre.state.frame < i32::MAX
    &&& inputs.len() >= pre.config.num_players
    &&& forall|i: int| 0 <= i < pre.config.num_players ==> (#[trigger] resolved(inputs[i])) is Some
}

/// The error of an advance that cannot be made.  The frame counter is
/// looked at first, then the number of input frames, then the input frames
/// in the order of the players.
pub open spec fn advance_refused(pre: GameView, inputs: Seq<InputFrame>, error: Error) -> bool {
    match error {
        Error::FrameOverflow => pre.state.frame == i32::MAX,
        Error::MissingInput => {
            &&& pre.state.frame < i32::MAX
            &&& inputs.len() < pre.config.num_players
        },
        Error::MalformedInput { player } => {
            &&& pre.state.frame < i32::MAX
            &&& inputs.len() >= pre.config.num_players
            &&& player < pre.config.num_players
            &&& resolved(inputs[player as int]) is None
            &&& forall|i: int| 0 <= i < player ==> (#[trigger] resolved(inputs[i])) is Some
        },
        _ => false,
    }
}

/// The decisions of player `index` in an advance with `inputs`.
pub open spec fn decisions(inputs: Seq<InputFrame>, index: int) -> Controls {
    controls_of(resolved(inputs[index])->Some_0)
}

/// What deciding for the first `players` input frames comes to: the
/// decisions of each, or the slot of the first whose frame yields no
/// control mask.
pub open spec fn decided(
    inputs: Seq<InputFrame>,
    players: usize,
    out: Result<Vec<Controls>, usize>,
) -> bool {
    match out {
        Ok(made) => {
            &&& made@.len() == players
            &&& forall|i: int| 0 <= i < players ==> (#[trigger] resolved(inputs[i])) is Some
            &&& forall|i: int| 0 <= i < players ==> #[trigger] made@[i] == decisions(inputs, i)
        },
        Err(player) => {
            &&& player < players
            &&& resolved(inputs[player as int]) is None
            &&& forall|i: int| 0 <= i < player ==> (#[trigger] resolved(inputs[i])) is Some
        },
    }
}

/// What an advance with `inputs` makes of the game `pre`, with `rule`
/// moving the players.
///
/// The frame counter goes up by one.  Each player's new state is what the
/// rule makes of its old state and its decisions, independently of the
/// other players.  The record of the last checksum is that of the new
/// state; the periodic record is too if the new frame is a multiple of the
/// period, and else it stays.
pub open spec fn advanced(
    pre: GameView,
    inputs: Seq<InputFrame>,
    rule: spec_fn(PlayerState, Controls, PlayerState) -> bool,
    post: GameView,
) -> bool {
    &&& post.config == pre.config
    &&& post.keys == pre.keys
    &&& post.state.wf()
    &&& post.state.players() == pre.state.players()
    &&& post.state.frame == pre.state.frame + 1
    &&& forall|i: int|
        0 <= i < pre.state.players() ==> rule(
            pre.state.player(i),
            decisions(inputs, i),
            #[trigger] post.state.player(i),
        )
    &&& post.last_checksum == record_of(post.state)
    &&& post.periodic_checksum == if on_period(post.state.frame, pre.config.checksum_period) {
        record_of(post.state)
    } else {
        pre.periodic_checksum
    }
}

/// What an advance request comes to: the game advances, or it stays as it
/// is and the error says why.
pub open spec fn stepped(
    pre: GameView,
    inputs: Seq<InputFrame>,
    rule: spec_fn(PlayerState, Controls, PlayerState) -> bool,
    post: GameView,
    out: Result<(), Error>,
) -> bool {
    match out {
        Ok(_) => advanceable(pre, inputs) && advanced(pre, inputs, rule, post),
        Err(error) => !advanceable(pre, inputs) && advance_refused(pre, inputs, error) && post == pre,
    }
}

/// What a request comes to: each kind is routed to its own operation and
/// to nothing else.
pub open spec fn handled(
    pre: GameView,
    request: Request,
    rule: spec_fn(PlayerState, Controls, PlayerState) -> bool,
    post: GameView,
    out: Result<Reply, Error>,
) -> bool {
    match request {
        Request::Save { frame } => {
            &&& post == pre
            &&& match out {
                Ok(Reply::Saved(snapshot)) => saved(pre, frame, Ok(snapshot)),
                Ok(_) => false,
                Err(error) => saved(pre, frame, Err(error)),
            }
        },
        Request::Load { buffer } => match out {
            Ok(Reply::Loaded) => loaded(pre, buffer@, post, Ok(())),
            Ok(_) => false,
            Err(error) => loaded(pre, buffer@, post, Err(error)),
        },
        Request::Advance { inputs } => match out {
            Ok(Reply::Advanced) => stepped(pre, inputs@, rule, post, Ok(())),
            Ok(_) => false,
            Err(error) => stepped(pre, inputs@, rule, post, Err(error)),
        },
    }
}

/// Whether `trace` is the course of a batch: it starts at one state, and
/// each of the first `replies.len()` requests was carried out from the
/// state that the request before it left, in the order of the batch, none
/// left out.
pub open spec fn course(
    trace: Seq<GameView>,
    requests: Seq<Request>,
    rule: spec_fn(PlayerState, Controls, PlayerState) -> bool,
    replies: Seq<Reply>,
) -> bool {
    &&& trace.len() == replies.len() + 1
    &&& replies.len() <= requests.len()
    &&& forall|j: int|
        0 <= j < replies.len() ==> handled(
            #[trigger] trace[j],
            requests[j],
            rule,
            trace[j + 1],
            Ok(replies[j]),
        )
}

/// What a batch comes to, with `trace` naming the game before the batch
/// and after each request that was carried out.
///
/// On success every request was carried out.  On failure those before the
/// failing one were, the game is as they left it, and the error is that of
/// the failing request, which changed nothing.
pub open spec fn ran(
    pre: GameView,
    requests: Seq<Request>,
    rule: spec_fn(PlayerState, Controls, PlayerState) -> bool,
    post: GameView,
    out: Result<Vec<Reply>, Failure>,
    trace: Seq<GameView>,
) -> bool {
    match out {
        Ok(replies) => {
            &&& replies@.len() == requests.len()
            &&& course(trace, requests, rule, replies@)
            &&& trace.first() == pre
            &&& trace.last() == post
        },
        Err(failure) => {
            &&& failure.replies@.len() < requests.len()
            &&& course(trace, requests, rule, failure.replies@)
            &&& trace.first() == pre
            &&& trace.last() == post
            &&& handled(
                post,
                requests[failure.replies@.len() as int],
                rule,
                post,
                Err(failure.error),
            )
        },
    }
}

impl View for BoxGame {
    type V = GameView;

    closed spec fn view(&self) -> GameView {
        GameView {
            state: self.game_state@,
            keys: self.key_states@,
            last_checksum: self.last_checksum,
            periodic_checksum: self.periodic_checksum,
            config: self.config,
        }
    }
}

/// Whether `frame` is a multiple of `period`.
fn is_on_period(frame: i32, period: i32) -> (out: bool)
    requires
        period > 0,
    ensures
        out == on_period(frame, period),
{
    if frame >= 0 {
        frame % period == 0
    } else {
        let up: i64 = -(frame as i64);
        proof {
            lemma_negated_multiple(frame as int, period as int);
        }
        up % (period as i64) == 0
    }
}

/// A number is a multiple of `p` exactly when its negation is.
proof fn lemma_negated_multiple(a: int, p: int)
    requires
        p > 0,
    ensures
        ((-a) % p == 0) == (a % p == 0),
{
    if a % p == 0 {
        let q = a / p;
        assert(a == q * p) by {
            vstd::arithmetic::div_mod::lemma_fundamental_div_mod(a, p);
            assert(p * q == q * p) by (nonlinear_arith);
        }
        assert(-a == (-q) * p + 0) by (nonlinear_arith)
            requires
                a == q * p,
        ;
        vstd::arithmetic::div_mod::lemma_fundamental_div_mod_converse(-a, p, -q, 0);
    }
    if (-a) % p == 0 {
        let q = (-a) / p;
        assert(-a == q * p) by {
            vstd::arithmetic::div_mod::lemma_fundamental_div_mod(-a, p);
            assert(p * q == q * p) by (nonlinear_arith);
        }
        assert(a == (-q) * p + 0) by (nonlinear_arith)
            requires
                -a == q * p,
        ;
        vstd::arithmetic::div_mod::lemma_fundamental_div_mod_converse(a, p, -q, 0);
    }
}

impl BoxGame {
    /// Whether the game is well-formed.  Every game that this module hands
    /// out is, and every operation keeps it so.
    pub open spec fn wf(&self) -> bool {
        self@.wf()
    }

    /// A game at the start of a session: each player at rest at the place
    /// that `place` gives for its slot; no key held down; no checksum
    /// recorded yet.
    pub fn new<F: Fn(usize) -> (u32, u32)>(config: Config, place: &F) -> (game: BoxGame)
        requires
            config.wf(),
            forall|slot: usize| slot < config.num_players ==> call_requires(*place, (slot,)),
        ensures
            game.wf(),
            game@.config == config,
            game@.state == StateView::initial(game@.state.positions),
            forall|slot: usize|
                slot < config.num_players ==> call_ensures(
                    *place,
                    (slot,),
                    #[trigger] game@.state.positions[slot as int],
                ),
            game@.keys == seq![false, false, false, false],
            game@.last_checksum == no_record(),
            game@.periodic_checksum == no_record(),
    {
        let game = BoxGame {
            game_state: BoxGameState::new(config.num_players, place),
            key_states: [false;4],
            last_checksum: (NULL_FRAME, 0),
            periodic_checksum: (NULL_FRAME, 0),
            config,
        };
        assert(game.key_states@ =~= seq![false, false, false, false]);
        game
    }

    /// The live state.
    pub fn game_state(&self) -> (state: &BoxGameState)
        ensures
            state@ == self@.state,
    {
        &self.game_state
    }

    /// The frame and checksum of the state that the last advance left.
    pub fn last_checksum(&self) -> (record: (i32, u64))
        ensures
            record == self@.last_checksum,
    {
        self.last_checksum
    }

    /// The frame and checksum of the last state whose frame was a multiple
    /// of the checksum period.
    pub fn periodic_checksum(&self) -> (record: (i32, u64))
        ensures
            record == self@.periodic_checksum,
    {
        self.periodic_checksum
    }

    /// What the session was set up with.
    pub fn config(&self) -> (config: Config)
        ensures
            config == self@.config,
    {
        self.config
    }

    /// The local player's input for the next frame, encoded for transport:
    /// the control mask of the keys that are held down.
    pub fn local_input(&self) -> (bytes: Vec<u8>)
        ensures
            bytes@ == encoded_input(mask_of(self@.keys)),
    {
        encode_keys(&self.key_states)
    }

    /// Saves the live state, which the caller expects to be at `frame`.
    pub fn save_game_state(&self, frame: i32) -> (out: Result<Snapshot, Error>)
        ensures
            saved(self@, frame, out),
    {
        if self.game_state.frame != frame {
            return Err(Error::FrameMismatch { live: self.game_state.frame, requested: frame });
        }
        let buffer = self.game_state.to_bytes();
        let checksum = fletcher16(buffer.as_slice()) as u64;
        Ok(Snapshot { frame, buffer, checksum })
    }

    /// Replaces the live state by the one that `buffer` holds.
    pub fn load_game_state(&mut self, buffer: &[u8]) -> (out: Result<(), Error>)
        requires
            old(self).wf(),
        ensures
            final(self).wf(),
            loaded(old(self)@, buffer@, final(self)@, out),
    {
        match BoxGameState::from_bytes(buffer) {
            None => Err(Error::TruncatedSnapshot),
            Some(state) => {
                if state.is_well_formed() && state.num_players() == self.config.num_players {
                    self.game_state = state;
                    Ok(())
                } else {
                    Err(Error::PlayerCount)
                }
            },
        }
    }

    /// The decisions of all players for an advance with `inputs`, or the
    /// slot of the first player whose input frame yields no control mask.
    fn decide(inputs: &Vec<InputFrame>, players: usize) -> (out: Result<Vec<Controls>, usize>)
        requires
            players <= inputs@.len(),
        ensures
            decided(inputs@, players, out),
    {
        let mut made: Vec<Controls> = Vec::new();
        let mut index: usize = 0;
        while index < players
            invariant
                index <= players <= inputs@.len(),
                made@.len() == index,
                forall|i: int| 0 <= i < index ==> (#[trigger] resolved(inputs@[i])) is Some,
                forall|i: int| 0 <= i < index ==> #[trigger] made@[i] == decisions(inputs@, i),
            decreases players - index,
        {
            match resolve(&inputs[index]) {
                Some(mask) => {
                    made.push(controls(mask));
                },
                None => {
                    return Err(index);
                },
            }
            index += 1;
        }
        Ok(made)
    }

    /// Advances the live state by one frame.
    ///
    /// `inputs` holds one input frame per player, in the order of the
    /// slots; frames behind those are not looked at.  Each player is moved
    /// by `motion`, from its state before the advance and the decisions of
    /// its input.  The advance is made as a whole or not at all.
    pub fn advance_frame<D, T, R, L, M>(
        &mut self,
        inputs: &Vec<InputFrame>,
        motion: &Motion<D, T, R, L, M>,
    ) -> (out: Result<(), Error>) where
        D: Fn((u32, u32)) -> (u32, u32),
        T: Fn((u32, u32), u32, bool) -> (u32, u32),
        R: Fn(u32, bool) -> u32,
        L: Fn((u32, u32)) -> (u32, u32),
        M: Fn((u32, u32), (u32, u32)) -> (u32, u32),

        requires
            old(self).wf(),
            motion.total(),
        ensures
            final(self).wf(),
            stepped(old(self)@, inputs@, motion.rule(), final(self)@, out),
    {
        let players = self.config.num_players;
        if self.game_state.frame == i32::MAX {
            return Err(Error::FrameOverflow);
        }
        if inputs.len() < players {
            return Err(Error::MissingInput);
        }
        let made = match Self::decide(inputs, players) {
            Ok(made) => made,
            Err(player) => {
                return Err(Error::MalformedInput { player });
            },
        };
        let ghost pre = self@;
        let ghost rule = motion.rule();
        self.game_state.frame = self.game_state.frame + 1;
        let mut index: usize = 0;
        while index < players
            invariant
                index <= players,
                players == pre.state.players(),
                made@.len() == players,
                motion.total(),
                rule == motion.rule(),
                forall|i: int| 0 <= i < players ==> #[trigger] made@[i] == decisions(inputs@, i),
                self@.config == pre.config,
                self@.keys == pre.keys,
                self@.last_checksum == pre.last_checksum,
                self@.periodic_checksum == pre.periodic_checksum,
                self@.state.frame == pre.state.frame + 1,
                pre.wf(),
                self@.wf(),
                forall|i: int|
                    0 <= i < index ==> rule(
                        pre.state.player(i),
                        decisions(inputs@, i),
                        #[trigger] self@.state.player(i),
                    ),
                forall|i: int|
                    index <= i < players ==> #[trigger] self@.state.player(i) == pre.state.player(i),
            decreases players - index,
        {
            let ghost before = self@;
            let old_player = self.game_state.player(index);
            let new_player = motion.step(old_player, made[index]);
            self.game_state.positions[index] = new_player.position;
            self.game_state.velocities[index] = new_player.velocity;
            self.game_state.rotations[index] = new_player.rotation;
            proof {
                assert(self@.state.player(index as int) == new_player);
                assert(rule(pre.state.player(index as int), decisions(inputs@, index as int), new_player));
                assert forall|i: int| 0 <= i < players && i != index implies #[trigger] self@.state.player(
                    i,
                ) == before.state.player(i) by {}
            }
            index += 1;
        }
        let buffer = self.game_state.to_bytes();
        let checksum = fletcher16(buffer.as_slice()) as u64;
        self.last_checksum = (self.game_state.frame, checksum);
        if is_on_period(self.game_state.frame, self.config.checksum_period) {
            self.periodic_checksum = (self.game_state.frame, checksum);
        }
        Ok(())
    }

    /// Carries out one request, whatever its kind.
    pub fn handle_request<D, T, R, L, M>(
        &mut self,
        request: &Request,
        motion: &Motion<D, T, R, L, M>,
    ) -> (out: Result<Reply, Error>) where
        D: Fn((u32, u32)) -> (u32, u32),
        T: Fn((u32, u32), u32, bool) -> (u32, u32),
        R: Fn(u32, bool) -> u32,
        L: Fn((u32, u32)) -> (u32, u32),
        M: Fn((u32, u32), (u32, u32)) -> (u32, u32),

        requires
            old(self).wf(),
            motion.total(),
        ensures
            final(self).wf(),
            handled(old(self)@, *request, motion.rule(), final(self)@, out),
    {
        match request {
            Request::Save { frame } => {
                match self.save_game_state(*frame) {
                    Ok(snapshot) => Ok(Reply::Saved(snapshot)),
                    Err(error) => Err(error),
                }
            },
            Request::Load { buffer } => {
                match self.load_game_state(buffer.as_slice()) {
                    Ok(_) => Ok(Reply::Loaded),
                    Err(error) => Err(error),
                }
            },
            Request::Advance { inputs } => {
                match self.advance_frame(inputs, motion) {
                    Ok(_) => Ok(Reply::Advanced),
                    Err(error) => Err(error),
                }
            },
        }
    }

    /// Carries out a batch of requests in the order given, each from the
    /// state that the one before it left, and stops at the first that
    /// cannot be carried out.
    ///
    /// On success there is one reply per request.  On failure the replies
    /// are those of the requests before the failing one, the game is as
    /// they left it, and the failing request changed nothing.
    pub fn handle_requests<D, T, R, L, M>(
        &mut self,
        requests: Vec<Request>,
        motion: &Motion<D, T, R, L, M>,
    ) -> (out: Result<Vec<Reply>, Failure>) where
        D: Fn((u32, u32)) -> (u32, u32),
        T: Fn((u32, u32), u32, bool) -> (u32, u32),
        R: Fn(u32, bool) -> u32,
        L: Fn((u32, u32)) -> (u32, u32),
        M: Fn((u32, u32), (u32, u32)) -> (u32, u32),

        requires
            old(self).wf(),
            motion.total(),
        ensures
            final(self).wf(),
            exists|trace: Seq<GameView>|
                #[trigger] ran(old(self)@, requests@, motion.rule(), final(self)@, out, trace),
    {
        let ghost rule = motion.rule();
        let ghost mut trace: Seq<GameView> = seq![self@];
        let mut replies: Vec<Reply> = Vec::new();
        let mut index: usize = 0;
        while index < requests.len()
            invariant
                index <= requests@.len(),
                replies@.len() == index,
                motion.total(),
                rule == motion.rule(),
                self.wf(),
                trace.first() == old(self)@,
                trace.last() == self@,
                course(trace, requests@, rule, replies@),
            decreases requests.len() - index,
        {
            let ghost before = self@;
            let ghost so_far = trace;
            match self.handle_request(&requests[index], motion) {
                Ok(reply) => {
                    replies.push(reply);
                    proof {
                        trace = so_far.push(self@);
                        assert forall|j: int| 0 <= j < replies@.len() implies handled(
                            #[trigger] trace[j],
                            requests@[j],
                            rule,
                            trace[j + 1],
                            Ok(replies@[j]),
                        ) by {
                            if j < index {
                                assert(trace[j] == so_far[j]);
                                assert(trace[j + 1] == so_far[j + 1]);
                            }
                        }
                    }
                },
                Err(error) => {
                    proof {
                        lemma_failure_changes_nothing(
                            before,
                            requests@[index as int],
                            rule,
                            self@,
                            error,
                        );
                    }
                    let out = Err(Failure { replies, error });
                    assert(ran(old(self)@, requests@, rule, self@, out, trace));
                    return out;
                },
            }
            index += 1;
        }
        let out = Ok(replies);
        assert(ran(old(self)@, requests@, rule, self@, out, trace));
        out
    }
}

/// A request that is not carried out leaves the game as it was.
pub proof fn lemma_failure_changes_nothing(
    pre: GameView,
    request: Request,
    rule: spec_fn(PlayerState, Controls, PlayerState) -> bool,
    post: GameView,
    error: Error,
)
    requires
        handled(pre, request, rule, post, Err(error)),
    ensures
        post == pre,
{
}

/// Whether `rule` is a function: a player's next state depends on its
/// state and its decisions alone.
pub open spec fn functional(rule: spec_fn(PlayerState, Controls, PlayerState) -> bool) -> bool {
    forall|player: PlayerState, made: Controls, first: PlayerState, second: PlayerState|
        #[trigger] rule(player, made, first) && #[trigger] rule(player, made, second) ==> first
            == second
}

/// Loading a snapshot restores the state that was saved, in every field,
/// whatever the game has done since the save.
pub proof fn lemma_load_restores_saved(
    at_save: GameView,
    frame: i32,
    snapshot: Snapshot,
    at_load: GameView,
    after: GameView,
    out: Result<(), Error>,
)
    requires
        at_save.wf(),
        at_load.config == at_save.config,
        saved(at_save, frame, Ok(snapshot)),
        loaded(at_load, snapshot.buffer@, after, out),
    ensures
        out is Ok,
        after.state == at_save.state,
        after.state.frame == frame,
        after.last_checksum == at_load.last_checksum,
        after.periodic_checksum == at_load.periodic_checksum,
{
    lemma_snapshot_round_trip(at_save.state, Seq::empty());
    assert(snapshot_bytes(at_save.state) + Seq::<u8>::empty() =~= snapshot_bytes(at_save.state));
}

/// The checksum that travels with a snapshot is the one that an advance
/// records for the same state.
pub proof fn lemma_snapshot_checksum_is_record(pre: GameView, frame: i32, snapshot: Snapshot)
    requires
        saved(pre, frame, Ok(snapshot)),
    ensures
        (snapshot.frame, snapshot.checksum) == record_of(pre.state),
{
    lemma_checksum_halves(snapshot_bytes(pre.state));
}

/// Two advances from the same game with the same inputs end in the same
/// game: the same state, hence the same snapshot bytes, and the same
/// checksum records.  This holds for every rule that is a function.
pub proof fn lemma_advance_deterministic(
    pre: GameView,
    inputs: Seq<InputFrame>,
    rule: spec_fn(PlayerState, Controls, PlayerState) -> bool,
    first: GameView,
    second: GameView,
)
    requires
        functional(rule),
        advanced(pre, inputs, rule, first),
        advanced(pre, inputs, rule, second),
    ensures
        first == second,
        snapshot_bytes(first.state) == snapshot_bytes(second.state),
        first.last_checksum == second.last_checksum,
        first.periodic_checksum == second.periodic_checksum,
{
    assert forall|i: int| 0 <= i < pre.state.players() implies first.state.player(i)
        == second.state.player(i) by {
        let old_player = pre.state.player(i);
        let made = decisions(inputs, i);
        assert(rule(old_player, made, first.state.player(i)));
        assert(rule(old_player, made, second.state.player(i)));
    }
    assert forall|i: int| 0 <= i < pre.state.players() implies first.state.positions[i]
        == second.state.positions[i] && first.state.velocities[i] == second.state.velocities[i]
        && first.state.rotations[i] == second.state.rotations[i] by {
        assert(first.state.player(i) == second.state.player(i));
    }
    assert(first.state.positions =~= second.state.positions);
    assert(first.state.velocities =~= second.state.velocities);
    assert(first.state.rotations =~= second.state.rotations);
}

/// A request that is carried out has one outcome: two games that it can
/// leave are the same game.  This holds for every rule that is a function.
pub proof fn lemma_handled_deterministic(
    pre: GameView,
    request: Request,
    rule: spec_fn(PlayerState, Controls, PlayerState) -> bool,
    first: GameView,
    first_reply: Reply,
    second: GameView,
    second_reply: Reply,
)
    requires
        functional(rule),
        handled(pre, request, rule, first, Ok(first_reply)),
        handled(pre, request, rule, second, Ok(second_reply)),
    ensures
        first == second,
{
    match request {
        Request::Advance { inputs } => {
            lemma_advance_deterministic(pre, inputs@, rule, first, second);
        },
        Request::Load { buffer } => {},
        Request::Save { frame } => {},
    }
}

/// Two runs of the same requests from the same game agree on the game
/// after each request that both have carried out.  This holds for every
/// rule that is a function.
pub proof fn lemma_course_deterministic(
    first: Seq<GameView>,
    first_replies: Seq<Reply>,
    second: Seq<GameView>,
    second_replies: Seq<Reply>,
    requests: Seq<Request>,
    rule: spec_fn(PlayerState, Controls, PlayerState) -> bool,
    done: int,
)
    requires
        functional(rule),
        course(first, requests, rule, first_replies),
        course(second, requests, rule, second_replies),
        first.first() == second.first(),
        0 <= done <= first_replies.len(),
        done <= second_replies.len(),
    ensures
        first[done] == second[done],
    decreases done,
{
    if done > 0 {
        let last = done - 1;
        lemma_course_deterministic(
            first,
            first_replies,
            second,
            second_replies,
            requests,
            rule,
            last,
        );
        let from = first[last];
        assert(handled(from, requests[last], rule, first[last + 1], Ok(first_replies[last])));
        assert(second[last] == from);
        assert(handled(from, requests[last], rule, second[last + 1], Ok(second_replies[last])));
        lemma_handled_deterministic(
            from,
            requests[last],
            rule,
            first[last + 1],
            first_replies[last],
            second[last + 1],
            second_replies[last],
        );
    }
}

/// The periodic record changes only on a frame that is a multiple of the
/// period: an advance to such a frame sets it to the record of the new
/// state, and every other advance leaves it as it was.  The record of the
/// last checksum follows every advance.
pub proof fn lemma_periodic_record(
    pre: GameView,
    inputs: Seq<InputFrame>,
    rule: spec_fn(PlayerState, Controls, PlayerState) -> bool,
    post: GameView,
)
    requires
        advanced(pre, inputs, rule, post),
    ensures
        post.last_checksum.0 == post.state.frame,
        post.state.frame as int % pre.config.checksum_period as int != 0
            ==> post.periodic_checksum == pre.periodic_checksum,
        post.state.frame as int % pre.config.checksum_period as int == 0
            ==> post.periodic_checksum == post.last_checksum,
{
}

/// Saving and loading leave both checksum records as they were.
pub proof fn lemma_records_only_move_on_advance(
    pre: GameView,
    request: Request,
    rule: spec_fn(PlayerState, Controls, PlayerState) -> bool,
    post: GameView,
    out: Result<Reply, Error>,
)
    requires
        handled(pre, request, rule, post, out),
        !(request is Advance),
    ensures
        post.last_checksum == pre.last_checksum,
        post.periodic_checksum == pre.periodic_checksum,
{
}

/// A player whose input frame carries no input turns left and does not
/// thrust, and its frame never keeps the game from advancing.
pub proof fn lemma_absent_player_spins(inputs: Seq<InputFrame>, index: int)
    requires
        0 <= index < inputs.len(),
        inputs[index].frame == NULL_FRAME,
    ensures
        resolved(inputs[index]) is Some,
        decisions(inputs, index) == (Controls { thrust: Thrust::Coast, turn: Turn::Left }),
{
    lemma_fallback_spins(inputs[index]);
}

/// Whatever the rule promises of every next state holds of every player
/// after an advance.
pub proof fn lemma_rule_promise_kept(
    pre: GameView,
    inputs: Seq<InputFrame>,
    rule: spec_fn(PlayerState, Controls, PlayerState) -> bool,
    post: GameView,
    promise: spec_fn(PlayerState) -> bool,
)
    requires
        advanced(pre, inputs, rule, post),
        forall|player: PlayerState, made: Controls, next: PlayerState|
            #[trigger] rule(player, made, next) ==> promise(next),
    ensures
        forall|i: int| 0 <= i < post.state.players() ==> promise(#[trigger] post.state.player(i)),
{
    assert forall|i: int| 0 <= i < post.state.players() implies promise(
        #[trigger] post.state.player(i),
    ) by {
        assert(rule(pre.state.player(i), decisions(inputs, i), post.state.player(i)));
    }
}

} // verus!
