//! The game as a whole: the phase it is in, the settings, and the round that
//! is being played.

use crate::canvas::{shows, Rgba};
use crate::heading::Heading;
use crate::input::{Action, Input};
use crate::mapper::WorldPoint;
use crate::round::{
    move_players_a_bit, round_over, setup_in_game, setup_round_over, winner_of, Round, RoundModel,
    TickDraws,
};
use crate::settings::{valid_player_count, GameSettings, DEFAULT_PLAYERS, MAX_PLAYERS, MIN_PLAYERS};
use vstd::prelude::*;

verus! {

/// The phase of the game.
#[derive(Clone, Copy, Debug, PartialEq, Eq, Structural)]
pub enum AppState {
    /// Nothing is being played.
    MainMenu,
    /// A round is set up and waits for the players to be ready.
    RoundStart,
    /// A round is being played.
    RoundActive,
    /// A round has ended and its result is shown.
    RoundOver,
}

/// What can move the game from one phase to another.
#[derive(Clone, Copy, Debug, PartialEq, Eq, Structural)]
pub enum Event {
    /// The players confirm.
    Confirm,
    /// The players cancel.
    Cancel,
    /// At most one player of the round is still alive.
    RoundDecided,
}

/// What has to be done to the round when the phase changes.
#[derive(Clone, Copy, Debug, PartialEq, Eq, Structural)]
pub enum SideEffect {
    /// The round stays as it is.
    Nothing,
    /// A round is set up.
    SetUpRound,
    /// The round is released.
    TearDownRound,
    /// The round is released and a new one is set up.
    RestartRound,
    /// The winner of the round is determined.
    DecideWinner,
}

/// The phase that follows `state` upon `event`, and what has to be done to
/// the round. An event that means nothing in a phase leaves the phase alone.
pub open spec fn transition_of(state: AppState, event: Event) -> (AppState, SideEffect) {
    match (state, event) {
        (AppState::MainMenu, Event::Confirm) => (AppState::RoundStart, SideEffect::SetUpRound),
        (AppState::RoundStart, Event::Confirm) => (AppState::RoundActive, SideEffect::Nothing),
        (AppState::RoundStart, Event::Cancel) => (AppState::MainMenu, SideEffect::TearDownRound),
        (AppState::RoundActive, Event::RoundDecided) => (
            AppState::RoundOver,
            SideEffect::DecideWinner,
        ),
        (AppState::RoundActive, Event::Cancel) => (AppState::MainMenu, SideEffect::TearDownRound),
        (AppState::RoundOver, Event::Confirm) => (AppState::RoundStart, SideEffect::RestartRound),
        (AppState::RoundOver, Event::Cancel) => (AppState::MainMenu, SideEffect::TearDownRound),
        _ => (state, SideEffect::Nothing),
    }
}

/// The event of a tick, if there is one. While a round is played, its end
/// comes before a cancel, and a confirm means nothing. In the other phases a
/// cancel comes before a confirm.
pub open spec fn event_of(state: AppState, confirm: bool, cancel: bool, decided: bool) -> Option<
    Event,
> {
    if state == AppState::RoundActive {
        if decided {
            Some(Event::RoundDecided)
        } else if cancel {
            Some(Event::Cancel)
        } else {
            None
        }
    } else if cancel {
        Some(Event::Cancel)
    } else if confirm {
        Some(Event::Confirm)
    } else {
        None
    }
}

/// A round is declared over only while it is played, and only because it is
/// decided; a round is played only after its start was confirmed; and the
/// round is released exactly when the game returns to the main menu from
/// another phase.
pub proof fn lemma_phases_follow_in_order(state: AppState, event: Event)
    ensures
        transition_of(state, event).0 == AppState::RoundOver && state != AppState::RoundOver ==> state
            == AppState::RoundActive && event == Event::RoundDecided,
        transition_of(state, event).0 == AppState::RoundActive && state != AppState::RoundActive
            ==> state == AppState::RoundStart && event == Event::Confirm,
        transition_of(state, event).0 == AppState::RoundStart && state != AppState::RoundStart ==> (
        state == AppState::MainMenu || state == AppState::RoundOver) && event == Event::Confirm,
        transition_of(state, event).1 == SideEffect::TearDownRound <==> transition_of(
            state,
            event,
        ).0 == AppState::MainMenu && state != AppState::MainMenu,
        transition_of(state, event).1 == SideEffect::DecideWinner <==> transition_of(
            state,
            event,
        ).0 == AppState::RoundOver && state != AppState::RoundOver,
{
}

/// The phase that follows `state` upon `event`, and what has to be done to
/// the round.
pub fn transition(state: AppState, event: Event) -> (out: (AppState, SideEffect))
    ensures
        out == transition_of(state, event),
{
    match (state, event) {
        (AppState::MainMenu, Event::Confirm) => (AppState::RoundStart, SideEffect::SetUpRound),
        (AppState::RoundStart, Event::Confirm) => (AppState::RoundActive, SideEffect::Nothing),
        (AppState::RoundStart, Event::Cancel) => (AppState::MainMenu, SideEffect::TearDownRound),
        (AppState::RoundActive, Event::RoundDecided) => (
            AppState::RoundOver,
            SideEffect::DecideWinner,
        ),
        (AppState::RoundActive, Event::Cancel) => (AppState::MainMenu, SideEffect::TearDownRound),
        (AppState::RoundOver, Event::Confirm) => (AppState::RoundStart, SideEffect::RestartRound),
        (AppState::RoundOver, Event::Cancel) => (AppState::MainMenu, SideEffect::TearDownRound),
        _ => (state, SideEffect::Nothing),
    }
}

/// The event of a tick, if there is one.
pub fn tick_event(state: AppState, confirm: bool, cancel: bool, decided: bool) -> (out: Option<
    Event,
>)
    ensures
        out == event_of(state, confirm, cancel, decided),
{
    if state == AppState::RoundActive {
        if decided {
            Some(Event::RoundDecided)
        } else if cancel {
            Some(Event::Cancel)
        } else {
            None
        }
    } else if cancel {
        Some(Event::Cancel)
    } else if confirm {
        Some(Event::Confirm)
    } else {
        None
    }
}

/// The game.
pub struct Game {
    state: AppState,
    settings: GameSettings,
    round: Option<Round>,
    winner: Option<String>,
}

/// The model of a [`Game`].
pub struct GameModel {
    pub state: AppState,
    pub number_of_players: int,
    pub round: Option<RoundModel>,
    pub winner: Option<Seq<char>>,
}

/// What a game shows of one player.
pub struct PlayerState {
    pub name: String,
    pub color: Rgba,
    pub position: WorldPoint,
    pub heading: Heading,
    pub radius: u64,
    pub alive: bool,
}

impl View for Game {
    type V = GameModel;

    closed spec fn view(&self) -> GameModel {
        GameModel {
            state: self.state,
            number_of_players: self.settings@,
            round: match self.round {
                Some(r) => Some(r@),
                None => None,
            },
            winner: match self.winner {
                Some(w) => Some(w@),
                None => None,
            },
        }
    }
}

/// The number of players after the actions that change it: first one more if
/// asked for and possible, then one fewer if asked for and possible.
pub open spec fn adjusted_player_count(n: int, pressed: Seq<Action>) -> int {
    let more = if pressed.contains(Action::IncreasePlayerCount) && n < MAX_PLAYERS {
        n + 1
    } else {
        n
    };
    if pressed.contains(Action::DecreasePlayerCount) && more > MIN_PLAYERS {
        more - 1
    } else {
        more
    }
}

/// A round as the game starts it for `n` players: set up, and with the first
/// trail segment of every player painted.
pub open spec fn is_new_round(round: RoundModel, n: int) -> bool {
    exists|base: RoundModel| base.is_set_up(n) && round == #[trigger] base.with_stubs()
}

impl GameModel {
    /// A round exists in every phase but the main menu, and a winner is known
    /// only once a round is over.
    pub open spec fn wf(self) -> bool {
        &&& valid_player_count(self.number_of_players)
        &&& (self.state == AppState::MainMenu <==> self.round.is_none())
        &&& (self.winner.is_some() ==> self.state == AppState::RoundOver)
    }

    /// The round after the tick: played on by one tick while the game is in
    /// the phase of an active round, untouched otherwise.
    pub open spec fn round_ticked(self, held: Seq<Action>, elapsed: nat, draws: TickDraws) -> Option<
        RoundModel,
    > {
        match self.round {
            Some(r) => if self.state == AppState::RoundActive {
                Some(r.ticked(held, elapsed, draws))
            } else {
                Some(r)
            },
            None => None,
        }
    }

    /// Whether the tick decides the round.
    pub open spec fn decided(self, held: Seq<Action>, elapsed: nat, draws: TickDraws) -> bool {
        self.state == AppState::RoundActive && match self.round_ticked(held, elapsed, draws) {
            Some(r) => round_over(r.players),
            None => false,
        }
    }

    /// What the tick does to the round as a whole.
    pub open spec fn tick_effect(
        self,
        held: Seq<Action>,
        pressed: Seq<Action>,
        elapsed: nat,
        draws: TickDraws,
    ) -> SideEffect {
        match event_of(
            self.state,
            pressed.contains(Action::Confirm),
            pressed.contains(Action::Cancel),
            self.decided(held, elapsed, draws),
        ) {
            Some(e) => transition_of(self.state, e).1,
            None => SideEffect::Nothing,
        }
    }

    /// Whether the tick sets up a new round.
    pub open spec fn sets_up_round(
        self,
        held: Seq<Action>,
        pressed: Seq<Action>,
        elapsed: nat,
        draws: TickDraws,
    ) -> bool {
        self.tick_effect(held, pressed, elapsed, draws) == SideEffect::SetUpRound
            || self.tick_effect(held, pressed, elapsed, draws) == SideEffect::RestartRound
    }

    /// The game after a tick in which `draws` is what chance decided for the
    /// round being played, and `new_round` is the round that is set up if one
    /// is.
    pub open spec fn ticked(
        self,
        held: Seq<Action>,
        pressed: Seq<Action>,
        elapsed: nat,
        draws: TickDraws,
        new_round: RoundModel,
    ) -> GameModel {
        let number_of_players = if self.state == AppState::MainMenu {
            adjusted_player_count(self.number_of_players, pressed)
        } else {
            self.number_of_players
        };
        let round = self.round_ticked(held, elapsed, draws);
        let event = event_of(
            self.state,
            pressed.contains(Action::Confirm),
            pressed.contains(Action::Cancel),
            self.decided(held, elapsed, draws),
        );
        match event {
            None => GameModel { number_of_players, round, ..self },
            Some(e) => {
                let (state, effect) = transition_of(self.state, e);
                match effect {
                    SideEffect::Nothing => GameModel { state, number_of_players, round, ..self },
                    SideEffect::SetUpRound | SideEffect::RestartRound => GameModel {
                        state,
                        number_of_players,
                        round: Some(new_round),
                        winner: None,
                    },
                    SideEffect::TearDownRound => GameModel {
                        state,
                        number_of_players,
                        round: None,
                        winner: None,
                    },
                    SideEffect::DecideWinner => GameModel {
                        state,
                        number_of_players,
                        round,
                        winner: match round {
                            Some(r) => winner_of(r.players),
                            None => None,
                        },
                    },
                }
            },
        }
    }
}

/// A tick that decides the round ends it: the game shows the round as over,
/// with the round as the tick left it and the winner that the round has.
pub proof fn lemma_decided_round_is_over(
    game: GameModel,
    held: Seq<Action>,
    pressed: Seq<Action>,
    elapsed: nat,
    draws: TickDraws,
    new_round: RoundModel,
)
    requires
        game.state == AppState::RoundActive,
        game.round.is_some(),
        round_over(game.round.unwrap().ticked(held, elapsed, draws).players),
    ensures
        game.ticked(held, pressed, elapsed, draws, new_round).state == AppState::RoundOver,
        game.ticked(held, pressed, elapsed, draws, new_round).round == Some(
            game.round.unwrap().ticked(held, elapsed, draws),
        ),
        game.ticked(held, pressed, elapsed, draws, new_round).winner == winner_of(
            game.round.unwrap().ticked(held, elapsed, draws).players,
        ),
{
}

/// While a round is played and not decided, the game stays with it unless
/// the players cancel.
pub proof fn lemma_undecided_round_goes_on(
    game: GameModel,
    held: Seq<Action>,
    pressed: Seq<Action>,
    elapsed: nat,
    draws: TickDraws,
    new_round: RoundModel,
)
    requires
        game.state == AppState::RoundActive,
        game.round.is_some(),
        !round_over(game.round.unwrap().ticked(held, elapsed, draws).players),
        !pressed.contains(Action::Cancel),
    ensures
        game.ticked(held, pressed, elapsed, draws, new_round).state == AppState::RoundActive,
        game.ticked(held, pressed, elapsed, draws, new_round).round == Some(
            game.round.unwrap().ticked(held, elapsed, draws),
        ),
{
}

/// Every tick keeps the game well formed.
pub proof fn lemma_tick_keeps_game_well_formed(
    game: GameModel,
    held: Seq<Action>,
    pressed: Seq<Action>,
    elapsed: nat,
    draws: TickDraws,
    new_round: RoundModel,
)
    requires
        game.wf(),
    ensures
        game.ticked(held, pressed, elapsed, draws, new_round).wf(),
{
}

impl Game {
    /// Whether the game is well formed. A new game is, and no function of the
    /// game breaks it.
    pub open spec fn wf(&self) -> bool {
        self@.wf()
    }

    /// A game in the main menu, set for two players.
    pub fn new() -> (game: Game)
        ensures
            game.wf(),
            game@ == (GameModel {
                state: AppState::MainMenu,
                number_of_players: DEFAULT_PLAYERS as int,
                round: None,
                winner: None,
            }),
    {
        Game {
            state: AppState::MainMenu,
            settings: GameSettings::default(),
            round: None,
            winner: None,
        }
    }

    /// The phase the game is in.
    pub fn current_phase(&self) -> (state: AppState)
        ensures
            state == self@.state,
    {
        self.state
    }

    /// The number of players that the next round will have.
    pub fn configured_player_count(&self) -> (n: u8)
        ensures
            n == self@.number_of_players,
    {
        self.settings.number_of_players()
    }

    /// Sets the number of players of the next round. A number outside the
    /// range from [`MIN_PLAYERS`] to [`MAX_PLAYERS`] is rejected and changes
    /// nothing.
    pub fn set_configured_player_count(&mut self, n: u8) -> (accepted: bool)
        ensures
            old(self).wf() ==> final(self).wf(),
            accepted == valid_player_count(n as int),
            final(self)@ == (GameModel {
                number_of_players: if accepted {
                    n as int
                } else {
                    old(self)@.number_of_players
                },
                ..old(self)@
            }),
    {
        self.settings.set_number_of_players(n)
    }

    /// The name of the winner, once a round is over and one player is left.
    pub fn winner(&self) -> (name: Option<String>)
        ensures
            match name {
                Some(n) => self@.winner == Some(n@),
                None => self@.winner.is_none(),
            },
    {
        match &self.winner {
            Some(n) => Some(n.clone()),
            None => None,
        }
    }

    /// The round that is set up, played or just over.
    pub fn round(&self) -> (round: Option<&Round>)
        ensures
            match round {
                Some(r) => self@.round == Some(r@),
                None => self@.round.is_none(),
            },
    {
        match &self.round {
            Some(r) => Some(r),
            None => None,
        }
    }

    /// The bytes of the canvas for display, while there is a round.
    pub fn canvas_snapshot(&self) -> (bytes: Option<&Vec<u8>>)
        ensures
            bytes.is_some() == self@.round.is_some(),
            match (bytes, self@.round) {
                (Some(b), Some(r)) => shows(b@, r.canvas),
                _ => true,
            },
    {
        match &self.round {
            Some(r) => Some(r.texture.as_bytes()),
            None => None,
        }
    }

    /// What to show of every player of the round, in the order of their
    /// seats; nothing while there is no round.
    pub fn player_states(&self) -> (states: Vec<PlayerState>)
        ensures
            match self@.round {
                Some(r) => states@.len() == r.players.len() && forall|i: int|
                    0 <= i < states@.len() ==> {
                        &&& (#[trigger] states@[i]).name@ == r.players[i].name
                        &&& states@[i].color == r.players[i].color
                        &&& states@[i].position@ == r.players[i].position
                        &&& states@[i].heading@ == r.players[i].dir
                        &&& states@[i].radius == r.players[i].radius()
                        &&& states@[i].alive == r.players[i].alive
                    },
                None => states@.len() == 0,
            },
    {
        let mut states: Vec<PlayerState> = Vec::new();
        match &self.round {
            Some(round) => {
                let mut i: usize = 0;
                while i < round.players.len()
                    invariant
                        i <= round.players@.len(),
                        states@.len() == i,
                        forall|k: int|
                            0 <= k < i ==> {
                                &&& (#[trigger] states@[k]).name@ == round.players@[k]@.name
                                &&& states@[k].color == round.players@[k]@.color
                                &&& states@[k].position@ == round.players@[k]@.position
                                &&& states@[k].heading@ == round.players@[k]@.dir
                                &&& states@[k].radius == round.players@[k]@.radius()
                                &&& states@[k].alive == round.players@[k]@.alive
                            },
                    decreases round.players@.len() - i,
                {
                    let p = &round.players[i];
                    states.push(
                        PlayerState {
                            name: p.name.clone(),
                            color: p.color,
                            position: p.position,
                            heading: p.dir,
                            radius: p.radius(),
                            alive: p.alive,
                        },
                    );
                    i += 1;
                }
            },
            None => {},
        }
        states
    }

    /// Puts the game at the start of the given round, whatever it was doing.
    pub fn enter_round(&mut self, round: Round)
        ensures
            old(self).wf() ==> final(self).wf(),
            final(self)@ == (GameModel {
                state: AppState::RoundStart,
                round: Some(round@),
                winner: None,
                ..old(self)@
            }),
    {
        self.state = AppState::RoundStart;
        self.round = Some(round);
        self.winner = None;
    }

    /// One tick of the game. In the main menu the number of players can be
    /// changed. While a round is played it moves on by one tick. Then the
    /// phase changes as [`transition_of`] says for the event of the tick.
    pub fn tick(&mut self, input: &Input)
        ensures
            old(self).wf() ==> final(self).wf(),
            exists|draws: TickDraws, new_round: RoundModel|
                {
                    &&& old(self)@.sets_up_round(
                        input.held@,
                        input.just_pressed@,
                        input.elapsed as nat,
                        draws,
                    ) ==> is_new_round(new_round, final(self)@.number_of_players)
                    &&& match old(self)@.round {
                        Some(r) => old(self)@.state == AppState::RoundActive ==> r.draws_fit(
                            input.held@,
                            input.elapsed as nat,
                            draws,
                        ),
                        None => true,
                    }
                    &&& final(self)@ == #[trigger] old(self)@.ticked(
                        input.held@,
                        input.just_pressed@,
                        input.elapsed as nat,
                        draws,
                        new_round,
                    )
                },
    {
        let ghost before = self@;
        let ghost held = input.held@;
        let ghost pressed = input.just_pressed@;
        let ghost elapsed = input.elapsed as nat;
        if self.state == AppState::MainMenu {
            if input.is_action_just_pressed(Action::IncreasePlayerCount) {
                self.settings.increase();
            }
            if input.is_action_just_pressed(Action::DecreasePlayerCount) {
                self.settings.decrease();
            }
        }
        let ghost mut draws: TickDraws = arbitrary();
        let mut decided = false;
        if self.state == AppState::RoundActive {
            match &mut self.round {
                Some(round) => {
                    let ghost r = round@;
                    decided = round.tick(input);
                    proof {
                        draws = choose|d: TickDraws|
                            r.draws_fit(held, elapsed, d) && round@ == #[trigger] r.ticked(
                                held,
                                elapsed,
                                d,
                            );
                    }
                },
                None => {},
            }
        }
        let confirm = input.is_action_just_pressed(Action::Confirm);
        let cancel = input.is_action_just_pressed(Action::Cancel);
        let ghost mut new_round: RoundModel = arbitrary();
        match tick_event(self.state, confirm, cancel, decided) {
            None => {},
            Some(event) => {
                let (state, effect) = transition(self.state, event);
                match effect {
                    SideEffect::Nothing => {},
                    SideEffect::SetUpRound | SideEffect::RestartRound => {
                        let mut round = setup_in_game(&self.settings);
                        let ghost base = round@;
                        move_players_a_bit(&round.players, &mut round.texture);
                        proof {
                            new_round = round@;
                            assert(new_round == base.with_stubs());
                        }
                        self.round = Some(round);
                        self.winner = None;
                    },
                    SideEffect::TearDownRound => {
                        self.round = None;
                        self.winner = None;
                    },
                    SideEffect::DecideWinner => {
                        match &self.round {
                            Some(round) => {
                                self.winner = setup_round_over(&round.players);
                            },
                            None => {},
                        }
                    },
                }
                self.state = state;
            },
        }
        proof {
            assert(self@ == before.ticked(held, pressed, elapsed, draws, new_round));
        }
    }
}

} // verus!
