//! The turn state machine that decides which systems run each tick.
use vstd::prelude::*;

verus! {

#[derive(Clone, Copy, Debug, PartialEq, Eq, Structural)]
pub enum TurnState {
    AwaitingInput,
    PlayerTurn,
    MonsterTurn,
    GamePlay,
    GameOver,
    Victory,
}

/// Milliseconds between two monster turns in the real-time variant.
pub const TURN_TIME_MS: u32 = 200;

pub open spec fn is_terminal(s: TurnState) -> bool {
    s == TurnState::GameOver || s == TurnState::Victory
}

/// The normal step after the systems of `s` have run.
pub open spec fn advance_spec(s: TurnState) -> TurnState {
    match s {
        TurnState::PlayerTurn => TurnState::MonsterTurn,
        TurnState::MonsterTurn => TurnState::AwaitingInput,
        _ => s,
    }
}

/// The state once the player has recorded an action.
pub open spec fn on_player_intent_spec(s: TurnState) -> TurnState {
    match s {
        TurnState::AwaitingInput => TurnState::PlayerTurn,
        _ => s,
    }
}

/// The end-of-turn check: the terminal states stay; otherwise reaching the
/// objective wins, else health below one loses, else the machine advances.
pub open spec fn end_of_turn_spec(s: TurnState, player_hp: i32, at_objective: bool) -> TurnState {
    if is_terminal(s) {
        s
    } else if at_objective {
        TurnState::Victory
    } else if player_hp < 1 {
        TurnState::GameOver
    } else {
        advance_spec(s)
    }
}

impl TurnState {
    pub fn advance(self) -> (r: TurnState)
        ensures
            r == advance_spec(self),
    {
        match self {
            TurnState::PlayerTurn => TurnState::MonsterTurn,
            TurnState::MonsterTurn => TurnState::AwaitingInput,
            _ => self,
        }
    }

    pub fn on_player_intent(self) -> (r: TurnState)
        ensures
            r == on_player_intent_spec(self),
    {
        match self {
            TurnState::AwaitingInput => TurnState::PlayerTurn,
            _ => self,
        }
    }

    pub fn end_of_turn(self, player_hp: i32, at_objective: bool) -> (r: TurnState)
        ensures
            r == end_of_turn_spec(self, player_hp, at_objective),
    {
        match self {
            TurnState::GameOver | TurnState::Victory => self,
            _ => {
                if at_objective {
                    TurnState::Victory
                } else if player_hp < 1 {
                    TurnState::GameOver
                } else {
                    self.advance()
                }
            },
        }
    }

    /// The state a new session starts in.
    pub fn reset(realtime: bool) -> (r: TurnState)
        ensures
            r == (if realtime { TurnState::GamePlay } else { TurnState::AwaitingInput }),
    {
        if realtime {
            TurnState::GamePlay
        } else {
            TurnState::AwaitingInput
        }
    }
}

/// Only a recorded player action leads from `AwaitingInput` to `PlayerTurn`:
/// neither the normal step nor the end-of-turn check does. From
/// `MonsterTurn`, unless the player has won or lost, the next state is
/// `AwaitingInput`.
pub proof fn lemma_turn_rules(player_hp: i32, at_objective: bool)
    ensures
        on_player_intent_spec(TurnState::AwaitingInput) == TurnState::PlayerTurn,
        advance_spec(TurnState::AwaitingInput) != TurnState::PlayerTurn,
        end_of_turn_spec(TurnState::AwaitingInput, player_hp, at_objective) != TurnState::PlayerTurn,
        player_hp >= 1 && !at_objective ==> end_of_turn_spec(TurnState::MonsterTurn, player_hp, at_objective)
            == TurnState::AwaitingInput,
        advance_spec(TurnState::MonsterTurn) == TurnState::AwaitingInput,
{
}

/// The terminal states stay until a session is reset.
pub proof fn lemma_terminal_stays(s: TurnState, player_hp: i32, at_objective: bool)
    requires
        is_terminal(s),
    ensures
        advance_spec(s) == s,
        on_player_intent_spec(s) == s,
        end_of_turn_spec(s, player_hp, at_objective) == s,
{
}

/// The systems one tick runs.
#[derive(Clone, Copy, Debug, PartialEq, Eq, Structural)]
pub enum TickPlan {
    /// Read the player's input.
    Input,
    /// Run the player's systems.
    Player,
    /// Run the monsters' systems.
    Monsters,
    /// Run the real-time systems, and the monsters' too when `monsters`.
    Realtime { monsters: bool },
    /// Show the defeat screen.
    ShowGameOver,
    /// Show the victory screen.
    ShowVictory,
}

pub open spec fn plan_tick_spec(s: TurnState, elapsed_ms: u32) -> TickPlan {
    match s {
        TurnState::AwaitingInput => TickPlan::Input,
        TurnState::PlayerTurn => TickPlan::Player,
        TurnState::MonsterTurn => TickPlan::Monsters,
        TurnState::GamePlay => TickPlan::Realtime { monsters: elapsed_ms > TURN_TIME_MS },
        TurnState::GameOver => TickPlan::ShowGameOver,
        TurnState::Victory => TickPlan::ShowVictory,
    }
}

/// What to run for state `s` when `elapsed_ms` have passed since the last
/// monster turn.
pub fn plan_tick(s: TurnState, elapsed_ms: u32) -> (r: TickPlan)
    ensures
        r == plan_tick_spec(s, elapsed_ms),
{
    match s {
        TurnState::AwaitingInput => TickPlan::Input,
        TurnState::PlayerTurn => TickPlan::Player,
        TurnState::MonsterTurn => TickPlan::Monsters,
        TurnState::GamePlay => TickPlan::Realtime { monsters: elapsed_ms > TURN_TIME_MS },
        TurnState::GameOver => TickPlan::ShowGameOver,
        TurnState::Victory => TickPlan::ShowVictory,
    }
}

} // verus!
