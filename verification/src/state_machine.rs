use vstd::prelude::*;

verus! {

/// The top-level control state of a game.
///
/// `Setup` loads assets, `Start` resets and rebuilds the board, `Run`
/// awaits player input, `Over` shows the lost game. There is no terminal
/// state: `Over` is left through a difficulty change, which starts a new
/// game.
#[derive(Clone, Copy, Debug, PartialEq, Eq, Hash, Structural)]
pub enum GameState {
    Setup,
    Start,
    Run,
    Over,
}

/// The triggers that can move the control state.
///
/// `AssetsReady` is the outside loader's signal; `BoardReady` fires once
/// the board rebuild of a `Start` entry is complete; `LosingClick` fires
/// when a primary click detonates a tile; `DifficultyChange` follows a
/// difficulty selection.
#[derive(Clone, Copy, Debug, PartialEq, Eq, Structural)]
pub enum GameEvent {
    AssetsReady,
    BoardReady,
    LosingClick,
    DifficultyChange,
}

impl GameState {
    /// The transition function. An event that a state does not react to
    /// leaves it where it is; that is a no-op, not an error.
    pub open spec fn spec_next(self, event: GameEvent) -> GameState {
        match (self, event) {
            (GameState::Setup, GameEvent::AssetsReady) => GameState::Start,
            (GameState::Start, GameEvent::BoardReady) => GameState::Run,
            (GameState::Run, GameEvent::LosingClick) => GameState::Over,
            (GameState::Run, GameEvent::DifficultyChange) => GameState::Start,
            (GameState::Over, GameEvent::DifficultyChange) => GameState::Start,
            _ => self,
        }
    }

    pub fn next(self, event: GameEvent) -> (r: GameState)
        ensures
            r == self.spec_next(event),
    {
        match (self, event) {
            (GameState::Setup, GameEvent::AssetsReady) => GameState::Start,
            (GameState::Start, GameEvent::BoardReady) => GameState::Run,
            (GameState::Run, GameEvent::LosingClick) => GameState::Over,
            (GameState::Run, GameEvent::DifficultyChange) => GameState::Start,
            (GameState::Over, GameEvent::DifficultyChange) => GameState::Start,
            (s, _) => s,
        }
    }
}

/// Each state moves only on its own triggers: `Setup` advances only on
/// `AssetsReady`, `Start` only on `BoardReady`, `Run` only on a losing
/// click or a difficulty change, and `Over` only on a difficulty change —
/// and each of those triggers does advance its state.
pub proof fn lemma_transition_triggers(event: GameEvent)
    ensures
        GameState::Setup.spec_next(event) != GameState::Setup ==> event is AssetsReady,
        GameState::Start.spec_next(event) != GameState::Start ==> event is BoardReady,
        GameState::Run.spec_next(event) != GameState::Run ==> (event is LosingClick
            || event is DifficultyChange),
        GameState::Over.spec_next(event) != GameState::Over ==> event is DifficultyChange,
        GameState::Setup.spec_next(GameEvent::AssetsReady) == GameState::Start,
        GameState::Start.spec_next(GameEvent::BoardReady) == GameState::Run,
        GameState::Run.spec_next(GameEvent::LosingClick) == GameState::Over,
        GameState::Run.spec_next(GameEvent::DifficultyChange) == GameState::Start,
        GameState::Over.spec_next(GameEvent::DifficultyChange) == GameState::Start,
{
}

} // verus!
