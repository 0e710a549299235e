//! The decisions of a participant's session with the game server: given each
//! snapshot the server reports, whether to join, pass, play, record the
//! snapshot, stop, or wait. The caller performs the action and reports back
//! the ones that succeeded.
use vstd::prelude::*;
use crate::game_status::{GameInstanceState, GameStatus, HeartsGameInstanceState, RoundState};

verus! {

/// What the session should do next.
#[derive(Clone, Copy, Debug, PartialEq, Eq, Structural)]
pub enum Action {
    /// Nothing to do this time.
    Wait,
    /// Join the open game.
    Join,
    /// The game is over and no further game is wanted.
    Stop,
    /// Record the snapshot, then pass cards for this round.
    Pass { round: u32 },
    /// Record the snapshot, then play a card into this trick of this round.
    Play { round: u32, deal: u32 },
    /// Record the snapshot of a finished round.
    Record { round: u32 },
}

/// What the session remembers of the current game.
#[derive(Debug)]
pub struct Session {
    /// Join a new game once a game is over.
    pub repeat: bool,
    /// The session goes on.
    pub running: bool,
    /// The game the memory below is about.
    pub game_id: Option<String>,
    /// This participant has joined the game.
    pub joined: bool,
    /// The rounds in which cards were passed.
    pub passed: Vec<u32>,
    /// The (round, trick) pairs in which a card was played.
    pub played: Vec<(u32, u32)>,
}

/// The trick number of the trick in progress, or 0 when there is none.
pub open spec fn deal_number(st: GameStatus) -> u32 {
    match st.in_progress_deal {
        Some(d) => d.deal_number,
        None => 0,
    }
}

/// The action for snapshot `st`, given what was already done in this game.
pub open spec fn decide(
    repeat: bool,
    joined: bool,
    passed: Seq<u32>,
    played: Seq<(u32, u32)>,
    st: GameStatus,
) -> Action {
    match st.current_game_state {
        GameInstanceState::Open => if joined {
            Action::Wait
        } else {
            Action::Join
        },
        GameInstanceState::Finished | GameInstanceState::Cancelled => if repeat {
            Action::Wait
        } else {
            Action::Stop
        },
        GameInstanceState::Running => if st.current_round_id == 0 {
            Action::Wait
        } else {
            match st.current_round_state {
                RoundState::Running => match st.game_state {
                    HeartsGameInstanceState::Passing => if passed.contains(st.current_round_id) {
                        Action::Wait
                    } else {
                        Action::Pass { round: st.current_round_id }
                    },
                    HeartsGameInstanceState::Dealing => if !st.is_my_turn || played.contains(
                        (st.current_round_id, deal_number(st)),
                    ) {
                        Action::Wait
                    } else {
                        Action::Play { round: st.current_round_id, deal: deal_number(st) }
                    },
                    _ => Action::Wait,
                },
                RoundState::Finished => Action::Record { round: st.current_round_id },
                _ => Action::Wait,
            }
        },
        _ => Action::Wait,
    }
}

fn contains_round(v: &Vec<u32>, x: u32) -> (r: bool)
    ensures
        r == v@.contains(x),
{
    let mut i: usize = 0;
    while i < v.len()
        invariant
            i <= v@.len(),
            forall|j: int| 0 <= j < i ==> v@[j] != x,
        decreases v@.len() - i,
    {
        if v[i] == x {
            return true;
        }
        i = i + 1;
    }
    false
}

fn contains_pair(v: &Vec<(u32, u32)>, x: (u32, u32)) -> (r: bool)
    ensures
        r == v@.contains(x),
{
    let mut i: usize = 0;
    while i < v.len()
        invariant
            i <= v@.len(),
            forall|j: int| 0 <= j < i ==> v@[j] != x,
        decreases v@.len() - i,
    {
        if v[i].0 == x.0 && v[i].1 == x.1 {
            return true;
        }
        i = i + 1;
    }
    false
}

impl Session {
    pub fn new(repeat: bool) -> (r: Session)
        ensures
            r.repeat == repeat,
            r.running,
            r.game_id is None,
            !r.joined,
            r.passed@.len() == 0,
            r.played@.len() == 0,
    {
        Session { repeat, running: true, game_id: None, joined: false, passed: Vec::new(), played: Vec::new() }
    }

    /// Takes in a snapshot and says what to do. A snapshot of another game
    /// than the one remembered starts the memory afresh.
    pub fn observe(&mut self, st: &GameStatus) -> (r: Action)
        ensures
            ({
                let fresh = !(old(self).game_id matches Some(g) && g@ == st.current_game_id@);
                &&& final(self).game_id matches Some(g) && g@ == st.current_game_id@
                &&& final(self).joined == (!fresh && old(self).joined)
                &&& final(self).passed@ == if fresh {
                    Seq::<u32>::empty()
                } else {
                    old(self).passed@
                }
                &&& final(self).played@ == if fresh {
                    Seq::<(u32, u32)>::empty()
                } else {
                    old(self).played@
                }
            }),
            r == decide(final(self).repeat, final(self).joined, final(self).passed@, final(self).played@, *st),
            final(self).repeat == old(self).repeat,
            final(self).running == (old(self).running && r != Action::Stop),
    {
        let same = match &self.game_id {
            Some(g) => *g == st.current_game_id,
            None => false,
        };
        if !same {
            self.joined = false;
            self.passed = Vec::new();
            self.played = Vec::new();
            self.game_id = Some(st.current_game_id.clone());
        }
        let round = st.current_round_id;
        let r = match st.current_game_state {
            GameInstanceState::Open => if self.joined {
                Action::Wait
            } else {
                Action::Join
            },
            GameInstanceState::Finished | GameInstanceState::Cancelled => if self.repeat {
                Action::Wait
            } else {
                Action::Stop
            },
            GameInstanceState::Running => if round == 0 {
                Action::Wait
            } else {
                match st.current_round_state {
                    RoundState::Running => match st.game_state {
                        HeartsGameInstanceState::Passing => if contains_round(&self.passed, round) {
                            Action::Wait
                        } else {
                            Action::Pass { round }
                        },
                        HeartsGameInstanceState::Dealing => {
                            let deal = match &st.in_progress_deal {
                                Some(d) => d.deal_number,
                                None => 0,
                            };
                            if !st.is_my_turn || contains_pair(&self.played, (round, deal)) {
                                Action::Wait
                            } else {
                                Action::Play { round, deal }
                            }
                        },
                        _ => Action::Wait,
                    },
                    RoundState::Finished => Action::Record { round },
                    _ => Action::Wait,
                }
            },
            _ => Action::Wait,
        };
        if r == Action::Stop {
            self.running = false;
        }
        r
    }

    /// Remembers that `action` was carried out successfully.
    pub fn completed(&mut self, action: Action)
        ensures
            final(self).joined == (old(self).joined || action == Action::Join),
            final(self).passed@ == match action {
                Action::Pass { round } => old(self).passed@.push(round),
                _ => old(self).passed@,
            },
            final(self).played@ == match action {
                Action::Play { round, deal } => old(self).played@.push((round, deal)),
                _ => old(self).played@,
            },
            final(self).game_id == old(self).game_id,
            final(self).running == old(self).running,
            final(self).repeat == old(self).repeat,
    {
        match action {
            Action::Join => self.joined = true,
            Action::Pass { round } => self.passed.push(round),
            Action::Play { round, deal } => self.played.push((round, deal)),
            _ => {},
        }
    }
}

/// Once an action has been carried out, the same snapshot asks for it no more.
pub proof fn lemma_completed_not_repeated(
    repeat: bool,
    joined: bool,
    passed: Seq<u32>,
    played: Seq<(u32, u32)>,
    st: GameStatus,
)
    ensures
        ({
            let a = decide(repeat, joined, passed, played, st);
            let passed2 = match a {
                Action::Pass { round } => passed.push(round),
                _ => passed,
            };
            let played2 = match a {
                Action::Play { round, deal } => played.push((round, deal)),
                _ => played,
            };
            let b = decide(repeat, joined || a == Action::Join, passed2, played2, st);
            (a is Join || a is Pass || a is Play) ==> b == Action::Wait
        }),
{
    let a = decide(repeat, joined, passed, played, st);
    match a {
        Action::Pass { round } => {
            assert(passed.push(round)[passed.len() as int] == round);
        },
        Action::Play { round, deal } => {
            assert(played.push((round, deal))[played.len() as int] == (round, deal));
        },
        _ => {},
    }
}

} // verus!
