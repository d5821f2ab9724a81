//! The coarse screen-sequencing state machine: a set of states, each with
//! the list of states it may hand over to, and the current state.
use vstd::prelude::*;

verus! {

#[derive(Debug, Copy, Clone, PartialEq, Structural, Hash, Eq, PartialOrd, Ord)]
pub enum GameState {
    Loading,
    Settings,
    Initial,
    SongChoose,
    SongPlaying,
    Pause,
    PlayResult,
    PlayFail,
    Download,
    ReplayView,
}

/// The transition lists a state machine carries: the first entry for a
/// state decides.
pub open spec fn lookup_paths(s: Seq<(GameState, Vec<GameState>)>, k: GameState) -> Option<
    Seq<GameState>,
>
    decreases s.len(),
{
    if s.len() == 0 {
        None
    } else if s[0].0 == k {
        Some(s[0].1@)
    } else {
        lookup_paths(s.skip(1), k)
    }
}

proof fn lemma_lookup_at(s: Seq<(GameState, Vec<GameState>)>, k: GameState, i: int)
    requires
        0 <= i < s.len(),
        s[i].0 == k,
        forall|t: int| 0 <= t < i ==> (#[trigger] s[t]).0 != k,
    ensures
        lookup_paths(s, k) == Some(s[i].1@),
    decreases i,
{
    if i > 0 {
        lemma_lookup_at(s.skip(1), k, i - 1);
    }
}

proof fn lemma_lookup_none(s: Seq<(GameState, Vec<GameState>)>, k: GameState)
    requires
        forall|t: int| 0 <= t < s.len() ==> (#[trigger] s[t]).0 != k,
    ensures
        lookup_paths(s, k) is None,
    decreases s.len(),
{
    if s.len() > 0 {
        lemma_lookup_none(s.skip(1), k);
    }
}

proof fn lemma_lookup_update(
    s: Seq<(GameState, Vec<GameState>)>,
    i: int,
    pair: (GameState, Vec<GameState>),
    k: GameState,
)
    requires
        0 <= i < s.len(),
        pair.0 == s[i].0,
        k != pair.0,
    ensures
        lookup_paths(s.update(i, pair), k) == lookup_paths(s, k),
    decreases i,
{
    let u = s.update(i, pair);
    if i == 0 {
        assert(u.skip(1) =~= s.skip(1));
    } else {
        if s[0].0 != k {
            assert(u.skip(1) =~= s.skip(1).update(i - 1, pair));
            lemma_lookup_update(s.skip(1), i - 1, pair, k);
        }
    }
}

proof fn lemma_lookup_push(
    s: Seq<(GameState, Vec<GameState>)>,
    pair: (GameState, Vec<GameState>),
    k: GameState,
)
    ensures
        lookup_paths(s.push(pair), k) == (match lookup_paths(s, k) {
            Some(v) => Some(v),
            None => if pair.0 == k {
                Some(pair.1@)
            } else {
                None
            },
        }),
    decreases s.len(),
{
    let u = s.push(pair);
    assert(u.len() == s.len() + 1);
    if s.len() == 0 {
        assert(u[0] == pair);
        assert(u.skip(1) =~= Seq::<(GameState, Vec<GameState>)>::empty());
        if pair.0 == k {
            assert(lookup_paths(u, k) == Some(u[0].1@));
        } else {
            assert(lookup_paths(u, k) == lookup_paths(u.skip(1), k));
            assert(lookup_paths(u.skip(1), k) is None);
        }
    } else {
        assert(u[0] == s[0]);
        assert(u.skip(1) =~= s.skip(1).push(pair));
        lemma_lookup_push(s.skip(1), pair, k);
        if s[0].0 == k {
            assert(lookup_paths(u, k) == Some(u[0].1@));
            assert(lookup_paths(s, k) == Some(s[0].1@));
        } else {
            assert(lookup_paths(u, k) == lookup_paths(u.skip(1), k));
            assert(lookup_paths(s, k) == lookup_paths(s.skip(1), k));
        }
    }
}

/// What a screen-sequencing state machine can do.
pub trait StateMachine {
    /// Whether the machine knows transitions out of its current state;
    /// only then may `set_state` be asked to move.
    spec fn can_step(&self) -> bool;

    fn add_state(&mut self, state: GameState, paths: &Vec<GameState>);

    fn set_state(&mut self, state: GameState)
        requires
            old(self).can_step(),
    ;
}

/// The application's state machine.
#[derive(Clone)]
pub struct GameApp {
    pub states: Vec<(GameState, Vec<GameState>)>,
    pub current_state: GameState,
}

fn copy_states(v: &Vec<GameState>) -> (r: Vec<GameState>)
    ensures
        r@ == v@,
{
    let mut out: Vec<GameState> = Vec::new();
    let mut i: usize = 0;
    let n = v.len();
    while i < n
        invariant
            n == v@.len(),
            i <= n,
            out@ == v@.take(i as int),
        decreases n - i,
    {
        out.push(v[i]);
        proof {
            assert(out@ =~= v@.take(i as int + 1));
        }
        i = i + 1;
    }
    proof {
        assert(out@ =~= v@);
    }
    out
}

impl GameApp {
    /// The transition list registered for a state, if any.
    pub open spec fn paths_of(self, k: GameState) -> Option<Seq<GameState>> {
        lookup_paths(self.states@, k)
    }

    pub fn new() -> (r: GameApp)
        ensures
            r.current_state == GameState::Loading,
            forall|k: GameState| #[trigger] r.paths_of(k) is None,
    {
        let r = GameApp { current_state: GameState::Loading, states: Vec::new() };
        proof {
            assert forall|k: GameState| #[trigger] r.paths_of(k) is None by {
                lemma_lookup_none(r.states@, k);
            }
        }
        r
    }

    /// Index of the first entry for a state.
    fn find_state(&self, k: GameState) -> (r: Option<usize>)
        ensures
            match r {
                Some(i) => i < self.states@.len() && self.states@[i as int].0 == k && self.paths_of(
                    k,
                ) == Some(self.states@[i as int].1@) && forall|t: int|
                    0 <= t < i ==> (#[trigger] self.states@[t]).0 != k,
                None => self.paths_of(k) is None,
            },
    {
        let n = self.states.len();
        let mut i: usize = 0;
        while i < n
            invariant
                n == self.states@.len(),
                i <= n,
                forall|t: int| 0 <= t < i ==> (#[trigger] self.states@[t]).0 != k,
            decreases n - i,
        {
            if self.states[i].0 == k {
                proof {
                    lemma_lookup_at(self.states@, k, i as int);
                }
                return Some(i);
            }
            i = i + 1;
        }
        proof {
            lemma_lookup_none(self.states@, k);
        }
        None
    }
}

fn states_contain(v: &Vec<GameState>, s: GameState) -> (r: bool)
    ensures
        r == v@.contains(s),
{
    let n = v.len();
    let mut i: usize = 0;
    while i < n
        invariant
            n == v@.len(),
            i <= n,
            forall|t: int| 0 <= t < i ==> v@[t] != s,
        decreases n - i,
    {
        if v[i] == s {
            return true;
        }
        i = i + 1;
    }
    proof {
        assert(forall|t: int| 0 <= t < v@.len() ==> v@[t] != s);
    }
    false
}

impl StateMachine for GameApp {
    open spec fn can_step(&self) -> bool {
        self.paths_of(self.current_state) is Some
    }

    /// Register (or replace) the transition list of a state.
    fn add_state(&mut self, state: GameState, paths: &Vec<GameState>)
        ensures
            final(self).current_state == old(self).current_state,
            final(self).paths_of(state) == Some(paths@),
            forall|k: GameState|
                k != state ==> #[trigger] final(self).paths_of(k) == old(self).paths_of(k),
    {
        let owned = copy_states(paths);
        match self.find_state(state) {
            Some(i) => {
                let ghost pre = self.states@;
                self.states.set(i, (state, owned));
                proof {
                    assert(self.states@ =~= pre.update(i as int, (state, self.states@[i as int].1)));
                    lemma_lookup_at(self.states@, state, i as int);
                    assert forall|k: GameState|
                        k != state implies #[trigger] lookup_paths(self.states@, k) == lookup_paths(
                        pre,
                        k,
                    ) by {
                        lemma_lookup_update(pre, i as int, self.states@[i as int], k);
                    }
                }
            },
            None => {
                let ghost pre = self.states@;
                self.states.push((state, owned));
                proof {
                    assert forall|k: GameState| #[trigger]
                        lookup_paths(self.states@, k) == (match lookup_paths(pre, k) {
                            Some(v) => Some(v),
                            None => if state == k {
                                Some(self.states@.last().1@)
                            } else {
                                None
                            },
                        }) by {
                        lemma_lookup_push(pre, self.states@.last(), k);
                    }
                }
            },
        }
    }

    /// Move to a state, but only if the current state's transition list
    /// holds it; otherwise stay.
    fn set_state(&mut self, state: GameState)
        ensures
            forall|k: GameState| #[trigger] final(self).paths_of(k) == old(self).paths_of(k),
            final(self).current_state == (if old(self).paths_of(
                old(self).current_state,
            ).unwrap().contains(state) {
                state
            } else {
                old(self).current_state
            }),
    {
        match self.find_state(self.current_state) {
            Some(i) => {
                let allowed = states_contain(&self.states[i].1, state);
                if allowed {
                    self.current_state = state;
                }
            },
            None => {},
        }
    }
}

} // verus!
