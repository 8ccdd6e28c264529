use vstd::prelude::*;
use crate::color::{Code, Color, CODE_SIZE, COLORS_NBR};
use crate::score::{bad_count, evaluate, good_count, good_upto, lemma_identity};

verus! {

/// Relies on rand::random: a value drawn from the thread-local generator.
/// Nothing is known of the value.
pub assume_specification<T>[ rand::random::<T> ]() -> (r: T)
    where
        rand::distributions::Standard: rand::distributions::Distribution<T>,
;

/// Number of guesses a game allows.
pub const GAME_TRY: usize = 10;

/// One submitted guess with its score.
#[derive(Clone, Copy)]
pub struct Try {
    pub code: Code,
    pub good: u8,
    pub bad: u8,
}

/// A game that still accepts guesses, with the guesses made so far.
pub struct Playable {
    pub tries: Vec<Try>,
}

/// How a finished game ended.
#[derive(Debug, PartialEq, Eq, Structural, PartialOrd)]
pub enum Result {
    Win,
    Loose,
}

/// A concluded game: the revealed secret, the outcome and every guess made.
pub struct Finish {
    pub code: Code,
    pub result: Result,
    pub tries: Vec<Try>,
}

/// The state of a game: still playable, or finished.
pub enum State {
    Playable(Playable),
    Finish(Finish),
}

/// The mathematical value of a `State`.
pub ghost enum StateModel {
    Playable { tries: Seq<Try> },
    Finish { code: Code, result: Result, tries: Seq<Try> },
}

impl View for State {
    type V = StateModel;

    open spec fn view(&self) -> StateModel {
        match self {
            State::Playable(p) => StateModel::Playable { tries: p.tries@ },
            State::Finish(f) => StateModel::Finish { code: f.code, result: f.result, tries: f.tries@ },
        }
    }
}

impl StateModel {
    /// The guesses recorded so far, in the order they were made.
    pub open spec fn tries(self) -> Seq<Try> {
        match self {
            StateModel::Playable { tries } => tries,
            StateModel::Finish { tries, .. } => tries,
        }
    }
}

/// The record that scoring `guess` against `secret` produces.
pub open spec fn scored(secret: Code, guess: Code) -> Try {
    Try {
        code: guess,
        good: good_count(secret@, guess@) as u8,
        bad: bad_count(secret@, guess@) as u8,
    }
}

/// The state a game with `secret` moves to from `st` when `guess` is played.
pub open spec fn step(secret: Code, st: StateModel, guess: Code) -> StateModel {
    match st {
        StateModel::Playable { tries } => {
            let tries = tries.push(scored(secret, guess));
            if good_count(secret@, guess@) == CODE_SIZE {
                StateModel::Finish { code: secret, result: Result::Win, tries }
            } else if tries.len() == GAME_TRY {
                StateModel::Finish { code: secret, result: Result::Loose, tries }
            } else {
                StateModel::Playable { tries }
            }
        },
        StateModel::Finish { .. } => st,
    }
}

/// Every record of `tries` is the score of its code against `secret`.
pub open spec fn all_scored(secret: Code, tries: Seq<Try>) -> bool {
    forall|i: int| 0 <= i < tries.len() ==> #[trigger] tries[i] == scored(secret, tries[i].code)
}

/// The secret that four drawn numbers stand for, one per position.
pub open spec fn secret_of_draws(a: usize, b: usize, c: usize, d: usize) -> Seq<Color> {
    seq![
        Color::of_index((a % COLORS_NBR) as nat),
        Color::of_index((b % COLORS_NBR) as nat),
        Color::of_index((c % COLORS_NBR) as nat),
        Color::of_index((d % COLORS_NBR) as nat),
    ]
}

/// The mathematical value of a `Game`.
pub ghost struct GameModel {
    pub secret: Code,
    pub state: StateModel,
}

impl GameModel {
    /// A playable game holds fewer records than the limit; a finished one
    /// reveals its own secret; every record is the score of its guess.
    pub open spec fn wf(self) -> bool {
        match self.state {
            StateModel::Playable { tries } => tries.len() < GAME_TRY && all_scored(
                self.secret,
                tries,
            ),
            StateModel::Finish { code, tries, .. } => code == self.secret && tries.len()
                <= GAME_TRY && all_scored(self.secret, tries),
        }
    }
}

/// A game session: a secret code and the state of play.
pub struct Game {
    secret_code: Code,
    state: State,
}

impl View for Game {
    type V = GameModel;

    closed spec fn view(&self) -> GameModel {
        GameModel { secret: self.secret_code, state: self.state@ }
    }
}

impl Game {
    #[verifier::type_invariant]
    closed spec fn inv(self) -> bool {
        self@.wf()
    }

    /// Starts a game whose secret is drawn at random, each position uniformly
    /// among the colors.
    pub fn new() -> (g: Game)
        ensures
            exists|a: usize, b: usize, c: usize, d: usize|
                #[trigger] secret_of_draws(a, b, c, d) == g@.secret@,
            g@.state == (StateModel::Playable { tries: Seq::empty() }),
            g@.wf(),
    {
        let a: usize = rand::random::<usize>();
        let b: usize = rand::random::<usize>();
        let c: usize = rand::random::<usize>();
        let d: usize = rand::random::<usize>();
        Game::new_from_draws(a, b, c, d)
    }

    /// Starts a game whose secret is built from four drawn numbers, one per
    /// position: position `i` holds the color of index `draw_i % COLORS_NBR`.
    pub fn new_from_draws(a: usize, b: usize, c: usize, d: usize) -> (g: Game)
        ensures
            g@.secret@ == secret_of_draws(a, b, c, d),
            g@.state == (StateModel::Playable { tries: Seq::empty() }),
            g@.wf(),
    {
        let code: Code = [
            Color::from_value(a % COLORS_NBR),
            Color::from_value(b % COLORS_NBR),
            Color::from_value(c % COLORS_NBR),
            Color::from_value(d % COLORS_NBR),
        ];
        Game::new_with_secret_code(code)
    }

    /// Starts a game with the given secret.
    pub fn new_with_secret_code(code: Code) -> (g: Game)
        ensures
            g@ == (GameModel { secret: code, state: StateModel::Playable { tries: Seq::empty() } }),
            g@.wf(),
    {
        Game { state: State::Playable(Playable { tries: Vec::new() }), secret_code: code }
    }

    /// The current state.
    pub fn get_state(&self) -> (r: &State)
        ensures
            r@ == self@.state,
    {
        &self.state
    }

    /// Plays one guess. A playable game records its score and finishes on a
    /// full match, or when the limit of guesses is reached; a finished game
    /// is left unchanged.
    pub fn play(&mut self, code: Code) -> (r: &State)
        ensures
            final(self)@ == (GameModel {
                secret: old(self)@.secret,
                state: step(old(self)@.secret, old(self)@.state, code),
            }),
            r@ == final(self)@.state,
            final(self)@.wf(),
    {
        proof {
            use_type_invariant(&*self);
        }
        let secret = self.secret_code;
        let mut st = State::Playable(Playable { tries: Vec::new() });
        std::mem::swap(&mut self.state, &mut st);
        let next = match st {
            State::Playable(playable) => {
                let mut tries = playable.tries;
                let result = evaluate(&secret, &code);
                tries.push(Try { code: code, good: result.0, bad: result.1 });
                if result.0 == CODE_SIZE {
                    State::Finish(Finish { code: secret, result: Result::Win, tries })
                } else if tries.len() == GAME_TRY {
                    State::Finish(Finish { code: secret, result: Result::Loose, tries })
                } else {
                    State::Playable(Playable { tries })
                }
            },
            State::Finish(finish) => State::Finish(finish),
        };
        self.state = next;
        &self.state
    }
}

/// The state that a fresh game with `secret` reaches when `guesses` are
/// played in order.
pub open spec fn replay(secret: Code, guesses: Seq<Code>) -> StateModel
    decreases guesses.len(),
{
    if guesses.len() == 0 {
        StateModel::Playable { tries: Seq::empty() }
    } else {
        step(secret, replay(secret, guesses.drop_last()), guesses.last())
    }
}

/// `n` copies of `x`.
pub open spec fn repeated<A>(x: A, n: nat) -> Seq<A> {
    Seq::new(n, |i: int| x)
}

/// Playing the secret itself as the first guess wins the game at once.
pub proof fn lemma_win_on_first_try(secret: Code)
    ensures
        step(secret, StateModel::Playable { tries: Seq::empty() }, secret) == (StateModel::Finish {
            code: secret,
            result: Result::Win,
            tries: seq![scored(secret, secret)],
        }),
{
    lemma_identity(secret);
}

proof fn lemma_good_full(s: Seq<Color>, g: Seq<Color>, n: int)
    requires
        0 <= n,
    ensures
        good_upto(s, g, n) <= n,
        good_upto(s, g, n) == n ==> forall|i: int| 0 <= i < n ==> s[i] == g[i],
    decreases n,
{
    if n > 0 {
        lemma_good_full(s, g, n - 1);
    }
}

/// A guess other than the secret scores fewer than `CODE_SIZE` good.
pub proof fn lemma_only_secret_wins(secret: Code, guess: Code)
    requires
        guess != secret,
    ensures
        good_count(secret@, guess@) < CODE_SIZE,
{
    lemma_good_full(secret@, guess@, CODE_SIZE as int);
    if good_count(secret@, guess@) == CODE_SIZE {
        assert(secret =~= guess);
    }
}

/// Playing a wrong guess over and over keeps the game playable for the first
/// `GAME_TRY - 1` plays, with one record per play, and the play of number
/// `GAME_TRY` loses it.
pub proof fn lemma_loss_after_limit(secret: Code, guess: Code)
    requires
        guess != secret,
    ensures
        forall|n: nat|
            n < GAME_TRY ==> #[trigger] replay(secret, repeated(guess, n)) == (
            StateModel::Playable { tries: repeated(scored(secret, guess), n) }),
        replay(secret, repeated(guess, GAME_TRY as nat)) == (StateModel::Finish {
            code: secret,
            result: Result::Loose,
            tries: repeated(scored(secret, guess), GAME_TRY as nat),
        }),
{
    lemma_only_secret_wins(secret, guess);
    assert forall|n: nat| n <= GAME_TRY implies #[trigger] replay(
        secret,
        repeated(guess, n),
    ) == if n < GAME_TRY {
        StateModel::Playable { tries: repeated(scored(secret, guess), n) }
    } else {
        StateModel::Finish {
            code: secret,
            result: Result::Loose,
            tries: repeated(scored(secret, guess), GAME_TRY as nat),
        }
    } by {
        lemma_repeat(secret, guess, n);
    }
}

proof fn lemma_repeat(secret: Code, guess: Code, n: nat)
    requires
        good_count(secret@, guess@) < CODE_SIZE,
        n <= GAME_TRY,
    ensures
        replay(secret, repeated(guess, n)) == if n < GAME_TRY {
            StateModel::Playable { tries: repeated(scored(secret, guess), n) }
        } else {
            StateModel::Finish {
                code: secret,
                result: Result::Loose,
                tries: repeated(scored(secret, guess), GAME_TRY as nat),
            }
        },
    decreases n,
{
    if n > 0 {
        let m = (n - 1) as nat;
        lemma_repeat(secret, guess, m);
        assert(repeated(guess, n).drop_last() =~= repeated(guess, m));
        assert(repeated(scored(secret, guess), m).push(scored(secret, guess))
            =~= repeated(scored(secret, guess), n));
    } else {
        assert(repeated(scored(secret, guess), 0) =~= Seq::<Try>::empty());
    }
}

/// A finished game stays as it is, whatever is played.
pub proof fn lemma_finished_is_final(secret: Code, st: StateModel, guess: Code)
    requires
        st is Finish,
    ensures
        step(secret, st, guess) == st,
{
}

/// The records of a game are the scores of the guesses in the order they
/// were played, one for each play made while the game was playable: the play
/// of index `k` found the game playable exactly when `k` is below the number
/// of records.
pub proof fn lemma_history(secret: Code, guesses: Seq<Code>)
    ensures
        replay(secret, guesses).tries().len() <= guesses.len(),
        forall|i: int|
            0 <= i < replay(secret, guesses).tries().len() ==> #[trigger] replay(
                secret,
                guesses,
            ).tries()[i] == scored(secret, guesses[i]),
        forall|k: int|
            0 <= k < guesses.len() ==> (#[trigger] replay(secret, guesses.take(k)) is Playable
                <==> k < replay(secret, guesses).tries().len()),
        replay(secret, guesses) is Playable ==> replay(secret, guesses).tries().len()
            == guesses.len(),
    decreases guesses.len(),
{
    if guesses.len() > 0 {
        let prev = guesses.drop_last();
        lemma_history(secret, prev);
        assert forall|k: int| 0 <= k <= prev.len() implies #[trigger] guesses.take(k) == prev.take(
            k,
        ) by {
            assert(guesses.take(k) =~= prev.take(k));
        }
        assert(prev.take(prev.len() as int) =~= prev);
    }
}

} // verus!
