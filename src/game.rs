use vstd::prelude::*;
use rand::Rng;
use crate::parse::{parse_u32, read_guess, trimmed};

verus! {

/// The smallest number the secret can be.
pub const LOWEST: u32 = 1;

/// The largest number the secret can be.
pub const HIGHEST: u32 = 100;

/// How a guess compares to the secret.
#[derive(Debug, Clone, Copy, PartialEq, Eq, Structural)]
pub enum Outcome {
    Less,
    Greater,
    Equal,
}

/// What one line of input did to the game.
#[derive(Debug, Clone, Copy, PartialEq, Eq, Structural)]
pub enum Step {
    /// The line held no number; nothing changed and the player is asked again.
    Retry,
    /// The line held this guess, which compared to the secret as given.
    Judged(u32, Outcome),
}

/// The outcome of comparing `guess` to `secret` by the order of integers.
pub open spec fn outcome_of(guess: u32, secret: u32) -> Outcome {
    if guess < secret {
        Outcome::Less
    } else if guess > secret {
        Outcome::Greater
    } else {
        Outcome::Equal
    }
}

/// What the game answers to `guess` (absent where the input held no number).
pub open spec fn judge(secret: u32, guess: Option<u32>) -> Step {
    match guess {
        None => Step::Retry,
        Some(g) => Step::Judged(g, outcome_of(g, secret)),
    }
}

/// Whether a step ends the game.
pub open spec fn is_win(s: Step) -> bool {
    match s {
        Step::Judged(_, o) => o == Outcome::Equal,
        Step::Retry => false,
    }
}

/// The steps that a game with `secret` goes through on the inputs `guesses`,
/// fed in order: it stops right after the first winning guess, and the
/// inputs after it are never read.
pub open spec fn transcript(secret: u32, guesses: Seq<Option<u32>>) -> Seq<Step>
    decreases guesses.len(),
{
    if guesses.len() == 0 {
        Seq::empty()
    } else {
        let s = judge(secret, guesses[0]);
        if is_win(s) {
            seq![s]
        } else {
            seq![s] + transcript(secret, guesses.drop_first())
        }
    }
}

/// The guess that a line of input holds, if any.
pub open spec fn guess_of_line(line: Seq<char>) -> Option<u32> {
    parse_u32(trimmed(line))
}

/// Compares `guess` to `secret`.
pub fn compare(guess: u32, secret: u32) -> (r: Outcome)
    ensures
        r == outcome_of(guess, secret),
{
    if guess < secret {
        Outcome::Less
    } else if guess > secret {
        Outcome::Greater
    } else {
        Outcome::Equal
    }
}

/// Relies on `rand::thread_rng` and `Rng::gen_range`: a number drawn from the
/// inclusive range `low..=high`, which must not be empty.
#[verifier::external_body]
fn random_in(low: u32, high: u32) -> (r: u32)
    requires
        low <= high,
    ensures
        low <= r <= high,
{
    rand::thread_rng().gen_range(low..=high)
}

/// What a game is at one moment: its secret, and whether it is over.
pub ghost struct GameState {
    pub secret: u32,
    pub done: bool,
}

/// One game: a secret fixed at the start, and whether it has been guessed.
pub struct GuessLoop {
    secret: u32,
    done: bool,
}

impl View for GuessLoop {
    type V = GameState;

    closed spec fn view(&self) -> GameState {
        GameState { secret: self.secret, done: self.done }
    }
}

impl GuessLoop {
    /// Whether the secret lies in the range the game draws from.
    pub open spec fn wf(&self) -> bool {
        LOWEST <= self@.secret <= HIGHEST
    }

    /// A game, not yet won, whose secret is `secret`.
    pub fn new(secret: u32) -> (r: GuessLoop)
        requires
            LOWEST <= secret <= HIGHEST,
        ensures
            r.wf(),
            r@ == (GameState { secret, done: false }),
    {
        GuessLoop { secret, done: false }
    }

    /// A game, not yet won, with a secret drawn at random from
    /// `LOWEST..=HIGHEST`.
    pub fn new_random() -> (r: GuessLoop)
        ensures
            r.wf(),
            !r@.done,
    {
        let secret = random_in(LOWEST, HIGHEST);
        GuessLoop::new(secret)
    }

    /// The secret.
    pub fn secret(&self) -> (r: u32)
        ensures
            r == self@.secret,
    {
        self.secret
    }

    /// Whether the secret has been guessed.
    pub fn is_done(&self) -> (r: bool)
        ensures
            r == self@.done,
    {
        self.done
    }

    /// Answers one input, already read as a guess (absent where the input
    /// held no number). The secret never changes; the game is over exactly
    /// when the guess equals it.
    pub fn feed(&mut self, guess: Option<u32>) -> (r: Step)
        requires
            !old(self)@.done,
        ensures
            r == judge(old(self)@.secret, guess),
            final(self)@.secret == old(self)@.secret,
            final(self)@.done == is_win(r),
    {
        match guess {
            None => Step::Retry,
            Some(g) => {
                let outcome = compare(g, self.secret);
                if outcome == Outcome::Equal {
                    self.done = true;
                }
                Step::Judged(g, outcome)
            },
        }
    }

    /// Answers one line of input: the line is trimmed and read as a guess,
    /// then fed to the game.
    pub fn step(&mut self, line: &str) -> (r: Step)
        requires
            !old(self)@.done,
        ensures
            r == judge(old(self)@.secret, guess_of_line(line@)),
            final(self)@.secret == old(self)@.secret,
            final(self)@.done == is_win(r),
    {
        let guess = read_guess(line);
        self.feed(guess)
    }

    /// Feeds `guesses` in order until one wins, and returns the steps taken;
    /// the inputs after the winning one are left unread.
    pub fn play(&mut self, guesses: &Vec<Option<u32>>) -> (r: Vec<Step>)
        requires
            !old(self)@.done,
        ensures
            r@ == transcript(old(self)@.secret, guesses@),
            final(self)@.secret == old(self)@.secret,
            final(self)@.done == (r@.len() > 0 && is_win(r@.last())),
    {
        let ghost secret = self@.secret;
        let mut out: Vec<Step> = Vec::new();
        let mut i: usize = 0;
        assert(guesses@.subrange(0, guesses@.len() as int) =~= guesses@);
        assert(out@ + transcript(secret, guesses@) =~= transcript(secret, guesses@));
        while i < guesses.len() && !self.done
            invariant
                i <= guesses@.len(),
                self@.secret == secret,
                !self@.done ==> out@ + transcript(
                    secret,
                    guesses@.subrange(i as int, guesses@.len() as int),
                ) == transcript(secret, guesses@),
                self@.done ==> out@.len() > 0 && is_win(out@.last()) && transcript(
                    secret,
                    guesses@,
                ) == out@,
                !self@.done ==> forall|k: int| 0 <= k < out@.len() ==> !is_win(#[trigger] out@[k]),
            decreases guesses@.len() - i,
        {
            let ghost rest = guesses@.subrange(i as int, guesses@.len() as int);
            assert(rest.drop_first() =~= guesses@.subrange(i + 1, guesses@.len() as int));
            let s = self.feed(guesses[i]);
            out.push(s);
            i = i + 1;
            proof {
                if !is_win(s) {
                    assert(out@ + transcript(secret, guesses@.subrange(i as int, guesses@.len() as int))
                        =~= transcript(secret, guesses@));
                } else {
                    assert(out@ =~= transcript(secret, guesses@));
                }
            }
        }
        proof {
            if !self.done {
                assert(guesses@.subrange(i as int, guesses@.len() as int) =~= Seq::empty());
                assert(out@ =~= transcript(secret, guesses@));
            }
        }
        out
    }

    /// Feeds `lines` in order, each trimmed and read as a guess, until one
    /// wins, and returns the steps taken; the lines after the winning one
    /// are left unread.
    pub fn play_lines(&mut self, lines: &[&str]) -> (r: Vec<Step>)
        requires
            !old(self)@.done,
        ensures
            r@ == transcript(old(self)@.secret, lines@.map_values(|l: &str| guess_of_line(l@))),
            final(self)@.secret == old(self)@.secret,
            final(self)@.done == (r@.len() > 0 && is_win(r@.last())),
    {
        let mut guesses: Vec<Option<u32>> = Vec::new();
        let mut i: usize = 0;
        while i < lines.len()
            invariant
                i <= lines@.len(),
                guesses@ =~= lines@.subrange(0, i as int).map_values(|l: &str| guess_of_line(l@)),
            decreases lines@.len() - i,
        {
            guesses.push(read_guess(lines[i]));
            i = i + 1;
        }
        assert(lines@.subrange(0, lines@.len() as int) =~= lines@);
        self.play(&guesses)
    }
}

/// A game with a secret in range, fed guesses in range that all miss but
/// the last, which equals the secret, takes exactly one step per guess: it
/// answers `Less` to each guess below the secret, `Greater` to each above,
/// and wins on the last.
pub proof fn lemma_misses_then_hit(secret: u32, guesses: Seq<u32>)
    requires
        LOWEST <= secret <= HIGHEST,
        guesses.len() > 0,
        guesses.last() == secret,
        forall|i: int|
            0 <= i < guesses.len() - 1 ==> LOWEST <= #[trigger] guesses[i] <= HIGHEST && guesses[i]
                != secret,
    ensures
        ({
            let t = transcript(secret, guesses.map_values(|g: u32| Some(g)));
            &&& t.len() == guesses.len()
            &&& forall|i: int|
                0 <= i < guesses.len() - 1 ==> #[trigger] t[i] == Step::Judged(
                    guesses[i],
                    if guesses[i] < secret {
                        Outcome::Less
                    } else {
                        Outcome::Greater
                    },
                )
            &&& t.last() == Step::Judged(secret, Outcome::Equal)
        }),
    decreases guesses.len(),
{
    let gs = guesses.map_values(|g: u32| Some(g));
    let t = transcript(secret, gs);
    if guesses.len() == 1 {
        assert(t =~= seq![Step::Judged(secret, Outcome::Equal)]);
    } else {
        let rest = guesses.drop_first();
        assert(guesses[0] != secret);
        lemma_misses_then_hit(secret, rest);
        assert(gs.drop_first() =~= rest.map_values(|g: u32| Some(g)));
        let tr = transcript(secret, rest.map_values(|g: u32| Some(g)));
        assert(t == seq![judge(secret, gs[0])] + tr);
        assert forall|i: int| 0 < i < guesses.len() - 1 implies #[trigger] t[i] == Step::Judged(
            guesses[i],
            if guesses[i] < secret {
                Outcome::Less
            } else {
                Outcome::Greater
            },
        ) by {
            assert(t[i] == tr[i - 1]);
            assert(rest[i - 1] == guesses[i]);
        }
    }
}

/// Inputs that hold no number change nothing: a game fed any number of them
/// and then `rest` answers `Retry` to each, then exactly as it would to
/// `rest` alone. So it still wins when the next input is the secret.
pub proof fn lemma_malformed_skipped(secret: u32, k: nat, rest: Seq<Option<u32>>)
    ensures
        transcript(secret, Seq::new(k, |i: int| None::<u32>) + rest) == Seq::new(
            k,
            |i: int| Step::Retry,
        ) + transcript(secret, rest),
        rest.len() > 0 && rest[0] == Some(secret) ==> transcript(
            secret,
            Seq::new(k, |i: int| None::<u32>) + rest,
        ).last() == Step::Judged(secret, Outcome::Equal),
    decreases k,
{
    let gs = Seq::new(k, |i: int| None::<u32>) + rest;
    if k == 0 {
        assert(gs =~= rest);
        assert(Seq::new(k, |i: int| Step::Retry) + transcript(secret, rest) =~= transcript(
            secret,
            rest,
        ));
    } else {
        lemma_malformed_skipped(secret, (k - 1) as nat, rest);
        assert(gs.drop_first() =~= Seq::new((k - 1) as nat, |i: int| None::<u32>) + rest);
        assert(Seq::new(k, |i: int| Step::Retry) =~= seq![Step::Retry] + Seq::new(
            (k - 1) as nat,
            |i: int| Step::Retry,
        ));
        assert(transcript(secret, gs) =~= Seq::new(k, |i: int| Step::Retry) + transcript(
            secret,
            rest,
        ));
    }
    if rest.len() > 0 && rest[0] == Some(secret) {
        assert(transcript(secret, rest) =~= seq![Step::Judged(secret, Outcome::Equal)]);
    }
}

} // verus!
