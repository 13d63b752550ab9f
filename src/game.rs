use vstd::prelude::*;

use crate::code::{generate_code, is_generated_code};
use crate::config::Config;
use crate::score::{check_input, score_of, Mark};
use crate::validate::{validate_input, validation, InputError};

verus! {

/// Every mark is `Exact`.
pub open spec fn all_exact(s: Seq<Mark>) -> bool {
    forall|i: int| 0 <= i < s.len() ==> s[i] == Mark::Exact
}

/// Whether every mark of `marks` is `Exact`.
pub fn is_win(marks: &Vec<Mark>) -> (r: bool)
    ensures
        r == all_exact(marks@),
{
    let mut i: usize = 0;
    while i < marks.len()
        invariant
            i <= marks@.len(),
            forall|k: int| 0 <= k < i ==> marks@[k] == Mark::Exact,
        decreases marks@.len() - i,
    {
        if marks[i] != Mark::Exact {
            return false;
        }
        i += 1;
    }
    true
}

/// What one submitted guess led to.
#[derive(Debug)]
pub enum Outcome {
    /// The guess was refused; no attempt was used.
    Rejected(InputError),
    /// The guess was scored and the game goes on.
    Scored(Vec<Mark>),
    /// The guess was the code.
    Won(Vec<Mark>),
    /// The guess was scored and it was the last attempt.
    Lost(Vec<Mark>),
}

/// One game: the secret code, the number of the attempt being played, and
/// whether the code has been found.
pub struct Game {
    pub config: Config,
    pub code: Vec<char>,
    pub attempt: usize,
    pub won: bool,
}

impl Game {
    /// The settings are well formed, the code has their length, and the
    /// attempt counter is at most one past the limit.
    pub open spec fn wf(&self) -> bool {
        &&& self.config.wf()
        &&& self.code@.len() == self.config.code_length
        &&& 1 <= self.attempt <= self.config.attempts + 1
    }

    /// The game has ended, won or lost.
    pub open spec fn over(&self) -> bool {
        self.won || self.attempt > self.config.attempts
    }

    /// A game on a freshly generated code, at the first attempt.
    pub fn new(config: Config) -> (r: Game)
        requires
            config.wf(),
        ensures
            r.wf(),
            r.config == config,
            is_generated_code(config, r.code@),
            r.attempt == 1,
            !r.won,
    {
        let code = generate_code(&config);
        Game { config, code, attempt: 1, won: false }
    }

    /// A game on the given code, at the first attempt.
    pub fn with_code(config: Config, code: Vec<char>) -> (r: Game)
        requires
            config.wf(),
            code@.len() == config.code_length,
        ensures
            r.wf(),
            r.config == config,
            r.code@ == code@,
            r.attempt == 1,
            !r.won,
    {
        Game { config, code, attempt: 1, won: false }
    }

    /// Whether the game has ended.
    pub fn is_over(&self) -> (r: bool)
        ensures
            r == self.over(),
    {
        self.won || self.attempt > self.config.attempts
    }

    /// Plays one guess. A refused guess changes nothing. A scored guess that
    /// matches the code wins at the current attempt; any other scored guess
    /// uses up the attempt, and the game is lost once the limit is passed.
    pub fn play(&mut self, guess: &Vec<char>) -> (r: Outcome)
        requires
            old(self).wf(),
            !old(self).over(),
        ensures
            final(self).wf(),
            final(self).config == old(self).config,
            final(self).code@ == old(self).code@,
            match validation(old(self).config, guess@) {
                Err(e) => r == Outcome::Rejected(e) && final(self).attempt == old(self).attempt
                    && final(self).won == old(self).won,
                Ok(_) => {
                    let s = score_of(old(self).code@, guess@);
                    if all_exact(s) {
                        (r matches Outcome::Won(m) && m@ == s) && final(self).won
                            && final(self).attempt == old(self).attempt
                    } else {
                        &&& final(self).attempt == old(self).attempt + 1
                        &&& !final(self).won
                        &&& if old(self).attempt + 1 > old(self).config.attempts {
                            r matches Outcome::Lost(m) && m@ == s
                        } else {
                            r matches Outcome::Scored(m) && m@ == s
                        }
                    }
                },
            },
    {
        match validate_input(&self.config, guess) {
            Err(e) => Outcome::Rejected(e),
            Ok(()) => {
                let marks = check_input(&self.code, guess);
                if is_win(&marks) {
                    self.won = true;
                    Outcome::Won(marks)
                } else {
                    self.attempt = self.attempt + 1;
                    if self.attempt > self.config.attempts {
                        Outcome::Lost(marks)
                    } else {
                        Outcome::Scored(marks)
                    }
                }
            },
        }
    }
}

} // verus!
