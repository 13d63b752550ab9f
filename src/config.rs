use vstd::prelude::*;

verus! {

/// Number of symbols in the full alphabet.
pub const ALPHABET_SIZE: usize = 8;

/// The full ordered alphabet: red, green, blue, yellow, black, white,
/// purple, cyan.
pub open spec fn alphabet() -> Seq<char> {
    seq!['r', 'g', 'b', 'y', 'k', 'w', 'p', 'c']
}

/// Number of positions `i < n` of `s` holding `x`.
pub open spec fn symbol_count(s: Seq<char>, x: char, n: int) -> nat
    decreases n,
{
    if n <= 0 {
        0
    } else {
        symbol_count(s, x, n - 1) + if s[n - 1] == x {
            1nat
        } else {
            0nat
        }
    }
}

/// A symbol that occurs in the first `n` positions occurs at one of them.
pub proof fn lemma_symbol_count_positive(s: Seq<char>, x: char, n: int)
    requires
        0 <= n <= s.len(),
        symbol_count(s, x, n) > 0,
    ensures
        exists|i: int| 0 <= i < n && s[i] == x,
    decreases n,
{
    if s[n - 1] != x {
        lemma_symbol_count_positive(s, x, n - 1);
    }
}

/// A count over the first `n` positions is at most `n`.
pub proof fn lemma_symbol_count_bound(s: Seq<char>, x: char, n: int)
    requires
        0 <= n <= s.len(),
    ensures
        symbol_count(s, x, n) <= n,
    decreases n,
{
    if n > 0 {
        lemma_symbol_count_bound(s, x, n - 1);
    }
}

/// The settings of one game.
#[derive(Clone, Copy, Debug, PartialEq, Eq, Structural)]
pub struct Config {
    /// How many symbols, from the start of the alphabet, are in play.
    pub active_count: usize,
    /// Symbols in a code and in a guess.
    pub code_length: usize,
    /// How often one symbol may occur in a guess.
    pub max_duplicates: usize,
    /// Scored guesses allowed before the game is lost.
    pub attempts: usize,
}

impl Config {
    /// The symbols in play are a non-empty prefix of the alphabet; a code of
    /// the configured length can keep within the duplicate allowance; the
    /// attempt counter can pass the limit without overflow.
    pub open spec fn wf(&self) -> bool {
        &&& 1 <= self.active_count <= ALPHABET_SIZE
        &&& 1 <= self.max_duplicates
        &&& self.code_length <= self.max_duplicates * self.active_count
        &&& self.attempts < usize::MAX
    }

    /// The symbols in play.
    pub open spec fn active(&self) -> Seq<char> {
        alphabet().take(self.active_count as int)
    }

    /// Six symbols, codes of four, two of a symbol allowed, ten attempts.
    pub fn standard() -> (r: Config)
        ensures
            r.wf(),
            r == (Config { active_count: 6, code_length: 4, max_duplicates: 2, attempts: 10 }),
    {
        Config { active_count: 6, code_length: 4, max_duplicates: 2, attempts: 10 }
    }

    /// A configuration of the given settings, where they are well formed.
    pub fn new(active_count: usize, code_length: usize, max_duplicates: usize, attempts: usize) -> (r:
        Option<Config>)
        ensures
            r is Some <==> (Config { active_count, code_length, max_duplicates, attempts }).wf(),
            r is Some ==> r == Some(
                Config { active_count, code_length, max_duplicates, attempts },
            ),
    {
        let cfg = Config { active_count, code_length, max_duplicates, attempts };
        if active_count < 1 || active_count > ALPHABET_SIZE || max_duplicates < 1 || attempts
            == usize::MAX {
            return None;
        }
        assert(max_duplicates as int * active_count as int <= max_duplicates as int * 8)
            by (nonlinear_arith)
            requires
                active_count <= 8,
        ;
        if code_length as u128 > max_duplicates as u128 * active_count as u128 {
            return None;
        }
        Some(cfg)
    }

    /// The symbols in play, in alphabet order.
    pub fn active_symbols(&self) -> (r: Vec<char>)
        requires
            self.wf(),
        ensures
            r@ == self.active(),
    {
        let all: Vec<char> = vec!['r', 'g', 'b', 'y', 'k', 'w', 'p', 'c'];
        let mut r: Vec<char> = Vec::new();
        let mut i: usize = 0;
        while i < self.active_count
            invariant
                self.wf(),
                all@ == alphabet(),
                i <= self.active_count,
                r@ == alphabet().take(i as int),
            decreases self.active_count - i,
        {
            r.push(all[i]);
            i += 1;
            assert(r@ =~= alphabet().take(i as int));
        }
        r
    }

    /// Whether `c` is a symbol in play.
    pub fn is_active(&self, c: char) -> (r: bool)
        requires
            self.wf(),
        ensures
            r == self.active().contains(c),
    {
        let symbols = self.active_symbols();
        let mut i: usize = 0;
        while i < symbols.len()
            invariant
                symbols@ == self.active(),
                i <= symbols@.len(),
                forall|k: int| 0 <= k < i ==> symbols@[k] != c,
            decreases symbols.len() - i,
        {
            if symbols[i] == c {
                return true;
            }
            i += 1;
        }
        false
    }
}

} // verus!
