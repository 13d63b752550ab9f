use vstd::prelude::*;

use crate::config::{lemma_symbol_count_bound, lemma_symbol_count_positive, symbol_count, Config};

verus! {

/// Why a guess was rejected.
#[derive(Clone, Copy, Debug, PartialEq, Eq, Structural)]
pub enum InputError {
    /// The guess does not have the configured number of symbols.
    WrongLength,
    /// The guess holds a symbol that is not in play; this is the first one.
    InvalidSymbol(char),
    /// Some symbol occurs more often than the duplicate allowance.
    TooManyDuplicates,
}

/// The first symbol of `g` at or after position `i` that is not in play.
pub open spec fn first_invalid(cfg: Config, g: Seq<char>, i: int) -> Option<char>
    decreases g.len() - i,
{
    if i < 0 || i >= g.len() {
        None
    } else if !cfg.active().contains(g[i]) {
        Some(g[i])
    } else {
        first_invalid(cfg, g, i + 1)
    }
}

/// Some symbol occurs in `g` more often than allowed.
pub open spec fn has_excess_duplicates(cfg: Config, g: Seq<char>) -> bool {
    exists|x: char| symbol_count(g, x, g.len() as int) > cfg.max_duplicates
}

/// The verdict on a guess: its length first, then its symbols, then the
/// duplicate allowance.
pub open spec fn validation(cfg: Config, g: Seq<char>) -> Result<(), InputError> {
    if g.len() != cfg.code_length {
        Err(InputError::WrongLength)
    } else if first_invalid(cfg, g, 0) is Some {
        Err(InputError::InvalidSymbol(first_invalid(cfg, g, 0)->0))
    } else if has_excess_duplicates(cfg, g) {
        Err(InputError::TooManyDuplicates)
    } else {
        Ok(())
    }
}

/// `pairs` lists each symbol of `g` once, with how often it occurs there.
pub open spec fn is_frequency_table(g: Seq<char>, pairs: Seq<(char, usize)>) -> bool {
    &&& forall|a: int, b: int|
        0 <= a < b < pairs.len() ==> pairs[a].0 != pairs[b].0
    &&& forall|k: int|
        0 <= k < pairs.len() ==> pairs[k].1 == symbol_count(g, pairs[k].0, g.len() as int)
            && pairs[k].1 > 0
    &&& forall|x: char|
        symbol_count(g, x, g.len() as int) > 0 ==> exists|k: int|
            0 <= k < pairs.len() && #[trigger] pairs[k].0 == x
}

/// Counts each symbol of `input`: one pair per distinct symbol, in order of
/// first occurrence.
pub fn frequency(input: &Vec<char>) -> (r: Vec<(char, usize)>)
    ensures
        is_frequency_table(input@, r@),
{
    let ghost g = input@;
    let mut pairs: Vec<(char, usize)> = Vec::new();
    let mut i: usize = 0;
    while i < input.len()
        invariant
            g == input@,
            i <= g.len(),
            forall|a: int, b: int| 0 <= a < b < pairs@.len() ==> pairs@[a].0 != pairs@[b].0,
            forall|k: int|
                0 <= k < pairs@.len() ==> pairs@[k].1 == symbol_count(g, pairs@[k].0, i as int)
                    && pairs@[k].1 > 0,
            forall|x: char|
                symbol_count(g, x, i as int) > 0 ==> exists|k: int|
                    0 <= k < pairs@.len() && #[trigger] pairs@[k].0 == x,
        decreases g.len() - i,
    {
        let c = input[i];
        let mut k: usize = 0;
        while k < pairs.len() && pairs[k].0 != c
            invariant
                k <= pairs@.len(),
                forall|m: int| 0 <= m < k ==> pairs@[m].0 != c,
            decreases pairs@.len() - k,
        {
            k += 1;
        }
        let ghost old_pairs = pairs@;
        if k < pairs.len() {
            proof {
                lemma_symbol_count_bound(g, c, i as int);
            }
            let n = pairs[k].1;
            pairs.set(k, (c, n + 1));
            assert forall|x: char| #[trigger] symbol_count(g, x, i + 1) > 0 implies exists|m: int|
                0 <= m < pairs@.len() && #[trigger] pairs@[m].0 == x by {
                if symbol_count(g, x, i as int) > 0 {
                    let m = choose|m: int| 0 <= m < old_pairs.len() && #[trigger] old_pairs[m].0 == x;
                    assert(pairs@[m].0 == x);
                } else {
                    assert(pairs@[k as int].0 == x);
                }
            }
        } else {
            assert(symbol_count(g, c, i as int) == 0);
            pairs.push((c, 1));
            assert forall|x: char| #[trigger] symbol_count(g, x, i + 1) > 0 implies exists|m: int|
                0 <= m < pairs@.len() && #[trigger] pairs@[m].0 == x by {
                if symbol_count(g, x, i as int) > 0 {
                    let m = choose|m: int| 0 <= m < old_pairs.len() && #[trigger] old_pairs[m].0 == x;
                    assert(pairs@[m].0 == x);
                } else {
                    assert(pairs@[old_pairs.len() as int].0 == x);
                }
            }
        }
        i += 1;
    }
    pairs
}

/// Checks a guess against the configuration; the first failing rule wins.
pub fn validate_input(cfg: &Config, guess: &Vec<char>) -> (r: Result<(), InputError>)
    requires
        cfg.wf(),
    ensures
        r == validation(*cfg, guess@),
{
    let ghost g = guess@;
    if guess.len() != cfg.code_length {
        return Err(InputError::WrongLength);
    }
    let mut i: usize = 0;
    while i < guess.len()
        invariant
            cfg.wf(),
            g == guess@,
            g.len() == cfg.code_length,
            i <= g.len(),
            first_invalid(*cfg, g, 0) == first_invalid(*cfg, g, i as int),
        decreases g.len() - i,
    {
        let c = guess[i];
        if !cfg.is_active(c) {
            assert(first_invalid(*cfg, g, i as int) == Some(c));
            return Err(InputError::InvalidSymbol(c));
        }
        assert(first_invalid(*cfg, g, i as int) == first_invalid(*cfg, g, i + 1));
        i += 1;
    }
    assert(first_invalid(*cfg, g, i as int) is None);
    let table = frequency(guess);
    let mut k: usize = 0;
    while k < table.len()
        invariant
            g == guess@,
            is_frequency_table(g, table@),
            first_invalid(*cfg, g, 0) is None,
            g.len() == cfg.code_length,
            k <= table@.len(),
            forall|m: int| 0 <= m < k ==> table@[m].1 <= cfg.max_duplicates,
        decreases table@.len() - k,
    {
        if table[k].1 > cfg.max_duplicates {
            assert(symbol_count(g, table@[k as int].0, g.len() as int) > cfg.max_duplicates);
            assert(has_excess_duplicates(*cfg, g));
            return Err(InputError::TooManyDuplicates);
        }
        k += 1;
    }
    assert forall|x: char| symbol_count(g, x, g.len() as int) <= cfg.max_duplicates by {
        if symbol_count(g, x, g.len() as int) > 0 {
            let m = choose|m: int| 0 <= m < table@.len() && #[trigger] table@[m].0 == x;
            assert(table@[m].1 <= cfg.max_duplicates);
        }
    }
    assert(!has_excess_duplicates(*cfg, g));
    Ok(())
}

} // verus!
