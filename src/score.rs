use vstd::prelude::*;

use crate::config::symbol_count;

verus! {

/// The mark given to one guess position.
#[derive(Clone, Copy, Debug, PartialEq, Eq, Structural)]
pub enum Mark {
    /// Right symbol in the right position.
    Exact,
    /// Symbol present elsewhere in the code, after exact matches are removed.
    Present,
    /// No remaining match in the code.
    Absent,
}

/// `true` at each position where code and guess hold the same symbol.
pub open spec fn exact_flags(code: Seq<char>, guess: Seq<char>) -> Seq<bool> {
    Seq::new(code.len(), |j: int| code[j] == guess[j])
}

/// Number of positions `j < n` of `s` holding `x` that `used` does not flag.
pub open spec fn open_count(s: Seq<char>, used: Seq<bool>, x: char, n: int) -> nat
    decreases n,
{
    if n <= 0 {
        0
    } else {
        open_count(s, used, x, n - 1) + if !used[n - 1] && s[n - 1] == x {
            1nat
        } else {
            0nat
        }
    }
}

/// Code positions holding `x` that no exact match took.
pub open spec fn code_left(code: Seq<char>, guess: Seq<char>, x: char) -> nat {
    open_count(code, exact_flags(code, guess), x, code.len() as int)
}

/// Guess positions before `i` holding `x` that are not exact matches.
pub open spec fn guess_left_before(code: Seq<char>, guess: Seq<char>, x: char, i: int) -> nat {
    open_count(guess, exact_flags(code, guess), x, i)
}

/// The mark of guess position `i`: exact where the symbols agree; otherwise
/// present while earlier non-exact guesses of the same symbol have not yet
/// used up the code's non-exact positions holding it.
pub open spec fn mark_at(code: Seq<char>, guess: Seq<char>, i: int) -> Mark {
    if guess[i] == code[i] {
        Mark::Exact
    } else if guess_left_before(code, guess, guess[i], i) < code_left(code, guess, guess[i]) {
        Mark::Present
    } else {
        Mark::Absent
    }
}

/// The score of `guess` against `code`, one mark per guess position.
pub open spec fn score_of(code: Seq<char>, guess: Seq<char>) -> Seq<Mark> {
    Seq::new(guess.len(), |i: int| mark_at(code, guess, i))
}

/// `a - b` where it is positive, else zero.
pub open spec fn excess(a: int, b: int) -> int {
    if a > b {
        a - b
    } else {
        0
    }
}

proof fn lemma_open_count_zero(s: Seq<char>, used: Seq<bool>, x: char, n: int)
    requires
        0 <= n <= s.len(),
        n <= used.len(),
        forall|k: int| 0 <= k < n ==> used[k] || s[k] != x,
    ensures
        open_count(s, used, x, n) == 0,
    decreases n,
{
    if n > 0 {
        lemma_open_count_zero(s, used, x, n - 1);
    }
}

proof fn lemma_open_count_positive(s: Seq<char>, used: Seq<bool>, x: char, n: int, j: int)
    requires
        0 <= j < n <= s.len(),
        n <= used.len(),
        !used[j],
        s[j] == x,
    ensures
        open_count(s, used, x, n) > 0,
    decreases n,
{
    if j < n - 1 {
        lemma_open_count_positive(s, used, x, n - 1, j);
    }
}

proof fn lemma_open_count_take(s: Seq<char>, used: Seq<bool>, x: char, n: int, j: int)
    requires
        0 <= n <= s.len(),
        s.len() == used.len(),
        0 <= j < s.len(),
    ensures
        open_count(s, used.update(j, true), x, n) + (if j < n && !used[j] && s[j] == x {
            1int
        } else {
            0int
        }) == open_count(s, used, x, n),
    decreases n,
{
    if n > 0 {
        lemma_open_count_take(s, used, x, n - 1, j);
    }
}

/// Scores `guess` against `code`: a first pass marks exact matches and takes
/// those positions out of play; a second pass, left to right, matches each
/// remaining guess position with the leftmost code position still open that
/// holds the same symbol.
pub fn check_input(code: &Vec<char>, guess: &Vec<char>) -> (r: Vec<Mark>)
    requires
        code@.len() == guess@.len(),
    ensures
        r@ == score_of(code@, guess@),
{
    let n = code.len();
    let ghost c = code@;
    let ghost g = guess@;
    let ghost flags = exact_flags(c, g);
    let mut result: Vec<Mark> = Vec::new();
    let mut used: Vec<bool> = Vec::new();
    let mut i: usize = 0;
    while i < n
        invariant
            n == c.len() == g.len(),
            c == code@,
            g == guess@,
            flags == exact_flags(c, g),
            i <= n,
            result@.len() == i,
            used@.len() == i,
            forall|j: int| 0 <= j < i ==> used@[j] == flags[j],
            forall|j: int|
                0 <= j < i ==> result@[j] == (if flags[j] {
                    Mark::Exact
                } else {
                    Mark::Absent
                }),
        decreases n - i,
    {
        if guess[i] == code[i] {
            result.push(Mark::Exact);
            used.push(true);
        } else {
            result.push(Mark::Absent);
            used.push(false);
        }
        i += 1;
    }
    assert(used@ =~= flags);
    let mut i: usize = 0;
    while i < n
        invariant
            n == c.len() == g.len(),
            c == code@,
            g == guess@,
            flags == exact_flags(c, g),
            i <= n,
            result@.len() == n,
            used@.len() == n,
            forall|j: int| 0 <= j < i ==> result@[j] == mark_at(c, g, j),
            forall|j: int|
                i <= j < n ==> result@[j] == (if flags[j] {
                    Mark::Exact
                } else {
                    Mark::Absent
                }),
            forall|x: char|
                #[trigger] open_count(c, used@, x, n as int) == excess(
                    code_left(c, g, x) as int,
                    guess_left_before(c, g, x, i as int) as int,
                ),
        decreases n - i,
    {
        let pin = guess[i];
        let ghost before = used@;
        if pin != code[i] {
            let mut j: usize = 0;
            while j < n && (used[j] || code[j] != pin)
                invariant
                    n == c.len() == used@.len(),
                    c == code@,
                    j <= n,
                    forall|k: int| 0 <= k < j ==> used@[k] || c[k] != pin,
                decreases n - j,
            {
                j += 1;
            }
            if j < n {
                proof {
                    lemma_open_count_positive(c, used@, pin, n as int, j as int);
                }
                used.set(j, true);
                result.set(i, Mark::Present);
            } else {
                proof {
                    lemma_open_count_zero(c, used@, pin, n as int);
                }
            }
            assert forall|x: char|
                #[trigger] open_count(c, used@, x, n as int) == excess(
                    code_left(c, g, x) as int,
                    guess_left_before(c, g, x, i + 1) as int,
                ) by {
                assert(open_count(c, before, x, n as int) == excess(
                    code_left(c, g, x) as int,
                    guess_left_before(c, g, x, i as int) as int,
                ));
                if j < n {
                    lemma_open_count_take(c, before, x, n as int, j as int);
                }
            }
        } else {
            assert forall|x: char|
                #[trigger] open_count(c, used@, x, n as int) == excess(
                    code_left(c, g, x) as int,
                    guess_left_before(c, g, x, i + 1) as int,
                ) by {
                assert(open_count(c, before, x, n as int) == excess(
                    code_left(c, g, x) as int,
                    guess_left_before(c, g, x, i as int) as int,
                ));
            }
        }
        i += 1;
    }
    assert(result@ =~= score_of(c, g));
    result
}

/// Number of positions `i < n` of `s` holding mark `m`.
pub open spec fn mark_count(s: Seq<Mark>, m: Mark, n: int) -> nat
    decreases n,
{
    if n <= 0 {
        0
    } else {
        mark_count(s, m, n - 1) + if s[n - 1] == m {
            1nat
        } else {
            0nat
        }
    }
}

/// Number of positions `i < n` where code and guess hold the same symbol.
pub open spec fn agree_count(code: Seq<char>, guess: Seq<char>, n: int) -> nat
    decreases n,
{
    if n <= 0 {
        0
    } else {
        agree_count(code, guess, n - 1) + if guess[n - 1] == code[n - 1] {
            1nat
        } else {
            0nat
        }
    }
}

/// Number of guess positions `i < n` holding `x` whose mark is not `Absent`.
pub open spec fn symbol_hits(code: Seq<char>, guess: Seq<char>, x: char, n: int) -> nat
    decreases n,
{
    if n <= 0 {
        0
    } else {
        symbol_hits(code, guess, x, n - 1) + if guess[n - 1] == x && mark_at(code, guess, n - 1)
            != Mark::Absent {
            1nat
        } else {
            0nat
        }
    }
}

/// Number of positions `i < n` holding `x` in both code and guess.
pub open spec fn symbol_agree(code: Seq<char>, guess: Seq<char>, x: char, n: int) -> nat
    decreases n,
{
    if n <= 0 {
        0
    } else {
        symbol_agree(code, guess, x, n - 1) + if guess[n - 1] == x && code[n - 1] == x {
            1nat
        } else {
            0nat
        }
    }
}

pub open spec fn min_nat(a: nat, b: nat) -> nat {
    if a < b {
        a
    } else {
        b
    }
}

proof fn lemma_exact_count_upto(code: Seq<char>, guess: Seq<char>, n: int)
    requires
        code.len() == guess.len(),
        0 <= n <= guess.len(),
    ensures
        mark_count(score_of(code, guess), Mark::Exact, n) == agree_count(code, guess, n),
    decreases n,
{
    if n > 0 {
        lemma_exact_count_upto(code, guess, n - 1);
    }
}

/// The number of `Exact` marks equals the number of positions where guess
/// and code hold the same symbol.
pub proof fn lemma_exact_count(code: Seq<char>, guess: Seq<char>)
    requires
        code.len() == guess.len(),
    ensures
        mark_count(score_of(code, guess), Mark::Exact, guess.len() as int) == agree_count(
            code,
            guess,
            guess.len() as int,
        ),
{
    lemma_exact_count_upto(code, guess, guess.len() as int);
}

proof fn lemma_symbol_hits_upto(code: Seq<char>, guess: Seq<char>, x: char, n: int)
    requires
        code.len() == guess.len(),
        0 <= n <= guess.len(),
    ensures
        symbol_hits(code, guess, x, n) == symbol_agree(code, guess, x, n) + min_nat(
            guess_left_before(code, guess, x, n),
            code_left(code, guess, x),
        ),
        symbol_count(guess, x, n) == symbol_agree(code, guess, x, n) + guess_left_before(
            code,
            guess,
            x,
            n,
        ),
        symbol_count(code, x, n) == symbol_agree(code, guess, x, n) + open_count(
            code,
            exact_flags(code, guess),
            x,
            n,
        ),
    decreases n,
{
    if n > 0 {
        lemma_symbol_hits_upto(code, guess, x, n - 1);
    }
}

/// For each symbol, the guess positions holding it that score `Exact` or
/// `Present` number exactly the smaller of its counts in code and guess.
/// Summed over all symbols, `Exact` plus `Present` marks therefore equal the
/// size of the multiset intersection of code and guess.
pub proof fn lemma_symbol_hits(code: Seq<char>, guess: Seq<char>, x: char)
    requires
        code.len() == guess.len(),
    ensures
        symbol_hits(code, guess, x, guess.len() as int) == min_nat(
            symbol_count(code, x, code.len() as int),
            symbol_count(guess, x, guess.len() as int),
        ),
{
    lemma_symbol_hits_upto(code, guess, x, guess.len() as int);
}

proof fn lemma_agree_swap(code: Seq<char>, guess: Seq<char>, x: char, n: int)
    requires
        code.len() == guess.len(),
        0 <= n <= guess.len(),
    ensures
        agree_count(code, guess, n) == agree_count(guess, code, n),
        symbol_agree(code, guess, x, n) == symbol_agree(guess, code, x, n),
    decreases n,
{
    if n > 0 {
        lemma_agree_swap(code, guess, x, n - 1);
    }
}

/// Swapping code and guess keeps the mark counts, though not the positions:
/// the number of `Exact` marks is unchanged, and for each symbol so are the
/// numbers of positions holding it marked `Exact` or `Present`.
pub proof fn lemma_counts_symmetric(code: Seq<char>, guess: Seq<char>, x: char)
    requires
        code.len() == guess.len(),
    ensures
        mark_count(score_of(code, guess), Mark::Exact, guess.len() as int) == mark_count(
            score_of(guess, code),
            Mark::Exact,
            code.len() as int,
        ),
        symbol_hits(code, guess, x, guess.len() as int) == symbol_hits(
            guess,
            code,
            x,
            code.len() as int,
        ),
{
    lemma_exact_count(code, guess);
    lemma_exact_count(guess, code);
    lemma_agree_swap(code, guess, x, guess.len() as int);
    lemma_symbol_hits(code, guess, x);
    lemma_symbol_hits(guess, code, x);
}

/// A score is all `Exact` exactly when the guess equals the code.
pub proof fn lemma_win_iff_equal(code: Seq<char>, guess: Seq<char>)
    requires
        code.len() == guess.len(),
    ensures
        score_of(code, guess) == Seq::new(guess.len(), |i: int| Mark::Exact) <==> guess == code,
{
    let all = Seq::new(guess.len(), |i: int| Mark::Exact);
    if score_of(code, guess) == all {
        assert forall|i: int| 0 <= i < guess.len() implies guess[i] == code[i] by {
            assert(score_of(code, guess)[i] == all[i]);
        }
        assert(guess =~= code);
    }
    if guess == code {
        assert(score_of(code, guess) =~= all);
    }
}

/// Number of guess positions `i < n` whose mark is not `Absent`.
pub open spec fn hit_count(code: Seq<char>, guess: Seq<char>, n: int) -> nat
    decreases n,
{
    if n <= 0 {
        0
    } else {
        hit_count(code, guess, n - 1) + if mark_at(code, guess, n - 1) != Mark::Absent {
            1nat
        } else {
            0nat
        }
    }
}

/// Sum over the symbols of `syms` of the smaller of their counts in code and
/// guess: the size of the multiset intersection, where `syms` lists every
/// symbol of both once.
pub open spec fn min_sum(code: Seq<char>, guess: Seq<char>, syms: Seq<char>) -> nat
    decreases syms.len(),
{
    if syms.len() == 0 {
        0
    } else {
        min_sum(code, guess, syms.drop_last()) + min_nat(
            symbol_count(code, syms.last(), code.len() as int),
            symbol_count(guess, syms.last(), guess.len() as int),
        )
    }
}

/// Sum over the symbols of `syms` of their hits among the first `n` positions.
spec fn hits_sum(code: Seq<char>, guess: Seq<char>, syms: Seq<char>, n: int) -> nat
    decreases syms.len(),
{
    if syms.len() == 0 {
        0
    } else {
        hits_sum(code, guess, syms.drop_last(), n) + symbol_hits(code, guess, syms.last(), n)
    }
}

/// Every symbol of `s` occurs in `syms`, and `syms` lists each once.
pub open spec fn lists_symbols_of(syms: Seq<char>, s: Seq<char>) -> bool {
    &&& syms.no_duplicates()
    &&& forall|i: int| 0 <= i < s.len() ==> syms.contains(#[trigger] s[i])
}

proof fn lemma_hits_sum_step(code: Seq<char>, guess: Seq<char>, syms: Seq<char>, n: int)
    requires
        code.len() == guess.len(),
        0 <= n < guess.len(),
        syms.no_duplicates(),
    ensures
        hits_sum(code, guess, syms, n + 1) == hits_sum(code, guess, syms, n) + if syms.contains(
            guess[n],
        ) && mark_at(code, guess, n) != Mark::Absent {
            1int
        } else {
            0int
        },
    decreases syms.len(),
{
    if syms.len() > 0 {
        let rest = syms.drop_last();
        assert(rest.no_duplicates());
        lemma_hits_sum_step(code, guess, rest, n);
        assert(syms =~= rest.push(syms.last()));
        let x = guess[n];
        if syms.contains(x) && x != syms.last() {
            let k = choose|k: int| 0 <= k < syms.len() && syms[k] == x;
            assert(rest[k] == x);
        }
        if rest.contains(x) {
            let k = choose|k: int| 0 <= k < rest.len() && rest[k] == x;
            assert(syms[k] == x);
        }
    }
}

proof fn lemma_hits_sum_zero(code: Seq<char>, guess: Seq<char>, syms: Seq<char>)
    ensures
        hits_sum(code, guess, syms, 0) == 0,
    decreases syms.len(),
{
    if syms.len() > 0 {
        lemma_hits_sum_zero(code, guess, syms.drop_last());
    }
}

proof fn lemma_hits_sum_upto(code: Seq<char>, guess: Seq<char>, syms: Seq<char>, n: int)
    requires
        code.len() == guess.len(),
        0 <= n <= guess.len(),
        lists_symbols_of(syms, guess),
    ensures
        hits_sum(code, guess, syms, n) == hit_count(code, guess, n),
    decreases n,
{
    if n == 0 {
        lemma_hits_sum_zero(code, guess, syms);
    } else {
        lemma_hits_sum_upto(code, guess, syms, n - 1);
        lemma_hits_sum_step(code, guess, syms, n - 1);
        assert(syms.contains(guess[n - 1]));
    }
}

proof fn lemma_hits_sum_min_sum(code: Seq<char>, guess: Seq<char>, syms: Seq<char>)
    requires
        code.len() == guess.len(),
    ensures
        hits_sum(code, guess, syms, guess.len() as int) == min_sum(code, guess, syms),
    decreases syms.len(),
{
    if syms.len() > 0 {
        lemma_hits_sum_min_sum(code, guess, syms.drop_last());
        lemma_symbol_hits(code, guess, syms.last());
    }
}

proof fn lemma_hit_count_marks(code: Seq<char>, guess: Seq<char>, n: int)
    requires
        code.len() == guess.len(),
        0 <= n <= guess.len(),
    ensures
        hit_count(code, guess, n) == mark_count(score_of(code, guess), Mark::Exact, n)
            + mark_count(score_of(code, guess), Mark::Present, n),
    decreases n,
{
    if n > 0 {
        lemma_hit_count_marks(code, guess, n - 1);
    }
}

proof fn lemma_min_sum_swap(code: Seq<char>, guess: Seq<char>, syms: Seq<char>)
    ensures
        min_sum(code, guess, syms) == min_sum(guess, code, syms),
    decreases syms.len(),
{
    if syms.len() > 0 {
        lemma_min_sum_swap(code, guess, syms.drop_last());
    }
}

/// `Exact` plus `Present` marks number exactly the size of the multiset
/// intersection of code and guess, the sum over all symbols of the smaller
/// of their two counts (written over a list `syms` of the symbols of both),
/// so they never exceed it.
pub proof fn lemma_hits_are_intersection(code: Seq<char>, guess: Seq<char>, syms: Seq<char>)
    requires
        code.len() == guess.len(),
        lists_symbols_of(syms, code),
        lists_symbols_of(syms, guess),
    ensures
        mark_count(score_of(code, guess), Mark::Exact, guess.len() as int) + mark_count(
            score_of(code, guess),
            Mark::Present,
            guess.len() as int,
        ) == min_sum(code, guess, syms),
{
    lemma_hit_count_marks(code, guess, guess.len() as int);
    lemma_hits_sum_upto(code, guess, syms, guess.len() as int);
    lemma_hits_sum_min_sum(code, guess, syms);
}

/// Swapping code and guess keeps the number of `Exact` marks and the number
/// of `Present` marks.
pub proof fn lemma_mark_counts_symmetric(code: Seq<char>, guess: Seq<char>)
    requires
        code.len() == guess.len(),
    ensures
        mark_count(score_of(code, guess), Mark::Exact, guess.len() as int) == mark_count(
            score_of(guess, code),
            Mark::Exact,
            code.len() as int,
        ),
        mark_count(score_of(code, guess), Mark::Present, guess.len() as int) == mark_count(
            score_of(guess, code),
            Mark::Present,
            code.len() as int,
        ),
{
    let syms = symbols_of(code + guess);
    lemma_symbols_of(code + guess);
    assert forall|i: int| 0 <= i < code.len() implies syms.contains(#[trigger] code[i]) by {
        assert((code + guess)[i] == code[i]);
    }
    assert forall|i: int| 0 <= i < guess.len() implies syms.contains(#[trigger] guess[i]) by {
        assert((code + guess)[code.len() + i] == guess[i]);
    }
    lemma_hits_are_intersection(code, guess, syms);
    lemma_hits_are_intersection(guess, code, syms);
    lemma_min_sum_swap(code, guess, syms);
    lemma_exact_count(code, guess);
    lemma_exact_count(guess, code);
    lemma_agree_swap(code, guess, ' ', guess.len() as int);
}

/// The distinct symbols of `s`, in order of first occurrence.
pub open spec fn symbols_of(s: Seq<char>) -> Seq<char>
    decreases s.len(),
{
    if s.len() == 0 {
        Seq::empty()
    } else {
        let r = symbols_of(s.drop_last());
        if r.contains(s.last()) {
            r
        } else {
            r.push(s.last())
        }
    }
}

proof fn lemma_symbols_of(s: Seq<char>)
    ensures
        lists_symbols_of(symbols_of(s), s),
    decreases s.len(),
{
    if s.len() > 0 {
        let p = s.drop_last();
        lemma_symbols_of(p);
        let r = symbols_of(p);
        assert forall|i: int| 0 <= i < s.len() implies symbols_of(s).contains(#[trigger] s[i]) by {
            if i < p.len() {
                assert(p[i] == s[i]);
                let k = choose|k: int| 0 <= k < r.len() && r[k] == p[i];
                if !r.contains(s.last()) {
                    assert(r.push(s.last())[k] == s[i]);
                }
            } else {
                if !r.contains(s.last()) {
                    assert(r.push(s.last())[r.len() as int] == s.last());
                }
            }
        }
    }
}

} // verus!
