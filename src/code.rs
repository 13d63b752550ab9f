use vstd::prelude::*;

use crate::config::{symbol_count, Config};

verus! {

/// Relies on rand's `Rng::gen_range` over `thread_rng()`: a value drawn
/// from `0..n`. It panics on an empty range, which `requires` excludes.
#[verifier::external_body]
fn random_index(n: usize) -> (r: usize)
    requires
        n > 0,
    ensures
        r < n,
{
    rand::Rng::gen_range(&mut rand::thread_rng(), 0..n)
}

/// `x` may be appended to `partial`: the duplicate guard engages only once
/// `partial` is longer than the allowance, and then `x` must occur fewer
/// times than the allowance.
pub open spec fn may_append(cfg: Config, partial: Seq<char>, x: char) -> bool {
    partial.len() <= cfg.max_duplicates || symbol_count(partial, x, partial.len() as int)
        < cfg.max_duplicates
}

/// A generated code: the configured length, symbols in play, and each
/// symbol accepted under the duplicate guard given what came before it.
pub open spec fn is_generated_code(cfg: Config, code: Seq<char>) -> bool {
    &&& code.len() == cfg.code_length
    &&& forall|i: int| 0 <= i < code.len() ==> cfg.active().contains(#[trigger] code[i])
    &&& forall|i: int| 0 <= i < code.len() ==> may_append(cfg, code.take(i), #[trigger] code[i])
}

/// Sum over `syms` of how often each occurs in `s`.
spec fn total_count(syms: Seq<char>, s: Seq<char>) -> nat
    decreases syms.len(),
{
    if syms.len() == 0 {
        0
    } else {
        total_count(syms.drop_last(), s) + symbol_count(s, syms.last(), s.len() as int)
    }
}

proof fn lemma_symbol_count_push(s: Seq<char>, x: char, y: char, n: int)
    requires
        0 <= n <= s.len(),
    ensures
        symbol_count(s.push(x), y, n) == symbol_count(s, y, n),
    decreases n,
{
    if n > 0 {
        lemma_symbol_count_push(s, x, y, n - 1);
    }
}

proof fn lemma_total_count_push(syms: Seq<char>, s: Seq<char>, x: char)
    requires
        syms.no_duplicates(),
    ensures
        total_count(syms, s.push(x)) == total_count(syms, s) + if syms.contains(x) {
            1int
        } else {
            0int
        },
    decreases syms.len(),
{
    if syms.len() > 0 {
        let rest = syms.drop_last();
        assert(rest.no_duplicates());
        lemma_total_count_push(rest, s, x);
        lemma_symbol_count_push(s, x, syms.last(), s.len() as int);
        assert(syms =~= rest.push(syms.last()));
        if syms.contains(x) && x != syms.last() {
            let k = choose|k: int| 0 <= k < syms.len() && syms[k] == x;
            assert(rest[k] == x);
        }
        if rest.contains(x) {
            let k = choose|k: int| 0 <= k < rest.len() && rest[k] == x;
            assert(syms[k] == x);
        }
    }
}

proof fn lemma_total_count_bound(syms: Seq<char>, s: Seq<char>)
    requires
        syms.no_duplicates(),
    ensures
        total_count(syms, s) <= s.len(),
    decreases s.len(),
{
    if s.len() == 0 {
        assert(total_count(syms, s) == 0) by {
            lemma_total_count_empty(syms, s);
        }
    } else {
        let rest = s.drop_last();
        lemma_total_count_bound(syms, rest);
        lemma_total_count_push(syms, rest, s.last());
        assert(rest.push(s.last()) =~= s);
    }
}

proof fn lemma_total_count_empty(syms: Seq<char>, s: Seq<char>)
    requires
        s.len() == 0,
    ensures
        total_count(syms, s) == 0,
    decreases syms.len(),
{
    if syms.len() > 0 {
        lemma_total_count_empty(syms.drop_last(), s);
    }
}

proof fn lemma_all_saturated(syms: Seq<char>, s: Seq<char>, m: nat)
    requires
        forall|k: int| 0 <= k < syms.len() ==> symbol_count(s, #[trigger] syms[k], s.len() as int) >= m,
    ensures
        total_count(syms, s) >= m * syms.len(),
    decreases syms.len(),
{
    if syms.len() > 0 {
        let rest = syms.drop_last();
        assert forall|k: int| 0 <= k < rest.len() implies symbol_count(
            s,
            #[trigger] rest[k],
            s.len() as int,
        ) >= m by {
            assert(rest[k] == syms[k]);
        }
        lemma_all_saturated(rest, s, m);
        assert(symbol_count(s, syms[syms.len() - 1], s.len() as int) >= m);
        assert(m * syms.len() == m * rest.len() + m) by (nonlinear_arith)
            requires
                syms.len() == rest.len() + 1,
        ;
    }
}

/// Whether `x` already occurs in `choices` as often as the duplicate
/// allowance, so that one more would exceed it.
pub fn check_dupes(cfg: &Config, choices: &Vec<char>, x: char) -> (r: bool)
    ensures
        r == (symbol_count(choices@, x, choices@.len() as int) >= cfg.max_duplicates),
{
    let mut count: usize = 0;
    let mut i: usize = 0;
    while i < choices.len()
        invariant
            i <= choices@.len(),
            count == symbol_count(choices@, x, i as int),
            count <= i,
        decreases choices@.len() - i,
    {
        if choices[i] == x {
            count += 1;
        }
        i += 1;
    }
    count >= cfg.max_duplicates
}

/// Draws a secret code. Each position takes a symbol uniformly at random
/// from those in play that the duplicate guard accepts; this has the same
/// distribution as drawing from all symbols in play and drawing again while
/// the guard refuses.
pub fn generate_code(cfg: &Config) -> (r: Vec<char>)
    requires
        cfg.wf(),
    ensures
        is_generated_code(*cfg, r@),
{
    let symbols = cfg.active_symbols();
    proof {
        let a = crate::config::alphabet();
        assert(a.no_duplicates());
        assert(symbols@.no_duplicates());
    }
    let mut out: Vec<char> = Vec::new();
    while out.len() < cfg.code_length
        invariant
            cfg.wf(),
            symbols@ == cfg.active(),
            symbols@.no_duplicates(),
            out@.len() <= cfg.code_length,
            forall|i: int| 0 <= i < out@.len() ==> cfg.active().contains(#[trigger] out@[i]),
            forall|i: int|
                0 <= i < out@.len() ==> may_append(*cfg, out@.take(i), #[trigger] out@[i]),
        decreases cfg.code_length - out@.len(),
    {
        let mut allowed: Vec<char> = Vec::new();
        let mut k: usize = 0;
        while k < symbols.len()
            invariant
                k <= symbols@.len(),
                forall|j: int|
                    0 <= j < allowed@.len() ==> symbols@.contains(#[trigger] allowed@[j])
                        && may_append(*cfg, out@, allowed@[j]),
                forall|j: int|
                    0 <= j < k && may_append(*cfg, out@, #[trigger] symbols@[j])
                        ==> allowed@.contains(symbols@[j]),
            decreases symbols@.len() - k,
        {
            let x = symbols[k];
            let ghost prev = allowed@;
            if out.len() <= cfg.max_duplicates || !check_dupes(cfg, &out, x) {
                allowed.push(x);
                assert(allowed@[allowed@.len() - 1] == x);
                assert forall|j: int|
                    0 <= j < k && may_append(*cfg, out@, #[trigger] symbols@[j]) implies allowed@.contains(
                    symbols@[j],
                ) by {
                    let w = choose|w: int| 0 <= w < prev.len() && prev[w] == symbols@[j];
                    assert(allowed@[w] == symbols@[j]);
                }
            }
            k += 1;
        }
        if allowed.len() == 0 {
            proof {
                assert forall|j: int| 0 <= j < symbols@.len() implies symbol_count(
                    out@,
                    #[trigger] symbols@[j],
                    out@.len() as int,
                ) >= cfg.max_duplicates by {
                    if may_append(*cfg, out@, symbols@[j]) {
                        assert(allowed@.contains(symbols@[j]));
                    }
                }
                lemma_all_saturated(symbols@, out@, cfg.max_duplicates as nat);
                lemma_total_count_bound(symbols@, out@);
            }
        }
        let pin = allowed[random_index(allowed.len())];
        let ghost before = out@;
        out.push(pin);
        proof {
            assert forall|i: int| 0 <= i < out@.len() implies may_append(
                *cfg,
                out@.take(i),
                #[trigger] out@[i],
            ) by {
                if i == before.len() {
                    assert(out@.take(i) =~= before);
                } else {
                    assert(out@.take(i) =~= before.take(i));
                }
            }
        }
    }
    out
}

} // verus!
