use vstd::prelude::*;

use crate::lsystem::{generation, image, rewrite};

verus! {

/// `k` raised to the power `n`.
pub open spec fn power(k: nat, n: nat) -> nat
    decreases n,
{
    if n == 0 {
        1
    } else {
        k * power(k, (n - 1) as nat)
    }
}

/// How many times `c` occurs in `s`.
pub open spec fn count(s: Seq<char>, c: char) -> int
    decreases s.len(),
{
    if s.len() == 0 {
        0
    } else {
        count(s.drop_last(), c) + if s.last() == c { 1int } else { 0int }
    }
}

/// Opening brackets minus closing brackets in `s`.
pub open spec fn bracket_balance(s: Seq<char>) -> int {
    count(s, '[') - count(s, ']')
}

/// Rewriting distributes over concatenation.
pub proof fn lemma_rewrite_concat(rules: Map<char, Seq<char>>, a: Seq<char>, b: Seq<char>)
    ensures
        rewrite(rules, a + b) == rewrite(rules, a) + rewrite(rules, b),
    decreases b.len(),
{
    if b.len() == 0 {
        assert(a + b =~= a);
        assert(rewrite(rules, a) + rewrite(rules, b) =~= rewrite(rules, a));
    } else {
        assert((a + b).drop_last() =~= a + b.drop_last());
        assert((a + b).last() == b.last());
        lemma_rewrite_concat(rules, a, b.drop_last());
        assert(rewrite(rules, a + b) =~= rewrite(rules, a) + rewrite(rules, b));
    }
}

/// Counting distributes over concatenation.
pub proof fn lemma_count_concat(a: Seq<char>, b: Seq<char>, c: char)
    ensures
        count(a + b, c) == count(a, c) + count(b, c),
    decreases b.len(),
{
    if b.len() == 0 {
        assert(a + b =~= a);
    } else {
        assert((a + b).drop_last() =~= a + b.drop_last());
        assert((a + b).last() == b.last());
        lemma_count_concat(a, b.drop_last(), c);
    }
}

/// With no rules, a step leaves every sequence as it is.
pub proof fn law_empty_rules_identity(s: Seq<char>)
    ensures
        rewrite(Map::<char, Seq<char>>::empty(), s) == s,
    decreases s.len(),
{
    if s.len() > 0 {
        law_empty_rules_identity(s.drop_last());
        assert(s.drop_last() + seq![s.last()] =~= s);
    } else {
        assert(s =~= Seq::<char>::empty());
    }
}

/// Every replacement has length `k` and uses only symbols that have rules.
pub open spec fn uniform_closed(rules: Map<char, Seq<char>>, k: nat) -> bool {
    forall|c: char|
        #[trigger] rules.contains_key(c) ==> rules[c].len() == k && forall|i: int|
            0 <= i < rules[c].len() ==> rules.contains_key(#[trigger] rules[c][i])
}

/// Every symbol of `s` has a rule.
pub open spec fn all_ruled(rules: Map<char, Seq<char>>, s: Seq<char>) -> bool {
    forall|i: int| 0 <= i < s.len() ==> rules.contains_key(#[trigger] s[i])
}

proof fn lemma_rewrite_uniform(rules: Map<char, Seq<char>>, s: Seq<char>, k: nat)
    requires
        uniform_closed(rules, k),
        all_ruled(rules, s),
    ensures
        rewrite(rules, s).len() == s.len() * k,
        all_ruled(rules, rewrite(rules, s)),
    decreases s.len(),
{
    if s.len() > 0 {
        let p = s.drop_last();
        assert(all_ruled(rules, p)) by {
            assert forall|i: int| 0 <= i < p.len() implies rules.contains_key(#[trigger] p[i]) by {
                assert(p[i] == s[i]);
            }
        }
        lemma_rewrite_uniform(rules, p, k);
        let c = s.last();
        assert(rules.contains_key(c));
        assert(image(rules, c) == rules[c]);
        assert(s.len() * k == p.len() * k + k) by (nonlinear_arith)
            requires s.len() == p.len() + 1;
        let r = rewrite(rules, s);
        assert(r == rewrite(rules, p) + rules[c]);
        assert forall|i: int| 0 <= i < r.len() implies rules.contains_key(#[trigger] r[i]) by {
            if i < rewrite(rules, p).len() {
                assert(r[i] == rewrite(rules, p)[i]);
            } else {
                assert(r[i] == rules[c][i - rewrite(rules, p).len()]);
            }
        }
    }
}

/// When every replacement has length `k` and every symbol met has a rule,
/// generation `n` of a start sequence of length `l` has length `l * k^n`.
pub proof fn law_uniform_length(rules: Map<char, Seq<char>>, start: Seq<char>, k: nat, n: nat)
    requires
        uniform_closed(rules, k),
        all_ruled(rules, start),
    ensures
        generation(rules, start, n).len() == start.len() * power(k, n),
        all_ruled(rules, generation(rules, start, n)),
    decreases n,
{
    if n > 0 {
        let m = (n - 1) as nat;
        law_uniform_length(rules, start, k, m);
        lemma_rewrite_uniform(rules, generation(rules, start, m), k);
        let g = generation(rules, start, m);
        assert(generation(rules, start, n) == rewrite(rules, g));
        assert(power(k, n) == k * power(k, m));
        assert(g.len() * k == start.len() * (k * power(k, m))) by (nonlinear_arith)
            requires g.len() == start.len() * power(k, m);
    } else {
        assert(power(k, 0) == 1);
    }
}

/// Every rule keeps the bracket balance of the symbol it replaces.
pub open spec fn keeps_balance(rules: Map<char, Seq<char>>) -> bool {
    forall|c: char|
        #[trigger] rules.contains_key(c) ==> bracket_balance(rules[c]) == bracket_balance(seq![c])
}

/// Where every rule keeps the bracket balance of its symbol, a step keeps the
/// balance of the whole sequence.
pub proof fn law_balance_step(rules: Map<char, Seq<char>>, s: Seq<char>)
    requires
        keeps_balance(rules),
    ensures
        bracket_balance(rewrite(rules, s)) == bracket_balance(s),
    decreases s.len(),
{
    if s.len() > 0 {
        let p = s.drop_last();
        let c = s.last();
        law_balance_step(rules, p);
        lemma_count_concat(rewrite(rules, p), image(rules, c), '[');
        lemma_count_concat(rewrite(rules, p), image(rules, c), ']');
        assert(p + seq![c] =~= s);
        lemma_count_concat(p, seq![c], '[');
        lemma_count_concat(p, seq![c], ']');
    }
}

/// Where every rule keeps the bracket balance of its symbol, every
/// generation has the balance of the start sequence; a balanced start
/// sequence stays balanced.
pub proof fn law_balance_generation(rules: Map<char, Seq<char>>, start: Seq<char>, n: nat)
    requires
        keeps_balance(rules),
    ensures
        bracket_balance(generation(rules, start, n)) == bracket_balance(start),
    decreases n,
{
    if n > 0 {
        law_balance_generation(rules, start, (n - 1) as nat);
        law_balance_step(rules, generation(rules, start, (n - 1) as nat));
    }
}

} // verus!
