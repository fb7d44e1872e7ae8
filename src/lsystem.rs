use vstd::prelude::*;

use crate::rules::{rules_text, RuleSet};
use crate::seq_util::{append_symbols, copy_symbols, string_of, symbols_of};

verus! {

/// What one occurrence of `c` becomes in a rewriting step: its replacement
/// when the table has a rule for it, else `c` itself.
pub open spec fn image(rules: Map<char, Seq<char>>, c: char) -> Seq<char> {
    if rules.contains_key(c) {
        rules[c]
    } else {
        seq![c]
    }
}

/// One rewriting step: every symbol of `s` replaced by its image, the images
/// concatenated in order.
pub open spec fn rewrite(rules: Map<char, Seq<char>>, s: Seq<char>) -> Seq<char>
    decreases s.len(),
{
    if s.len() == 0 {
        Seq::empty()
    } else {
        rewrite(rules, s.drop_last()) + image(rules, s.last())
    }
}

/// The sequence reached from `start` after `n` rewriting steps.
pub open spec fn generation(rules: Map<char, Seq<char>>, start: Seq<char>, n: nat) -> Seq<char>
    decreases n,
{
    if n == 0 {
        start
    } else {
        rewrite(rules, generation(rules, start, (n - 1) as nat))
    }
}

/// The readable form of a system: `lsystem!(S, ` with `S` the start
/// sequence, then the text of each rule of `listing`, then `);`.
pub open spec fn description(start: Seq<char>, listing: Seq<(char, Seq<char>)>) -> Seq<char> {
    seq!['l', 's', 'y', 's', 't', 'e', 'm', '!', '('] + start + seq![',', ' '] + rules_text(listing)
        + seq![')', ';']
}

/// A deterministic, context-free rewriting system over characters: a start sequence,
/// the current generation, and a table of rules.
#[derive(Clone)]
pub struct LSystem {
    start: Vec<char>,
    current_iteration: Vec<char>,
    rules: RuleSet,
}

impl LSystem {
    /// The starting sequence.
    pub closed spec fn axiom_of(&self) -> Seq<char> {
        self.start@
    }

    /// The current generation.
    pub closed spec fn current_of(&self) -> Seq<char> {
        self.current_iteration@
    }

    /// The rule table, as a map from symbols to replacements.
    pub closed spec fn rules_of(&self) -> Map<char, Seq<char>> {
        self.rules@
    }

    /// The rules in the order the rule table keeps them.
    pub closed spec fn rules_listing(&self) -> Seq<(char, Seq<char>)> {
        self.rules.listing()
    }

    /// Well-formed: the rule table is.
    pub closed spec fn wf(&self) -> bool {
        self.rules.wf()
    }

    /// An empty system: empty start sequence, empty current generation, no rules.
    pub fn new() -> (r: LSystem)
        ensures
            r.wf(),
            r.axiom_of() == Seq::<char>::empty(),
            r.current_of() == Seq::<char>::empty(),
            r.rules_of() == Map::<char, Seq<char>>::empty(),
    {
        LSystem { start: Vec::new(), current_iteration: Vec::new(), rules: RuleSet::new() }
    }

    /// A system at generation zero of `start`, with no rules.
    pub fn new_from_axiom_vec(start: Vec<char>) -> (r: LSystem)
        ensures
            r.wf(),
            r.axiom_of() == start@,
            r.current_of() == start@,
            r.rules_of() == Map::<char, Seq<char>>::empty(),
    {
        let current_iteration = copy_symbols(&start);
        LSystem { start, current_iteration, rules: RuleSet::new() }
    }

    /// A system at generation zero of the characters of `start`, with no rules.
    pub fn new_from_axiom_string(start: &str) -> (r: LSystem)
        ensures
            r.wf(),
            r.axiom_of() == start@,
            r.current_of() == start@,
            r.rules_of() == Map::<char, Seq<char>>::empty(),
    {
        LSystem {
            start: symbols_of(start),
            current_iteration: symbols_of(start),
            rules: RuleSet::new(),
        }
    }

    /// A system at generation zero of the characters of `start`, with `rules`.
    pub fn new_from_axiom_string_and_rules(start: &str, rules: RuleSet) -> (r: LSystem)
        requires
            rules.wf(),
        ensures
            r.wf(),
            r.axiom_of() == start@,
            r.current_of() == start@,
            r.rules_of() == rules@,
    {
        LSystem { start: symbols_of(start), current_iteration: symbols_of(start), rules }
    }

    /// The same as `new_from_axiom_string_and_rules`.
    pub fn new_from_axiom_vec_and_rules(start: &str, rules: RuleSet) -> (r: LSystem)
        requires
            rules.wf(),
        ensures
            r.wf(),
            r.axiom_of() == start@,
            r.current_of() == start@,
            r.rules_of() == rules@,
    {
        LSystem::new_from_axiom_string_and_rules(start, rules)
    }

    /// The start sequence.
    pub fn get_axiom(&self) -> (r: &Vec<char>)
        ensures
            r@ == self.axiom_of(),
    {
        &self.start
    }

    /// The start sequence as a string.
    pub fn get_axiom_str(&self) -> (r: String)
        ensures
            r@ == self.axiom_of(),
    {
        string_of(&self.start)
    }

    /// The readable form of the system: its start sequence and each rule as
    /// `c => "replacement"`, in the order the rule table keeps them.
    pub fn describe(&self) -> (r: String)
        ensures
            r@ == description(self.axiom_of(), self.rules_listing()),
    {
        let mut out: Vec<char> = vec!['l', 's', 'y', 's', 't', 'e', 'm', '!', '('];
        append_symbols(&mut out, &self.start);
        out.push(',');
        out.push(' ');
        self.rules.describe_rules(&mut out);
        out.push(')');
        out.push(';');
        string_of(&out)
    }

    /// The rule table.
    pub fn get_rules(&self) -> (r: &RuleSet)
        requires
            self.wf(),
        ensures
            r.wf(),
            r@ == self.rules_of(),
            r.listing() == self.rules_listing(),
    {
        &self.rules
    }

    /// The current generation.
    pub fn get_current(&self) -> (r: &Vec<char>)
        ensures
            r@ == self.current_of(),
    {
        &self.current_iteration
    }

    /// Replaces the start sequence; the current generation is left as it is.
    pub fn set_axiom(&mut self, start: Vec<char>)
        requires
            old(self).wf(),
        ensures
            final(self).wf(),
            final(self).axiom_of() == start@,
            final(self).current_of() == old(self).current_of(),
            final(self).rules_of() == old(self).rules_of(),
    {
        self.start = start;
    }

    /// Goes back to generation zero: the current generation becomes the start sequence.
    pub fn reset(&mut self)
        requires
            old(self).wf(),
        ensures
            final(self).wf(),
            final(self).current_of() == old(self).axiom_of(),
            final(self).axiom_of() == old(self).axiom_of(),
            final(self).rules_of() == old(self).rules_of(),
    {
        self.current_iteration = copy_symbols(&self.start);
    }

    /// Sets the replacement of `var`, overwriting any earlier rule for it.
    pub fn add_rule(&mut self, var: char, replacement: Vec<char>)
        requires
            old(self).wf(),
        ensures
            final(self).wf(),
            final(self).rules_of() == old(self).rules_of().insert(var, replacement@),
            final(self).axiom_of() == old(self).axiom_of(),
            final(self).current_of() == old(self).current_of(),
    {
        self.rules.insert(var, replacement);
    }

    /// Takes out the rule for `var`, handing back its replacement if it had one.
    pub fn remove_rule(&mut self, var: &char) -> (r: Option<Vec<char>>)
        requires
            old(self).wf(),
        ensures
            final(self).wf(),
            final(self).rules_of() == old(self).rules_of().remove(*var),
            final(self).axiom_of() == old(self).axiom_of(),
            final(self).current_of() == old(self).current_of(),
            match r {
                Some(v) => old(self).rules_of().contains_key(*var) && v@ == old(self).rules_of()[*var],
                None => !old(self).rules_of().contains_key(*var),
            },
    {
        self.rules.remove(*var)
    }

    /// Removes every rule.
    pub fn clear_rules(&mut self)
        requires
            old(self).wf(),
        ensures
            final(self).wf(),
            final(self).rules_of() == Map::<char, Seq<char>>::empty(),
            final(self).axiom_of() == old(self).axiom_of(),
            final(self).current_of() == old(self).current_of(),
    {
        self.rules.clear();
    }

    /// Advances one generation: each symbol of the current generation is
    /// replaced by its rule's replacement, or kept when it has no rule. The
    /// new generation is kept and a copy of it returned.
    pub fn step(&mut self) -> (r: Vec<char>)
        requires
            old(self).wf(),
        ensures
            final(self).wf(),
            final(self).current_of() == rewrite(old(self).rules_of(), old(self).current_of()),
            r@ == final(self).current_of(),
            final(self).axiom_of() == old(self).axiom_of(),
            final(self).rules_of() == old(self).rules_of(),
    {
        let mut next: Vec<char> = Vec::new();
        let mut i: usize = 0;
        while i < self.current_iteration.len()
            invariant
                self.rules.wf(),
                i <= self.current_iteration@.len(),
                next@ == rewrite(self.rules@, self.current_iteration@.take(i as int)),
            decreases self.current_iteration@.len() - i,
        {
            let c = self.current_iteration[i];
            match self.rules.get(c) {
                Some(replacement) => append_symbols(&mut next, replacement),
                None => next.push(c),
            }
            assert(self.current_iteration@.take(i as int + 1).drop_last()
                =~= self.current_iteration@.take(i as int));
            i = i + 1;
            assert(next@ =~= rewrite(self.rules@, self.current_iteration@.take(i as int)));
        }
        assert(self.current_iteration@.take(i as int) =~= self.current_iteration@);
        self.current_iteration = next;
        copy_symbols(&self.current_iteration)
    }
}

} // verus!
