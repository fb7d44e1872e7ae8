use vstd::prelude::*;

use crate::seq_util::append_symbols;

verus! {

/// A table of rewriting rules: each symbol maps to at most one replacement.
///
/// The table is kept as a list of `(symbol, replacement)` pairs whose symbols
/// are pairwise distinct; its meaning is the map from symbols to
/// replacements given by `view`.
#[derive(Clone)]
pub struct RuleSet {
    entries: Vec<(char, Vec<char>)>,
}

/// Entry `i` of `entries` is the one for `c`.
pub open spec fn has_entry(entries: Seq<(char, Vec<char>)>, c: char, i: int) -> bool {
    0 <= i < entries.len() && entries[i].0 == c
}

/// The text of one rule: `c => "v", `.
pub open spec fn rule_text(c: char, v: Seq<char>) -> Seq<char> {
    seq![c, ' ', '=', '>', ' ', '"'] + v + seq!['"', ',', ' ']
}

/// The texts of the rules of `l`, one after another, in order.
pub open spec fn rules_text(l: Seq<(char, Seq<char>)>) -> Seq<char>
    decreases l.len(),
{
    if l.len() == 0 {
        Seq::empty()
    } else {
        rules_text(l.drop_last()) + rule_text(l.last().0, l.last().1)
    }
}

impl View for RuleSet {
    type V = Map<char, Seq<char>>;

    closed spec fn view(&self) -> Map<char, Seq<char>> {
        Map::new(
            |c: char| exists|i: int| has_entry(self.entries@, c, i),
            |c: char| self.entries@[choose|i: int| has_entry(self.entries@, c, i)].1@,
        )
    }
}

impl RuleSet {
    /// Well-formed: no symbol has two entries.
    pub closed spec fn wf(&self) -> bool {
        forall|i: int, j: int|
            0 <= i < self.entries@.len() && 0 <= j < self.entries@.len() && i != j
                ==> self.entries@[i].0 != self.entries@[j].0
    }

    /// The entry at index `i` is what the table holds for its symbol.
    proof fn lemma_entry(&self, i: int)
        requires
            self.wf(),
            0 <= i < self.entries@.len(),
        ensures
            self@.contains_key(self.entries@[i].0),
            self@[self.entries@[i].0] == self.entries@[i].1@,
    {
        let c = self.entries@[i].0;
        assert(has_entry(self.entries@, c, i));
        let j = choose|j: int| has_entry(self.entries@, c, j);
        assert(j == i);
    }

    /// What the table holds for `k`, read off the entries.
    proof fn lemma_keys(&self, k: char)
        requires
            self.wf(),
        ensures
            self@.contains_key(k) <==> exists|i: int| has_entry(self.entries@, k, i),
            forall|i: int| has_entry(self.entries@, k, i) ==> self@[k] == #[trigger] self.entries@[i].1@,
    {
        assert forall|i: int| has_entry(self.entries@, k, i) implies self@[k] == #[trigger] self.entries@[i].1@ by {
            self.lemma_entry(i);
        }
    }

    /// The rules in the order the table keeps them.
    pub closed spec fn listing(&self) -> Seq<(char, Seq<char>)> {
        self.entries@.map_values(|e: (char, Vec<char>)| (e.0, e.1@))
    }

    /// The listing holds each rule of the table once, and nothing else.
    pub proof fn lemma_listing(&self)
        requires
            self.wf(),
        ensures
            forall|i: int|
                0 <= i < self.listing().len() ==> self@.contains_key(#[trigger] self.listing()[i].0)
                    && self@[self.listing()[i].0] == self.listing()[i].1,
            forall|i: int, j: int|
                0 <= i < self.listing().len() && 0 <= j < self.listing().len() && i != j
                    ==> self.listing()[i].0 != self.listing()[j].0,
            forall|c: char|
                #[trigger] self@.contains_key(c) ==> exists|i: int|
                    0 <= i < self.listing().len() && self.listing()[i].0 == c,
    {
        assert forall|i: int| 0 <= i < self.listing().len() implies self@.contains_key(
            #[trigger] self.listing()[i].0,
        ) && self@[self.listing()[i].0] == self.listing()[i].1 by {
            self.lemma_entry(i);
        }
        assert forall|c: char| #[trigger] self@.contains_key(c) implies exists|i: int|
            0 <= i < self.listing().len() && self.listing()[i].0 == c by {
            let i = choose|i: int| has_entry(self.entries@, c, i);
            assert(self.listing()[i].0 == c);
        }
    }

    /// An empty table.
    pub fn new() -> (r: RuleSet)
        ensures
            r.wf(),
            r@ == Map::<char, Seq<char>>::empty(),
    {
        let r = RuleSet { entries: Vec::new() };
        assert(r@ =~= Map::<char, Seq<char>>::empty());
        r
    }

    /// The position of the entry for `c`, if there is one.
    fn find(&self, c: char) -> (r: Option<usize>)
        ensures
            match r {
                Some(i) => has_entry(self.entries@, c, i as int),
                None => forall|i: int| !has_entry(self.entries@, c, i),
            },
    {
        let mut i: usize = 0;
        while i < self.entries.len()
            invariant
                i <= self.entries@.len(),
                forall|k: int| 0 <= k < i ==> self.entries@[k].0 != c,
            decreases self.entries@.len() - i,
        {
            if self.entries[i].0 == c {
                return Some(i);
            }
            i = i + 1;
        }
        None
    }

    /// Whether `c` has a rule.
    pub fn contains(&self, c: char) -> (r: bool)
        requires
            self.wf(),
        ensures
            r == self@.contains_key(c),
    {
        self.find(c).is_some()
    }

    /// The replacement for `c`, if `c` has a rule.
    pub fn get(&self, c: char) -> (r: Option<&Vec<char>>)
        requires
            self.wf(),
        ensures
            match r {
                Some(v) => self@.contains_key(c) && v@ == self@[c],
                None => !self@.contains_key(c),
            },
    {
        match self.find(c) {
            Some(i) => {
                proof { self.lemma_entry(i as int); }
                Some(&self.entries[i].1)
            },
            None => None,
        }
    }
    /// Sets the replacement for `c`, overwriting any earlier one.
    pub fn insert(&mut self, c: char, v: Vec<char>)
        requires
            old(self).wf(),
        ensures
            final(self).wf(),
            final(self)@ == old(self)@.insert(c, v@),
    {
        let ghost v_view = v@;
        let ghost at: int;
        match self.find(c) {
            Some(i) => {
                let _ = self.entries.remove(i);
                self.entries.insert(i, (c, v));
                assert(self.entries@ =~= old(self).entries@.update(i as int, (c, self.entries@[i as int].1)));
                proof {
                    at = i as int;
                    assert(forall|j: int| 0 <= j < self.entries@.len() && j != at ==> old(self).entries@[j].0 != c);
                }
            },
            None => {
                self.entries.push((c, v));
                proof {
                    at = old(self).entries@.len() as int;
                    assert forall|j: int| 0 <= j < self.entries@.len() && j != at
                        implies old(self).entries@[j].0 != c by {
                        assert(!has_entry(old(self).entries@, c, j));
                    }
                }
            },
        }
        proof {
            assert(has_entry(self.entries@, c, at));
            assert(self.entries@[at].1@ == v_view);
            assert(forall|j: int| 0 <= j < self.entries@.len() && j != at ==> self.entries@[j] == old(self).entries@[j]);
            assert(forall|j: int| 0 <= j < self.entries@.len() && j != at ==> old(self).entries@[j].0 != c);
            assert forall|a: int, b: int|
                0 <= a < self.entries@.len() && 0 <= b < self.entries@.len() && a != b
                    implies self.entries@[a].0 != self.entries@[b].0 by {
                if a != at && b != at {
                    assert(self.entries@[a] == old(self).entries@[a]);
                    assert(self.entries@[b] == old(self).entries@[b]);
                }
            }
            assert(self.wf());
            assert forall|k: char| #[trigger] self@.contains_key(k) == old(self)@.insert(c, v_view).contains_key(k)
                && (self@.contains_key(k) ==> self@[k] == old(self)@.insert(c, v_view)[k]) by {
                old(self).lemma_keys(k);
                self.lemma_keys(k);
                if k == c {
                } else {
                    if old(self)@.contains_key(k) {
                        let j = choose|j: int| has_entry(old(self).entries@, k, j);
                        assert(has_entry(self.entries@, k, j));
                    }
                    if self@.contains_key(k) {
                        let j = choose|j: int| has_entry(self.entries@, k, j);
                        assert(has_entry(old(self).entries@, k, j));
                    }
                }
            }
            assert(self@ =~= old(self)@.insert(c, v_view));
        }
    }

    /// Takes out the rule for `c`, handing back its replacement if there was one.
    pub fn remove(&mut self, c: char) -> (r: Option<Vec<char>>)
        requires
            old(self).wf(),
        ensures
            final(self).wf(),
            final(self)@ == old(self)@.remove(c),
            match r {
                Some(v) => old(self)@.contains_key(c) && v@ == old(self)@[c],
                None => !old(self)@.contains_key(c),
            },
    {
        match self.find(c) {
            Some(i) => {
                proof { old(self).lemma_entry(i as int); }
                let entry = self.entries.remove(i);
                proof {
                            assert forall|k: char| #[trigger] self@.contains_key(k) == old(self)@.remove(c).contains_key(k)
                        && (self@.contains_key(k) ==> self@[k] == old(self)@.remove(c)[k]) by {
                        old(self).lemma_keys(k);
                        self.lemma_keys(k);
                        if old(self)@.contains_key(k) && k != c {
                            let j = choose|j: int| has_entry(old(self).entries@, k, j);
                            if j < i {
                                assert(has_entry(self.entries@, k, j));
                            } else {
                                assert(has_entry(self.entries@, k, j - 1));
                            }
                        }
                        if self@.contains_key(k) {
                            let j = choose|j: int| has_entry(self.entries@, k, j);
                            if j < i {
                                assert(has_entry(old(self).entries@, k, j));
                            } else {
                                assert(has_entry(old(self).entries@, k, j + 1));
                            }
                        }
                    }
                    assert(self@ =~= old(self)@.remove(c));
                }
                Some(entry.1)
            },
            None => {
                proof {
                    old(self).lemma_keys(c);
                    assert(self@ =~= old(self)@.remove(c));
                }
                None
            },
        }
    }

    /// Empties the table.
    pub fn clear(&mut self)
        requires
            old(self).wf(),
        ensures
            final(self).wf(),
            final(self)@ == Map::<char, Seq<char>>::empty(),
    {
        self.entries.clear();
        assert(self@ =~= Map::<char, Seq<char>>::empty());
    }
    /// Appends to `out` the text of every rule, in the order of `listing`.
    pub fn describe_rules(&self, out: &mut Vec<char>)
        ensures
            final(out)@ == old(out)@ + rules_text(self.listing()),
    {
        let mut i: usize = 0;
        while i < self.entries.len()
            invariant
                i <= self.entries@.len(),
                out@ == old(out)@ + rules_text(self.listing().take(i as int)),
            decreases self.entries@.len() - i,
        {
            let c = self.entries[i].0;
            out.push(c);
            out.push(' ');
            out.push('=');
            out.push('>');
            out.push(' ');
            out.push('"');
            append_symbols(out, &self.entries[i].1);
            out.push('"');
            out.push(',');
            out.push(' ');
            assert(self.listing().take(i as int + 1).drop_last() =~= self.listing().take(i as int));
            i = i + 1;
            assert(out@ =~= old(out)@ + rules_text(self.listing().take(i as int)));
        }
        assert(self.listing().take(i as int) =~= self.listing());
    }
}

} // verus!
