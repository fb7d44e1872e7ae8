use lsystem::{LSystem, RuleSet};

fn chars(s: &str) -> Vec<char> {
    s.chars().collect()
}

fn text(v: &Vec<char>) -> String {
    v.iter().collect()
}

fn dragon() -> LSystem {
    let mut rules = RuleSet::new();
    rules.insert('T', chars("TxF"));
    rules.insert('F', chars("TXF"));
    LSystem::new_from_axiom_string_and_rules("T", rules)
}

#[test]
fn empty_system_is_empty() {
    let mut l = LSystem::new();
    assert!(l.get_axiom().is_empty());
    assert!(l.get_current().is_empty());
    assert!(!l.get_rules().contains('F'));
    assert!(l.step().is_empty());
}

#[test]
fn identity_on_empty_rules() {
    for start in ["", "F", "F+F-[X]", "aXb"] {
        let mut l = LSystem::new_from_axiom_string(start);
        assert_eq!(text(&l.step()), start);
        assert_eq!(text(l.get_current()), start);
        let mut v = LSystem::new_from_axiom_vec(chars(start));
        assert_eq!(text(&v.step()), start);
    }
}

#[test]
fn reset_is_idempotent() {
    let mut l = dragon();
    l.step();
    l.step();
    l.reset();
    let once = l.get_current().clone();
    l.reset();
    assert_eq!(l.get_current(), &once);
    assert_eq!(text(l.get_current()), "T");
}

#[test]
fn reset_from_generation_zero() {
    let mut l = dragon();
    l.reset();
    assert_eq!(text(l.get_current()), "T");
}

#[test]
fn step_is_deterministic() {
    let mut a = dragon();
    let mut b = dragon();
    for _ in 0..5 {
        assert_eq!(a.step(), b.step());
    }
    let mut c = dragon();
    c.step();
    let first = c.step();
    c.reset();
    c.step();
    let second = c.step();
    assert_eq!(first, second);
}

#[test]
fn uniform_rules_give_exact_lengths() {
    let mut rules = RuleSet::new();
    rules.insert('a', chars("ab"));
    rules.insert('b', chars("ba"));
    let mut l = LSystem::new_from_axiom_string_and_rules("aba", rules);
    for n in 1..=6u32 {
        l.step();
        assert_eq!(l.get_current().len(), 3 * 2usize.pow(n));
    }
}

#[test]
fn deletion_rule() {
    let mut l = LSystem::new_from_axiom_string("aXb");
    l.add_rule('X', vec![]);
    assert_eq!(text(&l.step()), "ab");
}

#[test]
fn rule_overwrite() {
    let mut l = LSystem::new_from_axiom_string("F");
    l.add_rule('F', chars("FF"));
    l.add_rule('F', chars("F+F"));
    assert_eq!(text(&l.step()), "F+F");
    assert_eq!(l.get_rules().get('F'), Some(&chars("F+F")));
}

#[test]
fn dragon_curve() {
    let mut l = dragon();
    assert_eq!(text(&l.step()), "TxF");
    assert_eq!(text(l.get_current()), "TxF");
    assert_eq!(text(&l.step()), "TxFxTXF");
}

#[test]
fn dragon_from_vec_constructor() {
    let mut rules = RuleSet::new();
    rules.insert('T', chars("TxF"));
    rules.insert('F', chars("TXF"));
    let mut l = LSystem::new_from_axiom_vec_and_rules("T", rules);
    l.step();
    assert_eq!(text(&l.step()), "TxFxTXF");
}

#[test]
fn plant_keeps_brackets_balanced() {
    let mut rules = RuleSet::new();
    rules.insert('X', chars("F+[[X]-X]-F[-FX]+X"));
    rules.insert('F', chars("FF"));
    let mut l = LSystem::new_from_axiom_string_and_rules("X", rules);
    for _ in 0..5 {
        let g = l.step();
        let open = g.iter().filter(|c| **c == '[').count();
        let close = g.iter().filter(|c| **c == ']').count();
        assert_eq!(open, close);
        assert!(open > 0);
    }
}

#[test]
fn set_axiom_leaves_current_until_reset() {
    let mut l = dragon();
    l.step();
    l.set_axiom(chars("F"));
    assert_eq!(l.get_axiom_str(), "F");
    assert_eq!(text(l.get_current()), "TxF");
    l.reset();
    assert_eq!(text(l.get_current()), "F");
    assert_eq!(text(&l.step()), "TXF");
}

#[test]
fn remove_rule_hands_back_replacement() {
    let mut l = dragon();
    assert_eq!(l.remove_rule(&'F'), Some(chars("TXF")));
    assert_eq!(l.remove_rule(&'F'), None);
    assert_eq!(l.remove_rule(&'Q'), None);
    l.step();
    assert_eq!(text(&l.step()), "TxFxF");
}

#[test]
fn clear_rules_makes_step_identity() {
    let mut l = dragon();
    l.step();
    l.clear_rules();
    assert!(!l.get_rules().contains('T'));
    assert_eq!(text(&l.step()), "TxF");
}

#[test]
fn rule_edits_do_not_touch_current() {
    let mut l = dragon();
    l.step();
    l.add_rule('x', chars("+"));
    assert_eq!(text(l.get_current()), "TxF");
    assert_eq!(text(&l.step()), "TxF+TXF");
}

#[test]
fn axiom_string_round_trip() {
    let l = LSystem::new_from_axiom_string("F[+F]é");
    assert_eq!(l.get_axiom_str(), "F[+F]é");
    assert_eq!(l.get_axiom(), &chars("F[+F]é"));
    assert_eq!(LSystem::new().get_axiom_str(), "");
}

#[test]
fn describe_lists_start_and_rules() {
    let mut l = LSystem::new_from_axiom_string("FX");
    assert_eq!(l.describe(), "lsystem!(FX, );");
    l.add_rule('X', chars("X+YF"));
    assert_eq!(l.describe(), "lsystem!(FX, X => \"X+YF\", );");
    l.add_rule('Y', vec![]);
    assert_eq!(l.describe(), "lsystem!(FX, X => \"X+YF\", Y => \"\", );");
}

#[test]
fn rule_set_operations() {
    let mut r = RuleSet::new();
    assert_eq!(r.get('a'), None);
    r.insert('a', chars("ab"));
    r.insert('b', chars("a"));
    assert!(r.contains('a'));
    assert_eq!(r.get('b'), Some(&chars("a")));
    assert_eq!(r.remove('a'), Some(chars("ab")));
    assert!(!r.contains('a'));
    assert!(r.contains('b'));
    r.clear();
    assert!(!r.contains('b'));
}

fn balanced_for(start: &str, rules: &[(char, &str)]) {
    let mut table = RuleSet::new();
    for (c, r) in rules {
        table.insert(*c, chars(r));
    }
    let mut l = LSystem::new_from_axiom_string_and_rules(start, table);
    for _ in 0..4 {
        let g = l.step();
        let open = g.iter().filter(|c| **c == '[').count();
        let close = g.iter().filter(|c| **c == ']').count();
        assert_eq!(open, close);
    }
}

#[test]
fn plant_presets_keep_brackets_balanced() {
    balanced_for("+TT+F", &[('F', "F[Fz[zFZXFZYF]Z[ZFxzFyzF]C+]")]);
    balanced_for("+TT+R", &[('R', "FFF[FXYZ[FxRxF[zFRzXFC]R[ZFZyFC]]yFRyF]")]);
    balanced_for("+TT+R", &[('R', "F[[yyBBzB]XB]"), ('B', "XXYYYYYYYYFRFzzFRRC")]);
}

#[test]
fn sierpinski_second_generation() {
    let mut rules = RuleSet::new();
    rules.insert('T', chars("FxTxF"));
    rules.insert('F', chars("TXFXT"));
    let mut l = LSystem::new_from_axiom_string_and_rules("T", rules);
    assert_eq!(text(&l.step()), "FxTxF");
    assert_eq!(text(&l.step()), "TXFXTxFxTxFxTXFXT");
}
