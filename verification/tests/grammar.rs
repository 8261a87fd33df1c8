use lsystem_tree::LSystem;

fn chars(s: &str) -> Vec<char> {
    s.chars().collect()
}

fn tree_rules() -> Vec<(char, Vec<char>)> {
    vec![('X', chars("F[+X][-X]FX")), ('F', chars("FF"))]
}

#[test]
fn expand_one_iteration() {
    let mut sys = LSystem::new(chars("X"), tree_rules());
    sys.iterate(1);
    assert_eq!(sys.symbols, chars("F[+X][-X]FX"));
}

#[test]
fn expand_two_iterations() {
    let mut sys = LSystem::new(chars("X"), tree_rules());
    sys.iterate(2);
    assert_eq!(sys.symbols, chars("FF[+F[+X][-X]FX][-F[+X][-X]FX]FFF[+X][-X]FX"));
}

#[test]
fn expand_zero_iterations_is_identity() {
    let mut sys = LSystem::new(chars("F[+X]"), tree_rules());
    sys.iterate(0);
    assert_eq!(sys.symbols, chars("F[+X]"));
}

#[test]
fn expand_empty_rules_is_no_op() {
    for n in [0u32, 1, 3, 7] {
        let mut sys = LSystem::new(chars("F[+X][-X]FX"), vec![]);
        sys.iterate(n);
        assert_eq!(sys.symbols, chars("F[+X][-X]FX"));
    }
}

#[test]
fn expand_is_deterministic() {
    let mut first = LSystem::new(chars("X"), tree_rules());
    let mut second = LSystem::new(chars("X"), tree_rules());
    first.iterate(4);
    second.iterate(4);
    assert_eq!(first.symbols, second.symbols);
}

#[test]
fn expand_iterating_in_stages_matches_one_go() {
    let mut staged = LSystem::new(chars("X"), tree_rules());
    staged.iterate(1);
    staged.iterate(2);
    let mut direct = LSystem::new(chars("X"), tree_rules());
    direct.iterate(3);
    assert_eq!(staged.symbols, direct.symbols);
}

#[test]
fn expand_passes_unruled_symbols_through() {
    let mut sys = LSystem::new(chars("QF+Q"), vec![('F', chars("FF"))]);
    sys.iterate(2);
    assert_eq!(sys.symbols, chars("QFFFF+Q"));
}

#[test]
fn expand_length_is_monotone_under_productive_rules() {
    let mut previous = 1;
    for n in 0u32..5 {
        let mut sys = LSystem::new(chars("X"), tree_rules());
        sys.iterate(n);
        assert!(sys.symbols.len() >= previous);
        previous = sys.symbols.len();
    }
}

#[test]
fn expand_rule_to_empty_string_shrinks() {
    let mut sys = LSystem::new(chars("FXF"), vec![('X', chars(""))]);
    sys.iterate(1);
    assert_eq!(sys.symbols, chars("FF"));
}
