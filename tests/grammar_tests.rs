use lsystem_scene::grammar::{
    expand, pick_alternative, rewrite_round, weight_total, Grammar, Production, Rule,
};
use lsystem_scene::plant::new_plant;
use lsystem_scene::turtle::{default_bindings, plan, TurtleAction};
use rand::rngs::StdRng;
use rand::SeedableRng;

fn chars(s: &str) -> Vec<char> {
    s.chars().collect()
}

fn branching_grammar(iterations: u32) -> Grammar {
    Grammar {
        start: chars("F"),
        iterations,
        rules: vec![Rule {
            symbol: 'F',
            alternatives: vec![Production { weight: 1, out: chars("F[+F]F[-F]") }],
        }],
    }
}

fn two_way_grammar(iterations: u32) -> Grammar {
    Grammar {
        start: chars("A"),
        iterations,
        rules: vec![Rule {
            symbol: 'A',
            alternatives: vec![
                Production { weight: 1, out: chars("AB") },
                Production { weight: 1, out: chars("C") },
            ],
        }],
    }
}

#[test]
fn zero_rounds_keep_start_word() {
    let mut g = branching_grammar(0);
    g.start = chars("F+X[F]");
    let mut rng = StdRng::seed_from_u64(7);
    assert_eq!(expand(&g, &mut rng), chars("F+X[F]"));
}

#[test]
fn branching_grammar_two_rounds() {
    let g = branching_grammar(2);
    let mut rng = StdRng::seed_from_u64(42);
    let word = expand(&g, &mut rng);
    let expected = chars("F[+F]F[-F][+F[+F]F[-F]]F[+F]F[-F][-F[+F]F[-F]]");
    assert_eq!(word, expected);
    let actions = plan(&word, &default_bindings()).unwrap();
    let draws = actions.iter().filter(|a| **a == TurtleAction::Draw).count();
    let pushes = actions.iter().filter(|a| **a == TurtleAction::Push).count();
    let pops = actions.iter().filter(|a| **a == TurtleAction::Pop).count();
    assert_eq!(draws, 16);
    assert_eq!(pushes, 10);
    assert_eq!(pops, 10);
}

#[test]
fn branching_grammar_one_round_has_two_branches() {
    let g = branching_grammar(1);
    let mut rng = StdRng::seed_from_u64(1);
    let word = expand(&g, &mut rng);
    assert_eq!(word, chars("F[+F]F[-F]"));
    let actions = plan(&word, &default_bindings()).unwrap();
    assert_eq!(actions.iter().filter(|a| **a == TurtleAction::Push).count(), 2);
    assert_eq!(actions.iter().filter(|a| **a == TurtleAction::Draw).count(), 4);
}

#[test]
fn new_plant_plans_the_expanded_word() {
    let g = branching_grammar(2);
    let mut rng = StdRng::seed_from_u64(3);
    let actions = new_plant(&g, &default_bindings(), &mut rng).unwrap();
    assert_eq!(actions.len(), 16 + 10 + 10 + 10);
}

#[test]
fn weights_sum() {
    let alts = vec![
        Production { weight: 2, out: chars("a") },
        Production { weight: 5, out: chars("b") },
    ];
    assert_eq!(weight_total(&alts), 7);
}

#[test]
fn weighted_pick_by_cumulative_weight() {
    let alts = vec![
        Production { weight: 1, out: chars("a") },
        Production { weight: 3, out: chars("b") },
        Production { weight: 2, out: chars("c") },
    ];
    assert_eq!(pick_alternative(&alts, 0), 0);
    assert_eq!(pick_alternative(&alts, 1), 1);
    assert_eq!(pick_alternative(&alts, 3), 1);
    assert_eq!(pick_alternative(&alts, 4), 2);
    assert_eq!(pick_alternative(&alts, 5), 2);
    assert_eq!(pick_alternative(&alts, 99), 2);
}

#[test]
fn rewrite_round_follows_draws() {
    let g = two_way_grammar(1);
    let word = rewrite_round(&g, &chars("AxA"), &vec![0, 0, 1]);
    assert_eq!(word, chars("ABxC"));
    let word = rewrite_round(&g, &chars("AxA"), &vec![1, 0, 0]);
    assert_eq!(word, chars("CxAB"));
}

#[test]
fn symbols_without_rule_pass_through() {
    let g = two_way_grammar(1);
    let word = rewrite_round(&g, &chars("q+]"), &vec![0, 0, 0]);
    assert_eq!(word, chars("q+]"));
}

#[test]
fn random_rounds_take_every_alternative() {
    let g = two_way_grammar(1);
    let mut seen_grow = false;
    let mut seen_stop = false;
    for seed in 0..64u64 {
        let mut rng = StdRng::seed_from_u64(seed);
        let word = expand(&g, &mut rng);
        if word == chars("AB") {
            seen_grow = true;
        } else {
            assert_eq!(word, chars("C"));
            seen_stop = true;
        }
    }
    assert!(seen_grow && seen_stop);
}

#[test]
fn same_seed_same_word() {
    let g = two_way_grammar(6);
    let a = expand(&g, &mut StdRng::seed_from_u64(11));
    let b = expand(&g, &mut StdRng::seed_from_u64(11));
    assert_eq!(a, b);
}
