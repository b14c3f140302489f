use lsystem_scene::turtle::{default_bindings, lookup_action, plan, Binding, BranchError, TurtleAction};

fn chars(s: &str) -> Vec<char> {
    s.chars().collect()
}

#[test]
fn plan_maps_bound_symbols_and_skips_others() {
    let actions = plan(&chars("FQf+X-L"), &default_bindings()).unwrap();
    assert_eq!(
        actions,
        vec![
            TurtleAction::Draw,
            TurtleAction::Move,
            TurtleAction::TurnLeft,
            TurtleAction::TurnRight,
            TurtleAction::Leaf
        ]
    );
}

#[test]
fn unmatched_pop_is_reported_at_its_position() {
    assert_eq!(
        plan(&chars("F[F]]F"), &default_bindings()),
        Err(BranchError::UnmatchedPop { position: 4 })
    );
    assert_eq!(plan(&chars("]"), &default_bindings()), Err(BranchError::UnmatchedPop { position: 0 }));
}

#[test]
fn open_branches_are_reported() {
    assert_eq!(plan(&chars("[[F]"), &default_bindings()), Err(BranchError::UnclosedPush { open: 1 }));
    assert_eq!(plan(&chars("[[["), &default_bindings()), Err(BranchError::UnclosedPush { open: 3 }));
}

#[test]
fn empty_word_plans_nothing() {
    assert_eq!(plan(&Vec::new(), &default_bindings()), Ok(Vec::new()));
}

#[test]
fn every_prefix_pops_no_more_than_it_pushed() {
    let actions = plan(&chars("[F[+F]][-F]F"), &default_bindings()).unwrap();
    let mut depth: i64 = 0;
    for a in &actions {
        if *a == TurtleAction::Push {
            depth += 1;
        }
        if *a == TurtleAction::Pop {
            depth -= 1;
        }
        assert!(depth >= 0);
    }
    assert_eq!(depth, 0);
}

#[test]
fn first_binding_wins() {
    let bindings = vec![
        Binding { symbol: 'C', action: TurtleAction::SetColor(2) },
        Binding { symbol: 'C', action: TurtleAction::SetWidth(5) },
    ];
    assert_eq!(lookup_action(&bindings, 'C'), Some(TurtleAction::SetColor(2)));
    assert_eq!(lookup_action(&bindings, 'D'), None);
}
