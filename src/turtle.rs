use vstd::prelude::*;

verus! {

/// What the turtle does for one symbol. Colours and widths are indices into
/// tables held by the renderer.
#[derive(Clone, Copy, Debug, PartialEq, Eq, Structural)]
pub enum TurtleAction {
    Draw,
    Move,
    TurnLeft,
    TurnRight,
    PitchUp,
    PitchDown,
    RollLeft,
    RollRight,
    Push,
    Pop,
    SetColor(u32),
    SetWidth(u32),
    Leaf,
}

/// Binds a grammar symbol to a turtle action.
#[derive(Clone, Copy, Debug, PartialEq, Eq, Structural)]
pub struct Binding {
    pub symbol: char,
    pub action: TurtleAction,
}

/// Why a symbol sequence cannot be interpreted: a pop with no open branch at
/// `position`, or branches left open at the end.
#[derive(Clone, Copy, Debug, PartialEq, Eq, Structural)]
pub enum BranchError {
    UnmatchedPop { position: usize },
    UnclosedPush { open: usize },
}

/// The action of the first binding for `c`, if any.
pub open spec fn action_of(bindings: Seq<Binding>, c: char) -> Option<TurtleAction>
    decreases bindings.len(),
{
    if bindings.len() == 0 {
        None
    } else {
        match action_of(bindings.drop_last(), c) {
            Some(a) => Some(a),
            None => if bindings.last().symbol == c {
                Some(bindings.last().action)
            } else {
                None
            },
        }
    }
}

/// The actions of `s` in order; symbols without a binding do nothing.
pub open spec fn actions_of(bindings: Seq<Binding>, s: Seq<char>) -> Seq<TurtleAction>
    decreases s.len(),
{
    if s.len() == 0 {
        Seq::empty()
    } else {
        match action_of(bindings, s.last()) {
            Some(a) => actions_of(bindings, s.drop_last()).push(a),
            None => actions_of(bindings, s.drop_last()),
        }
    }
}

/// Number of push actions in `a`.
pub open spec fn pushes(a: Seq<TurtleAction>) -> int
    decreases a.len(),
{
    if a.len() == 0 {
        0
    } else {
        pushes(a.drop_last()) + if a.last() == TurtleAction::Push {
            1int
        } else {
            0int
        }
    }
}

/// Number of pop actions in `a`.
pub open spec fn pops(a: Seq<TurtleAction>) -> int
    decreases a.len(),
{
    if a.len() == 0 {
        0
    } else {
        pops(a.drop_last()) + if a.last() == TurtleAction::Pop {
            1int
        } else {
            0int
        }
    }
}

/// No prefix of `a` pops more branches than it has pushed.
pub open spec fn pops_never_exceed(a: Seq<TurtleAction>) -> bool {
    forall|k: int| 0 <= k <= a.len() ==> pops(#[trigger] a.take(k)) <= pushes(a.take(k))
}

/// The action bound to `c`: the first binding for it.
pub fn lookup_action(bindings: &Vec<Binding>, c: char) -> (r: Option<TurtleAction>)
    ensures
        r == action_of(bindings@, c),
{
    let mut i: usize = 0;
    while i < bindings.len()
        invariant
            0 <= i <= bindings@.len(),
            action_of(bindings@.take(i as int), c) is None,
        decreases bindings@.len() - i,
    {
        assert(bindings@.take(i as int + 1).drop_last() =~= bindings@.take(i as int));
        if bindings[i].symbol == c {
            proof {
                lemma_action_of_prefix(bindings@, i as int + 1, c);
            }
            return Some(bindings[i].action);
        }
        i = i + 1;
    }
    assert(bindings@.take(i as int) =~= bindings@);
    None
}

proof fn lemma_action_of_prefix(bindings: Seq<Binding>, k: int, c: char)
    requires
        0 < k <= bindings.len(),
        action_of(bindings.take(k), c) is Some,
    ensures
        action_of(bindings, c) == action_of(bindings.take(k), c),
    decreases bindings.len() - k,
{
    if k < bindings.len() {
        assert(bindings.take(k + 1).drop_last() =~= bindings.take(k));
        assert(bindings.take(k + 1).len() == k + 1);
        lemma_action_of_prefix(bindings, k + 1, c);
    } else {
        assert(bindings.take(k) =~= bindings);
    }
}

/// The outcome that `plan` owes for `symbols`: the actions when every pop
/// closes an open branch and none is left open, else the first unmatched pop
/// or the number of branches left open.
pub open spec fn plan_outcome(
    symbols: Seq<char>,
    bindings: Seq<Binding>,
    r: Result<Vec<TurtleAction>, BranchError>,
) -> bool {
    match r {
        Ok(actions) => {
            &&& actions@ == actions_of(bindings, symbols)
            &&& pops_never_exceed(actions@)
            &&& pops(actions@) == pushes(actions@)
        },
        Err(BranchError::UnmatchedPop { position }) => {
            &&& position < symbols.len()
            &&& pops_never_exceed(actions_of(bindings, symbols.take(position as int)))
            &&& pops(actions_of(bindings, symbols.take(position + 1))) > pushes(
                actions_of(bindings, symbols.take(position + 1)),
            )
        },
        Err(BranchError::UnclosedPush { open }) => {
            &&& pops_never_exceed(actions_of(bindings, symbols))
            &&& open > 0
            &&& pushes(actions_of(bindings, symbols)) == pops(actions_of(bindings, symbols))
                + open
        },
    }
}

/// Turns a symbol sequence into the turtle's actions, skipping symbols without
/// a binding, and checks that every pop closes a branch opened before it and
/// that no branch is left open.
pub fn plan(symbols: &Vec<char>, bindings: &Vec<Binding>) -> (r: Result<Vec<TurtleAction>, BranchError>)
    ensures
        plan_outcome(symbols@, bindings@, r),
{
    let mut out: Vec<TurtleAction> = Vec::new();
    let mut depth: usize = 0;
    let mut i: usize = 0;
    while i < symbols.len()
        invariant
            0 <= i <= symbols@.len(),
            out@ == actions_of(bindings@, symbols@.take(i as int)),
            pops_never_exceed(out@),
            depth == pushes(out@) - pops(out@),
            depth <= out@.len(),
            out@.len() <= i,
        decreases symbols@.len() - i,
    {
        let ghost before = out@;
        proof {
            assert(symbols@.take(i as int + 1).drop_last() =~= symbols@.take(i as int));
            lemma_counts_bounded(before);
        }
        match lookup_action(bindings, symbols[i]) {
            Some(a) => {
                if a == TurtleAction::Pop {
                    if depth == 0 {
                        assert(out@.push(a).drop_last() =~= out@);
                        return Err(BranchError::UnmatchedPop { position: i });
                    }
                    depth = depth - 1;
                } else if a == TurtleAction::Push {
                    depth = depth + 1;
                }
                out.push(a);
                proof {
                    assert(out@.drop_last() =~= before);
                    assert forall|k: int| 0 <= k <= out@.len() implies pops(#[trigger] out@.take(k))
                        <= pushes(out@.take(k)) by {
                        if k < out@.len() {
                            assert(out@.take(k) =~= before.take(k));
                        } else {
                            assert(out@.take(k) =~= out@);
                        }
                    }
                }
            },
            None => {},
        }
        i = i + 1;
    }
    assert(symbols@.take(i as int) =~= symbols@);
    if depth > 0 {
        Err(BranchError::UnclosedPush { open: depth })
    } else {
        Ok(out)
    }
}

proof fn lemma_counts_bounded(a: Seq<TurtleAction>)
    ensures
        0 <= pops(a) <= a.len(),
        0 <= pushes(a) <= a.len(),
    decreases a.len(),
{
    if a.len() > 0 {
        lemma_counts_bounded(a.drop_last());
    }
}

/// The usual bindings: `F` draws, `f` moves, `+ - ^ & \ /` turn, pitch and
/// roll, `[` and `]` open and close a branch, `L` places a leaf.
pub fn default_bindings() -> (r: Vec<Binding>)
    ensures
        r@ == seq![
            Binding { symbol: 'F', action: TurtleAction::Draw },
            Binding { symbol: 'f', action: TurtleAction::Move },
            Binding { symbol: '+', action: TurtleAction::TurnLeft },
            Binding { symbol: '-', action: TurtleAction::TurnRight },
            Binding { symbol: '^', action: TurtleAction::PitchUp },
            Binding { symbol: '&', action: TurtleAction::PitchDown },
            Binding { symbol: '\\', action: TurtleAction::RollLeft },
            Binding { symbol: '/', action: TurtleAction::RollRight },
            Binding { symbol: '[', action: TurtleAction::Push },
            Binding { symbol: ']', action: TurtleAction::Pop },
            Binding { symbol: 'L', action: TurtleAction::Leaf },
        ],
{
    let r = vec![
        Binding { symbol: 'F', action: TurtleAction::Draw },
        Binding { symbol: 'f', action: TurtleAction::Move },
        Binding { symbol: '+', action: TurtleAction::TurnLeft },
        Binding { symbol: '-', action: TurtleAction::TurnRight },
        Binding { symbol: '^', action: TurtleAction::PitchUp },
        Binding { symbol: '&', action: TurtleAction::PitchDown },
        Binding { symbol: '\\', action: TurtleAction::RollLeft },
        Binding { symbol: '/', action: TurtleAction::RollRight },
        Binding { symbol: '[', action: TurtleAction::Push },
        Binding { symbol: ']', action: TurtleAction::Pop },
        Binding { symbol: 'L', action: TurtleAction::Leaf },
    ];
    assert(r@ =~= seq![
        Binding { symbol: 'F', action: TurtleAction::Draw },
        Binding { symbol: 'f', action: TurtleAction::Move },
        Binding { symbol: '+', action: TurtleAction::TurnLeft },
        Binding { symbol: '-', action: TurtleAction::TurnRight },
        Binding { symbol: '^', action: TurtleAction::PitchUp },
        Binding { symbol: '&', action: TurtleAction::PitchDown },
        Binding { symbol: '\\', action: TurtleAction::RollLeft },
        Binding { symbol: '/', action: TurtleAction::RollRight },
        Binding { symbol: '[', action: TurtleAction::Push },
        Binding { symbol: ']', action: TurtleAction::Pop },
        Binding { symbol: 'L', action: TurtleAction::Leaf },
    ]);
    r
}

} // verus!
