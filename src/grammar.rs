use rand::rngs::StdRng;
use rand::Rng;
use vstd::prelude::*;

verus! {

#[verifier::external_type_specification]
#[verifier::external_body]
pub struct ExStdRng(StdRng);

/// One weighted alternative of a production rule.
pub struct Production {
    pub weight: u32,
    pub out: Vec<char>,
}

/// The alternatives that replace `symbol` in each round.
pub struct Rule {
    pub symbol: char,
    pub alternatives: Vec<Production>,
}

/// A rewriting grammar: symbols without a rule pass through unchanged.
pub struct Grammar {
    pub start: Vec<char>,
    pub iterations: u32,
    pub rules: Vec<Rule>,
}

/// Sum of the weights of `alts`.
pub open spec fn total_weight(alts: Seq<Production>) -> int
    decreases alts.len(),
{
    if alts.len() == 0 {
        0
    } else {
        alts[0].weight + total_weight(alts.subrange(1, alts.len() as int))
    }
}

/// The alternative that a draw selects: the first one whose cumulative weight
/// exceeds the draw (the last one when none does).
pub open spec fn pick_from(alts: Seq<Production>, draw: int) -> int
    decreases alts.len(),
{
    if alts.len() <= 1 || draw < alts[0].weight {
        0
    } else {
        1 + pick_from(alts.subrange(1, alts.len() as int), draw - alts[0].weight)
    }
}

/// Index of the first rule for `c` among `rules`, if any.
pub open spec fn find_rule(rules: Seq<Rule>, c: char) -> Option<int>
    decreases rules.len(),
{
    if rules.len() == 0 {
        None
    } else {
        match find_rule(rules.drop_last(), c) {
            Some(i) => Some(i),
            None => if rules.last().symbol == c {
                Some(rules.len() - 1)
            } else {
                None
            },
        }
    }
}

/// Every rule has a positive total weight that fits in a `u32`.
pub open spec fn rules_wf(rules: Seq<Rule>) -> bool {
    forall|i: int|
        0 <= i < rules.len() ==> 0 < #[trigger] total_weight(rules[i].alternatives@) <= u32::MAX
}

impl Grammar {
    pub open spec fn wf(&self) -> bool {
        rules_wf(self.rules@)
    }
}

/// What symbol `c` becomes when its rule takes alternative `p`.
pub open spec fn image(rules: Seq<Rule>, c: char, p: int) -> Seq<char> {
    match find_rule(rules, c) {
        Some(ri) => rules[ri].alternatives@[p].out@,
        None => seq![c],
    }
}

/// One rewriting round of `s`, symbol `i` taking alternative `picks[i]`.
pub open spec fn rewrite(rules: Seq<Rule>, s: Seq<char>, picks: Seq<int>) -> Seq<char>
    decreases s.len(),
{
    if s.len() == 0 {
        Seq::empty()
    } else {
        rewrite(rules, s.drop_last(), picks) + image(rules, s.last(), picks[s.len() - 1])
    }
}

/// The alternatives that `draws` select, symbol by symbol.
pub open spec fn picks_of(rules: Seq<Rule>, s: Seq<char>, draws: Seq<u32>) -> Seq<int> {
    Seq::new(
        s.len(),
        |i: int|
            match find_rule(rules, s[i]) {
                Some(ri) => pick_from(rules[ri].alternatives@, draws[i] as int),
                None => 0,
            },
    )
}

/// Each symbol with a rule takes one of that rule's alternatives.
pub open spec fn valid_picks(rules: Seq<Rule>, s: Seq<char>, picks: Seq<int>) -> bool {
    &&& picks.len() == s.len()
    &&& forall|i: int|
        0 <= i < s.len() ==> match find_rule(rules, #[trigger] s[i]) {
            Some(ri) => 0 <= picks[i] < rules[ri].alternatives@.len(),
            None => true,
        }
}

/// The word reached from `s` by applying the rounds of choices in order.
pub open spec fn apply_rounds(rules: Seq<Rule>, s: Seq<char>, rounds: Seq<Seq<int>>) -> Seq<char>
    decreases rounds.len(),
{
    if rounds.len() == 0 {
        s
    } else {
        rewrite(rules, apply_rounds(rules, s, rounds.drop_last()), rounds.last())
    }
}

/// Each round takes, for every symbol with a rule, one of its alternatives.
pub open spec fn valid_rounds(rules: Seq<Rule>, s: Seq<char>, rounds: Seq<Seq<int>>) -> bool {
    forall|i: int|
        0 <= i < rounds.len() ==> valid_picks(
            rules,
            apply_rounds(rules, s, rounds.take(i)),
            #[trigger] rounds[i],
        )
}

/// `t` is reached from `s` in `n` rewriting rounds under some choice of alternatives.
pub open spec fn derives(rules: Seq<Rule>, s: Seq<char>, n: nat, t: Seq<char>) -> bool {
    exists|rounds: Seq<Seq<int>>|
        rounds.len() == n && valid_rounds(rules, s, rounds) && t == #[trigger] apply_rounds(
            rules,
            s,
            rounds,
        )
}

proof fn lemma_find_rule_range(rules: Seq<Rule>, c: char)
    ensures
        match find_rule(rules, c) {
            Some(i) => 0 <= i < rules.len() && rules[i].symbol == c,
            None => forall|i: int| 0 <= i < rules.len() ==> rules[i].symbol != c,
        },
    decreases rules.len(),
{
    if rules.len() > 0 {
        lemma_find_rule_range(rules.drop_last(), c);
        match find_rule(rules.drop_last(), c) {
            Some(i) => {},
            None => {
                assert forall|i: int| 0 <= i < rules.len() - 1 implies rules[i].symbol != c by {
                    assert(rules[i] == rules.drop_last()[i]);
                }
            },
        }
    }
}

proof fn lemma_pick_in_range(alts: Seq<Production>, draw: int)
    requires
        alts.len() > 0,
    ensures
        0 <= pick_from(alts, draw) < alts.len(),
    decreases alts.len(),
{
    if alts.len() > 1 && draw >= alts[0].weight {
        lemma_pick_in_range(alts.subrange(1, alts.len() as int), draw - alts[0].weight);
    }
}

proof fn lemma_positive_total_nonempty(alts: Seq<Production>)
    requires
        total_weight(alts) > 0,
    ensures
        alts.len() > 0,
{
}

/// Index of the first rule for `c`.
fn rule_for(rules: &Vec<Rule>, c: char) -> (r: Option<usize>)
    ensures
        match r {
            Some(i) => find_rule(rules@, c) == Some(i as int),
            None => find_rule(rules@, c) is None,
        },
{
    let mut i: usize = 0;
    while i < rules.len()
        invariant
            0 <= i <= rules@.len(),
            find_rule(rules@.take(i as int), c) is None,
        decreases rules@.len() - i,
    {
        assert(rules@.take(i as int + 1).drop_last() =~= rules@.take(i as int));
        if rules[i].symbol == c {
            proof {
                lemma_find_rule_prefix(rules@, i as int + 1, c, i as int);
            }
            return Some(i);
        }
        i = i + 1;
    }
    assert(rules@.take(i as int) =~= rules@);
    None
}

proof fn lemma_find_rule_prefix(rules: Seq<Rule>, k: int, c: char, j: int)
    requires
        0 < k <= rules.len(),
        find_rule(rules.take(k), c) == Some(j),
    ensures
        find_rule(rules, c) == Some(j),
    decreases rules.len() - k,
{
    if k < rules.len() {
        assert(rules.take(k + 1).drop_last() =~= rules.take(k));
        assert(rules.take(k + 1).len() == k + 1);
        assert(find_rule(rules.take(k + 1), c) == Some(j));
        lemma_find_rule_prefix(rules, k + 1, c, j);
    } else {
        assert(rules.take(k) =~= rules);
    }
}

/// Sum of the weights of `alts`, which must fit in a `u32`.
pub fn weight_total(alts: &Vec<Production>) -> (r: u32)
    requires
        total_weight(alts@) <= u32::MAX,
    ensures
        r == total_weight(alts@),
{
    let mut total: u32 = 0;
    let mut i: usize = alts.len();
    while i > 0
        invariant
            0 <= i <= alts@.len(),
            total == total_weight(alts@.subrange(i as int, alts@.len() as int)),
            total_weight(alts@) <= u32::MAX,
        decreases i,
    {
        i = i - 1;
        proof {
            let s = alts@.subrange(i as int, alts@.len() as int);
            assert(s.subrange(1, s.len() as int) =~= alts@.subrange(i + 1, alts@.len() as int));
            lemma_suffix_total_bounded(alts@, i as int);
        }
        total = total + alts[i].weight;
    }
    assert(alts@.subrange(0, alts@.len() as int) =~= alts@);
    total
}

proof fn lemma_suffix_total_bounded(alts: Seq<Production>, i: int)
    requires
        0 <= i <= alts.len(),
    ensures
        total_weight(alts.subrange(i, alts.len() as int)) <= total_weight(alts),
    decreases i,
{
    if i == 0 {
        assert(alts.subrange(0, alts.len() as int) =~= alts);
    } else {
        assert(total_weight(alts) == alts[0].weight + total_weight(alts.subrange(1, alts.len() as int)));
        lemma_suffix_total_bounded(alts.subrange(1, alts.len() as int), i - 1);
        assert(alts.subrange(1, alts.len() as int).subrange(i - 1, alts.len() - 1) =~= alts.subrange(
            i,
            alts.len() as int,
        ));
    }
}

/// The alternative that `draw` selects: the first whose cumulative weight
/// exceeds the draw, or the last one.
pub fn pick_alternative(alts: &Vec<Production>, draw: u32) -> (r: usize)
    requires
        alts@.len() > 0,
    ensures
        r == pick_from(alts@, draw as int),
        r < alts@.len(),
{
    let mut i: usize = 0;
    let mut rest: u32 = draw;
    assert(alts@.subrange(0, alts@.len() as int) =~= alts@);
    while i < alts.len() - 1 && rest >= alts[i].weight
        invariant
            0 <= i < alts@.len(),
            rest <= draw,
            pick_from(alts@, draw as int) == i + pick_from(
                alts@.subrange(i as int, alts@.len() as int),
                rest as int,
            ),
        decreases alts@.len() - i,
    {
        proof {
            let s = alts@.subrange(i as int, alts@.len() as int);
            assert(s.subrange(1, s.len() as int) =~= alts@.subrange(i + 1, alts@.len() as int));
        }
        rest = rest - alts[i].weight;
        i = i + 1;
    }
    proof {
        lemma_pick_in_range(alts@, draw as int);
    }
    i
}

/// One rewriting round: symbol `i` is replaced by the alternative of its rule
/// that `draws[i]` selects; symbols without a rule are kept.
pub fn rewrite_round(grammar: &Grammar, symbols: &Vec<char>, draws: &Vec<u32>) -> (r: Vec<char>)
    requires
        grammar.wf(),
        draws@.len() == symbols@.len(),
    ensures
        r@ == rewrite(grammar.rules@, symbols@, picks_of(grammar.rules@, symbols@, draws@)),
        valid_picks(grammar.rules@, symbols@, picks_of(grammar.rules@, symbols@, draws@)),
{
    let ghost rules = grammar.rules@;
    let ghost picks = picks_of(rules, symbols@, draws@);
    let mut out: Vec<char> = Vec::new();
    let mut i: usize = 0;
    while i < symbols.len()
        invariant
            0 <= i <= symbols@.len(),
            draws@.len() == symbols@.len(),
            rules == grammar.rules@,
            rules_wf(rules),
            picks == picks_of(rules, symbols@, draws@),
            out@ == rewrite(rules, symbols@.take(i as int), picks),
        decreases symbols@.len() - i,
    {
        let c = symbols[i];
        proof {
            lemma_find_rule_range(rules, c);
            assert(symbols@.take(i as int + 1).drop_last() =~= symbols@.take(i as int));
        }
        match rule_for(&grammar.rules, c) {
            Some(ri) => {
                let alts = &grammar.rules[ri].alternatives;
                proof {
                    assert(0 < total_weight(rules[ri as int].alternatives@));
                    lemma_positive_total_nonempty(alts@);
                }
                let p = pick_alternative(alts, draws[i]);
                let produced = &alts[p].out;
                let mut j: usize = 0;
                let ghost before = out@;
                while j < produced.len()
                    invariant
                        0 <= j <= produced@.len(),
                        out@ == before + produced@.take(j as int),
                    decreases produced@.len() - j,
                {
                    out.push(produced[j]);
                    j = j + 1;
                    assert(out@ =~= before + produced@.take(j as int));
                }
                assert(produced@.take(j as int) =~= produced@);
            },
            None => {
                out.push(c);
            },
        }
        i = i + 1;
    }
    assert(symbols@.take(i as int) =~= symbols@);
    proof {
        assert forall|k: int| 0 <= k < symbols@.len() implies match find_rule(
            rules,
            #[trigger] symbols@[k],
        ) {
            Some(ri) => 0 <= picks[k] < rules[ri].alternatives@.len(),
            None => true,
        } by {
            lemma_find_rule_range(rules, symbols@[k]);
            match find_rule(rules, symbols@[k]) {
                Some(ri) => {
                    assert(0 < total_weight(rules[ri].alternatives@));
                    lemma_positive_total_nonempty(rules[ri].alternatives@);
                    lemma_pick_in_range(rules[ri].alternatives@, draws@[k] as int);
                },
                None => {},
            }
        }
    }
    out
}

/// Relies on rand's `Rng::gen_range`: a draw from `0..bound` lies in that
/// range; it panics on an empty range.
#[verifier::external_body]
fn draw_below(rng: &mut StdRng, bound: u32) -> (r: u32)
    requires
        bound > 0,
    ensures
        r < bound,
{
    rng.gen_range(0..bound)
}

/// One random draw per symbol: below its rule's total weight, or zero for a
/// symbol without a rule.
fn draw_for(grammar: &Grammar, symbols: &Vec<char>, rng: &mut StdRng) -> (r: Vec<u32>)
    requires
        grammar.wf(),
    ensures
        r@.len() == symbols@.len(),
{
    let mut draws: Vec<u32> = Vec::new();
    let mut i: usize = 0;
    while i < symbols.len()
        invariant
            0 <= i <= symbols@.len(),
            draws@.len() == i,
            grammar.wf(),
        decreases symbols@.len() - i,
    {
        let d = match rule_for(&grammar.rules, symbols[i]) {
            Some(ri) => {
                proof {
                    lemma_find_rule_range(grammar.rules@, symbols@[i as int]);
                }
                let total = weight_total(&grammar.rules[ri].alternatives);
                draw_below(rng, total)
            },
            None => 0,
        };
        draws.push(d);
        i = i + 1;
    }
    draws
}

/// Expands the start word for the grammar's number of rounds, each rule choosing
/// its alternative at random in proportion to the weights.
pub fn expand(grammar: &Grammar, rng: &mut StdRng) -> (r: Vec<char>)
    requires
        grammar.wf(),
    ensures
        derives(grammar.rules@, grammar.start@, grammar.iterations as nat, r@),
        grammar.iterations == 0 ==> r@ == grammar.start@,
{
    let ghost rules = grammar.rules@;
    let mut current = grammar.start.clone();
    let ghost mut rounds: Seq<Seq<int>> = Seq::empty();
    let mut k: u32 = 0;
    while k < grammar.iterations
        invariant
            k <= grammar.iterations,
            grammar.wf(),
            rules == grammar.rules@,
            rounds.len() == k,
            valid_rounds(rules, grammar.start@, rounds),
            current@ == apply_rounds(rules, grammar.start@, rounds),
        decreases grammar.iterations - k,
    {
        let draws = draw_for(grammar, &current, rng);
        let next = rewrite_round(grammar, &current, &draws);
        proof {
            let picks = picks_of(rules, current@, draws@);
            let old_rounds = rounds;
            rounds = rounds.push(picks);
            assert(rounds.drop_last() =~= old_rounds);
            assert(rounds.take(k as int) =~= old_rounds);
            assert forall|i: int| 0 <= i < rounds.len() implies valid_picks(
                rules,
                apply_rounds(rules, grammar.start@, rounds.take(i)),
                #[trigger] rounds[i],
            ) by {
                if i < k {
                    assert(rounds.take(i) =~= old_rounds.take(i));
                }
            }
        }
        current = next;
        k = k + 1;
    }
    assert(rounds.len() == grammar.iterations as nat && valid_rounds(rules, grammar.start@, rounds)
        && current@ == apply_rounds(rules, grammar.start@, rounds));
    current
}

} // verus!
