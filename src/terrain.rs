use vstd::prelude::*;

verus! {

/// Largest number of search rounds accepted.
pub const MAX_SEARCH_ROUNDS: u32 = 1000;

/// Height at `a` steps toward -x and `b` steps toward -z from the start, in a
/// row-major grid `side` samples wide.
pub open spec fn height_at(h: Seq<u32>, side: int, a: int, b: int) -> u32 {
    h[a * side + b]
}

/// One search round from `(a, b)`: probes the 2x2 block that the point spans
/// toward -x and -z, in the order (-x,-z), (-z), (-x), and moves to the first
/// probe that is higher than the start and than every earlier better probe.
pub open spec fn climb_once(h: Seq<u32>, side: int, a: int, b: int) -> (int, int) {
    let h0 = height_at(h, side, a, b);
    let c1 = height_at(h, side, a + 1, b + 1);
    let (p1, v1) = if c1 > h0 {
        ((a + 1, b + 1), c1)
    } else {
        ((a, b), h0)
    };
    let c2 = height_at(h, side, a, b + 1);
    let (p2, v2) = if c2 > v1 {
        ((a, b + 1), c2)
    } else {
        (p1, v1)
    };
    let c3 = height_at(h, side, a + 1, b);
    if c3 > v2 {
        (a + 1, b)
    } else {
        p2
    }
}

/// Where `rounds` search rounds starting at `(a, b)` end.
pub open spec fn climb(h: Seq<u32>, side: int, rounds: nat, a: int, b: int) -> (int, int)
    decreases rounds,
{
    if rounds == 0 {
        (a, b)
    } else {
        let (na, nb) = climb_once(h, side, a, b);
        climb(h, side, (rounds - 1) as nat, na, nb)
    }
}

proof fn lemma_index_in_grid(side: int, a: int, b: int)
    requires
        1 <= side <= MAX_SEARCH_ROUNDS + 1,
        0 <= a < side,
        0 <= b < side,
    ensures
        0 <= a * side + b < side * side,
        side * side <= (MAX_SEARCH_ROUNDS + 1) * (MAX_SEARCH_ROUNDS + 1),
{
    assert(side * side <= (MAX_SEARCH_ROUNDS + 1) * (MAX_SEARCH_ROUNDS + 1)) by (nonlinear_arith)
        requires
            1 <= side <= MAX_SEARCH_ROUNDS + 1,
    ;
    assert(a * side + b < side * side) by (nonlinear_arith)
        requires
            0 <= a < side,
            0 <= b < side,
    ;
    assert(0 <= a * side) by (nonlinear_arith)
        requires
            0 <= a,
            1 <= side,
    ;
}

/// Local ascent over a height field sampled at the step offsets around a
/// point: `heights[a * (rounds + 1) + b]` is the height `a` steps toward -x
/// and `b` steps toward -z. Runs `rounds` rounds and returns the offset
/// reached, which is at most `rounds` steps along each axis.
pub fn place_pos_on_heightmap(heights: &Vec<u32>, rounds: u32) -> (r: (u32, u32))
    requires
        rounds <= MAX_SEARCH_ROUNDS,
        heights@.len() == (rounds + 1) * (rounds + 1),
    ensures
        (r.0 as int, r.1 as int) == climb(heights@, rounds + 1, rounds as nat, 0, 0),
        r.0 <= rounds,
        r.1 <= rounds,
{
    let side: usize = rounds as usize + 1;
    let ghost h = heights@;
    let mut a: usize = 0;
    let mut b: usize = 0;
    let mut t: u32 = 0;
    while t < rounds
        invariant
            t <= rounds <= MAX_SEARCH_ROUNDS,
            side == rounds + 1,
            h == heights@,
            h.len() == side * side,
            a <= t,
            b <= t,
            climb(h, side as int, rounds as nat, 0, 0) == climb(
                h,
                side as int,
                (rounds - t) as nat,
                a as int,
                b as int,
            ),
        decreases rounds - t,
    {
        proof {
            lemma_index_in_grid(side as int, a as int, b as int);
            lemma_index_in_grid(side as int, a + 1, b + 1);
            lemma_index_in_grid(side as int, a as int, b + 1);
            lemma_index_in_grid(side as int, a + 1, b as int);
        }
        let ghost target = climb_once(h, side as int, a as int, b as int);
        let mut best = heights[a * side + b];
        let mut na = a;
        let mut nb = b;
        let c1 = heights[(a + 1) * side + (b + 1)];
        if c1 > best {
            best = c1;
            na = a + 1;
            nb = b + 1;
        }
        let c2 = heights[a * side + (b + 1)];
        if c2 > best {
            best = c2;
            na = a;
            nb = b + 1;
        }
        let c3 = heights[(a + 1) * side + b];
        if c3 > best {
            na = a + 1;
            nb = b;
        }
        assert((na as int, nb as int) == target);
        a = na;
        b = nb;
        t = t + 1;
    }
    (a as u32, b as u32)
}

} // verus!
