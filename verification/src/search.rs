use vstd::prelude::*;

use std::collections::HashSet;

use crate::cutting::spec_cut_left;
use crate::cutting::spec_cut_right;
use crate::cutting::Cuttable;
use crate::rotate::Rotatable;
use crate::shape::EColor;
use crate::shape::EShape;
use crate::shape::Shape;
use crate::shape::SingleItem;
use crate::shape::SingleLayer;
use crate::stack::Stackable;

verus! {

broadcast use vstd::std_specs::hash::group_hash_axioms;

/// How many of kind and color an item shares with the goal's item at
/// the same position: 0, 1 or 2.
pub open spec fn spec_item_score(a: SingleItem, b: SingleItem) -> int {
    (if a.shape == b.shape {
        1 as int
    } else {
        0 as int
    }) + (if a.color == b.color {
        1 as int
    } else {
        0 as int
    })
}

pub open spec fn spec_layer_score(a: SingleLayer, b: SingleLayer) -> int {
    spec_item_score(a.item0, b.item0) + spec_item_score(a.item1, b.item1) + spec_item_score(
        a.item2,
        b.item2,
    ) + spec_item_score(a.item3, b.item3)
}

/// The similarity score of a shape against the goal: per position
/// across all layers, one point for a matching kind and one for a
/// matching color, 0..32 in all. Note that this is a similarity, not
/// a distance estimate, and the best-first ordering adds it to the
/// path cost as observed behavior.
pub open spec fn spec_heuristic(a: Shape, b: Shape) -> int {
    spec_layer_score(a.layer0, b.layer0) + spec_layer_score(a.layer1, b.layer1) + spec_layer_score(
        a.layer2,
        b.layer2,
    ) + spec_layer_score(a.layer3, b.layer3)
}

fn item_match_score(a: SingleItem, b: SingleItem) -> (r: usize)
    ensures
        r == spec_item_score(a, b),
        r <= 2,
{
    let mut count: usize = 0;
    if a.shape == b.shape {
        count = count + 1;
    }
    if a.color == b.color {
        count = count + 1;
    }
    count
}

fn layer_match_score(a: &SingleLayer, b: &SingleLayer) -> (r: usize)
    ensures
        r == spec_layer_score(*a, *b),
        r <= 8,
{
    let mut count: usize = 0;
    count = count + item_match_score(a.item0, b.item0);
    count = count + item_match_score(a.item1, b.item1);
    count = count + item_match_score(a.item2, b.item2);
    count = count + item_match_score(a.item3, b.item3);
    count
}

/// The similarity count the best-first strategy orders by.
#[verifier::rlimit(50)]
pub fn heuristic(shape: &Shape, goal: &Shape) -> (r: usize)
    ensures
        r == spec_heuristic(*shape, *goal),
        r <= 32,
{
    let mut count: usize = 0;
    count = count + layer_match_score(&shape.layer0, &goal.layer0);
    count = count + layer_match_score(&shape.layer1, &goal.layer1);
    count = count + layer_match_score(&shape.layer2, &goal.layer2);
    count = count + layer_match_score(&shape.layer3, &goal.layer3);
    count
}

/// One pairwise combination of the current shape with a seed: a swap
/// (either returned half) or a stack with the seed on top.
pub open spec fn spec_is_seed_combination(seed: Shape, a: Shape, b: Shape) -> bool {
    ||| b == Shape::spec_swapd(a, seed).0
    ||| b == Shape::spec_swapd(a, seed).1
    ||| b == a.spec_stack(seed)
}

/// One legal move of the search: a self-transform (three rotations
/// and the two cut halves) or a pairwise combination with some seed.
pub open spec fn spec_is_successor(seeds: Seq<Shape>, a: Shape, b: Shape) -> bool {
    ||| b == a.spec_rotate_cw()
    ||| b == a.spec_rotate_ccw()
    ||| b == a.spec_rotate_cw().spec_rotate_cw()
    ||| b == spec_cut_left(a)
    ||| b == spec_cut_right(a)
    ||| exists|i: int|
        0 <= i < seeds.len() && spec_is_seed_combination(#[trigger] seeds[i], a, b)
}

/// A well-formed search result path: it starts at a seed and each
/// state follows from the previous one by one legal move.
pub open spec fn spec_valid_path(seeds: Seq<Shape>, path: Seq<Shape>) -> bool {
    &&& path.len() >= 1
    &&& seeds.contains(path[0])
    &&& forall|k: int|
        0 <= k < path.len() - 1 ==> spec_is_successor(seeds, path[k], #[trigger] path[k + 1])
}

/// Which order the frontier is served in.
#[derive(Debug, Clone, Copy, PartialEq, Eq, Structural)]
pub enum SearchStrategy {
    /// First in, first out: shortest paths come first.
    BreadthFirst,
    /// Lowest `cost + heuristic` first.
    BestFirst,
}

/// The outcome of a search run.
#[derive(Debug, Clone, PartialEq, Eq)]
pub enum SearchOutcome {
    /// A path from a seed to the goal, both inclusive.
    Found(Vec<Shape>),
    /// The reachable space was exhausted without meeting the goal.
    NotFound,
    /// The iteration budget ran out first.
    Aborted,
}

/// A distinct index for each piece kind.
pub open spec fn spec_kind_index(k: EShape) -> int {
    match k {
        EShape::Circle => 0,
        EShape::Rectangle => 1,
        EShape::Windmill => 2,
        EShape::Star => 3,
        EShape::Pin => 4,
        EShape::Empty => 5,
    }
}

/// A distinct index for each color.
pub open spec fn spec_color_index(c: EColor) -> int {
    match c {
        EColor::Red => 0,
        EColor::Green => 1,
        EColor::Blue => 2,
        EColor::Yellow => 3,
        EColor::Magenta => 4,
        EColor::Cyan => 5,
        EColor::White => 6,
        EColor::Black => 7,
        EColor::Uncolored => 8,
        EColor::Empty => 9,
    }
}

/// A distinct number below 64 for each item.
pub open spec fn spec_item_key(it: SingleItem) -> int {
    spec_kind_index(it.shape) * 10 + spec_color_index(it.color)
}

/// A distinct number below 2^24 for each layer: the four item keys
/// as base-64 digits.
pub open spec fn spec_layer_key(l: SingleLayer) -> int {
    spec_item_key(l.item0) + 64 * (spec_item_key(l.item1) + 64 * (spec_item_key(l.item2) + 64
        * spec_item_key(l.item3)))
}

/// A distinct number below 2^96 for each shape: the four layer keys
/// as base-2^24 digits. The closed set of the search is keyed by
/// this number.
pub open spec fn spec_shape_key(s: Shape) -> int {
    spec_layer_key(s.layer0) + 0x1000000 * (spec_layer_key(s.layer1) + 0x1000000 * (spec_layer_key(
        s.layer2,
    ) + 0x1000000 * spec_layer_key(s.layer3)))
}

proof fn lemma_item_key_bounds(it: SingleItem)
    ensures
        0 <= spec_item_key(it) < 60,
{
}

proof fn lemma_layer_key_bounds(l: SingleLayer)
    ensures
        0 <= spec_layer_key(l) < 0x1000000,
{
    lemma_item_key_bounds(l.item0);
    lemma_item_key_bounds(l.item1);
    lemma_item_key_bounds(l.item2);
    lemma_item_key_bounds(l.item3);
}

/// A number below 64 and a quotient determine each other under
/// base-64 positional coding.
proof fn lemma_digit64_split(a0: int, r: int, b0: int, s: int)
    requires
        0 <= a0 < 64,
        0 <= b0 < 64,
        a0 + 64 * r == b0 + 64 * s,
    ensures
        a0 == b0,
        r == s,
{
    assert(64 * r - 64 * s == b0 - a0);
    if r > s {
        assert(64 * r - 64 * s >= 64);
    }
    if r < s {
        assert(64 * r - 64 * s <= -64);
    }
}

/// The same, in base 2^24.
proof fn lemma_digit_2_24_split(a0: int, r: int, b0: int, s: int)
    requires
        0 <= a0 < 0x1000000,
        0 <= b0 < 0x1000000,
        a0 + 0x1000000 * r == b0 + 0x1000000 * s,
    ensures
        a0 == b0,
        r == s,
{
    assert(0x1000000 * r - 0x1000000 * s == b0 - a0);
    if r > s {
        assert(0x1000000 * r - 0x1000000 * s >= 0x1000000);
    }
    if r < s {
        assert(0x1000000 * r - 0x1000000 * s <= -0x1000000);
    }
}

proof fn lemma_item_key_injective(a: SingleItem, b: SingleItem)
    requires
        spec_item_key(a) == spec_item_key(b),
    ensures
        a == b,
{
    assert(10 * spec_kind_index(a.shape) - 10 * spec_kind_index(b.shape) == spec_color_index(
        b.color,
    ) - spec_color_index(a.color));
    if spec_kind_index(a.shape) > spec_kind_index(b.shape) {
        assert(10 * spec_kind_index(a.shape) - 10 * spec_kind_index(b.shape) >= 10);
    }
    if spec_kind_index(a.shape) < spec_kind_index(b.shape) {
        assert(10 * spec_kind_index(a.shape) - 10 * spec_kind_index(b.shape) <= -10);
    }
}

proof fn lemma_layer_key_injective(a: SingleLayer, b: SingleLayer)
    requires
        spec_layer_key(a) == spec_layer_key(b),
    ensures
        a == b,
{
    lemma_item_key_bounds(a.item0);
    lemma_item_key_bounds(a.item1);
    lemma_item_key_bounds(a.item2);
    lemma_item_key_bounds(a.item3);
    lemma_item_key_bounds(b.item0);
    lemma_item_key_bounds(b.item1);
    lemma_item_key_bounds(b.item2);
    lemma_item_key_bounds(b.item3);
    lemma_digit64_split(
        spec_item_key(a.item0),
        spec_item_key(a.item1) + 64 * (spec_item_key(a.item2) + 64 * spec_item_key(a.item3)),
        spec_item_key(b.item0),
        spec_item_key(b.item1) + 64 * (spec_item_key(b.item2) + 64 * spec_item_key(b.item3)),
    );
    lemma_digit64_split(
        spec_item_key(a.item1),
        spec_item_key(a.item2) + 64 * spec_item_key(a.item3),
        spec_item_key(b.item1),
        spec_item_key(b.item2) + 64 * spec_item_key(b.item3),
    );
    lemma_digit64_split(
        spec_item_key(a.item2),
        spec_item_key(a.item3),
        spec_item_key(b.item2),
        spec_item_key(b.item3),
    );
    lemma_item_key_injective(a.item0, b.item0);
    lemma_item_key_injective(a.item1, b.item1);
    lemma_item_key_injective(a.item2, b.item2);
    lemma_item_key_injective(a.item3, b.item3);
}

/// Two shapes with the same key are the same shape.
proof fn lemma_shape_key_injective(a: Shape, b: Shape)
    requires
        spec_shape_key(a) == spec_shape_key(b),
    ensures
        a == b,
{
    lemma_layer_key_bounds(a.layer0);
    lemma_layer_key_bounds(a.layer1);
    lemma_layer_key_bounds(a.layer2);
    lemma_layer_key_bounds(a.layer3);
    lemma_layer_key_bounds(b.layer0);
    lemma_layer_key_bounds(b.layer1);
    lemma_layer_key_bounds(b.layer2);
    lemma_layer_key_bounds(b.layer3);
    lemma_digit_2_24_split(
        spec_layer_key(a.layer0),
        spec_layer_key(a.layer1) + 0x1000000 * (spec_layer_key(a.layer2) + 0x1000000
            * spec_layer_key(a.layer3)),
        spec_layer_key(b.layer0),
        spec_layer_key(b.layer1) + 0x1000000 * (spec_layer_key(b.layer2) + 0x1000000
            * spec_layer_key(b.layer3)),
    );
    lemma_digit_2_24_split(
        spec_layer_key(a.layer1),
        spec_layer_key(a.layer2) + 0x1000000 * spec_layer_key(a.layer3),
        spec_layer_key(b.layer1),
        spec_layer_key(b.layer2) + 0x1000000 * spec_layer_key(b.layer3),
    );
    lemma_digit_2_24_split(
        spec_layer_key(a.layer2),
        spec_layer_key(a.layer3),
        spec_layer_key(b.layer2),
        spec_layer_key(b.layer3),
    );
    lemma_layer_key_injective(a.layer0, b.layer0);
    lemma_layer_key_injective(a.layer1, b.layer1);
    lemma_layer_key_injective(a.layer2, b.layer2);
    lemma_layer_key_injective(a.layer3, b.layer3);
}

fn item_key(it: SingleItem) -> (r: u128)
    ensures
        r == spec_item_key(it),
{
    let kind: u128 = match it.shape {
        EShape::Circle => 0,
        EShape::Rectangle => 1,
        EShape::Windmill => 2,
        EShape::Star => 3,
        EShape::Pin => 4,
        EShape::Empty => 5,
    };
    let color: u128 = match it.color {
        EColor::Red => 0,
        EColor::Green => 1,
        EColor::Blue => 2,
        EColor::Yellow => 3,
        EColor::Magenta => 4,
        EColor::Cyan => 5,
        EColor::White => 6,
        EColor::Black => 7,
        EColor::Uncolored => 8,
        EColor::Empty => 9,
    };
    kind * 10 + color
}

fn layer_key(l: &SingleLayer) -> (r: u128)
    ensures
        r == spec_layer_key(*l),
{
    item_key(l.item0) + 64 * (item_key(l.item1) + 64 * (item_key(l.item2) + 64 * item_key(
        l.item3,
    )))
}

/// The numeric key of a shape, distinct for distinct shapes.
fn shape_key(s: &Shape) -> (r: u128)
    ensures
        r == spec_shape_key(*s),
{
    proof {
        lemma_layer_key_bounds(s.layer0);
        lemma_layer_key_bounds(s.layer1);
        lemma_layer_key_bounds(s.layer2);
        lemma_layer_key_bounds(s.layer3);
    }
    layer_key(&s.layer0) + 0x1000000 * (layer_key(&s.layer1) + 0x1000000 * (layer_key(&s.layer2)
        + 0x1000000 * layer_key(&s.layer3)))
}

/// A frontier entry: the reached shape, the path that reached it,
/// the path cost in moves, and the similarity score against the
/// goal.
struct State {
    shape: Shape,
    path: Vec<Shape>,
    cost: usize,
    heuristic: usize,
}

/// What every frontier entry satisfies.
spec fn state_inv(seeds: Seq<Shape>, st: State) -> bool {
    &&& spec_valid_path(seeds, st.path@)
    &&& st.path@.last() == st.shape
    &&& st.path@.len() == st.cost + 1
}

/// A frontier entry as initially enqueued for a seed.
spec fn is_init_state(st: State, s: Shape) -> bool {
    st.shape == s && st.cost == 0 && st.path@ == seq![s]
}

/// Whether some frontier entry has reached the given shape.
spec fn in_frontier(frontier: Seq<State>, y: Shape) -> bool {
    exists|k: int| 0 <= k < frontier.len() && (#[trigger] frontier[k]).shape == y
}

/// The numeric closed set faithfully stands for a set of shapes:
/// every key it holds is the key of some shape of that set.
spec fn visited_models(visited_set: Set<u128>, gv: Set<Shape>) -> bool {
    forall|e: u128|
        #[trigger] visited_set.contains(e) ==> exists|x: Shape|
            gv.contains(x) && spec_shape_key(x) == e as int
}

/// A shape reached by some entry of a frontier is, after one entry
/// is taken out, either that entry's shape or still reached.
proof fn lemma_frontier_shrinks(frontier: Seq<State>, m: int, y: Shape)
    requires
        0 <= m < frontier.len(),
        in_frontier(frontier, y),
    ensures
        frontier[m].shape == y || in_frontier(frontier.remove(m), y),
{
    let k = choose|k: int| 0 <= k < frontier.len() && (#[trigger] frontier[k]).shape == y;
    frontier.remove_ensures(m);
    if k < m {
        assert(frontier.remove(m)[k].shape == y);
    } else if k > m {
        assert(frontier.remove(m)[k - 1].shape == y);
    }
}

/// No path of legal moves that starts in a set that holds every seed
/// and is closed under successors ever leaves that set.
proof fn lemma_closed_set_blocks(seeds: Seq<Shape>, gv: Set<Shape>, p: Seq<Shape>)
    requires
        forall|i: int| 0 <= i < seeds.len() ==> gv.contains(#[trigger] seeds[i]),
        forall|x: Shape, y: Shape|
            gv.contains(x) && #[trigger] spec_is_successor(seeds, x, y) ==> gv.contains(y),
        spec_valid_path(seeds, p),
    ensures
        gv.contains(p.last()),
    decreases p.len(),
{
    if p.len() == 1 {
        let i = choose|i: int| 0 <= i < seeds.len() && seeds[i] == p[0];
        assert(gv.contains(seeds[i]));
    } else {
        let q = p.take(p.len() - 1);
        assert(spec_valid_path(seeds, q)) by {
            assert(q[0] == p[0]);
            assert forall|k: int|
                0 <= k < q.len() - 1 implies spec_is_successor(seeds, q[k], #[trigger] q[k + 1]) by {
                assert(q[k] == p[k]);
                assert(q[k + 1] == p[k + 1]);
                assert(spec_is_successor(seeds, p[k], p[k + 1]));
            }
        }
        lemma_closed_set_blocks(seeds, gv, q);
        assert(q.last() == p[p.len() - 2]);
        let j = p.len() - 2;
        assert(spec_is_successor(seeds, p[j], p[j + 1]));
        assert(gv.contains(p.last()));
    }
}

fn clone_path(path: &Vec<Shape>) -> (r: Vec<Shape>)
    ensures
        r@ == path@,
{
    let mut out: Vec<Shape> = Vec::new();
    let mut i: usize = 0;
    while i < path.len()
        invariant
            i <= path.len(),
            out@ == path@.subrange(0, i as int),
        decreases path.len() - i,
    {
        out.push(path[i]);
        proof {
            assert(out@ =~= path@.subrange(0, i + 1));
        }
        i = i + 1;
    }
    proof {
        assert(out@ =~= path@);
    }
    out
}

/// Takes the next entry out of the frontier: the oldest one under
/// breadth-first, one of minimal `cost + heuristic` under best-first.
fn pop_node(frontier: &mut Vec<State>, strategy: SearchStrategy) -> (r: State)
    requires
        old(frontier)@.len() > 0,
        forall|k: int|
            0 <= k < old(frontier)@.len() ==> (#[trigger] old(frontier)@[k]).cost + old(
                frontier,
            )@[k].heuristic <= usize::MAX,
    ensures
        exists|m: int|
            0 <= m < old(frontier)@.len() && r == old(frontier)@[m] && final(frontier)@ == old(
                frontier,
            )@.remove(m),
        final(frontier)@.len() == old(frontier)@.len() - 1,
        strategy == SearchStrategy::BreadthFirst ==> r == old(frontier)@[0] && final(frontier)@
            == old(frontier)@.remove(0),
        strategy == SearchStrategy::BestFirst ==> forall|j: int|
            0 <= j < old(frontier)@.len() ==> r.cost + r.heuristic <= (#[trigger] old(
                frontier,
            )@[j]).cost + old(frontier)@[j].heuristic,
{
    match strategy {
        SearchStrategy::BreadthFirst => {
            let r = frontier.remove(0);
            proof {
                assert(0 <= 0 < old(frontier)@.len() && r == old(frontier)@[0] && frontier@ == old(
                    frontier,
                )@.remove(0));
            }
            r
        },
        SearchStrategy::BestFirst => {
            let mut best: usize = 0;
            let mut k: usize = 1;
            while k < frontier.len()
                invariant
                    *frontier == *old(frontier),
                    frontier@.len() > 0,
                    k <= frontier@.len(),
                    best < k,
                    forall|k2: int|
                        0 <= k2 < frontier@.len() ==> (#[trigger] frontier@[k2]).cost
                            + frontier@[k2].heuristic <= usize::MAX,
                    forall|j: int|
                        0 <= j < k ==> frontier@[best as int].cost + frontier@[best as int].heuristic
                            <= (#[trigger] frontier@[j]).cost + frontier@[j].heuristic,
                decreases frontier@.len() - k,
            {
                let ck = frontier[k].cost + frontier[k].heuristic;
                let cb = frontier[best].cost + frontier[best].heuristic;
                if ck < cb {
                    best = k;
                }
                k = k + 1;
            }
            let r = frontier.remove(best);
            proof {
                assert(0 <= best < old(frontier)@.len() && r == old(frontier)@[best as int]
                    && frontier@ == old(frontier)@.remove(best as int));
            }
            r
        },
    }
}

/// Appends the successor to the frontier, unless the closed set
/// already holds it; either way the successor is covered afterward.
fn push_successor(
    frontier: &mut Vec<State>,
    visited: &HashSet<u128>,
    current: &State,
    new_shape: Shape,
    goal: &Shape,
    seeds: Ghost<Seq<Shape>>,
    bound: Ghost<int>,
    gvisited: Ghost<Set<Shape>>,
)
    requires
        state_inv(seeds@, *current),
        spec_is_successor(seeds@, current.shape, new_shape),
        current.cost + 1 <= bound@,
        bound@ <= usize::MAX,
        visited_models(visited@, gvisited@),
        forall|k: int|
            0 <= k < old(frontier)@.len() ==> state_inv(seeds@, #[trigger] old(frontier)@[k])
                && old(frontier)@[k].cost <= bound@ && old(frontier)@[k].heuristic <= 32,
    ensures
        old(frontier)@.len() <= final(frontier)@.len() <= old(frontier)@.len() + 1,
        forall|k: int| 0 <= k < old(frontier)@.len() ==> final(frontier)@[k] == old(frontier)@[k],
        forall|k: int|
            0 <= k < final(frontier)@.len() ==> state_inv(seeds@, #[trigger] final(frontier)@[k])
                && final(frontier)@[k].cost <= bound@ && final(frontier)@[k].heuristic <= 32,
        gvisited@.contains(new_shape) || in_frontier(final(frontier)@, new_shape),
        forall|y: Shape| in_frontier(old(frontier)@, y) ==> in_frontier(final(frontier)@, y),
{
    let key = shape_key(&new_shape);
    if !visited.contains(&key) {
        let mut new_path = clone_path(&current.path);
        new_path.push(new_shape);
        let h = heuristic(&new_shape, goal);
        let st = State { shape: new_shape, path: new_path, cost: current.cost + 1, heuristic: h };
        proof {
            let sv = seeds@;
            let p = st.path@;
            let q = current.path@;
            assert(p == q.push(new_shape));
            assert(p[0] == q[0]);
            assert(sv.contains(p[0]));
            assert forall|k: int|
                0 <= k < p.len() - 1 implies spec_is_successor(sv, p[k], #[trigger] p[k + 1]) by {
                if k < q.len() - 1 {
                    assert(p[k] == q[k]);
                    assert(p[k + 1] == q[k + 1]);
                    assert(spec_is_successor(sv, q[k], q[k + 1]));
                } else {
                    assert(p[k] == q[q.len() - 1]);
                    assert(q[q.len() - 1] == current.shape);
                    assert(p[k + 1] == new_shape);
                }
            }
            assert(p.last() == new_shape);
            assert(state_inv(sv, st));
        }
        frontier.push(st);
        proof {
            assert(in_frontier(frontier@, new_shape)) by {
                assert((frontier@[frontier@.len() - 1]).shape == new_shape);
            }
            assert forall|y: Shape|
                in_frontier(old(frontier)@, y) implies in_frontier(frontier@, y) by {
                let k = choose|k: int|
                    0 <= k < old(frontier)@.len() && (#[trigger] old(frontier)@[k]).shape == y;
                assert((frontier@[k]).shape == y);
            }
        }
    } else {
        proof {
            assert(visited@.contains(key));
            let x = choose|x: Shape|
                gvisited@.contains(x) && spec_shape_key(x) == key as int;
            lemma_shape_key_injective(x, new_shape);
            assert(gvisited@.contains(new_shape));
        }
    }
}

/// Expands one dequeued state: enqueues its self-transforms and its
/// pairwise combinations with every seed, so that afterward every
/// legal successor of that state is either in the closed set or on
/// the frontier.
fn expand_node(
    frontier: &mut Vec<State>,
    visited: &HashSet<u128>,
    current: &State,
    seeds: &Vec<Shape>,
    goal: &Shape,
    bound: Ghost<int>,
    gvisited: Ghost<Set<Shape>>,
)
    requires
        state_inv(seeds@, *current),
        current.cost + 1 <= bound@,
        bound@ <= usize::MAX,
        visited_models(visited@, gvisited@),
        forall|k: int|
            0 <= k < old(frontier)@.len() ==> state_inv(seeds@, #[trigger] old(frontier)@[k])
                && old(frontier)@[k].cost <= bound@ && old(frontier)@[k].heuristic <= 32,
    ensures
        old(frontier)@.len() <= final(frontier)@.len(),
        forall|k: int| 0 <= k < old(frontier)@.len() ==> final(frontier)@[k] == old(frontier)@[k],
        forall|k: int|
            0 <= k < final(frontier)@.len() ==> state_inv(seeds@, #[trigger] final(frontier)@[k])
                && final(frontier)@[k].cost <= bound@ && final(frontier)@[k].heuristic <= 32,
        forall|y: Shape| in_frontier(old(frontier)@, y) ==> in_frontier(final(frontier)@, y),
        forall|y: Shape|
            #[trigger] spec_is_successor(seeds@, current.shape, y) ==> gvisited@.contains(y)
                || in_frontier(final(frontier)@, y),
{
    let ghost pre = frontier@;
    let r1 = current.shape.rotate_once();
    proof {
        assert(spec_is_successor(seeds@, current.shape, r1));
    }
    push_successor(frontier, visited, current, r1, goal, Ghost(seeds@), bound, gvisited);
    let r2 = current.shape.rotate_once_reverse();
    proof {
        assert(spec_is_successor(seeds@, current.shape, r2));
    }
    push_successor(frontier, visited, current, r2, goal, Ghost(seeds@), bound, gvisited);
    let r3 = current.shape.rotate_180();
    proof {
        assert(spec_is_successor(seeds@, current.shape, r3));
    }
    push_successor(frontier, visited, current, r3, goal, Ghost(seeds@), bound, gvisited);
    let cut = current.shape.cutting();
    let cut_left = cut[0];
    let cut_right = cut[1];
    proof {
        assert(cut_left == spec_cut_left(current.shape));
        assert(cut_right == spec_cut_right(current.shape));
        assert(spec_is_successor(seeds@, current.shape, cut_left));
        assert(spec_is_successor(seeds@, current.shape, cut_right));
    }
    push_successor(frontier, visited, current, cut_left, goal, Ghost(seeds@), bound, gvisited);
    push_successor(frontier, visited, current, cut_right, goal, Ghost(seeds@), bound, gvisited);
    let mut sidx: usize = 0;
    while sidx < seeds.len()
        invariant
            sidx <= seeds@.len(),
            bound@ <= usize::MAX,
            state_inv(seeds@, *current),
            current.cost + 1 <= bound@,
            visited_models(visited@, gvisited@),
            frontier@.len() >= pre.len(),
            forall|k: int| 0 <= k < pre.len() ==> #[trigger] frontier@[k] == pre[k],
            forall|k: int|
                0 <= k < frontier@.len() ==> state_inv(seeds@, #[trigger] frontier@[k])
                    && frontier@[k].cost <= bound@ && frontier@[k].heuristic <= 32,
            gvisited@.contains(r1) || in_frontier(frontier@, r1),
            gvisited@.contains(r2) || in_frontier(frontier@, r2),
            gvisited@.contains(r3) || in_frontier(frontier@, r3),
            gvisited@.contains(cut_left) || in_frontier(frontier@, cut_left),
            gvisited@.contains(cut_right) || in_frontier(frontier@, cut_right),
            forall|i: int, y: Shape|
                0 <= i < sidx && #[trigger] spec_is_seed_combination(seeds@[i], current.shape, y)
                    ==> gvisited@.contains(y) || in_frontier(frontier@, y),
        decreases seeds@.len() - sidx,
    {
        let seed = seeds[sidx];
        let swapped = current.shape.swap_with(&seed);
        let swap_a = swapped[0];
        let swap_b = swapped[1];
        proof {
            assert(spec_is_seed_combination(seeds@[sidx as int], current.shape, swap_a));
            assert(spec_is_successor(seeds@, current.shape, swap_a));
            assert(spec_is_seed_combination(seeds@[sidx as int], current.shape, swap_b));
            assert(spec_is_successor(seeds@, current.shape, swap_b));
        }
        push_successor(frontier, visited, current, swap_a, goal, Ghost(seeds@), bound, gvisited);
        push_successor(frontier, visited, current, swap_b, goal, Ghost(seeds@), bound, gvisited);
        let stacked = current.shape.stack_with(&seed);
        proof {
            assert(spec_is_seed_combination(seeds@[sidx as int], current.shape, stacked));
            assert(spec_is_successor(seeds@, current.shape, stacked));
        }
        push_successor(frontier, visited, current, stacked, goal, Ghost(seeds@), bound, gvisited);
        proof {
            assert forall|i: int, y: Shape|
                0 <= i < sidx + 1 && #[trigger] spec_is_seed_combination(
                    seeds@[i],
                    current.shape,
                    y,
                ) implies gvisited@.contains(y) || in_frontier(frontier@, y) by {
                if i == sidx {
                    assert(y == Shape::spec_swapd(current.shape, seeds@[i]).0 || y
                        == Shape::spec_swapd(current.shape, seeds@[i]).1 || y
                        == current.shape.spec_stack(seeds@[i]));
                }
            }
        }
        sidx = sidx + 1;
    }
    proof {
        assert forall|y: Shape|
            #[trigger] spec_is_successor(seeds@, current.shape, y) implies gvisited@.contains(y)
            || in_frontier(frontier@, y) by {
            if y == current.shape.spec_rotate_cw() {
            } else if y == current.shape.spec_rotate_ccw() {
            } else if y == current.shape.spec_rotate_cw().spec_rotate_cw() {
            } else if y == spec_cut_left(current.shape) {
            } else if y == spec_cut_right(current.shape) {
            } else {
                let i = choose|i: int|
                    0 <= i < seeds@.len() && spec_is_seed_combination(
                        #[trigger] seeds@[i],
                        current.shape,
                        y,
                    );
                assert(spec_is_seed_combination(seeds@[i], current.shape, y));
            }
        }
        assert forall|y: Shape| in_frontier(pre, y) implies in_frontier(frontier@, y) by {
            let k = choose|k: int| 0 <= k < pre.len() && (#[trigger] pre[k]).shape == y;
            assert((frontier@[k]).shape == y);
        }
    }
}

/// Explores the space of shapes reachable from the seed pool toward
/// the goal. Every dequeued state is checked against the goal, then
/// expanded by its self-transforms (both single rotations, the half
/// turn, and the two cut halves) and by swap and stack with every
/// seed; a closed set prevents re-expansion. The budget bounds how
/// many states may be dequeued; exhausting it yields `Aborted`,
/// distinct from `NotFound`.
#[verifier::rlimit(100)]
pub fn search(seeds: &Vec<Shape>, goal: &Shape, strategy: SearchStrategy, budget: usize) -> (r:
    SearchOutcome)
    requires
        budget <= usize::MAX - 33,
    ensures
        r matches SearchOutcome::Found(path) ==> spec_valid_path(seeds@, path@) && path@.last()
            == *goal && path@.len() <= budget,
        seeds@.len() == 0 ==> r == SearchOutcome::NotFound,
        seeds@.contains(*goal) ==> r != SearchOutcome::NotFound,
        r == SearchOutcome::Aborted ==> seeds@.len() > 0,
        r == SearchOutcome::NotFound ==> !(exists|p: Seq<Shape>|
            #[trigger] spec_valid_path(seeds@, p) && p.last() == *goal),
        strategy == SearchStrategy::BreadthFirst && seeds@.contains(*goal) && seeds@.len()
            <= budget ==> (r matches SearchOutcome::Found(path) && path@.len() == 1 && path@[0]
            == *goal),
{
    let mut frontier: Vec<State> = Vec::new();
    let mut idx: usize = 0;
    while idx < seeds.len()
        invariant
            idx <= seeds@.len(),
            frontier@.len() == idx,
            forall|k: int|
                0 <= k < idx ==> state_inv(seeds@, #[trigger] frontier@[k]) && frontier@[k].cost
                    == 0 && frontier@[k].heuristic <= 32 && is_init_state(
                    frontier@[k],
                    seeds@[k],
                ),
        decreases seeds@.len() - idx,
    {
        let shape = seeds[idx];
        let mut path: Vec<Shape> = Vec::new();
        path.push(shape);
        let h = heuristic(&shape, goal);
        let st = State { shape, path, cost: 0, heuristic: h };
        proof {
            assert(st.path@ =~= seq![seeds@[idx as int]]);
            assert(seeds@.contains(st.path@[0])) by {
                assert(seeds@[idx as int] == st.path@[0]);
            }
            assert(state_inv(seeds@, st));
        }
        frontier.push(st);
        idx = idx + 1;
    }

    if frontier.len() == 0 {
        proof {
            assert forall|p: Seq<Shape>|
                #[trigger] spec_valid_path(seeds@, p) implies p.last() != *goal by {
                let i = choose|i: int| 0 <= i < seeds@.len() && seeds@[i] == p[0];
                assert(false);
            }
        }
        return SearchOutcome::NotFound;
    }
    proof {
        if seeds@.contains(*goal) {
            let g = choose|g: int| 0 <= g < seeds@.len() && seeds@[g] == *goal;
            assert(is_init_state(frontier@[g], seeds@[g]));
            assert((frontier@[g]).shape == *goal);
        }
        assert forall|i: int|
            0 <= i < seeds@.len() implies in_frontier(frontier@, #[trigger] seeds@[i]) by {
            assert((frontier@[i]).shape == seeds@[i]);
        }
    }
    let mut visited: HashSet<u128> = HashSet::new();
    let ghost mut gvisited: Set<Shape> = Set::empty();
    let mut iters: usize = 0;

    while frontier.len() > 0
        invariant
            budget <= usize::MAX - 33,
            seeds@.len() > 0,
            iters <= budget,
            visited_models(visited@, gvisited),
            !gvisited.contains(*goal),
            forall|i: int|
                0 <= i < seeds@.len() ==> gvisited.contains(#[trigger] seeds@[i]) || in_frontier(
                    frontier@,
                    seeds@[i],
                ),
            forall|x: Shape, y: Shape|
                gvisited.contains(x) && #[trigger] spec_is_successor(seeds@, x, y)
                    ==> gvisited.contains(y) || in_frontier(frontier@, y),
            forall|k: int|
                0 <= k < frontier@.len() ==> state_inv(seeds@, #[trigger] frontier@[k])
                    && frontier@[k].cost <= iters && frontier@[k].heuristic <= 32,
            seeds@.contains(*goal) ==> exists|k: int|
                0 <= k < frontier@.len() && (#[trigger] frontier@[k]).shape == *goal,
            strategy == SearchStrategy::BreadthFirst && seeds@.contains(*goal) ==> iters
                < seeds@.len() && (forall|j: int| 0 <= j < iters ==> seeds@[j] != *goal)
                && frontier@.len() >= seeds@.len() - iters && (forall|k: int|
                0 <= k < seeds@.len() - iters ==> is_init_state(
                    #[trigger] frontier@[k],
                    seeds@[iters + k],
                )),
        decreases budget - iters,
    {
        if iters == budget {
            proof {
                assert(state_inv(seeds@, frontier@[0]));
                assert(seeds@.contains(frontier@[0].path@[0]));
            }
            return SearchOutcome::Aborted;
        }
        let ghost old_frontier = frontier@;
        let current = pop_node(&mut frontier, strategy);
        let ghost m = choose|m: int|
            0 <= m < old_frontier.len() && current == old_frontier[m] && frontier@
                == old_frontier.remove(m);
        proof {
            assert(state_inv(seeds@, current));
            assert(current.cost <= iters);
        }
        if current.shape == *goal {
            proof {
                assert(spec_valid_path(seeds@, current.path@));
                assert(current.path@.last() == *goal);
                if strategy == SearchStrategy::BreadthFirst && seeds@.contains(*goal) {
                    assert(is_init_state(old_frontier[0], seeds@[iters as int]));
                    assert(current.path@ == seq![seeds@[iters as int]]);
                    assert(current.path@[0] == *goal);
                }
            }
            return SearchOutcome::Found(current.path);
        }
        proof {
            if seeds@.contains(*goal) {
                let k0 = choose|k: int|
                    0 <= k < old_frontier.len() && (#[trigger] old_frontier[k]).shape == *goal;
                assert(k0 != m);
                if k0 < m {
                    assert(frontier@[k0] == old_frontier[k0]);
                    assert((frontier@[k0]).shape == *goal);
                } else {
                    assert(frontier@[k0 - 1] == old_frontier[k0]);
                    assert((frontier@[k0 - 1]).shape == *goal);
                }
            }
        }
        let ghost pre_expand = frontier@;
        let ghost bound: int = iters + 1;
        let key_cur = shape_key(&current.shape);
        if visited.contains(&key_cur) {
            proof {
                // the closed set already holds this shape, so dropping
                // it keeps every covered shape covered
                assert(visited@.contains(key_cur));
                let x = choose|x: Shape|
                    gvisited.contains(x) && spec_shape_key(x) == key_cur as int;
                lemma_shape_key_injective(x, current.shape);
                assert(gvisited.contains(current.shape));
                assert forall|i: int|
                    0 <= i < seeds@.len() implies gvisited.contains(#[trigger] seeds@[i])
                    || in_frontier(frontier@, seeds@[i]) by {
                    if !gvisited.contains(seeds@[i]) {
                        lemma_frontier_shrinks(old_frontier, m, seeds@[i]);
                        if old_frontier[m].shape == seeds@[i] {
                            assert(gvisited.contains(seeds@[i]));
                        }
                    }
                }
                assert forall|x2: Shape, y: Shape|
                    gvisited.contains(x2) && #[trigger] spec_is_successor(
                        seeds@,
                        x2,
                        y,
                    ) implies gvisited.contains(y) || in_frontier(frontier@, y) by {
                    if !gvisited.contains(y) {
                        lemma_frontier_shrinks(old_frontier, m, y);
                        if old_frontier[m].shape == y {
                            assert(gvisited.contains(y));
                        }
                    }
                }
            }
        } else {
            let ghost pre_vis = visited@;
            let ghost pre_gv = gvisited;
            visited.insert(key_cur);
            proof {
                gvisited = gvisited.insert(current.shape);
                assert(visited@ == pre_vis.insert(key_cur));
                assert forall|e: u128| #[trigger] visited@.contains(e) implies exists|x: Shape|
                    gvisited.contains(x) && spec_shape_key(x) == e as int by {
                    if e == key_cur {
                        assert(gvisited.contains(current.shape) && spec_shape_key(current.shape)
                            == e as int);
                    } else {
                        assert(pre_vis.contains(e));
                        let x = choose|x: Shape|
                            pre_gv.contains(x) && spec_shape_key(x) == e as int;
                        assert(gvisited.contains(x) && spec_shape_key(x) == e as int);
                    }
                }
                assert(!gvisited.contains(*goal));
                assert forall|i: int|
                    0 <= i < seeds@.len() implies gvisited.contains(#[trigger] seeds@[i])
                    || in_frontier(frontier@, seeds@[i]) by {
                    if !gvisited.contains(seeds@[i]) {
                        lemma_frontier_shrinks(old_frontier, m, seeds@[i]);
                        if old_frontier[m].shape == seeds@[i] {
                            assert(gvisited.contains(seeds@[i]));
                        }
                    }
                }
                assert forall|x2: Shape, y: Shape|
                    gvisited.contains(x2) && x2 != current.shape && #[trigger] spec_is_successor(
                        seeds@,
                        x2,
                        y,
                    ) implies gvisited.contains(y) || in_frontier(frontier@, y) by {
                    assert(pre_gv.contains(x2));
                    if !gvisited.contains(y) {
                        lemma_frontier_shrinks(old_frontier, m, y);
                        if old_frontier[m].shape == y {
                            assert(gvisited.contains(y));
                        }
                    }
                }
            }
            expand_node(&mut frontier, &visited, &current, seeds, goal, Ghost(bound), Ghost(gvisited));
            proof {
                assert forall|i: int|
                    0 <= i < seeds@.len() implies gvisited.contains(#[trigger] seeds@[i])
                    || in_frontier(frontier@, seeds@[i]) by {
                    if !gvisited.contains(seeds@[i]) {
                        assert(in_frontier(pre_expand, seeds@[i]));
                        assert(in_frontier(frontier@, seeds@[i]));
                    }
                }
                assert forall|x2: Shape, y: Shape|
                    gvisited.contains(x2) && #[trigger] spec_is_successor(
                        seeds@,
                        x2,
                        y,
                    ) implies gvisited.contains(y) || in_frontier(frontier@, y) by {
                    if x2 == current.shape {
                        assert(spec_is_successor(seeds@, current.shape, y));
                    } else {
                        if !gvisited.contains(y) {
                            assert(in_frontier(pre_expand, y));
                            assert(in_frontier(frontier@, y));
                        }
                    }
                }
            }
        }
        iters = iters + 1;
        proof {
            if seeds@.contains(*goal) {
                let kw = choose|k: int|
                    0 <= k < pre_expand.len() && (#[trigger] pre_expand[k]).shape == *goal;
                assert((frontier@[kw]).shape == *goal);
            }
            if strategy == SearchStrategy::BreadthFirst && seeds@.contains(*goal) {
                assert(current == old_frontier[0]);
                assert(is_init_state(old_frontier[0], seeds@[iters - 1]));
                assert(current.shape == seeds@[iters - 1]);
                assert(seeds@[iters - 1] != *goal);
                assert forall|j: int| 0 <= j < iters implies seeds@[j] != *goal by {
                    if j < iters - 1 {
                        assert(seeds@[j] != *goal);
                    }
                }
                let g = choose|g: int| 0 <= g < seeds@.len() && seeds@[g] == *goal;
                assert(g >= iters);
                assert(iters < seeds@.len());
                assert forall|k: int|
                    0 <= k < seeds@.len() - iters implies is_init_state(
                    #[trigger] frontier@[k],
                    seeds@[iters + k],
                ) by {
                    assert(pre_expand[k] == old_frontier.remove(0)[k]);
                    assert(old_frontier.remove(0)[k] == old_frontier[k + 1]);
                    assert(is_init_state(old_frontier[k + 1], seeds@[(iters - 1) + (k + 1)]));
                    assert(frontier@[k] == pre_expand[k]);
                }
            }
        }
    }
    proof {
        if seeds@.contains(*goal) {
            let kw = choose|k: int|
                0 <= k < frontier@.len() && (#[trigger] frontier@[k]).shape == *goal;
            assert(false);
        }
        // the frontier is empty, so the closed set holds every seed,
        // is closed under legal moves, and misses the goal: no path
        // of legal moves reaches the goal
        assert forall|p: Seq<Shape>|
            #[trigger] spec_valid_path(seeds@, p) implies p.last() != *goal by {
            assert forall|i: int|
                0 <= i < seeds@.len() implies gvisited.contains(#[trigger] seeds@[i]) by {
                if !gvisited.contains(seeds@[i]) {
                    let k = choose|k: int|
                        0 <= k < frontier@.len() && (#[trigger] frontier@[k]).shape == seeds@[i];
                    assert(false);
                }
            }
            assert forall|x: Shape, y: Shape|
                gvisited.contains(x) && #[trigger] spec_is_successor(
                    seeds@,
                    x,
                    y,
                ) implies gvisited.contains(y) by {
                if !gvisited.contains(y) {
                    let k = choose|k: int|
                        0 <= k < frontier@.len() && (#[trigger] frontier@[k]).shape == y;
                    assert(false);
                }
            }
            lemma_closed_set_blocks(seeds@, gvisited, p);
        }
    }
    SearchOutcome::NotFound
}

/// Decides whether `b` follows from `a` by exactly one legal move:
/// one self-transform, or one swap or stack with a seed.
pub fn is_successor(seeds: &Vec<Shape>, a: &Shape, b: &Shape) -> (r: bool)
    ensures
        r == spec_is_successor(seeds@, *a, *b),
{
    let r1 = a.rotate_once();
    if *b == r1 {
        return true;
    }
    let r2 = a.rotate_once_reverse();
    if *b == r2 {
        return true;
    }
    let r3 = a.rotate_180();
    if *b == r3 {
        return true;
    }
    let cut = a.cutting();
    if *b == cut[0] {
        proof {
            assert(cut[0] == spec_cut_left(*a));
        }
        return true;
    }
    if *b == cut[1] {
        proof {
            assert(cut[1] == spec_cut_right(*a));
        }
        return true;
    }
    let mut i: usize = 0;
    while i < seeds.len()
        invariant
            i <= seeds@.len(),
            forall|j: int|
                0 <= j < i ==> !spec_is_seed_combination(#[trigger] seeds@[j], *a, *b),
            *b != a.spec_rotate_cw(),
            *b != a.spec_rotate_ccw(),
            *b != a.spec_rotate_cw().spec_rotate_cw(),
            *b != spec_cut_left(*a),
            *b != spec_cut_right(*a),
        decreases seeds@.len() - i,
    {
        let seed = seeds[i];
        let swapped = a.swap_with(&seed);
        if *b == swapped[0] || *b == swapped[1] {
            proof {
                assert(spec_is_seed_combination(seeds@[i as int], *a, *b));
            }
            return true;
        }
        let stacked = a.stack_with(&seed);
        if *b == stacked {
            proof {
                assert(spec_is_seed_combination(seeds@[i as int], *a, *b));
            }
            return true;
        }
        proof {
            assert(!spec_is_seed_combination(seeds@[i as int], *a, *b));
        }
        i = i + 1;
    }
    false
}

/// Builds one elementary seed shape for each listed item: a single
/// uniform bottom layer of that item's kind and color.
pub fn needed_shapes(items: Vec<SingleItem>) -> (r: Vec<Shape>)
    ensures
        r@.len() == items@.len(),
        forall|i: int|
            0 <= i < items@.len() ==> #[trigger] r@[i] == Shape::spec_new_simple(
                items@[i].shape,
                items@[i].color,
            ),
{
    let mut shapes: Vec<Shape> = Vec::new();
    let mut i: usize = 0;
    while i < items.len()
        invariant
            i <= items@.len(),
            shapes@.len() == i,
            forall|j: int|
                0 <= j < i ==> #[trigger] shapes@[j] == Shape::spec_new_simple(
                    items@[j].shape,
                    items@[j].color,
                ),
        decreases items@.len() - i,
    {
        let item = items[i];
        let shape = Shape::new_simple(item.shape, item.color);
        shapes.push(shape);
        i = i + 1;
    }
    shapes
}

} // verus!
