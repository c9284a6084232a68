use shapez2_calc::cutting::Cuttable;
use shapez2_calc::rotate::Rotatable;
use shapez2_calc::search::heuristic;
use shapez2_calc::search::is_successor;
use shapez2_calc::search::needed_shapes;
use shapez2_calc::search::search;
use shapez2_calc::search::SearchOutcome;
use shapez2_calc::search::SearchStrategy;
use shapez2_calc::shape::EColor;
use shapez2_calc::shape::EShape;
use shapez2_calc::shape::Shape;
use shapez2_calc::shape::SingleItem;
use shapez2_calc::stack::Stackable;

/// The 36 elementary single-layer shapes: every real color paired
/// with every non-pin piece kind.
fn all_single_layer_seeds() -> Vec<Shape> {
    let colors = [
        EColor::Red,
        EColor::Green,
        EColor::Blue,
        EColor::Yellow,
        EColor::Magenta,
        EColor::Cyan,
        EColor::White,
        EColor::Black,
        EColor::Uncolored,
    ];
    let kinds = [
        EShape::Circle,
        EShape::Rectangle,
        EShape::Windmill,
        EShape::Star,
    ];
    let mut seeds = Vec::new();
    for kind in kinds.iter() {
        for color in colors.iter() {
            seeds.push(Shape::new_simple(*kind, *color));
        }
    }
    seeds
}

#[test]
fn test_search_goal_scenario() {
    // Breadth-first search toward the four-layer goal over the 36
    // elementary seeds. The space is enormous, so the run carries an
    // iteration budget; it must end in one of the three declared
    // outcomes, and a returned path must walk from a seed to the
    // goal one legal move at a time.
    let goal = Shape::try_from_string("Sb----Wm:--CcP-P-:--P-----:--Sc--Sg").unwrap();
    let seeds = all_single_layer_seeds();
    assert_eq!(seeds.len(), 36);
    let outcome = search(&seeds, &goal, SearchStrategy::BreadthFirst, 200);
    match outcome {
        SearchOutcome::Found(path) => {
            assert!(!path.is_empty());
            assert!(seeds.contains(&path[0]));
            assert_eq!(*path.last().unwrap(), goal);
            for w in path.windows(2) {
                assert!(is_successor(&seeds, &w[0], &w[1]));
            }
        }
        SearchOutcome::NotFound => {}
        SearchOutcome::Aborted => {}
    }
}

#[test]
fn test_search_goal_in_pool() {
    // A pool that already holds the goal succeeds with the
    // single-state path, without expanding anything else.
    let goal = Shape::new_simple(EShape::Circle, EColor::Red);
    let seeds = vec![goal];
    match search(&seeds, &goal, SearchStrategy::BreadthFirst, 1) {
        SearchOutcome::Found(path) => {
            assert_eq!(path.len(), 1);
            assert_eq!(path[0], goal);
        }
        _ => panic!("expected a path"),
    }
    match search(&seeds, &goal, SearchStrategy::BestFirst, 1) {
        SearchOutcome::Found(path) => {
            assert_eq!(path.len(), 1);
            assert_eq!(path[0], goal);
        }
        _ => panic!("expected a path"),
    }
}

#[test]
fn test_search_goal_among_other_seeds() {
    // Under breadth-first order every seed is checked before any
    // expansion, so a budget of the pool's size suffices.
    let goal = Shape::new_simple(EShape::Star, EColor::Black);
    let mut seeds = all_single_layer_seeds();
    seeds.push(goal);
    match search(&seeds, &goal, SearchStrategy::BreadthFirst, seeds.len()) {
        SearchOutcome::Found(path) => {
            assert_eq!(path.len(), 1);
            assert_eq!(path[0], goal);
        }
        _ => panic!("expected a path"),
    }
}

#[test]
fn test_search_empty_pool() {
    // An empty seed pool has nothing to put on the frontier.
    let goal = Shape::new_simple(EShape::Circle, EColor::Red);
    let seeds: Vec<Shape> = Vec::new();
    assert_eq!(
        search(&seeds, &goal, SearchStrategy::BreadthFirst, 100),
        SearchOutcome::NotFound
    );
    assert_eq!(
        search(&seeds, &goal, SearchStrategy::BestFirst, 0),
        SearchOutcome::NotFound
    );
}

#[test]
fn test_search_budget_exhaustion() {
    // A zero budget on a non-empty pool aborts before the first
    // dequeue; the outcome is distinct from not-found.
    let goal = Shape::try_from_string("Sb----Wm:--CcP-P-:--P-----:--Sc--Sg").unwrap();
    let seeds = all_single_layer_seeds();
    assert_eq!(
        search(&seeds, &goal, SearchStrategy::BreadthFirst, 0),
        SearchOutcome::Aborted
    );
    assert_eq!(
        search(&seeds, &goal, SearchStrategy::BestFirst, 3),
        SearchOutcome::Aborted
    );
}

#[test]
fn test_search_one_move() {
    // The goal is one rotation away from a seed.
    let seed = Shape::try_from_string("CrRg----").unwrap();
    let goal = Shape::try_from_string("--CrRg--").unwrap();
    let seeds = vec![seed];
    match search(&seeds, &goal, SearchStrategy::BreadthFirst, 50) {
        SearchOutcome::Found(path) => {
            assert_eq!(path.len(), 2);
            assert_eq!(path[0], seed);
            assert_eq!(path[1], goal);
            assert!(is_successor(&seeds, &path[0], &path[1]));
        }
        _ => panic!("expected a path"),
    }
}

#[test]
fn test_search_stack_move() {
    // The goal needs a stack of two seeds, found by either strategy.
    let bottom = Shape::new_simple(EShape::Circle, EColor::Red);
    let top = Shape::new_simple(EShape::Star, EColor::Blue);
    let goal = Shape::try_from_string("CrCrCrCr:SbSbSbSb").unwrap();
    let seeds = vec![bottom, top];
    match search(&seeds, &goal, SearchStrategy::BreadthFirst, 500) {
        SearchOutcome::Found(path) => {
            assert_eq!(*path.last().unwrap(), goal);
            for w in path.windows(2) {
                assert!(is_successor(&seeds, &w[0], &w[1]));
            }
        }
        other => panic!("expected a path, got {:?}", other),
    }
}

#[test]
fn test_heuristic_counts_matches() {
    let goal = Shape::try_from_string("CrRg----").unwrap();
    // Identical shapes match on kind and color at all 16 positions.
    assert_eq!(heuristic(&goal, &goal), 32);
    // An all-absent shape still matches the goal's 14 absent
    // positions on both counts, and the two occupied ones on
    // neither.
    assert_eq!(heuristic(&Shape::default(), &goal), 28);
    // One position of four differs in both kind and color.
    let near = Shape::try_from_string("CrRgWb--").unwrap();
    assert_eq!(heuristic(&near, &goal), 30);
}

#[test]
fn test_is_successor_moves() {
    let seeds = vec![Shape::new_simple(EShape::Star, EColor::Blue)];
    let a = Shape::try_from_string("CrRgWbSy").unwrap();
    assert!(is_successor(&seeds, &a, &a.rotate_once()));
    assert!(is_successor(&seeds, &a, &a.rotate_once_reverse()));
    assert!(is_successor(&seeds, &a, &a.rotate_180()));
    let [left, right] = a.cutting();
    assert!(is_successor(&seeds, &a, &left));
    assert!(is_successor(&seeds, &a, &right));
    let [swap_a, swap_b] = a.swap_with(&seeds[0]);
    assert!(is_successor(&seeds, &a, &swap_a));
    assert!(is_successor(&seeds, &a, &swap_b));
    assert!(is_successor(&seeds, &a, &a.stack_with(&seeds[0])));
    // An unrelated shape is not one move away.
    let far = Shape::try_from_string("P-P-P-P-:P-P-P-P-").unwrap();
    assert!(!is_successor(&seeds, &a, &far));
}

#[test]
fn test_needed_shapes() {
    let items = vec![
        SingleItem {
            shape: EShape::Circle,
            color: EColor::Red,
        },
        SingleItem {
            shape: EShape::Star,
            color: EColor::Blue,
        },
    ];
    let shapes = needed_shapes(items);
    assert_eq!(shapes.len(), 2);
    assert_eq!(shapes[0], Shape::new_simple(EShape::Circle, EColor::Red));
    assert_eq!(shapes[1], Shape::new_simple(EShape::Star, EColor::Blue));
}

#[test]
fn test_needed_shapes_from_goal_items() {
    let goal = Shape::try_from_string("Sb----Wm:--CcP-P-:--P-----:--Sc--Sg").unwrap();
    let items = goal.unique_flat_items();
    // Sb, Wm, Cc, P-, Sc, Sg: six distinct present items.
    assert_eq!(items.len(), 6);
    let shapes = needed_shapes(items);
    assert_eq!(shapes.len(), 6);
    for shape in shapes.iter() {
        assert_eq!(shape.layer_height(), 1);
    }
}
