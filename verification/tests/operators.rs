use chai::config::{AtomicConstraint, Cache, Config, GroupMember, KeyMap};
use chai::constraints::{swap_elements, ConstraintError, Constraints, Eligibility};
use rand::rngs::StdRng;
use rand::SeedableRng;

fn names(list: &[&str]) -> Cache {
    Cache { names: list.iter().map(|name| name.to_string()).collect() }
}

fn rule(element: &str, keys: Option<&str>) -> AtomicConstraint {
    AtomicConstraint {
        element: Some(element.to_string()),
        index: None,
        keys: keys.map(|keys| keys.chars().collect()),
    }
}

fn part(element: &str, index: usize) -> GroupMember {
    GroupMember { element: element.to_string(), index }
}

fn declare(alphabet: &str, rules: Vec<AtomicConstraint>, groups: Vec<Vec<GroupMember>>) -> Config {
    Config {
        alphabet: alphabet.chars().collect(),
        elements: rules,
        indices: Vec::new(),
        element_indices: Vec::new(),
        grouping: groups,
    }
}

/// Five elements over the alphabet `ab`: 0 is fixed, 1 is narrowed to `a`,
/// 2 and 3 form a group, 4 is free.
fn mixed_model() -> Constraints {
    let declared = declare(
        "ab",
        vec![rule("f", None), rule("n", Some("a"))],
        vec![vec![part("g", 0), part("g", 1)]],
    );
    Constraints::new(&declared, &names(&["f", "n", "g.0", "g.1", "u"])).unwrap()
}

fn free_model(elements: usize, alphabet: &str) -> Constraints {
    let list: Vec<String> = (0..elements).map(|id| format!("e{}", id)).collect();
    let declared = declare(alphabet, Vec::new(), Vec::new());
    Constraints::new(&declared, &Cache { names: list }).unwrap()
}

fn sorted(map: &KeyMap) -> KeyMap {
    let mut symbols = map.clone();
    symbols.sort();
    symbols
}

fn differing(a: &KeyMap, b: &KeyMap) -> Vec<usize> {
    assert_eq!(a.len(), b.len());
    (0..a.len()).filter(|&at| a[at] != b[at]).collect()
}

#[test]
fn mixed_model_lists_its_eligible_elements() {
    let model = mixed_model();
    assert_eq!(model.elements(), 5);
    assert_eq!(model.movable(), &vec![1, 2, 3, 4]);
    assert_eq!(model.swappable(), &vec![4]);
    assert!(model.has_usable_domains());
}

#[test]
fn thousand_moves_respect_every_constraint() {
    let model = mixed_model();
    let mut rng = StdRng::seed_from_u64(20240229);
    let initial: KeyMap = vec!['b', 'a', 'b', 'b', 'a'];
    let mut current = initial.clone();
    let mut seen_change = [false; 5];
    for _ in 0..1000 {
        let before = current.clone();
        let next = model.constrained_random_move(&current, &mut rng).unwrap();
        assert_eq!(current, before);
        assert_eq!(next.len(), 5);
        assert_eq!(next[0], initial[0]);
        assert_eq!(next[1], 'a');
        assert_eq!(next[2], next[3]);
        for at in differing(&current, &next) {
            seen_change[at] = true;
        }
        for symbol in &next {
            assert!(model.alphabet().contains(symbol));
        }
        current = next;
    }
    assert_eq!(seen_change, [false, false, true, true, true]);
}

#[test]
fn move_changes_one_element_or_one_group() {
    let model = mixed_model();
    let mut rng = StdRng::seed_from_u64(7);
    let current: KeyMap = vec!['b', 'a', 'a', 'a', 'a'];
    let mut seen = Vec::new();
    for _ in 0..300 {
        let next = model.constrained_random_move(&current, &mut rng).unwrap();
        let changed = differing(&current, &next);
        assert!(changed.is_empty() || changed == vec![2, 3] || changed == vec![4], "{:?}", changed);
        for &at in &changed {
            assert_eq!(next[at], 'b');
        }
        if !seen.contains(&changed) {
            seen.push(changed);
        }
    }
    seen.sort();
    assert_eq!(seen, vec![vec![], vec![2, 3], vec![4]]);
}

#[test]
fn move_element_writes_one_place() {
    let model = mixed_model();
    let map: KeyMap = vec!['a', 'a', 'a', 'a', 'a'];
    assert_eq!(model.move_element(&map, 4, 'b'), vec!['a', 'a', 'a', 'a', 'b']);
    assert_eq!(model.move_element(&map, 1, 'b'), vec!['a', 'b', 'a', 'a', 'a']);
    assert_eq!(model.move_element(&map, 4, 'a'), map);
    assert_eq!(map, vec!['a', 'a', 'a', 'a', 'a']);
}

#[test]
fn move_element_writes_the_whole_group() {
    let model = mixed_model();
    let map: KeyMap = vec!['a', 'a', 'a', 'b', 'a'];
    assert_eq!(model.move_element(&map, 2, 'b'), vec!['a', 'a', 'b', 'b', 'a']);
    assert_eq!(model.move_element(&map, 3, 'a'), vec!['a', 'a', 'a', 'a', 'a']);
    assert_eq!(model.move_element(&map, 3, 'c'), vec!['a', 'a', 'c', 'c', 'a']);
}

#[test]
fn group_move_carries_a_fixed_member_along() {
    let declared = declare(
        "ab",
        vec![AtomicConstraint { element: Some("g".to_string()), index: Some(0), keys: None }],
        vec![vec![part("g", 0), part("g", 1)]],
    );
    let model = Constraints::new(&declared, &names(&["g.0", "g.1"])).unwrap();
    assert_eq!(model.movable(), &vec![1]);
    assert_eq!(model.move_element(&vec!['a', 'a'], 1, 'b'), vec!['b', 'b']);
}

#[test]
fn move_draws_from_the_narrowed_list_of_the_drawn_element_only() {
    let declared = declare(
        "ab",
        vec![
            AtomicConstraint { element: Some("g".to_string()), index: Some(0), keys: None },
            AtomicConstraint {
                element: Some("g".to_string()),
                index: Some(1),
                keys: Some(vec!['x', 'y']),
            },
        ],
        vec![vec![part("g", 0), part("g", 1)]],
    );
    let model = Constraints::new(&declared, &names(&["g.0", "g.1"])).unwrap();
    let mut rng = StdRng::seed_from_u64(99);
    let mut seen = Vec::new();
    for _ in 0..200 {
        let next = model.constrained_random_move(&vec!['a', 'a'], &mut rng).unwrap();
        assert_eq!(next[0], next[1]);
        assert!(next[1] == 'x' || next[1] == 'y');
        if !seen.contains(&next[1]) {
            seen.push(next[1]);
        }
    }
    seen.sort();
    assert_eq!(seen, vec!['x', 'y']);
}

#[test]
fn move_reaches_every_movable_element_and_symbol() {
    let model = free_model(3, "abc");
    let mut rng = StdRng::seed_from_u64(5);
    let current: KeyMap = vec!['a', 'a', 'a'];
    let mut reached = Vec::new();
    for _ in 0..500 {
        let next = model.constrained_random_move(&current, &mut rng).unwrap();
        let changed = differing(&current, &next);
        assert!(changed.len() <= 1);
        for at in changed {
            assert!(next[at] == 'b' || next[at] == 'c');
            if !reached.contains(&(at, next[at])) {
                reached.push((at, next[at]));
            }
        }
    }
    reached.sort();
    assert_eq!(reached, vec![(0, 'b'), (0, 'c'), (1, 'b'), (1, 'c'), (2, 'b'), (2, 'c')]);
}

#[test]
fn moves_replay_from_the_same_seed() {
    let model = free_model(6, "abcdef");
    let start: KeyMap = vec!['a', 'b', 'c', 'd', 'e', 'f'];
    let mut walks = Vec::new();
    for _ in 0..2 {
        let mut rng = StdRng::seed_from_u64(31337);
        let mut current = start.clone();
        for step in 0..50 {
            current = if step % 2 == 0 {
                model.constrained_random_move(&current, &mut rng).unwrap()
            } else {
                model.constrained_random_swap(&current, &mut rng).unwrap()
            };
        }
        walks.push(current);
    }
    assert_eq!(walks[0], walks[1]);
}

#[test]
fn movable_draw_fails_where_every_element_is_fixed() {
    let declared = declare("ab", vec![rule("x", None), rule("y", None)], Vec::new());
    let model = Constraints::new(&declared, &names(&["x", "y", "x.1"])).unwrap();
    let mut rng = StdRng::seed_from_u64(1);
    let expected = ConstraintError::NoEligibleElement {
        predicate: Eligibility::Movable,
        elements: 3,
        fixed: 3,
        narrowed: 0,
        grouped: 0,
    };
    assert_eq!(model.get_movable_element(&mut rng), Err(expected.clone()));
    assert!(model.has_usable_domains());
    let map: KeyMap = vec!['a', 'b', 'a'];
    assert_eq!(model.constrained_random_move(&map, &mut rng), Err(expected));
}

#[test]
fn draws_fail_on_a_model_without_elements() {
    let model = free_model(0, "ab");
    let mut rng = StdRng::seed_from_u64(1);
    assert_eq!(
        model.get_movable_element(&mut rng),
        Err(ConstraintError::NoEligibleElement {
            predicate: Eligibility::Movable,
            elements: 0,
            fixed: 0,
            narrowed: 0,
            grouped: 0,
        })
    );
    assert_eq!(
        model.constrained_random_swap(&Vec::new(), &mut rng),
        Err(ConstraintError::NoEligibleElement {
            predicate: Eligibility::Swappable,
            elements: 0,
            fixed: 0,
            narrowed: 0,
            grouped: 0,
        })
    );
}

#[test]
fn swappable_draw_fails_where_every_element_is_excluded() {
    let declared = declare(
        "ab",
        vec![rule("f", None), rule("n", Some("a"))],
        vec![vec![part("g", 0), part("g", 1)]],
    );
    let model = Constraints::new(&declared, &names(&["f", "n", "g.0", "g.1"])).unwrap();
    let mut rng = StdRng::seed_from_u64(3);
    let expected = ConstraintError::NoEligibleElement {
        predicate: Eligibility::Swappable,
        elements: 4,
        fixed: 1,
        narrowed: 1,
        grouped: 2,
    };
    assert_eq!(model.get_swappable_element(&mut rng), Err(expected.clone()));
    let map: KeyMap = vec!['a', 'a', 'b', 'b'];
    assert_eq!(model.constrained_random_swap(&map, &mut rng), Err(expected));
    assert!(model.get_movable_element(&mut rng).is_ok());
}

#[test]
fn movable_draw_never_gives_a_fixed_element() {
    let model = mixed_model();
    let mut rng = StdRng::seed_from_u64(11);
    let mut drawn = Vec::new();
    for _ in 0..400 {
        let id = model.get_movable_element(&mut rng).unwrap();
        assert!(id < model.elements());
        assert!(!model.is_fixed(id));
        if !drawn.contains(&id) {
            drawn.push(id);
        }
    }
    drawn.sort();
    assert_eq!(drawn, vec![1, 2, 3, 4]);
}

#[test]
fn swappable_draw_gives_free_elements_only() {
    let declared = declare(
        "ab",
        vec![rule("f", None), rule("n", Some("a"))],
        vec![vec![part("g", 0), part("g", 1)]],
    );
    let cache = names(&["u", "f", "v", "n", "g.0", "w", "g.1"]);
    let model = Constraints::new(&declared, &cache).unwrap();
    let mut rng = StdRng::seed_from_u64(13);
    let mut drawn = Vec::new();
    for _ in 0..400 {
        let id = model.get_swappable_element(&mut rng).unwrap();
        assert!(!model.is_fixed(id));
        assert!(model.narrowed_to(id).is_none());
        assert!(model.group_of(id).is_none());
        if !drawn.contains(&id) {
            drawn.push(id);
        }
    }
    drawn.sort();
    assert_eq!(drawn, vec![0, 2, 5]);
}

#[test]
fn swap_touches_free_elements_only_and_permutes() {
    let declared = declare(
        "abcdefg",
        vec![rule("f", None), rule("n", Some("a"))],
        vec![vec![part("g", 0), part("g", 1)]],
    );
    let cache = names(&["u", "f", "v", "n", "g.0", "w", "g.1"]);
    let model = Constraints::new(&declared, &cache).unwrap();
    let mut rng = StdRng::seed_from_u64(17);
    let start: KeyMap = vec!['a', 'b', 'c', 'd', 'e', 'f', 'g'];
    let mut current = start.clone();
    let mut swapped_pairs = Vec::new();
    for _ in 0..500 {
        let before = current.clone();
        let next = model.constrained_random_swap(&current, &mut rng).unwrap();
        assert_eq!(current, before);
        assert_eq!(sorted(&next), sorted(&current));
        let changed = differing(&current, &next);
        assert!(changed.is_empty() || changed.len() == 2);
        for &at in &changed {
            assert!(at == 0 || at == 2 || at == 5);
        }
        if changed.len() == 2 {
            assert_eq!(next[changed[0]], current[changed[1]]);
            assert_eq!(next[changed[1]], current[changed[0]]);
            if !swapped_pairs.contains(&changed) {
                swapped_pairs.push(changed);
            }
        }
        for at in [1usize, 3, 4, 6] {
            assert_eq!(next[at], start[at]);
        }
        current = next;
    }
    swapped_pairs.sort();
    assert_eq!(swapped_pairs, vec![vec![0, 2], vec![0, 5], vec![2, 5]]);
}

#[test]
fn swap_of_the_only_free_element_changes_nothing() {
    let model = mixed_model();
    let mut rng = StdRng::seed_from_u64(19);
    let map: KeyMap = vec!['a', 'a', 'b', 'b', 'b'];
    for _ in 0..20 {
        assert_eq!(model.constrained_random_swap(&map, &mut rng), Ok(map.clone()));
    }
}

#[test]
fn swap_elements_exchanges_two_symbols() {
    let map: KeyMap = vec!['a', 'b', 'c', 'd'];
    assert_eq!(swap_elements(&map, 0, 3), vec!['d', 'b', 'c', 'a']);
    assert_eq!(swap_elements(&map, 2, 1), vec!['a', 'c', 'b', 'd']);
    assert_eq!(swap_elements(&map, 1, 1), map);
    assert_eq!(map, vec!['a', 'b', 'c', 'd']);
}

#[test]
fn swap_elements_twice_gives_the_candidate_back() {
    let map: KeyMap = vec!['a', 'b', 'c', 'b', 'e'];
    for first in 0..map.len() {
        for second in 0..map.len() {
            let once = swap_elements(&map, first, second);
            assert_eq!(sorted(&once), sorted(&map));
            assert_eq!(swap_elements(&once, first, second), map);
        }
    }
}

#[test]
fn domains_are_unusable_where_a_movable_element_has_no_symbol() {
    let model = free_model(2, "");
    assert!(!model.has_usable_domains());
    let declared = declare("ab", vec![rule("x", Some(""))], Vec::new());
    let model = Constraints::new(&declared, &names(&["x", "y"])).unwrap();
    assert!(!model.has_usable_domains());
    let declared = declare("", vec![rule("x", Some("q")), rule("y", None)], Vec::new());
    let model = Constraints::new(&declared, &names(&["x", "y"])).unwrap();
    assert!(model.has_usable_domains());
    let mut rng = StdRng::seed_from_u64(23);
    assert_eq!(model.constrained_random_move(&vec!['a', 'b'], &mut rng), Ok(vec!['q', 'b']));
}
