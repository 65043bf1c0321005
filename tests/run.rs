use view_factor::run::{ViewFactorResult, ViewFactorRun};
use view_factor::scene::Scene;

fn scene(names: &[&str], emissions: u64) -> Scene {
    let mut s = Scene::new(emissions).unwrap();
    for n in names {
        s.add_shape(n.to_string()).unwrap();
    }
    s.configure().unwrap();
    s
}

fn feed(run: &mut ViewFactorRun, trials: &[Vec<bool>]) {
    for t in trials {
        assert!(run.current_emitter().is_some());
        run.record(t);
    }
}

fn result(from: &str, to: &str, hits: u64, emissions: u64) -> ViewFactorResult {
    ViewFactorResult {
        from_shape: from.to_string(),
        to_shape: to.to_string(),
        hits,
        emissions,
    }
}

#[test]
fn two_shapes_count_hits_per_emitter() {
    let s = scene(&["left", "right"], 4);
    let mut run = s.start_run().unwrap();
    assert_eq!(run.current_emitter(), Some(0));
    assert_eq!(run.record(&vec![true, true]), Some(1));
    assert_eq!(run.record(&vec![true, false]), None);
    assert_eq!(run.record(&vec![false, true]), Some(1));
    assert_eq!(run.current_emitter(), Some(0));
    assert_eq!(run.record(&vec![false, false]), None);
    assert_eq!(run.current_emitter(), Some(1));
    feed(
        &mut run,
        &[
            vec![true, true],
            vec![false, true],
            vec![false, false],
            vec![false, false],
        ],
    );
    assert_eq!(run.current_emitter(), None);
    assert_eq!(
        run.finish(),
        vec![result("left", "right", 2, 4), result("right", "left", 1, 4)]
    );
}

#[test]
fn first_hit_policy_credits_earlier_shape() {
    let s = scene(&["a", "b", "c"], 2);
    let mut run = s.start_run().unwrap();
    feed(
        &mut run,
        &[
            vec![false, true, true],
            vec![false, false, true],
            vec![true, false, true],
            vec![false, false, false],
            vec![false, false, false],
            vec![false, false, false],
        ],
    );
    assert_eq!(
        run.finish(),
        vec![
            result("a", "b", 1, 2),
            result("a", "c", 1, 2),
            result("b", "a", 1, 2),
        ]
    );
}

#[test]
fn targets_listed_in_order_of_first_hit() {
    let s = scene(&["a", "b", "c"], 3);
    let mut run = s.start_run().unwrap();
    feed(
        &mut run,
        &[
            vec![false, false, true],
            vec![false, true, false],
            vec![false, false, true],
        ],
    );
    feed(&mut run, &[vec![false; 3], vec![false; 3], vec![false; 3]]);
    feed(&mut run, &[vec![false; 3], vec![false; 3], vec![false; 3]]);
    assert_eq!(
        run.finish(),
        vec![result("a", "c", 2, 3), result("a", "b", 1, 3)]
    );
}

#[test]
fn every_ray_hitting_gives_full_view_factor() {
    let s = scene(&["inner", "outer"], 3);
    let mut run = s.start_run().unwrap();
    feed(&mut run, &[vec![true, true], vec![true, true], vec![true, true]]);
    feed(&mut run, &[vec![false, false], vec![false, false], vec![false, false]]);
    let results = run.finish();
    assert_eq!(results, vec![result("inner", "outer", 3, 3)]);
    assert_eq!(results[0].hits, results[0].emissions);
}

#[test]
fn single_shape_scene_has_no_results() {
    let s = scene(&["alone"], 5);
    let mut run = s.start_run().unwrap();
    for _ in 0..5 {
        assert_eq!(run.current_emitter(), Some(0));
        assert_eq!(run.record(&vec![true]), None);
    }
    assert_eq!(run.current_emitter(), None);
    assert!(run.finish().is_empty());
}

#[test]
fn empty_scene_has_no_results() {
    let s = scene(&[], 5);
    let run = s.start_run().unwrap();
    assert_eq!(run.current_emitter(), None);
    assert!(run.finish().is_empty());
}

#[test]
fn no_result_targets_its_own_emitter() {
    let s = scene(&["a", "a", "b"], 2);
    let mut run = s.start_run().unwrap();
    feed(
        &mut run,
        &[
            vec![true, true, false],
            vec![true, true, true],
            vec![true, true, true],
            vec![true, true, false],
            vec![true, true, true],
            vec![true, true, true],
        ],
    );
    let results = run.finish();
    assert_eq!(
        results,
        vec![
            result("a", "b", 1, 2),
            result("a", "b", 1, 2),
            result("b", "a", 2, 2),
        ]
    );
    for r in &results {
        assert_ne!(r.from_shape, r.to_shape);
    }
}

#[test]
fn same_observations_give_identical_results() {
    let trials: Vec<Vec<bool>> = (0..20u32)
        .map(|i| vec![i % 3 == 0, i % 2 == 0, i % 5 == 1])
        .collect();
    let mut outcomes = Vec::new();
    for _ in 0..2 {
        let s = scene(&["p", "q", "r"], 5);
        let mut run = s.start_run().unwrap();
        for i in 0..15 {
            run.record(&trials[i]);
        }
        outcomes.push(run.finish());
    }
    assert!(!outcomes[0].is_empty());
    assert_eq!(outcomes[0], outcomes[1]);
}

#[test]
fn scene_can_be_run_again() {
    let s = scene(&["a", "b"], 1);
    for _ in 0..2 {
        let mut run = s.start_run().unwrap();
        feed(&mut run, &[vec![false, true], vec![true, false]]);
        assert_eq!(
            run.finish(),
            vec![result("a", "b", 1, 1), result("b", "a", 1, 1)]
        );
    }
}
