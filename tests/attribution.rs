use view_factor::attribution::first_hit;

fn names(list: &[&str]) -> Vec<String> {
    list.iter().map(|s| s.to_string()).collect()
}

#[test]
fn first_hit_takes_first_struck_shape_in_collection_order() {
    let n = names(&["a", "b", "c", "d"]);
    assert_eq!(first_hit(&n, 0, &vec![true, false, true, true]), Some(2));
    assert_eq!(first_hit(&n, 3, &vec![false, true, true, true]), Some(1));
}

#[test]
fn first_hit_never_credits_the_emitter() {
    let n = names(&["a", "b"]);
    assert_eq!(first_hit(&n, 0, &vec![true, false]), None);
    assert_eq!(first_hit(&n, 1, &vec![true, true]), Some(0));
}

#[test]
fn first_hit_skips_shapes_sharing_the_emitter_name() {
    let n = names(&["a", "b", "a", "c"]);
    assert_eq!(first_hit(&n, 0, &vec![true, false, true, true]), Some(3));
    assert_eq!(first_hit(&n, 2, &vec![true, false, true, false]), None);
}

#[test]
fn first_hit_none_when_nothing_struck() {
    let n = names(&["a", "b", "c"]);
    assert_eq!(first_hit(&n, 1, &vec![false, false, false]), None);
}
