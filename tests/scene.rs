use view_factor::scene::{Scene, SimulationError};

#[test]
fn zero_emissions_are_rejected() {
    assert_eq!(Scene::new(0).err(), Some(SimulationError::ZeroEmissions));
}

#[test]
fn new_scene_is_empty_and_unconfigured() {
    let s = Scene::new(500).unwrap();
    assert_eq!(s.shape_count(), 0);
    assert_eq!(s.number_of_emissions(), 500);
    assert!(!s.is_configured());
}

#[test]
fn shapes_get_indices_in_order() {
    let mut s = Scene::new(10).unwrap();
    assert_eq!(s.add_shape("straight_line".to_string()), Ok(0));
    assert_eq!(s.add_shape("straight_line_to_the_right".to_string()), Ok(1));
    assert_eq!(s.shape_count(), 2);
    assert_eq!(s.name(1), "straight_line_to_the_right");
}

#[test]
fn no_shape_after_configure() {
    let mut s = Scene::new(10).unwrap();
    s.add_shape("a".to_string()).unwrap();
    assert_eq!(s.configure(), Ok(()));
    assert!(s.is_configured());
    assert_eq!(s.add_shape("b".to_string()), Err(SimulationError::AlreadyConfigured));
    assert_eq!(s.shape_count(), 1);
}

#[test]
fn configure_only_once() {
    let mut s = Scene::new(10).unwrap();
    assert_eq!(s.configure(), Ok(()));
    assert_eq!(s.configure(), Err(SimulationError::AlreadyConfigured));
}

#[test]
fn run_needs_configured_scene() {
    let mut s = Scene::new(10).unwrap();
    s.add_shape("a".to_string()).unwrap();
    assert_eq!(s.start_run().err(), Some(SimulationError::NotConfigured));
    s.configure().unwrap();
    assert!(s.start_run().is_ok());
}
