use skadi::config::{Anchor, AnchorEdges, Layer, DEFAULT_PORT};
use skadi::error::SkadiError;
use skadi::paths::Paths;

#[test]
fn the_configuration_directory_hangs_off_the_base() {
    assert_eq!(Paths::config_dir_from("/home/u/.config".to_string()), "/home/u/.config/skadi");
}

#[test]
fn candidate_configuration_files_come_in_probe_order() {
    let v = Paths::possible_configs_from(&"/cfg/skadi".to_string());
    assert_eq!(
        v,
        vec![
            "/cfg/skadi/config.json".to_string(),
            "/cfg/skadi/config.jsonc".to_string(),
            "/cfg/skadi/config.json5".to_string(),
        ]
    );
}

#[test]
fn the_plugins_directory_hangs_off_the_configuration() {
    assert_eq!(Paths::plugins_dir_from(&"/cfg/skadi".to_string()), "/cfg/skadi/plugins");
}

#[test]
fn resolved_directories_end_in_the_expected_entries() {
    match Paths::config_dir() {
        Ok(p) => assert!(p.ends_with("/skadi")),
        Err(e) => assert!(matches!(e, SkadiError::PathNotFound)),
    }
    match Paths::plugins() {
        Ok(p) => assert!(p.ends_with("/skadi/plugins")),
        Err(e) => assert!(matches!(e, SkadiError::PathNotFound)),
    }
    match Paths::possible_configs() {
        Ok(v) => {
            assert_eq!(v.len(), 3);
            assert!(v[0].ends_with("/skadi/config.json"));
            assert!(v[1].ends_with("/skadi/config.jsonc"));
            assert!(v[2].ends_with("/skadi/config.json5"));
        }
        Err(e) => assert!(matches!(e, SkadiError::PathNotFound)),
    }
}

#[test]
fn the_first_existing_candidate_is_loaded() {
    let paths = vec!["a.json".to_string(), "a.jsonc".to_string(), "a.json5".to_string()];
    let picked = Paths::first_existing_config(paths.clone(), vec![false, true, true]);
    assert_eq!(picked.unwrap(), "a.jsonc");
    let picked = Paths::first_existing_config(paths.clone(), vec![true, false, false]);
    assert_eq!(picked.unwrap(), "a.json");
}

#[test]
fn no_existing_candidate_names_them_all() {
    let paths = vec!["a.json".to_string(), "a.jsonc".to_string()];
    match Paths::first_existing_config(paths.clone(), vec![false, false]) {
        Err(SkadiError::ConfigNotSpecified(v)) => assert_eq!(v, paths),
        other => panic!("expected the candidates back, got {:?}", other),
    }
}

#[test]
fn anchor_names_parse_case_insensitively() {
    assert_eq!(Anchor::parse("top"), Some(Anchor::Top));
    assert_eq!(Anchor::parse("Top"), Some(Anchor::Top));
    assert_eq!(Anchor::parse("LEFT"), Some(Anchor::Left));
    assert_eq!(Anchor::parse("right"), Some(Anchor::Right));
    assert_eq!(Anchor::parse("bottom"), Some(Anchor::Bottom));
    assert_eq!(Anchor::parse("center"), Some(Anchor::Center));
    assert_eq!(Anchor::parse("top left"), Some(Anchor::TopLeft));
    assert_eq!(Anchor::parse("TOPLEFT"), Some(Anchor::TopLeft));
    assert_eq!(Anchor::parse("top right"), Some(Anchor::TopRight));
    assert_eq!(Anchor::parse("topright"), Some(Anchor::TopRight));
    assert_eq!(Anchor::parse("Top Center"), Some(Anchor::TopCenter));
    assert_eq!(Anchor::parse("bottom left"), Some(Anchor::BottomLeft));
    assert_eq!(Anchor::parse("bottomright"), Some(Anchor::BottomRight));
    assert_eq!(Anchor::parse("bottom center"), Some(Anchor::BottomCenter));
}

#[test]
fn unknown_anchor_names_parse_to_nothing() {
    assert_eq!(Anchor::parse("middle"), None);
    assert_eq!(Anchor::parse(""), None);
    assert_eq!(Anchor::parse("top  left"), None);
}

#[test]
fn layer_names_parse_exactly() {
    assert_eq!(Layer::parse("top"), Some(Layer::Top));
    assert_eq!(Layer::parse("bottom"), Some(Layer::Bottom));
    assert_eq!(Layer::parse("background"), Some(Layer::Background));
    assert_eq!(Layer::parse("overlay"), Some(Layer::Overlay));
    assert_eq!(Layer::parse("Top"), None);
    assert_eq!(Layer::parse("panel"), None);
}

#[test]
fn the_defaults_are_fixed() {
    assert_eq!(DEFAULT_PORT, 3497);
    assert_eq!(Layer::default(), Layer::Top);
}

#[test]
fn side_anchors_pin_one_edge() {
    assert_eq!(
        Anchor::Top.edges(),
        AnchorEdges { top: Some(true), left: None, right: None, bottom: None }
    );
    assert_eq!(
        Anchor::Bottom.edges(),
        AnchorEdges { top: None, left: None, right: None, bottom: Some(true) }
    );
}

#[test]
fn the_center_anchor_releases_all_edges() {
    assert_eq!(
        Anchor::Center.edges(),
        AnchorEdges {
            top: Some(false),
            left: Some(false),
            right: Some(false),
            bottom: Some(false)
        }
    );
}

#[test]
fn side_center_anchors_pin_the_side_and_release_its_neighbours() {
    assert_eq!(
        Anchor::TopCenter.edges(),
        AnchorEdges { top: Some(true), left: Some(false), right: Some(false), bottom: None }
    );
    assert_eq!(
        Anchor::BottomCenter.edges(),
        AnchorEdges { top: None, left: Some(false), right: Some(false), bottom: Some(true) }
    );
}

#[test]
fn corner_anchors_pin_two_edges() {
    assert_eq!(
        Anchor::TopLeft.edges(),
        AnchorEdges { top: Some(true), left: Some(true), right: None, bottom: None }
    );
    assert_eq!(
        Anchor::BottomRight.edges(),
        AnchorEdges { top: None, left: None, right: Some(true), bottom: Some(true) }
    );
}
