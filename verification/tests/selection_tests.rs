use autoupdater::component::AvailableComponentsFile;
use autoupdater::component::Component;
use autoupdater::component::Components;
use autoupdater::component::IncompatibilityReason;
use autoupdater::cross_platform::MaybeCrossPlatform;
use autoupdater::platform::Platform;
use autoupdater::select::SelectableHashMap;
use autoupdater::select::SelectionError;
use autoupdater::version::Version;
use autoupdater::version::VersionResolvable;

fn linux() -> Platform {
    Platform::parse("x86_64-linux").unwrap()
}

fn windows() -> Platform {
    Platform::parse("x86_64-windows").unwrap()
}

fn component(name: &str, platforms: Vec<Platform>, deps: Option<Vec<&str>>) -> Component {
    Component {
        display_name: name.to_string(),
        version: VersionResolvable::Semver(Version::new(1, 0, 0)),
        platforms,
        procedure: Vec::new(),
        dependencies: deps.map(
            |d| MaybeCrossPlatform::Cross(d.iter().map(|s| s.to_string()).collect()),
        ),
    }
}

fn engine(entries: Vec<(&str, Component)>) -> SelectableHashMap<Component> {
    let items = entries.into_iter().map(|(k, c)| (k.to_string(), c)).collect();
    SelectableHashMap::new(items, linux())
}

#[test]
fn partition_splits_by_platform() {
    let catalog = AvailableComponentsFile {
        components: vec![
            ("server".to_string(), component("Server", vec![linux(), windows()], None)),
            ("driver".to_string(), component("Driver", vec![windows()], None)),
        ],
    };
    let current = linux();
    let parts = Components::partition(catalog, &current);
    assert_eq!(parts.compatible().len(), 1);
    assert_eq!(parts.compatible()[0].0, "server".to_string());
    assert_eq!(parts.incompatible().len(), 1);
    assert_eq!(parts.incompatible()[0].0, "driver".to_string());
    let IncompatibilityReason::PlatformNotSupported(p) = parts.incompatible()[0].1.reason();
    assert!(*p == current);
    assert_eq!(parts.incompatible()[0].1.display_name(), &"Driver".to_string());
}

#[test]
fn partition_of_empty_catalog() {
    let parts = Components::partition(AvailableComponentsFile { components: Vec::new() }, &linux());
    assert_eq!(parts.compatible().len(), 0);
    assert_eq!(parts.incompatible().len(), 0);
}

#[test]
fn select_pulls_in_dependencies() {
    let mut eng = engine(vec![
        ("A", component("A", vec![linux()], None)),
        ("B", component("B", vec![linux()], Some(vec!["A"]))),
    ]);
    assert_eq!(eng.select(&"B".to_string()), Ok(()));
    assert!(eng.is_selected(&"A".to_string()));
    assert!(eng.is_selected(&"B".to_string()));
}

#[test]
fn deselect_fails_while_still_required() {
    let mut eng = engine(vec![
        ("A", component("A", vec![linux()], None)),
        ("B", component("B", vec![linux()], Some(vec!["A"]))),
    ]);
    assert_eq!(eng.select(&"B".to_string()), Ok(()));
    assert_eq!(
        eng.deselect(&"A".to_string()),
        Err(SelectionError::StillRequiredBy(vec!["B".to_string()])),
    );
    // the failure changed nothing
    assert!(eng.is_selected(&"A".to_string()));
    assert!(eng.is_selected(&"B".to_string()));
    // the other way round works
    assert_eq!(eng.deselect(&"B".to_string()), Ok(()));
    assert_eq!(eng.deselect(&"A".to_string()), Ok(()));
    assert!(!eng.is_selected(&"A".to_string()));
    assert!(!eng.is_selected(&"B".to_string()));
}

#[test]
fn cycle_is_detected() {
    let mut eng = engine(vec![
        ("A", component("A", vec![linux()], Some(vec!["B"]))),
        ("B", component("B", vec![linux()], Some(vec!["A"]))),
    ]);
    assert_eq!(eng.select(&"A".to_string()), Err(SelectionError::DependencyCycle));
    assert!(!eng.is_selected(&"A".to_string()));
    assert!(!eng.is_selected(&"B".to_string()));
}

#[test]
fn unknown_keys_are_reported() {
    let mut eng = engine(vec![
        ("A", component("A", vec![linux()], Some(vec!["ghost"]))),
    ]);
    assert_eq!(
        eng.select(&"missing".to_string()),
        Err(SelectionError::UnknownKey("missing".to_string())),
    );
    // an unknown dependency key surfaces at selection time
    assert_eq!(
        eng.select(&"A".to_string()),
        Err(SelectionError::UnknownKey("ghost".to_string())),
    );
    assert!(!eng.is_selected(&"A".to_string()));
}

#[test]
fn select_is_idempotent() {
    let mut eng = engine(vec![
        ("A", component("A", vec![linux()], None)),
        ("B", component("B", vec![linux()], Some(vec!["A"]))),
    ]);
    assert_eq!(eng.select(&"B".to_string()), Ok(()));
    assert_eq!(eng.select(&"B".to_string()), Ok(()));
    assert_eq!(eng.select(&"A".to_string()), Ok(()));
    assert_eq!(eng.selected_keys().len(), 2);
}

#[test]
fn selection_stays_closed_under_mixed_calls() {
    let mut eng = engine(vec![
        ("A", component("A", vec![linux()], None)),
        ("B", component("B", vec![linux()], Some(vec!["A"]))),
        ("C", component("C", vec![linux()], Some(vec!["B"]))),
        ("D", component("D", vec![linux()], None)),
    ]);
    let _ = eng.select(&"C".to_string());
    let _ = eng.select(&"D".to_string());
    let _ = eng.deselect(&"C".to_string());
    let _ = eng.deselect(&"D".to_string());
    let _ = eng.select(&"B".to_string());
    // every dependency of a selected key is itself selected
    for key in eng.selected_keys().clone() {
        if let Some(deps) = eng.dependencies_of(&key) {
            for d in deps.clone() {
                assert!(eng.is_selected(&d));
            }
        }
    }
    assert!(eng.is_selected(&"A".to_string()));
    assert!(eng.is_selected(&"B".to_string()));
    assert!(!eng.is_selected(&"C".to_string()));
}

#[test]
fn dependencies_resolve_per_platform() {
    let per_platform = MaybeCrossPlatform::NotCross(vec![
        (linux(), vec!["A".to_string()]),
        (windows(), vec!["W".to_string()]),
    ]);
    let mut b = component("B", vec![linux(), windows()], None);
    b.dependencies = Some(per_platform);
    let mut eng = engine(vec![
        ("A", component("A", vec![linux()], None)),
        ("B", b),
    ]);
    // on linux the dependency list resolves to ["A"]; "W" plays no part
    assert_eq!(eng.select(&"B".to_string()), Ok(()));
    assert!(eng.is_selected(&"A".to_string()));
    assert_eq!(eng.dependencies_of(&"B".to_string()), Some(&vec!["A".to_string()]));
}

#[test]
fn deselect_of_unselected_key_is_a_no_op() {
    let mut eng = engine(vec![("A", component("A", vec![linux()], None))]);
    assert_eq!(eng.deselect(&"A".to_string()), Ok(()));
    assert_eq!(eng.deselect(&"nowhere".to_string()), Ok(()));
    assert_eq!(eng.selected_keys().len(), 0);
}

#[test]
fn diamond_dependencies_select_once() {
    let mut eng = engine(vec![
        ("A", component("A", vec![linux()], None)),
        ("B", component("B", vec![linux()], Some(vec!["A"]))),
        ("C", component("C", vec![linux()], Some(vec!["A", "B"]))),
    ]);
    assert_eq!(eng.select(&"C".to_string()), Ok(()));
    assert_eq!(eng.selected_keys().len(), 3);
    assert!(eng.is_selected(&"A".to_string()));
    assert!(eng.is_selected(&"B".to_string()));
    assert!(eng.is_selected(&"C".to_string()));
}

#[test]
fn queries_on_unknown_keys() {
    let eng = engine(vec![("A", component("A", vec![linux()], None))]);
    assert!(!eng.is_selected(&"nowhere".to_string()));
    assert_eq!(eng.dependencies_of(&"nowhere".to_string()), None);
    assert_eq!(eng.dependencies_of(&"A".to_string()), None);
}

#[test]
fn into_selectable_hashmap_keeps_compatible_components() {
    let catalog = AvailableComponentsFile {
        components: vec![
            ("server".to_string(), component("Server", vec![linux()], None)),
            ("driver".to_string(), component("Driver", vec![windows()], None)),
        ],
    };
    let current = linux();
    let parts = Components::partition(catalog, &current);
    let mut eng = parts.into_selectable_hashmap(current);
    assert_eq!(eng.select(&"server".to_string()), Ok(()));
    assert_eq!(
        eng.select(&"driver".to_string()),
        Err(SelectionError::UnknownKey("driver".to_string())),
    );
}
