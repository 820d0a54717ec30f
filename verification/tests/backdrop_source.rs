use rocknrolla::backdrop_source::{group_layers, BackdropLayers};

fn names(list: &[&str]) -> Vec<String> {
    list.iter().map(|s| s.to_string()).collect()
}

#[test]
fn groups_a_complete_backdrop() {
    let backdrops = group_layers(&names(&["dusk.sky", "dusk.far", "dusk.mid"])).unwrap();
    assert_eq!(backdrops.len(), 1);
    assert_eq!(backdrops[0].slug, "dusk");
    assert_eq!((backdrops[0].sky, backdrops[0].far, backdrops[0].mid), (0, 1, 2));
}

#[test]
fn rejects_missing_unknown_and_duplicate_roles() {
    let err = group_layers(&names(&["dusk.sky", "dusk.far"])).unwrap_err();
    assert!(err.contains("missing layer 'mid'"), "{err}");

    let err = group_layers(&names(&["dusk.stars"])).unwrap_err();
    assert!(err.contains("unknown layer role 'stars'"), "{err}");

    let err = group_layers(&names(&["dusk.sky", "dusk.sky"])).unwrap_err();
    assert!(err.contains("duplicate layer role 'sky'"), "{err}");

    let err = group_layers(&names(&["plainname"])).unwrap_err();
    assert!(err.contains("not named"), "{err}");
}

#[test]
fn orders_backdrops_by_name_and_reports_exact_problems() {
    let files = names(&["noon.mid", "dawn.sky", "noon.sky", "dawn.mid", "noon.far", "dawn.far"]);
    let backdrops = group_layers(&files).unwrap();
    assert_eq!(
        backdrops,
        vec![
            BackdropLayers { slug: "dawn".to_string(), sky: 1, far: 5, mid: 3 },
            BackdropLayers { slug: "noon".to_string(), sky: 2, far: 4, mid: 0 },
        ]
    );
    assert_eq!(
        group_layers(&names(&["zed.sky", "alpha.mid"])).unwrap_err(),
        "backdrop 'alpha' is missing layer 'sky'"
    );
    assert_eq!(
        group_layers(&names(&["plainname"])).unwrap_err(),
        "backdrop file 'plainname.svg' is not named '<slug>.<role>.svg' (roles: sky, far, mid)"
    );
    assert_eq!(
        group_layers(&names(&["a.b.sky", "a.b.far", "a.b.mid"])).unwrap()[0].slug,
        "a.b"
    );
    assert_eq!(
        group_layers(&names(&["dusk.sky", "dusk.stars"])).unwrap_err(),
        "backdrop 'dusk' has unknown layer role 'stars' (roles: sky, far, mid)"
    );
    assert!(group_layers(&[]).unwrap().is_empty());
}
