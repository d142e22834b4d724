use lini::ledger::table::{
    get, inherited_text, is_builder_call, is_marker, is_string_valued,
    is_text_valid, properties, scope_link_props, DefaultRef, Kind, Owner, Shape,
};

#[test]
fn properties_every_name_is_unique() {
    let mut seen = std::collections::HashSet::new();
    for p in properties() {
        assert!(seen.insert(p.name), "duplicate ledger row: {}", p.name);
    }
}

/// The five classifiers' sets fall out of the ledger
/// unchanged — membership and order alike.
#[test]
fn properties_classifier_sets_match_the_legacy_lists() {
    assert_eq!(
        inherited_text(),
        [
            "font-family",
            "font-size",
            "font-weight",
            "font-style",
            "text-transform",
            "text-decoration",
            "text-shadow",
            "letter-spacing",
            "line-spacing",
            "color",
        ]
    );
    assert_eq!(
        properties()
            .iter()
            .filter(|p| p.baked)
            .map(|p| p.name)
            .collect::<Vec<_>>(),
        ["font-size", "letter-spacing", "line-spacing"]
    );
    let expected_text = [
        "color",
        "fill",
        "opacity",
        "font-family",
        "font-size",
        "font-weight",
        "font-style",
        "text-transform",
        "text-decoration",
        "text-shadow",
        "letter-spacing",
        "line-spacing",
        "translate",
        "rotate",
        "layer",
    ];
    for name in expected_text {
        assert!(is_text_valid(name), "'{name}' lost text validity");
    }
    assert_eq!(
        properties().iter().filter(|p| p.text).count(),
        expected_text.len(),
        "a property gained text validity the legacy classifier did not have"
    );
    for name in ["marker", "marker-start", "marker-end"] {
        assert!(is_marker(name));
    }
    assert!(!is_marker("stroke"));
    assert_eq!(scope_link_props(), ["clearance", "routing"]);
    for name in [
        "title",
        "hint",
        "href",
        "src",
        "path",
        "categories",
        "labels",
    ] {
        assert!(is_string_valued(name), "'{name}' lost string-valuedness");
    }
    assert!(!is_string_valued("symbol"));
    assert!(!is_string_valued("font-family"));
    for name in ["oklch", "rgb", "repeat", "hatch", "linear-gradient"] {
        assert!(is_builder_call(name));
    }
    assert!(!is_builder_call("min"));
    assert!(matches!(get("draw").map(|p| p.shape), Some(Shape::Pen)));
    assert!(matches!(
        get("pattern").map(|p| p.shape),
        Some(Shape::Pattern)
    ));
}

/// The defaultless names all have rows.
#[test]
fn properties_defaultless_names_are_covered() {
    for name in [
        "points", "symbol", "data", "cell", "of", "at", "tol", "draw",
    ] {
        let p = get(name).unwrap_or_else(|| panic!("'{name}' has no ledger row"));
        assert!(
            matches!(p.default, DefaultRef::Absent),
            "'{name}' should be defaultless"
        );
    }
}

#[test]
fn properties_labels_is_the_series_per_datum_text() {
    let labels = get("labels").unwrap();
    assert!(matches!(labels.shape, Shape::List(Kind::Str)));
    assert!(
        labels
            .owners
            .iter()
            .any(|o| matches!(o, Owner::Role("series")))
    );
    assert!(get("tags").is_none(), "'tags' was renamed to 'labels'");
    assert!(get("over").is_none(), "'over' was replaced by 'place'");
}

