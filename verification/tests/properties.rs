use lini::ledger::properties::{
    get, inherited_text, is_baked_text, is_builder_call, is_marker, is_string_valued,
    is_text_valid, properties, scope_link_props, DefaultRef, Inherit, Kind, Owner, Shape,
};

#[test]
fn tests_every_name_is_unique() {
    let mut seen = std::collections::HashSet::new();
    for p in properties() {
        assert!(seen.insert(p.name), "duplicate ledger row: {}", p.name);
    }
}

/// The five classifiers' pre-migration sets fall out of the ledger
/// unchanged — membership and order alike.
#[test]
fn tests_classifier_sets_match_the_legacy_lists() {
    assert_eq!(
        inherited_text(),
        [
            "font-family",
            "font-size",
            "font-weight",
            "font-style",
            "text-transform",
            "text-decoration",
            "text-shadow",
            "letter-spacing",
            "line-spacing",
            "color",
        ]
    );
    assert_eq!(
        properties()
            .iter()
            .filter(|p| p.baked)
            .map(|p| p.name)
            .collect::<Vec<_>>(),
        ["font-size", "letter-spacing", "line-spacing"]
    );
    let legacy_text = [
        "color",
        "fill",
        "opacity",
        "font-family",
        "font-size",
        "font-weight",
        "font-style",
        "text-transform",
        "text-decoration",
        "text-shadow",
        "letter-spacing",
        "line-spacing",
        "translate",
        "rotate",
        "layer",
    ];
    for name in legacy_text {
        assert!(is_text_valid(name), "'{name}' lost text validity");
    }
    assert_eq!(
        properties().iter().filter(|p| p.text).count(),
        legacy_text.len(),
        "a property gained text validity the legacy classifier did not have"
    );
    for name in ["marker", "marker-start", "marker-end"] {
        assert!(is_marker(name));
    }
    assert!(!is_marker("stroke"));
    assert_eq!(scope_link_props(), ["format", "clearance", "routing"]);
    for name in [
        "title",
        "hint",
        "href",
        "src",
        "path",
        "categories",
        "labels",
    ] {
        assert!(is_string_valued(name), "'{name}' lost string-valuedness");
    }
    assert!(!is_string_valued("symbol"));
    assert!(!is_string_valued("font-family"));
    for name in ["oklch", "rgb", "repeat", "hatch", "linear-gradient"] {
        assert!(is_builder_call(name));
    }
    assert!(!is_builder_call("min"));
    assert!(matches!(get("draw").map(|p| p.shape), Some(Shape::Pen)));
    assert!(matches!(
        get("pattern").map(|p| p.shape),
        Some(Shape::Pattern)
    ));
}

/// The defaultless names all have rows.
#[test]
fn tests_defaultless_names_are_covered() {
    for name in [
        "points", "symbol", "data", "cell", "of", "at", "tol", "draw",
    ] {
        let p = get(name).unwrap_or_else(|| panic!("'{name}' has no ledger row"));
        assert!(
            matches!(p.default, DefaultRef::Absent),
            "'{name}' should be defaultless"
        );
    }
}

#[test]
fn tests_labels_is_the_series_per_datum_text() {
    let labels = get("labels").unwrap();
    assert!(matches!(labels.shape, Shape::List(Kind::Str)));
    assert!(
        labels
            .owners
            .iter()
            .any(|o| matches!(o, Owner::Role("series")))
    );
    assert!(get("tags").is_none(), "'tags' was renamed to 'labels'");
    assert!(get("over").is_none(), "'over' was replaced by 'place'");
}

#[test]
fn legend_is_the_only_deferred_row() {
    assert!(get("legend").unwrap().deferred);
    assert_eq!(
        properties()
            .iter()
            .filter(|p| p.deferred)
            .map(|p| p.name)
            .collect::<Vec<_>>(),
        ["legend"]
    );
}

#[test]
fn format_is_a_dual_channel_row() {
    let format = get("format").unwrap();
    assert_eq!(format.inherit, Inherit::ScopeLink);
    for owner in ["chart", "pie", "axis", "drawing"] {
        assert!(
            format
                .owners
                .iter()
                .any(|o| matches!(o, Owner::Type(t) if *t == owner)),
            "'format' lost its '{owner}' owner"
        );
    }
    assert!(
        format
            .owners
            .iter()
            .any(|o| matches!(o, Owner::Role("series") | Owner::Role("dimension")))
    );
    assert!(format.has_node_owner());
    assert!(!get("clearance").unwrap().has_node_owner());
    assert!(!get("routing").unwrap().has_node_owner());
}

#[test]
fn baked_props_are_text_props_too() {
    for name in ["font-size", "letter-spacing", "line-spacing"] {
        assert!(is_baked_text(name));
        assert!(is_text_valid(name));
    }
    assert!(!is_baked_text("fill"));
    assert!(!is_baked_text("no-such-property"));
}
