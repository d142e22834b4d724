use lini::name::{asset_prefix, def_id, scope_class, tag};

#[test]
fn prefixes_differ_by_asset() {
    assert_ne!(
        asset_prefix(b"<svg><g id=\"a\"/></svg>"),
        asset_prefix(b"<svg><g id=\"b\"/></svg>")
    );
    assert_eq!(asset_prefix(b"same bytes"), asset_prefix(b"same bytes"));
}

#[test]
fn a_name_is_stable_and_distinguishes_its_body() {
    assert_eq!(
        def_id("gradient", "linear 135"),
        def_id("gradient", "linear 135")
    );
    assert_ne!(
        def_id("gradient", "linear 135"),
        def_id("gradient", "linear 90")
    );
    assert_ne!(def_id("hatch", "45"), def_id("clip", "45"));
}

/// FNV-1a's offset basis for the empty input, folded and hex-formatted.
#[test]
fn the_tag_of_nothing_is_the_folded_offset_basis() {
    let h: u64 = 0xcbf2_9ce4_8422_2325;
    assert_eq!(tag(b""), format!("{:08x}", (h ^ (h >> 32)) as u32));
    assert_eq!(tag(b"a").len(), 8);
    assert!(scope_class("x").starts_with("lini-scope-"));
    assert!(def_id("clip", "45").starts_with("lini-clip-"));
}
