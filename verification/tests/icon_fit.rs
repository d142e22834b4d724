use lini::render::icon_fit::Fit;
use lini::resolve::{AttrMap, ResolvedValue};

#[test]
fn auto_with_no_fit_attr() {
    assert_eq!(Fit::of(&AttrMap::new()), Fit::Auto);
}

#[test]
fn each_fit_name_reads_its_mode() {
    let mut attrs = AttrMap::new();
    for (name, fit) in [("contain", Fit::Contain), ("cover", Fit::Cover), ("stretch", Fit::Stretch), ("auto", Fit::Auto)] {
        attrs.insert("fit", ResolvedValue::Ident(name.to_string()));
        assert_eq!(Fit::of(&attrs), fit);
    }
    attrs.insert("fit", ResolvedValue::String("cover".to_string()));
    assert_eq!(Fit::of(&attrs), Fit::Auto);
}
