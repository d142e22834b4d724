use lini::render::intern::IdTable;

#[test]
fn a_run_of_interns_keeps_first_appearance_order() {
    let mut t: IdTable<u64, String> = IdTable::new();
    assert!(t.is_empty());
    let keys = [7u64, 3, 7, 9, 3, 7];
    let got: Vec<usize> = keys
        .iter()
        .map(|k| t.intern(*k, || format!("v{}", k)))
        .collect();
    assert_eq!(got, vec![0, 1, 0, 2, 1, 0]);
    assert_eq!(t.values(), &["v7".to_string(), "v3".to_string(), "v9".to_string()][..]);
    assert_eq!(t.index_of(&7), Some(0));
    assert_eq!(t.index_of(&3), Some(1));
    assert_eq!(t.index_of(&9), Some(2));
    assert_eq!(t.index_of(&4), None);
    assert!(!t.is_empty());
    assert_eq!(t.into_values().len(), 3);
}

#[test]
fn a_value_is_built_only_on_first_sight() {
    let mut t: IdTable<&str, usize> = IdTable::new();
    let mut built = 0;
    for k in ["x", "y", "x", "x"] {
        t.intern(k, || {
            built += 1;
            built
        });
    }
    assert_eq!(built, 2);
    assert_eq!(t.values(), &[1, 2][..]);
}

#[derive(Debug)]
struct Caseless(String);

impl PartialEq for Caseless {
    fn eq(&self, other: &Self) -> bool {
        self.0.to_ascii_lowercase() == other.0.to_ascii_lowercase()
    }
}

#[test]
fn keys_equal_under_an_equivalence_share_one_index() {
    let mut t: IdTable<Caseless, &str> = IdTable::new();
    let got: Vec<usize> = ["Red", "blue", "RED", "Blue", "green"]
        .iter()
        .map(|k| t.intern(Caseless(k.to_string()), || *k))
        .collect();
    assert_eq!(got, vec![0, 1, 0, 1, 2]);
    assert_eq!(t.values(), &["Red", "blue", "green"][..]);
    assert_eq!(t.index_of(&Caseless("GREEN".to_string())), Some(2));
    assert_eq!(t.index_of(&Caseless("grey".to_string())), None);
}
