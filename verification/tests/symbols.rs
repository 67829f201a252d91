//! The DEX symbol view: lookups and the implementors table.

use dexflow::dex::{Class, DexSymbols, Method};

fn method(idx: u32, class_idx: u32, name: &str) -> Method {
    Method {
        method_idx: idx,
        class_idx,
        proto_idx: 0,
        method_name: String::from(name),
    }
}

fn sample() -> DexSymbols {
    DexSymbols {
        methods: vec![],
        protos: vec![],
        fields: vec![],
        types: vec![String::from("V"), String::from("LA;"), String::from("LB;")],
        strings: vec![String::from("one"), String::from("two")],
        classes: vec![
            Class { class_name: String::from("LA;"), class_idx: 1, methods: vec![] },
            Class { class_name: String::from("LB;"), class_idx: 2, methods: vec![] },
            Class { class_name: String::from("LA2;"), class_idx: 1, methods: vec![] },
        ],
        implementors: vec![
            (1, Class { class_name: String::from("LImpl1;"), class_idx: 5, methods: vec![] }),
            (2, Class { class_name: String::from("LImpl2;"), class_idx: 6, methods: vec![] }),
            (1, Class { class_name: String::from("LImpl3;"), class_idx: 7, methods: vec![] }),
        ],
    }
}

#[test]
fn type_and_string_lookups_are_bounds_checked() {
    let dex = sample();
    assert_eq!(dex.get_type_name(1).unwrap(), "LA;");
    assert!(dex.get_type_name(3).is_none());
    assert_eq!(dex.get_string(0).unwrap(), "one");
    assert!(dex.get_string(2).is_none());
}

#[test]
fn class_lookup_takes_the_first_match() {
    let dex = sample();
    let c = dex.get_class_by_type_name_idx(1).unwrap();
    assert_eq!(c.class_name, "LA;");
    assert!(dex.get_class_by_type_name_idx(9).is_none());
}

#[test]
fn implementors_are_filtered_by_interface_index_in_order() {
    let dex = sample();
    let impls = dex.get_implementations_for(&Class {
        class_name: String::from("LA;"),
        class_idx: 1,
        methods: vec![],
    });
    assert_eq!(impls.len(), 2);
    assert_eq!(impls[0].class_name, "LImpl1;");
    assert_eq!(impls[1].class_name, "LImpl3;");
}

#[test]
fn method_search_takes_the_last_match_by_name() {
    let c = Class {
        class_name: String::from("LC;"),
        class_idx: 3,
        methods: vec![method(1, 3, "run"), method(2, 3, "stop"), method(4, 3, "run")],
    };
    let m = c.find_method_by_name(&String::from("run")).unwrap();
    assert_eq!(m.method_idx, 4);
    assert!(c.find_method_by_name(&String::from("missing")).is_none());
}
