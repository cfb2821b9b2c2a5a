use smexybot::text::{normalize_name, sort_names};

#[test]
fn normalization_lowercases_and_trims() {
    // Would fail if the lowercase wrapper handed its argument back.
    assert_eq!(normalize_name("FOO"), "foo");
    // Would fail if the trim wrapper handed its argument back.
    assert_eq!(normalize_name("  bar \t"), "bar");
    assert_eq!(normalize_name(" MiXeD "), "mixed");
    assert_eq!(normalize_name(""), "");
}

#[test]
fn sort_names_orders_by_code_point() {
    let names = vec![
        "pear".to_string(),
        "apple".to_string(),
        "apple2".to_string(),
        "Banana".to_string(),
    ];
    let sorted = sort_names(names);
    assert_eq!(
        sorted,
        vec![
            "Banana".to_string(),
            "apple".to_string(),
            "apple2".to_string(),
            "pear".to_string(),
        ]
    );
}
