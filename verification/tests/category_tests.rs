use plotcoord::{Category, CategoryError, Ranged};

fn letters() -> Category<String> {
    Category::new(
        "letters".to_string(),
        vec!["A".to_string(), "B".to_string(), "C".to_string()],
    )
}

#[test]
fn test_category_basics() {
    let cat = letters();
    assert_eq!(cat.len(), 3);
    assert!(!cat.is_empty());
    assert_eq!(cat.name(), "letters".to_string());
}

#[test]
fn test_category_margin_invariant() {
    let cat = letters();
    let range = cat.range().unwrap();
    let a = cat.get(&"A".to_string()).unwrap();
    let b = cat.get(&"B".to_string()).unwrap();
    let c = cat.get(&"C".to_string()).unwrap();
    let pa = range.map(&a, (0, 80));
    let pb = range.map(&b, (0, 80));
    let pc = range.map(&c, (0, 80));
    // "B" lands strictly between its neighbours.
    assert!(pa < pb && pb < pc);
    // No category touches the viewport edge: a half slot stays free.
    assert!(pa > 0 && pc < 80);
    assert_eq!((pa, pb, pc), (20, 40, 60));
}

#[test]
fn test_category_get_absent() {
    let cat = letters();
    assert!(cat.get(&"D".to_string()).is_none());
}

#[test]
fn test_category_get_first_match() {
    let cat = Category::new(
        "dup".to_string(),
        vec!["X".to_string(), "Y".to_string(), "X".to_string()],
    );
    let x = cat.get(&"X".to_string()).unwrap();
    let range = cat.range().unwrap();
    let first = cat.get(&"X".to_string()).unwrap();
    // Both lookups find the first occurrence, which maps like index zero.
    assert_eq!(range.map(&x, (0, 80)), range.map(&first, (0, 80)));
    assert_eq!(range.map(&x, (0, 80)), 20);
}

#[test]
fn test_category_empty_range() {
    let cat: Category<String> = Category::new("empty".to_string(), vec![]);
    assert!(cat.is_empty());
    assert!(matches!(cat.range(), Err(CategoryError::EmptyCategory)));
}

#[test]
fn test_category_key_points() {
    let cat = letters();
    let range = cat.range().unwrap();
    let kp = range.key_points(3);
    assert_eq!(kp.len(), 3);
    let positions: Vec<i32> = kp.iter().map(|e| range.map(e, (0, 80))).collect();
    assert_eq!(positions, vec![20, 40, 60]);
    // A tight budget keeps the first element and strides past the rest.
    let kp1 = range.key_points(1);
    assert_eq!(kp1.len(), 1);
    assert_eq!(range.map(&kp1[0], (0, 80)), 20);
    assert_eq!(range.key_points(0).len(), 0);
}
