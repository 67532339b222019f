use spectacle::{Breadcrumb, Breadcrumbs};

#[test]
fn new_trail_is_empty() {
    let trail = Breadcrumbs::new();
    assert!(trail.is_empty());
    assert_eq!(trail.len(), 0);
    assert_eq!(trail.to_vec(), Vec::<Breadcrumb>::new());
}

#[test]
fn extending_a_clone_leaves_the_parent() {
    let mut parent = Breadcrumbs::new();
    parent.push_back(Breadcrumb::Field("a"));
    let left = parent.extended(Breadcrumb::TupleIndex(0));
    let right = parent.extended(Breadcrumb::Index(String::from("7")));
    assert_eq!(parent.to_vec(), vec![Breadcrumb::Field("a")]);
    assert_eq!(left.to_vec(), vec![Breadcrumb::Field("a"), Breadcrumb::TupleIndex(0)]);
    assert_eq!(
        right.to_vec(),
        vec![Breadcrumb::Field("a"), Breadcrumb::Index(String::from("7"))]
    );
    assert_eq!(right.get(1), Some(Breadcrumb::Index(String::from("7"))));
    assert_eq!(right.get(2), None);
}
