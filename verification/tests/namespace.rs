use moq_core::namespace::Namespace;

#[test]
fn parse_splits_on_slashes() {
    let ns = Namespace::parse("studio/room1");
    assert_eq!(ns.len(), 2);
    assert_eq!(ns.segment(0), "studio");
    assert_eq!(ns.segment(1), "room1");
}

#[test]
fn parse_empty_path_gives_one_empty_segment() {
    let ns = Namespace::parse("");
    assert_eq!(ns.len(), 1);
    assert_eq!(ns.segment(0), "");
}

#[test]
fn parse_keeps_empty_segments() {
    let ns = Namespace::parse("a//b/");
    assert_eq!(ns.len(), 4);
    assert_eq!(ns.segment(0), "a");
    assert_eq!(ns.segment(1), "");
    assert_eq!(ns.segment(2), "b");
    assert_eq!(ns.segment(3), "");
}

#[test]
fn equality_is_element_wise() {
    let a = Namespace::parse("a/b");
    let b = Namespace::parse("a/b");
    let c = Namespace::parse("a/c");
    let d = Namespace::parse("a");
    assert!(a.same_as(&b));
    assert!(!a.same_as(&c));
    assert!(!a.same_as(&d));
}
