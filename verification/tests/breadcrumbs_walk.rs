use filedl::breadcrumbs::BreadcrumbsIterator;

#[test]
fn empty_string() {
    assert!(BreadcrumbsIterator::new("").count() == 0);
}

#[test]
fn walks_components_like_split() {
    let mut it = BreadcrumbsIterator::new("a/b/c");

    let first = it.next().unwrap();
    assert_eq!(first.name, "a");
    assert_eq!(first.link_url, "a");

    let second = it.next().unwrap();
    assert_eq!(second.name, "b");
    assert_eq!(second.link_url, "a/b");

    let third = it.next().unwrap();
    assert_eq!(third.name, "c");
    assert_eq!(third.link_url, "a/b/c");

    assert!(it.next().is_none());
}

#[test]
fn keeps_empty_components() {
    let mut it = BreadcrumbsIterator::new("x//");

    let first = it.next().unwrap();
    assert_eq!(first.name, "x");
    assert_eq!(first.link_url, "x");

    let second = it.next().unwrap();
    assert_eq!(second.name, "");
    assert_eq!(second.link_url, "x/");

    let third = it.next().unwrap();
    assert_eq!(third.name, "");
    assert_eq!(third.link_url, "x//");

    assert!(it.next().is_none());
}

#[test]
fn count_matches_component_count() {
    assert_eq!(BreadcrumbsIterator::new("a/b/c").count(), 3);
    assert_eq!(BreadcrumbsIterator::new("/").count(), 2);
    assert_eq!(BreadcrumbsIterator::new("single").count(), 1);
}

#[test]
fn count_after_some_steps() {
    let mut it = BreadcrumbsIterator::new("a/b/c");
    it.next().unwrap();
    assert_eq!(it.count(), 2);
}
