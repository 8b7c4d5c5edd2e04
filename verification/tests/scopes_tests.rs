use huzi::scopes::Scopes;

#[test]
fn lookup_finds_what_was_bound() {
    let mut s: Scopes<u32> = Scopes::new();
    assert_eq!(s.depth(), 1);
    assert_eq!(s.lookup(&"x".to_string()), None);
    s.insert("x".to_string(), 1);
    assert_eq!(s.lookup(&"x".to_string()), Some(&1));
    assert_eq!(s.lookup(&"y".to_string()), None);
}

#[test]
fn rebinding_in_one_scope_keeps_the_later_value() {
    let mut s: Scopes<u32> = Scopes::new();
    s.insert("x".to_string(), 1);
    s.insert("x".to_string(), 2);
    assert_eq!(s.lookup(&"x".to_string()), Some(&2));
}

#[test]
fn inner_scope_shadows_until_closed() {
    let mut s: Scopes<&str> = Scopes::new();
    s.insert("x".to_string(), "outer");
    s.insert("y".to_string(), "only outer");
    s.push();
    assert_eq!(s.depth(), 2);
    assert_eq!(s.lookup(&"x".to_string()), Some(&"outer"));
    s.insert("x".to_string(), "inner");
    assert_eq!(s.lookup(&"x".to_string()), Some(&"inner"));
    assert_eq!(s.lookup(&"y".to_string()), Some(&"only outer"));
    s.pop();
    assert_eq!(s.lookup(&"x".to_string()), Some(&"outer"));
}

#[test]
fn popping_everything_leaves_nothing_bound() {
    let mut s: Scopes<u8> = Scopes::new();
    s.insert("x".to_string(), 7);
    s.pop();
    assert_eq!(s.depth(), 0);
    assert_eq!(s.lookup(&"x".to_string()), None);
    s.pop();
    assert_eq!(s.depth(), 0);
}
