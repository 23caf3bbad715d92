use spanfall::store::interner::Interner;

#[test]
fn interning_the_same_string_twice_returns_the_same_id() {
    let mut i = Interner::new(10);
    let a = i.intern("service.name").unwrap();
    let b = i.intern("service.name").unwrap();
    assert_eq!(a, b);
    assert_eq!(i.len(), 1);
}

#[test]
fn get_returns_the_original_string() {
    let mut i = Interner::new(10);
    let id = i.intern("http.method").unwrap();
    assert_eq!(i.get(id), "http.method");
}

#[test]
fn cap_reached_refuses_new_strings_but_keeps_serving_existing_ones() {
    let mut i = Interner::new(2);
    let a = i.intern("a").unwrap();
    let b = i.intern("b").unwrap();

    // cap is full: a brand new string is refused, not evicted-and-replaced
    assert_eq!(i.intern("c"), None);
    assert_eq!(i.cap_hit_count(), 1);

    // already-interned strings keep resolving fine
    assert_eq!(i.intern("a"), Some(a));
    assert_eq!(i.get(b), "b");
    assert_eq!(i.len(), 2);
}

#[test]
fn repeated_refusals_keep_counting() {
    let mut i = Interner::new(1);
    i.intern("a").unwrap();
    assert!(i.intern("x").is_none());
    assert!(i.intern("y").is_none());
    assert_eq!(i.cap_hit_count(), 2);
}

#[test]
fn ids_are_dense_in_first_intern_order() {
    let mut i = Interner::new(10);
    assert_eq!(i.intern("x"), Some(0));
    assert_eq!(i.intern("y"), Some(1));
    assert_eq!(i.intern("x"), Some(0));
    assert_eq!(i.intern("z"), Some(2));
}

#[test]
fn lookup_does_not_intern() {
    let mut i = Interner::new(10);
    assert_eq!(i.lookup("k"), None);
    assert!(i.is_empty());
    let id = i.intern("k").unwrap();
    assert_eq!(i.lookup("k"), Some(id));
    assert_eq!(i.len(), 1);
}

#[test]
fn a_zero_cap_interner_refuses_everything() {
    let mut i = Interner::new(0);
    assert_eq!(i.intern("a"), None);
    assert_eq!(i.cap_hit_count(), 1);
    assert!(i.is_empty());
}

#[test]
fn an_id_keeps_resolving_after_later_interning_and_refusals() {
    let mut i = Interner::new(3);
    let id = i.intern("http.method").unwrap();
    i.intern("a").unwrap();
    i.intern("b").unwrap();
    assert_eq!(i.intern("refused"), None);
    assert_eq!(i.get(id), "http.method");
}
