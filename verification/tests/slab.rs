use qk::slab::IdSlab;

#[test]
fn fresh_identifiers_count_up() {
    let mut slab: IdSlab<&str> = IdSlab::default();
    assert_eq!(slab.id("a"), 0);
    assert_eq!(slab.id("b"), 1);
    assert_eq!(slab.id("c"), 2);
    assert_eq!(slab.get_mut(1), Some(&mut "b"));
}

#[test]
fn recycled_identifier_is_handed_out_next() {
    let mut slab: IdSlab<u32> = IdSlab::default();
    let a = slab.id(10);
    let b = slab.id(20);
    let c = slab.id(30);
    slab.recycle(a);
    slab.recycle(c);
    assert_eq!(slab.get_mut(a), None);
    assert_eq!(slab.get_mut(c), None);
    assert_eq!(slab.get_mut(b), Some(&mut 20));
    assert_eq!(slab.id(40), c);
    assert_eq!(slab.id(50), a);
    assert_eq!(slab.id(60), 3);
    assert_eq!(slab.get_mut(c), Some(&mut 40));
    assert_eq!(slab.get_mut(a), Some(&mut 50));
}

#[test]
fn get_mut_writes_through() {
    let mut slab: IdSlab<String> = IdSlab::default();
    let id = slab.id("x".to_string());
    if let Some(value) = slab.get_mut(id) {
        value.push('y');
    }
    assert_eq!(slab.get_mut(id).map(|v| v.clone()), Some("xy".to_string()));
}
