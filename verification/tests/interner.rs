use std::collections::hash_map::DefaultHasher;
use std::hash::{BuildHasher, BuildHasherDefault};

use lox::interner::{Interner, StringTable};

#[test]
pub fn test1() {
    let mut interner = Interner::new(BuildHasherDefault::<DefaultHasher>::default());

    assert_eq!(interner.intern_str("hello"), interner.intern_string("hello".to_owned()));
    assert_eq!(interner.intern_str("hello"), interner.intern_str("hello"));
    assert_eq!(
        interner.intern_string("hello".to_owned()),
        interner.intern_string("hello".to_owned())
    );
}

#[test]
pub fn test2() {
    let mut interner = Interner::new(BuildHasherDefault::<DefaultHasher>::default());
    let key = interner.intern_string("hello".to_owned());
    assert_eq!(interner.get_str(key), "hello");
}

#[test]
fn distinct_texts_get_distinct_ids_in_order() {
    let mut interner = Interner::new(BuildHasherDefault::<DefaultHasher>::default());
    let a = interner.intern_str("a");
    let b = interner.intern_str("b");
    let a2 = interner.intern_string("a".to_string());
    assert_eq!(a.idx, 0);
    assert_eq!(b.idx, 1);
    assert_eq!(a, a2);
    assert_eq!(interner.count(), 2);
    assert_eq!(interner.get_str(b), "b");
}

#[test]
fn the_string_table_hashes_like_the_standard_hasher() {
    let table = StringTable::new(BuildHasherDefault::<DefaultHasher>::default());
    let expected = BuildHasherDefault::<DefaultHasher>::default().hash_one("hello");
    assert_eq!(table.hash_string("hello"), expected);
    assert_ne!(table.hash_string("hello"), table.hash_string("world"));
}
