use tileworld::bimap::IndexBiMap;
use tileworld::gen_map::{GenMap, Handle};
use tileworld::handle_map::HandleMap;

#[test]
fn empty_handle_refers_to_nothing() {
    let h = Handle::empty();
    assert_eq!(h.inner(), None);
    assert_eq!(Handle(0, 3).inner(), Some(3));
}

#[test]
fn gen_map_inserts_and_looks_up() {
    let mut m: GenMap<u32> = GenMap::new();
    let a = m.insert(10);
    let b = m.insert(20);
    assert_eq!(m.get(&a), Some(&10));
    assert_eq!(m.get(&b), Some(&20));
    assert_eq!(m.iter().len(), 2);
}

#[test]
fn gen_map_remove_keeps_the_rest() {
    let mut m: GenMap<u32> = GenMap::new();
    let a = m.insert(10);
    let b = m.insert(20);
    let c = m.insert(30);
    assert_eq!(m.remove(a), Some(10));
    assert_eq!(m.get(&a), None);
    assert_eq!(m.get(&b), Some(&20));
    assert_eq!(m.get(&c), Some(&30));
    assert_eq!(m.remove(a), None);
}

#[test]
fn stale_handle_cannot_reach_a_recycled_slot() {
    let mut m: GenMap<u32> = GenMap::new();
    let a = m.insert(10);
    assert_eq!(m.remove(a), Some(10));
    let b = m.insert(99);
    // The recycled id carries a new generation.
    assert_eq!(m.get(&a), None);
    assert_eq!(m.get(&b), Some(&99));
    assert_eq!(a.1, b.1);
    assert!(a.0 != b.0);
}

#[test]
fn gen_map_get_mut_updates_in_place() {
    let mut m: GenMap<u32> = GenMap::new();
    let a = m.insert(10);
    if let Some(v) = m.get_mut(&a) {
        *v = 77;
    }
    assert_eq!(m.get(&a), Some(&77));
}

#[test]
fn handle_map_hands_out_fresh_keys() {
    let mut m: HandleMap<&str> = HandleMap::new();
    let a = m.insert("x");
    let b = m.insert("y");
    assert!(a != b);
    assert_eq!(m.keys.len(), 2);
    assert_eq!(m.values.len(), 2);
}

#[test]
fn bimap_appends_under_unique_keys() {
    let mut m: IndexBiMap<&str> = IndexBiMap::new();
    m.insert(5, "five");
    m.insert(9, "nine");
    assert_eq!(m.keys, vec![5, 9]);
    assert_eq!(m.values, vec!["five", "nine"]);
}
