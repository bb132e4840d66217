use loader::tasks::python::context_map::{ContextLookup, ContextStore as MapStore};
use loader::tasks::python::context_store::{ContextMap, ContextSet, ContextStore, IDENT_ID};
use loader::tasks::python::ident_store::{ContextStore as IdentStore, IdentLookup};
use loader::tasks::python::key_table::{first_words_of, KeyTable};

#[test]
fn key_table_numbers_in_order_and_keeps_capacity() {
    let mut t = KeyTable::new(2);
    assert_eq!(t.insert("a"), Some(0));
    assert_eq!(t.insert("b"), Some(1));
    assert_eq!(t.insert("a"), Some(0));
    assert_eq!(t.insert("c"), None);
    assert_eq!(t.len(), 2);
    assert_eq!(t.find("b"), Some(1));
    assert_eq!(t.find("c"), None);
}

#[test]
fn first_words_take_each_line_up_to_a_space() {
    let w = first_words_of("self 120\nprint x\n\nlen");
    assert_eq!(w, vec!["self".to_string(), "print".to_string(), "".to_string(), "len".to_string()]);
}

#[test]
fn ident_lookup_put_then_get_and_full() {
    let mut l = IdentLookup::new(2);
    assert_eq!(l.put_data("x"), 0);
    assert_eq!(l.put_data("y"), 1);
    assert_eq!(l.put_data("z"), 0);
    assert_eq!(l.get_data("y"), Some(1));
    assert_eq!(l.get_data("z"), None);
    let mut g = IdentLookup::from_text("a 1\nb 2\na 3");
    assert_eq!(g.get_data("a"), Some(2));
    assert_eq!(g.get_data("b"), Some(1));
}

#[test]
fn ident_store_levels_shadow_the_global_table() {
    let mut global = IdentLookup::new(16);
    let mut store = IdentStore::new(&mut global);
    assert_eq!(store.len(), 2);
    assert_eq!(store.get_or_global("g"), (0, 0));
    store.push_context();
    assert_eq!(store.put_local("x"), (0, 0));
    store.push_context();
    assert_eq!(store.put_local("y"), (1, 0));
    assert_eq!(store.get_data("x"), Some((0, 0)));
    assert_eq!(store.get_data("g"), Some((0, 0)));
    assert_eq!(store.len(), 4);
    store.pop_context();
    assert_eq!(store.get_data("y"), None);
    store.pop_context();
    store.pop_context();
    assert_eq!(store.len(), 2);
    assert_eq!(store.put_local("h"), (0, 1));
    drop(store);
    assert_eq!(global.get_data("h"), Some(1));
}

#[test]
fn context_lookup_answers_none_when_full() {
    let mut l = ContextLookup::new(1);
    assert_eq!(l.put_data("a"), Some(0));
    assert_eq!(l.put_data("b"), None);
    assert_eq!(l.get_data("a"), Some(0));
    let mut f = ContextLookup::from_text("q 9\nr");
    assert_eq!(f.get_data("r"), Some(1));
    assert_eq!(f.put_data("s"), None);
}

#[test]
fn map_store_answers_by_level() {
    let mut global = ContextLookup::from_text("print\nlen");
    let mut local = ContextLookup::new(8);
    let mut store = MapStore::new(&mut global, &mut local);
    assert_eq!(store.get_or_global("len"), (0, 1));
    assert_eq!(store.get_or_put_local("v"), (1, 0));
    store.push_context();
    assert_eq!(store.put_local("w"), (2, 0));
    assert_eq!(store.get_or_global("w"), (2, 0));
    store.pop_context();
    assert_eq!(store.get_or_global("v"), (1, 0));
}

#[test]
fn context_set_and_map() {
    let mut s = ContextSet::new(299);
    s.insert("os".to_string());
    assert_eq!(s.get_data(&"os".to_string()), Some(299));
    assert_eq!(s.get_data(&"sys".to_string()), None);
    let mut m = ContextMap::new(2);
    assert_eq!(m.put_data("a"), Some(0));
    assert_eq!(m.get_data("a"), Some(0));
}

#[test]
fn context_store_numbers_levels_from_its_offset() {
    let mut imports = ContextSet::new(299);
    imports.insert("np".to_string());
    let mut store = ContextStore::new(imports, 300, 300);
    assert_eq!(store.len(), 3);
    assert_eq!(store.put_local("a", 0), 300);
    assert_eq!(store.put_local("b", 0), 301);
    assert_eq!(store.read_only("a"), 300);
    assert_eq!(store.read_only("np"), 299);
    assert_eq!(store.read_only("zzz"), IDENT_ID);
    store.push_context();
    assert_eq!(store.put_local("c", 0), 600);
    assert_eq!(store.get_or_put_local("a", 0), 300);
    assert_eq!(store.put_data("d", true, 1), 302);
    assert_eq!(store.put_data("e", false, 0), IDENT_ID);
    store.pop_context();
    assert_eq!(store.read_only("c"), IDENT_ID);
}
