use nbt_view::docs::{Document, DocumentSet, OpenError};
use nbt_view::model::{Entry, TagValue};

fn doc(title: &str) -> Document {
    Document::new(
        title.to_owned(),
        vec![Entry { name: "k".to_owned(), value: TagValue::Int(1) }],
    )
}

#[test]
fn open_places_tab_and_activates() {
    let mut set = DocumentSet::new();
    assert!(set.open(doc("level.dat")).is_ok());
    assert_eq!(set.list_titles(), vec!["level.dat".to_owned()]);
    assert_eq!(set.active_title().cloned(), Some("level.dat".to_owned()));
}

#[test]
fn titles_come_out_in_lexicographic_order() {
    let mut set = DocumentSet::new();
    assert!(set.open(doc("zebra.dat")).is_ok());
    assert!(set.open(doc("alpha.dat")).is_ok());
    assert!(set.open(doc("middle.dat")).is_ok());
    assert_eq!(
        set.list_titles(),
        vec!["alpha.dat".to_owned(), "middle.dat".to_owned(), "zebra.dat".to_owned()]
    );
}

#[test]
fn colliding_title_is_refused_and_nothing_changes() {
    let mut set = DocumentSet::new();
    assert!(set.open(doc("level.dat")).is_ok());
    let titles_before = set.list_titles();
    let r = set.open(Document::new(
        "level.dat".to_owned(),
        vec![Entry { name: "other".to_owned(), value: TagValue::Byte(9) }],
    ));
    assert_eq!(r, Err(OpenError::TitleTaken));
    assert_eq!(set.list_titles(), titles_before);
    let i = set.find_doc(&"level.dat".to_owned()).unwrap();
    assert_eq!(set.docs[i].root[0].name, "k");
}

#[test]
fn collision_is_deterministic_across_runs() {
    // the same sequence of opens always ends in the same state
    for _ in 0..3 {
        let mut set = DocumentSet::new();
        assert!(set.open(doc("a.dat")).is_ok());
        assert_eq!(set.open(doc("a.dat")), Err(OpenError::TitleTaken));
        assert_eq!(set.list_titles(), vec!["a.dat".to_owned()]);
    }
}

#[test]
fn open_replace_swaps_the_document_in_place() {
    let mut set = DocumentSet::new();
    assert!(set.open(doc("level.dat")).is_ok());
    assert!(set.open(doc("other.dat")).is_ok());
    set.open_replace(Document::new(
        "level.dat".to_owned(),
        vec![Entry { name: "fresh".to_owned(), value: TagValue::Long(5) }],
    ));
    assert_eq!(set.list_titles(), vec!["level.dat".to_owned(), "other.dat".to_owned()]);
    let i = set.find_doc(&"level.dat".to_owned()).unwrap();
    assert_eq!(set.docs[i].root[0].name, "fresh");
}

#[test]
fn activate_marks_an_existing_tab() {
    let mut set = DocumentSet::new();
    assert!(set.open(doc("a.dat")).is_ok());
    assert!(set.open(doc("b.dat")).is_ok());
    set.activate(&"a.dat".to_owned());
    assert_eq!(set.active_title().cloned(), Some("a.dat".to_owned()));
}

#[test]
fn activate_of_unknown_title_is_ignored() {
    let mut set = DocumentSet::new();
    assert!(set.open(doc("a.dat")).is_ok());
    set.activate(&"missing.dat".to_owned());
    assert_eq!(set.active_title().cloned(), Some("a.dat".to_owned()));
    assert_eq!(set.tabs.len(), 1);
}

#[test]
fn close_removes_document_tab_and_active_reference() {
    let mut set = DocumentSet::new();
    assert!(set.open(doc("a.dat")).is_ok());
    assert!(set.open(doc("b.dat")).is_ok());
    set.activate(&"b.dat".to_owned());
    set.close(&"b.dat".to_owned());
    assert_eq!(set.list_titles(), vec!["a.dat".to_owned()]);
    assert_eq!(set.tabs.len(), 1);
    assert!(set.active_title().is_none());
}

#[test]
fn close_keeps_earlier_active_tab_in_place() {
    let mut set = DocumentSet::new();
    assert!(set.open(doc("a.dat")).is_ok());
    assert!(set.open(doc("b.dat")).is_ok());
    set.activate(&"a.dat".to_owned());
    set.close(&"b.dat".to_owned());
    assert_eq!(set.active_title().cloned(), Some("a.dat".to_owned()));
}

#[test]
fn close_of_unknown_title_is_ignored() {
    let mut set = DocumentSet::new();
    assert!(set.open(doc("a.dat")).is_ok());
    set.close(&"missing.dat".to_owned());
    assert_eq!(set.list_titles(), vec!["a.dat".to_owned()]);
}

#[test]
fn empty_title_sorts_first() {
    let mut set = DocumentSet::new();
    assert!(set.open(doc("a.dat")).is_ok());
    assert!(set.open(doc("")).is_ok());
    assert_eq!(set.list_titles(), vec!["".to_owned(), "a.dat".to_owned()]);
}

#[test]
fn activate_places_a_tab_for_an_unplaced_document() {
    // a document without a tab slot gets one the moment it is activated
    let mut set = DocumentSet {
        docs: vec![doc("a.dat")],
        tabs: vec![],
        active: None,
    };
    set.activate(&"a.dat".to_owned());
    assert_eq!(set.tabs.len(), 1);
    assert_eq!(set.active_title().cloned(), Some("a.dat".to_owned()));
}
