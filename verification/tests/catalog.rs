use thermal::catalog::{
    overlap, slot_matches_byte, trigger_matches, Catalog, CatalogError, CANCEL_CJK_MODE,
    ENTER_CJK_MODE,
};
use thermal::command::{exact, CommandDef, CommandType, DataType, NoHandler, TriggerByte};

fn def(name: &str, trigger: Vec<TriggerByte>, data_type: DataType) -> CommandDef {
    CommandDef {
        name: name.to_string(),
        trigger,
        kind: CommandType::Unknown,
        data_type,
        handler: Box::new(NoHandler),
    }
}

#[test]
fn new_catalog_holds_the_text_command() {
    let catalog = Catalog::new();
    assert_eq!(catalog.len(), 1);
    assert_eq!(catalog.get(0).name, "Text");
    assert!(catalog.get(0).trigger.is_empty());
    assert_eq!(catalog.get(0).data_type, DataType::Text);
}

#[test]
fn standard_catalog_holds_the_cjk_commands() {
    let catalog = Catalog::standard();
    assert_eq!(catalog.len(), 3);
    assert_eq!(catalog.get(0).name, "Text");
    assert_eq!(catalog.get(ENTER_CJK_MODE).name, "Enter CJK Mode");
    assert_eq!(catalog.get(CANCEL_CJK_MODE).name, "Cancel CJK Mode");
    assert_eq!(catalog.get(ENTER_CJK_MODE).trigger, exact(&[0x1C, b'&']));
    assert_eq!(catalog.get(CANCEL_CJK_MODE).trigger, exact(&[0x1C, b'.']));
}

#[test]
fn register_gives_the_index_of_the_new_entry() {
    let mut catalog = Catalog::new();
    assert_eq!(catalog.register(def("A", exact(&[0x1B, 0x40]), DataType::Empty)), Ok(1));
    assert_eq!(catalog.register(def("B", exact(&[0x1B, 0x61]), DataType::Fixed(1))), Ok(2));
    assert_eq!(catalog.len(), 3);
    assert_eq!(catalog.get(2).name, "B");
}

#[test]
fn register_refuses_an_empty_trigger() {
    let mut catalog = Catalog::new();
    assert_eq!(
        catalog.register(def("A", vec![], DataType::Empty)),
        Err(CatalogError::EmptyTrigger)
    );
    assert_eq!(catalog.len(), 1);
}

#[test]
fn register_refuses_a_duplicate_trigger() {
    let mut catalog = Catalog::standard();
    assert_eq!(
        catalog.register(def("Again", exact(&[0x1C, b'.']), DataType::Fixed(3))),
        Err(CatalogError::DuplicateTrigger { existing: 2 })
    );
    assert_eq!(catalog.len(), 3);
    assert_eq!(catalog.get(2).name, "Cancel CJK Mode");
}

#[test]
fn register_refuses_a_trigger_that_a_wildcard_covers() {
    let mut catalog = Catalog::new();
    let any = vec![TriggerByte::Exact(0x1D), TriggerByte::Any];
    assert_eq!(catalog.register(def("Any", any, DataType::Empty)), Ok(1));
    assert_eq!(
        catalog.register(def("One", exact(&[0x1D, 0x21]), DataType::Empty)),
        Err(CatalogError::DuplicateTrigger { existing: 1 })
    );
    let other = vec![TriggerByte::Any, TriggerByte::Exact(0x21)];
    assert_eq!(
        catalog.register(def("Other", other, DataType::Empty)),
        Err(CatalogError::DuplicateTrigger { existing: 1 })
    );
}

#[test]
fn register_takes_triggers_of_different_length_with_a_common_start() {
    let mut catalog = Catalog::new();
    assert_eq!(catalog.register(def("Short", exact(&[0x1B]), DataType::Empty)), Ok(1));
    assert_eq!(catalog.register(def("Long", exact(&[0x1B, 0x40]), DataType::Empty)), Ok(2));
    assert_eq!(catalog.register(def("Longer", exact(&[0x1B, 0x40, 0x01]), DataType::Empty)), Ok(3));
}

#[test]
fn the_longest_trigger_wins() {
    let mut catalog = Catalog::new();
    catalog.register(def("Short", exact(&[0x1B]), DataType::Empty)).unwrap();
    catalog.register(def("Longer", exact(&[0x1B, 0x40, 0x01]), DataType::Empty)).unwrap();
    catalog.register(def("Long", exact(&[0x1B, 0x40]), DataType::Empty)).unwrap();
    assert_eq!(catalog.match_at(&[0x1B, 0x40, 0x01, 0x02], 0), Some((2, 3)));
    assert_eq!(catalog.match_at(&[0x1B, 0x40, 0x02], 0), Some((3, 2)));
    assert_eq!(catalog.match_at(&[0x1B, 0x41], 0), Some((1, 1)));
    assert_eq!(catalog.match_at(&[0x1B, 0x40], 0), Some((3, 2)));
    assert_eq!(catalog.match_at(&[0x00, 0x1B, 0x40, 0x01], 1), Some((2, 3)));
}

#[test]
fn nothing_matches_where_no_trigger_starts() {
    let catalog = Catalog::standard();
    assert_eq!(catalog.match_at(b"Hello", 0), None);
    assert_eq!(catalog.match_at(&[0x1C], 0), None);
    assert_eq!(catalog.match_at(&[0x1C, b'&'], 1), None);
    assert_eq!(catalog.match_at(&[0x1C, b'&'], 2), None);
    assert_eq!(catalog.match_at(&[0x1C, b'&'], 7), None);
    assert_eq!(catalog.match_at(&[], 0), None);
}

#[test]
fn the_cjk_triggers_match_in_the_standard_catalog() {
    let catalog = Catalog::standard();
    assert_eq!(catalog.match_at(&[0x1C, b'&'], 0), Some((1, 2)));
    assert_eq!(catalog.match_at(&[0x1C, b'.'], 0), Some((2, 2)));
    assert_eq!(catalog.match_at(&[b'a', 0x1C, b'.', b'b'], 1), Some((2, 2)));
}

#[test]
fn a_wildcard_matches_any_byte() {
    assert!(slot_matches_byte(TriggerByte::Any, 0));
    assert!(slot_matches_byte(TriggerByte::Any, 255));
    assert!(slot_matches_byte(TriggerByte::Exact(7), 7));
    assert!(!slot_matches_byte(TriggerByte::Exact(7), 8));
    let trigger = vec![TriggerByte::Exact(0x1D), TriggerByte::Any, TriggerByte::Exact(0x30)];
    assert!(trigger_matches(&trigger, &[0x1D, 0x99, 0x30], 0));
    assert!(trigger_matches(&trigger, &[0x00, 0x1D, 0x00, 0x30], 1));
    assert!(!trigger_matches(&trigger, &[0x1D, 0x99, 0x31], 0));
    assert!(!trigger_matches(&trigger, &[0x1D, 0x99], 0));
    assert!(!trigger_matches(&trigger, &[0x1D, 0x99, 0x30], 1));
    assert!(!trigger_matches(&trigger, &[0x1D, 0x99, 0x30], 9));
    assert!(trigger_matches(&vec![], &[], 0));
}

#[test]
fn triggers_overlap_where_they_meet_at_every_position() {
    let a = exact(&[1, 2]);
    let b = exact(&[1, 3]);
    let c = vec![TriggerByte::Exact(1), TriggerByte::Any];
    let d = exact(&[1, 2, 3]);
    assert!(overlap(&a, &a));
    assert!(!overlap(&a, &b));
    assert!(overlap(&a, &c));
    assert!(overlap(&c, &b));
    assert!(!overlap(&a, &d));
    assert!(overlap(&vec![], &vec![]));
}
