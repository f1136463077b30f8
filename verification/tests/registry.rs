use entity_registry::Entity;
use entity_registry::Error;
use entity_registry::Event;
use entity_registry::Gender;
use entity_registry::Registry;

const ALICE: u64 = 1;
const BOB: u64 = 2;
const CAROL: u64 = 3;

#[test]
fn create_assigns_sequential_ids() {
    let mut reg = Registry::new();
    assert_eq!(reg.create_entity(ALICE, vec![1], 10), Ok(1));
    assert_eq!(reg.create_entity(BOB, vec![2, 3], 20), Ok(2));
    assert_eq!(reg.create_entity(ALICE, vec![], 30), Ok(3));
    assert_eq!(reg.minted(), 3);
}

#[test]
fn create_records_entity_in_both_views() {
    let mut reg = Registry::new();
    assert_eq!(reg.create_entity(ALICE, vec![4, 5, 6], 77), Ok(1));
    let expected = Entity {
        id: 1,
        dna: vec![4, 5, 6],
        price: 77,
        gender: Gender::Female,
        owner: ALICE,
    };
    assert_eq!(reg.get_entity(1), Some(&expected));
    assert_eq!(reg.entities_of(ALICE), vec![expected]);
}

#[test]
fn unknown_owner_bucket_is_empty() {
    let mut reg = Registry::new();
    assert_eq!(reg.create_entity(ALICE, vec![1], 10), Ok(1));
    assert!(reg.entities_of(CAROL).is_empty());
}

#[test]
fn transfer_unknown_id_fails_and_mutates_nothing() {
    let mut reg = Registry::new();
    assert_eq!(reg.create_entity(ALICE, vec![1, 2], 10), Ok(1));
    let before = reg.clone();
    assert_eq!(reg.transfer_entity(BOB, 7, BOB), Err(Error::NotFound(7)));
    assert_eq!(reg, before);
}

#[test]
fn transfer_moves_entity_between_buckets() {
    let mut reg = Registry::new();
    assert_eq!(reg.create_entity(ALICE, vec![1, 2], 10), Ok(1));
    assert_eq!(reg.create_entity(ALICE, vec![3], 20), Ok(2));
    assert_eq!(reg.transfer_entity(ALICE, 1, BOB), Ok(()));

    assert_eq!(reg.get_entity(1).unwrap().owner, BOB);
    let alices = reg.entities_of(ALICE);
    assert_eq!(alices.len(), 1);
    assert_eq!(alices[0].id, 2);
    let bobs = reg.entities_of(BOB);
    assert_eq!(bobs.len(), 1);
    assert_eq!(
        bobs[0],
        Entity { id: 1, dna: vec![1, 2], price: 10, gender: Gender::Male, owner: BOB },
    );
    assert_eq!(alices.len() + bobs.len(), 2);
}

#[test]
fn self_transfer_keeps_a_single_copy() {
    let mut reg = Registry::new();
    assert_eq!(reg.create_entity(ALICE, vec![8], 5), Ok(1));
    assert_eq!(reg.transfer_entity(ALICE, 1, ALICE), Ok(()));
    let alices = reg.entities_of(ALICE);
    assert_eq!(alices.len(), 1);
    assert_eq!(
        alices[0],
        Entity { id: 1, dna: vec![8], price: 5, gender: Gender::Female, owner: ALICE },
    );
    assert_eq!(
        reg.get_entity(1),
        Some(&Entity { id: 1, dna: vec![8], price: 5, gender: Gender::Female, owner: ALICE }),
    );
}

#[test]
fn operations_emit_notifications_in_order() {
    let mut reg = Registry::new();
    assert_eq!(reg.create_entity(ALICE, vec![1, 2], 10), Ok(1));
    assert_eq!(reg.transfer_entity(ALICE, 1, BOB), Ok(()));
    let events = reg.events();
    assert_eq!(events.len(), 2);
    assert_eq!(events[0], Event::Created { dna: vec![1, 2], caller: ALICE });
    assert_eq!(events[1], Event::Transferred { caller: ALICE, id: 1, new_owner: BOB });
}

#[test]
fn failed_operations_emit_nothing() {
    let mut reg = Registry::new();
    assert_eq!(reg.transfer_entity(ALICE, 1, BOB), Err(Error::NotFound(1)));
    assert!(reg.events().is_empty());
}

#[test]
fn end_to_end_scenario() {
    let mut reg = Registry::new();

    assert_eq!(reg.create_entity(ALICE, vec![0x01, 0x02], 100), Ok(1));
    let minted = Entity {
        id: 1,
        dna: vec![0x01, 0x02],
        price: 100,
        gender: Gender::Male,
        owner: ALICE,
    };
    assert_eq!(reg.entities_of(ALICE), vec![minted]);

    assert_eq!(reg.transfer_entity(ALICE, 1, BOB), Ok(()));
    assert_eq!(reg.get_entity(1).unwrap().owner, BOB);
    assert!(reg.entities_of(ALICE).is_empty());
    let handed = Entity {
        id: 1,
        dna: vec![0x01, 0x02],
        price: 100,
        gender: Gender::Male,
        owner: BOB,
    };
    assert_eq!(reg.entities_of(BOB), vec![handed]);

    let before = reg.clone();
    assert_eq!(reg.transfer_entity(ALICE, 99, BOB), Err(Error::NotFound(99)));
    assert_eq!(reg, before);
}
