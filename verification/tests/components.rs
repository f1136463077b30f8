use entity_registry::derive_gender;
use entity_registry::Error;
use entity_registry::Gender;
use entity_registry::IdAllocator;

#[test]
fn gender_of_empty_dna_is_male() {
    let dna: Vec<u8> = vec![];
    assert_eq!(derive_gender(&dna), Gender::Male);
}

#[test]
fn gender_of_odd_dna_is_female() {
    assert_eq!(derive_gender(&vec![0x2a]), Gender::Female);
    assert_eq!(derive_gender(&vec![1, 2, 3]), Gender::Female);
}

#[test]
fn gender_of_even_dna_is_male() {
    assert_eq!(derive_gender(&vec![1, 2]), Gender::Male);
    assert_eq!(derive_gender(&vec![9, 8, 7, 6]), Gender::Male);
}

#[test]
fn gender_default_is_male() {
    assert_eq!(Gender::default(), Gender::Male);
}

#[test]
fn allocator_issues_sequential_identifiers() {
    let mut ids = IdAllocator::new();
    assert_eq!(ids.allocate(), Ok(1));
    assert_eq!(ids.allocate(), Ok(2));
    assert_eq!(ids.allocate(), Ok(3));
    assert_eq!(ids.next_id, 3);
}

#[test]
fn allocator_overflows_at_maximum() {
    let mut ids = IdAllocator { next_id: u32::MAX };
    assert_eq!(ids.allocate(), Err(Error::Overflow));
    assert_eq!(ids.next_id, u32::MAX);
}
