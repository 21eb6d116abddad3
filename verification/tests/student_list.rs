use student_list::student::{name_eq, ErrorKind, Name, SearchOption, StudentList, MAX_NAME_LEN};

fn name(s: &str) -> Name {
    Name::try_from_str(s).unwrap()
}

#[test]
fn new_is_empty_and_rejects_every_add() {
    let mut l = StudentList::new();
    assert!(l.is_empty());
    assert_eq!(l.len(), 0);
    assert_eq!(l.capacity(), 0);
    assert!(matches!(
        l.add(name("Ana"), 20, 9.5f32.to_bits()),
        Err(ErrorKind::CapacityExceeded)
    ));
    assert_eq!(l.len(), 0);
}

#[test]
fn capacity_one_example() {
    let mut l = StudentList::with_capacity(1);
    assert!(l.add(name("Ana"), 20, 9.5f32.to_bits()).is_ok());
    assert!(matches!(
        l.add(name("Bea"), 21, 8.0f32.to_bits()),
        Err(ErrorKind::CapacityExceeded)
    ));
    assert_eq!(l.remove_by_name(name("Ana")), Ok(()));
    assert_eq!(l.len(), 0);
}

#[test]
fn size_never_exceeds_capacity() {
    let mut l = StudentList::with_capacity(2);
    let names = ["a", "b", "c", "d", "e"];
    for (i, n) in names.iter().enumerate() {
        let r = l.add(name(n), i as u8, (i as f32).to_bits()).is_ok();
        assert_eq!(r, i < 2);
        assert!(l.len() <= l.capacity());
    }
    assert_eq!(l.len(), 2);
}

#[test]
fn duplicate_name_leaves_size_unchanged() {
    let mut l = StudentList::with_capacity(3);
    assert!(l.add(name("Ana"), 20, 9.5f32.to_bits()).is_ok());
    assert!(matches!(
        l.add(name("Ana"), 33, 4.0f32.to_bits()),
        Err(ErrorKind::DuplicateName)
    ));
    assert_eq!(l.len(), 1);
    let s = l.get_by_name(name("Ana")).unwrap();
    assert_eq!(s.age, 20);
    assert_eq!(s.grade, 9.5f32.to_bits());
}

#[test]
fn added_record_found_by_each_field() {
    let mut l = StudentList::with_capacity(4);
    assert!(l.add(name("Ana"), 20, 9.5f32.to_bits()).is_ok());
    let before = l.len();
    assert!(l.add(name("Carla"), 22, 7.5f32.to_bits()).is_ok());
    assert_eq!(l.len(), before + 1);

    let by_name = l.get_by_name(name("Carla")).unwrap();
    assert_eq!(by_name.name.as_bytes().as_slice(), &b"Carla"[..]);
    assert_eq!(by_name.age, 22);
    assert_eq!(by_name.grade, 7.5f32.to_bits());

    let by_age = l.get_by_age(22).unwrap();
    assert_eq!(by_age.name.as_bytes().as_slice(), &b"Carla"[..]);

    let by_grade = l.get_by_grade(7.5f32.to_bits()).unwrap();
    assert_eq!(by_grade.name.as_bytes().as_slice(), &b"Carla"[..]);
}

#[test]
fn lookups_on_absent_values_return_none() {
    let mut l = StudentList::with_capacity(2);
    assert!(l.add(name("Ana"), 20, 9.5f32.to_bits()).is_ok());
    assert!(l.get_by_name(name("Bea")).is_none());
    assert!(l.get_by_age(21).is_none());
    assert!(l.get_by_grade(8.0f32.to_bits()).is_none());
}

#[test]
fn get_by_age_returns_first_match_in_insertion_order() {
    let mut l = StudentList::with_capacity(3);
    assert!(l.add(name("Ana"), 20, 9.5f32.to_bits()).is_ok());
    assert!(l.add(name("Bea"), 20, 8.0f32.to_bits()).is_ok());
    let s = l.get_by_age(20).unwrap();
    assert_eq!(s.name.as_bytes().as_slice(), &b"Ana"[..]);
}

#[test]
fn remove_by_name_then_lookup_returns_none() {
    let mut l = StudentList::with_capacity(3);
    assert!(l.add(name("Ana"), 20, 9.5f32.to_bits()).is_ok());
    assert!(l.add(name("Bea"), 21, 8.0f32.to_bits()).is_ok());
    assert_eq!(l.remove_by_name(name("Ana")), Ok(()));
    assert_eq!(l.len(), 1);
    assert!(l.get_by_name(name("Ana")).is_none());
    assert!(l.get_by_name(name("Bea")).is_some());
}

#[test]
fn remove_absent_returns_not_found_and_size_unchanged() {
    let mut l = StudentList::with_capacity(3);
    assert!(l.add(name("Ana"), 20, 9.5f32.to_bits()).is_ok());
    assert_eq!(l.remove_by_name(name("Zoe")), Err(ErrorKind::NotFound));
    assert_eq!(l.remove_by_age(99), Err(ErrorKind::NotFound));
    assert_eq!(l.remove_by_grade(1.0f32.to_bits()), Err(ErrorKind::NotFound));
    assert_eq!(l.len(), 1);
}

#[test]
fn remove_by_age_removes_first_match() {
    let mut l = StudentList::with_capacity(3);
    assert!(l.add(name("Ana"), 20, 9.5f32.to_bits()).is_ok());
    assert!(l.add(name("Bea"), 20, 8.0f32.to_bits()).is_ok());
    assert_eq!(l.remove_by_age(20), Ok(()));
    assert_eq!(l.len(), 1);
    assert!(l.get_by_name(name("Ana")).is_none());
    assert!(l.get_by_name(name("Bea")).is_some());
}

#[test]
fn remove_by_grade_removes_matching_record() {
    let mut l = StudentList::with_capacity(3);
    assert!(l.add(name("Ana"), 20, 9.5f32.to_bits()).is_ok());
    assert!(l.add(name("Bea"), 21, 8.0f32.to_bits()).is_ok());
    assert_eq!(l.remove_by_grade(8.0f32.to_bits()), Ok(()));
    assert_eq!(l.len(), 1);
    assert!(l.get_by_name(name("Bea")).is_none());
}

#[test]
fn removal_uses_swap_with_last_semantics() {
    let mut l = StudentList::with_capacity(3);
    assert!(l.add(name("Ana"), 40, 1.0f32.to_bits()).is_ok());
    assert!(l.add(name("Bea"), 40, 2.0f32.to_bits()).is_ok());
    assert!(l.add(name("Cid"), 40, 3.0f32.to_bits()).is_ok());
    assert_eq!(l.remove_by_name(name("Ana")), Ok(()));
    // The last record moves into the freed slot, so "Cid" now comes first.
    let s = l.get_by_age(40).unwrap();
    assert_eq!(s.name.as_bytes().as_slice(), &b"Cid"[..]);
    assert_eq!(l.get(0).name.as_bytes().as_slice(), &b"Cid"[..]);
    assert_eq!(l.get(1).name.as_bytes().as_slice(), &b"Bea"[..]);
}

#[test]
fn clear_resets_len_and_keeps_capacity() {
    let mut l = StudentList::with_capacity(5);
    assert!(l.add(name("Ana"), 20, 9.5f32.to_bits()).is_ok());
    assert!(l.add(name("Bea"), 21, 8.0f32.to_bits()).is_ok());
    l.clear();
    assert_eq!(l.len(), 0);
    assert!(l.is_empty());
    assert_eq!(l.capacity(), 5);
    // The capacity is free again after a clear.
    assert!(l.add(name("Ana"), 20, 9.5f32.to_bits()).is_ok());
}

#[test]
fn add_returns_reference_to_stored_record() {
    let mut l = StudentList::with_capacity(1);
    let s = l.add(name("Ana"), 20, 9.5f32.to_bits()).ok().unwrap();
    assert_eq!(s.name.as_bytes().as_slice(), &b"Ana"[..]);
    assert_eq!(s.age, 20);
    assert_eq!(f32::from_bits(s.grade), 9.5f32);
}

#[test]
fn name_rejects_more_than_thirty_bytes() {
    assert!(Name::try_from_bytes(vec![b'x'; MAX_NAME_LEN]).is_some());
    assert!(Name::try_from_bytes(vec![b'x'; MAX_NAME_LEN + 1]).is_none());
    assert!(Name::try_from_str("exactly-thirty-bytes-long-name").is_some());
    assert!(Name::try_from_str("thirty-one-bytes-is-one-too-so!").is_none());
}

#[test]
fn name_eq_compares_contents() {
    assert!(name_eq(&name("Ana"), &name("Ana")));
    assert!(!name_eq(&name("Ana"), &name("Bea")));
    assert!(!name_eq(&name("Ana"), &name("Anan")));
}

#[test]
fn search_option_reads_first_character() {
    assert_eq!(SearchOption::from_str("1"), Ok(SearchOption::Name));
    assert_eq!(SearchOption::from_str("2 by age"), Ok(SearchOption::Age));
    assert_eq!(SearchOption::from_str("3"), Ok(SearchOption::Grade));
    assert_eq!(SearchOption::from_str("4"), Err(()));
    assert_eq!(SearchOption::from_str("x1"), Err(()));
}
