use sled_tables::counter::{advance_counter, read_counter};
use sled_tables::path::{
    build_counter_path, build_item_path, build_item_prefix, key_of_item_path, parse_decimal,
    push_decimal,
};
use sled_tables::table::{decode_found, key_taken};
use sled_tables::{open, opened, Base, KeyOwned, Table, TableError, TableKey, TableLayout};

#[derive(Debug, Clone, PartialEq)]
struct Student {
    name: String,
    value: usize,
}

impl TableLayout for Student {
    fn table_name() -> &'static str {
        "student"
    }

    fn encode(&self) -> Vec<u8> {
        bincode::serialize(&(self.name.as_str(), self.value as u64)).unwrap()
    }

    fn decode(bytes: &[u8]) -> Option<Self> {
        let (name, value) = bincode::deserialize::<(String, u64)>(bytes).ok()?;
        Some(Student { name, value: value as usize })
    }
}

/// A second record type that claims the name of the first.
#[derive(Debug, Clone, PartialEq)]
struct Pupil(String, u64);

impl TableLayout for Pupil {
    fn table_name() -> &'static str {
        "student"
    }

    fn encode(&self) -> Vec<u8> {
        bincode::serialize(&(self.0.as_str(), self.1)).unwrap()
    }

    fn decode(bytes: &[u8]) -> Option<Self> {
        let (name, value) = bincode::deserialize::<(String, u64)>(bytes).ok()?;
        Some(Pupil(name, value))
    }
}

#[derive(Debug, Clone, PartialEq)]
struct Course(u64);

impl TableLayout for Course {
    fn table_name() -> &'static str {
        "course"
    }

    fn encode(&self) -> Vec<u8> {
        self.0.to_be_bytes().to_vec()
    }

    fn decode(bytes: &[u8]) -> Option<Self> {
        let raw: [u8; 8] = bytes.try_into().ok()?;
        Some(Course(u64::from_be_bytes(raw)))
    }
}

fn fresh() -> Base {
    Base::new(sled::Config::new().temporary(true).open().unwrap())
}

fn student(name: &str, value: usize) -> Student {
    Student { name: name.to_string(), value }
}

fn values(table: &Table<Student>, base: &Base) -> Vec<u64> {
    table.keys(base).unwrap().iter().map(|k| k.value(table)).collect()
}

#[test]
fn example() {
    let mut db = open("/tmp/sled_tables_example/db").unwrap();
    let table: Table<Student> = db.table();
    let bob_key = table.push(&mut db, student("bob", 0)).unwrap().owned();

    // query one item
    let bob = table.get(&db, &bob_key).unwrap();
    assert_eq!(bob, Some(student("bob", 0)));

    // query all items
    for (key, value) in table.iter(&db).unwrap() {
        let key = key.value(&table);
        println!("key: {key}, student: {value:?}");
    }

    // update items
    let keys: Vec<KeyOwned<Student>> =
        table.keys(&db).unwrap().into_iter().map(|k| k.owned()).collect();
    for key in keys {
        table
            .update(&mut db, &key, |student| {
                if let Some(student) = student {
                    student.value += 1;
                }
            })
            .unwrap();
    }
    assert_eq!(table.get(&db, &bob_key).unwrap(), Some(student("bob", 1)));
}

#[test]
fn student_scenario() {
    let mut db = fresh();
    let table: Table<Student> = db.table();
    let bob = table.push(&mut db, student("bob", 0)).unwrap().owned();
    assert_eq!(bob.value(&table), 0);
    let ann = table.push(&mut db, student("ann", 5)).unwrap().owned();
    assert_eq!(ann.value(&table), 1);
    table
        .update(&mut db, &bob, |s| {
            if let Some(s) = s {
                s.value += 1;
            }
        })
        .unwrap();
    assert_eq!(table.get(&db, &bob).unwrap(), Some(student("bob", 1)));
    table.delete(&mut db, &ann).unwrap();
    assert_eq!(values(&table, &db), vec![0]);
}

#[test]
fn push_then_get_gives_the_record() {
    let mut db = fresh();
    let table: Table<Student> = db.table();
    for (i, name) in ["a", "", "zoë", "a much longer name than the others"].iter().enumerate() {
        let record = student(name, i * 1000);
        let key = table.push(&mut db, record.clone()).unwrap().owned();
        assert_eq!(table.get(&db, &key).unwrap(), Some(record));
    }
}

#[test]
fn pushes_give_keys_from_zero_without_gaps() {
    let mut db = fresh();
    let table: Table<Course> = db.table();
    for expected in 0..25u64 {
        let key = table.push(&mut db, Course(expected * 3)).unwrap().owned();
        assert_eq!(key.value(&table), expected);
    }
}

#[test]
fn deleted_keys_are_not_given_again() {
    let mut db = fresh();
    let table: Table<Course> = db.table();
    let first = table.push(&mut db, Course(1)).unwrap().owned();
    table.delete(&mut db, &first).unwrap();
    let second = table.push(&mut db, Course(2)).unwrap().owned();
    assert_eq!(second.value(&table), 1);
    assert_eq!(table.get(&db, &first).unwrap(), None);
}

#[test]
fn delete_then_get_is_absent() {
    let mut db = fresh();
    let table: Table<Student> = db.table();
    let key = table.push(&mut db, student("bob", 0)).unwrap().owned();
    table.delete(&mut db, &key).unwrap();
    assert_eq!(table.get(&db, &key).unwrap(), None);
    // a key that was never given out
    let never = KeyOwned::<Student>::new(9_000_000);
    table.delete(&mut db, &never).unwrap();
    assert_eq!(table.get(&db, &never).unwrap(), None);
    // deleting twice changes nothing
    table.delete(&mut db, &key).unwrap();
    assert_eq!(table.get(&db, &key).unwrap(), None);
}

#[test]
fn update_stores_where_nothing_was() {
    let mut db = fresh();
    let table: Table<Student> = db.table();
    let key = KeyOwned::<Student>::new(4);
    assert_eq!(table.get(&db, &key).unwrap(), None);
    table
        .update(&mut db, &key, |held| {
            assert_eq!(*held, None);
            *held = Some(student("new", 7));
        })
        .unwrap();
    assert_eq!(table.get(&db, &key).unwrap(), Some(student("new", 7)));
}

#[test]
fn update_deletes_where_nothing_is_returned() {
    let mut db = fresh();
    let table: Table<Student> = db.table();
    let key = table.push(&mut db, student("bob", 3)).unwrap().owned();
    table
        .update(&mut db, &key, |held| {
            assert_eq!(*held, Some(student("bob", 3)));
            *held = None;
        })
        .unwrap();
    assert_eq!(table.get(&db, &key).unwrap(), None);
    assert_eq!(values(&table, &db), Vec::<u64>::new());
}

#[test]
fn replace_sets_or_deletes() {
    let mut db = fresh();
    let table: Table<Course> = db.table();
    let key = KeyOwned::<Course>::new(2);
    table.replace(&mut db, &key, Some(Course(5))).unwrap();
    assert_eq!(table.get(&db, &key).unwrap(), Some(Course(5)));
    table.replace(&mut db, &key, None).unwrap();
    assert_eq!(table.get(&db, &key).unwrap(), None);
}

#[test]
fn set_overwrites_and_leaves_the_counter() {
    let mut db = fresh();
    let table: Table<Course> = db.table();
    let far = KeyOwned::<Course>::new(7);
    table.set(&mut db, &far, Course(70)).unwrap();
    table.set(&mut db, &far, Course(71)).unwrap();
    assert_eq!(table.get(&db, &far).unwrap(), Some(Course(71)));
    let key = table.push(&mut db, Course(1)).unwrap().owned();
    assert_eq!(key.value(&table), 0);
    assert_eq!(table.get(&db, &far).unwrap(), Some(Course(71)));
    assert_eq!(table.get(&db, &KeyOwned::<Course>::new(1)).unwrap(), None);
}

#[test]
fn keys_lists_the_present_keys_in_path_order() {
    let mut db = fresh();
    let table: Table<Course> = db.table();
    for i in 0..12u64 {
        table.push(&mut db, Course(i * i)).unwrap();
    }
    table.delete(&mut db, &KeyOwned::<Course>::new(3)).unwrap();
    let keys: Vec<u64> = table.keys(&db).unwrap().iter().map(|k| k.value(&table)).collect();
    // "10" and "11" stand before "2" as byte strings
    assert_eq!(keys, vec![0, 1, 10, 11, 2, 4, 5, 6, 7, 8, 9]);
}

#[test]
fn iter_pairs_each_key_with_its_record() {
    let mut db = fresh();
    let table: Table<Course> = db.table();
    for i in 0..5u64 {
        table.push(&mut db, Course(i + 100)).unwrap();
    }
    table.delete(&mut db, &KeyOwned::<Course>::new(1)).unwrap();
    let items: Vec<(u64, Course)> =
        table.iter(&db).unwrap().into_iter().map(|(k, v)| (k.value(&table), v)).collect();
    assert_eq!(items, vec![(0, Course(100)), (2, Course(102)), (3, Course(103)), (4, Course(104))]);
    for (key, record) in items {
        assert_eq!(table.get(&db, &KeyOwned::<Course>::new(key)).unwrap(), Some(record));
    }
}

#[test]
fn empty_table_has_no_keys() {
    let db = fresh();
    let table: Table<Student> = db.table();
    assert!(table.keys(&db).unwrap().is_empty());
    assert!(table.iter(&db).unwrap().is_empty());
}

#[test]
fn tables_of_one_name_see_each_other() {
    let mut db = fresh();
    let first: Table<Student> = db.table();
    let second: Table<Student> = db.table();
    let other: Table<Pupil> = db.table();
    let key = first.push(&mut db, student("bob", 2)).unwrap().owned();
    let raw = key.value(&first);
    assert_eq!(second.get(&db, &KeyOwned::<Student>::new(raw)).unwrap(), Some(student("bob", 2)));
    assert_eq!(
        other.get(&db, &KeyOwned::<Pupil>::new(raw)).unwrap(),
        Some(Pupil("bob".to_string(), 2))
    );
    // they share the counter too
    let next = other.push(&mut db, Pupil("ann".to_string(), 1)).unwrap().owned();
    assert_eq!(next.value(&other), 1);
    assert_eq!(values(&first, &db), vec![0, 1]);
}

#[test]
fn tables_of_different_names_are_apart() {
    let mut db = fresh();
    let students: Table<Student> = db.table();
    let courses: Table<Course> = db.table();
    let s = students.push(&mut db, student("bob", 2)).unwrap().owned();
    let c = courses.push(&mut db, Course(9)).unwrap().owned();
    assert_eq!(s.value(&students), 0);
    assert_eq!(c.value(&courses), 0);
    assert_eq!(students.get(&db, &s).unwrap(), Some(student("bob", 2)));
    assert_eq!(courses.get(&db, &c).unwrap(), Some(Course(9)));
}

#[test]
fn stored_layout_is_as_documented() {
    let mut db = fresh();
    let table: Table<Student> = db.table();
    table.push(&mut db, student("bob", 0)).unwrap();
    table.push(&mut db, student("ann", 5)).unwrap();
    let counter = db.inner().get("/t/student/next_key/").unwrap().unwrap();
    assert_eq!(counter.to_vec(), vec![2, 0, 0, 0, 0, 0, 0, 0]);
    let item = db.inner().get("/t/student/i/1").unwrap().unwrap();
    assert_eq!(item.to_vec(), student("ann", 5).encode());
    assert_eq!(db.inner().len(), 3);
}

#[test]
fn get_fails_on_bytes_that_do_not_decode() {
    let mut db = fresh();
    let table: Table<Student> = db.table();
    let key = table.push(&mut db, student("bob", 0)).unwrap().owned();
    db.inner().insert("/t/student/i/0", vec![1u8, 2, 3]).unwrap();
    assert!(matches!(table.get(&db, &key), Err(TableError::SerializationErr())));
    assert!(matches!(table.iter(&db), Err(TableError::SerializationErr())));
    let untouched = table.update(&mut db, &key, |held| *held = Some(student("", 0)));
    assert!(matches!(untouched, Err(TableError::SerializationErr())));
    assert_eq!(db.inner().get("/t/student/i/0").unwrap().unwrap().to_vec(), vec![1u8, 2, 3]);
}

#[test]
fn keys_fails_on_a_path_that_is_no_item_path() {
    let mut db = fresh();
    let table: Table<Course> = db.table();
    table.push(&mut db, Course(1)).unwrap();
    db.inner().insert("/t/course/i/007", vec![0u8; 8]).unwrap();
    assert!(matches!(table.keys(&db), Err(TableError::SerializationErr())));
    assert!(matches!(table.iter(&db), Err(TableError::SerializationErr())));
}

#[test]
fn push_fails_on_an_exhausted_counter() {
    let mut db = fresh();
    let table: Table<Course> = db.table();
    db.inner().insert("/t/course/next_key/", u64::MAX.to_le_bytes().to_vec()).unwrap();
    assert!(matches!(table.push(&mut db, Course(1)), Err(TableError::KeySpaceExhausted())));
    assert!(table.keys(&db).unwrap().is_empty());
    let held = db.inner().get("/t/course/next_key/").unwrap().unwrap();
    assert_eq!(held.to_vec(), u64::MAX.to_le_bytes().to_vec());
}

#[test]
fn push_fails_on_a_counter_that_is_too_short() {
    let mut db = fresh();
    let table: Table<Course> = db.table();
    db.inner().insert("/t/course/next_key/", vec![1u8, 0, 0]).unwrap();
    assert!(matches!(table.push(&mut db, Course(1)), Err(TableError::SerializationErr())));
    assert!(table.keys(&db).unwrap().is_empty());
}

#[test]
fn push_takes_the_last_but_one_key() {
    let mut db = fresh();
    let table: Table<Course> = db.table();
    db.inner().insert("/t/course/next_key/", (u64::MAX - 1).to_le_bytes().to_vec()).unwrap();
    let key = table.push(&mut db, Course(1)).unwrap().owned();
    assert_eq!(key.value(&table), u64::MAX - 1);
    assert_eq!(values_of_courses(&table, &db), vec![u64::MAX - 1]);
}

fn values_of_courses(table: &Table<Course>, base: &Base) -> Vec<u64> {
    table.keys(base).unwrap().iter().map(|k| k.value(table)).collect()
}

#[test]
fn open_fails_where_no_store_can_be() {
    assert!(matches!(open("/dev/null/no_store_here"), Err(TableError::SledErr(_))));
}

#[test]
fn opened_keeps_the_handle_or_the_error() {
    let db = sled::Config::new().temporary(true).open().unwrap();
    db.insert("seen", vec![7u8]).unwrap();
    let mut base = opened(Ok(db)).unwrap();
    assert_eq!(base.inner().get("seen").unwrap().unwrap().to_vec(), vec![7u8]);
    let table: Table<Course> = base.table();
    let key = table.push(&mut base, Course(4)).unwrap().owned();
    assert_eq!(key.value(&table), 0);
    let failed = opened(Err(sled::Error::Unsupported("no".to_string())));
    assert!(matches!(
        failed,
        Err(TableError::SledErr(sled::Error::Unsupported(ref why))) if why.as_str() == "no"
    ));
}

#[test]
fn owned_key_keeps_the_number() {
    let mut db = fresh();
    let table: Table<Course> = db.table();
    table.push(&mut db, Course(1)).unwrap();
    let key = table.push(&mut db, Course(2)).unwrap();
    assert_eq!(key.value(&table), 1);
    let owned = key.owned();
    assert_eq!(owned.value(&table), 1);
    let copy = owned;
    assert_eq!(copy.value(&table), owned.clone().value(&table));
    assert_eq!(KeyOwned::<Course>::new(77).value(&table), 77);
}

#[test]
fn paths_are_built_as_documented() {
    assert_eq!(build_counter_path(b"student"), b"/t/student/next_key/".to_vec());
    assert_eq!(build_item_prefix(b"student"), b"/t/student/i/".to_vec());
    assert_eq!(build_item_path(b"student", 0), b"/t/student/i/0".to_vec());
    assert_eq!(build_item_path(b"student", 42), b"/t/student/i/42".to_vec());
    assert_eq!(build_item_path(b"", u64::MAX), b"/t//i/18446744073709551615".to_vec());
}

#[test]
fn decimal_is_written_and_read_back() {
    for key in [0u64, 1, 9, 10, 11, 99, 100, 12345, 1 << 32, u64::MAX - 1, u64::MAX] {
        let mut out = b"x".to_vec();
        push_decimal(&mut out, key);
        assert_eq!(out, format!("x{}", key).into_bytes());
        assert_eq!(parse_decimal(&out[1..]), Some(key));
    }
}

#[test]
fn decimal_reader_takes_the_written_form_only() {
    assert_eq!(parse_decimal(b""), None);
    assert_eq!(parse_decimal(b"0"), Some(0));
    assert_eq!(parse_decimal(b"00"), None);
    assert_eq!(parse_decimal(b"007"), None);
    assert_eq!(parse_decimal(b"+5"), None);
    assert_eq!(parse_decimal(b"-5"), None);
    assert_eq!(parse_decimal(b"12a"), None);
    assert_eq!(parse_decimal(b" 12"), None);
    assert_eq!(parse_decimal(b"18446744073709551615"), Some(u64::MAX));
    assert_eq!(parse_decimal(b"18446744073709551616"), None);
    assert_eq!(parse_decimal(b"99999999999999999999"), None);
    assert_eq!(parse_decimal(b"184467440737095516150"), None);
}

#[test]
fn key_is_read_out_of_an_item_path() {
    assert_eq!(key_of_item_path(b"student", b"/t/student/i/15"), Some(15));
    assert_eq!(key_of_item_path(b"student", b"/t/student/i/"), None);
    assert_eq!(key_of_item_path(b"student", b"/t/student/i/x/i/3"), None);
    assert_eq!(key_of_item_path(b"a", b"/t/a/i/010"), None);
    assert_eq!(key_of_item_path(b"student", b"/t/student/next_key/"), None);
    assert_eq!(key_of_item_path(b"student", b"/t/course/i/15"), None);
    assert_eq!(key_of_item_path(b"student", b"/t"), None);
    assert_eq!(key_of_item_path(b"", b"/t//i/0"), Some(0));
}

#[test]
fn counter_advances_by_one() {
    assert_eq!(advance_counter(None), Some(1u64.to_le_bytes().to_vec()));
    let five = 5u64.to_le_bytes();
    assert_eq!(advance_counter(Some(&five[..])), Some(6u64.to_le_bytes().to_vec()));
    let wide = 255u64.to_le_bytes();
    assert_eq!(advance_counter(Some(&wide[..])), Some(vec![0, 1, 0, 0, 0, 0, 0, 0]));
    // nothing to advance: the slot is left as it is
    let last = u64::MAX.to_le_bytes();
    assert_eq!(advance_counter(Some(&last[..])), Some(last.to_vec()));
    assert_eq!(advance_counter(Some(&[1u8, 2][..])), Some(vec![1, 2]));
}

#[test]
fn counter_is_read_little_endian() {
    assert_eq!(read_counter(&None), Some(0));
    assert_eq!(read_counter(&Some(vec![1, 2, 0, 0, 0, 0, 0, 0])), Some(513));
    assert_eq!(read_counter(&Some(vec![1, 2, 0, 0, 0, 0, 0, 0, 9, 9])), Some(513));
    assert_eq!(read_counter(&Some(vec![1, 2, 0, 0, 0, 0, 0])), None);
    assert_eq!(read_counter(&Some(vec![])), None);
}

#[test]
fn key_taken_is_what_the_slot_held() {
    assert!(matches!(key_taken(None), Ok(0)));
    assert!(matches!(key_taken(Some(41u64.to_le_bytes().to_vec())), Ok(41)));
    assert!(matches!(key_taken(Some(vec![4, 4])), Err(TableError::SerializationErr())));
    assert!(matches!(
        key_taken(Some(u64::MAX.to_le_bytes().to_vec())),
        Err(TableError::KeySpaceExhausted())
    ));
}

#[test]
fn found_bytes_are_decoded() {
    assert!(matches!(decode_found::<Course>(None), Ok(None)));
    assert!(matches!(
        decode_found::<Course>(Some(vec![0, 0, 0, 0, 0, 0, 1, 2])),
        Ok(Some(Course(258)))
    ));
    assert!(matches!(
        decode_found::<Course>(Some(vec![1, 2, 3])),
        Err(TableError::SerializationErr())
    ));
}
