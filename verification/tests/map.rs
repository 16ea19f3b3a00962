use crownfi_cw_common::error::StdError;
use crownfi_cw_common::storage::base::{storage_has, storage_write, GlobalStorage};
use crownfi_cw_common::storage::map::StoredMap;
use crownfi_cw_common::storage::set::StoredSet;
use crownfi_cw_common::storage::OZeroCopy;

const NAMESPACE: &[u8] = b"testing";

fn pair(key: &str, value: &str) -> Option<(String, String)> {
    Some((key.to_string(), value.to_string()))
}

#[test]
fn stored_empty_map_iter() {
    let mut store = GlobalStorage::new();
    let stored_map = StoredMap::<String, String>::new(b"namespace");
    let mut stored_map_iter = stored_map.iter().unwrap();
    assert_eq!(stored_map_iter.next(&mut store).map(Result::unwrap).map(|(key, value)| (key, value.into_inner())), None);
    storage_write(&mut store, b"unrelated", b"ayy lmao");

    stored_map_iter = stored_map.iter().unwrap();
    assert_eq!(stored_map_iter.next(&mut store).map(Result::unwrap).map(|(key, value)| (key, value.into_inner())), None);
}

#[test]
fn stored_map_iter() {
    let mut store = GlobalStorage::new();

    let stored_map = StoredMap::<String, String>::new(b"namespace");
    stored_map.set(&mut store, &"key1".to_string(), &"val1".to_string()).unwrap();
    assert_eq!(
        stored_map.get(&store, &"key1".to_string()).map(|result| result.map(|thing| thing.into_inner())),
        Ok(Some("val1".into()))
    );
    assert_eq!(
        stored_map.iter().unwrap().next(&mut store).map(Result::unwrap).map(|(key, value)| (key, value.into_inner())),
        pair("key1", "val1")
    );
    stored_map.set(&mut store, &"key2".to_string(), &"val2".to_string()).unwrap();

    let mut stored_map_iter = stored_map.iter().unwrap();
    assert_eq!(
        stored_map_iter.next(&mut store).map(Result::unwrap).map(|(key, value)| (key, value.into_inner())),
        pair("key1", "val1")
    );
    assert_eq!(
        stored_map_iter.next(&mut store).map(Result::unwrap).map(|(key, value)| (key, value.into_inner())),
        pair("key2", "val2")
    );
    assert!(stored_map_iter.next(&mut store).is_none());

    stored_map.set(&mut store, &"key3".to_string(), &"val3".to_string()).unwrap();

    let mut stored_map_iter = stored_map.iter().unwrap();
    assert_eq!(
        stored_map_iter.next_back(&mut store).map(Result::unwrap).map(|(key, value)| (key, value.into_inner())),
        pair("key3", "val3")
    );
    assert_eq!(
        stored_map_iter.next_back(&mut store).map(Result::unwrap).map(|(key, value)| (key, value.into_inner())),
        pair("key2", "val2")
    );
    assert_eq!(
        stored_map_iter.next_back(&mut store).map(Result::unwrap).map(|(key, value)| (key, value.into_inner())),
        pair("key1", "val1")
    );
    assert_eq!(stored_map_iter.next_back(&mut store), None);

    let mut stored_map_iter = stored_map.iter_range(Some("key".into()), Some("key3".into())).unwrap();
    assert_eq!(
        stored_map_iter.next(&mut store).map(Result::unwrap).map(|(key, value)| (key, value.into_inner())),
        pair("key1", "val1")
    );
    assert_eq!(
        stored_map_iter.next(&mut store).map(Result::unwrap).map(|(key, value)| (key, value.into_inner())),
        pair("key2", "val2")
    );
    assert_eq!(stored_map_iter.next(&mut store), None);

    let mut stored_map_iter = stored_map.iter_range(Some("key2".into()), None).unwrap();
    assert_eq!(
        stored_map_iter.next(&mut store).map(Result::unwrap).map(|(key, value)| (key, value.into_inner())),
        pair("key2", "val2")
    );
    assert_eq!(
        stored_map_iter.next(&mut store).map(Result::unwrap).map(|(key, value)| (key, value.into_inner())),
        pair("key3", "val3")
    );
    assert_eq!(stored_map_iter.next(&mut store), None);

    let mut stored_map_iter = stored_map.iter_range(Some("key1".into()), Some("key3".into())).unwrap();
    assert_eq!(
        stored_map_iter.next_back(&mut store).map(Result::unwrap).map(|(key, value)| (key, value.into_inner())),
        pair("key2", "val2")
    );
    assert_eq!(
        stored_map_iter.next_back(&mut store).map(Result::unwrap).map(|(key, value)| (key, value.into_inner())),
        pair("key1", "val1")
    );
    assert_eq!(stored_map_iter.next_back(&mut store), None);
}

#[test]
fn stored_map_key_iter() {
    let mut store = GlobalStorage::new();

    let stored_map = StoredMap::<String, String>::new(b"namespace");
    stored_map.set(&mut store, &"key1".to_string(), &"val1".to_string()).unwrap();
    assert_eq!(
        stored_map.get(&store, &"key1".to_string()).map(|result| result.map(|thing| thing.into_inner())),
        Ok(Some("val1".into()))
    );
    assert_eq!(stored_map.iter_keys().unwrap().next(&mut store), Some(Ok("key1".into())));
    stored_map.set(&mut store, &"key2".to_string(), &"val2".to_string()).unwrap();

    let mut stored_map_iter = stored_map.iter_keys().unwrap();
    assert_eq!(stored_map_iter.next(&mut store), Some(Ok("key1".into())));
    assert_eq!(stored_map_iter.next(&mut store), Some(Ok("key2".into())));
    assert!(stored_map_iter.next(&mut store).is_none());

    stored_map.set(&mut store, &"key3".to_string(), &"val3".to_string()).unwrap();

    let mut stored_map_iter = stored_map.iter_keys().unwrap();
    assert_eq!(stored_map_iter.next_back(&mut store), Some(Ok("key3".into())));
    assert_eq!(stored_map_iter.next_back(&mut store), Some(Ok("key2".into())));
    assert_eq!(stored_map_iter.next_back(&mut store), Some(Ok("key1".into())));
    assert_eq!(stored_map_iter.next_back(&mut store), None);

    let mut stored_map_iter = stored_map.iter_range_keys(Some("key".into()), Some("key3".into())).unwrap();
    assert_eq!(stored_map_iter.next(&mut store), Some(Ok("key1".into())));
    assert_eq!(stored_map_iter.next(&mut store), Some(Ok("key2".into())));
    assert_eq!(stored_map_iter.next(&mut store), None);

    let mut stored_map_iter = stored_map.iter_range_keys(Some("key2".into()), None).unwrap();
    assert_eq!(stored_map_iter.next(&mut store), Some(Ok("key2".into())));
    assert_eq!(stored_map_iter.next(&mut store), Some(Ok("key3".into())));
    assert_eq!(stored_map_iter.next(&mut store), None);

    let mut stored_map_iter = stored_map.iter_range_keys(Some("key1".into()), Some("key3".into())).unwrap();
    assert_eq!(stored_map_iter.next_back(&mut store), Some(Ok("key2".into())));
    assert_eq!(stored_map_iter.next_back(&mut store), Some(Ok("key1".into())));
    assert_eq!(stored_map_iter.next_back(&mut store), None);
}

#[test]
fn basic() {
    let mut store = GlobalStorage::new();
    let stored_map = StoredMap::<String, String>::new(NAMESPACE);

    let key = String::from("key1");
    let value = String::from("val1");

    stored_map.set(&mut store, &key, &value).unwrap();
    assert!(stored_map.has(&store, &key));
    assert_eq!(stored_map.get(&store, &"banana".to_string()).unwrap(), None);
    assert_eq!(stored_map.get(&store, &key).unwrap(), Some(OZeroCopy::from_inner(value)));
}

#[test]
fn raw() {
    let mut store = GlobalStorage::new();
    let stored_map = StoredMap::<[u8; 4], [u8; 4]>::new(NAMESPACE);

    let key = b"key1";
    let value = b"val1";

    stored_map.set_raw_bytes(&mut store, key, value);
    assert_eq!(stored_map.get(&store, key).unwrap(), Some(OZeroCopy::from_inner(value.to_owned())));
    assert_eq!(stored_map.get_raw_bytes(&store, key), Some(b"val1".to_vec()));
}

#[test]
fn autosaving() {
    let mut store = GlobalStorage::new();
    let stored_map = StoredMap::<String, String>::new(NAMESPACE);

    let key = String::from("key1");
    let fake_key = String::from("banana");
    let value = String::from("val1");

    stored_map.set(&mut store, &key, &value).unwrap();
    let mut v1 = stored_map.get_autosaving(&store, &key).unwrap().unwrap();
    let v2 = stored_map.get_or_default_autosaving(&store, &fake_key).unwrap();

    assert_eq!(*v1.as_ref(), value);
    assert_eq!(*v2.as_ref(), "");

    *v1.as_mut() = String::from("banana2");

    v1.save(&mut store).unwrap();
    v2.save(&mut store).unwrap();

    assert!(storage_has(&store, &stored_map.key(&key)));
    assert!(storage_has(&store, &stored_map.key(&fake_key)));

    let v1 = stored_map.get(&store, &key).unwrap().unwrap();
    assert_eq!(*v1.as_ref(), String::from("banana2"));
}

#[test]
fn map_key_layout() {
    let mut store = GlobalStorage::new();
    let map = StoredMap::<u32, String>::new(b"m");
    assert_eq!(map.key(&0x01020304), vec![b'm', 4, 3, 2, 1]);
    map.set(&mut store, &1, &"hi".to_string()).unwrap();
    assert_eq!(
        crownfi_cw_common::storage::base::storage_read(&store, &[b'm', 1, 0, 0, 0]),
        Some(vec![2, 0, 0, 0, b'h', b'i'])
    );
    map.remove(&mut store, &1);
    assert!(!map.has(&store, &1));
}

#[test]
fn range_is_start_inclusive_end_exclusive() {
    let mut store = GlobalStorage::new();
    let map = StoredMap::<[u8; 2], u8>::new(b"r");
    for key in [[1u8, 0u8], [1, 5], [2, 0], [3, 7]] {
        map.set(&mut store, &key, &1).unwrap();
    }
    let mut iter = map.iter_range_keys(Some([1, 5]), Some([3, 7])).unwrap();
    assert_eq!(iter.next(&mut store), Some(Ok([1, 5])));
    assert_eq!(iter.next(&mut store), Some(Ok([2, 0])));
    assert_eq!(iter.next(&mut store), None);

    let mut all = map.iter_keys().unwrap();
    let mut unbounded = map.iter_range_keys(None, None).unwrap();
    loop {
        let a = all.next(&mut store);
        let b = unbounded.next(&mut store);
        assert_eq!(a, b);
        if a.is_none() {
            break;
        }
    }
}

#[test]
fn map_iter_meets_in_the_middle() {
    let mut store = GlobalStorage::new();
    let map = StoredMap::<u8, u8>::new(b"meet");
    for key in 1..=5u8 {
        map.set(&mut store, &key, &(key * 2)).unwrap();
    }
    let mut iter = map.iter().unwrap();
    let mut seen = Vec::new();
    seen.push(iter.next(&mut store).unwrap().unwrap().0);
    seen.push(iter.next_back(&mut store).unwrap().unwrap().0);
    seen.push(iter.next_back(&mut store).unwrap().unwrap().0);
    seen.push(iter.next(&mut store).unwrap().unwrap().0);
    seen.push(iter.next(&mut store).unwrap().unwrap().0);
    assert!(iter.next(&mut store).is_none());
    assert!(iter.next_back(&mut store).is_none());
    assert_eq!(seen, vec![1, 5, 4, 2, 3]);
}

#[test]
fn map_iter_skips() {
    let mut store = GlobalStorage::new();
    let map = StoredMap::<u8, u8>::new(b"skip");
    for key in 1..=5u8 {
        map.set(&mut store, &key, &(key + 100)).unwrap();
    }
    let mut iter = map.iter().unwrap();
    assert_eq!(iter.nth(&mut store, 2).map(Result::unwrap).map(|(k, v)| (k, v.into_inner())), Some((3, 103)));
    assert_eq!(iter.advance_by(&mut store, 5), Err(3));
    let mut iter = map.iter().unwrap();
    assert_eq!(iter.advance_back_by(&mut store, 2), Ok(()));
    assert_eq!(iter.next_back(&mut store).map(Result::unwrap).map(|(k, v)| (k, v.into_inner())), Some((3, 103)));
    let mut iter = map.iter().unwrap();
    assert_eq!(iter.nth_back(&mut store, 1).map(Result::unwrap).map(|(k, v)| (k, v.into_inner())), Some((1, 101)));
    let mut iter = map.iter().unwrap();
    assert_eq!(iter.advance_back_by(&mut store, 7), Err(2));
}

#[test]
fn stored_set_members() {
    let mut store = GlobalStorage::new();
    let set = StoredSet::<u16>::new(b"set");
    assert!(!set.has(&store, &3));
    set.add(&mut store, &3).unwrap();
    set.add(&mut store, &1).unwrap();
    set.add(&mut store, &2).unwrap();
    assert!(set.has(&store, &3));
    assert_eq!(
        crownfi_cw_common::storage::base::storage_read(&store, &[b's', b'e', b't', 3, 0]),
        Some(vec![254])
    );
    set.remove(&mut store, &2);
    assert!(!set.has(&store, &2));
    let mut iter = set.iter().unwrap();
    assert_eq!(iter.next(&mut store), Some(Ok(1)));
    assert_eq!(iter.next(&mut store), Some(Ok(3)));
    assert_eq!(iter.next(&mut store), None);
    let mut iter = set.iter_range(Some(2), None).unwrap();
    assert_eq!(iter.next(&mut store), Some(Ok(3)));
    assert_eq!(iter.next(&mut store), None);
}

#[test]
fn bound_with_an_empty_encoding_is_a_bound() {
    let mut store = GlobalStorage::new();
    let map = StoredMap::<(), u8>::new(b"unit");
    map.set(&mut store, &(), &7).unwrap();

    let mut bounded = map.iter_range(Some(()), Some(())).unwrap();
    assert_eq!(bounded.next(&mut store), None);
    let mut bounded = map.iter_range(None, Some(())).unwrap();
    assert_eq!(bounded.next_back(&mut store), None);
    let mut keys = map.iter_range_keys(Some(()), Some(())).unwrap();
    assert_eq!(keys.next(&mut store), None);

    let mut open_end = map.iter_range(Some(()), None).unwrap();
    assert_eq!(
        open_end.next(&mut store).map(Result::unwrap).map(|(k, v)| (k, v.into_inner())),
        Some(((), 7))
    );
    assert_eq!(open_end.next(&mut store), None);
    let mut all = map.iter_keys().unwrap();
    assert_eq!(all.next(&mut store), Some(Ok(())));
    assert_eq!(all.next(&mut store), None);
}

#[test]
fn end_bound_excludes_its_own_entry() {
    let mut store = GlobalStorage::new();
    let map = StoredMap::<u8, u8>::new(b"e");
    for key in [1u8, 2, 3] {
        map.set(&mut store, &key, &key).unwrap();
    }
    let mut iter = map.iter_range_keys(Some(2), Some(2)).unwrap();
    assert_eq!(iter.next(&mut store), None);
    let mut iter = map.iter_range_keys(Some(1), Some(3)).unwrap();
    assert_eq!(iter.next(&mut store), Some(Ok(1)));
    assert_eq!(iter.next(&mut store), Some(Ok(2)));
    assert_eq!(iter.next(&mut store), None);
    let mut iter = map.iter_range_keys(Some(3), Some(1)).unwrap();
    assert_eq!(iter.next(&mut store), None);
}

#[test]
fn map_iter_surfaces_records_that_do_not_parse() {
    let mut store = GlobalStorage::new();
    let map = StoredMap::<u16, u16>::new(b"p");
    map.set(&mut store, &1, &10).unwrap();
    map.set(&mut store, &3, &30).unwrap();
    // a value of three bytes under the key 2, and a key of one byte
    storage_write(&mut store, &[b'p', 2, 0], &[1, 2, 3]);
    storage_write(&mut store, &[b'p', 9], &[5, 0]);

    let mut iter = map.iter().unwrap();
    assert_eq!(
        iter.next(&mut store).map(|entry| entry.map(|(k, v)| (k, v.into_inner()))),
        Some(Ok((1, 10)))
    );
    assert_eq!(
        iter.next(&mut store).map(|entry| entry.map(|(k, v)| (k, v.into_inner()))),
        Some(Err(StdError::ParseErr))
    );
    assert_eq!(
        iter.next(&mut store).map(|entry| entry.map(|(k, v)| (k, v.into_inner()))),
        Some(Ok((3, 30)))
    );
    assert_eq!(
        iter.next_back(&mut store).map(|entry| entry.map(|(k, v)| (k, v.into_inner()))),
        Some(Err(StdError::ParseErr))
    );
    assert_eq!(iter.next(&mut store), None);

    let mut keys = map.iter_keys().unwrap();
    assert_eq!(keys.next(&mut store), Some(Ok(1)));
    assert_eq!(keys.next(&mut store), Some(Ok(2)));
    assert_eq!(keys.next(&mut store), Some(Ok(3)));
    assert_eq!(keys.next(&mut store), Some(Err(StdError::ParseErr)));
    assert_eq!(keys.next(&mut store), None);
}

#[test]
fn default_guard_holds_the_default_value() {
    let mut store = GlobalStorage::new();
    let map = StoredMap::<u8, u32>::new(b"d");
    let mut guard = map.get_or_default_autosaving(&store, &4).unwrap();
    assert_eq!(*guard.as_ref(), 0);
    *guard.as_mut() += 5;
    guard.save(&mut store).unwrap();
    assert_eq!(map.get(&store, &4).unwrap().map(|c| c.into_inner()), Some(5));
    let guard = map.get_or_default_autosaving(&store, &4).unwrap();
    assert_eq!(*guard.as_ref(), 5);
}
