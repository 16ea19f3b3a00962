use crownfi_cw_common::error::StdError;
use crownfi_cw_common::storage::base::{storage_read, storage_read_item, storage_remove, GlobalStorage};
use crownfi_cw_common::storage::item::{AutosavingSerializableItem, AutosavingStoredItem, StoredItem};
use crownfi_cw_common::storage::SerializableItem;

#[derive(Debug, Default, Clone, Copy, PartialEq, Eq)]
struct Counter(u8);

// The spec functions of the library's traits are ghost code: nothing calls
// them when the program runs.
impl vstd::view::View for Counter {
    type V = u8;

    fn view(&self) -> u8 {
        unreachable!()
    }
}

impl SerializableItem for Counter {
    fn encoding(_value: u8) -> Option<vstd::seq::Seq<u8>> {
        unreachable!()
    }

    fn decoding(_data: vstd::seq::Seq<u8>) -> Option<u8> {
        unreachable!()
    }

    fn lemma_round_trip(_value: Self) {
        unreachable!()
    }

    fn serialize_to_owned(&self) -> Result<Vec<u8>, StdError> {
        Ok(vec![self.0])
    }

    fn serialize_as_ref(&self) -> Option<&[u8]> {
        None
    }

    fn deserialize_to_owned(data: &[u8]) -> Result<Self, StdError> {
        match data {
            [byte] => Ok(Counter(*byte)),
            _ => Err(StdError::ParseErr),
        }
    }

    fn deserialize_as_ref(_data: &[u8]) -> Option<&Self> {
        None
    }
}

impl StoredItem for Counter {
    fn namespace_spec() -> vstd::seq::Seq<u8> {
        unreachable!()
    }

    fn namespace() -> &'static [u8] {
        b"testing"
    }
}

#[test]
fn autosaving_stored_item() {
    let mut store = GlobalStorage::new();
    let mut item = AutosavingStoredItem::<Counter>::new_or_default(&store).unwrap();

    *item.as_mut() = Counter(69);
    item.save(&mut store).unwrap();

    let mut item = AutosavingStoredItem::<Counter>::new(&store).unwrap().unwrap();
    assert_eq!(Counter(69), *item.as_ref());

    item.as_mut().0 *= 2;
    assert_eq!(Counter(69), Counter::load(&store).unwrap().unwrap().into_inner());
    item.save(&mut store).unwrap();
    assert_eq!(Counter(69 * 2), Counter::load(&store).unwrap().unwrap().into_inner());
}

#[test]
fn autosaving_stored_item_rm() {
    let mut store = GlobalStorage::new();
    let mut item = AutosavingStoredItem::<Counter>::new_or_default(&store).unwrap();
    *item.as_mut() = Counter(69);
    item.save(&mut store).unwrap();

    Counter::remove(&mut store);
    assert_eq!(None, Counter::load(&store).unwrap());
}

#[test]
fn stored_item_save_and_load() {
    let mut store = GlobalStorage::new();
    assert_eq!(Counter::load(&store).unwrap(), None);
    assert!(AutosavingStoredItem::<Counter>::new(&store).unwrap().is_none());
    Counter(7).save(&mut store).unwrap();
    assert_eq!(storage_read(&store, b"testing"), Some(vec![7]));
    assert_eq!(Counter::load(&store).unwrap().map(|cell| cell.into_inner()), Some(Counter(7)));
    crownfi_cw_common::storage::base::storage_write(&mut store, b"testing", &[1, 2]);
    assert_eq!(Counter::load(&store), Err(StdError::ParseErr));
    assert!(AutosavingStoredItem::<Counter>::new(&store).is_err());
}

// the encoding of a pair is that of its parts, one after the other
#[test]
fn autosaving_tuple_items() {
    let mut store = GlobalStorage::new();
    let mut item =
        AutosavingSerializableItem::<(u16, u16)>::new_or_default(&store, b"testing2".to_vec()).unwrap();

    *item.as_mut() = (69, 420);
    item.save(&mut store).unwrap();

    assert_eq!(
        Some((69, 420)),
        storage_read_item::<(u16, u16)>(&store, b"testing2").unwrap().map(|cell| cell.into_inner())
    );
    assert_eq!(storage_read(&store, b"testing2"), Some(vec![69, 0, 164, 1]));

    storage_remove(&mut store, b"testing2");
    assert_eq!(None, storage_read_item::<(u16, u16)>(&store, b"testing2").unwrap());
}

#[test]
fn stored_item_under_a_given_key() {
    let mut store = GlobalStorage::new();
    assert_eq!(Counter::load_from_key(&store, b"elsewhere"), Ok(None));
    Counter(3).save_to_key(&mut store, b"elsewhere").unwrap();
    assert_eq!(storage_read(&store, b"elsewhere"), Some(vec![3]));
    assert_eq!(Counter::load_from_key(&store, b"elsewhere"), Ok(Some(Counter(3))));
    assert_eq!(Counter::load(&store).unwrap(), None);
}
