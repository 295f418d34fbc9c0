use rust_prelude_plus::collections::{
    create_keypath_comparator, create_keypath_equality, create_keypath_hasher,
};
use rust_prelude_plus::engine::goes_on;
use rust_prelude_plus::error::KeyPathError;
use rust_prelude_plus::examples::sample::create_large_dataset;
use rust_prelude_plus::keypath::{Identity, KeyPath};
use rust_prelude_plus::specialized::btree_map::KeyPathsBTreeMapExt;
use rust_prelude_plus::specialized::hash_map::KeyPathsHashMapExt;
use std::cmp::Ordering;
use std::collections::{BTreeMap, HashMap};

#[derive(Debug, Clone, PartialEq)]
struct Item {
    label: String,
    weight: Option<u32>,
}

struct Label;

impl KeyPath<Item, String> for Label {
    fn read(&self, data: Item) -> Option<String> {
        Some(data.label)
    }

    fn get<'a>(&'a self, data: &'a Item) -> Option<&'a String> {
        Some(&data.label)
    }
}

/// Reaches the weight, which an item may not have.
struct Weight;

impl KeyPath<Item, u32> for Weight {
    fn read(&self, data: Item) -> Option<u32> {
        data.weight
    }

    fn get<'a>(&'a self, data: &'a Item) -> Option<&'a u32> {
        data.weight.as_ref()
    }
}

fn item(label: &str, weight: Option<u32>) -> Item {
    Item { label: label.to_string(), weight }
}

fn access_failed() -> KeyPathError {
    KeyPathError::InvalidAccess { message: "KeyPath access failed".to_string() }
}

fn stock() -> Vec<(u32, Item)> {
    vec![(1, item("nut", Some(3))), (2, item("bolt", Some(8))), (3, item("gear", Some(40)))]
}

#[test]
fn hash_map_values_are_mapped_under_their_keys() {
    let map: HashMap<u32, Item> = stock().into_iter().collect();
    let lengths = map.map_values_keypath(Label, |l: &String| l.len()).unwrap();
    assert_eq!(lengths, HashMap::from([(1, 3), (2, 4), (3, 4)]));
    let doubled = map.map_values_keypath(Weight, |w: &u32| *w * 2).unwrap();
    assert_eq!(doubled, HashMap::from([(1, 6), (2, 16), (3, 80)]));
    let empty: HashMap<u32, Item> = HashMap::new();
    assert_eq!(empty.map_values_keypath(Weight, |w: &u32| *w), Ok(HashMap::new()));
    assert_eq!(map, stock().into_iter().collect());
}

#[test]
fn hash_map_values_are_filtered() {
    let map: HashMap<u32, Item> = stock().into_iter().collect();
    let heavy = map.filter_values_keypath(Weight, |w: &u32| *w > 5).unwrap();
    assert_eq!(
        heavy,
        HashMap::from([(2, item("bolt", Some(8))), (3, item("gear", Some(40)))])
    );
    assert_eq!(map.filter_values_keypath(Weight, |w: &u32| *w > 500), Ok(HashMap::new()));
    assert_eq!(map.filter_values_keypath(Label, |_: &String| true), Ok(map.clone()));
}

#[test]
fn hash_map_value_without_its_field_fails_the_call() {
    let mut map: HashMap<u32, Item> = stock().into_iter().collect();
    map.insert(9, item("ghost", None));
    assert_eq!(map.map_values_keypath(Weight, |w: &u32| *w), Err(access_failed()));
    assert_eq!(map.filter_values_keypath(Weight, |_: &u32| false), Err(access_failed()));
    assert!(map.map_values_keypath(Label, |l: &String| l.len()).is_ok());
}

#[test]
fn btree_map_values_are_mapped_and_filtered() {
    let map: BTreeMap<u32, Item> = stock().into_iter().collect();
    let lengths = map.map_values_keypath(Label, |l: &String| l.len()).unwrap();
    assert_eq!(lengths, BTreeMap::from([(1, 3), (2, 4), (3, 4)]));
    let light = map.filter_values_keypath(Weight, |w: &u32| *w < 10).unwrap();
    assert_eq!(light, BTreeMap::from([(1, item("nut", Some(3))), (2, item("bolt", Some(8)))]));
    let empty: BTreeMap<u32, Item> = BTreeMap::new();
    assert_eq!(empty.filter_values_keypath(Weight, |_: &u32| true), Ok(BTreeMap::new()));
    let mut holed = map.clone();
    holed.insert(0, item("ghost", None));
    assert_eq!(holed.map_values_keypath(Weight, |w: &u32| *w), Err(access_failed()));
    assert_eq!(holed.filter_values_keypath(Weight, |_: &u32| true), Err(access_failed()));
}

#[test]
fn comparisons_hashes_and_tests_by_field() {
    let by_weight = create_keypath_comparator(Weight, |a: &u32, b: &u32| a.cmp(b));
    assert_eq!(by_weight(&item("a", Some(1)), &item("b", Some(2))), Ok(Ordering::Less));
    assert_eq!(by_weight(&item("a", Some(2)), &item("b", Some(2))), Ok(Ordering::Equal));
    assert_eq!(by_weight(&item("a", Some(3)), &item("b", Some(2))), Ok(Ordering::Greater));
    assert_eq!(by_weight(&item("a", None), &item("b", Some(2))), Err(access_failed()));
    assert_eq!(by_weight(&item("a", Some(3)), &item("b", None)), Err(access_failed()));
    let hash = create_keypath_hasher(Weight, |w: &u32| u64::from(*w) * 31);
    assert_eq!(hash(&item("a", Some(2))), Ok(62));
    assert_eq!(hash(&item("a", None)), Err(access_failed()));
    let same_label = create_keypath_equality(Label, |a: &String, b: &String| a == b);
    assert_eq!(same_label(&item("a", None), &item("a", Some(1))), Ok(true));
    assert_eq!(same_label(&item("a", None), &item("b", None)), Ok(false));
    let same_weight = create_keypath_equality(Weight, |a: &u32, b: &u32| a == b);
    assert_eq!(same_weight(&item("a", None), &item("a", Some(1))), Err(access_failed()));
    let same = create_keypath_equality(Identity, |a: &u32, b: &u32| a == b);
    assert_eq!(same(&4, &4), Ok(true));
}

#[test]
fn a_scan_goes_on_while_the_verdict_is_the_passing_one() {
    assert!(goes_on(Some(false), false));
    assert!(!goes_on(Some(true), false));
    assert!(!goes_on(None, false));
    assert!(goes_on(Some(true), true));
    assert!(!goes_on(Some(false), true));
    assert!(!goes_on(None, true));
}

#[test]
fn a_large_data_set_follows_its_pattern() {
    assert!(create_large_dataset(0).is_empty());
    let people = create_large_dataset(123);
    assert_eq!(people.len(), 123);
    let first = &people[0];
    assert_eq!(first.name, "Person 0");
    assert_eq!(first.age, 20);
    assert_eq!(first.address.city, "City 0");
    assert_eq!(first.address.country, "USA");
    assert_eq!(first.skills, vec!["Rust", "Python"]);
    let job = first.employment.as_ref().unwrap();
    assert_eq!(job.company, "Company 0");
    assert_eq!(job.position, "Engineer");
    assert_eq!(job.salary, 50000);
    assert_eq!(job.department.name, "Engineering");
    assert_eq!(job.department.budget, 1000000);
    assert_eq!(job.department.manager, None);
    let later = &people[117];
    assert_eq!(later.name, "Person 117");
    assert_eq!(later.age, 20 + 17);
    assert_eq!(later.address.city, "City 7");
    assert_eq!(later.address.country, "UK");
    let job = later.employment.as_ref().unwrap();
    assert_eq!(job.company, "Company 2");
    assert_eq!(job.salary, 50000 + 117 * 1000);
}
