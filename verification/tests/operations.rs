use rust_prelude_plus::collections::KeyPathsCollectionExt;
use rust_prelude_plus::composable::{
    chain_keypath_ops, combine_keypath_operations, create_keypath_operation,
    create_keypath_predicate, pipe, unless_keypath, when_keypath,
};
use rust_prelude_plus::engine::{
    apply_one, copy_one, first_other, gather, ran_through, select, take_found, tally,
};
use rust_prelude_plus::error::{
    decimal, validate_collection_operation, validate_keypath_access, IntoKeyPathError,
    KeyPathError,
};
use rust_prelude_plus::higher_order::{
    filter_by_keypath, find_by_keypath, fold_keypath, group_by_keypath, map_keypath,
    map_keypath_collection, partition_by_keypath, sort_by_keypath, zip_with_keypath,
};
use rust_prelude_plus::incremental::{
    all_by_steps, any_by_steps, collect_by_steps, count_by_steps, filter_by_steps, find_by_steps,
    map_by_steps, outcomes_by_steps, verdicts_while,
};
use rust_prelude_plus::keypath::{compose, set_field, Identity, KeyPath, WritableKeyPath};
use rust_prelude_plus::parallel::{
    create_keypath_thread_pool, execute_on_pool, filter_on_pool, par_all_by_keypath,
    par_any_by_keypath, par_collect_keypath, par_count_by_keypath, par_filter_by_keypath,
    par_find_by_keypath, par_map_keypath,
};
use rust_prelude_plus::parallel::{copies_on_pool, outcomes_on_pool, pool_or_error};
use rust_prelude_plus::strategy::{
    all_with, any_with, collect_with, count_with, filter_with, find_with, map_with,
    ExecutionStrategy,
};
use rust_prelude_plus::traits::{KeyPathsCollection, KeyPathsOperable};

#[derive(Debug, Clone, PartialEq)]
struct Job {
    title: String,
    salary: u32,
}

#[derive(Debug, Clone, PartialEq)]
struct Member {
    name: String,
    age: u32,
    job: Option<Job>,
}

struct Name;

impl KeyPath<Member, String> for Name {
    fn read(&self, data: Member) -> Option<String> {
        Some(data.name)
    }

    fn get<'a>(&'a self, data: &'a Member) -> Option<&'a String> {
        Some(&data.name)
    }
}

struct Age;

impl KeyPath<Member, u32> for Age {
    fn read(&self, data: Member) -> Option<u32> {
        Some(data.age)
    }

    fn get<'a>(&'a self, data: &'a Member) -> Option<&'a u32> {
        Some(&data.age)
    }
}

impl WritableKeyPath<Member, u32> for Age {
    fn write(&self, data: Member, value: u32) -> Member {
        Member { age: value, ..data }
    }

    fn get_mut<'a>(&'a self, data: &'a mut Member) -> Option<&'a mut u32> {
        Some(&mut data.age)
    }

    fn write_back_law(&self, _data: Member) {}

    fn read_written_law(&self, _data: Member, _value: u32) {}
}

/// Reaches the job, which a member may not have.
struct JobOf;

impl KeyPath<Member, Job> for JobOf {
    fn read(&self, data: Member) -> Option<Job> {
        data.job
    }

    fn get<'a>(&'a self, data: &'a Member) -> Option<&'a Job> {
        data.job.as_ref()
    }
}

impl WritableKeyPath<Member, Job> for JobOf {
    fn write(&self, data: Member, value: Job) -> Member {
        match data.job {
            Some(_) => Member { job: Some(value), ..data },
            None => data,
        }
    }

    fn get_mut<'a>(&'a self, data: &'a mut Member) -> Option<&'a mut Job> {
        data.job.as_mut()
    }

    fn write_back_law(&self, _data: Member) {}

    fn read_written_law(&self, _data: Member, _value: Job) {}
}

struct Salary;

impl KeyPath<Job, u32> for Salary {
    fn read(&self, data: Job) -> Option<u32> {
        Some(data.salary)
    }

    fn get<'a>(&'a self, data: &'a Job) -> Option<&'a u32> {
        Some(&data.salary)
    }
}

impl WritableKeyPath<Job, u32> for Salary {
    fn write(&self, data: Job, value: u32) -> Job {
        Job { salary: value, ..data }
    }

    fn get_mut<'a>(&'a self, data: &'a mut Job) -> Option<&'a mut u32> {
        Some(&mut data.salary)
    }

    fn write_back_law(&self, _data: Job) {}

    fn read_written_law(&self, _data: Job, _value: u32) {}
}

struct Title;

impl KeyPath<Job, String> for Title {
    fn read(&self, data: Job) -> Option<String> {
        Some(data.title)
    }

    fn get<'a>(&'a self, data: &'a Job) -> Option<&'a String> {
        Some(&data.title)
    }
}

fn member(name: &str, age: u32, job: Option<(&str, u32)>) -> Member {
    Member {
        name: name.to_string(),
        age,
        job: job.map(|(title, salary)| Job { title: title.to_string(), salary }),
    }
}

fn team() -> Vec<Member> {
    vec![
        member("Alice", 30, Some(("Engineer", 120))),
        member("Bob", 25, Some(("Manager", 150))),
        member("Charlie", 35, Some(("Analyst", 80))),
    ]
}

fn team_with_gap() -> Vec<Member> {
    vec![
        member("Alice", 30, Some(("Engineer", 120))),
        member("Eve", 25, None),
        member("Charlie", 35, Some(("Analyst", 80))),
    ]
}

fn access_failed() -> KeyPathError {
    KeyPathError::InvalidAccess { message: "KeyPath access failed".to_string() }
}

fn names(members: &[Member]) -> Vec<&str> {
    members.iter().map(|m| m.name.as_str()).collect()
}

// Accessors and their composition.

#[test]
fn identity_reads_the_root() {
    let alice = member("Alice", 30, None);
    assert_eq!(Identity.get(&alice), Some(&alice));
}

#[test]
fn composing_with_identity_reads_what_the_accessor_reads() {
    for m in team_with_gap() {
        assert_eq!(compose(JobOf, Identity).get(&m), JobOf.get(&m));
        assert_eq!(compose(Identity, JobOf).get(&m), JobOf.get(&m));
        assert_eq!(compose(Age, Identity).get(&m), Some(&m.age));
    }
}

#[test]
fn composition_is_associative_on_present_and_absent_values() {
    for m in team_with_gap() {
        let left = compose(compose(Identity, JobOf), Salary);
        let right = compose(Identity, compose(JobOf, Salary));
        assert_eq!(left.get(&m), right.get(&m));
        assert_eq!(left.get(&m), m.job.as_ref().map(|j| &j.salary));
    }
}

#[test]
fn composed_read_is_absent_where_a_step_is_absent() {
    let eve = member("Eve", 25, None);
    assert_eq!(compose(JobOf, Salary).get(&eve), None);
    let alice = member("Alice", 30, Some(("Engineer", 120)));
    assert_eq!(compose(JobOf, Salary).get(&alice), Some(&120));
}

#[test]
fn writing_through_a_composite_reaches_the_field() {
    let mut alice = member("Alice", 30, Some(("Engineer", 120)));
    let path = compose(JobOf, Salary);
    *path.get_mut(&mut alice).unwrap() = 130;
    assert_eq!(path.get(&alice), Some(&130));
    assert_eq!(alice.name, "Alice");
    let mut eve = member("Eve", 25, None);
    assert!(path.get_mut(&mut eve).is_none());
    assert_eq!(eve, member("Eve", 25, None));
    *Identity.get_mut(&mut alice.age).unwrap() = 31;
    assert_eq!(alice.age, 31);
}

#[test]
fn set_field_writes_where_the_field_is() {
    let mut alice = member("Alice", 30, Some(("Engineer", 120)));
    assert!(set_field(&compose(JobOf, Salary), &mut alice, 125));
    assert_eq!(alice, member("Alice", 30, Some(("Engineer", 125))));
    assert!(set_field(&Age, &mut alice, 31));
    assert_eq!(alice.age, 31);
    let mut eve = member("Eve", 25, None);
    assert!(!set_field(&compose(JobOf, Salary), &mut eve, 5));
    assert_eq!(eve, member("Eve", 25, None));
    let mut n = 1u32;
    assert!(set_field(&Identity, &mut n, 2));
    assert_eq!(n, 2);
}

// The three-person scenario.

fn three() -> Vec<Member> {
    vec![member("Alice", 30, None), member("Bob", 25, None), member("Charlie", 35, None)]
}

#[test]
fn scenario_filter_fold_sort_group() {
    let young = filter_by_keypath(three(), Age, |age: &u32| *age < 30).unwrap();
    assert_eq!(names(&young), vec!["Bob"]);

    let total = fold_keypath(three(), Age, 0u32, |acc, age: &u32| acc + *age).unwrap();
    assert_eq!(total, 90);

    let mut sorted = three();
    sort_by_keypath(&mut sorted, Age, |a: &u32, b: &u32| a.cmp(b)).unwrap();
    assert_eq!(names(&sorted), vec!["Bob", "Alice", "Charlie"]);
    assert_eq!(sorted.iter().map(|m| m.age).collect::<Vec<_>>(), vec![25, 30, 35]);

    let people = three();
    let groups =
        group_by_keypath(&people, Age, |age: &u32| if *age < 30 { "young" } else { "adult" })
            .unwrap();
    assert_eq!(groups.len(), 2);
    assert_eq!(names(&groups["young"]), vec!["Bob"]);
    assert_eq!(names(&groups["adult"]), vec!["Alice", "Charlie"]);
}

#[test]
fn scenario_zip_concatenates_names_by_index() {
    let left = vec![member("A", 1, None), member("B", 2, None)];
    let right = vec![member("C", 3, None), member("D", 4, None)];
    let joined =
        zip_with_keypath(&left, &right, Name, Name, |a: &String, b: &String| format!("{}&{}", a, b))
            .unwrap();
    assert_eq!(joined, vec!["A&C", "B&D"]);
    let joined = left
        .zip_with_keypath(&right, Name, Name, |a: &String, b: &String| format!("{}&{}", a, b))
        .unwrap();
    assert_eq!(joined, vec!["A&C", "B&D"]);
}

// Length laws.

#[test]
fn length_laws_hold() {
    let people = team();
    let mapped = map_keypath_collection(&people, Age, |age: &u32| *age + 1).unwrap();
    assert_eq!(mapped.len(), people.len());
    assert_eq!(mapped, vec![31, 26, 36]);
    let kept = filter_by_keypath(team(), Age, |age: &u32| *age > 26).unwrap();
    assert!(kept.len() <= people.len());
    let (yes, no) = partition_by_keypath(team(), Age, |age: &u32| *age > 26).unwrap();
    assert_eq!(yes.len() + no.len(), people.len());
    assert_eq!(names(&yes), vec!["Alice", "Charlie"]);
    assert_eq!(names(&no), vec!["Bob"]);
    let short = vec![member("Zed", 1, None)];
    let zipped = zip_with_keypath(&people, &short, Age, Age, |a: &u32, b: &u32| a + b).unwrap();
    assert_eq!(zipped.len(), 1);
    assert_eq!(zipped, vec![31]);
    let zipped = zip_with_keypath(&short, &people, Age, Age, |a: &u32, b: &u32| a + b).unwrap();
    assert_eq!(zipped, vec![31]);
}

// Failure on an absent field.

#[test]
fn an_absent_field_fails_the_whole_call() {
    let salary = || compose(JobOf, Salary);
    assert_eq!(map_keypath(member("Eve", 25, None), salary(), |s: &u32| *s), Err(access_failed()));
    assert_eq!(map_keypath(member("Al", 25, Some(("X", 7))), salary(), |s: &u32| *s + 1), Ok(8));
    let people = team_with_gap();
    assert_eq!(map_keypath_collection(&people, salary(), |s: &u32| *s), Err(access_failed()));
    assert_eq!(filter_by_keypath(team_with_gap(), salary(), |_: &u32| true), Err(access_failed()));
    assert_eq!(
        fold_keypath(team_with_gap(), salary(), 0u32, |a, s: &u32| a + *s),
        Err(access_failed())
    );
    assert_eq!(
        partition_by_keypath(team_with_gap(), salary(), |_: &u32| true),
        Err(access_failed())
    );
    assert!(matches!(group_by_keypath(&people, salary(), |s: &u32| *s), Err(_)));
    assert_eq!(people.collect_keypath(salary()), Err(access_failed()));
    assert_eq!(people.count_by_keypath(salary(), |_: &u32| true), Err(access_failed()));
    assert_eq!(
        zip_with_keypath(&people, &people, salary(), Age, |a: &u32, b: &u32| a + b),
        Err(access_failed())
    );
    assert_eq!(
        zip_with_keypath(&people, &people, Age, salary(), |a: &u32, b: &u32| a + b),
        Err(access_failed())
    );
    // Only the first min(len) items are read.
    let first = vec![member("Alice", 30, Some(("Engineer", 120)))];
    assert_eq!(
        zip_with_keypath(&first, &people, Age, salary(), |a: &u32, b: &u32| a + b),
        Ok(vec![150])
    );
}

#[test]
fn sort_with_an_absent_field_leaves_the_collection_alone() {
    let mut people = team_with_gap();
    let result = sort_by_keypath(&mut people, compose(JobOf, Salary), |a: &u32, b: &u32| a.cmp(b));
    assert_eq!(result, Err(access_failed()));
    assert_eq!(people, team_with_gap());
}

#[test]
fn find_stops_at_the_first_match() {
    let salary = || compose(JobOf, Salary);
    // Alice matches before Eve's absent field is reached.
    let found = find_by_keypath(team_with_gap(), salary(), |s: &u32| *s == 120).unwrap();
    assert_eq!(found.unwrap().name, "Alice");
    // Eve stands before Charlie.
    assert_eq!(
        find_by_keypath(team_with_gap(), salary(), |s: &u32| *s == 80),
        Err(access_failed())
    );
    assert_eq!(find_by_keypath(team(), salary(), |s: &u32| *s == 1), Ok(None));
    let first_of_two = find_by_keypath(team(), Age, |a: &u32| *a > 20).unwrap();
    assert_eq!(first_of_two.unwrap().name, "Alice");
    let people = team_with_gap();
    assert_eq!(
        people.find_by_keypath(salary(), |s: &u32| *s == 120).unwrap().map(|m| m.name.as_str()),
        Some("Alice")
    );
    assert_eq!(people.find_by_keypath(salary(), |s: &u32| *s == 80), Err(access_failed()));
    assert_eq!(people.any_by_keypath(salary(), |s: &u32| *s == 120), Ok(true));
    assert_eq!(people.any_by_keypath(salary(), |s: &u32| *s == 80), Err(access_failed()));
    assert_eq!(people.all_by_keypath(salary(), |s: &u32| *s != 120), Ok(false));
    assert_eq!(people.all_by_keypath(salary(), |s: &u32| *s == 120), Err(access_failed()));
    assert_eq!(team().any_by_keypath(Age, |a: &u32| *a > 100), Ok(false));
    assert_eq!(team().all_by_keypath(Age, |a: &u32| *a > 20), Ok(true));
    assert_eq!(team().count_by_keypath(Age, |a: &u32| *a >= 30), Ok(2));
}

// Sorting.

#[test]
fn sort_is_stable_and_idempotent() {
    let mut people = vec![
        member("a", 2, None),
        member("b", 1, None),
        member("c", 2, None),
        member("d", 1, None),
        member("e", 0, None),
        member("f", 2, None),
    ];
    sort_by_keypath(&mut people, Age, |a: &u32, b: &u32| a.cmp(b)).unwrap();
    assert_eq!(names(&people), vec!["e", "b", "d", "a", "c", "f"]);
    let once = people.clone();
    sort_by_keypath(&mut people, Age, |a: &u32, b: &u32| a.cmp(b)).unwrap();
    assert_eq!(people, once);
    KeyPathsCollectionExt::sort_by_keypath(&mut people, Age, |a: &u32, b: &u32| b.cmp(a)).unwrap();
    assert_eq!(names(&people), vec!["a", "c", "f", "b", "d", "e"]);
    KeyPathsCollection::sort_by_keypath(&mut people, Name, |a: &String, b: &String| a.cmp(b))
        .unwrap();
    assert_eq!(names(&people), vec!["a", "b", "c", "d", "e", "f"]);
    let mut empty: Vec<Member> = vec![];
    assert_eq!(sort_by_keypath(&mut empty, Age, |a: &u32, b: &u32| a.cmp(b)), Ok(()));
}

#[test]
fn sort_agrees_with_a_stable_sort_on_many_items() {
    let mut seed: u32 = 12345;
    let mut next = || {
        seed = seed.wrapping_mul(1664525).wrapping_add(1013904223);
        (seed >> 16) % 50
    };
    for len in [0usize, 1, 2, 3, 7, 64, 1000, 4097] {
        let people: Vec<Member> =
            (0..len).map(|i| member(&format!("m{}", i), next(), None)).collect();
        let mut expected = people.clone();
        expected.sort_by(|a, b| a.age.cmp(&b.age));
        let mut sorted = people.clone();
        sort_by_keypath(&mut sorted, Age, |a: &u32, b: &u32| a.cmp(b)).unwrap();
        assert_eq!(sorted, expected);
        let mut expected = people.clone();
        expected.sort_by(|a, b| b.age.cmp(&a.age));
        let mut sorted = people;
        sort_by_keypath(&mut sorted, Age, |a: &u32, b: &u32| b.cmp(a)).unwrap();
        assert_eq!(sorted, expected);
    }
}

// Windows.

#[test]
fn window_boundaries_are_refused() {
    let people = team();
    let sum = |w: &[u32]| w.iter().sum::<u32>();
    assert_eq!(
        people.window_by_keypath(Age, 0, sum),
        Err(KeyPathError::CollectionError { message: "Invalid window size: 0".to_string() })
    );
    assert_eq!(
        people.window_by_keypath(Age, 4, sum),
        Err(KeyPathError::CollectionError { message: "Invalid window size: 4".to_string() })
    );
    assert_eq!(
        people.rolling_by_keypath(Age, 0, sum),
        Err(KeyPathError::CollectionError {
            message: "Window size must be greater than 0".to_string()
        })
    );
    let empty: Vec<Member> = vec![];
    assert_eq!(
        empty.window_by_keypath(Age, 1, sum),
        Err(KeyPathError::CollectionError { message: "Invalid window size: 1".to_string() })
    );
    assert_eq!(empty.rolling_by_keypath(Age, 1, sum), Ok(vec![]));
    // A window that cannot be is refused before any field is read.
    assert_eq!(
        team_with_gap().window_by_keypath(compose(JobOf, Salary), 0, sum),
        Err(KeyPathError::CollectionError { message: "Invalid window size: 0".to_string() })
    );
}

#[test]
fn windows_slide_by_one() {
    let people = team();
    let sum = |w: &[u32]| w.iter().sum::<u32>();
    assert_eq!(people.window_by_keypath(Age, 1, sum), Ok(vec![30, 25, 35]));
    assert_eq!(people.window_by_keypath(Age, 2, sum), Ok(vec![55, 60]));
    assert_eq!(people.window_by_keypath(Age, 3, sum), Ok(vec![90]));
    assert_eq!(people.rolling_by_keypath(Age, 1, sum), Ok(vec![30, 25, 35]));
    assert_eq!(people.rolling_by_keypath(Age, 2, sum), Ok(vec![55, 60]));
    assert_eq!(people.rolling_by_keypath(Age, 3, sum), Ok(vec![90]));
    assert_eq!(people.rolling_by_keypath(Age, 4, sum), Ok(vec![]));
    let ages = vec![30u32, 35, 28, 32, 25];
    assert_eq!(ages.rolling_by_keypath(Identity, 2, sum), Ok(vec![65, 63, 60, 57]));
    let joined = |w: &[String]| w.join("+");
    assert_eq!(
        people.window_by_keypath(Name, 2, joined),
        Ok(vec!["Alice+Bob".to_string(), "Bob+Charlie".to_string()])
    );
    let gap = team_with_gap();
    assert_eq!(gap.window_by_keypath(compose(JobOf, Salary), 1, sum), Err(access_failed()));
    assert_eq!(gap.rolling_by_keypath(compose(JobOf, Salary), 3, sum), Err(access_failed()));
}

// The borrowed collection.

#[test]
fn borrowed_operations_leave_the_collection_alone() {
    let people = team();
    assert_eq!(people.collect_keypath(Name).unwrap(), vec!["Alice", "Bob", "Charlie"]);
    let (young, old) =
        KeyPathsCollectionExt::partition_by_keypath(&people, Age, |a: &u32| *a < 30).unwrap();
    assert_eq!(names(&young), vec!["Bob"]);
    assert_eq!(names(&old), vec!["Alice", "Charlie"]);
    let (young, old) =
        KeyPathsCollection::partition_by_keypath(&people, Age, |a: &u32| *a < 30).unwrap();
    assert_eq!((young.len(), old.len()), (1, 2));
    let tens = KeyPathsCollectionExt::group_by_keypath(&people, Age, |a: &u32| *a / 10).unwrap();
    assert_eq!(names(&tens[&3]), vec!["Alice", "Charlie"]);
    assert_eq!(names(&tens[&2]), vec!["Bob"]);
    let tens = KeyPathsCollection::group_by_keypath(&people, Age, |a: &u32| *a / 10).unwrap();
    assert_eq!(tens.len(), 2);
    assert_eq!(people, team());
}

#[test]
fn unique_and_distinct_values() {
    let people = vec![
        member("a", 2, None),
        member("b", 1, None),
        member("c", 2, None),
        member("d", 2, None),
    ];
    let unique = people.unique_by_keypath(Age).unwrap();
    assert_eq!(unique.len(), 2);
    assert!(unique.contains(&1) && unique.contains(&2));
    let counts = people.distinct_by_keypath(Age).unwrap();
    assert_eq!(counts.len(), 2);
    assert_eq!(counts[&2], 3);
    assert_eq!(counts[&1], 1);
    assert!(team_with_gap().unique_by_keypath(compose(JobOf, Salary)).is_err());
    assert!(team_with_gap().distinct_by_keypath(compose(JobOf, Salary)).is_err());
}

#[test]
fn access_as_a_method() {
    let alice = member("Alice", 30, Some(("Engineer", 120)));
    assert_eq!(alice.get_at_keypath(&Age), Ok(&30));
    assert_eq!(alice.get_at_keypath(&compose(JobOf, Title)), Ok(&"Engineer".to_string()));
    let mut eve = member("Eve", 25, None);
    assert_eq!(eve.get_at_keypath(&compose(JobOf, Salary)), Err(access_failed()));
    assert_eq!(
        eve.set_at_keypath(Age, 26),
        Err(KeyPathError::InvalidAccess {
            message: "KeyPath mutation not supported in this context".to_string()
        })
    );
    assert_eq!(eve.age, 25);
}

// Composition helpers.

#[test]
fn pipe_applies_the_function() {
    assert_eq!(pipe(20, |x: u32| x + 1), 21);
    let kept = pipe(team(), |people| filter_by_keypath(people, Age, |a: &u32| *a < 30)).unwrap();
    assert_eq!(names(&kept), vec!["Bob"]);
}

#[test]
fn chain_runs_operations_in_turn() {
    let result = chain_keypath_ops(team())
        .filter_by_keypath(Age, |a: &u32| *a >= 30)
        .map_keypath(Name, |n: &String| n.to_uppercase())
        .collect();
    assert_eq!(result, Ok(vec!["ALICE".to_string(), "CHARLIE".to_string()]));
    let total = chain_keypath_ops(team()).skip(1).fold_keypath(Age, 0u32, |acc, a: &u32| acc + *a);
    assert_eq!(total, Ok(60));
    let ages = |c: Vec<Member>| c.iter().map(|m| m.age).collect::<Vec<_>>();
    assert_eq!(ages(chain_keypath_ops(team()).take(2).collect().unwrap()), vec![30, 25]);
    assert_eq!(ages(chain_keypath_ops(team()).take(0).collect().unwrap()), vec![]);
    assert_eq!(ages(chain_keypath_ops(team()).take(9).collect().unwrap()), vec![30, 25, 35]);
    assert_eq!(ages(chain_keypath_ops(team()).skip(2).collect().unwrap()), vec![35]);
    assert_eq!(ages(chain_keypath_ops(team()).skip(9).collect().unwrap()), vec![]);
    assert_eq!(ages(chain_keypath_ops(team()).rev().collect().unwrap()), vec![35, 25, 30]);
    assert_eq!(ages(chain_keypath_ops(team()).take(2).rev().skip(1).collect().unwrap()), vec![30]);
}

#[test]
fn chain_remembers_the_first_failure() {
    let failed = chain_keypath_ops(team_with_gap())
        .filter_by_keypath(compose(JobOf, Salary), |s: &u32| *s > 100)
        .map_keypath(Name, |n: &String| n.clone())
        .take(1)
        .rev()
        .skip(0)
        .collect();
    assert_eq!(failed, Err(access_failed()));
    let failed = chain_keypath_ops(team_with_gap())
        .map_keypath(compose(JobOf, Salary), |s: &u32| *s)
        .filter_by_keypath(Identity, |s: &u32| *s > 100)
        .fold_keypath(Identity, 0u32, |a, s: &u32| a + *s);
    assert_eq!(failed, Err(access_failed()));
    let fine = chain_keypath_ops(team())
        .map_keypath(compose(JobOf, Salary), |s: &u32| *s)
        .filter_by_keypath(Identity, |s: &u32| *s > 100)
        .fold_keypath(Identity, 0u32, |a, s: &u32| a + *s);
    assert_eq!(fine, Ok(270));
}

#[test]
fn when_applies_from_the_first_match() {
    let shout = |rest: Vec<Member>| rest.into_iter().map(|m| m.name.to_uppercase()).collect();
    assert_eq!(
        when_keypath(team(), Age, |a: &u32| *a < 30, shout),
        Ok(vec!["BOB".to_string(), "CHARLIE".to_string()])
    );
    assert_eq!(when_keypath(team(), Age, |a: &u32| *a > 90, shout), Ok(vec![]));
    assert_eq!(
        unless_keypath(team(), Age, |a: &u32| *a < 35, shout),
        Ok(vec!["CHARLIE".to_string()])
    );
    assert_eq!(unless_keypath(team(), Age, |a: &u32| *a < 90, shout), Ok(vec![]));
    let salary = || compose(JobOf, Salary);
    assert_eq!(
        when_keypath(team_with_gap(), salary(), |s: &u32| *s == 120, shout),
        Ok(vec!["ALICE".to_string(), "EVE".to_string(), "CHARLIE".to_string()])
    );
    assert_eq!(
        when_keypath(team_with_gap(), salary(), |s: &u32| *s == 80, shout),
        Err(access_failed())
    );
    assert_eq!(
        unless_keypath(team_with_gap(), salary(), |s: &u32| *s == 120, shout),
        Err(access_failed())
    );
}

#[test]
fn reusable_operations() {
    let length = create_keypath_operation(Name, |n: &String| n.len());
    assert_eq!(length(member("Alice", 30, None)), Ok(5));
    assert_eq!(length(member("Bo", 30, None)), Ok(2));
    let paid = create_keypath_operation(compose(JobOf, Salary), |s: &u32| *s);
    assert_eq!(paid(member("Eve", 25, None)), Err(access_failed()));
    let adult = create_keypath_predicate(Age, |a: &u32| *a >= 18);
    assert_eq!(adult(&member("Al", 30, None)), Ok(true));
    assert_eq!(adult(&member("Bo", 3, None)), Ok(false));
    let rich = create_keypath_predicate(compose(JobOf, Salary), |s: &u32| *s > 100);
    assert_eq!(rich(&member("Eve", 25, None)), Err(access_failed()));
    let both = combine_keypath_operations(
        Name,
        |n: &String| n.len(),
        compose(JobOf, Salary),
        |s: &u32| *s * 2,
    );
    assert_eq!(both(member("Alice", 30, Some(("Engineer", 120)))), Ok((5, 240)));
    assert_eq!(both(member("Eve", 25, None)), Err(access_failed()));
}

// Errors.

#[test]
fn errors_describe_themselves() {
    let text = |e: KeyPathError| e.describe();
    assert_eq!(
        text(KeyPathError::InvalidAccess { message: "m".to_string() }),
        "Invalid keypath access: m"
    );
    assert_eq!(
        text(KeyPathError::TypeMismatch { expected: "a".to_string(), found: "b".to_string() }),
        "Type mismatch: expected a, found b"
    );
    assert_eq!(
        text(KeyPathError::RuntimeFailure { message: "m".to_string() }),
        "Runtime failure: m"
    );
    assert_eq!(
        text(KeyPathError::CollectionError { message: "m".to_string() }),
        "Collection operation failed: m"
    );
    assert_eq!(
        text(KeyPathError::AsyncError { message: "m".to_string() }),
        "Async operation failed: m"
    );
    assert_eq!(
        text(KeyPathError::ParallelError { message: "m".to_string() }),
        "Parallel operation failed: m"
    );
    assert_eq!(access_failed().describe(), "Invalid keypath access: KeyPath access failed");
}

#[test]
fn validation() {
    assert_eq!(validate_keypath_access(&5), Ok(()));
    assert_eq!(validate_collection_operation(&[1, 2]), Ok(()));
    let none: [u32; 0] = [];
    assert_eq!(
        validate_collection_operation(&none),
        Err(KeyPathError::CollectionError { message: "Collection is empty".to_string() })
    );
}

#[test]
fn foreign_errors_become_runtime_failures() {
    let parse = "x".parse::<u32>().unwrap_err();
    let text = parse.to_string();
    assert_eq!(parse.into_keypath_error(), KeyPathError::RuntimeFailure { message: text });
}

#[test]
fn decimal_digits() {
    assert_eq!(decimal(0), "0");
    assert_eq!(decimal(7), "7");
    assert_eq!(decimal(10), "10");
    assert_eq!(decimal(409), "409");
    assert_eq!(decimal(1234567890), "1234567890");
    assert_eq!(decimal(usize::MAX), usize::MAX.to_string());
}

// The per-item half and the merges.

#[test]
fn per_item_outcomes_merge_into_the_sequential_result() {
    let salary = compose(JobOf, Salary);
    let double = |s: &u32| *s * 2;
    for people in [team(), team_with_gap(), vec![]] {
        let per_item: Vec<Option<u32>> =
            people.iter().map(|m| apply_one(m, &salary, &double)).collect();
        assert_eq!(gather(per_item), map_keypath_collection(&people, compose(JobOf, Salary), double));
        let copies: Vec<Option<u32>> = people.iter().map(|m| copy_one(m, &salary)).collect();
        assert_eq!(gather(copies), people.collect_keypath(compose(JobOf, Salary)));
        let big = |s: &u32| *s > 100;
        let verdicts: Vec<Option<bool>> =
            people.iter().map(|m| apply_one(m, &salary, &big)).collect();
        assert_eq!(
            select(people.clone(), &verdicts),
            filter_by_keypath(people.clone(), compose(JobOf, Salary), big)
        );
        assert_eq!(tally(&verdicts), people.count_by_keypath(compose(JobOf, Salary), big));
    }
}

#[test]
fn merges_on_plain_outcomes() {
    assert_eq!(gather(vec![Some(1), Some(2)]), Ok(vec![1, 2]));
    assert_eq!(gather(vec![Some(1), None, Some(2)]), Err(access_failed()));
    assert_eq!(gather::<u32>(vec![]), Ok(vec![]));
    assert_eq!(select(vec!['a', 'b', 'c'], &vec![Some(true), Some(false), Some(true)]), Ok(vec!['a', 'c']));
    assert_eq!(select(vec!['a', 'b'], &vec![Some(true), None]), Err(access_failed()));
    assert_eq!(tally(&vec![Some(true), Some(false), Some(true)]), Ok(2));
    assert_eq!(tally(&vec![None]), Err(access_failed()));
    assert_eq!(first_other(&vec![Some(false), Some(true), None], false), Ok(Some(1)));
    assert_eq!(first_other(&vec![Some(false), None, Some(true)], false), Err(access_failed()));
    assert_eq!(first_other(&vec![Some(false), Some(false)], false), Ok(None));
    assert_eq!(first_other(&vec![Some(true), Some(false), None], true), Ok(Some(1)));
    assert_eq!(first_other(&vec![], true), Ok(None));
}

#[test]
fn scans_on_plain_outcomes() {
    assert_eq!(take_found(vec!['a', 'b', 'c'], &vec![Some(false), Some(true), None]), Ok(Some('b')));
    assert_eq!(take_found(vec!['a', 'b', 'c'], &vec![Some(false), Some(true)]), Ok(Some('b')));
    assert_eq!(take_found(vec!['a', 'b'], &vec![Some(false), None]), Err(access_failed()));
    assert_eq!(take_found(vec!['a', 'b'], &vec![Some(false), Some(false)]), Ok(None));
    assert_eq!(take_found::<char>(vec![], &vec![]), Ok(None));
    assert_eq!(ran_through(&vec![Some(true), Some(true)], true), Ok(true));
    assert_eq!(ran_through(&vec![Some(true), Some(false), None], true), Ok(false));
    assert_eq!(ran_through(&vec![Some(true), None, Some(false)], true), Err(access_failed()));
    assert_eq!(ran_through(&vec![Some(false), Some(true)], false), Ok(false));
    assert_eq!(ran_through(&vec![], false), Ok(true));
}

// The choice of a strategy.

#[test]
fn every_strategy_gives_the_same_result() {
    let salary = || compose(JobOf, Salary);
    let big = |s: &u32| *s > 100;
    let double = |s: &u32| *s * 2;
    let many: Vec<Member> = (0..200u32)
        .map(|i| member(&format!("m{}", i), i % 70, Some(("x", (i * 37) % 211))))
        .collect();
    let mut holed = many.clone();
    holed[150].job = None;
    let strategies = [
        ExecutionStrategy::Sequential,
        ExecutionStrategy::Parallel(1),
        ExecutionStrategy::Parallel(3),
        ExecutionStrategy::Asynchronous,
    ];
    for people in [team(), team_with_gap(), vec![], many, holed] {
        for strategy in strategies {
            assert_eq!(
                map_with(strategy, people.clone(), salary(), double),
                map_keypath_collection(&people, salary(), double)
            );
            assert_eq!(
                filter_with(strategy, people.clone(), salary(), big),
                filter_by_keypath(people.clone(), salary(), big)
            );
            assert_eq!(
                find_with(strategy, people.clone(), salary(), big),
                find_by_keypath(people.clone(), salary(), big)
            );
            assert_eq!(
                collect_with(strategy, people.clone(), salary()),
                people.collect_keypath(salary())
            );
            assert_eq!(
                count_with(strategy, people.clone(), salary(), big),
                people.count_by_keypath(salary(), big)
            );
            assert_eq!(
                any_with(strategy, people.clone(), salary(), big),
                people.any_by_keypath(salary(), big)
            );
            assert_eq!(
                all_with(strategy, people.clone(), salary(), big),
                people.all_by_keypath(salary(), big)
            );
        }
    }
}

#[test]
fn a_parallel_strategy_without_workers_is_refused() {
    let refused = KeyPathError::ParallelError {
        message: "Failed to create thread pool: no threads requested".to_string(),
    };
    let none = ExecutionStrategy::Parallel(0);
    assert_eq!(map_with(none, team(), Age, |a: &u32| *a), Err(refused.clone()));
    assert_eq!(filter_with(none, team(), Age, |_: &u32| true), Err(refused.clone()));
    assert_eq!(find_with(none, team(), Age, |_: &u32| true), Err(refused.clone()));
    assert_eq!(collect_with(none, team(), Age), Err(refused.clone()));
    assert_eq!(count_with(none, team(), Age, |_: &u32| true), Err(refused.clone()));
    assert_eq!(any_with(none, team(), Age, |_: &u32| true), Err(refused.clone()));
    assert_eq!(all_with(none, team(), Age, |_: &u32| true), Err(refused.clone()));
    // The refusal comes before anything is read.
    assert_eq!(
        map_with(none, team_with_gap(), compose(JobOf, Salary), |s: &u32| *s),
        Err(refused)
    );
}

// The worker pool.

#[test]
fn strategies_agree() {
    let salary = || compose(JobOf, Salary);
    let big = |s: &u32| *s > 100;
    let double = |s: &u32| *s * 2;
    let many: Vec<Member> = (0..500u32)
        .map(|i| member(&format!("m{}", i), i % 70, Some(("x", (i * 37) % 211))))
        .collect();
    let mut holed = many.clone();
    holed[321].job = None;
    for people in [team(), team_with_gap(), vec![], many, holed] {
        assert_eq!(
            par_map_keypath(people.clone(), salary(), double),
            map_keypath_collection(&people, salary(), double)
        );
        assert_eq!(
            par_filter_by_keypath(people.clone(), salary(), big),
            filter_by_keypath(people.clone(), salary(), big)
        );
        assert_eq!(
            par_find_by_keypath(people.clone(), salary(), big),
            find_by_keypath(people.clone(), salary(), big)
        );
        assert_eq!(
            par_find_by_keypath(people.clone(), salary(), |s: &u32| *s == 80),
            find_by_keypath(people.clone(), salary(), |s: &u32| *s == 80)
        );
        assert_eq!(par_collect_keypath(people.clone(), salary()), people.collect_keypath(salary()));
        assert_eq!(
            par_count_by_keypath(people.clone(), salary(), big),
            people.count_by_keypath(salary(), big)
        );
        assert_eq!(
            par_any_by_keypath(people.clone(), salary(), big),
            people.any_by_keypath(salary(), big)
        );
        assert_eq!(
            par_all_by_keypath(people.clone(), salary(), big),
            people.all_by_keypath(salary(), big)
        );
        assert_eq!(
            par_all_by_keypath(people.clone(), Age, |a: &u32| *a < 1000),
            people.all_by_keypath(Age, |a: &u32| *a < 1000)
        );
        assert_eq!(
            map_by_steps(&people, salary(), double),
            map_keypath_collection(&people, salary(), double)
        );
        assert_eq!(
            filter_by_steps(people.clone(), salary(), big),
            filter_by_keypath(people.clone(), salary(), big)
        );
        assert_eq!(
            find_by_steps(people.clone(), salary(), big),
            find_by_keypath(people.clone(), salary(), big)
        );
        assert_eq!(
            find_by_steps(people.clone(), salary(), |s: &u32| *s == 80),
            find_by_keypath(people.clone(), salary(), |s: &u32| *s == 80)
        );
        assert_eq!(collect_by_steps(&people, salary()), people.collect_keypath(salary()));
        assert_eq!(
            count_by_steps(&people, salary(), big),
            people.count_by_keypath(salary(), big)
        );
        assert_eq!(any_by_steps(&people, salary(), big), people.any_by_keypath(salary(), big));
        assert_eq!(all_by_steps(&people, salary(), big), people.all_by_keypath(salary(), big));
        assert_eq!(
            all_by_steps(&people, Age, |a: &u32| *a < 1000),
            people.all_by_keypath(Age, |a: &u32| *a < 1000)
        );
    }
}

#[test]
fn a_scan_by_steps_asks_for_no_item_after_the_deciding_one() {
    let salary = compose(JobOf, Salary);
    let people = team_with_gap();
    let is_120 = |s: &u32| *s == 120;
    assert_eq!(verdicts_while(&people, &salary, &is_120, false), vec![Some(true)]);
    assert_eq!(verdicts_while(&people, &salary, &is_120, true), vec![Some(true), None]);
    let is_80 = |s: &u32| *s == 80;
    assert_eq!(verdicts_while(&people, &salary, &is_80, false), vec![Some(false), None]);
    assert_eq!(
        verdicts_while(&team(), &salary, &is_80, false),
        vec![Some(false), Some(false), Some(true)]
    );
    assert_eq!(verdicts_while(&team(), &salary, &is_120, true), vec![Some(true), Some(false)]);
    let none: Vec<Member> = vec![];
    assert_eq!(verdicts_while(&none, &salary, &is_80, false), vec![]);
    assert_eq!(
        outcomes_by_steps(&people, &salary, &is_120),
        vec![Some(true), None, Some(false)]
    );
    assert_eq!(find_by_steps(people.clone(), compose(JobOf, Salary), is_120).unwrap().unwrap().name, "Alice");
    assert_eq!(any_by_steps(&people, compose(JobOf, Salary), is_80), Err(access_failed()));
    assert_eq!(all_by_steps(&people, compose(JobOf, Salary), is_120), Err(access_failed()));
    assert_eq!(all_by_steps(&people, compose(JobOf, Salary), is_80), Ok(false));
}

#[test]
fn parallel_map_keeps_the_order_of_the_items() {
    let numbers: Vec<u32> = (0..10_000).collect();
    let doubled = par_map_keypath(numbers.clone(), Identity, |n: &u32| *n * 2).unwrap();
    assert_eq!(doubled, numbers.iter().map(|n| n * 2).collect::<Vec<_>>());
    let even = par_filter_by_keypath(numbers.clone(), Identity, |n: &u32| *n % 2 == 0).unwrap();
    assert_eq!(even, numbers.iter().copied().filter(|n| n % 2 == 0).collect::<Vec<_>>());
    assert_eq!(par_find_by_keypath(numbers.clone(), Identity, |n: &u32| *n % 7 == 6), Ok(Some(6)));
    assert_eq!(par_count_by_keypath(numbers, Identity, |n: &u32| *n % 4 == 0), Ok(2500));
}

#[test]
fn a_pool_runs_the_operations() {
    let pool = create_keypath_thread_pool(2).unwrap();
    assert_eq!(pool.current_num_threads(), 2);
    assert_eq!(
        execute_on_pool(&pool, team(), Name, |n: &String| n.to_lowercase()),
        Ok(vec!["alice".to_string(), "bob".to_string(), "charlie".to_string()])
    );
    assert_eq!(
        execute_on_pool(&pool, team_with_gap(), compose(JobOf, Salary), |s: &u32| *s),
        Err(access_failed())
    );
    let kept = filter_on_pool(&pool, team(), Age, |a: &u32| *a != 25).unwrap();
    assert_eq!(names(&kept), vec!["Alice", "Charlie"]);
    assert_eq!(
        filter_on_pool(&pool, team_with_gap(), compose(JobOf, Salary), |_: &u32| true),
        Err(access_failed())
    );
    let salary = compose(JobOf, Salary);
    assert_eq!(
        outcomes_on_pool(&pool, &team_with_gap(), &salary, &|s: &u32| *s + 1),
        vec![Some(121), None, Some(81)]
    );
    assert_eq!(copies_on_pool(&pool, &team_with_gap(), &salary), vec![Some(120), None, Some(80)]);
}

#[test]
fn a_refused_pool_comes_back_as_a_parallel_error() {
    let built = pool_or_error(rayon::ThreadPoolBuilder::new().num_threads(2).build());
    assert_eq!(built.unwrap().current_num_threads(), 2);
    // The global pool can be set up once only: a second request is refused.
    let _ = rayon::ThreadPoolBuilder::new().num_threads(1).build_global();
    let second = rayon::ThreadPoolBuilder::new().num_threads(1).build_global();
    let refusal = second.unwrap_err();
    let reason = refusal.to_string();
    assert_eq!(reason, "The global thread pool has already been initialized.");
    match pool_or_error(Err(refusal)) {
        Err(e) => assert_eq!(
            e,
            KeyPathError::ParallelError {
                message: format!("Failed to create thread pool: {}", reason)
            }
        ),
        Ok(_) => panic!("a refusal became a pool"),
    }
}

#[test]
fn a_pool_of_no_workers_is_refused() {
    match create_keypath_thread_pool(0) {
        Err(e) => assert_eq!(
            e,
            KeyPathError::ParallelError {
                message: "Failed to create thread pool: no threads requested".to_string()
            }
        ),
        Ok(_) => panic!("a pool of no workers was created"),
    }
}
