use rust_prelude_plus::examples::advanced::{
    complex_filtering_example, nested_keypath_example, rolling_operations_example, sum_of,
};
use rust_prelude_plus::examples::basic::{
    filter_by_age_example, find_by_name_example, map_names_example, sort_by_age_example,
};
use rust_prelude_plus::examples::composable::{
    chain_operations_example, conditional_operations_example, pipe_composition_example,
};
use rust_prelude_plus::examples::data::{Address, Coordinates, Department, Employment, Person};
use rust_prelude_plus::examples::error_handling::graceful_degradation_example;
use rust_prelude_plus::examples::performance::{
    batch_operations_example, efficient_filtering_example, has_text,
};
use rust_prelude_plus::examples::sample::{create_sample_person, sample_people};
use rust_prelude_plus::higher_order::group_by_keypath;
use rust_prelude_plus::keypath::{compose, KeyPath};

#[test]
fn test_basic_filtering() {
    let result = filter_by_age_example().unwrap();
    assert_eq!(result.len(), 2); // Eve (25) and Charlie (28)
    assert_eq!(result[0].name, "Charlie Brown");
    assert_eq!(result[1].name, "Eve Wilson");
}

#[test]
fn test_name_mapping() {
    let result = map_names_example().unwrap();
    assert!(result.contains(&"ALICE JOHNSON".to_string()));
    assert_eq!(
        result,
        vec!["ALICE JOHNSON", "BOB SMITH", "CHARLIE BROWN", "DIANA PRINCE", "EVE WILSON"]
    );
}

#[test]
fn test_finding_by_name() {
    let result = find_by_name_example().unwrap();
    assert!(result.is_some());
    assert_eq!(result.unwrap().name, "Alice Johnson");
}

#[test]
fn test_grouping_by_country() {
    let people = sample_people();
    let country = compose(Person::address_r(), Address::country_r());
    let result = group_by_keypath(&people, country, |country: &String| country.clone()).unwrap();
    assert!(result.contains_key("USA"));
    assert!(result.contains_key("UK"));
    assert!(result.contains_key("Germany"));
    assert!(result.contains_key("Japan"));
    assert_eq!(result.len(), 4);
    let usa: Vec<&str> = result["USA"].iter().map(|p| p.name.as_str()).collect();
    assert_eq!(usa, vec!["Alice Johnson", "Bob Smith"]);
}

#[test]
fn test_sorting_by_age() {
    let result = sort_by_age_example().unwrap();
    assert_eq!(result[0].age, 25); // Eve
    assert_eq!(result[4].age, 35); // Bob
    let ages: Vec<u32> = result.iter().map(|p| p.age).collect();
    assert_eq!(ages, vec![25, 28, 30, 32, 35]);
}

#[test]
fn the_sample_is_five_people() {
    let people = sample_people();
    assert_eq!(people.len(), 5);
    let alice = &people[0];
    assert_eq!(alice.name, "Alice Johnson");
    assert_eq!(alice.age, 30);
    assert_eq!(alice.address.city, "New York");
    assert_eq!(alice.address.country, "USA");
    assert_eq!((alice.address.coordinates.lat, alice.address.coordinates.lng), (407128, -740060));
    assert_eq!(alice.skills, vec!["Rust", "Python", "JavaScript"]);
    let job = alice.employment.as_ref().unwrap();
    assert_eq!(job.company, "TechCorp");
    assert_eq!(job.position, "Senior Engineer");
    assert_eq!(job.salary, 120000);
    assert_eq!(job.department.name, "Engineering");
    assert_eq!(job.department.budget, 1000000);
    assert_eq!(job.department.manager, Some("Bob Smith".to_string()));
    assert_eq!(people[1].employment.as_ref().unwrap().department.manager, None);
    assert_eq!(people[2].skills, vec!["Python", "Machine Learning"]);
    assert_eq!(people[3].address.city, "Berlin");
    assert_eq!(people[4].name, "Eve Wilson");
    assert_eq!(people[4].employment, None);
    let one = create_sample_person();
    assert_eq!(one.name, "Test Person");
    assert_eq!(one.age, 25);
    assert_eq!(one.skills, vec!["Rust"]);
    assert_eq!(one.employment, None);
}

#[test]
fn accessors_reach_their_fields() {
    let people = sample_people();
    let alice = &people[0];
    let eve = &people[4];
    assert_eq!(Person::name_r().get(alice), Some(&alice.name));
    assert_eq!(Person::age_r().get(alice), Some(&30));
    assert_eq!(Person::skills_r().get(alice), Some(&alice.skills));
    assert_eq!(Person::employment_r().get(eve), Some(&None));
    assert_eq!(Person::employment_fr().get(eve), None);
    assert_eq!(Person::employment_fr().get(alice), alice.employment.as_ref());
    let department = compose(Person::employment_fr(), Employment::department_r());
    let manager = compose(department, Department::manager_fr());
    assert_eq!(manager.get(alice), Some(&"Bob Smith".to_string()));
    assert_eq!(manager.get(&people[1]), None);
    assert_eq!(manager.get(eve), None);
    let budget = compose(
        compose(Person::employment_fr(), Employment::department_r()),
        Department::budget_r(),
    );
    assert_eq!(budget.get(&people[2]), Some(&500000));
    let city = compose(Person::address_r(), Address::city_r());
    assert_eq!(city.get(eve), Some(&"Tokyo".to_string()));
    let place = compose(Person::address_r(), Address::coordinates_r());
    assert_eq!(compose(place, Coordinates::lng_r()).get(eve), Some(&1396503));
    let place = compose(Person::address_r(), Address::coordinates_r());
    assert_eq!(compose(place, Coordinates::lat_r()).get(eve), Some(&356762));
    let salary = compose(Person::employment_fr(), Employment::salary_r());
    assert_eq!(salary.get(&people[3]), Some(&95000));
    let position = compose(Person::employment_fr(), Employment::position_r());
    assert_eq!(position.get(&people[3]), Some(&"Data Science Manager".to_string()));
    assert_eq!(Department::manager_r().get(&people[1].employment.as_ref().unwrap().department), Some(&None));
}

#[test]
fn advanced_examples_give_what_they_say() {
    assert_eq!(complex_filtering_example().unwrap(), vec!["TechCorp", "TechCorp", "DataCorp"]);
    assert_eq!(
        nested_keypath_example().unwrap(),
        vec![407128, 377749, 515074, 525200, 356762]
    );
    assert_eq!(rolling_operations_example().unwrap(), vec![65, 63, 60, 57]);
    assert_eq!(sum_of(&[]), 0);
    assert_eq!(sum_of(&[1, 2, 3]), 6);
    assert_eq!(sum_of(&[u32::MAX, 1]), u32::MAX);
    assert_eq!(sum_of(&[u32::MAX - 1, 1, 5]), u32::MAX);
}

#[test]
fn composable_examples_give_what_they_say() {
    assert_eq!(
        pipe_composition_example().unwrap(),
        vec!["alice johnson", "charlie brown", "diana prince", "eve wilson"]
    );
    assert_eq!(
        chain_operations_example().unwrap(),
        vec!["Engineering", "Engineering", "Data Science", "Data Science"]
    );
    assert_eq!(
        conditional_operations_example().unwrap(),
        vec![
            "Senior: Alice Johnson",
            "Senior: Bob Smith",
            "Senior: Charlie Brown",
            "Senior: Diana Prince",
            "Senior: Eve Wilson"
        ]
    );
}

#[test]
fn performance_examples_give_what_they_say() {
    assert_eq!(efficient_filtering_example().unwrap().unwrap().name, "Alice Johnson");
    assert_eq!(
        batch_operations_example().unwrap(),
        vec![
            "Rust",
            "Python",
            "JavaScript",
            "Go",
            "Kubernetes",
            "Machine Learning",
            "R",
            "Statistics",
            "React",
            "Node.js"
        ]
    );
    let skills = vec!["Rust".to_string(), "Go".to_string()];
    assert!(has_text(&skills, "Go"));
    assert!(!has_text(&skills, "go"));
    assert!(!has_text(&vec![], "Go"));
}

#[test]
fn a_missing_employment_is_passed_over() {
    assert_eq!(
        graceful_degradation_example().unwrap(),
        vec!["TechCorp", "TechCorp", "DataCorp", "DataCorp"]
    );
}
