//! The five people of the examples, and what each record says.

use vstd::prelude::*;
use vstd::string::*;
use crate::error::{decimal, decimal_text};
use crate::examples::data::{Address, Coordinates, Department, Employment, Person};

verus! {

/// What a department record says.
pub struct DepartmentView {
    pub name: Seq<char>,
    pub budget: u32,
    pub manager: Option<Seq<char>>,
}

/// What an employment record says.
pub struct EmploymentView {
    pub company: Seq<char>,
    pub position: Seq<char>,
    pub salary: u32,
    pub department: DepartmentView,
}

/// What a person record says.
pub struct PersonView {
    pub name: Seq<char>,
    pub age: u32,
    pub city: Seq<char>,
    pub country: Seq<char>,
    pub lat: i64,
    pub lng: i64,
    pub skills: Seq<Seq<char>>,
    pub employment: Option<EmploymentView>,
}

/// The texts, as character sequences.
pub open spec fn texts(items: Seq<String>) -> Seq<Seq<char>> {
    Seq::new(items.len(), |i: int| items[i]@)
}

impl View for Department {
    type V = DepartmentView;

    open spec fn view(&self) -> DepartmentView {
        DepartmentView {
            name: self.name@,
            budget: self.budget,
            manager: match self.manager {
                Some(m) => Some(m@),
                None => None,
            },
        }
    }
}

impl View for Employment {
    type V = EmploymentView;

    open spec fn view(&self) -> EmploymentView {
        EmploymentView {
            company: self.company@,
            position: self.position@,
            salary: self.salary,
            department: self.department@,
        }
    }
}

impl View for Person {
    type V = PersonView;

    open spec fn view(&self) -> PersonView {
        PersonView {
            name: self.name@,
            age: self.age,
            city: self.address.city@,
            country: self.address.country@,
            lat: self.address.coordinates.lat,
            lng: self.address.coordinates.lng,
            skills: texts(self.skills@),
            employment: match self.employment {
                Some(e) => Some(e@),
                None => None,
            },
        }
    }
}

/// What each record of a collection says, in order.
pub open spec fn views(people: Seq<Person>) -> Seq<PersonView> {
    Seq::new(people.len(), |i: int| people[i]@)
}

/// The name of each person, in order.
pub open spec fn names(people: Seq<Person>) -> Seq<Seq<char>> {
    Seq::new(people.len(), |i: int| people[i].name@)
}

pub open spec fn engineering(manager: Option<Seq<char>>) -> DepartmentView {
    DepartmentView { name: "Engineering"@, budget: 1000000, manager }
}

pub open spec fn data_science(manager: Option<Seq<char>>) -> DepartmentView {
    DepartmentView { name: "Data Science"@, budget: 500000, manager }
}

pub open spec fn alice() -> PersonView {
    PersonView {
        name: "Alice Johnson"@,
        age: 30,
        city: "New York"@,
        country: "USA"@,
        lat: 407128,
        lng: -740060i64,
        skills: seq!["Rust"@, "Python"@, "JavaScript"@],
        employment: Some(
            EmploymentView {
                company: "TechCorp"@,
                position: "Senior Engineer"@,
                salary: 120000,
                department: engineering(Some("Bob Smith"@)),
            },
        ),
    }
}

pub open spec fn bob() -> PersonView {
    PersonView {
        name: "Bob Smith"@,
        age: 35,
        city: "San Francisco"@,
        country: "USA"@,
        lat: 377749,
        lng: -1224194i64,
        skills: seq!["Rust"@, "Go"@, "Kubernetes"@],
        employment: Some(
            EmploymentView {
                company: "TechCorp"@,
                position: "Engineering Manager"@,
                salary: 150000,
                department: engineering(None),
            },
        ),
    }
}

pub open spec fn charlie() -> PersonView {
    PersonView {
        name: "Charlie Brown"@,
        age: 28,
        city: "London"@,
        country: "UK"@,
        lat: 515074,
        lng: -1278i64,
        skills: seq!["Python"@, "Machine Learning"@],
        employment: Some(
            EmploymentView {
                company: "DataCorp"@,
                position: "Data Scientist"@,
                salary: 80000,
                department: data_science(Some("Diana Prince"@)),
            },
        ),
    }
}

pub open spec fn diana() -> PersonView {
    PersonView {
        name: "Diana Prince"@,
        age: 32,
        city: "Berlin"@,
        country: "Germany"@,
        lat: 525200,
        lng: 134050,
        skills: seq!["Python"@, "R"@, "Statistics"@],
        employment: Some(
            EmploymentView {
                company: "DataCorp"@,
                position: "Data Science Manager"@,
                salary: 95000,
                department: data_science(None),
            },
        ),
    }
}

pub open spec fn eve() -> PersonView {
    PersonView {
        name: "Eve Wilson"@,
        age: 25,
        city: "Tokyo"@,
        country: "Japan"@,
        lat: 356762,
        lng: 1396503,
        skills: seq!["JavaScript"@, "React"@, "Node.js"@],
        employment: None,
    }
}

/// What the sample says: Alice, Bob, Charlie, Diana and Eve, in this order.
pub open spec fn sample() -> Seq<PersonView> {
    seq![alice(), bob(), charlie(), diana(), eve()]
}

fn person(
    name: &str,
    age: u32,
    city: &str,
    country: &str,
    lat: i64,
    lng: i64,
    skills: Vec<String>,
    employment: Option<Employment>,
) -> (p: Person)
    ensures
        p.name@ == name@,
        p.age == age,
        p.address.city@ == city@,
        p.address.country@ == country@,
        p.address.coordinates.lat == lat,
        p.address.coordinates.lng == lng,
        p.skills == skills,
        p.employment == employment,
{
    Person {
        name: String::from_str(name),
        age,
        address: Address {
            city: String::from_str(city),
            country: String::from_str(country),
            coordinates: Coordinates { lat, lng },
        },
        skills,
        employment,
    }
}

fn employment(
    company: &str,
    position: &str,
    salary: u32,
    department: &str,
    budget: u32,
    manager: Option<&str>,
) -> (e: Option<Employment>)
    ensures
        e matches Some(e) && e@ == (EmploymentView {
            company: company@,
            position: position@,
            salary,
            department: DepartmentView {
                name: department@,
                budget,
                manager: match manager {
                    Some(m) => Some(m@),
                    None => None,
                },
            },
        }),
{
    Some(
        Employment {
            company: String::from_str(company),
            position: String::from_str(position),
            salary,
            department: Department {
                name: String::from_str(department),
                budget,
                manager: match manager {
                    Some(m) => Some(String::from_str(m)),
                    None => None,
                },
            },
        },
    )
}

fn two(a: &str, b: &str) -> (v: Vec<String>)
    ensures
        texts(v@) == seq![a@, b@],
{
    let mut v: Vec<String> = Vec::new();
    v.push(String::from_str(a));
    v.push(String::from_str(b));
    assert(texts(v@) =~= seq![a@, b@]);
    v
}

fn three(a: &str, b: &str, c: &str) -> (v: Vec<String>)
    ensures
        texts(v@) == seq![a@, b@, c@],
{
    let mut v: Vec<String> = Vec::new();
    v.push(String::from_str(a));
    v.push(String::from_str(b));
    v.push(String::from_str(c));
    assert(texts(v@) =~= seq![a@, b@, c@]);
    v
}

/// The sample: five people, of whom the last has no employment.
pub fn sample_people() -> (people: Vec<Person>)
    ensures
        views(people@) == sample(),
        people@.len() == 5,
{
    let mut people: Vec<Person> = Vec::new();
    people.push(
        person(
            "Alice Johnson",
            30,
            "New York",
            "USA",
            407128,
            -740060,
            three("Rust", "Python", "JavaScript"),
            employment(
                "TechCorp",
                "Senior Engineer",
                120000,
                "Engineering",
                1000000,
                Some("Bob Smith"),
            ),
        ),
    );
    people.push(
        person(
            "Bob Smith",
            35,
            "San Francisco",
            "USA",
            377749,
            -1224194,
            three("Rust", "Go", "Kubernetes"),
            employment("TechCorp", "Engineering Manager", 150000, "Engineering", 1000000, None),
        ),
    );
    people.push(
        person(
            "Charlie Brown",
            28,
            "London",
            "UK",
            515074,
            -1278,
            two("Python", "Machine Learning"),
            employment(
                "DataCorp",
                "Data Scientist",
                80000,
                "Data Science",
                500000,
                Some("Diana Prince"),
            ),
        ),
    );
    people.push(
        person(
            "Diana Prince",
            32,
            "Berlin",
            "Germany",
            525200,
            134050,
            three("Python", "R", "Statistics"),
            employment("DataCorp", "Data Science Manager", 95000, "Data Science", 500000, None),
        ),
    );
    people.push(
        person(
            "Eve Wilson",
            25,
            "Tokyo",
            "Japan",
            356762,
            1396503,
            three("JavaScript", "React", "Node.js"),
            None,
        ),
    );
    assert(views(people@) =~= sample());
    people
}

/// One person, for trying things out.
pub fn create_sample_person() -> (p: Person)
    ensures
        p@ == (PersonView {
            name: "Test Person"@,
            age: 25,
            city: "Test City"@,
            country: "Test Country"@,
            lat: 0,
            lng: 0,
            skills: seq!["Rust"@],
            employment: None,
        }),
{
    let mut skills: Vec<String> = Vec::new();
    skills.push(String::from_str("Rust"));
    assert(texts(skills@) =~= seq!["Rust"@]);
    person("Test Person", 25, "Test City", "Test Country", 0, 0, skills, None)
}

/// The salary of the person at position `i` of a large data set: fifty
/// thousand and a thousand more for each position, as far as a `u32` can hold it.
pub open spec fn large_salary(i: nat) -> u32 {
    if 50000 + 1000 * i > u32::MAX {
        u32::MAX
    } else {
        (50000 + 1000 * i) as u32
    }
}

/// What the record at position `i` of a large data set says.
pub open spec fn large_person(i: nat) -> PersonView {
    PersonView {
        name: "Person "@ + decimal_text(i),
        age: (20 + i % 50) as u32,
        city: "City "@ + decimal_text(i % 10),
        country: if i % 2 == 0 {
            "USA"@
        } else {
            "UK"@
        },
        lat: 0,
        lng: 0,
        skills: seq!["Rust"@, "Python"@],
        employment: Some(
            EmploymentView {
                company: "Company "@ + decimal_text(i % 5),
                position: "Engineer"@,
                salary: large_salary(i),
                department: engineering(None),
            },
        ),
    }
}

/// A data set of `size` people, for trying things out at scale.
pub fn create_large_dataset(size: usize) -> (people: Vec<Person>)
    ensures
        people@.len() == size,
        forall|i: int| 0 <= i < size ==> (#[trigger] people@[i])@ == large_person(i as nat),
{
    let mut people: Vec<Person> = Vec::new();
    let mut i: usize = 0;
    while i < size
        invariant
            i <= size,
            people@.len() == i,
            forall|p: int| 0 <= p < i ==> (#[trigger] people@[p])@ == large_person(p as nat),
        decreases size - i,
    {
        let name = String::from_str("Person ").concat(decimal(i).as_str());
        let city = String::from_str("City ").concat(decimal(i % 10).as_str());
        let company = String::from_str("Company ").concat(decimal(i % 5).as_str());
        let country = if i % 2 == 0 {
            "USA"
        } else {
            "UK"
        };
        let salary: u32 = if i > 4294917 {
            u32::MAX
        } else {
            (50000 + 1000 * i) as u32
        };
        let one = person(
            name.as_str(),
            (20 + i % 50) as u32,
            city.as_str(),
            country,
            0,
            0,
            two("Rust", "Python"),
            employment(company.as_str(), "Engineer", salary, "Engineering", 1000000, None),
        );
        assert(one@ == large_person(i as nat));
        people.push(one);
        i += 1;
    }
    people
}

} // verus!
