//! The records the examples work on, with one accessor per field.

use vstd::prelude::*;
use crate::keypath::KeyPath;

verus! {

/// A person, with where they live and what they do.
#[derive(Debug, Clone, PartialEq)]
pub struct Person {
    pub name: String,
    pub age: u32,
    pub address: Address,
    pub skills: Vec<String>,
    pub employment: Option<Employment>,
}

#[derive(Debug, Clone, PartialEq)]
pub struct Address {
    pub city: String,
    pub country: String,
    pub coordinates: Coordinates,
}

/// A position on the globe, in ten-thousandths of a degree.
#[derive(Debug, Clone, PartialEq)]
pub struct Coordinates {
    pub lat: i64,
    pub lng: i64,
}

#[derive(Debug, Clone, PartialEq)]
pub struct Employment {
    pub company: String,
    pub position: String,
    pub salary: u32,
    pub department: Department,
}

#[derive(Debug, Clone, PartialEq)]
pub struct Department {
    pub name: String,
    pub budget: u32,
    pub manager: Option<String>,
}

/// Reaches the name of a person.
pub struct PersonName;

impl KeyPath<Person, String> for PersonName {
    open spec fn read(&self, data: Person) -> Option<String> {
        Some(data.name)
    }

    fn get<'a>(&'a self, data: &'a Person) -> (r: Option<&'a String>) {
        Some(&data.name)
    }
}

/// Reaches the age of a person.
pub struct PersonAge;

impl KeyPath<Person, u32> for PersonAge {
    open spec fn read(&self, data: Person) -> Option<u32> {
        Some(data.age)
    }

    fn get<'a>(&'a self, data: &'a Person) -> (r: Option<&'a u32>) {
        Some(&data.age)
    }
}

/// Reaches the address of a person.
pub struct PersonAddress;

impl KeyPath<Person, Address> for PersonAddress {
    open spec fn read(&self, data: Person) -> Option<Address> {
        Some(data.address)
    }

    fn get<'a>(&'a self, data: &'a Person) -> (r: Option<&'a Address>) {
        Some(&data.address)
    }
}

/// Reaches the skills of a person.
pub struct PersonSkills;

impl KeyPath<Person, Vec<String>> for PersonSkills {
    open spec fn read(&self, data: Person) -> Option<Vec<String>> {
        Some(data.skills)
    }

    fn get<'a>(&'a self, data: &'a Person) -> (r: Option<&'a Vec<String>>) {
        Some(&data.skills)
    }
}

/// Reaches the employment field of a person, which may hold nothing.
pub struct PersonEmployment;

impl KeyPath<Person, Option<Employment>> for PersonEmployment {
    open spec fn read(&self, data: Person) -> Option<Option<Employment>> {
        Some(data.employment)
    }

    fn get<'a>(&'a self, data: &'a Person) -> (r: Option<&'a Option<Employment>>) {
        Some(&data.employment)
    }
}

/// Reaches the employment of a person, absent where there is none.
pub struct PersonEmployed;

impl KeyPath<Person, Employment> for PersonEmployed {
    open spec fn read(&self, data: Person) -> Option<Employment> {
        data.employment
    }

    fn get<'a>(&'a self, data: &'a Person) -> (r: Option<&'a Employment>) {
        data.employment.as_ref()
    }
}

/// Reaches the city of a address.
pub struct AddressCity;

impl KeyPath<Address, String> for AddressCity {
    open spec fn read(&self, data: Address) -> Option<String> {
        Some(data.city)
    }

    fn get<'a>(&'a self, data: &'a Address) -> (r: Option<&'a String>) {
        Some(&data.city)
    }
}

/// Reaches the country of a address.
pub struct AddressCountry;

impl KeyPath<Address, String> for AddressCountry {
    open spec fn read(&self, data: Address) -> Option<String> {
        Some(data.country)
    }

    fn get<'a>(&'a self, data: &'a Address) -> (r: Option<&'a String>) {
        Some(&data.country)
    }
}

/// Reaches the coordinates of a address.
pub struct AddressCoordinates;

impl KeyPath<Address, Coordinates> for AddressCoordinates {
    open spec fn read(&self, data: Address) -> Option<Coordinates> {
        Some(data.coordinates)
    }

    fn get<'a>(&'a self, data: &'a Address) -> (r: Option<&'a Coordinates>) {
        Some(&data.coordinates)
    }
}

/// Reaches the lat of a coordinates.
pub struct CoordinatesLat;

impl KeyPath<Coordinates, i64> for CoordinatesLat {
    open spec fn read(&self, data: Coordinates) -> Option<i64> {
        Some(data.lat)
    }

    fn get<'a>(&'a self, data: &'a Coordinates) -> (r: Option<&'a i64>) {
        Some(&data.lat)
    }
}

/// Reaches the lng of a coordinates.
pub struct CoordinatesLng;

impl KeyPath<Coordinates, i64> for CoordinatesLng {
    open spec fn read(&self, data: Coordinates) -> Option<i64> {
        Some(data.lng)
    }

    fn get<'a>(&'a self, data: &'a Coordinates) -> (r: Option<&'a i64>) {
        Some(&data.lng)
    }
}

/// Reaches the company of a employment.
pub struct EmploymentCompany;

impl KeyPath<Employment, String> for EmploymentCompany {
    open spec fn read(&self, data: Employment) -> Option<String> {
        Some(data.company)
    }

    fn get<'a>(&'a self, data: &'a Employment) -> (r: Option<&'a String>) {
        Some(&data.company)
    }
}

/// Reaches the position of a employment.
pub struct EmploymentPosition;

impl KeyPath<Employment, String> for EmploymentPosition {
    open spec fn read(&self, data: Employment) -> Option<String> {
        Some(data.position)
    }

    fn get<'a>(&'a self, data: &'a Employment) -> (r: Option<&'a String>) {
        Some(&data.position)
    }
}

/// Reaches the salary of a employment.
pub struct EmploymentSalary;

impl KeyPath<Employment, u32> for EmploymentSalary {
    open spec fn read(&self, data: Employment) -> Option<u32> {
        Some(data.salary)
    }

    fn get<'a>(&'a self, data: &'a Employment) -> (r: Option<&'a u32>) {
        Some(&data.salary)
    }
}

/// Reaches the department of a employment.
pub struct EmploymentDepartment;

impl KeyPath<Employment, Department> for EmploymentDepartment {
    open spec fn read(&self, data: Employment) -> Option<Department> {
        Some(data.department)
    }

    fn get<'a>(&'a self, data: &'a Employment) -> (r: Option<&'a Department>) {
        Some(&data.department)
    }
}

/// Reaches the name of a department.
pub struct DepartmentName;

impl KeyPath<Department, String> for DepartmentName {
    open spec fn read(&self, data: Department) -> Option<String> {
        Some(data.name)
    }

    fn get<'a>(&'a self, data: &'a Department) -> (r: Option<&'a String>) {
        Some(&data.name)
    }
}

/// Reaches the budget of a department.
pub struct DepartmentBudget;

impl KeyPath<Department, u32> for DepartmentBudget {
    open spec fn read(&self, data: Department) -> Option<u32> {
        Some(data.budget)
    }

    fn get<'a>(&'a self, data: &'a Department) -> (r: Option<&'a u32>) {
        Some(&data.budget)
    }
}

/// Reaches the manager field of a department, which may hold nothing.
pub struct DepartmentManager;

impl KeyPath<Department, Option<String>> for DepartmentManager {
    open spec fn read(&self, data: Department) -> Option<Option<String>> {
        Some(data.manager)
    }

    fn get<'a>(&'a self, data: &'a Department) -> (r: Option<&'a Option<String>>) {
        Some(&data.manager)
    }
}

/// Reaches the manager of a department, absent where there is none.
pub struct DepartmentManaged;

impl KeyPath<Department, String> for DepartmentManaged {
    open spec fn read(&self, data: Department) -> Option<String> {
        data.manager
    }

    fn get<'a>(&'a self, data: &'a Department) -> (r: Option<&'a String>) {
        data.manager.as_ref()
    }
}

impl Person {
    /// The accessor of `name`.
    pub fn name_r() -> (keypath: PersonName) {
        PersonName
    }

    /// The accessor of `age`.
    pub fn age_r() -> (keypath: PersonAge) {
        PersonAge
    }

    /// The accessor of `address`.
    pub fn address_r() -> (keypath: PersonAddress) {
        PersonAddress
    }

    /// The accessor of `skills`.
    pub fn skills_r() -> (keypath: PersonSkills) {
        PersonSkills
    }

    /// The accessor of `employment`.
    pub fn employment_r() -> (keypath: PersonEmployment) {
        PersonEmployment
    }

    /// The accessor of what `employment` holds, which fails where it holds nothing.
    pub fn employment_fr() -> (keypath: PersonEmployed) {
        PersonEmployed
    }
}

impl Address {
    /// The accessor of `city`.
    pub fn city_r() -> (keypath: AddressCity) {
        AddressCity
    }

    /// The accessor of `country`.
    pub fn country_r() -> (keypath: AddressCountry) {
        AddressCountry
    }

    /// The accessor of `coordinates`.
    pub fn coordinates_r() -> (keypath: AddressCoordinates) {
        AddressCoordinates
    }
}

impl Coordinates {
    /// The accessor of `lat`.
    pub fn lat_r() -> (keypath: CoordinatesLat) {
        CoordinatesLat
    }

    /// The accessor of `lng`.
    pub fn lng_r() -> (keypath: CoordinatesLng) {
        CoordinatesLng
    }
}

impl Employment {
    /// The accessor of `company`.
    pub fn company_r() -> (keypath: EmploymentCompany) {
        EmploymentCompany
    }

    /// The accessor of `position`.
    pub fn position_r() -> (keypath: EmploymentPosition) {
        EmploymentPosition
    }

    /// The accessor of `salary`.
    pub fn salary_r() -> (keypath: EmploymentSalary) {
        EmploymentSalary
    }

    /// The accessor of `department`.
    pub fn department_r() -> (keypath: EmploymentDepartment) {
        EmploymentDepartment
    }
}

impl Department {
    /// The accessor of `name`.
    pub fn name_r() -> (keypath: DepartmentName) {
        DepartmentName
    }

    /// The accessor of `budget`.
    pub fn budget_r() -> (keypath: DepartmentBudget) {
        DepartmentBudget
    }

    /// The accessor of `manager`.
    pub fn manager_r() -> (keypath: DepartmentManager) {
        DepartmentManager
    }

    /// The accessor of what `manager` holds, which fails where it holds nothing.
    pub fn manager_fr() -> (keypath: DepartmentManaged) {
        DepartmentManaged
    }
}

} // verus!
