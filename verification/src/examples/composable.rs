//! Operations put together with `pipe`, a chain, and a condition.

use vstd::prelude::*;
use vstd::string::*;
use crate::composable::{chain_keypath_ops, pipe, when_keypath};
use crate::error::KeyPathResult;
use crate::examples::data::{
    Department, Employment, Person, PersonAge, PersonEmployment, PersonName,
};
use crate::examples::picking::lemma_kept_of_five;
use crate::examples::sample::{sample, sample_people, texts, views};
use crate::examples::text::{lowercase, to_lowercase};
use crate::higher_order::{filter_by_keypath, map_keypath_collection};
use crate::keypath::compose;
use crate::model::{
    all_present, each_before, fields, filters_to, kept, maps_to, outcomes, stops_at, yields,
};

verus! {

/// The names, in lower case, of those under thirty-five: everyone but Bob.
pub fn pipe_composition_example() -> (result: KeyPathResult<Vec<String>>)
    ensures
        result matches Ok(quiet) && texts(quiet@) == seq![
            lowercase(sample()[0].name),
            lowercase(sample()[2].name),
            lowercase(sample()[3].name),
            lowercase(sample()[4].name),
        ],
{
    let people = sample_people();
    let ghost all = people@;
    let under = |age: &u32| -> (b: bool)
        ensures
            b == (*age < 35),
        { *age < 35 };
    let keep_young = |people: Vec<Person>| -> (kept: KeyPathResult<Vec<Person>>)
        ensures
            filters_to(&PersonAge, &under, people@, kept),
        { filter_by_keypath(people, Person::age_r(), under) };
    let young = match pipe(people, keep_young) {
        Ok(young) => young,
        Err(e) => {
            assert(all_present(&PersonAge, all));
            return Err(e);
        },
    };
    proof {
        let verdicts = choose|verdicts: Seq<bool>| #[trigger]
            outcomes(&under, fields(&PersonAge, all), verdicts) && young@ == kept(all, verdicts);
        lemma_kept_of_five(all, verdicts);
        assert forall|i: int| 0 <= i < 5 implies verdicts[i] == (views(all)[i].age < 35) by {
            assert(yields(&under, fields(&PersonAge, all)[i], verdicts[i]));
        }
        assert(young@ =~= seq![all[0], all[2], all[3], all[4]]);
    }
    let hush = |name: &String| -> (soft: String)
        ensures
            soft@ == lowercase(name@),
        { to_lowercase(name.as_str()) };
    let lower_names = |people: Vec<Person>| -> (names: KeyPathResult<Vec<String>>)
        ensures
            maps_to(&PersonName, &hush, people@, names),
        { map_keypath_collection(people.as_slice(), Person::name_r(), hush) };
    let ghost chosen = young@;
    let result = pipe(young, lower_names);
    proof {
        assert(all_present(&PersonName, chosen));
        let quiet = result->Ok_0@;
        assert forall|i: int| 0 <= i < 4 implies quiet[i]@ == lowercase(chosen[i].name@) by {
            assert(yields(&hush, fields(&PersonName, chosen)[i], quiet[i]));
        }
        assert(views(all)[0] == all[0]@ && views(all)[2] == all[2]@ && views(all)[3] == all[3]@
            && views(all)[4] == all[4]@);
        assert(texts(quiet) =~= seq![
            lowercase(sample()[0].name),
            lowercase(sample()[2].name),
            lowercase(sample()[3].name),
            lowercase(sample()[4].name),
        ]);
    }
    result
}

/// The department of everyone who is employed, by a chain that filters and then maps.
pub fn chain_operations_example() -> (result: KeyPathResult<Vec<String>>)
    ensures
        result matches Ok(departments) && texts(departments@) == seq![
            "Engineering"@,
            "Engineering"@,
            "Data Science"@,
            "Data Science"@,
        ],
{
    let people = sample_people();
    let ghost all = people@;
    let employed = |employment: &Option<Employment>| -> (b: bool)
        ensures
            b == (*employment is Some),
        { employment.is_some() };
    let copy = |name: &String| -> (c: String)
        ensures
            c@ == name@,
        { name.clone() };
    let department = compose(
        compose(Person::employment_fr(), Employment::department_r()),
        Department::name_r(),
    );
    let chain = chain_keypath_ops(people);
    let working = chain.filter_by_keypath(Person::employment_r(), employed);
    proof {
        assert(all_present(&PersonEmployment, all));
        let verdicts = choose|verdicts: Seq<bool>| #[trigger]
            outcomes(&employed, fields(&PersonEmployment, all), verdicts) && working.outcome()->Ok_0@
                == kept(all, verdicts);
        lemma_kept_of_five(all, verdicts);
        assert(views(all)[0] == all[0]@ && views(all)[1] == all[1]@ && views(all)[2] == all[2]@
            && views(all)[3] == all[3]@ && views(all)[4] == all[4]@);
        assert forall|i: int| 0 <= i < 5 implies verdicts[i] == (all[i].employment is Some) by {
            assert(yields(&employed, fields(&PersonEmployment, all)[i], verdicts[i]));
        }
        assert(working.outcome()->Ok_0@ =~= seq![all[0], all[1], all[2], all[3]]);
        assert(all_present(&department, working.outcome()->Ok_0@));
    }
    let ghost employees = working.outcome()->Ok_0@;
    let named = working.map_keypath(department, copy);
    let result = named.collect();
    proof {
        let departments = result->Ok_0@;
        assert forall|i: int| 0 <= i < 4 implies departments[i]@
            == employees[i].employment->0.department.name@ by {
            assert(yields(&copy, fields(&department, employees)[i], departments[i]));
        }
        assert(texts(departments) =~= seq![
            "Engineering"@,
            "Engineering"@,
            "Data Science"@,
            "Data Science"@,
        ]);
    }
    result
}

/// From the first person of thirty or more on, every name with "Senior: "
/// before it. That person is Alice, the first, so all five names follow.
pub fn conditional_operations_example() -> (result: KeyPathResult<Vec<String>>)
    ensures
        result matches Ok(titles) && texts(titles@) == Seq::new(
            5,
            |i: int| "Senior: "@ + sample()[i].name,
        ),
{
    let people = sample_people();
    let ghost all = people@;
    let thirty_or_more = |age: &u32| -> (b: bool)
        ensures
            b == (*age >= 30),
        { *age >= 30 };
    let entitle = |name: &String| -> (title: String)
        ensures
            title@ == "Senior: "@ + name@,
        { String::from_str("Senior: ").concat(name.as_str()) };
    let entitle_all = |rest: Vec<Person>| -> (titles: Vec<String>)
        ensures
            titles@.len() == rest@.len(),
            forall|i: int|
                0 <= i < rest@.len() ==> (#[trigger] titles@[i])@ == "Senior: "@ + rest@[i].name@,
        {
            assert(all_present(&PersonName, rest@));
            match map_keypath_collection(rest.as_slice(), Person::name_r(), entitle) {
                Ok(titles) => {
                    assert forall|i: int| 0 <= i < rest@.len() implies (#[trigger] titles@[i])@
                        == "Senior: "@ + rest@[i].name@ by {
                        assert(yields(&entitle, fields(&PersonName, rest@)[i], titles@[i]));
                    }
                    titles
                },
                Err(_) => Vec::new(),
            }
        };
    let result = when_keypath(people, Person::age_r(), thirty_or_more, entitle_all);
    proof {
        assert(all_present(&PersonAge, all));
        assert(views(all)[0] == all[0]@);
        let titles = result->Ok_0;
        if each_before(&PersonAge, &thirty_or_more, all, 5, false) {
            assert(yields(&thirty_or_more, fields(&PersonAge, all)[0], false));
        }
        let (k, tail) = choose|k: int, tail: Vec<Person>| #[trigger]
            stops_at(&PersonAge, &thirty_or_more, all, k, false) && tail@ == all.skip(k)
                && #[trigger] call_ensures(entitle_all, (tail,), titles);
        if k > 0 {
            assert(yields(&thirty_or_more, fields(&PersonAge, all)[0], false));
        }
        assert(tail@ =~= all);
        assert forall|i: int| 0 <= i < 5 implies texts(titles@)[i] == "Senior: "@
            + sample()[i].name by {
            assert(titles@[i]@ == "Senior: "@ + tail@[i].name@);
            assert(views(all)[i] == all[i]@);
        }
        assert(texts(titles@) =~= Seq::new(5, |i: int| "Senior: "@ + sample()[i].name));
    }
    result
}

} // verus!
