//! Operations in sequence, nested accessors, and rolling windows.

use vstd::prelude::*;
use vstd::string::*;
use crate::collections::{aggregates, windows_to, KeyPathsCollectionExt};
use crate::error::KeyPathResult;
use crate::examples::data::{
    Address, Coordinates, Employment, Person, PersonAge, PersonEmployment,
};
use crate::examples::picking::{lemma_kept_of_five, lemma_kept_of_three};
use crate::examples::sample::{sample, sample_people, texts, views};
use crate::higher_order::{filter_by_keypath, map_keypath_collection};
use crate::keypath::compose;
use crate::model::{all_present, clones_of, fields, kept, outcomes, yields};

verus! {

/// The employers of those who are thirty or older and employed: Alice's,
/// Bob's and Diana's.
pub fn complex_filtering_example() -> (result: KeyPathResult<Vec<String>>)
    ensures
        result matches Ok(companies) && texts(companies@) == seq![
            "TechCorp"@,
            "TechCorp"@,
            "DataCorp"@,
        ],
{
    let people = sample_people();
    let ghost all = people@;
    let thirty_or_more = |age: &u32| -> (b: bool)
        ensures
            b == (*age >= 30),
        { *age >= 30 };
    let seniors = match filter_by_keypath(people, Person::age_r(), thirty_or_more) {
        Ok(seniors) => seniors,
        Err(e) => {
            assert(all_present(&PersonAge, all));
            return Err(e);
        },
    };
    let ghost older = seniors@;
    proof {
        let verdicts = choose|verdicts: Seq<bool>| #[trigger]
            outcomes(&thirty_or_more, fields(&PersonAge, all), verdicts) && older == kept(
                all,
                verdicts,
            );
        lemma_kept_of_five(all, verdicts);
        assert forall|i: int| 0 <= i < 5 implies verdicts[i] == (views(all)[i].age >= 30) by {
            assert(yields(&thirty_or_more, fields(&PersonAge, all)[i], verdicts[i]));
        }
        assert(older =~= seq![all[0], all[1], all[3]]);
    }
    let employed = |employment: &Option<Employment>| -> (b: bool)
        ensures
            b == (*employment is Some),
        { employment.is_some() };
    let working = match filter_by_keypath(seniors, Person::employment_r(), employed) {
        Ok(working) => working,
        Err(e) => {
            assert(all_present(&PersonEmployment, older));
            return Err(e);
        },
    };
    proof {
        let verdicts = choose|verdicts: Seq<bool>| #[trigger]
            outcomes(&employed, fields(&PersonEmployment, older), verdicts) && working@ == kept(
                older,
                verdicts,
            );
        lemma_kept_of_three(older, verdicts);
        assert(views(all)[0] == all[0]@ && views(all)[1] == all[1]@ && views(all)[3] == all[3]@);
        assert forall|i: int| 0 <= i < 3 implies verdicts[i] by {
            assert(yields(&employed, fields(&PersonEmployment, older)[i], verdicts[i]));
        }
        assert(working@ =~= older);
    }
    let copy = |company: &String| -> (c: String)
        ensures
            c@ == company@,
        { company.clone() };
    let employer = compose(Person::employment_fr(), Employment::company_r());
    let result = map_keypath_collection(working.as_slice(), employer, copy);
    proof {
        assert(all_present(&employer, working@));
        let companies = result->Ok_0@;
        assert forall|i: int| 0 <= i < 3 implies companies[i]@ == working@[i].employment->0.company@ by {
            assert(yields(&copy, fields(&employer, working@)[i], companies[i]));
        }
        assert(texts(companies) =~= seq!["TechCorp"@, "TechCorp"@, "DataCorp"@]);
    }
    result
}

/// The latitude of every person, in ten-thousandths of a degree, reached
/// through three accessors in sequence.
pub fn nested_keypath_example() -> (result: KeyPathResult<Vec<i64>>)
    ensures
        result matches Ok(latitudes) && latitudes@ == seq![
            407128i64,
            377749i64,
            515074i64,
            525200i64,
            356762i64,
        ],
{
    let people = sample_people();
    let copy = |lat: &i64| -> (l: i64)
        ensures
            l == *lat,
        { *lat };
    let latitude = compose(
        compose(Person::address_r(), Address::coordinates_r()),
        Coordinates::lat_r(),
    );
    let result = map_keypath_collection(people.as_slice(), latitude, copy);
    proof {
        assert(all_present(&latitude, people@));
        let latitudes = result->Ok_0@;
        assert forall|i: int| 0 <= i < 5 implies latitudes[i] == sample()[i].lat by {
            assert(yields(&copy, fields(&latitude, people@)[i], latitudes[i]));
            assert(views(people@)[i] == people@[i]@);
        }
        assert(latitudes =~= seq![407128i64, 377749i64, 515074i64, 525200i64, 356762i64]);
    }
    result
}

/// The sum of the values, as far as a `u32` can hold it.
pub open spec fn total(values: Seq<u32>) -> int
    decreases values.len(),
{
    if values.len() == 0 {
        0
    } else {
        total(values.drop_last()) + values.last()
    }
}

/// The sum, or the largest `u32` where the sum is larger.
pub open spec fn capped(sum: int) -> u32 {
    if sum > u32::MAX {
        u32::MAX
    } else {
        sum as u32
    }
}

/// Adds up the values, stopping at the largest `u32`.
pub fn sum_of(values: &[u32]) -> (sum: u32)
    ensures
        sum == capped(total(values@)),
{
    let mut sum: u32 = 0;
    let mut i: usize = 0;
    while i < values.len()
        invariant
            i <= values@.len(),
            sum == capped(total(values@.take(i as int))),
            total(values@.take(i as int)) >= 0,
        decreases values@.len() - i,
    {
        assert(values@.take(i as int + 1).drop_last() == values@.take(i as int));
        let value = values[i];
        if sum > u32::MAX - value {
            sum = u32::MAX;
        } else {
            sum = sum + value;
        }
        i += 1;
    }
    assert(values@.take(i as int) == values@);
    sum
}

/// The sum of the ages of every two neighbours in the sample.
pub fn rolling_operations_example() -> (result: KeyPathResult<Vec<u32>>)
    ensures
        result matches Ok(sums) && sums@ == seq![65u32, 63u32, 60u32, 57u32],
{
    let people = sample_people();
    let add_up = |ages: &[u32]| -> (sum: u32)
        ensures
            sum == capped(total(ages@)),
        { sum_of(ages) };
    let result = people.rolling_by_keypath(Person::age_r(), 2, add_up);
    proof {
        assert(all_present(&PersonAge, people@));
        let sums = result->Ok_0@;
        let ages = fields(&PersonAge, people@);
        assert(windows_to(&add_up, ages, 2, sums));
        assert forall|i: int| 0 <= i < 4 implies sums[i] == ages[i] + ages[i + 1] by {
            assert(aggregates(&add_up, ages.subrange(i, i + 2), sums[i]));
            let window = choose|window: &[u32]|
                clones_of(ages.subrange(i, i + 2), window@) && #[trigger] call_ensures(
                    add_up,
                    (window,),
                    sums[i],
                );
            assert(cloned(ages.subrange(i, i + 2)[0], window@[0]));
            assert(cloned(ages.subrange(i, i + 2)[1], window@[1]));
            assert(window@ =~= seq![ages[i], ages[i + 1]]);
            reveal_with_fuel(total, 3);
            assert(window@.drop_last() =~= seq![ages[i]]);
            assert(window@.drop_last().drop_last() =~= Seq::<u32>::empty());
            assert(views(people@)[i] == people@[i]@);
            assert(views(people@)[i + 1] == people@[i + 1]@);
        }
        assert(views(people@)[0] == people@[0]@ && views(people@)[1] == people@[1]@ && views(
            people@,
        )[2] == people@[2]@ && views(people@)[3] == people@[3]@ && views(people@)[4]
            == people@[4]@);
        assert(sums =~= seq![65u32, 63u32, 60u32, 57u32]);
    }
    result
}

} // verus!
