//! Filtering, mapping, finding and sorting the sample.

use vstd::prelude::*;
use vstd::string::*;
use core::cmp::Ordering;
use crate::error::KeyPathResult;
use crate::examples::data::{Person, PersonAge, PersonName};
use crate::examples::picking::lemma_kept_of_five;
use crate::examples::sample::{alice, charlie, eve, sample, sample_people, texts, views};
use crate::examples::text::{contains, occurs_in, to_uppercase, uppercase};
use crate::higher_order::{
    filter_by_keypath, find_by_keypath, map_keypath_collection, orders_by, sort_by_keypath,
    sorted_by,
};
use crate::model::{all_present, field, fields, kept, outcomes, present, stops_at, yields};
use crate::sorting::{lemma_stable_order_is_order, strict_weak_order};

verus! {

/// The people under thirty: Charlie and Eve.
pub fn filter_by_age_example() -> (result: KeyPathResult<Vec<Person>>)
    ensures
        result matches Ok(young) && views(young@) == seq![charlie(), eve()],
{
    let people = sample_people();
    let ghost all = people@;
    let under_thirty = |age: &u32| -> (b: bool)
        ensures
            b == (*age < 30),
        { *age < 30 };
    let result = filter_by_keypath(people, Person::age_r(), under_thirty);
    proof {
        let keypath = PersonAge;
        assert(all_present(&keypath, all));
        let young = result->Ok_0@;
        let verdicts = choose|verdicts: Seq<bool>| #[trigger]
            outcomes(&under_thirty, fields(&keypath, all), verdicts) && young == kept(
                all,
                verdicts,
            );
        lemma_kept_of_five(all, verdicts);
        assert forall|i: int| 0 <= i < 5 implies verdicts[i] == (views(all)[i].age < 30) by {
            assert(yields(&under_thirty, fields(&keypath, all)[i], verdicts[i]));
        }
        assert(young =~= seq![all[2], all[4]]);
        assert(views(young) =~= seq![views(all)[2], views(all)[4]]);
    }
    result
}

/// Every name in upper case, in the order of the sample.
pub fn map_names_example() -> (result: KeyPathResult<Vec<String>>)
    ensures
        result matches Ok(shouted) && texts(shouted@) == Seq::new(
            5,
            |i: int| uppercase(sample()[i].name),
        ),
{
    let people = sample_people();
    let shout = |name: &String| -> (loud: String)
        ensures
            loud@ == uppercase(name@),
        { to_uppercase(name.as_str()) };
    let result = map_keypath_collection(people.as_slice(), Person::name_r(), shout);
    proof {
        let keypath = PersonName;
        assert(all_present(&keypath, people@));
        let shouted = result->Ok_0@;
        assert forall|i: int| 0 <= i < 5 implies texts(shouted)[i] == uppercase(
            sample()[i].name,
        ) by {
            assert(yields(&shout, fields(&keypath, people@)[i], shouted[i]));
            assert(views(people@)[i].name == people@[i].name@);
        }
        assert(texts(shouted) =~= Seq::new(5, |i: int| uppercase(sample()[i].name)));
    }
    result
}

/// The first person whose name has "Alice" in it: Alice, the first of the sample.
pub fn find_by_name_example() -> (result: KeyPathResult<Option<Person>>)
    ensures
        result matches Ok(Some(found)) && found@ == alice(),
{
    let people = sample_people();
    let ghost all = people@;
    let named_alice = |name: &String| -> (b: bool)
        ensures
            b == occurs_in("Alice"@, name@),
        { contains(name.as_str(), "Alice") };
    let result = find_by_keypath(people, Person::name_r(), named_alice);
    proof {
        let keypath = PersonName;
        assert(all_present(&keypath, all));
        reveal_strlit("Alice Johnson");
        reveal_strlit("Alice");
        let n = "Alice"@.len() as int;
        assert("Alice Johnson"@.subrange(0, 0 + n) =~= "Alice"@);
        assert(occurs_in("Alice"@, "Alice Johnson"@));
        assert(views(all)[0].name == all[0].name@);
        assert(present(&keypath, all[0]));
        if result is Ok && result->Ok_0 is Some {
            let found = result->Ok_0->0;
            let k = choose|k: int| #[trigger]
                stops_at(&keypath, &named_alice, all, k, false) && found == all[k];
            if k > 0 {
                assert(yields(&named_alice, field(&keypath, all[0]), false));
            }
            assert(found@ == views(all)[0]);
        } else if result is Ok {
            assert(yields(&named_alice, field(&keypath, all[0]), false));
        }
    }
    result
}

/// `people` holds the records of the sample in another arrangement: the one
/// at `p` is the sample's record at `origin[p]`, and no record is there twice.
pub open spec fn sample_arranged(people: Seq<Person>, origin: Seq<int>) -> bool {
    &&& people.len() == 5
    &&& origin.len() == 5
    &&& forall|p: int|
        0 <= p < 5 ==> 0 <= #[trigger] origin[p] < 5 && people[p]@ == sample()[origin[p]]
    &&& forall|p: int, q: int| 0 <= p < q < 5 ==> #[trigger] origin[p] != #[trigger] origin[q]
}

/// The sample by rising age: a rearrangement of the sample in which no
/// person is older than the next.
pub fn sort_by_age_example() -> (result: KeyPathResult<Vec<Person>>)
    ensures
        result matches Ok(sorted) && (forall|a: int, b: int|
            0 <= a < b < 5 ==> #[trigger] sorted@[a].age <= #[trigger] sorted@[b].age) && (exists|
            origin: Seq<int>,
        | #[trigger]
            sample_arranged(sorted@, origin)),
{
    let mut people = sample_people();
    let ghost all = people@;
    let by_age = |a: &u32, b: &u32| -> (o: Ordering)
        ensures
            (o == Ordering::Less) == (*a < *b),
        {
            if *a < *b {
                Ordering::Less
            } else if *a == *b {
                Ordering::Equal
            } else {
                Ordering::Greater
            }
        };
    let result = sort_by_keypath(&mut people, Person::age_r(), by_age);
    proof {
        let keypath = PersonAge;
        assert(all_present(&keypath, all));
        let younger = |a: u32, b: u32| a < b;
        assert(orders_by(&by_age, younger));
        assert(strict_weak_order(younger));
        let origin = choose|origin: Seq<int>| #[trigger]
            sorted_by(&keypath, &by_age, all, people@, origin);
        lemma_stable_order_is_order(fields(&keypath, people@), origin, younger);
        assert forall|a: int, b: int| 0 <= a < b < 5 implies people@[a].age <= people@[b].age by {
            assert(!younger(fields(&keypath, people@)[b], fields(&keypath, people@)[a]));
        }
        assert forall|p: int| 0 <= p < 5 implies 0 <= #[trigger] origin[p] < 5 && people@[p]@
            == sample()[origin[p]] by {
            assert(people@[p] == all[origin[p]]);
            assert(views(all)[origin[p]] == all[origin[p]]@);
        }
        assert(sample_arranged(people@, origin));
    }
    match result {
        Ok(()) => Ok(people),
        Err(e) => Err(e),
    }
}

} // verus!
