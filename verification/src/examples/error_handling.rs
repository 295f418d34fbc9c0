//! Going on where a field is absent, in place of failing.

use vstd::prelude::*;
use vstd::string::*;
use crate::error::KeyPathResult;
use crate::examples::data::{Employment, Person};
use crate::examples::sample::{sample, sample_people, texts, views, PersonView};
use crate::keypath::compose;
use crate::traits::KeyPathsOperable;

verus! {

/// The employer of each person who has one, in order.
pub open spec fn employers(people: Seq<PersonView>) -> Seq<Seq<char>>
    decreases people.len(),
{
    if people.len() == 0 {
        Seq::empty()
    } else {
        let before = employers(people.drop_last());
        match people.last().employment {
            Some(e) => before.push(e.company),
            None => before,
        }
    }
}

/// The employers of the sample: Eve has none and is passed over.
pub proof fn lemma_sample_employers()
    ensures
        employers(sample()) == seq!["TechCorp"@, "TechCorp"@, "DataCorp"@, "DataCorp"@],
{
    reveal_with_fuel(employers, 6);
    let s4 = sample().drop_last();
    let s3 = s4.drop_last();
    let s2 = s3.drop_last();
    let s1 = s2.drop_last();
    assert(employers(s1.drop_last()) =~= Seq::<Seq<char>>::empty());
    assert(employers(s1) =~= seq!["TechCorp"@]);
    assert(employers(s2) =~= seq!["TechCorp"@, "TechCorp"@]);
    assert(employers(s3) =~= seq!["TechCorp"@, "TechCorp"@, "DataCorp"@]);
    assert(employers(s4) =~= seq!["TechCorp"@, "TechCorp"@, "DataCorp"@, "DataCorp"@]);
    assert(employers(sample()) =~= seq!["TechCorp"@, "TechCorp"@, "DataCorp"@, "DataCorp"@]);
}

/// The employer of everyone who has one: a person without employment is
/// passed over, and the call succeeds.
pub fn graceful_degradation_example() -> (result: KeyPathResult<Vec<String>>)
    ensures
        result matches Ok(companies) && texts(companies@) == seq![
            "TechCorp"@,
            "TechCorp"@,
            "DataCorp"@,
            "DataCorp"@,
        ],
{
    let people = sample_people();
    let employer = compose(Person::employment_fr(), Employment::company_r());
    let mut companies: Vec<String> = Vec::new();
    let mut i: usize = 0;
    while i < people.len()
        invariant
            i <= people@.len(),
            texts(companies@) == employers(views(people@).take(i as int)),
        decreases people@.len() - i,
    {
        assert(views(people@).take(i as int + 1).drop_last() == views(people@).take(i as int));
        assert(views(people@)[i as int] == people@[i as int]@);
        match people[i].get_at_keypath(&employer) {
            Ok(company) => {
                companies.push(company.clone());
                assert(texts(companies@) =~= employers(views(people@).take(i as int + 1)));
            },
            Err(_) => {
                assert(texts(companies@) =~= employers(views(people@).take(i as int + 1)));
            },
        }
        i += 1;
    }
    proof {
        assert(views(people@).take(i as int) == views(people@));
        lemma_sample_employers();
    }
    Ok(companies)
}

} // verus!
