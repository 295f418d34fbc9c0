//! Stopping at the first match, and working through every record at once.

use vstd::prelude::*;
use vstd::string::*;
use crate::error::KeyPathResult;
use crate::examples::data::{Person, PersonSkills};
use crate::examples::sample::{alice, sample, sample_people, texts, views};
use crate::higher_order::find_by_keypath;
use crate::model::{all_present, field, present, stops_at, yields};

verus! {

/// Whether `wanted` is among the texts.
pub fn has_text(items: &Vec<String>, wanted: &str) -> (found: bool)
    ensures
        found == texts(items@).contains(wanted@),
{
    let target = String::from_str(wanted);
    let mut i: usize = 0;
    while i < items.len()
        invariant
            i <= items@.len(),
            target@ == wanted@,
            forall|j: int| 0 <= j < i ==> texts(items@)[j] != wanted@,
        decreases items@.len() - i,
    {
        if items[i] == target {
            assert(texts(items@)[i as int] == wanted@);
            return true;
        }
        i += 1;
    }
    false
}

/// The first person with "Rust" among their skills: Alice, the first of the
/// sample, so that nobody else is looked at.
pub fn efficient_filtering_example() -> (result: KeyPathResult<Option<Person>>)
    ensures
        result matches Ok(Some(found)) && found@ == alice(),
{
    let people = sample_people();
    let ghost all = people@;
    let knows_rust = |skills: &Vec<String>| -> (b: bool)
        ensures
            b == texts(skills@).contains("Rust"@),
        { has_text(skills, "Rust") };
    let result = find_by_keypath(people, Person::skills_r(), knows_rust);
    proof {
        let keypath = PersonSkills;
        assert(all_present(&keypath, all));
        assert(views(all)[0] == all[0]@);
        assert(texts(all[0].skills@)[0] == "Rust"@);
        assert(texts(all[0].skills@).contains("Rust"@));
        assert(present(&keypath, all[0]));
        if result is Ok && result->Ok_0 is Some {
            let found = result->Ok_0->0;
            let k = choose|k: int| #[trigger]
                stops_at(&keypath, &knows_rust, all, k, false) && found == all[k];
            if k > 0 {
                assert(yields(&knows_rust, field(&keypath, all[0]), false));
            }
        } else if result is Ok {
            assert(yields(&knows_rust, field(&keypath, all[0]), false));
        }
    }
    result
}

/// The skills of all the people, one after another.
pub open spec fn all_skills(people: Seq<Person>) -> Seq<Seq<char>>
    decreases people.len(),
{
    if people.len() == 0 {
        Seq::empty()
    } else {
        all_skills(people.drop_last()) + texts(people.last().skills@)
    }
}

/// Every skill anyone in the sample has, each once, in the order in which
/// it first occurs.
pub fn batch_operations_example() -> (result: KeyPathResult<Vec<String>>)
    ensures
        result matches Ok(skills) && texts(skills@).no_duplicates() && (forall|skill: Seq<char>|
            #[trigger] texts(skills@).contains(skill) <==> exists|i: int, j: int|
                0 <= i < 5 && 0 <= j < sample()[i].skills.len() && #[trigger] sample()[i].skills[j]
                    == skill),
{
    let people = sample_people();
    let mut skills: Vec<String> = Vec::new();
    let mut i: usize = 0;
    while i < people.len()
        invariant
            i <= people@.len(),
            people@.len() == 5,
            views(people@) == sample(),
            texts(skills@).no_duplicates(),
            forall|skill: Seq<char>| #[trigger]
                texts(skills@).contains(skill) <==> exists|p: int, j: int|
                    0 <= p < i && 0 <= j < sample()[p].skills.len() && #[trigger] sample()[p].skills[j]
                        == skill,
        decreases people@.len() - i,
    {
        let theirs = &people[i].skills;
        assert(views(people@)[i as int] == people@[i as int]@);
        let mut j: usize = 0;
        while j < theirs.len()
            invariant
                j <= theirs@.len(),
                i < people@.len(),
                people@.len() == 5,
                texts(theirs@) == sample()[i as int].skills,
                texts(skills@).no_duplicates(),
                forall|skill: Seq<char>| #[trigger]
                    texts(skills@).contains(skill) <==> (exists|p: int, q: int|
                        0 <= p < i && 0 <= q < sample()[p].skills.len()
                            && #[trigger] sample()[p].skills[q] == skill) || (exists|q: int|
                        0 <= q < j && #[trigger] sample()[i as int].skills[q] == skill),
            decreases theirs@.len() - j,
        {
            let ghost before = texts(skills@);
            let ghost skill = theirs@[j as int]@;
            assert(texts(theirs@)[j as int] == skill);
            if !has_text(&skills, theirs[j].as_str()) {
                skills.push(theirs[j].clone());
                assert(texts(skills@) =~= before.push(skill));
                assert forall|s: Seq<char>| #[trigger] texts(skills@).contains(s) <==> before.contains(
                    s,
                ) || s == skill by {
                    if before.contains(s) {
                        let at = choose|at: int| 0 <= at < before.len() && before[at] == s;
                        assert(texts(skills@)[at] == s);
                    }
                    if s == skill {
                        assert(texts(skills@)[before.len() as int] == s);
                    }
                }
            }
            assert forall|s: Seq<char>| #[trigger] texts(skills@).contains(s) <==> (exists|
                p: int,
                q: int,
            |
                0 <= p < i && 0 <= q < sample()[p].skills.len() && #[trigger] sample()[p].skills[q]
                    == s) || (exists|q: int|
                0 <= q < j + 1 && #[trigger] sample()[i as int].skills[q] == s) by {
                if exists|q: int| 0 <= q < j + 1 && #[trigger] sample()[i as int].skills[q] == s {
                    let q = choose|q: int|
                        0 <= q < j + 1 && #[trigger] sample()[i as int].skills[q] == s;
                    if q < j {
                        assert(sample()[i as int].skills[q] == s);
                    }
                }
                if s == skill {
                    assert(sample()[i as int].skills[j as int] == s);
                }
            }
            j += 1;
        }
        proof {
            assert forall|s: Seq<char>| #[trigger] texts(skills@).contains(s) <==> exists|
                p: int,
                q: int,
            |
                0 <= p < i + 1 && 0 <= q < sample()[p].skills.len() && #[trigger] sample()[p].skills[q]
                    == s by {
                if exists|p: int, q: int|
                    0 <= p < i + 1 && 0 <= q < sample()[p].skills.len()
                        && #[trigger] sample()[p].skills[q] == s {
                    let (p, q) = choose|p: int, q: int|
                        0 <= p < i + 1 && 0 <= q < sample()[p].skills.len()
                            && #[trigger] sample()[p].skills[q] == s;
                    if p < i {
                        assert(sample()[p].skills[q] == s);
                    } else {
                        assert(sample()[i as int].skills[q] == s);
                    }
                }
                if exists|q: int| 0 <= q < j && #[trigger] sample()[i as int].skills[q] == s {
                    let q = choose|q: int| 0 <= q < j && #[trigger] sample()[i as int].skills[q] == s;
                    assert(sample()[i as int].skills[q] == s);
                }
            }
        }
        i += 1;
    }
    Ok(skills)
}

} // verus!
