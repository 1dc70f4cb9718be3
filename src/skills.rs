//! Resolution of requested skill names against a catalog, and the initial
//! input a child session receives.
use vstd::prelude::*;

verus! {

/// A registered skill: its name and the file that holds it.
pub struct Skill {
    pub name: String,
    pub path: String,
}

/// One item of a child session's initial input.
pub enum UserInput {
    Text { text: String },
    Skill { name: String, path: String },
}

pub open spec fn is_first_match(catalog: Seq<Skill>, name: Seq<char>, i: int) -> bool {
    &&& 0 <= i < catalog.len()
    &&& catalog[i].name@ == name
    &&& forall|j: int| 0 <= j < i ==> (#[trigger] catalog[j]).name@ != name
}

/// The skill resolved for a name: the first catalog entry that carries it.
pub open spec fn resolves_to(s: Skill, catalog: Seq<Skill>, name: Seq<char>) -> bool {
    exists|i: int| is_first_match(catalog, name, i) && s.name@ == catalog[i].name@ && s.path@
        == catalog[i].path@
}

pub open spec fn in_catalog(catalog: Seq<Skill>, name: Seq<char>) -> bool {
    exists|i: int| 0 <= i < catalog.len() && (#[trigger] catalog[i]).name@ == name
}

fn find_skill(catalog: &Vec<Skill>, name: &String) -> (r: Option<Skill>)
    ensures
        match r {
            Some(s) => resolves_to(s, catalog@, name@),
            None => !in_catalog(catalog@, name@),
        },
{
    let mut i: usize = 0;
    while i < catalog.len()
        invariant
            i <= catalog.len(),
            forall|j: int| 0 <= j < i ==> (#[trigger] catalog@[j]).name@ != name@,
        decreases catalog.len() - i,
    {
        if catalog[i].name == *name {
            let s = Skill { name: catalog[i].name.clone(), path: catalog[i].path.clone() };
            assert(is_first_match(catalog@, name@, i as int));
            return Some(s);
        }
        i += 1;
    }
    None
}

/// Resolves every requested name in order, stopping at the first one the
/// catalog lacks, which is returned as the error.
pub fn resolve_skills(requested: &Vec<String>, catalog: &Vec<Skill>) -> (r: Result<
    Vec<Skill>,
    String,
>)
    ensures
        match r {
            Ok(found) => {
                &&& found@.len() == requested@.len()
                &&& forall|i: int|
                    0 <= i < found@.len() ==> resolves_to(
                        #[trigger] found@[i],
                        catalog@,
                        requested@[i]@,
                    )
            },
            Err(missing) => exists|k: int|
                0 <= k < requested@.len() && requested@[k]@ == missing@ && !in_catalog(
                    catalog@,
                    missing@,
                ) && forall|j: int| 0 <= j < k ==> in_catalog(catalog@, (#[trigger] requested@[j])@),
        },
{
    let mut found: Vec<Skill> = Vec::new();
    let mut i: usize = 0;
    while i < requested.len()
        invariant
            i <= requested.len(),
            found@.len() == i,
            forall|j: int|
                0 <= j < i ==> resolves_to(#[trigger] found@[j], catalog@, requested@[j]@),
            forall|j: int| 0 <= j < i ==> in_catalog(catalog@, (#[trigger] requested@[j])@),
        decreases requested.len() - i,
    {
        match find_skill(catalog, &requested[i]) {
            Some(s) => {
                proof {
                    let k = choose|k: int|
                        is_first_match(catalog@, requested@[i as int]@, k) && s.name@
                            == catalog@[k].name@ && s.path@ == catalog@[k].path@;
                    assert(0 <= k < catalog@.len() && catalog@[k].name@ == requested@[i as int]@);
                }
                found.push(s);
            },
            None => {
                return Err(requested[i].clone());
            },
        }
        i += 1;
    }
    Ok(found)
}

/// The requested names without repeats, first occurrence kept.
pub open spec fn first_occurrences(names: Seq<Seq<char>>) -> Seq<Seq<char>>
    decreases names.len(),
{
    if names.len() == 0 {
        Seq::empty()
    } else {
        let prev = first_occurrences(names.drop_last());
        if prev.contains(names.last()) {
            prev
        } else {
            prev.push(names.last())
        }
    }
}

pub open spec fn names_of(v: Seq<String>) -> Seq<Seq<char>> {
    v.map_values(|s: String| s@)
}

/// Resolves the requested names with repeats dropped (first occurrence
/// kept); on failure reports every distinct missing name, in request order.
pub fn resolve_unique_skills(requested: &Vec<String>, catalog: &Vec<Skill>) -> (r: Result<
    Vec<Skill>,
    Vec<String>,
>)
    ensures
        ({
            let uniq = first_occurrences(names_of(requested@));
            match r {
                Ok(found) => {
                    &&& found@.len() == uniq.len()
                    &&& forall|i: int|
                        0 <= i < found@.len() ==> resolves_to(#[trigger] found@[i], catalog@, uniq[i])
                },
                Err(missing) => {
                    &&& names_of(missing@) == uniq.filter(|n: Seq<char>| !in_catalog(catalog@, n))
                    &&& missing@.len() > 0
                },
            }
        }),
{
    let mut seen: Vec<String> = Vec::new();
    let mut found: Vec<Skill> = Vec::new();
    let mut missing: Vec<String> = Vec::new();
    let mut i: usize = 0;
    while i < requested.len()
        invariant
            i <= requested.len(),
            names_of(seen@) == first_occurrences(names_of(requested@.subrange(0, i as int))),
            names_of(missing@) == names_of(seen@).filter(|n: Seq<char>| !in_catalog(catalog@, n)),
            missing@.len() == 0 ==> found@.len() == seen@.len(),
            missing@.len() == 0 ==> forall|j: int|
                0 <= j < found@.len() ==> resolves_to(#[trigger] found@[j], catalog@, seen@[j]@),
        decreases requested.len() - i,
    {
        let name = &requested[i];
        let ghost pre = names_of(requested@.subrange(0, i as int));
        let ghost nxt = names_of(requested@.subrange(0, i + 1));
        assert(nxt.drop_last() == pre);
        assert(nxt.last() == name@);
        let mut dup = false;
        let mut k: usize = 0;
        while k < seen.len()
            invariant
                k <= seen.len(),
                dup == exists|j: int| 0 <= j < k && (#[trigger] seen@[j])@ == name@,
            decreases seen.len() - k,
        {
            if seen[k] == *name {
                dup = true;
            }
            k += 1;
        }
        let ghost sn = names_of(seen@);
        assert(dup == sn.contains(name@)) by {
            if dup {
                let j = choose|j: int| 0 <= j < seen@.len() && (#[trigger] seen@[j])@ == name@;
                assert(sn[j] == name@);
            }
            if sn.contains(name@) {
                let j = choose|j: int| 0 <= j < sn.len() && sn[j] == name@;
                assert(seen@[j]@ == name@);
            }
        }
        if !dup {
            let ghost m0 = names_of(missing@);
            let ghost f0 = found@;
            let ghost s0 = seen@;
            seen.push(name.clone());
            assert(names_of(seen@) == sn.push(name@));
            match find_skill(catalog, name) {
                Some(s) => {
                    if missing.len() == 0 {
                        found.push(s);
                        assert forall|j: int| 0 <= j < found@.len() implies resolves_to(
                            #[trigger] found@[j],
                            catalog@,
                            seen@[j]@,
                        ) by {
                            if j < f0.len() {
                                assert(found@[j] == f0[j]);
                                assert(seen@[j] == s0[j]);
                            }
                        }
                    }
                    proof {
                        let k2 = choose|k2: int|
                            is_first_match(catalog@, name@, k2) && s.name@ == catalog@[k2].name@
                                && s.path@ == catalog@[k2].path@;
                        assert(in_catalog(catalog@, name@)) by {
                            assert(catalog@[k2].name@ == name@);
                        }
                        assert(sn.push(name@).filter(|n: Seq<char>| !in_catalog(catalog@, n))
                            == sn.filter(|n: Seq<char>| !in_catalog(catalog@, n))) by {
                            sn.lemma_filter_push(name@, |n: Seq<char>| !in_catalog(catalog@, n));
                        }
                    }
                },
                None => {
                    missing.push(name.clone());
                    proof {
                        assert(names_of(missing@) == m0.push(name@));
                        assert(sn.push(name@).filter(|n: Seq<char>| !in_catalog(catalog@, n))
                            == sn.filter(|n: Seq<char>| !in_catalog(catalog@, n)).push(name@)) by {
                            sn.lemma_filter_push(name@, |n: Seq<char>| !in_catalog(catalog@, n));
                        }
                    }
                },
            }
        }
        i += 1;
    }
    assert(requested@.subrange(0, requested@.len() as int) == requested@);
    if missing.len() > 0 {
        Err(missing)
    } else {
        Ok(found)
    }
}

/// The prompt text followed by one reference per resolved skill, in order.
pub fn initial_inputs(prompt: String, skills: Vec<Skill>) -> (r: Vec<UserInput>)
    ensures
        r@.len() == skills@.len() + 1,
        (r@[0] matches UserInput::Text { text } && text@ == prompt@),
        forall|i: int|
            0 <= i < skills@.len() ==> ((#[trigger] r@[i + 1]) matches UserInput::Skill { name, path }
                && name@ == skills@[i].name@ && path@ == skills@[i].path@),
{
    let mut r: Vec<UserInput> = Vec::new();
    r.push(UserInput::Text { text: prompt });
    let mut skills = skills;
    let ghost all = skills@;
    let mut rest: Vec<Skill> = Vec::new();
    while skills.len() > 0
        invariant
            skills@.len() <= all.len(),
            skills@ == all.subrange(0, skills@.len() as int),
            rest@.len() + skills@.len() == all.len(),
            forall|j: int| 0 <= j < rest@.len() ==> (#[trigger] rest@[j]) == all[all.len() - 1 - j],
        decreases skills@.len(),
    {
        let s = skills.pop().unwrap();
        rest.push(s);
    }
    while rest.len() > 0
        invariant
            rest@.len() <= all.len(),
            r@.len() == all.len() - rest@.len() + 1,
            (r@[0] matches UserInput::Text { text } && text@ == prompt@),
            forall|j: int| 0 <= j < rest@.len() ==> (#[trigger] rest@[j]) == all[all.len() - 1 - j],
            forall|i: int|
                0 <= i < all.len() - rest@.len() ==> ((#[trigger] r@[i + 1]) matches UserInput::Skill {
                    name,
                    path,
                } && name@ == all[i].name@ && path@ == all[i].path@),
        decreases rest@.len(),
    {
        let ghost k = all.len() - rest@.len();
        let s = rest.pop().unwrap();
        assert(s == all[k]);
        r.push(UserInput::Skill { name: s.name, path: s.path });
    }
    r
}

} // verus!
