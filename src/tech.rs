//! Technologies found on a target, or named by the user.

use vstd::prelude::*;
use crate::text::{chars_of, split_chars, split_on, string_of, views};

verus! {

/// A technology: its name and its category.
#[derive(Debug, PartialEq, Eq)]
pub struct Tech {
    pub name: String,
    pub category: String,
}

pub open spec fn tech_view(t: Tech) -> (Seq<char>, Seq<char>) {
    (t.name@, t.category@)
}

pub open spec fn tech_views(ts: Seq<Tech>) -> Seq<(Seq<char>, Seq<char>)> {
    ts.map_values(|t: Tech| tech_view(t))
}

pub open spec fn has_name(ts: Seq<(Seq<char>, Seq<char>)>, name: Seq<char>) -> bool {
    exists|i: int| 0 <= i < ts.len() && (#[trigger] ts[i]).0 == name
}

/// Each named technology that the list lacks is added, with no category,
/// in the order named; a name already present is skipped.
pub open spec fn merge_spec(
    ts: Seq<(Seq<char>, Seq<char>)>,
    names: Seq<Seq<char>>,
) -> Seq<(Seq<char>, Seq<char>)>
    decreases names.len(),
{
    if names.len() == 0 {
        ts
    } else {
        let m = merge_spec(ts, names.drop_last());
        if has_name(m, names.last()) {
            m
        } else {
            m.push((names.last(), Seq::<char>::empty()))
        }
    }
}

fn find_name(tech: &Vec<Tech>, name: &String) -> (r: bool)
    ensures
        r == has_name(tech_views(tech@), name@),
{
    let mut i: usize = 0;
    while i < tech.len()
        invariant
            i <= tech@.len(),
            forall|j: int| 0 <= j < i ==> (#[trigger] tech@[j]).name@ != name@,
        decreases tech@.len() - i,
    {
        if tech[i].name == *name {
            assert(tech_views(tech@)[i as int].0 == name@);
            return true;
        }
        i = i + 1;
    }
    assert forall|j: int| 0 <= j < tech@.len() implies (#[trigger] tech_views(tech@)[j]).0 != name@ by {
        assert(tech@[j].name@ != name@);
    }
    false
}

/// Adds the comma-separated technologies of `techs` that `tech` lacks.
pub fn include_techs(tech: &mut Vec<Tech>, techs: &str)
    ensures
        tech_views(final(tech)@) == merge_spec(tech_views(old(tech)@), split_on(techs@, ',')),
{
    let cs = chars_of(techs);
    let parts = split_chars(&cs, ',');
    let ghost names = split_on(techs@, ',');
    let mut i: usize = 0;
    while i < parts.len()
        invariant
            i <= parts@.len(),
            views(parts@) == names,
            tech_views(tech@) == merge_spec(tech_views(old(tech)@), names.take(i as int)),
        decreases parts@.len() - i,
    {
        let name = string_of(&parts[i], 0, parts[i].len());
        assert(parts@[i as int]@.subrange(0, parts@[i as int]@.len() as int) =~= parts@[i as int]@);
        assert(names.take(i + 1).drop_last() =~= names.take(i as int));
        assert(names.take(i + 1).last() == name@);
        if !find_name(tech, &name) {
            let ghost prev = tech@;
            let empty = String::new();
            tech.push(Tech { name, category: empty });
            assert(tech_views(tech@) =~= tech_views(prev).push((names[i as int], Seq::<char>::empty())));
        }
        i = i + 1;
    }
    assert(names.take(parts@.len() as int) =~= names);
}

/// The technologies whose presence means the target ignores the case of paths.
pub open spec fn is_case_insensitive_tech(t: (Seq<char>, Seq<char>)) -> bool {
    t == ("IIS"@, "Web servers"@) || t == ("Microsoft ASP.NET"@, "Web Application Frameworks"@)
}

/// Whether the target runs IIS or ASP.NET, whose paths ignore case.
pub fn is_case_insensitive(tech: &Vec<Tech>) -> (r: bool)
    ensures
        r == exists|i: int|
            0 <= i < tech@.len() && is_case_insensitive_tech(#[trigger] tech_views(tech@)[i]),
{
    let iis = String::from_str("IIS");
    let web_servers = String::from_str("Web servers");
    let aspnet = String::from_str("Microsoft ASP.NET");
    let frameworks = String::from_str("Web Application Frameworks");
    let mut i: usize = 0;
    while i < tech.len()
        invariant
            i <= tech@.len(),
            iis@ == "IIS"@,
            web_servers@ == "Web servers"@,
            aspnet@ == "Microsoft ASP.NET"@,
            frameworks@ == "Web Application Frameworks"@,
            forall|j: int| 0 <= j < i ==> !is_case_insensitive_tech(#[trigger] tech_views(tech@)[j]),
        decreases tech@.len() - i,
    {
        let t = &tech[i];
        assert(tech_views(tech@)[i as int] == (t.name@, t.category@));
        if (t.name == iis && t.category == web_servers) || (t.name == aspnet && t.category == frameworks) {
            return true;
        }
        i = i + 1;
    }
    false
}

} // verus!
