use vstd::prelude::*;

use crate::str_map::{keys_distinct, lemma_map_of_dom, lemma_map_of_value, map_of, StrMap};
use crate::{
    LinkView, Links, Opportunities, Opportunity, OpportunityView, ProcessedOpportunities,
    ProcessedOpportunity, ProcessedOpportunityView,
};

verus! {

/// A card together with the details page of its opportunity.
pub open spec fn processed(l: LinkView, o: OpportunityView) -> ProcessedOpportunityView {
    ProcessedOpportunityView {
        title: l.title,
        short_description: l.description,
        researcher: l.researcher,
        departments: l.departments,
        mentor_areas: o.mentor_areas,
        description: o.description,
        preferred_qualifications: o.preferred_qualifications,
        preferred_student_years: o.preferred_student_years,
        compensation: o.compensation,
        academic_years: o.academic_years,
    }
}

/// Each id that has both a card and a details page, to the two together.
pub open spec fn processed_map(
    links: Map<Seq<char>, LinkView>,
    opportunities: Map<Seq<char>, OpportunityView>,
) -> Map<Seq<char>, ProcessedOpportunityView> {
    Map::new(
        |k: Seq<char>| links.contains_key(k) && opportunities.contains_key(k),
        |k: Seq<char>| processed(links[k], opportunities[k]),
    )
}

/// The join has an entry for exactly the ids that have both a card and a
/// details page; the entry takes its title, short description (the card's
/// description), researcher and departments from the card, and its mentor
/// areas, description, preferred qualifications, preferred student years,
/// compensation and academic years from the details page.
pub proof fn law_processed_fields(
    links: Map<Seq<char>, LinkView>,
    opportunities: Map<Seq<char>, OpportunityView>,
)
    ensures
        forall|id: Seq<char>|
            #[trigger] processed_map(links, opportunities).contains_key(id) <==> (
            links.contains_key(id) && opportunities.contains_key(id)),
        forall|id: Seq<char>|
            #[trigger] processed_map(links, opportunities).contains_key(id) ==> {
                let p = processed_map(links, opportunities)[id];
                let l = links[id];
                let o = opportunities[id];
                &&& p.title == l.title
                &&& p.short_description == l.description
                &&& p.researcher == l.researcher
                &&& p.departments == l.departments
                &&& p.mentor_areas == o.mentor_areas
                &&& p.description == o.description
                &&& p.preferred_qualifications == o.preferred_qualifications
                &&& p.preferred_student_years == o.preferred_student_years
                &&& p.compensation == o.compensation
                &&& p.academic_years == o.academic_years
            },
{
}

fn copy_text(s: &Option<String>) -> (r: Option<String>)
    ensures
        crate::opt_view(r) == crate::opt_view(*s),
{
    match s {
        Some(t) => Some(t.clone()),
        None => None,
    }
}

fn copy_years(v: &Option<Vec<usize>>) -> (r: Option<Vec<usize>>)
    ensures
        crate::years_view(r) == crate::years_view(*v),
{
    match v {
        Some(ys) => {
            let mut out: Vec<usize> = Vec::new();
            let mut i: usize = 0;
            while i < ys.len()
                invariant
                    i <= ys.len(),
                    out@ == ys@.take(i as int),
                decreases ys.len() - i,
            {
                out.push(ys[i]);
                i = i + 1;
                assert(out@ =~= ys@.take(i as int));
            }
            assert(ys@.take(ys.len() as int) =~= ys@);
            Some(out)
        },
        None => None,
    }
}

/// A copy of the details page `o`.
fn copy_opportunity(o: &Opportunity) -> (r: Opportunity)
    ensures
        r@ == o@,
{
    Opportunity {
        mentor_areas: copy_text(&o.mentor_areas),
        description: copy_text(&o.description),
        preferred_qualifications: copy_text(&o.preferred_qualifications),
        preferred_student_years: o.preferred_student_years,
        compensation: o.compensation,
        academic_years: copy_years(&o.academic_years),
    }
}

/// Joins the cards of the listing with the details pages: each opportunity
/// that has both is kept, with the fields of each; one that lacks either is
/// left out.
pub fn process_opportunities(links: Links, opportunities: &Opportunities) -> (r:
    ProcessedOpportunities)
    ensures
        r.processed_opportunity_map@ == processed_map(
            links.links_map@,
            opportunities.opportunity_map@,
        ),
{
    let ghost lm = links.links_map@;
    let ghost om = opportunities.opportunity_map@;
    let ghost es = links.links_map.entry_seq();
    let entries = links.links_map.into_entries();
    let n = entries.len();
    let mut result: StrMap<ProcessedOpportunity> = StrMap::new();
    let mut rest = entries;
    let mut i: usize = 0;
    while i < n
        invariant
            n == es.len(),
            i <= n,
            keys_distinct(es),
            lm == map_of(es),
            om == opportunities.opportunity_map@,
            rest@.len() == n - i,
            forall|j: int|
                0 <= j < n - i ==> (#[trigger] rest@[j]).0@ == es[j + i].0 && rest@[j].1@ == es[j
                    + i].1,
            result@ == Map::new(
                |k: Seq<char>|
                    (exists|j: int| 0 <= j < i && #[trigger] es[j].0 == k) && om.contains_key(k),
                |k: Seq<char>| processed(lm[k], om[k]),
            ),
        decreases n - i,
    {
        let ghost old_rest = rest@;
        let ghost before = result@;
        let (id, link) = rest.remove(0);
        assert(id@ == es[i as int].0 && link@ == es[i as int].1);
        proof {
            lemma_map_of_value(es, i as int);
            assert forall|j: int| 0 <= j < rest@.len() implies (#[trigger] rest@[j]).0@ == es[j + i
                + 1].0 && rest@[j].1@ == es[j + i + 1].1 by {
                assert(rest@[j] == old_rest[j + 1]);
            }
        }
        match opportunities.opportunity_map.get(id.as_str()) {
            Some(o) => {
                let o2 = copy_opportunity(o);
                let ghost k = id@;
                let p = ProcessedOpportunity {
                    title: link.title,
                    short_description: link.description,
                    researcher: link.researcher,
                    departments: link.departments,
                    mentor_areas: o2.mentor_areas,
                    description: o2.description,
                    preferred_qualifications: o2.preferred_qualifications,
                    preferred_student_years: o2.preferred_student_years,
                    compensation: o2.compensation,
                    academic_years: o2.academic_years,
                };
                assert(p@ == processed(lm[k], om[k]));
                result.insert(id, p);
                assert(result@ =~= Map::new(
                    |k: Seq<char>|
                        (exists|j: int| 0 <= j < i + 1 && #[trigger] es[j].0 == k) && om.contains_key(
                            k,
                        ),
                    |k: Seq<char>| processed(lm[k], om[k]),
                )) by {
                    assert(es[i as int].0 == k);
                }
            },
            None => {
                let ghost k = id@;
                assert(result@ =~= Map::new(
                    |k: Seq<char>|
                        (exists|j: int| 0 <= j < i + 1 && #[trigger] es[j].0 == k) && om.contains_key(
                            k,
                        ),
                    |k: Seq<char>| processed(lm[k], om[k]),
                )) by {
                    assert(es[i as int].0 == k);
                }
            },
        }
        i = i + 1;
    }
    assert(result@ =~= processed_map(lm, om)) by {
        assert forall|k: Seq<char>| #[trigger] lm.contains_key(k) implies exists|j: int|
            0 <= j < n && #[trigger] es[j].0 == k by {
            lemma_map_of_dom(es, k);
        }
        assert forall|k: Seq<char>|
            (exists|j: int| 0 <= j < n && #[trigger] es[j].0 == k) implies lm.contains_key(k) by {
            lemma_map_of_dom(es, k);
        }
    }
    ProcessedOpportunities { processed_opportunity_map: result }
}

} // verus!
