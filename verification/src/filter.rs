use vstd::prelude::*;

use crate::text::{
    all_white_space, ascii_lower, decimal_digits, decimal_string, eq_ignore_ascii_case,
    law_trim_ignores_surrounding_space, equal_ignoring_ascii_case, pad_zeros,
    trim, trimmed, zero_padded,
};
use crate::str_map::{keys_distinct, lemma_map_of_dom, lemma_map_of_value, map_of};
use crate::{
    Compensation, PreferredStudentYears, opportunity_link, opportunity_url, ProcessedOpportunities, ProcessedOpportunity,
    ProcessedOpportunityView,
};

verus! {

/// Whether an opportunity is worth a look: it runs in 2023 or 2024 (or does
/// not say when), it takes first-year students (or does not say whom), and
/// it pays by salary, work study or independent study (or does not say how).
pub open spec fn selected(o: ProcessedOpportunityView) -> bool {
    &&& match o.academic_years {
        Some(ys) => ys.contains(2024) || ys.contains(2023),
        None => true,
    }
    &&& match o.preferred_student_years {
        Some(y) => y.first_year,
        None => true,
    }
    &&& match o.compensation {
        Some(c) => c.independent_study || c.salary || c.work_study,
        None => true,
    }
}

/// `o` with nothing said of its academic years, student years or pay.
pub open spec fn unrestricted(o: ProcessedOpportunityView) -> ProcessedOpportunityView {
    ProcessedOpportunityView {
        academic_years: None,
        preferred_student_years: None,
        compensation: None,
        ..o
    }
}

/// The selection looks at three things, each on its own: an opportunity
/// that says nothing of them is selected; one that says only when it runs is
/// selected exactly when that includes 2023 or 2024; one that says only whom
/// it takes, exactly when that includes first-year students; one that says
/// only how it pays, exactly when it pays by salary, independent study or
/// work study (volunteering alone does not count); and an opportunity is
/// selected exactly when each of the three, taken alone, would be. (`ys`,
/// `p` and `c` are any years, student years and pay.)
pub proof fn law_selection_by_parts(
    o: ProcessedOpportunityView,
    ys: Seq<usize>,
    p: PreferredStudentYears,
    c: Compensation,
)
    ensures
        selected(unrestricted(o)),
        selected(ProcessedOpportunityView { academic_years: Some(ys), ..unrestricted(o) }) <==> (
        ys.contains(2023) || ys.contains(2024)),
        selected(ProcessedOpportunityView { preferred_student_years: Some(p), ..unrestricted(o) })
            <==> p.first_year,
        selected(ProcessedOpportunityView { compensation: Some(c), ..unrestricted(o) }) <==> (c.salary
            || c.independent_study || c.work_study),
        selected(o) <==> {
            &&& selected(ProcessedOpportunityView { academic_years: o.academic_years, ..unrestricted(o) })
            &&& selected(
                ProcessedOpportunityView {
                    preferred_student_years: o.preferred_student_years,
                    ..unrestricted(o)
                },
            )
            &&& selected(ProcessedOpportunityView { compensation: o.compensation, ..unrestricted(o) })
        },
{
}

fn contains_year(ys: &Vec<usize>, y: usize) -> (r: bool)
    ensures
        r == ys@.contains(y),
{
    let mut i: usize = 0;
    while i < ys.len()
        invariant
            i <= ys.len(),
            forall|j: int| 0 <= j < i ==> ys@[j] != y,
        decreases ys.len() - i,
    {
        if ys[i] == y {
            assert(ys@[i as int] == y);
            return true;
        }
        i = i + 1;
    }
    false
}

/// Whether an opportunity is worth a look.
pub fn is_selected(o: &ProcessedOpportunity) -> (r: bool)
    ensures
        r == selected(o@),
{
    let years_ok = match &o.academic_years {
        Some(ys) => contains_year(ys, 2024) || contains_year(ys, 2023),
        None => true,
    };
    let students_ok = match &o.preferred_student_years {
        Some(y) => y.first_year,
        None => true,
    };
    let pay_ok = match &o.compensation {
        Some(c) => c.independent_study || c.salary || c.work_study,
        None => true,
    };
    years_ok && students_ok && pay_ok
}

/// The entries worth a look, in the order given.
pub open spec fn selected_entries(es: Seq<(Seq<char>, ProcessedOpportunityView)>) -> Seq<
    (Seq<char>, ProcessedOpportunityView),
>
    decreases es.len(),
{
    if es.len() == 0 {
        es
    } else {
        let rest = selected_entries(es.drop_last());
        if selected(es.last().1) {
            rest.push(es.last())
        } else {
            rest
        }
    }
}

/// The selection keeps exactly the entries worth a look: everything it keeps
/// is worth a look and comes from the entries, and every entry worth a look
/// is kept.
pub proof fn law_selection_exact(es: Seq<(Seq<char>, ProcessedOpportunityView)>)
    ensures
        forall|i: int|
            #![trigger selected_entries(es)[i]]
            0 <= i < selected_entries(es).len() ==> selected(selected_entries(es)[i].1)
                && es.contains(selected_entries(es)[i]),
        forall|i: int|
            0 <= i < es.len() && selected(#[trigger] es[i].1) ==> selected_entries(es).contains(
                es[i],
            ),
        selected_entries(es).len() <= es.len(),
    decreases es.len(),
{
    if es.len() > 0 {
        let init = es.drop_last();
        law_selection_exact(init);
        let r = selected_entries(es);
        let ri = selected_entries(init);
        assert forall|i: int| 0 <= i < r.len() implies selected(#[trigger] r[i].1) && es.contains(
            r[i],
        ) by {
            if i < ri.len() {
                assert(r[i] == ri[i]);
                assert(selected(ri[i].1) && init.contains(ri[i]));
                let j = choose|j: int| 0 <= j < init.len() && init[j] == ri[i];
                assert(es[j] == init[j]);
            } else {
                assert(r[i] == es.last());
                assert(es[es.len() - 1] == es.last());
            }
        }
        assert forall|i: int| 0 <= i < es.len() && selected(#[trigger] es[i].1) implies r.contains(
            es[i],
        ) by {
            if i < es.len() - 1 {
                assert(init[i] == es[i]);
                assert(ri.contains(init[i]));
                let j = choose|j: int| 0 <= j < ri.len() && ri[j] == init[i];
                assert(r[j] == ri[j]);
            } else {
                assert(r[r.len() - 1] == es.last());
            }
        }
    }
}

/// Where no id occurs twice among the entries, none occurs twice among those
/// kept; and the ids kept are exactly the ids that the entries map to an
/// opportunity worth a look, each with that opportunity.
pub proof fn law_selected_ids(es: Seq<(Seq<char>, ProcessedOpportunityView)>)
    requires
        keys_distinct(es),
    ensures
        keys_distinct(selected_entries(es)),
        forall|k: Seq<char>|
            (exists|i: int|
                0 <= i < selected_entries(es).len() && #[trigger] selected_entries(es)[i].0 == k)
                <==> (map_of(es).contains_key(k) && selected(map_of(es)[k])),
        forall|i: int|
            0 <= i < selected_entries(es).len() ==> map_of(es)[#[trigger] selected_entries(
                es,
            )[i].0] == selected_entries(es)[i].1,
    decreases es.len(),
{
    law_selection_exact(es);
    let r = selected_entries(es);
    if es.len() > 0 {
        let init = es.drop_last();
        assert(keys_distinct(init)) by {
            assert forall|i: int, j: int|
                0 <= i < init.len() && 0 <= j < init.len() && i != j implies #[trigger] init[i].0
                != #[trigger] init[j].0 by {
                assert(init[i] == es[i] && init[j] == es[j]);
            }
        }
        law_selection_exact(init);
        let ri = selected_entries(init);
        assert(keys_distinct(r)) by {
            if selected(es.last().1) {
                assert forall|i: int, j: int|
                    0 <= i < r.len() && 0 <= j < r.len() && i != j implies #[trigger] r[i].0
                    != #[trigger] r[j].0 by {
                    law_selected_ids(init);
                    if i < ri.len() && j < ri.len() {
                        assert(r[i] == ri[i] && r[j] == ri[j]);
                    } else if i < ri.len() {
                        assert(r[i] == ri[i]);
                        assert(init.contains(ri[i]));
                        let m = choose|m: int| 0 <= m < init.len() && init[m] == ri[i];
                        assert(es[m] == init[m]);
                        assert(r[j] == es[es.len() - 1]);
                    } else {
                        assert(r[j] == ri[j]);
                        assert(init.contains(ri[j]));
                        let m = choose|m: int| 0 <= m < init.len() && init[m] == ri[j];
                        assert(es[m] == init[m]);
                        assert(r[i] == es[es.len() - 1]);
                    }
                }
            } else {
                law_selected_ids(init);
            }
        }
    }
    assert forall|i: int| 0 <= i < r.len() implies map_of(es)[#[trigger] r[i].0] == r[i].1 by {
        assert(es.contains(r[i]));
        let m = choose|m: int| 0 <= m < es.len() && es[m] == r[i];
        lemma_map_of_value(es, m);
    }
    assert forall|k: Seq<char>|
        (exists|i: int| 0 <= i < r.len() && #[trigger] r[i].0 == k) <==> (map_of(es).contains_key(
            k,
        ) && selected(map_of(es)[k])) by {
        lemma_map_of_dom(es, k);
        if exists|i: int| 0 <= i < r.len() && #[trigger] r[i].0 == k {
            let i = choose|i: int| 0 <= i < r.len() && #[trigger] r[i].0 == k;
            assert(es.contains(r[i]));
            let m = choose|m: int| 0 <= m < es.len() && es[m] == r[i];
            lemma_map_of_value(es, m);
        }
        if map_of(es).contains_key(k) && selected(map_of(es)[k]) {
            let m = choose|m: int| 0 <= m < es.len() && #[trigger] es[m].0 == k;
            lemma_map_of_value(es, m);
            assert(selected(es[m].1));
            assert(r.contains(es[m]));
            let i = choose|i: int| 0 <= i < r.len() && r[i] == es[m];
            assert(r[i].0 == k);
        }
    }
}

/// The views of a list of entries.
pub open spec fn entries_view(es: Seq<(String, ProcessedOpportunity)>) -> Seq<
    (Seq<char>, ProcessedOpportunityView),
> {
    Seq::new(es.len(), |i: int| (es[i].0@, es[i].1@))
}

/// The opportunities worth a look, with their ids, in the order in which the
/// map holds them.
pub fn select_opportunities(opportunities: ProcessedOpportunities) -> (r: Vec<
    (String, ProcessedOpportunity),
>)
    ensures
        entries_view(r@) == selected_entries(
            opportunities.processed_opportunity_map.entry_seq(),
        ),
        keys_distinct(opportunities.processed_opportunity_map.entry_seq()),
        opportunities.processed_opportunity_map@ == map_of(
            opportunities.processed_opportunity_map.entry_seq(),
        ),
{
    let ghost es = opportunities.processed_opportunity_map.entry_seq();
    let entries = opportunities.processed_opportunity_map.into_entries();
    let n = entries.len();
    let mut rest = entries;
    let mut out: Vec<(String, ProcessedOpportunity)> = Vec::new();
    let mut i: usize = 0;
    assert(es.take(0) =~= Seq::<(Seq<char>, ProcessedOpportunityView)>::empty());
    assert(entries_view(out@) =~= Seq::<(Seq<char>, ProcessedOpportunityView)>::empty());
    while i < n
        invariant
            n == es.len(),
            i <= n,
            rest@.len() == n - i,
            forall|j: int|
                0 <= j < n - i ==> (#[trigger] rest@[j]).0@ == es[j + i].0 && rest@[j].1@ == es[j
                    + i].1,
            entries_view(out@) == selected_entries(es.take(i as int)),
        decreases n - i,
    {
        let ghost old_rest = rest@;
        let ghost before = entries_view(out@);
        let (id, o) = rest.remove(0);
        proof {
            assert forall|j: int| 0 <= j < rest@.len() implies (#[trigger] rest@[j]).0@ == es[j + i
                + 1].0 && rest@[j].1@ == es[j + i + 1].1 by {
                assert(rest@[j] == old_rest[j + 1]);
            }
            assert(es.take(i + 1).drop_last() =~= es.take(i as int));
            assert(es.take(i + 1).last() == es[i as int]);
        }
        if is_selected(&o) {
            let ghost e = (id@, o@);
            out.push((id, o));
            assert(entries_view(out@) =~= before.push(e));
        }
        i = i + 1;
    }
    assert(es.take(n as int) =~= es);
    out
}

/// What is shown of an opportunity before asking about it: its title and
/// link, and its preferred qualifications where it has them.
pub open spec fn header_lines(id: Seq<char>, o: ProcessedOpportunityView) -> Seq<Seq<char>> {
    let first = "Title: "@ + o.title + "\nlink: "@ + opportunity_link(id);
    match o.preferred_qualifications {
        Some(q) => seq![first, "Preferred Qualifications: "@ + trim(q)],
        None => seq![first],
    }
}

/// The views of a list of strings.
pub open spec fn lines_view(v: Seq<String>) -> Seq<Seq<char>> {
    Seq::new(v.len(), |i: int| v[i]@)
}

/// What is shown of an opportunity before asking about it.
pub fn review_header(id: &str, o: &ProcessedOpportunity) -> (lines: Vec<String>)
    ensures
        lines_view(lines@) == header_lines(id@, o@),
{
    let mut first = String::from_str("Title: ");
    first.append(o.title.as_str());
    first.append("\nlink: ");
    let url = opportunity_url(id);
    first.append(url.as_str());
    let mut lines: Vec<String> = Vec::new();
    lines.push(first);
    match &o.preferred_qualifications {
        Some(q) => {
            let mut second = String::from_str("Preferred Qualifications: ");
            let t = trimmed(q.as_str());
            second.append(t.as_str());
            lines.push(second);
        },
        None => {},
    }
    assert(lines_view(lines@) =~= header_lines(id@, o@));
    lines
}

/// Whether there is more to show of an opportunity on request.
pub open spec fn has_details(o: ProcessedOpportunityView) -> bool {
    o.description is Some || o.mentor_areas is Some
}

/// The question asked about the opportunity at `index` (counted from zero)
/// of `count`: its position, counted from one and padded with zeros to the
/// width of `count`, and the answers it takes.
pub open spec fn prompt_text(index: nat, count: nat, details: bool) -> Seq<char> {
    "Open "@ + pad_zeros(decimal_digits(index + 1), decimal_digits(count).len()) + "/"@
        + decimal_digits(count) + "? (y/N"@ + (if details {
        "; d: description"@
    } else {
        ""@
    }) + "): "@
}

/// The question asked about the opportunity `o`, at `index` of `count`.
pub fn review_prompt(index: usize, count: usize, o: &ProcessedOpportunity) -> (s: String)
    requires
        index < count,
    ensures
        s@ == prompt_text(index as nat, count as nat, has_details(o@)),
{
    let count_str = decimal_string(count);
    let width = crate::text::chars_of(count_str.as_str()).len();
    let position = zero_padded(index + 1, width);
    let mut s = String::from_str("Open ");
    s.append(position.as_str());
    s.append("/");
    s.append(count_str.as_str());
    s.append("? (y/N");
    if o.description.is_some() || o.mentor_areas.is_some() {
        s.append("; d: description");
    }
    s.append("): ");
    proof {
        reveal_strlit("");
        assert(""@ =~= Seq::<char>::empty());
    }
    assert(s@ =~= prompt_text(index as nat, count as nat, has_details(o@)));
    s
}

/// What to do after an answer about an opportunity.
#[derive(Debug, PartialEq, Eq)]
pub enum ReviewAction {
    /// Open this address, and go on to the next opportunity.
    Open(String),
    /// Show these lines, and ask again.
    ShowDetails(Vec<String>),
    /// Go on to the next opportunity.
    Next,
}

/// What to do after an answer, as the contracts see it.
pub enum ReviewActionView {
    Open(Seq<char>),
    ShowDetails(Seq<Seq<char>>),
    Next,
}

impl View for ReviewAction {
    type V = ReviewActionView;

    open spec fn view(&self) -> ReviewActionView {
        match self {
            ReviewAction::Open(url) => ReviewActionView::Open(url@),
            ReviewAction::ShowDetails(lines) => ReviewActionView::ShowDetails(lines_view(lines@)),
            ReviewAction::Next => ReviewActionView::Next,
        }
    }
}

/// The description and mentor areas of an opportunity, where it has them.
pub open spec fn detail_lines(o: ProcessedOpportunityView) -> Seq<Seq<char>> {
    (match o.description {
        Some(d) => seq!["Description: "@ + trim(d)],
        None => Seq::empty(),
    }) + (match o.mentor_areas {
        Some(m) => seq!["Mentor Areas: "@ + trim(m)],
        None => Seq::empty(),
    })
}

/// What an answer about the opportunity `id` asks for: `y` (in either case,
/// with white space around it) opens its page, `d` shows its details, and
/// anything else moves on.
pub open spec fn answer_action(id: Seq<char>, o: ProcessedOpportunityView, input: Seq<char>) -> ReviewActionView {
    let a = trim(input);
    if eq_ignore_ascii_case(a, "y"@) {
        ReviewActionView::Open(opportunity_link(id))
    } else if eq_ignore_ascii_case(a, "d"@) {
        ReviewActionView::ShowDetails(detail_lines(o))
    } else {
        ReviewActionView::Next
    }
}

/// An answer is read without the white space around it, such as the line
/// break that ends a line read from the terminal.
pub proof fn law_answer_ignores_surrounding_space(
    id: Seq<char>,
    o: ProcessedOpportunityView,
    pre: Seq<char>,
    input: Seq<char>,
    post: Seq<char>,
)
    requires
        all_white_space(pre),
        all_white_space(post),
    ensures
        answer_action(id, o, pre + input + post) == answer_action(id, o, input),
{
    law_trim_ignores_surrounding_space(pre, input, post);
}

/// What an answer does, told by the answer with the white space around it
/// taken off: `y` or `Y` opens the opportunity's page, and nothing else
/// does; `d` or `D` shows its details; anything else moves on to the next.
pub proof fn law_answer_by_letter(id: Seq<char>, o: ProcessedOpportunityView, input: Seq<char>)
    ensures
        answer_action(id, o, input) is Open <==> (trim(input) == "y"@ || trim(input) == "Y"@),
        (trim(input) == "y"@ || trim(input) == "Y"@) ==> answer_action(id, o, input)
            == ReviewActionView::Open(opportunity_link(id)),
        (trim(input) == "d"@ || trim(input) == "D"@) ==> answer_action(id, o, input)
            == ReviewActionView::ShowDetails(detail_lines(o)),
        (trim(input) != "y"@ && trim(input) != "Y"@ && trim(input) != "d"@ && trim(input) != "D"@)
            ==> answer_action(id, o, input) == ReviewActionView::Next,
{
    reveal_strlit("y");
    reveal_strlit("Y");
    reveal_strlit("d");
    reveal_strlit("D");
    assert("y"@ =~= seq!['y']);
    assert("Y"@ =~= seq!['Y']);
    assert("d"@ =~= seq!['d']);
    assert("D"@ =~= seq!['D']);
    let a = trim(input);
    lemma_one_letter(a, 'y', 'Y');
    lemma_one_letter(a, 'd', 'D');
    if a == seq!['d'] || a == seq!['D'] {
        assert(a[0] != 'y' && a[0] != 'Y');
        assert(a != seq!['y'] && a != seq!['Y']);
    }
}

proof fn lemma_one_letter(a: Seq<char>, lower: char, upper: char)
    requires
        'a' <= lower <= 'z',
        upper as nat + 32 == lower as nat,
    ensures
        eq_ignore_ascii_case(a, seq![lower]) <==> (a == seq![lower] || a == seq![upper]),
{
    if eq_ignore_ascii_case(a, seq![lower]) {
        assert(ascii_lower(a[0]) == ascii_lower(lower));
        if a[0] != lower {
            assert(a =~= seq![upper]);
        } else {
            assert(a =~= seq![lower]);
        }
    }
    if a == seq![upper] {
        assert(ascii_lower(a[0]) == lower);
    }
}

/// What the answer `input` about the opportunity `id` asks for.
pub fn review_answer(id: &str, o: &ProcessedOpportunity, input: &str) -> (r: ReviewAction)
    ensures
        r@ == answer_action(id@, o@, input@),
{
    let a = trimmed(input);
    if equal_ignoring_ascii_case(a.as_str(), "y") {
        ReviewAction::Open(opportunity_url(id))
    } else if equal_ignoring_ascii_case(a.as_str(), "d") {
        let mut lines: Vec<String> = Vec::new();
        match &o.description {
            Some(d) => {
                let mut l = String::from_str("Description: ");
                let t = trimmed(d.as_str());
                l.append(t.as_str());
                lines.push(l);
            },
            None => {},
        }
        match &o.mentor_areas {
            Some(m) => {
                let mut l = String::from_str("Mentor Areas: ");
                let t = trimmed(m.as_str());
                l.append(t.as_str());
                lines.push(l);
            },
            None => {},
        }
        assert(lines_view(lines@) =~= detail_lines(o@));
        ReviewAction::ShowDetails(lines)
    } else {
        ReviewAction::Next
    }
}

} // verus!
