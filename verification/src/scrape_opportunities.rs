use vstd::prelude::*;

use crate::html::{
    child_at, first_attr_value, lemma_view_children, node_at, node_first_attr, node_text,
    text_of, HtmlNode, SpecNode,
};
use crate::text::{
    parse_usize, parse_usize_spec, split, split_by, str_eq, trim, trimmed,
};
use crate::str_map::{insert_all, keys_of, law_insert_all_keys, StrMap};
use crate::{
    opt_view, Compensation, Opportunities, Opportunity, OpportunityView, PreferredStudentYears, ScrapeError,
    ScrapeErrorView,
};

verus! {

/// Which part of an opportunity's page the scan has reached.
#[derive(Clone, Copy)]
pub enum Progress {
    Start,
    MentorAreas,
    Description,
    PreferredQualifications,
    Details,
    PreferredStudentYear,
    AcademicYear,
}

/// The scan of an opportunity's page: where it is, what it has read so far,
/// and whether it has read the academic years, which end it.
pub struct ScanState {
    pub progress: Progress,
    pub opportunity: OpportunityView,
    pub done: bool,
}

/// An opportunity of which nothing is known yet.
pub open spec fn no_opportunity() -> OpportunityView {
    OpportunityView {
        mentor_areas: None,
        description: None,
        preferred_qualifications: None,
        preferred_student_years: None,
        compensation: None,
        academic_years: None,
    }
}

/// The state in which the scan of a page starts.
pub open spec fn start_state() -> ScanState {
    ScanState { progress: Progress::Start, opportunity: no_opportunity(), done: false }
}

/// The text of a section so far (none yet is the empty text).
pub open spec fn or_empty(s: Option<Seq<char>>) -> Seq<char> {
    match s {
        Some(t) => t,
        None => Seq::empty(),
    }
}

/// A section with the line `t` added.
pub open spec fn add_line(s: Option<Seq<char>>, t: Seq<char>) -> Option<Seq<char>> {
    Some(or_empty(s) + t + "\n"@)
}

/// The scan after the text `t` of a node of the section `section`: a header
/// moves the scan to the next section, any other text is a line of the
/// section (of `section`, even after a header in the same node).
pub open spec fn section_text(st: ScanState, section: Progress, t: Seq<char>) -> ScanState {
    let o = st.opportunity;
    match section {
        Progress::MentorAreas => if t == "Description:"@ {
            ScanState {
                progress: Progress::Description,
                opportunity: OpportunityView { description: Some(Seq::empty()), ..o },
                ..st
            }
        } else {
            ScanState {
                opportunity: OpportunityView { mentor_areas: add_line(o.mentor_areas, t), ..o },
                ..st
            }
        },
        Progress::Description => if t == "Preferred Qualifications"@ {
            ScanState {
                progress: Progress::PreferredQualifications,
                opportunity: OpportunityView {
                    preferred_qualifications: Some(Seq::empty()),
                    ..o
                },
                ..st
            }
        } else if t == "Details:"@ {
            ScanState { progress: Progress::Details, ..st }
        } else {
            ScanState {
                opportunity: OpportunityView { description: add_line(o.description, t), ..o },
                ..st
            }
        },
        Progress::PreferredQualifications => if t == "Details:"@ {
            ScanState { progress: Progress::Details, ..st }
        } else {
            ScanState {
                opportunity: OpportunityView {
                    preferred_qualifications: add_line(o.preferred_qualifications, t),
                    ..o
                },
                ..st
            }
        },
        _ => st,
    }
}

/// The scan after the text nodes among `cs`, read in the section `section`.
pub open spec fn section_texts(st: ScanState, section: Progress, cs: Seq<SpecNode>) -> ScanState
    decreases cs.len(),
{
    if cs.len() == 0 {
        st
    } else {
        let prev = section_texts(st, section, cs.drop_last());
        match text_of(cs.last()) {
            Some(t) => section_text(prev, section, t),
            None => prev,
        }
    }
}

/// Whether the cell `k` of a compensation row says `Yes`.
pub open spec fn yes_cell(cells: Seq<SpecNode>, k: int) -> Result<bool, ScrapeErrorView> {
    if 0 <= k < cells.len() {
        match child_at(cells[k], seq![3int, 0int]) {
            Some(c) => match text_of(c) {
                Some(t) => Ok(trim(t) == "Yes"@),
                None => Err(ScrapeErrorView::CompensationNotText),
            },
            None => Err(ScrapeErrorView::MissingNode),
        }
    } else {
        Err(ScrapeErrorView::MissingNode)
    }
}

/// The compensation that a row of the details shows.
pub open spec fn compensation_of(cells: Seq<SpecNode>) -> Result<Compensation, ScrapeErrorView> {
    match yes_cell(cells, 1) {
        Err(e) => Err(e),
        Ok(volunteer) => match yes_cell(cells, 3) {
            Err(e) => Err(e),
            Ok(salary) => match yes_cell(cells, 5) {
                Err(e) => Err(e),
                Ok(independent_study) => match yes_cell(cells, 7) {
                    Err(e) => Err(e),
                    Ok(work_study) => Ok(
                        Compensation { volunteer, salary, independent_study, work_study },
                    ),
                },
            },
        },
    }
}

/// A compensation row is read from the text at child 3, then child 0, of its
/// cells 1, 3, 5 and 7, in that order the volunteer, salary, independent
/// study and work study flags: each flag is set exactly when its text, with
/// the white space around it taken off, is `Yes`.
pub proof fn law_compensation_reads_cells(
    cells: Seq<SpecNode>,
    volunteer: Seq<char>,
    salary: Seq<char>,
    independent_study: Seq<char>,
    work_study: Seq<char>,
)
    requires
        cells.len() > 7,
        child_at(cells[1], seq![3int, 0int]) matches Some(c) && text_of(c) == Some(volunteer),
        child_at(cells[3], seq![3int, 0int]) matches Some(c) && text_of(c) == Some(salary),
        child_at(cells[5], seq![3int, 0int]) matches Some(c) && text_of(c) == Some(
            independent_study,
        ),
        child_at(cells[7], seq![3int, 0int]) matches Some(c) && text_of(c) == Some(work_study),
    ensures
        compensation_of(cells) == Ok::<Compensation, ScrapeErrorView>(
            Compensation {
                volunteer: trim(volunteer) == "Yes"@,
                salary: trim(salary) == "Yes"@,
                independent_study: trim(independent_study) == "Yes"@,
                work_study: trim(work_study) == "Yes"@,
            },
        ),
{
}

/// No year preferred.
pub open spec fn no_years() -> PreferredStudentYears {
    PreferredStudentYears {
        first_year: false,
        second_year: false,
        third_year: false,
        fourth_year: false,
    }
}

/// `f` with the year named `p` preferred too.
pub open spec fn with_year(f: PreferredStudentYears, p: Seq<char>) -> Result<
    PreferredStudentYears,
    ScrapeErrorView,
> {
    if p == "First-year"@ {
        Ok(PreferredStudentYears { first_year: true, ..f })
    } else if p == "Second-Year"@ {
        Ok(PreferredStudentYears { second_year: true, ..f })
    } else if p == "Junior"@ {
        Ok(PreferredStudentYears { third_year: true, ..f })
    } else if p == "Senior"@ {
        Ok(PreferredStudentYears { fourth_year: true, ..f })
    } else {
        Err(ScrapeErrorView::UnknownStudentYear(p))
    }
}

/// The years named by the pieces of a comma-separated list.
pub open spec fn year_flags(pieces: Seq<Seq<char>>) -> Result<
    PreferredStudentYears,
    ScrapeErrorView,
>
    decreases pieces.len(),
{
    if pieces.len() == 0 {
        Ok(no_years())
    } else {
        match year_flags(pieces.drop_last()) {
            Ok(f) => with_year(f, trim(pieces.last())),
            Err(e) => Err(e),
        }
    }
}

/// The numbers written in the pieces of a comma-separated list.
pub open spec fn years_of(pieces: Seq<Seq<char>>) -> Result<Seq<usize>, ScrapeErrorView>
    decreases pieces.len(),
{
    if pieces.len() == 0 {
        Ok(Seq::empty())
    } else {
        match years_of(pieces.drop_last()) {
            Ok(ys) => match parse_usize_spec(trim(pieces.last())) {
                Some(y) => Ok(ys.push(y)),
                None => Err(ScrapeErrorView::BadAcademicYear(trim(pieces.last()))),
            },
            Err(e) => Err(e),
        }
    }
}

/// The academic years of a comma-separated list are read in order, one for
/// each piece, each the number that the piece, with the white space around
/// it taken off, writes; the list is read exactly when every piece writes a
/// number that fits in a `usize`.
pub proof fn law_years_in_order(pieces: Seq<Seq<char>>)
    ensures
        years_of(pieces) is Ok <==> forall|i: int|
            0 <= i < pieces.len() ==> #[trigger] parse_usize_spec(trim(pieces[i])) is Some,
        years_of(pieces) matches Ok(ys) ==> {
            &&& ys.len() == pieces.len()
            &&& forall|i: int|
                0 <= i < pieces.len() ==> #[trigger] parse_usize_spec(trim(pieces[i])) == Some(
                    ys[i],
                )
        },
    decreases pieces.len(),
{
    if pieces.len() > 0 {
        let init = pieces.drop_last();
        law_years_in_order(init);
        assert forall|i: int| 0 <= i < init.len() implies init[i] == pieces[i] by {}
        if years_of(pieces) is Ok {
            assert forall|i: int| 0 <= i < pieces.len() implies #[trigger] parse_usize_spec(
                trim(pieces[i]),
            ) is Some by {
                if i < init.len() {
                    assert(init[i] == pieces[i]);
                }
            }
        }
        if forall|i: int| 0 <= i < pieces.len() ==> #[trigger] parse_usize_spec(trim(pieces[i])) is Some {
            assert forall|i: int| 0 <= i < init.len() implies #[trigger] parse_usize_spec(
                trim(init[i]),
            ) is Some by {
                assert(init[i] == pieces[i]);
            }
            assert(parse_usize_spec(trim(pieces[pieces.len() - 1])) is Some);
        }
    }
}

/// The student years of a comma-separated list: each piece, with the white
/// space around it taken off, must be `First-year`, `Second-Year`, `Junior`
/// or `Senior`, and each year is preferred exactly when some piece names it.
pub proof fn law_student_years_named(pieces: Seq<Seq<char>>)
    ensures
        year_flags(pieces) is Ok <==> forall|i: int|
            0 <= i < pieces.len() ==> {
                let t = #[trigger] trim(pieces[i]);
                t == "First-year"@ || t == "Second-Year"@ || t == "Junior"@ || t == "Senior"@
            },
        year_flags(pieces) matches Ok(f) ==> {
            &&& f.first_year == exists|i: int|
                0 <= i < pieces.len() && #[trigger] trim(pieces[i]) == "First-year"@
            &&& f.second_year == exists|i: int|
                0 <= i < pieces.len() && #[trigger] trim(pieces[i]) == "Second-Year"@
            &&& f.third_year == exists|i: int|
                0 <= i < pieces.len() && #[trigger] trim(pieces[i]) == "Junior"@
            &&& f.fourth_year == exists|i: int|
                0 <= i < pieces.len() && #[trigger] trim(pieces[i]) == "Senior"@
        },
    decreases pieces.len(),
{
    if pieces.len() > 0 {
        let init = pieces.drop_last();
        let n = pieces.len() - 1;
        law_student_years_named(init);
        assert forall|i: int| 0 <= i < init.len() implies #[trigger] trim(init[i]) == trim(
            pieces[i],
        ) by {
            assert(init[i] == pieces[i]);
        }
        let last = trim(pieces[n]);
        reveal_strlit("First-year");
        reveal_strlit("Second-Year");
        reveal_strlit("Junior");
        reveal_strlit("Senior");
        assert("First-year"@[0] != "Second-Year"@[0]);
        assert("First-year"@ != "Second-Year"@);
        assert("First-year"@[0] != "Junior"@[0]);
        assert("First-year"@ != "Junior"@);
        assert("First-year"@[0] != "Senior"@[0]);
        assert("First-year"@ != "Senior"@);
        assert("Second-Year"@ != "Junior"@);
        assert("Second-Year"@[2] != "Senior"@[2]);
        assert("Second-Year"@ != "Senior"@);
        assert("Junior"@[0] != "Senior"@[0]);
        assert("Junior"@ != "Senior"@);
        if year_flags(pieces) is Ok {
            assert(year_flags(init) is Ok);
            assert(with_year(year_flags(init)->Ok_0, last) is Ok);
            assert forall|i: int| 0 <= i < pieces.len() implies {
                let t = #[trigger] trim(pieces[i]);
                t == "First-year"@ || t == "Second-Year"@ || t == "Junior"@ || t == "Senior"@
            } by {
                if i < n {
                    assert(trim(init[i]) == trim(pieces[i]));
                }
            }
        }
        if forall|i: int|
            0 <= i < pieces.len() ==> {
                let t = #[trigger] trim(pieces[i]);
                t == "First-year"@ || t == "Second-Year"@ || t == "Junior"@ || t == "Senior"@
            } {
            assert forall|i: int| 0 <= i < init.len() implies {
                let t = #[trigger] trim(init[i]);
                t == "First-year"@ || t == "Second-Year"@ || t == "Junior"@ || t == "Senior"@
            } by {
                assert(trim(init[i]) == trim(pieces[i]));
            }
            assert(year_flags(init) is Ok);
            let t = trim(pieces[n]);
            assert(t == "First-year"@ || t == "Second-Year"@ || t == "Junior"@ || t == "Senior"@);
        }
        if year_flags(pieces) matches Ok(f) {
            let g = year_flags(init)->Ok_0;
            if exists|i: int| 0 <= i < pieces.len() && #[trigger] trim(pieces[i]) == "First-year"@ {
                let i = choose|i: int| 0 <= i < pieces.len() && #[trigger] trim(pieces[i]) == "First-year"@;
                if i < n {
                    assert(trim(init[i]) == "First-year"@);
                }
            }
            if exists|i: int| 0 <= i < pieces.len() && #[trigger] trim(pieces[i]) == "Second-Year"@ {
                let i = choose|i: int| 0 <= i < pieces.len() && #[trigger] trim(pieces[i]) == "Second-Year"@;
                if i < n {
                    assert(trim(init[i]) == "Second-Year"@);
                }
            }
            if exists|i: int| 0 <= i < pieces.len() && #[trigger] trim(pieces[i]) == "Junior"@ {
                let i = choose|i: int| 0 <= i < pieces.len() && #[trigger] trim(pieces[i]) == "Junior"@;
                if i < n {
                    assert(trim(init[i]) == "Junior"@);
                }
            }
            if exists|i: int| 0 <= i < pieces.len() && #[trigger] trim(pieces[i]) == "Senior"@ {
                let i = choose|i: int| 0 <= i < pieces.len() && #[trigger] trim(pieces[i]) == "Senior"@;
                if i < n {
                    assert(trim(init[i]) == "Senior"@);
                }
            }
            if g.first_year {
                let i = choose|i: int| 0 <= i < init.len() && #[trigger] trim(init[i]) == "First-year"@;
                assert(trim(pieces[i]) == "First-year"@);
            }
            if g.second_year {
                let i = choose|i: int| 0 <= i < init.len() && #[trigger] trim(init[i]) == "Second-Year"@;
                assert(trim(pieces[i]) == "Second-Year"@);
            }
            if g.third_year {
                let i = choose|i: int| 0 <= i < init.len() && #[trigger] trim(init[i]) == "Junior"@;
                assert(trim(pieces[i]) == "Junior"@);
            }
            if g.fourth_year {
                let i = choose|i: int| 0 <= i < init.len() && #[trigger] trim(init[i]) == "Senior"@;
                assert(trim(pieces[i]) == "Senior"@);
            }
        }
    }
}

/// The scan after the node `child` of the page's main part.
pub open spec fn scan_child(st: ScanState, child: SpecNode) -> Result<ScanState, ScrapeErrorView> {
    let cs = child.children;
    let o = st.opportunity;
    if cs.len() == 0 {
        Ok(st)
    } else {
        match st.progress {
            Progress::Start => match text_of(cs[0]) {
                Some(t) => if t == "\n        \n    "@ {
                    Ok(st)
                } else if t == "Mentor Areas"@ {
                    Ok(
                        ScanState {
                            progress: Progress::MentorAreas,
                            opportunity: OpportunityView { mentor_areas: Some(Seq::empty()), ..o },
                            ..st
                        },
                    )
                } else if t == "Description:"@ {
                    Ok(
                        ScanState {
                            progress: Progress::Description,
                            opportunity: OpportunityView { description: Some(Seq::empty()), ..o },
                            ..st
                        },
                    )
                } else {
                    Err(ScrapeErrorView::UnknownStartHeader(t))
                },
                None => Err(ScrapeErrorView::StartNotText),
            },
            Progress::MentorAreas => Ok(section_texts(st, Progress::MentorAreas, cs)),
            Progress::Description => Ok(section_texts(st, Progress::Description, cs)),
            Progress::PreferredQualifications => Ok(
                section_texts(st, Progress::PreferredQualifications, cs),
            ),
            Progress::Details => if first_attr_value(child) == Some("row"@) {
                match compensation_of(cs) {
                    Ok(c) => Ok(
                        ScanState {
                            opportunity: OpportunityView { compensation: Some(c), ..o },
                            ..st
                        },
                    ),
                    Err(e) => Err(e),
                }
            } else {
                match text_of(cs[0]) {
                    Some(t) => if t == "Preferred Student Year"@ {
                        Ok(ScanState { progress: Progress::PreferredStudentYear, ..st })
                    } else if t == "Academic Year"@ {
                        Ok(ScanState { progress: Progress::AcademicYear, ..st })
                    } else {
                        Ok(st)
                    },
                    None => Err(ScrapeErrorView::DetailsNotText),
                }
            },
            Progress::PreferredStudentYear => match text_of(cs[0]) {
                Some(t) => match year_flags(split(t, ',')) {
                    Ok(f) => Ok(
                        ScanState {
                            progress: Progress::Details,
                            opportunity: OpportunityView { preferred_student_years: Some(f), ..o },
                            ..st
                        },
                    ),
                    Err(e) => Err(e),
                },
                None => Err(ScrapeErrorView::StudentYearNotText),
            },
            Progress::AcademicYear => match text_of(cs[0]) {
                Some(t) => match years_of(split(t, ',')) {
                    Ok(ys) => Ok(
                        ScanState {
                            opportunity: OpportunityView { academic_years: Some(ys), ..o },
                            done: true,
                            ..st
                        },
                    ),
                    Err(e) => Err(e),
                },
                None => Err(ScrapeErrorView::AcademicYearNotText),
            },
        }
    }
}

/// The scan after the nodes `cs`, in order, stopping after the academic
/// years.
pub open spec fn scan(st: ScanState, cs: Seq<SpecNode>) -> Result<ScanState, ScrapeErrorView>
    decreases cs.len(),
{
    if cs.len() == 0 || st.done {
        Ok(st)
    } else {
        match scan_child(st, cs[0]) {
            Ok(next) => scan(next, cs.drop_first()),
            Err(e) => Err(e),
        }
    }
}

/// Once the academic years have been read the scan is over: nodes that
/// follow change nothing.
pub proof fn law_scan_stops_after_academic_years(
    st: ScanState,
    cs: Seq<SpecNode>,
    more: Seq<SpecNode>,
)
    requires
        scan(st, cs) matches Ok(r) && r.done,
    ensures
        scan(st, cs + more) == scan(st, cs),
    decreases cs.len(),
{
    if st.done {
        assert(scan(st, cs + more) == Ok::<ScanState, ScrapeErrorView>(st));
    } else {
        assert(cs.len() > 0);
        assert((cs + more)[0] == cs[0]);
        assert((cs + more).drop_first() =~= cs.drop_first() + more);
        let next = scan_child(st, cs[0])->Ok_0;
        law_scan_stops_after_academic_years(next, cs.drop_first(), more);
    }
}

/// A line of a section is added to it, followed by a line break, and changes
/// nothing else; only the header of the next section (`Description:` after
/// the mentor areas, `Preferred Qualifications` or `Details:` after the
/// description, `Details:` after the preferred qualifications) is not a line
/// of it, and moves the scan on, with the next section started empty.
pub proof fn law_section_lines(st: ScanState, t: Seq<char>)
    ensures
        ({
            let o = st.opportunity;
            let prev = match o.mentor_areas {
                Some(m) => m,
                None => Seq::empty(),
            };
            let next = OpportunityView { mentor_areas: Some(prev + t + seq!['\n']), ..o };
            t != "Description:"@ ==> section_text(st, Progress::MentorAreas, t) == (ScanState {
                opportunity: next,
                ..st
            })
        }),
        ({
            let o = OpportunityView { description: Some(Seq::empty()), ..st.opportunity };
            section_text(st, Progress::MentorAreas, "Description:"@) == (ScanState {
                progress: Progress::Description,
                opportunity: o,
                ..st
            })
        }),
        ({
            let o = st.opportunity;
            let prev = match o.description {
                Some(m) => m,
                None => Seq::empty(),
            };
            let next = OpportunityView { description: Some(prev + t + seq!['\n']), ..o };
            t != "Preferred Qualifications"@ && t != "Details:"@ ==> section_text(
                st,
                Progress::Description,
                t,
            ) == (ScanState { opportunity: next, ..st })
        }),
        ({
            let o = OpportunityView { preferred_qualifications: Some(Seq::empty()), ..st.opportunity };
            section_text(st, Progress::Description, "Preferred Qualifications"@) == (ScanState {
                progress: Progress::PreferredQualifications,
                opportunity: o,
                ..st
            })
        }),
        section_text(st, Progress::Description, "Details:"@) == (ScanState {
            progress: Progress::Details,
            ..st
        }),
        ({
            let o = st.opportunity;
            let prev = match o.preferred_qualifications {
                Some(m) => m,
                None => Seq::empty(),
            };
            let next = OpportunityView { preferred_qualifications: Some(prev + t + seq!['\n']), ..o };
            t != "Details:"@ ==> section_text(st, Progress::PreferredQualifications, t) == (
            ScanState { opportunity: next, ..st })
        }),
        section_text(st, Progress::PreferredQualifications, "Details:"@) == (ScanState {
            progress: Progress::Details,
            ..st
        }),
{
    reveal_strlit("\n");
    assert("\n"@ =~= seq!['\n']);
    reveal_strlit("Details:");
    reveal_strlit("Preferred Qualifications");
    assert("Details:"@[0] != "Preferred Qualifications"@[0]);
}

/// How the scan moves between the parts of a page. At the start, nodes
/// whose first child is blank text are passed over, and the first section is
/// the mentor areas or the description, each started empty. In the details,
/// a node whose first attribute is `row` gives the compensation, and the
/// headers `Preferred Student Year` and `Academic Year` announce what the
/// next node holds; other text is passed over. The student years lead back
/// to the details, and the academic years end the scan.
pub proof fn law_scan_moves(st: ScanState, child: SpecNode, t: Seq<char>)
    requires
        !st.done,
        child.children.len() > 0,
        text_of(child.children[0]) == Some(t),
    ensures
        st.progress == Progress::Start ==> (t == "\n        \n    "@ ==> scan_child(st, child)
            == Ok::<ScanState, ScrapeErrorView>(st)),
        st.progress == Progress::Start && t == "Mentor Areas"@ ==> (scan_child(st, child)
            matches Ok(r) && r.progress == Progress::MentorAreas && r.opportunity
            == (OpportunityView { mentor_areas: Some(Seq::empty()), ..st.opportunity })),
        st.progress == Progress::Start && t == "Description:"@ ==> (scan_child(st, child)
            matches Ok(r) && r.progress == Progress::Description && r.opportunity
            == (OpportunityView { description: Some(Seq::empty()), ..st.opportunity })),
        st.progress == Progress::Start ==> (t != "\n        \n    "@ && t != "Mentor Areas"@ && t
            != "Description:"@ ==> scan_child(st, child) is Err),
        st.progress == Progress::Details && first_attr_value(child) != Some("row"@) ==> (t
            == "Preferred Student Year"@ ==> scan_child(st, child) == Ok::<
            ScanState,
            ScrapeErrorView,
        >(ScanState { progress: Progress::PreferredStudentYear, ..st })),
        st.progress == Progress::Details && first_attr_value(child) != Some("row"@) ==> (t
            == "Academic Year"@ ==> scan_child(st, child) == Ok::<ScanState, ScrapeErrorView>(
            ScanState { progress: Progress::AcademicYear, ..st },
        )),
        st.progress == Progress::Details && first_attr_value(child) != Some("row"@) ==> (t
            != "Preferred Student Year"@ && t != "Academic Year"@ ==> scan_child(st, child)
            == Ok::<ScanState, ScrapeErrorView>(st)),
        st.progress == Progress::Details && first_attr_value(child) == Some("row"@) ==> (
        scan_child(st, child) matches Ok(r) ==> r.progress == Progress::Details && r.opportunity
            == (OpportunityView {
            compensation: Some(compensation_of(child.children)->Ok_0),
            ..st.opportunity
        })),
        st.progress == Progress::PreferredStudentYear ==> (scan_child(st, child) matches Ok(r)
            ==> r.progress == Progress::Details && !r.done && r.opportunity == (OpportunityView {
            preferred_student_years: Some(year_flags(split(t, ','))->Ok_0),
            ..st.opportunity
        })),
        st.progress == Progress::AcademicYear ==> (scan_child(st, child) matches Ok(r) ==> r.done
            && r.opportunity == (OpportunityView {
            academic_years: Some(years_of(split(t, ','))->Ok_0),
            ..st.opportunity
        })),
{
    reveal_strlit("Preferred Student Year");
    reveal_strlit("Academic Year");
    assert("Preferred Student Year"@[0] != "Academic Year"@[0]);
    reveal_strlit("Mentor Areas");
    reveal_strlit("Description:");
    reveal_strlit("\n        \n    ");
    assert("Mentor Areas"@[0] != "Description:"@[0]);
    assert("Mentor Areas"@[0] != "\n        \n    "@[0]);
    assert("Description:"@[0] != "\n        \n    "@[0]);
}

/// The path from the document to the main part of an opportunity's page.
pub open spec fn main_path() -> Seq<int> {
    seq![1int, 2int, 3int, 1int, 5int, 3int, 1int, 3int]
}

/// What an opportunity's page says of it.
pub open spec fn opportunity_page(doc: SpecNode) -> Result<OpportunityView, ScrapeErrorView> {
    match child_at(doc, main_path()) {
        Some(main) => match scan(start_state(), main.children) {
            Ok(st) => Ok(st.opportunity),
            Err(e) => Err(e),
        },
        None => Err(ScrapeErrorView::MissingNode),
    }
}

/// The exec side of a scan.
struct Scan {
    progress: Progress,
    opportunity: Opportunity,
    done: bool,
}

impl View for Scan {
    type V = ScanState;

    closed spec fn view(&self) -> ScanState {
        ScanState { progress: self.progress, opportunity: self.opportunity@, done: self.done }
    }
}

fn with_line(s: Option<String>, t: &str) -> (r: Option<String>)
    ensures
        opt_view(r) == add_line(opt_view(s), t@),
{
    let mut acc = match s {
        Some(a) => a,
        None => String::new(),
    };
    acc.append(t);
    acc.append("\n");
    Some(acc)
}

fn read_section_text(sc: Scan, section: Progress, t: &str) -> (r: Scan)
    ensures
        r@ == section_text(sc@, section, t@),
{
    let mut sc = sc;
    match section {
        Progress::MentorAreas => {
            if str_eq(t, "Description:") {
                sc.progress = Progress::Description;
                sc.opportunity.description = Some(String::new());
            } else {
                sc.opportunity.mentor_areas = with_line(sc.opportunity.mentor_areas, t);
            }
        },
        Progress::Description => {
            if str_eq(t, "Preferred Qualifications") {
                sc.progress = Progress::PreferredQualifications;
                sc.opportunity.preferred_qualifications = Some(String::new());
            } else if str_eq(t, "Details:") {
                sc.progress = Progress::Details;
            } else {
                sc.opportunity.description = with_line(sc.opportunity.description, t);
            }
        },
        Progress::PreferredQualifications => {
            if str_eq(t, "Details:") {
                sc.progress = Progress::Details;
            } else {
                sc.opportunity.preferred_qualifications = with_line(
                    sc.opportunity.preferred_qualifications,
                    t,
                );
            }
        },
        _ => {},
    }
    sc
}

fn read_section(sc: Scan, section: Progress, child: &HtmlNode) -> (r: Scan)
    ensures
        r@ == section_texts(sc@, section, child@.children),
{
    proof {
        lemma_view_children(*child);
    }
    let ghost cs = child@.children;
    let ghost start = sc@;
    let mut sc = sc;
    let mut j: usize = 0;
    assert(cs.take(0) =~= Seq::<SpecNode>::empty());
    while j < child.children.len()
        invariant
            cs == child@.children,
            cs.len() == child.children.len(),
            forall|i: int| 0 <= i < cs.len() ==> cs[i] == (#[trigger] child.children@[i])@,
            j <= child.children.len(),
            sc@ == section_texts(start, section, cs.take(j as int)),
        decreases child.children.len() - j,
    {
        assert(cs.take(j + 1).drop_last() =~= cs.take(j as int));
        assert(cs.take(j + 1).last() == child.children@[j as int]@);
        match node_text(&child.children[j]) {
            Some(t) => {
                sc = read_section_text(sc, section, t.as_str());
            },
            None => {},
        }
        j = j + 1;
    }
    assert(cs.take(cs.len() as int) =~= cs);
    sc
}

fn read_yes_cell(row: &HtmlNode, k: usize) -> (r: Result<bool, ScrapeError>)
    ensures
        r matches Ok(b) ==> yes_cell(row@.children, k as int) == Ok::<bool, ScrapeErrorView>(b),
        r matches Err(e) ==> yes_cell(row@.children, k as int) == Err::<bool, ScrapeErrorView>(e@),
{
    proof {
        lemma_view_children(*row);
    }
    if k >= row.children.len() {
        return Err(ScrapeError::MissingNode);
    }
    let path: [usize; 2] = [3, 0];
    assert(path@.map_values(|i: usize| i as int) =~= seq![3int, 0int]);
    match node_at(&row.children[k], &path) {
        Some(c) => match node_text(c) {
            Some(t) => {
                let v = trimmed(t.as_str());
                Ok(str_eq(v.as_str(), "Yes"))
            },
            None => Err(ScrapeError::CompensationNotText),
        },
        None => Err(ScrapeError::MissingNode),
    }
}

fn read_compensation(row: &HtmlNode) -> (r: Result<Compensation, ScrapeError>)
    ensures
        r matches Ok(c) ==> compensation_of(row@.children) == Ok::<Compensation, ScrapeErrorView>(c),
        r matches Err(e) ==> compensation_of(row@.children) == Err::<Compensation, ScrapeErrorView>(e@),
{
    let volunteer = read_yes_cell(row, 1)?;
    let salary = read_yes_cell(row, 3)?;
    let independent_study = read_yes_cell(row, 5)?;
    let work_study = read_yes_cell(row, 7)?;
    Ok(Compensation { volunteer, salary, independent_study, work_study })
}

proof fn lemma_year_flags_err(ps: Seq<Seq<char>>, k: int)
    requires
        0 <= k <= ps.len(),
        year_flags(ps.take(k)) is Err,
    ensures
        year_flags(ps) == year_flags(ps.take(k)),
    decreases ps.len() - k,
{
    if k < ps.len() {
        assert(ps.drop_last().take(k) =~= ps.take(k));
        lemma_year_flags_err(ps.drop_last(), k);
    } else {
        assert(ps.take(k) =~= ps);
    }
}

proof fn lemma_years_of_err(ps: Seq<Seq<char>>, k: int)
    requires
        0 <= k <= ps.len(),
        years_of(ps.take(k)) is Err,
    ensures
        years_of(ps) == years_of(ps.take(k)),
    decreases ps.len() - k,
{
    if k < ps.len() {
        assert(ps.drop_last().take(k) =~= ps.take(k));
        lemma_years_of_err(ps.drop_last(), k);
    } else {
        assert(ps.take(k) =~= ps);
    }
}

fn add_year(f: PreferredStudentYears, p: &str) -> (r: Result<PreferredStudentYears, ScrapeError>)
    ensures
        r matches Ok(g) ==> with_year(f, p@) == Ok::<PreferredStudentYears, ScrapeErrorView>(g),
        r matches Err(e) ==> with_year(f, p@) == Err::<PreferredStudentYears, ScrapeErrorView>(e@),
{
    let mut g = f;
    if str_eq(p, "First-year") {
        g.first_year = true;
    } else if str_eq(p, "Second-Year") {
        g.second_year = true;
    } else if str_eq(p, "Junior") {
        g.third_year = true;
    } else if str_eq(p, "Senior") {
        g.fourth_year = true;
    } else {
        return Err(ScrapeError::UnknownStudentYear(String::from_str(p)));
    }
    Ok(g)
}

fn read_year_flags(t: &str) -> (r: Result<PreferredStudentYears, ScrapeError>)
    ensures
        r matches Ok(f) ==> year_flags(split(t@, ',')) == Ok::<PreferredStudentYears, ScrapeErrorView>(f),
        r matches Err(e) ==> year_flags(split(t@, ',')) == Err::<PreferredStudentYears, ScrapeErrorView>(e@),
{
    let pieces = split_by(t, ',');
    let ghost ps = split(t@, ',');
    assert(pieces@.len() == ps.len());
    let mut f = PreferredStudentYears {
        first_year: false,
        second_year: false,
        third_year: false,
        fourth_year: false,
    };
    let mut i: usize = 0;
    assert(ps.take(0) =~= Seq::<Seq<char>>::empty());
    while i < pieces.len()
        invariant
            ps == split(t@, ','),
            pieces@.map_values(|p: String| p@) == ps,
            i <= pieces.len(),
            year_flags(ps.take(i as int)) == Ok::<PreferredStudentYears, ScrapeErrorView>(f),
        decreases pieces.len() - i,
    {
        assert(ps.take(i + 1).drop_last() =~= ps.take(i as int));
        assert(ps[i as int] == pieces@[i as int]@);
        let p = trimmed(pieces[i].as_str());
        match add_year(f, p.as_str()) {
            Ok(g) => {
                f = g;
            },
            Err(e) => {
                proof {
                    lemma_year_flags_err(ps, i + 1);
                }
                return Err(e);
            },
        }
        i = i + 1;
    }
    assert(ps.take(pieces.len() as int) =~= ps);
    Ok(f)
}

fn read_years(t: &str) -> (r: Result<Vec<usize>, ScrapeError>)
    ensures
        r matches Ok(ys) ==> years_of(split(t@, ',')) == Ok::<Seq<usize>, ScrapeErrorView>(ys@),
        r matches Err(e) ==> years_of(split(t@, ',')) == Err::<Seq<usize>, ScrapeErrorView>(e@),
{
    let pieces = split_by(t, ',');
    let ghost ps = split(t@, ',');
    assert(pieces@.len() == ps.len());
    let mut ys: Vec<usize> = Vec::new();
    let mut i: usize = 0;
    assert(ps.take(0) =~= Seq::<Seq<char>>::empty());
    while i < pieces.len()
        invariant
            ps == split(t@, ','),
            pieces@.map_values(|p: String| p@) == ps,
            i <= pieces.len(),
            years_of(ps.take(i as int)) == Ok::<Seq<usize>, ScrapeErrorView>(ys@),
        decreases pieces.len() - i,
    {
        assert(ps.take(i + 1).drop_last() =~= ps.take(i as int));
        assert(ps[i as int] == pieces@[i as int]@);
        let p = trimmed(pieces[i].as_str());
        match parse_usize(p.as_str()) {
            Some(y) => {
                ys.push(y);
            },
            None => {
                proof {
                    lemma_years_of_err(ps, i + 1);
                }
                return Err(ScrapeError::BadAcademicYear(p));
            },
        }
        i = i + 1;
    }
    assert(ps.take(pieces.len() as int) =~= ps);
    Ok(ys)
}

fn scan_node(sc: Scan, child: &HtmlNode) -> (r: Result<Scan, ScrapeError>)
    ensures
        r matches Ok(n) ==> scan_child(sc@, child@) == Ok::<ScanState, ScrapeErrorView>(n@),
        r matches Err(e) ==> scan_child(sc@, child@) == Err::<ScanState, ScrapeErrorView>(e@),
{
    proof {
        lemma_view_children(*child);
    }
    if child.children.len() == 0 {
        return Ok(sc);
    }
    let mut sc = sc;
    let first = &child.children[0];
    match sc.progress {
        Progress::Start => match node_text(first) {
            Some(t) => {
                if str_eq(t.as_str(), "\n        \n    ") {
                } else if str_eq(t.as_str(), "Mentor Areas") {
                    sc.opportunity.mentor_areas = Some(String::new());
                    sc.progress = Progress::MentorAreas;
                } else if str_eq(t.as_str(), "Description:") {
                    sc.opportunity.description = Some(String::new());
                    sc.progress = Progress::Description;
                } else {
                    return Err(ScrapeError::UnknownStartHeader(t.clone()));
                }
                Ok(sc)
            },
            None => Err(ScrapeError::StartNotText),
        },
        Progress::MentorAreas => Ok(read_section(sc, Progress::MentorAreas, child)),
        Progress::Description => Ok(read_section(sc, Progress::Description, child)),
        Progress::PreferredQualifications => Ok(
            read_section(sc, Progress::PreferredQualifications, child),
        ),
        Progress::Details => {
            let is_row = match node_first_attr(child) {
                Some(v) => str_eq(v.as_str(), "row"),
                None => false,
            };
            if is_row {
                let c = read_compensation(child)?;
                sc.opportunity.compensation = Some(c);
                Ok(sc)
            } else {
                match node_text(first) {
                    Some(t) => {
                        if str_eq(t.as_str(), "Preferred Student Year") {
                            sc.progress = Progress::PreferredStudentYear;
                        } else if str_eq(t.as_str(), "Academic Year") {
                            sc.progress = Progress::AcademicYear;
                        }
                        Ok(sc)
                    },
                    None => Err(ScrapeError::DetailsNotText),
                }
            }
        },
        Progress::PreferredStudentYear => match node_text(first) {
            Some(t) => {
                let f = read_year_flags(t.as_str())?;
                sc.opportunity.preferred_student_years = Some(f);
                sc.progress = Progress::Details;
                Ok(sc)
            },
            None => Err(ScrapeError::StudentYearNotText),
        },
        Progress::AcademicYear => match node_text(first) {
            Some(t) => {
                let ys = read_years(t.as_str())?;
                sc.opportunity.academic_years = Some(ys);
                sc.done = true;
                Ok(sc)
            },
            None => Err(ScrapeError::AcademicYearNotText),
        },
    }
}

proof fn lemma_scan_step(st: ScanState, cs: Seq<SpecNode>, i: int)
    requires
        0 <= i < cs.len(),
        !st.done,
    ensures
        scan(st, cs.skip(i)) == (match scan_child(st, cs[i]) {
            Ok(next) => scan(next, cs.skip(i + 1)),
            Err(e) => Err(e),
        }),
{
    assert(cs.skip(i).drop_first() =~= cs.skip(i + 1));
    assert(cs.skip(i)[0] == cs[i]);
}

fn read_opportunity_page(doc: &HtmlNode) -> (r: Result<Opportunity, ScrapeError>)
    ensures
        r matches Ok(o) ==> opportunity_page(doc@) == Ok::<OpportunityView, ScrapeErrorView>(o@),
        r matches Err(e) ==> opportunity_page(doc@) == Err::<OpportunityView, ScrapeErrorView>(e@),
{
    let path: [usize; 8] = [1, 2, 3, 1, 5, 3, 1, 3];
    assert(path@.map_values(|i: usize| i as int) =~= main_path());
    let main = match node_at(doc, &path) {
        Some(m) => m,
        None => {
            return Err(ScrapeError::MissingNode);
        },
    };
    proof {
        lemma_view_children(*main);
    }
    let ghost cs = main@.children;
    let mut sc = Scan {
        progress: Progress::Start,
        opportunity: Opportunity {
            mentor_areas: None,
            description: None,
            preferred_qualifications: None,
            preferred_student_years: None,
            compensation: None,
            academic_years: None,
        },
        done: false,
    };
    assert(cs.skip(0) =~= cs);
    let mut i: usize = 0;
    while i < main.children.len()
        invariant
            cs == main@.children,
            child_at(doc@, main_path()) == Some(main@),
            cs.len() == main.children.len(),
            forall|k: int| 0 <= k < cs.len() ==> cs[k] == (#[trigger] main.children@[k])@,
            i <= main.children.len(),
            !sc.done,
            scan(start_state(), cs) == scan(sc@, cs.skip(i as int)),
        decreases main.children.len() - i,
    {
        proof {
            lemma_scan_step(sc@, cs, i as int);
        }
        let next = scan_node(sc, &main.children[i])?;
        sc = next;
        i = i + 1;
        if sc.done {
            assert(scan(sc@, cs.skip(i as int)) == Ok::<ScanState, ScrapeErrorView>(sc@));
            return Ok(sc.opportunity);
        }
    }
    assert(cs.skip(i as int).len() == 0);
    Ok(sc.opportunity)
}

/// Where the opportunity's page `doc` does not have the layout read, the
/// first place where it departs from it; `None` where it has the layout.
pub fn opportunity_page_error(doc: &HtmlNode) -> (r: Option<ScrapeError>)
    ensures
        r is None <==> opportunity_page(doc@) is Ok,
        r matches Some(e) ==> opportunity_page(doc@) == Err::<OpportunityView, ScrapeErrorView>(
            e@,
        ),
{
    match read_opportunity_page(doc) {
        Ok(_) => None,
        Err(e) => Some(e),
    }
}

/// What an opportunity's page says of the opportunity: its mentor areas,
/// description and preferred qualifications (each line of a section followed
/// by a line break), the compensation row, the preferred student years and
/// the academic years. The page must have the layout read
/// (`opportunity_page_error` tells).
pub fn scrape_opportunity_page(doc: &HtmlNode) -> (o: Opportunity)
    requires
        opportunity_page(doc@) is Ok,
    ensures
        opportunity_page(doc@) == Ok::<OpportunityView, ScrapeErrorView>(o@),
{
    match read_opportunity_page(doc) {
        Ok(o) => o,
        Err(_) => {
            assert(false);
            Opportunity {
                mentor_areas: None,
                description: None,
                preferred_qualifications: None,
                preferred_student_years: None,
                compensation: None,
                academic_years: None,
            }
        },
    }
}

/// The reading of the opportunities' pages: the details read so far, by
/// opportunity id.
pub struct OpportunitiesScrape {
    pub opportunities: StrMap<Opportunity>,
}

impl OpportunitiesScrape {
    /// A reading in which no page has been read yet.
    pub fn new() -> (s: Self)
        ensures
            s.opportunities@ == Map::<Seq<char>, OpportunityView>::empty(),
    {
        OpportunitiesScrape { opportunities: StrMap::new() }
    }

    /// Takes in what the page of `id` said: `id` now maps to it.
    pub fn absorb_opportunity(&mut self, id: String, opportunity: Opportunity)
        ensures
            final(self).opportunities@ == old(self).opportunities@.insert(id@, opportunity@),
    {
        self.opportunities.insert(id, opportunity);
    }

    /// Reads the page `doc` of the opportunity `id` and takes it in. The page
    /// must have the layout read (`opportunity_page_error` tells).
    pub fn absorb_page(&mut self, id: String, doc: &HtmlNode)
        requires
            opportunity_page(doc@) is Ok,
        ensures
            opportunity_page(doc@) == Ok::<OpportunityView, ScrapeErrorView>(
                final(self).opportunities@[id@],
            ),
            final(self).opportunities@ == old(self).opportunities@.insert(
                id@,
                opportunity_page(doc@)->Ok_0,
            ),
    {
        let o = scrape_opportunity_page(doc);
        self.absorb_opportunity(id, o);
    }

    /// The details read, by opportunity id.
    pub fn into_opportunities(self) -> (r: Opportunities)
        ensures
            r.opportunity_map@ == self.opportunities@,
    {
        Opportunities { opportunity_map: self.opportunities }
    }
}

/// After the pages `reads` (each an id and what its page said) have been
/// taken in, in order, from a reading that had none, the ids that map to an
/// opportunity are exactly the ids whose page was read, each to what its
/// last page said.
pub proof fn law_scrape_keys_are_read_ids(reads: Seq<(Seq<char>, OpportunityView)>)
    ensures
        insert_all(Map::<Seq<char>, OpportunityView>::empty(), reads).dom() == keys_of(reads),
        forall|i: int|
            0 <= i < reads.len() && (forall|j: int| i < j < reads.len() ==> reads[j].0 != reads[i].0)
                ==> #[trigger] insert_all(Map::<Seq<char>, OpportunityView>::empty(), reads)[reads[i].0]
                == reads[i].1,
{
    let empty = Map::<Seq<char>, OpportunityView>::empty();
    law_insert_all_keys(empty, reads);
    assert(empty.dom().union(keys_of(reads)) =~= keys_of(reads));
}

} // verus!
