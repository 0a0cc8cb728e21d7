use upenn_curf_scraper::filter::{is_selected, review_answer, review_header, review_prompt, select_opportunities, ReviewAction};
use upenn_curf_scraper::process_opportunities::process_opportunities;
use upenn_curf_scraper::str_map::StrMap;
use upenn_curf_scraper::update_auth::auth_from_input;
use upenn_curf_scraper::{
    cookie_string, opportunity_url, Auth, Compensation, Link, Links, Opportunities, Opportunity,
    PreferredStudentYears, ProcessedOpportunities, ProcessedOpportunity, CURF_ROOT,
};

fn link(title: &str) -> Link {
    Link {
        title: title.to_string(),
        description: format!("{} in short", title),
        researcher: None,
        departments: vec!["Biology".to_string()],
    }
}

fn opportunity(years: Option<Vec<usize>>, first_year: Option<bool>, pay: Option<(bool, bool, bool, bool)>) -> Opportunity {
    Opportunity {
        mentor_areas: Some("Genomics\n".to_string()),
        description: Some("  Long text.\n".to_string()),
        preferred_qualifications: None,
        preferred_student_years: first_year.map(|f| PreferredStudentYears {
            first_year: f,
            second_year: false,
            third_year: false,
            fourth_year: false,
        }),
        compensation: pay.map(|(v, s, i, w)| Compensation { volunteer: v, salary: s, independent_study: i, work_study: w }),
        academic_years: years,
    }
}

fn processed(o: Opportunity) -> ProcessedOpportunity {
    let l = link("T");
    ProcessedOpportunity {
        title: l.title,
        short_description: l.description,
        researcher: l.researcher,
        departments: l.departments,
        mentor_areas: o.mentor_areas,
        description: o.description,
        preferred_qualifications: o.preferred_qualifications,
        preferred_student_years: o.preferred_student_years,
        compensation: o.compensation,
        academic_years: o.academic_years,
    }
}

#[test]
fn cookie_string_carries_all_cookies() {
    let auth = Auth {
        simple_saml_auth_token: "tok".to_string(),
        simple_saml_session_id: "sess".to_string(),
        sse_pair: ("SSESSabc".to_string(), "val".to_string()),
    };
    assert_eq!(cookie_string(&auth), "SimpleSAMLAuthToken=tok; SimpleSAMLSessionID=sess; SSESSabc=val");
}

#[test]
fn auth_input_is_trimmed() {
    let a = auth_from_input(" tok\n", "sess\r\n", "  name\n", "value \n");
    assert_eq!(a, Auth {
        simple_saml_auth_token: "tok".to_string(),
        simple_saml_session_id: "sess".to_string(),
        sse_pair: ("name".to_string(), "value".to_string()),
    });
}

#[test]
fn opportunity_url_is_under_root() {
    assert_eq!(CURF_ROOT, "https://curf.upenn.edu");
    assert_eq!(opportunity_url("gene-study"), "https://curf.upenn.edu/rd/gene-study");
}

#[test]
fn processing_keeps_ids_with_card_and_page() {
    let mut links_map = StrMap::new();
    links_map.insert("a".to_string(), link("A"));
    links_map.insert("b".to_string(), link("B"));
    links_map.insert("c".to_string(), link("C"));
    let mut opportunity_map = StrMap::new();
    opportunity_map.insert("b".to_string(), opportunity(Some(vec![2024]), None, None));
    opportunity_map.insert("c".to_string(), opportunity(None, Some(true), None));
    opportunity_map.insert("d".to_string(), opportunity(None, None, None));
    let opportunities = Opportunities { opportunity_map };
    let result = process_opportunities(Links { links_map }, &opportunities);
    let m = result.processed_opportunity_map;
    assert_eq!(m.len(), 2);
    assert!(m.get("a").is_none());
    assert!(m.get("d").is_none());
    let b = m.get("b").unwrap();
    assert_eq!(b.title, "B");
    assert_eq!(b.short_description, "B in short");
    assert_eq!(b.academic_years, Some(vec![2024]));
    assert_eq!(m.get("c").unwrap().preferred_student_years.unwrap().first_year, true);
    assert_eq!(opportunities.opportunity_map.len(), 3);
}

#[test]
fn selection_rules() {
    assert!(is_selected(&processed(opportunity(None, None, None))));
    assert!(is_selected(&processed(opportunity(Some(vec![2022, 2023]), Some(true), Some((false, true, false, false))))));
    assert!(!is_selected(&processed(opportunity(Some(vec![2022]), None, None))));
    assert!(!is_selected(&processed(opportunity(None, Some(false), None))));
    assert!(!is_selected(&processed(opportunity(None, None, Some((true, false, false, false))))));
    assert!(is_selected(&processed(opportunity(None, None, Some((false, false, false, true))))));
}

#[test]
fn selection_keeps_order_and_only_selected() {
    let mut m = StrMap::new();
    m.insert("x".to_string(), processed(opportunity(Some(vec![2024]), None, None)));
    m.insert("y".to_string(), processed(opportunity(Some(vec![2020]), None, None)));
    m.insert("z".to_string(), processed(opportunity(None, Some(true), None)));
    let selected = select_opportunities(ProcessedOpportunities { processed_opportunity_map: m });
    let ids: Vec<&str> = selected.iter().map(|(id, _)| id.as_str()).collect();
    assert_eq!(ids, vec!["x", "z"]);
}

#[test]
fn prompt_pads_position_to_count_width() {
    let with = processed(opportunity(None, None, None));
    assert_eq!(review_prompt(0, 12, &with), "Open 01/12? (y/N; d: description): ");
    let mut without = processed(opportunity(None, None, None));
    without.description = None;
    without.mentor_areas = None;
    assert_eq!(review_prompt(8, 9, &without), "Open 9/9? (y/N): ");
    assert_eq!(review_prompt(99, 100, &without), format!("Open {:0width$}/{}? (y/N): ", 100, 100, width = 3));
}

#[test]
fn header_shows_title_link_and_qualifications() {
    let mut o = processed(opportunity(None, None, None));
    assert_eq!(review_header("id1", &o), vec!["Title: T\nlink: https://curf.upenn.edu/rd/id1".to_string()]);
    o.preferred_qualifications = Some("  Python \n".to_string());
    assert_eq!(review_header("id1", &o)[1], "Preferred Qualifications: Python");
}

#[test]
fn answers_decide_what_happens() {
    let o = processed(opportunity(None, None, None));
    assert_eq!(review_answer("id1", &o, " Y\n"), ReviewAction::Open("https://curf.upenn.edu/rd/id1".to_string()));
    assert_eq!(review_answer("id1", &o, "y"), ReviewAction::Open("https://curf.upenn.edu/rd/id1".to_string()));
    assert_eq!(review_answer("id1", &o, "d\n"), ReviewAction::ShowDetails(vec![
        "Description: Long text.".to_string(),
        "Mentor Areas: Genomics".to_string(),
    ]));
    assert_eq!(review_answer("id1", &o, "\n"), ReviewAction::Next);
    assert_eq!(review_answer("id1", &o, "yes\n"), ReviewAction::Next);
    let mut bare = o.clone();
    bare.description = None;
    bare.mentor_areas = None;
    assert_eq!(review_answer("id1", &bare, "D"), ReviewAction::ShowDetails(vec![]));
}
