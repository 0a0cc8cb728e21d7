use upenn_curf_scraper::html::{parse_html, Attribute, HtmlNode, NodeKind};
use upenn_curf_scraper::scrape_links::{links_page_error, scrape_links_page, LinksCrawl};
use upenn_curf_scraper::scrape_opportunities::{opportunity_page_error, scrape_opportunity_page, OpportunitiesScrape};
use upenn_curf_scraper::{Compensation, Link, Opportunity, PreferredStudentYears, ScrapeError};

fn text(s: &str) -> HtmlNode {
    HtmlNode { kind: NodeKind::Text(s.to_string()), children: vec![] }
}

fn elem(attrs: &[&str], children: Vec<HtmlNode>) -> HtmlNode {
    HtmlNode {
        kind: NodeKind::Element {
            name: "div".to_string(),
            attrs: attrs
                .iter()
                .map(|v| Attribute { name: "class".to_string(), value: v.to_string() })
                .collect(),
        },
        children,
    }
}

fn filler() -> HtmlNode {
    elem(&[], vec![])
}

/// An element whose child at `index` is `node`, the others being empty.
fn at(index: usize, node: HtmlNode) -> HtmlNode {
    let mut children: Vec<HtmlNode> = (0..index).map(|_| filler()).collect();
    children.push(node);
    elem(&[], children)
}

/// A document in which `leaf` stands at `path`.
fn document(path: &[usize], leaf: HtmlNode) -> HtmlNode {
    let mut node = leaf;
    for (k, &i) in path.iter().enumerate().rev() {
        let mut children: Vec<HtmlNode> = (0..i).map(|_| filler()).collect();
        children.push(node);
        node = if k == 0 {
            HtmlNode { kind: NodeKind::Document, children }
        } else {
            elem(&[], children)
        };
    }
    node
}

const CONTAINER: [usize; 13] = [1, 2, 3, 1, 5, 3, 1, 3, 5, 1, 1, 1, 0];
const MAIN: [usize; 8] = [1, 2, 3, 1, 5, 3, 1, 3];

fn card(id_link: &str, title: &str, description: &str, researcher: Option<&str>, departments: &[&str]) -> HtmlNode {
    let mut dept_children = Vec::new();
    for d in departments {
        dept_children.push(filler());
        dept_children.push(elem(&[], vec![text(d)]));
    }
    let dept_list = elem(&[], dept_children);
    let info = match researcher {
        Some(r) => elem(&[], vec![filler(), elem(&[], vec![text(r)]), filler(), filler(), filler(), dept_list, filler()]),
        None => elem(&[], vec![filler(), filler(), filler(), dept_list, filler()]),
    };
    let title_element = elem(&[id_link], vec![text(title)]);
    let main = elem(&[], vec![
        filler(),
        elem(&[], vec![title_element]),
        filler(),
        elem(&[], vec![text(description)]),
        filler(),
        info,
    ]);
    elem(&[], vec![at(1, main)])
}

fn listing(cards: Vec<HtmlNode>, nav_class: &str) -> HtmlNode {
    let mut children = vec![filler(), filler(), filler()];
    for c in cards {
        children.push(c);
        children.push(filler());
    }
    let items = elem(&[], vec![filler(), elem(&[nav_class], vec![]), filler(), filler(), filler()]);
    children.push(at(3, items));
    children.push(filler());
    document(&CONTAINER, elem(&[], children))
}

fn two_cards() -> Vec<HtmlNode> {
    vec![
        card("/rd/gene-study", "Gene Study", "Study genes.", Some("Dr. A"), &["Biology,", "Chemistry"]),
        card("/rd/star-maps", "Star Maps", "Map stars.", None, &["Physics,,"]),
    ]
}

#[test]
fn reads_cards_of_a_listing_page() {
    let doc = listing(two_cards(), "page-item pager__item pager__item--next");
    assert_eq!(links_page_error(&doc), None);
    let page = scrape_links_page(&doc);
    assert!(page.has_next);
    assert_eq!(page.links.len(), 2);
    assert_eq!(page.links[0].0, "gene-study");
    assert_eq!(page.links[0].1, Link {
        title: "Gene Study".to_string(),
        description: "Study genes.".to_string(),
        researcher: Some("Dr. A".to_string()),
        departments: vec!["Biology".to_string(), "Chemistry".to_string()],
    });
    assert_eq!(page.links[1].0, "star-maps");
    assert_eq!(page.links[1].1.researcher, None);
    assert_eq!(page.links[1].1.departments, vec!["Physics".to_string()]);
}

#[test]
fn last_listing_page_has_no_next() {
    let doc = listing(two_cards(), "page-item pager__item pager__item--last");
    let page = scrape_links_page(&doc);
    assert!(!page.has_next);
    assert_eq!(page.links.len(), 2);
}

#[test]
fn listing_errors() {
    let doc = listing(vec![card("/rd", "T", "D", None, &[])], "x");
    assert_eq!(links_page_error(&doc), Some(ScrapeError::BadIdLink));
    let mut bad = card("/rd/x", "T", "D", None, &[]);
    bad.children[0].children[1].children[5].children.push(filler());
    let doc = listing(vec![bad], "x");
    assert_eq!(links_page_error(&doc), Some(ScrapeError::UnknownCardInfo));
    let doc = document(&CONTAINER, elem(&[], vec![filler(), filler(), filler()]));
    assert_eq!(links_page_error(&doc), Some(ScrapeError::MissingNode));
    assert_eq!(links_page_error(&text("x")), Some(ScrapeError::MissingNode));
    let mut not_element = card("/rd/x", "T", "D", None, &[]);
    not_element.children[0].children[1].children[1].children[0] = text("T");
    let doc = listing(vec![not_element], "x");
    assert_eq!(links_page_error(&doc), Some(ScrapeError::TitleNotElement));
}

#[test]
fn crawl_moves_on_only_while_there_is_a_next_page() {
    let mut crawl = LinksCrawl::new();
    assert_eq!(crawl.page_url(), "https://curf.upenn.edu/undergraduate-research/research-directory?page=0");
    let page = scrape_links_page(&listing(two_cards(), "page-item pager__item pager__item--next"));
    assert!(crawl.absorb_links(page));
    assert_eq!(crawl.page, 1);
    assert_eq!(crawl.page_url(), "https://curf.upenn.edu/undergraduate-research/research-directory?page=1");
    let last = scrape_links_page(&listing(
        vec![card("/rd/gene-study", "Gene Study 2", "New.", None, &[])],
        "page-item pager__item pager__item--last",
    ));
    assert!(!crawl.absorb_links(last));
    assert_eq!(crawl.page, 1);
    assert_eq!(crawl.links.len(), 2);
    assert_eq!(crawl.links.get("gene-study").unwrap().title, "Gene Study 2");
    assert!(crawl.links.contains_key("star-maps"));
}

fn cell(t: &str) -> HtmlNode {
    at(3, elem(&[], vec![text(t)]))
}

fn opportunity_main(years: &str, academic: &str) -> HtmlNode {
    let line = |t: &str| elem(&[], vec![text(t)]);
    let row = elem(&["row"], vec![
        filler(), cell("Yes"), filler(), cell("No"), filler(), cell(" Yes "), filler(), cell("No"),
    ]);
    elem(&[], vec![
        elem(&[], vec![]),
        line("\n        \n    "),
        line("Mentor Areas"),
        elem(&[], vec![text("Genomics"), filler(), text("Neuro")]),
        line("Description:"),
        elem(&[], vec![text("Study cells."), filler(), text("More.")]),
        line("Preferred Qualifications"),
        line("Python"),
        line("Details:"),
        row,
        line("Preferred Student Year"),
        line(years),
        line("Researcher"),
        line("Academic Year"),
        line(academic),
        line("ignored after the years"),
    ])
}

#[test]
fn reads_an_opportunity_page() {
    let doc = document(&MAIN, opportunity_main("First-year, Junior", "2023, 2024"));
    assert_eq!(opportunity_page_error(&doc), None);
    let o = scrape_opportunity_page(&doc);
    assert_eq!(o, Opportunity {
        mentor_areas: Some("Genomics\nNeuro\n".to_string()),
        description: Some("Study cells.\nMore.\n".to_string()),
        preferred_qualifications: Some("Python\n".to_string()),
        preferred_student_years: Some(PreferredStudentYears {
            first_year: true,
            second_year: false,
            third_year: true,
            fourth_year: false,
        }),
        compensation: Some(Compensation {
            volunteer: true,
            salary: false,
            independent_study: true,
            work_study: false,
        }),
        academic_years: Some(vec![2023, 2024]),
    });
}

#[test]
fn opportunity_page_errors() {
    let doc = document(&MAIN, opportunity_main("First-year, Sophomore", "2023"));
    assert_eq!(opportunity_page_error(&doc), Some(ScrapeError::UnknownStudentYear("Sophomore".to_string())));
    let doc = document(&MAIN, opportunity_main("Senior", "2023, 20x"));
    assert_eq!(opportunity_page_error(&doc), Some(ScrapeError::BadAcademicYear("20x".to_string())));
    let doc = document(&MAIN, elem(&[], vec![elem(&[], vec![text("Oops")])]));
    assert_eq!(opportunity_page_error(&doc), Some(ScrapeError::UnknownStartHeader("Oops".to_string())));
    let doc = document(&MAIN, elem(&[], vec![elem(&[], vec![filler()])]));
    assert_eq!(opportunity_page_error(&doc), Some(ScrapeError::StartNotText));
    assert_eq!(opportunity_page_error(&filler()), Some(ScrapeError::MissingNode));
}

#[test]
fn empty_main_gives_an_empty_opportunity() {
    let doc = document(&MAIN, elem(&[], vec![]));
    let o = scrape_opportunity_page(&doc);
    assert_eq!(o.mentor_areas, None);
    assert_eq!(o.academic_years, None);
}

#[test]
fn parses_html_into_its_tree() {
    let doc = parse_html("<!DOCTYPE html><html><head></head><body><p class=\"x\">hi</p></body></html>");
    assert_eq!(doc.kind, NodeKind::Document);
    assert_eq!(doc.children.len(), 2);
    assert_eq!(doc.children[0].kind, NodeKind::Doctype);
    let body = &doc.children[1].children[1];
    let p = &body.children[0];
    assert_eq!(p.kind, NodeKind::Element {
        name: "p".to_string(),
        attrs: vec![Attribute { name: "class".to_string(), value: "x".to_string() }],
    });
    assert_eq!(p.children[0].kind, NodeKind::Text("hi".to_string()));
}

/// Writes the body part of a tree made by the helpers above as HTML.
fn to_html(n: &HtmlNode, out: &mut String) {
    match &n.kind {
        NodeKind::Text(t) => out.push_str(t),
        NodeKind::Element { attrs, .. } => {
            out.push_str("<div");
            if let Some(a) = attrs.first() {
                out.push_str(&format!(" class=\"{}\"", a.value));
            }
            out.push('>');
            for c in &n.children {
                to_html(c, out);
            }
            out.push_str("</div>");
        }
        _ => {}
    }
}

#[test]
fn parses_a_listing_page_from_html() {
    let doc = listing(two_cards(), "page-item pager__item pager__item--next");
    // doc.children[1] is the html element; its child 2 is the body, whose
    // children are those of the body element at that place in the tree.
    let body = &doc.children[1].children[2];
    let mut inner = String::new();
    for c in &body.children {
        to_html(c, &mut inner);
    }
    let html = format!("<!DOCTYPE html><html><head></head>\n<body>{}</body></html>", inner);
    let parsed = parse_html(&html);
    assert_eq!(links_page_error(&parsed), None);
    let page = scrape_links_page(&parsed);
    assert_eq!(page, scrape_links_page(&doc));
    let mut crawl = LinksCrawl::new();
    assert!(crawl.absorb_document(&parsed));
    assert_eq!(crawl.page, 1);
    assert_eq!(crawl.links.get("gene-study").unwrap().title, "Gene Study");
}

#[test]
fn parses_an_opportunity_page_from_html() {
    let html = "<!DOCTYPE html><html><head></head>\n<body>nothing here</body></html>";
    assert_eq!(opportunity_page_error(&parse_html(html)), Some(ScrapeError::MissingNode));
}

#[test]
fn opportunities_scrape_keeps_pages_read() {
    let mut scrape = OpportunitiesScrape::new();
    let doc = document(&MAIN, opportunity_main("Senior", "2024"));
    let page = scrape_opportunity_page(&doc);
    scrape.absorb_opportunity("a".to_string(), page.clone());
    scrape.absorb_page("c".to_string(), &doc);
    let map = scrape.into_opportunities().opportunity_map;
    assert_eq!(map.len(), 2);
    assert_eq!(map.get("a"), Some(&page));
    assert!(map.get("b").is_none());
    assert_eq!(map.get("c"), Some(&page));
}

#[test]
fn dom_children_outlive_the_parse() {
    let doc = parse_html("<!DOCTYPE html><html><head></head><body><div><p>a</p><p>b</p></div></body></html>");
    let div = &doc.children[1].children[1].children[0];
    assert_eq!(div.children.len(), 2);
    assert_eq!(div.children[1].children[0].kind, NodeKind::Text("b".to_string()));
}
