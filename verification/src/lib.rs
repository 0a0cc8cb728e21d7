use vstd::prelude::*;

pub mod filter;
pub mod html;
pub mod process_opportunities;
pub mod scrape_links;
pub mod scrape_opportunities;
pub mod str_map;
pub mod text;
pub mod update_auth;

use crate::str_map::StrMap;

verus! {

/// Where the research directory is served.
pub const CURF_ROOT: &'static str = "https://curf.upenn.edu";

/// The session cookies of a signed-in user.
#[derive(Debug, PartialEq, Eq)]
pub struct Auth {
    pub simple_saml_auth_token: String,
    pub simple_saml_session_id: String,
    pub sse_pair: (String, String),
}

/// The session cookies, as the contracts see them.
pub struct AuthView {
    pub simple_saml_auth_token: Seq<char>,
    pub simple_saml_session_id: Seq<char>,
    pub sse_pair: (Seq<char>, Seq<char>),
}

impl View for Auth {
    type V = AuthView;

    open spec fn view(&self) -> AuthView {
        AuthView {
            simple_saml_auth_token: self.simple_saml_auth_token@,
            simple_saml_session_id: self.simple_saml_session_id@,
            sse_pair: (self.sse_pair.0@, self.sse_pair.1@),
        }
    }
}

/// What the `Cookie` header carries for `auth`.
pub open spec fn cookie_text(auth: AuthView) -> Seq<char> {
    "SimpleSAMLAuthToken="@ + auth.simple_saml_auth_token + "; SimpleSAMLSessionID="@
        + auth.simple_saml_session_id + "; "@ + auth.sse_pair.0 + "="@ + auth.sse_pair.1
}

/// The value of the `Cookie` header that signs requests in as `auth`.
pub fn cookie_string(auth: &Auth) -> (s: String)
    ensures
        s@ == cookie_text(auth@),
{
    let mut s = String::from_str("SimpleSAMLAuthToken=");
    s.append(auth.simple_saml_auth_token.as_str());
    s.append("; SimpleSAMLSessionID=");
    s.append(auth.simple_saml_session_id.as_str());
    s.append("; ");
    s.append(auth.sse_pair.0.as_str());
    s.append("=");
    s.append(auth.sse_pair.1.as_str());
    s
}

/// Where a page does not have the layout that the scraper reads.
#[derive(Debug, PartialEq, Eq)]
pub enum ScrapeError {
    /// A node that the layout calls for is not there.
    MissingNode,
    /// The title of a card is not an element.
    TitleNotElement,
    /// An element that should carry an attribute carries none.
    MissingAttribute,
    /// The link of a card is too short to hold an id.
    BadIdLink,
    /// The title of a card is not text.
    TitleNotText,
    /// The description of a card is not text.
    DescriptionNotText,
    /// The researcher of a card is not text.
    ResearcherNotText,
    /// A department of a card is not text.
    DepartmentNotText,
    /// The information of a card has neither of the known shapes.
    UnknownCardInfo,
    /// The item of the page navigation that is read is not an element.
    NavigationNotElement,
    /// The first section of an opportunity's page does not start with text.
    StartNotText,
    /// The first section of an opportunity's page has an unknown header.
    UnknownStartHeader(String),
    /// A node of the details is neither a row nor text.
    DetailsNotText,
    /// A cell of the compensation row is not text.
    CompensationNotText,
    /// The preferred student years are not text.
    StudentYearNotText,
    /// A preferred student year is not one of the known ones.
    UnknownStudentYear(String),
    /// The academic years are not text.
    AcademicYearNotText,
    /// An academic year is not a number.
    BadAcademicYear(String),
}

/// A layout error, as the contracts see it.
pub enum ScrapeErrorView {
    MissingNode,
    TitleNotElement,
    MissingAttribute,
    BadIdLink,
    TitleNotText,
    DescriptionNotText,
    ResearcherNotText,
    DepartmentNotText,
    UnknownCardInfo,
    NavigationNotElement,
    StartNotText,
    UnknownStartHeader(Seq<char>),
    DetailsNotText,
    CompensationNotText,
    StudentYearNotText,
    UnknownStudentYear(Seq<char>),
    AcademicYearNotText,
    BadAcademicYear(Seq<char>),
}

impl View for ScrapeError {
    type V = ScrapeErrorView;

    open spec fn view(&self) -> ScrapeErrorView {
        match self {
            ScrapeError::MissingNode => ScrapeErrorView::MissingNode,
            ScrapeError::TitleNotElement => ScrapeErrorView::TitleNotElement,
            ScrapeError::MissingAttribute => ScrapeErrorView::MissingAttribute,
            ScrapeError::BadIdLink => ScrapeErrorView::BadIdLink,
            ScrapeError::TitleNotText => ScrapeErrorView::TitleNotText,
            ScrapeError::DescriptionNotText => ScrapeErrorView::DescriptionNotText,
            ScrapeError::ResearcherNotText => ScrapeErrorView::ResearcherNotText,
            ScrapeError::DepartmentNotText => ScrapeErrorView::DepartmentNotText,
            ScrapeError::UnknownCardInfo => ScrapeErrorView::UnknownCardInfo,
            ScrapeError::NavigationNotElement => ScrapeErrorView::NavigationNotElement,
            ScrapeError::StartNotText => ScrapeErrorView::StartNotText,
            ScrapeError::UnknownStartHeader(t) => ScrapeErrorView::UnknownStartHeader(t@),
            ScrapeError::DetailsNotText => ScrapeErrorView::DetailsNotText,
            ScrapeError::CompensationNotText => ScrapeErrorView::CompensationNotText,
            ScrapeError::StudentYearNotText => ScrapeErrorView::StudentYearNotText,
            ScrapeError::UnknownStudentYear(t) => ScrapeErrorView::UnknownStudentYear(t@),
            ScrapeError::AcademicYearNotText => ScrapeErrorView::AcademicYearNotText,
            ScrapeError::BadAcademicYear(t) => ScrapeErrorView::BadAcademicYear(t@),
        }
    }
}

/// The address of an opportunity's page.
pub open spec fn opportunity_link(id: Seq<char>) -> Seq<char> {
    CURF_ROOT@ + "/rd/"@ + id
}

/// The address of the page of the opportunity `id`.
pub fn opportunity_url(id: &str) -> (url: String)
    ensures
        url@ == opportunity_link(id@),
{
    let mut url = String::from_str(CURF_ROOT);
    url.append("/rd/");
    url.append(id);
    url
}

/// A card of the directory listing.
#[derive(Debug, PartialEq, Eq)]
pub struct Link {
    pub title: String,
    pub description: String,
    pub researcher: Option<String>,
    pub departments: Vec<String>,
}

/// A card, as the contracts see it.
pub struct LinkView {
    pub title: Seq<char>,
    pub description: Seq<char>,
    pub researcher: Option<Seq<char>>,
    pub departments: Seq<Seq<char>>,
}

/// The view of an optional string.
pub open spec fn opt_view(s: Option<String>) -> Option<Seq<char>> {
    match s {
        Some(t) => Some(t@),
        None => None,
    }
}

/// The views of a list of strings.
pub open spec fn strings_view(v: Seq<String>) -> Seq<Seq<char>> {
    v.map_values(|s: String| s@)
}

impl View for Link {
    type V = LinkView;

    open spec fn view(&self) -> LinkView {
        LinkView {
            title: self.title@,
            description: self.description@,
            researcher: opt_view(self.researcher),
            departments: strings_view(self.departments@),
        }
    }
}

/// The listing's cards, by opportunity id.
pub struct Links {
    pub links_map: StrMap<Link>,
}

/// Which years of study an opportunity prefers.
#[derive(Clone, Copy, Debug, PartialEq, Eq)]
pub struct PreferredStudentYears {
    pub first_year: bool,
    pub second_year: bool,
    pub third_year: bool,
    pub fourth_year: bool,
}

impl View for PreferredStudentYears {
    type V = PreferredStudentYears;

    open spec fn view(&self) -> PreferredStudentYears {
        *self
    }
}

/// How an opportunity pays.
#[derive(Clone, Copy, Debug, PartialEq, Eq)]
pub struct Compensation {
    pub volunteer: bool,
    pub salary: bool,
    pub independent_study: bool,
    pub work_study: bool,
}

impl View for Compensation {
    type V = Compensation;

    open spec fn view(&self) -> Compensation {
        *self
    }
}

/// The details page of an opportunity.
#[derive(Clone, Debug, PartialEq, Eq)]
pub struct Opportunity {
    pub mentor_areas: Option<String>,
    pub description: Option<String>,
    pub preferred_qualifications: Option<String>,
    pub preferred_student_years: Option<PreferredStudentYears>,
    pub compensation: Option<Compensation>,
    pub academic_years: Option<Vec<usize>>,
}

/// A details page, as the contracts see it.
pub struct OpportunityView {
    pub mentor_areas: Option<Seq<char>>,
    pub description: Option<Seq<char>>,
    pub preferred_qualifications: Option<Seq<char>>,
    pub preferred_student_years: Option<PreferredStudentYears>,
    pub compensation: Option<Compensation>,
    pub academic_years: Option<Seq<usize>>,
}

/// The view of an optional list of years.
pub open spec fn years_view(v: Option<Vec<usize>>) -> Option<Seq<usize>> {
    match v {
        Some(y) => Some(y@),
        None => None,
    }
}

impl View for Opportunity {
    type V = OpportunityView;

    open spec fn view(&self) -> OpportunityView {
        OpportunityView {
            mentor_areas: opt_view(self.mentor_areas),
            description: opt_view(self.description),
            preferred_qualifications: opt_view(self.preferred_qualifications),
            preferred_student_years: self.preferred_student_years,
            compensation: self.compensation,
            academic_years: years_view(self.academic_years),
        }
    }
}

/// The details pages, by opportunity id.
pub struct Opportunities {
    pub opportunity_map: StrMap<Opportunity>,
}

/// A card of the listing together with the details page of its opportunity.
#[derive(Clone, Debug, PartialEq, Eq)]
pub struct ProcessedOpportunity {
    pub title: String,
    pub short_description: String,
    pub researcher: Option<String>,
    pub departments: Vec<String>,
    pub mentor_areas: Option<String>,
    pub description: Option<String>,
    pub preferred_qualifications: Option<String>,
    pub preferred_student_years: Option<PreferredStudentYears>,
    pub compensation: Option<Compensation>,
    pub academic_years: Option<Vec<usize>>,
}

/// A card with its details page, as the contracts see it.
pub struct ProcessedOpportunityView {
    pub title: Seq<char>,
    pub short_description: Seq<char>,
    pub researcher: Option<Seq<char>>,
    pub departments: Seq<Seq<char>>,
    pub mentor_areas: Option<Seq<char>>,
    pub description: Option<Seq<char>>,
    pub preferred_qualifications: Option<Seq<char>>,
    pub preferred_student_years: Option<PreferredStudentYears>,
    pub compensation: Option<Compensation>,
    pub academic_years: Option<Seq<usize>>,
}

impl View for ProcessedOpportunity {
    type V = ProcessedOpportunityView;

    open spec fn view(&self) -> ProcessedOpportunityView {
        ProcessedOpportunityView {
            title: self.title@,
            short_description: self.short_description@,
            researcher: opt_view(self.researcher),
            departments: strings_view(self.departments@),
            mentor_areas: opt_view(self.mentor_areas),
            description: opt_view(self.description),
            preferred_qualifications: opt_view(self.preferred_qualifications),
            preferred_student_years: self.preferred_student_years,
            compensation: self.compensation,
            academic_years: years_view(self.academic_years),
        }
    }
}

/// The opportunities that have both a card and a details page, by id.
pub struct ProcessedOpportunities {
    pub processed_opportunity_map: StrMap<ProcessedOpportunity>,
}

} // verus!
