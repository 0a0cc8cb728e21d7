use vstd::prelude::*;

use crate::html::{
    child_at, first_attr_value, is_element, lemma_view_children, node_at, node_first_attr,
    node_is_element, node_text, text_of, HtmlNode, SpecNode,
};
use crate::str_map::{insert_all, StrMap};
use crate::text::{after_bytes, decimal_digits, decimal_string, skip_bytes, str_eq, trim_end_char, trimmed_end_char};
use crate::{Link, LinkView, ScrapeError, ScrapeErrorView, CURF_ROOT};

verus! {

/// The path from the document to the node whose children are the cards of a
/// listing page.
pub open spec fn container_path() -> Seq<int> {
    seq![1int, 2int, 3int, 1int, 5int, 3int, 1int, 3int, 5int, 1int, 1int, 1int, 0int]
}

/// The text of the only child of `n`.
pub open spec fn inner_text(n: SpecNode, not_text: ScrapeErrorView) -> Result<
    Seq<char>,
    ScrapeErrorView,
> {
    match child_at(n, seq![0int]) {
        Some(c) => match text_of(c) {
            Some(t) => Ok(t),
            None => Err(not_text),
        },
        None => Err(ScrapeErrorView::MissingNode),
    }
}

/// The first `k` departments listed among `dcs`: the texts of the odd
/// nodes, without their trailing commas.
pub open spec fn departments_upto(dcs: Seq<SpecNode>, k: nat) -> Result<
    Seq<Seq<char>>,
    ScrapeErrorView,
>
    decreases k,
{
    if k == 0 {
        Ok(Seq::empty())
    } else {
        match departments_upto(dcs, (k - 1) as nat) {
            Ok(ds) => match inner_text(dcs[(2 * k - 1) as int], ScrapeErrorView::DepartmentNotText) {
                Ok(t) => Ok(ds.push(trim_end_char(t, ','))),
                Err(e) => Err(e),
            },
            Err(e) => Err(e),
        }
    }
}

/// The departments listed among `dcs`.
pub open spec fn departments_of(dcs: Seq<SpecNode>) -> Result<Seq<Seq<char>>, ScrapeErrorView> {
    departments_upto(dcs, dcs.len() / 2)
}

/// The researcher and departments of the information part of a card.
pub open spec fn card_info(info: Seq<SpecNode>) -> Result<
    (Option<Seq<char>>, Seq<Seq<char>>),
    ScrapeErrorView,
> {
    if info.len() == 7 {
        match inner_text(info[1], ScrapeErrorView::ResearcherNotText) {
            Ok(r) => match departments_of(info[5].children) {
                Ok(ds) => Ok((Some(r), ds)),
                Err(e) => Err(e),
            },
            Err(e) => Err(e),
        }
    } else if info.len() == 5 {
        match departments_of(info[3].children) {
            Ok(ds) => Ok((None, ds)),
            Err(e) => Err(e),
        }
    } else {
        Err(ScrapeErrorView::UnknownCardInfo)
    }
}

/// The id of an opportunity, from the title element of its card: the value
/// of its first attribute, a link, without its first four bytes (`/rd/`).
pub open spec fn card_id(title: SpecNode) -> Result<Seq<char>, ScrapeErrorView> {
    if !is_element(title) {
        Err(ScrapeErrorView::TitleNotElement)
    } else {
        match first_attr_value(title) {
            Some(v) => match skip_bytes(v, 4) {
                Some(id) => Ok(id),
                None => Err(ScrapeErrorView::BadIdLink),
            },
            None => Err(ScrapeErrorView::MissingAttribute),
        }
    }
}

/// The id and the card of one opportunity of the listing.
pub open spec fn card_link(card: SpecNode) -> Result<(Seq<char>, LinkView), ScrapeErrorView> {
    match child_at(card, seq![0int, 1int]) {
        None => Err(ScrapeErrorView::MissingNode),
        Some(m) => {
            let mc = m.children;
            match child_at(card, seq![0int, 1int, 1int, 0int]) {
                None => Err(ScrapeErrorView::MissingNode),
                Some(title_element) => match card_id(title_element) {
                    Err(e) => Err(e),
                    Ok(id) => match inner_text(title_element, ScrapeErrorView::TitleNotText) {
                        Err(e) => Err(e),
                        Ok(title) => if mc.len() <= 3 {
                            Err(ScrapeErrorView::MissingNode)
                        } else {
                            match inner_text(mc[3], ScrapeErrorView::DescriptionNotText) {
                                Err(e) => Err(e),
                                Ok(description) => if mc.len() <= 5 {
                                    Err(ScrapeErrorView::MissingNode)
                                } else {
                                    match card_info(mc[5].children) {
                                        Err(e) => Err(e),
                                        Ok((researcher, departments)) => Ok(
                                            (
                                                id,
                                                LinkView {
                                                    title,
                                                    description,
                                                    researcher,
                                                    departments,
                                                },
                                            ),
                                        ),
                                    }
                                },
                            }
                        },
                    },
                },
            }
        },
    }
}

/// The departments of a card's list are read from its children at the odd
/// positions, in order, one for each pair of children: each is the text
/// below that child with the commas at its end taken off.
pub proof fn law_departments_in_order(dcs: Seq<SpecNode>)
    ensures
        departments_of(dcs) matches Ok(ds) ==> {
            &&& ds.len() == dcs.len() / 2
            &&& forall|i: int|
                0 <= i < ds.len() ==> (child_at(#[trigger] dcs[2 * i + 1], seq![0int]) matches Some(
                    t,
                ) && text_of(t) matches Some(x) && ds[i] == trim_end_char(x, ','))
        },
{
    lemma_departments_upto(dcs, dcs.len() / 2);
}

proof fn lemma_departments_upto(dcs: Seq<SpecNode>, k: nat)
    requires
        2 * k <= dcs.len(),
    ensures
        departments_upto(dcs, k) matches Ok(ds) ==> {
            &&& ds.len() == k
            &&& forall|i: int|
                0 <= i < ds.len() ==> (child_at(#[trigger] dcs[2 * i + 1], seq![0int]) matches Some(
                    t,
                ) && text_of(t) matches Some(x) && ds[i] == trim_end_char(x, ','))
        },
    decreases k,
{
    if k > 0 {
        lemma_departments_upto(dcs, (k - 1) as nat);
    }
}

/// The id of a card is the link of its title element without its first four
/// bytes: where the link starts with four ASCII characters (such as `/rd/`),
/// the id is the rest of it; where the link is ASCII and shorter than that,
/// there is no id.
pub proof fn law_card_id_after_prefix(title: SpecNode, link: Seq<char>)
    requires
        is_element(title),
        first_attr_value(title) == Some(link),
    ensures
        link.len() >= 4 && (forall|i: int| 0 <= i < 4 ==> (#[trigger] link[i] as nat) < 0x80)
            ==> card_id(title) == Ok::<Seq<char>, ScrapeErrorView>(link.skip(4)),
        link.len() < 4 && (forall|i: int| 0 <= i < link.len() ==> (#[trigger] link[i] as nat) < 0x80)
            ==> card_id(title) == Err::<Seq<char>, ScrapeErrorView>(ScrapeErrorView::BadIdLink),
{
    reveal_with_fuel(skip_bytes, 5);
    if forall|i: int| 0 <= i < link.len() && i < 4 ==> (#[trigger] link[i] as nat) < 0x80 {
        let l1 = link.drop_first();
        let l2 = l1.drop_first();
        let l3 = l2.drop_first();
        if link.len() >= 1 {
            assert(link[0] as nat == link[0] as nat);
        }
        if link.len() >= 4 {
            assert(l1[0] == link[1]);
            assert(l2[0] == link[2]);
            assert(l3[0] == link[3]);
            assert(l3.drop_first() =~= link.skip(4));
        } else if link.len() == 3 {
            assert(l1[0] == link[1]);
            assert(l2[0] == link[2]);
        } else if link.len() == 2 {
            assert(l1[0] == link[1]);
        }
    }
}

/// Where a card is read, its id comes from the title element (child 0, 1, 1,
/// 0), its title is the text inside that element, its description the text
/// at child 0, 1, 3, 0; its information part (child 0, 1, 5) has seven or
/// five children: with seven, the researcher is the text inside child 1 and
/// the departments are listed in child 5; with five, no researcher is named
/// and the departments are listed in child 3.
pub proof fn law_card_fields(card: SpecNode)
    requires
        card_link(card) is Ok,
    ensures
        child_at(card, seq![0int, 1int, 1int, 0int]) matches Some(te) && {
            &&& card_id(te) == Ok::<Seq<char>, ScrapeErrorView>(card_link(card)->Ok_0.0)
            &&& child_at(te, seq![0int]) matches Some(tt) && text_of(tt) == Some(
                card_link(card)->Ok_0.1.title,
            )
        },
        child_at(card, seq![0int, 1int, 3int, 0int]) matches Some(d) && text_of(d) == Some(
            card_link(card)->Ok_0.1.description,
        ),
        child_at(card, seq![0int, 1int, 5int]) matches Some(info) && {
            let l = card_link(card)->Ok_0.1;
            let n = info.children.len();
            &&& n == 7 || n == 5
            &&& n == 7 ==> (child_at(info, seq![1int, 0int]) matches Some(r) && text_of(r)
                == l.researcher && departments_of(info.children[5].children) == Ok::<
                Seq<Seq<char>>,
                ScrapeErrorView,
            >(l.departments))
            &&& n == 5 ==> (l.researcher is None && departments_of(info.children[3].children)
                == Ok::<Seq<Seq<char>>, ScrapeErrorView>(l.departments))
        },
{
    reveal_with_fuel(child_at, 5);
    let m = child_at(card, seq![0int, 1int])->Some_0;
    assert(seq![0int, 1int, 1int, 0int].drop_first() =~= seq![1int, 1int, 0int]);
    assert(seq![1int, 1int, 0int].drop_first() =~= seq![1int, 0int]);
    assert(seq![1int, 0int].drop_first() =~= seq![0int]);
    assert(seq![0int, 1int, 3int, 0int].drop_first() =~= seq![1int, 3int, 0int]);
    assert(seq![1int, 3int, 0int].drop_first() =~= seq![3int, 0int]);
    assert(seq![3int, 0int].drop_first() =~= seq![0int]);
    assert(seq![0int].drop_first() =~= Seq::<int>::empty());
    assert(seq![0int, 1int, 5int].drop_first() =~= seq![1int, 5int]);
    assert(seq![1int, 5int].drop_first() =~= seq![5int]);
    assert(seq![5int].drop_first() =~= Seq::<int>::empty());
    assert(seq![0int, 1int].drop_first() =~= seq![1int]);
    assert(seq![1int].drop_first() =~= Seq::<int>::empty());
    assert(seq![1int, 0int].drop_first() =~= seq![0int]);
}

/// How many cards a container with `n` children holds: those at the odd
/// positions from 3 to `n - 4`.
pub open spec fn card_count(n: nat) -> nat {
    if n >= 7 {
        ((n - 7) / 2 + 1) as nat
    } else {
        0
    }
}

/// The first `k` cards among the container's children `cs`.
pub open spec fn cards_upto(cs: Seq<SpecNode>, k: nat) -> Result<
    Seq<(Seq<char>, LinkView)>,
    ScrapeErrorView,
>
    decreases k,
{
    if k == 0 {
        Ok(Seq::empty())
    } else {
        match cards_upto(cs, (k - 1) as nat) {
            Ok(ls) => match card_link(cs[(2 * k + 1) as int]) {
                Ok(l) => Ok(ls.push(l)),
                Err(e) => Err(e),
            },
            Err(e) => Err(e),
        }
    }
}

/// The class of the navigation item that leads to a next page.
pub open spec fn next_item_class() -> Seq<char> {
    "page-item pager__item pager__item--next"@
}

/// Whether the navigation below the cards has a next page.
pub open spec fn has_next_page(cs: Seq<SpecNode>) -> Result<bool, ScrapeErrorView> {
    match child_at(cs[cs.len() - 2], seq![3int]) {
        None => Err(ScrapeErrorView::MissingNode),
        Some(nav) => {
            let items = nav.children;
            if items.len() < 4 {
                Err(ScrapeErrorView::MissingNode)
            } else {
                let item = items[items.len() - 4];
                if !is_element(item) {
                    Err(ScrapeErrorView::NavigationNotElement)
                } else {
                    match first_attr_value(item) {
                        Some(v) => Ok(v == next_item_class()),
                        None => Err(ScrapeErrorView::MissingAttribute),
                    }
                }
            }
        },
    }
}

/// On a page read whole, a next page follows exactly when the item fourth
/// from the end of the navigation (child 3 of the container's child second
/// from the end) has `page-item pager__item pager__item--next` as its first
/// attribute's value; any other value means the page is the last.
pub proof fn law_next_page_exactly_on_next_item(doc: SpecNode, c: SpecNode, nav: SpecNode)
    requires
        links_page(doc) is Ok,
        child_at(doc, container_path()) == Some(c),
        child_at(c.children[c.children.len() - 2], seq![3int]) == Some(nav),
    ensures
        nav.children.len() >= 4,
        links_page(doc)->Ok_0.has_next == (first_attr_value(
            nav.children[nav.children.len() - 4],
        ) == Some("page-item pager__item pager__item--next"@)),
{
}

/// What a page of the listing holds: its cards, in order, and whether a
/// next page follows.
pub struct LinksPageView {
    pub links: Seq<(Seq<char>, LinkView)>,
    pub has_next: bool,
}

/// What the listing page `doc` holds.
pub open spec fn links_page(doc: SpecNode) -> Result<LinksPageView, ScrapeErrorView> {
    match child_at(doc, container_path()) {
        None => Err(ScrapeErrorView::MissingNode),
        Some(c) => {
            let cs = c.children;
            if cs.len() < 4 {
                Err(ScrapeErrorView::MissingNode)
            } else {
                match cards_upto(cs, card_count(cs.len())) {
                    Err(e) => Err(e),
                    Ok(links) => match has_next_page(cs) {
                        Err(e) => Err(e),
                        Ok(has_next) => Ok(LinksPageView { links, has_next }),
                    },
                }
            }
        },
    }
}

fn read_inner_text(n: &HtmlNode, not_text: ScrapeError) -> (r: Result<String, ScrapeError>)
    ensures
        r matches Ok(t) ==> inner_text(n@, not_text@) == Ok::<Seq<char>, ScrapeErrorView>(t@),
        r matches Err(e) ==> inner_text(n@, not_text@) == Err::<Seq<char>, ScrapeErrorView>(e@),
{
    let path: [usize; 1] = [0];
    assert(path@.map_values(|i: usize| i as int) =~= seq![0int]);
    match node_at(n, &path) {
        Some(c) => match node_text(c) {
            Some(t) => Ok(t.clone()),
            None => Err(not_text),
        },
        None => Err(ScrapeError::MissingNode),
    }
}

proof fn lemma_departments_err(dcs: Seq<SpecNode>, k: nat, n: nat)
    requires
        k <= n,
        departments_upto(dcs, k) is Err,
    ensures
        departments_upto(dcs, n) == departments_upto(dcs, k),
    decreases n - k,
{
    if k < n {
        lemma_departments_err(dcs, k, (n - 1) as nat);
    }
}

fn read_departments(list: &HtmlNode) -> (r: Result<Vec<String>, ScrapeError>)
    ensures
        r matches Ok(ds) ==> departments_of(list@.children) == Ok::<Seq<Seq<char>>, ScrapeErrorView>(
            ds@.map_values(|d: String| d@),
        ),
        r matches Err(e) ==> departments_of(list@.children) == Err::<
            Seq<Seq<char>>,
            ScrapeErrorView,
        >(e@),
{
    proof {
        lemma_view_children(*list);
    }
    let ghost dcs = list@.children;
    let n = list.children.len() / 2;
    let mut ds: Vec<String> = Vec::new();
    let mut k: usize = 0;
    assert(ds@.map_values(|d: String| d@) =~= Seq::<Seq<char>>::empty());
    while k < n
        invariant
            dcs == list@.children,
            dcs.len() == list.children.len(),
            forall|i: int| 0 <= i < dcs.len() ==> dcs[i] == (#[trigger] list.children@[i])@,
            n == list.children.len() / 2,
            k <= n,
            departments_upto(dcs, k as nat) == Ok::<Seq<Seq<char>>, ScrapeErrorView>(
                ds@.map_values(|d: String| d@),
            ),
        decreases n - k,
    {
        let ghost prev = ds@.map_values(|d: String| d@);
        match read_inner_text(&list.children[2 * k + 1], ScrapeError::DepartmentNotText) {
            Ok(t) => {
                let d = trimmed_end_char(t.as_str(), ',');
                ds.push(d);
                assert(ds@.map_values(|d: String| d@) =~= prev.push(trim_end_char(t@, ',')));
            },
            Err(e) => {
                proof {
                    lemma_departments_err(dcs, (k + 1) as nat, n as nat);
                }
                return Err(e);
            },
        }
        k = k + 1;
    }
    Ok(ds)
}

fn read_card_info(info: &HtmlNode) -> (r: Result<(Option<String>, Vec<String>), ScrapeError>)
    ensures
        r matches Ok(v) ==> card_info(info@.children) == Ok::<
            (Option<Seq<char>>, Seq<Seq<char>>),
            ScrapeErrorView,
        >((crate::opt_view(v.0), v.1@.map_values(|d: String| d@))),
        r matches Err(e) ==> card_info(info@.children) == Err::<
            (Option<Seq<char>>, Seq<Seq<char>>),
            ScrapeErrorView,
        >(e@),
{
    proof {
        lemma_view_children(*info);
    }
    if info.children.len() == 7 {
        let r = read_inner_text(&info.children[1], ScrapeError::ResearcherNotText)?;
        let ds = read_departments(&info.children[5])?;
        Ok((Some(r), ds))
    } else if info.children.len() == 5 {
        let ds = read_departments(&info.children[3])?;
        Ok((None, ds))
    } else {
        Err(ScrapeError::UnknownCardInfo)
    }
}

fn read_card_id(title: &HtmlNode) -> (r: Result<String, ScrapeError>)
    ensures
        r matches Ok(id) ==> card_id(title@) == Ok::<Seq<char>, ScrapeErrorView>(id@),
        r matches Err(e) ==> card_id(title@) == Err::<Seq<char>, ScrapeErrorView>(e@),
{
    if !node_is_element(title) {
        return Err(ScrapeError::TitleNotElement);
    }
    match node_first_attr(title) {
        Some(v) => match after_bytes(v.as_str(), 4) {
            Some(id) => Ok(id),
            None => Err(ScrapeError::BadIdLink),
        },
        None => Err(ScrapeError::MissingAttribute),
    }
}

fn read_card(card: &HtmlNode) -> (r: Result<(String, Link), ScrapeError>)
    ensures
        r matches Ok(v) ==> card_link(card@) == Ok::<(Seq<char>, LinkView), ScrapeErrorView>(
            (v.0@, v.1@),
        ),
        r matches Err(e) ==> card_link(card@) == Err::<(Seq<char>, LinkView), ScrapeErrorView>(e@),
{
    let main_path: [usize; 2] = [0, 1];
    assert(main_path@.map_values(|i: usize| i as int) =~= seq![0int, 1int]);
    let m = match node_at(card, &main_path) {
        Some(m) => m,
        None => {
            return Err(ScrapeError::MissingNode);
        },
    };
    proof {
        lemma_view_children(*m);
    }
    let title_path: [usize; 4] = [0, 1, 1, 0];
    assert(title_path@.map_values(|i: usize| i as int) =~= seq![0int, 1int, 1int, 0int]);
    let title_element = match node_at(card, &title_path) {
        Some(t) => t,
        None => {
            return Err(ScrapeError::MissingNode);
        },
    };
    let id = read_card_id(title_element)?;
    let title = read_inner_text(title_element, ScrapeError::TitleNotText)?;
    if m.children.len() <= 3 {
        return Err(ScrapeError::MissingNode);
    }
    let description = read_inner_text(&m.children[3], ScrapeError::DescriptionNotText)?;
    if m.children.len() <= 5 {
        return Err(ScrapeError::MissingNode);
    }
    let (researcher, departments) = read_card_info(&m.children[5])?;
    Ok((id, Link { title, description, researcher, departments }))
}

/// A page of the listing: its cards, in order, and whether a next page
/// follows.
#[derive(Debug, PartialEq, Eq)]
pub struct LinksPage {
    pub links: Vec<(String, Link)>,
    pub has_next: bool,
}

/// The views of a list of entries.
pub open spec fn links_view(links: Seq<(String, Link)>) -> Seq<(Seq<char>, LinkView)> {
    Seq::new(links.len(), |i: int| (links[i].0@, links[i].1@))
}

impl View for LinksPage {
    type V = LinksPageView;

    open spec fn view(&self) -> LinksPageView {
        LinksPageView { links: links_view(self.links@), has_next: self.has_next }
    }
}

/// On a page read whole, the cards are the container's children at the odd
/// positions from 3 on that lie at least four before its end, each read in
/// order, and no other child is read as a card.
pub proof fn law_cards_at_odd_positions(doc: SpecNode, c: SpecNode)
    requires
        links_page(doc) is Ok,
        child_at(doc, container_path()) == Some(c),
    ensures
        ({
            let links = links_page(doc)->Ok_0.links;
            let n = c.children.len();
            &&& forall|i: int|
                0 <= i < links.len() ==> 2 * i + 3 <= n - 4 && card_link(#[trigger] c.children[2
                    * i + 3]) == Ok::<(Seq<char>, LinkView), ScrapeErrorView>(links[i])
            &&& 2 * links.len() + 3 > n - 4
        }),
{
    let cs = c.children;
    lemma_cards_upto(cs, card_count(cs.len()));
}

proof fn lemma_cards_upto(cs: Seq<SpecNode>, k: nat)
    requires
        2 * k + 1 <= cs.len(),
    ensures
        cards_upto(cs, k) matches Ok(ls) ==> {
            &&& ls.len() == k
            &&& forall|i: int|
                0 <= i < k ==> card_link(#[trigger] cs[2 * i + 3]) == Ok::<
                    (Seq<char>, LinkView),
                    ScrapeErrorView,
                >(ls[i])
        },
    decreases k,
{
    if k > 0 {
        lemma_cards_upto(cs, (k - 1) as nat);
    }
}

proof fn lemma_cards_err(cs: Seq<SpecNode>, k: nat, n: nat)
    requires
        k <= n,
        cards_upto(cs, k) is Err,
    ensures
        cards_upto(cs, n) == cards_upto(cs, k),
    decreases n - k,
{
    if k < n {
        lemma_cards_err(cs, k, (n - 1) as nat);
    }
}

fn read_has_next(container: &HtmlNode) -> (r: Result<bool, ScrapeError>)
    requires
        container.children.len() >= 4,
    ensures
        r matches Ok(b) ==> has_next_page(container@.children) == Ok::<bool, ScrapeErrorView>(b),
        r matches Err(e) ==> has_next_page(container@.children) == Err::<bool, ScrapeErrorView>(e@),
{
    proof {
        lemma_view_children(*container);
    }
    let n = container.children.len();
    let path: [usize; 1] = [3];
    assert(path@.map_values(|i: usize| i as int) =~= seq![3int]);
    let nav = match node_at(&container.children[n - 2], &path) {
        Some(v) => v,
        None => {
            return Err(ScrapeError::MissingNode);
        },
    };
    proof {
        lemma_view_children(*nav);
    }
    if nav.children.len() < 4 {
        return Err(ScrapeError::MissingNode);
    }
    let item = &nav.children[nav.children.len() - 4];
    if !node_is_element(item) {
        return Err(ScrapeError::NavigationNotElement);
    }
    match node_first_attr(item) {
        Some(v) => Ok(str_eq(v.as_str(), "page-item pager__item pager__item--next")),
        None => Err(ScrapeError::MissingAttribute),
    }
}

fn read_links_page(doc: &HtmlNode) -> (r: Result<LinksPage, ScrapeError>)
    ensures
        r matches Ok(p) ==> links_page(doc@) == Ok::<LinksPageView, ScrapeErrorView>(p@),
        r matches Err(e) ==> links_page(doc@) == Err::<LinksPageView, ScrapeErrorView>(e@),
{
    let path: [usize; 13] = [1, 2, 3, 1, 5, 3, 1, 3, 5, 1, 1, 1, 0];
    assert(path@.map_values(|i: usize| i as int) =~= container_path());
    let container = match node_at(doc, &path) {
        Some(c) => c,
        None => {
            return Err(ScrapeError::MissingNode);
        },
    };
    proof {
        lemma_view_children(*container);
    }
    let ghost cs = container@.children;
    let len = container.children.len();
    if len < 4 {
        return Err(ScrapeError::MissingNode);
    }
    let count: usize = if len >= 7 {
        (len - 7) / 2 + 1
    } else {
        0
    };
    let mut links: Vec<(String, Link)> = Vec::new();
    let mut k: usize = 0;
    assert(links_view(links@) =~= Seq::<(Seq<char>, LinkView)>::empty());
    while k < count
        invariant
            cs == container@.children,
            child_at(doc@, container_path()) == Some(container@),
            cs.len() == len,
            len == container.children.len(),
            len >= 4,
            forall|i: int| 0 <= i < cs.len() ==> cs[i] == (#[trigger] container.children@[i])@,
            count == card_count(len as nat),
            k <= count,
            cards_upto(cs, k as nat) == Ok::<Seq<(Seq<char>, LinkView)>, ScrapeErrorView>(
                links_view(links@),
            ),
        decreases count - k,
    {
        let ghost prev = links_view(links@);
        match read_card(&container.children[2 * k + 3]) {
            Ok(l) => {
                let ghost lv = (l.0@, l.1@);
                links.push(l);
                assert(links_view(links@) =~= prev.push(lv));
            },
            Err(e) => {
                proof {
                    lemma_cards_err(cs, (k + 1) as nat, count as nat);
                }
                return Err(e);
            },
        }
        k = k + 1;
    }
    let has_next = read_has_next(container)?;
    Ok(LinksPage { links, has_next })
}

/// Where the listing page `doc` does not have the layout read, the first
/// place where it departs from it; `None` where it has the layout.
pub fn links_page_error(doc: &HtmlNode) -> (r: Option<ScrapeError>)
    ensures
        r is None <==> links_page(doc@) is Ok,
        r matches Some(e) ==> links_page(doc@) == Err::<LinksPageView, ScrapeErrorView>(e@),
{
    match read_links_page(doc) {
        Ok(_) => None,
        Err(e) => Some(e),
    }
}

/// What a page of the listing holds: the cards at the odd positions from 3
/// to four before the end of the card container, each giving an id (its
/// title's link without `/rd/`), a title, a description, a researcher where
/// the card names one and departments without their trailing commas; and
/// whether the navigation offers a next page. The page must have the layout
/// read (`links_page_error` tells).
pub fn scrape_links_page(doc: &HtmlNode) -> (p: LinksPage)
    requires
        links_page(doc@) is Ok,
    ensures
        links_page(doc@) == Ok::<LinksPageView, ScrapeErrorView>(p@),
{
    match read_links_page(doc) {
        Ok(p) => p,
        Err(_) => {
            assert(false);
            LinksPage { links: Vec::new(), has_next: false }
        },
    }
}

/// The address of the listing's page `page`.
pub open spec fn directory_link(page: nat) -> Seq<char> {
    CURF_ROOT@ + "/undergraduate-research/research-directory?page="@ + decimal_digits(page)
}

/// A walk through the pages of the listing: the page to read next and the
/// cards read so far, by id.
pub struct LinksCrawl {
    pub page: usize,
    pub links: StrMap<Link>,
}

impl LinksCrawl {
    /// A walk that starts at the first page, with no cards read.
    pub fn new() -> (c: Self)
        ensures
            c.page == 0,
            c.links@ == Map::<Seq<char>, LinkView>::empty(),
    {
        LinksCrawl { page: 0, links: StrMap::new() }
    }

    /// The address of the page to read next.
    pub fn page_url(&self) -> (url: String)
        ensures
            url@ == directory_link(self.page as nat),
    {
        let mut url = String::from_str(CURF_ROOT);
        url.append("/undergraduate-research/research-directory?page=");
        let n = decimal_string(self.page);
        url.append(n.as_str());
        url
    }

    /// Takes in the cards of a page that has been read, and moves on to the
    /// next page where there is one; tells whether there is.
    pub fn absorb_links(&mut self, page: LinksPage) -> (more: bool)
        requires
            old(self).page < usize::MAX,
        ensures
            more == page@.has_next,
            final(self).links@ == insert_all(old(self).links@, page@.links),
            final(self).page == (if page@.has_next {
                old(self).page + 1
            } else {
                old(self).page as int
            }),
    {
        let ghost start = self.links@;
        let ghost lv = page@.links;
        let LinksPage { links, has_next } = page;
        let n = links.len();
        let mut rest = links;
        let mut i: usize = 0;
        assert(lv.take(0) =~= Seq::<(Seq<char>, LinkView)>::empty());
        assert(links_view(rest@) =~= lv.skip(0));
        while i < n
            invariant
                n == lv.len(),
                i <= n,
                links_view(rest@) == lv.skip(i as int),
                self.links@ == insert_all(start, lv.take(i as int)),
                self.page == old(self).page,
            decreases n - i,
        {
            let ghost before = links_view(rest@);
            let ghost old_rest = rest@;
            assert(before.len() == n - i);
            let (id, link) = rest.remove(0);
            assert(before[0] == (id@, link@));
            assert forall|j: int| 0 <= j < rest@.len() implies links_view(rest@)[j] == before[j + 1] by {
                assert(rest@[j] == old_rest[j + 1]);
            }
            assert(links_view(rest@) =~= lv.skip(i + 1));
            assert(lv.take(i + 1).drop_last() =~= lv.take(i as int));
            assert(lv[i as int] == before[0]);
            self.links.insert(id, link);
            i = i + 1;
        }
        assert(lv.take(n as int) =~= lv);
        if has_next {
            self.page = self.page + 1;
        }
        has_next
    }

    /// Reads the listing page `doc`, takes in its cards and moves on to the
    /// next page where there is one; tells whether there is. The page must
    /// have the layout read (`links_page_error` tells).
    pub fn absorb_document(&mut self, doc: &HtmlNode) -> (more: bool)
        requires
            old(self).page < usize::MAX,
            links_page(doc@) is Ok,
        ensures
            more == links_page(doc@)->Ok_0.has_next,
            final(self).links@ == insert_all(old(self).links@, links_page(doc@)->Ok_0.links),
            final(self).page == (if more {
                old(self).page + 1
            } else {
                old(self).page as int
            }),
    {
        let p = scrape_links_page(doc);
        self.absorb_links(p)
    }
}

} // verus!
