//! From the files of a vault to the graph of its pages.
//!
//! Reading the files is the caller's part. What is decided here is which pages
//! a vault has, and which nodes and links its graph has.

use crate::graph_store::empty_pages_linked;
use crate::graph_store::graph_add_edge;
use crate::graph_store::graph_add_node;
use crate::graph_store::graph_links;
use crate::graph_store::graph_neighbors;
use crate::graph_store::graph_new;
use crate::graph_store::graph_pages;
use crate::graph_store::neighbors_with_link;
use crate::markdown::links_in;
use crate::markdown::search_links;
use crate::markdown::search_tags;
use crate::markdown::tags_in;
use crate::text::copy_strings;
use crate::text::find_text;
use crate::text::lemma_position_of;
use crate::text::position_of;
use crate::text::texts;
use crate::vault_laws::lemma_vault_placeholders_linked;
use crate::Page;
use crate::PageView;
use petgraph::graph::Graph;
use vstd::prelude::*;

verus! {

/// The titles of `pages`.
pub open spec fn titles_of(pages: Seq<PageView>) -> Seq<Seq<char>> {
    pages.map_values(|page: PageView| page.title)
}

/// The models of `pages`.
pub open spec fn page_views(pages: Seq<Page>) -> Seq<PageView> {
    pages.map_values(|page: Page| page@)
}

/// The pages that become nodes: of the pages with one title the first, in the
/// order of `pages`.
pub open spec fn node_pages(pages: Seq<PageView>) -> Seq<PageView>
    decreases pages.len(),
{
    if pages.len() == 0 {
        Seq::empty()
    } else {
        let before = node_pages(pages.drop_last());
        if position_of(titles_of(before), pages.last().title) is Some {
            before
        } else {
            before.push(pages.last())
        }
    }
}

/// The node that stands for `title` among the nodes with `titles`.
pub open spec fn node_of(titles: Seq<Seq<char>>, title: Seq<char>) -> usize {
    position_of(titles, title).unwrap() as usize
}

/// The links of `pages`, page by page and within a page in the order of its
/// links: each from the node of the page to the node of the title it links to.
pub open spec fn links_of(titles: Seq<Seq<char>>, pages: Seq<PageView>) -> Seq<(usize, usize)>
    decreases pages.len(),
{
    if pages.len() == 0 {
        Seq::empty()
    } else {
        let page = pages.last();
        links_of(titles, pages.drop_last()) + page.links.map_values(
            |link: Seq<char>| (node_of(titles, page.title), node_of(titles, link)),
        )
    }
}

/// The neighbour lists of a graph of `count` nodes to which `links` have been
/// added one by one.
pub open spec fn neighbors_of(count: nat, links: Seq<(usize, usize)>) -> Seq<Seq<usize>>
    decreases links.len(),
{
    if links.len() == 0 {
        Seq::new(count, |i: int| Seq::empty())
    } else {
        neighbors_with_link(
            neighbors_of(count, links.drop_last()),
            links.drop_last(),
            links.last().0,
            links.last().1,
        )
    }
}

/// Every title that a page of `pages` links to is the title of a page of `pages`.
pub open spec fn links_resolve(pages: Seq<PageView>) -> bool {
    forall|i: int, j: int|
        0 <= i < pages.len() && 0 <= j < pages[i].links.len() ==> titles_of(pages).contains(
            #[trigger] pages[i].links[j],
        )
}

/// The number of links of `pages`.
pub open spec fn link_count(pages: Seq<PageView>) -> nat
    decreases pages.len(),
{
    if pages.len() == 0 {
        0
    } else {
        link_count(pages.drop_last()) + pages.last().links.len()
    }
}

/// `pages` can be made into a graph: every link leads to a page, and the nodes
/// and the links can be numbered by `u32`.
pub open spec fn fits_graph(pages: Seq<PageView>) -> bool {
    &&& links_resolve(pages)
    &&& pages.len() <= u32::MAX
    &&& link_count(pages) <= u32::MAX
}

/// There are as many links as the pages name.
proof fn lemma_links_of_len(titles: Seq<Seq<char>>, pages: Seq<PageView>)
    ensures
        links_of(titles, pages).len() == link_count(pages),
    decreases pages.len(),
{
    if pages.len() > 0 {
        lemma_links_of_len(titles, pages.drop_last());
    }
}

/// The first pages have no more links than all.
proof fn lemma_link_count_take(pages: Seq<PageView>, i: int)
    requires
        0 <= i <= pages.len(),
    ensures
        link_count(pages.take(i)) <= link_count(pages),
    decreases pages.len() - i,
{
    if i < pages.len() {
        assert(pages.take(i + 1).drop_last() == pages.take(i));
        lemma_link_count_take(pages, i + 1);
    } else {
        assert(pages.take(i) == pages);
    }
}

/// There are no more nodes than pages, and each node has the title of a page.
pub proof fn lemma_node_pages(pages: Seq<PageView>)
    ensures
        node_pages(pages).len() <= pages.len(),
        forall|k: int|
            0 <= k < pages.len() ==> titles_of(node_pages(pages)).contains(
                #[trigger] pages[k].title,
            ),
    decreases pages.len(),
{
    if pages.len() > 0 {
        let before = node_pages(pages.drop_last());
        let last = pages.last();
        lemma_node_pages(pages.drop_last());
        lemma_position_of(titles_of(before), last.title);
        assert(titles_of(before.push(last)) == titles_of(before).push(last.title));
        assert forall|k: int| 0 <= k < pages.len() implies titles_of(node_pages(pages)).contains(
            #[trigger] pages[k].title,
        ) by {
            if k < pages.len() - 1 {
                assert(pages.drop_last()[k] == pages[k]);
                let at = choose|at: int|
                    0 <= at < before.len() && titles_of(before)[at] == pages[k].title;
                assert(titles_of(node_pages(pages))[at] == pages[k].title);
            } else if position_of(titles_of(before), last.title) is None {
                assert(titles_of(node_pages(pages))[before.len() as int] == last.title);
            }
        }
    }
}

/// Whether every link of `pages` leads to a page, and the nodes and links can be
/// numbered by `u32`.
pub fn can_build_graph(pages: &Vec<Page>) -> (fits: bool)
    ensures
        fits == fits_graph(page_views(pages@)),
{
    let ghost views = page_views(pages@);
    if pages.len() > 0xffff_ffff {
        return false;
    }
    let mut titles: Vec<String> = Vec::new();
    let mut i: usize = 0;
    while i < pages.len()
        invariant
            i <= pages.len(),
            views == page_views(pages@),
            texts(titles@) == titles_of(views.take(i as int)),
        decreases pages.len() - i,
    {
        let ghost prior = titles@;
        titles.push(pages[i].title.clone());
        assert(texts(titles@) == texts(prior).push(pages@[i as int].title@));
        assert(titles_of(views.take(i + 1)) == titles_of(views.take(i as int)).push(
            views[i as int].title,
        ));
        i += 1;
    }
    assert(views.take(views.len() as int) == views);
    let mut count: usize = 0;
    let mut i: usize = 0;
    while i < pages.len()
        invariant
            i <= pages.len(),
            views == page_views(pages@),
            texts(titles@) == titles_of(views),
            count == link_count(views.take(i as int)) <= u32::MAX,
            forall|a: int, b: int|
                0 <= a < i && 0 <= b < views[a].links.len() ==> titles_of(views).contains(
                    #[trigger] views[a].links[b],
                ),
        decreases pages.len() - i,
    {
        let page = &pages[i];
        assert(views.take(i + 1).drop_last() == views.take(i as int));
        proof {
            lemma_link_count_take(views, i + 1);
        }
        if page.links.len() > 0xffff_ffff - count {
            return false;
        }
        let mut j: usize = 0;
        while j < page.links.len()
            invariant
                j <= page.links.len(),
                i < pages.len(),
                views == page_views(pages@),
                page == &pages[i as int],
                texts(titles@) == titles_of(views),
                forall|b: int|
                    0 <= b < j ==> titles_of(views).contains(#[trigger] views[i as int].links[b]),
            decreases page.links.len() - j,
        {
            let found = find_text(&titles, &page.links[j]);
            proof {
                lemma_position_of(titles_of(views), page.links@[j as int]@);
                assert(views[i as int].links[j as int] == page.links@[j as int]@);
            }
            if found.is_none() {
                return false;
            }
            j += 1;
        }
        count += page.links.len();
        i += 1;
    }
    true
}

/// The first pages make no more nodes than all.
proof fn lemma_node_pages_take(pages: Seq<PageView>, i: int)
    requires
        0 <= i <= pages.len(),
    ensures
        node_pages(pages.take(i)).len() <= i,
{
    lemma_node_pages(pages.take(i));
}

/// A title that links to a page of `pages` has a node.
proof fn lemma_has_node(pages: Seq<PageView>, title: Seq<char>)
    requires
        titles_of(pages).contains(title),
    ensures
        position_of(titles_of(node_pages(pages)), title) matches Some(at) && 0 <= at < node_pages(
            pages,
        ).len(),
{
    let k = choose|k: int| 0 <= k < titles_of(pages).len() && titles_of(pages)[k] == title;
    assert(pages[k].title == title);
    lemma_node_pages(pages);
    lemma_position_of(titles_of(node_pages(pages)), title);
}

/// The graph of `pages`.
///
/// Of the pages with one title the first becomes a node. Every link of every
/// page becomes a link of the graph, from the node of the page's title to the
/// node of the title it names; links that say the same are kept apart.
pub fn pages_to_graph(pages: Vec<Page>) -> (graph: Graph<Page, ()>)
    requires
        fits_graph(page_views(pages@)),
    ensures
        page_views(graph_pages(graph)) == node_pages(page_views(pages@)),
        graph_links(graph) == links_of(
            titles_of(node_pages(page_views(pages@))),
            page_views(pages@),
        ),
        graph_neighbors(graph) == neighbors_of(
            node_pages(page_views(pages@)).len(),
            graph_links(graph),
        ),
{
    let ghost views = page_views(pages@);
    let mut graph = graph_new();
    let mut titles: Vec<String> = Vec::new();
    let mut i: usize = 0;
    while i < pages.len()
        invariant
            i <= pages.len() <= u32::MAX,
            views == page_views(pages@),
            page_views(graph_pages(graph)) == node_pages(views.take(i as int)),
            texts(titles@) == titles_of(node_pages(views.take(i as int))),
            graph_links(graph) == Seq::<(usize, usize)>::empty(),
            graph_neighbors(graph) == Seq::new(
                graph_pages(graph).len(),
                |k: int| Seq::<usize>::empty(),
            ),
        decreases pages.len() - i,
    {
        let page = &pages[i];
        let ghost before = node_pages(views.take(i as int));
        assert(views.take(i + 1).drop_last() == views.take(i as int));
        assert(views.take(i + 1).last() == page@);
        proof {
            lemma_node_pages_take(views, i as int);
        }
        if find_text(&titles, &page.title).is_none() {
            let ghost prior_pages = graph_pages(graph);
            let ghost prior_titles = titles@;
            let copy = page.clone();
            graph_add_node(&mut graph, copy);
            titles.push(page.title.clone());
            assert(page_views(prior_pages.push(copy)) == page_views(prior_pages).push(copy@));
            assert(texts(prior_titles.push(page.title)) == texts(prior_titles).push(page.title@));
            assert(titles_of(before.push(page@)) == titles_of(before).push(page@.title));
            assert(graph_neighbors(graph) =~= Seq::new(
                graph_pages(graph).len(),
                |k: int| Seq::<usize>::empty(),
            ));
        }
        i += 1;
    }
    assert(views.take(views.len() as int) == views);
    let ghost nodes = node_pages(views);
    let ghost names = titles_of(nodes);
    proof {
        lemma_node_pages(views);
    }
    assert(graph_neighbors(graph) == neighbors_of(nodes.len(), graph_links(graph)));
    let mut i: usize = 0;
    while i < pages.len()
        invariant
            i <= pages.len(),
            views == page_views(pages@),
            fits_graph(views),
            nodes == node_pages(views),
            names == titles_of(nodes),
            page_views(graph_pages(graph)) == nodes,
            nodes.len() <= u32::MAX,
            texts(titles@) == names,
            graph_links(graph) == links_of(names, views.take(i as int)),
            graph_neighbors(graph) == neighbors_of(nodes.len(), graph_links(graph)),
        decreases pages.len() - i,
    {
        let page = &pages[i];
        assert(views.take(i + 1).drop_last() == views.take(i as int));
        assert(views.take(i + 1).last() == page@);
        proof {
            lemma_node_pages(views);
            assert(views[i as int].title == page@.title);
            lemma_position_of(names, page.title@);
            lemma_link_count_take(views, i + 1);
            lemma_links_of_len(names, views.take(i + 1));
        }
        let source = find_text(&titles, &page.title).unwrap();
        let ghost link = |target: Seq<char>| (node_of(names, page@.title), node_of(names, target));
        let mut j: usize = 0;
        while j < page.links.len()
            invariant
                j <= page.links.len(),
                i < pages.len(),
                views == page_views(pages@),
                fits_graph(views),
                page == &pages[i as int],
                nodes == node_pages(views),
                names == titles_of(nodes),
                page_views(graph_pages(graph)) == nodes,
                nodes.len() <= u32::MAX,
                texts(titles@) == names,
                source == node_of(names, page@.title),
                source < nodes.len(),
                link == |target: Seq<char>| (node_of(names, page@.title), node_of(names, target)),
                links_of(names, views.take(i + 1)).len() <= u32::MAX,
                links_of(names, views.take(i + 1)) == links_of(names, views.take(i as int))
                    + page@.links.map_values(link),
                graph_links(graph) == links_of(names, views.take(i as int)) + page@.links.take(
                    j as int,
                ).map_values(link),
                graph_neighbors(graph) == neighbors_of(nodes.len(), graph_links(graph)),
            decreases page.links.len() - j,
        {
            let ghost target_title = page.links@[j as int]@;
            proof {
                assert(views[i as int].links[j as int] == target_title);
                lemma_has_node(views, target_title);
            }
            let target = find_text(&titles, &page.links[j]).unwrap();
            let ghost prior = graph_links(graph);
            graph_add_edge(&mut graph, source, target);
            assert(page@.links.take(j + 1).map_values(link) == page@.links.take(
                j as int,
            ).map_values(link).push((source, target)));
            assert(graph_links(graph).drop_last() == prior);
            j += 1;
        }
        assert(page@.links.take(page@.links.len() as int) == page@.links);
        i += 1;
    }
    graph
}

/// The models of files: of each its title and its text.
pub open spec fn file_views(files: Seq<(String, String)>) -> Seq<(Seq<char>, Seq<char>)> {
    files.map_values(|file: (String, String)| (file.0@, file.1@))
}

/// The titles of files.
pub open spec fn file_titles(files: Seq<(Seq<char>, Seq<char>)>) -> Seq<Seq<char>> {
    files.map_values(|file: (Seq<char>, Seq<char>)| file.0)
}

/// The page of a file: it has the file's title and the tags and links of its text.
pub open spec fn page_of_file(file: (Seq<char>, Seq<char>)) -> PageView {
    PageView { title: file.0, tags: tags_in(file.1), empty: false, links: links_in(file.1) }
}

/// The empty page that stands for a title without a file.
pub open spec fn placeholder(title: Seq<char>) -> PageView {
    PageView { title, tags: Seq::empty(), empty: true, links: Seq::empty() }
}

/// An empty page for each of `links` that is none of `titles`.
pub open spec fn placeholders(links: Seq<Seq<char>>, titles: Seq<Seq<char>>) -> Seq<PageView>
    decreases links.len(),
{
    if links.len() == 0 {
        Seq::empty()
    } else {
        let before = placeholders(links.drop_last(), titles);
        if titles.contains(links.last()) {
            before
        } else {
            before.push(placeholder(links.last()))
        }
    }
}

/// The pages of files: for each file its page, and after it an empty page for
/// each of its links that is none of `titles`.
pub open spec fn pages_of(files: Seq<(Seq<char>, Seq<char>)>, titles: Seq<Seq<char>>) -> Seq<
    PageView,
>
    decreases files.len(),
{
    if files.len() == 0 {
        Seq::empty()
    } else {
        pages_of(files.drop_last(), titles).push(page_of_file(files.last())) + placeholders(
            links_in(files.last().1),
            titles,
        )
    }
}

/// Whether one of `files` has the title `title`.
fn has_file(files: &Vec<(String, String)>, title: &String) -> (found: bool)
    ensures
        found == file_titles(file_views(files@)).contains(title@),
{
    let ghost titles = file_titles(file_views(files@));
    let mut i: usize = 0;
    while i < files.len()
        invariant
            i <= files.len(),
            titles == file_titles(file_views(files@)),
            forall|k: int| 0 <= k < i ==> titles[k] != title@,
        decreases files.len() - i,
    {
        assert(titles[i as int] == files@[i as int].0@);
        if files[i].0 == *title {
            return true;
        }
        i += 1;
    }
    false
}

/// The pages of a vault, from the title and the text of each of its files.
///
/// Each file gives a page. A link to a title that no file has gives an empty
/// page with that title, once for each page that links to it.
pub fn extract_pages(files: &Vec<(String, String)>) -> (pages: Vec<Page>)
    ensures
        page_views(pages@) == pages_of(file_views(files@), file_titles(file_views(files@))),
{
    let ghost views = file_views(files@);
    let ghost titles = file_titles(views);
    let mut pages: Vec<Page> = Vec::new();
    let mut i: usize = 0;
    assert(page_views(pages@) == Seq::<PageView>::empty());
    while i < files.len()
        invariant
            i <= files.len(),
            views == file_views(files@),
            titles == file_titles(views),
            page_views(pages@) == pages_of(views.take(i as int), titles),
        decreases files.len() - i,
    {
        let tags = search_tags(files[i].1.as_str());
        let links = search_links(files[i].1.as_str());
        assert(views.take(i + 1).drop_last() == views.take(i as int));
        assert(views.take(i + 1).last() == (files@[i as int].0@, files@[i as int].1@));
        let ghost found = texts(links@);
        let ghost first = pages_of(views.take(i as int), titles).push(page_of_file(views[i as int]));
        let page = Page {
            title: files[i].0.clone(),
            tags,
            empty: false,
            links: copy_strings(&links),
        };
        let ghost prior = pages@;
        pages.push(page);
        assert(page_views(prior.push(page)) == page_views(prior).push(page@));
        let mut j: usize = 0;
        assert(found.take(0) == Seq::<Seq<char>>::empty());
        assert(first + Seq::<PageView>::empty() == first);
        while j < links.len()
            invariant
                j <= links.len(),
                titles == file_titles(file_views(files@)),
                found == texts(links@),
                page_views(pages@) == first + placeholders(found.take(j as int), titles),
            decreases links.len() - j,
        {
            assert(found.take(j + 1).drop_last() == found.take(j as int));
            assert(found.take(j + 1).last() == links@[j as int]@);
            if !has_file(files, &links[j]) {
                let empty = Page {
                    title: links[j].clone(),
                    tags: Vec::new(),
                    empty: true,
                    links: Vec::new(),
                };
                let ghost prior = pages@;
                let ghost done = placeholders(found.take(j as int), titles);
                pages.push(empty);
                assert(empty@.tags == Seq::<Seq<char>>::empty());
                assert(empty@.links == Seq::<Seq<char>>::empty());
                assert(empty@ == placeholder(links@[j as int]@));
                assert(page_views(prior.push(empty)) == page_views(prior).push(empty@));
                assert((first + done).push(empty@) == first + done.push(empty@));
            }
            j += 1;
        }
        assert(found.take(found.len() as int) == found);
        i += 1;
    }
    assert(views.take(views.len() as int) == views);
    pages
}

/// The empty pages for `links` have no links themselves, and there is one for
/// each link that is none of `titles`.
proof fn lemma_placeholders(links: Seq<Seq<char>>, titles: Seq<Seq<char>>)
    ensures
        forall|i: int|
            0 <= i < placeholders(links, titles).len() ==> (#[trigger] placeholders(
                links,
                titles,
            )[i]).links.len() == 0,
        forall|j: int|
            0 <= j < links.len() && !titles.contains(links[j]) ==> placeholders(
                links,
                titles,
            ).contains(placeholder(#[trigger] links[j])),
    decreases links.len(),
{
    if links.len() > 0 {
        let before = placeholders(links.drop_last(), titles);
        let all = placeholders(links, titles);
        lemma_placeholders(links.drop_last(), titles);
        assert forall|j: int| 0 <= j < links.len() && !titles.contains(links[j]) implies all.contains(
            placeholder(#[trigger] links[j]),
        ) by {
            if j < links.len() - 1 {
                assert(links.drop_last()[j] == links[j]);
                let at = choose|at: int|
                    0 <= at < before.len() && before[at] == placeholder(links[j]);
                assert(all[at] == placeholder(links[j]));
            } else {
                assert(all[before.len() as int] == placeholder(links[j]));
            }
        }
    }
}

/// Among the pages of files are the page of each file and an empty page for
/// each link that is none of `titles`; and a page with links is the page of a
/// file.
pub proof fn lemma_pages_of(files: Seq<(Seq<char>, Seq<char>)>, titles: Seq<Seq<char>>)
    ensures
        forall|k: int|
            0 <= k < files.len() ==> pages_of(files, titles).contains(
                page_of_file(#[trigger] files[k]),
            ),
        forall|k: int, j: int|
            0 <= k < files.len() && 0 <= j < links_in(files[k].1).len() && !titles.contains(
                links_in(files[k].1)[j],
            ) ==> pages_of(files, titles).contains(
                placeholder(#[trigger] links_in(files[k].1)[j]),
            ),
        forall|i: int|
            0 <= i < pages_of(files, titles).len() && (#[trigger] pages_of(
                files,
                titles,
            )[i]).links.len() > 0 ==> exists|k: int|
                0 <= k < files.len() && pages_of(files, titles)[i] == page_of_file(
                    #[trigger] files[k],
                ),
    decreases files.len(),
{
    if files.len() > 0 {
        let last = files.last();
        let before = pages_of(files.drop_last(), titles);
        let added = placeholders(links_in(last.1), titles);
        let all = pages_of(files, titles);
        lemma_pages_of(files.drop_last(), titles);
        lemma_placeholders(links_in(last.1), titles);
        assert(all == before.push(page_of_file(last)) + added);
        assert forall|k: int| 0 <= k < files.len() implies all.contains(
            page_of_file(#[trigger] files[k]),
        ) by {
            if k < files.len() - 1 {
                assert(files.drop_last()[k] == files[k]);
                let at = choose|at: int|
                    0 <= at < before.len() && before[at] == page_of_file(files[k]);
                assert(all[at] == page_of_file(files[k]));
            } else {
                assert(all[before.len() as int] == page_of_file(files[k]));
            }
        }
        assert forall|k: int, j: int|
            0 <= k < files.len() && 0 <= j < links_in(files[k].1).len() && !titles.contains(
                links_in(files[k].1)[j],
            ) implies all.contains(placeholder(#[trigger] links_in(files[k].1)[j])) by {
            let link = links_in(files[k].1)[j];
            if k < files.len() - 1 {
                assert(files.drop_last()[k] == files[k]);
                let at = choose|at: int| 0 <= at < before.len() && before[at] == placeholder(link);
                assert(all[at] == placeholder(link));
            } else {
                let at = choose|at: int| 0 <= at < added.len() && added[at] == placeholder(link);
                assert(all[before.len() + 1 + at] == placeholder(link));
            }
        }
        assert forall|i: int| 0 <= i < all.len() && (#[trigger] all[i]).links.len() > 0 implies exists|
            k: int,
        |
            0 <= k < files.len() && all[i] == page_of_file(#[trigger] files[k]) by {
            if i < before.len() {
                assert(all[i] == before[i]);
                let k = choose|k: int|
                    0 <= k < files.len() - 1 && before[i] == page_of_file(
                        #[trigger] files.drop_last()[k],
                    );
                assert(files.drop_last()[k] == files[k]);
            } else if i == before.len() {
                assert(all[i] == page_of_file(files[files.len() - 1]));
            } else {
                assert(all[i] == added[i - before.len() - 1]);
            }
        }
    }
}

/// Every link of the pages of a vault leads to one of its pages.
pub proof fn lemma_extracted_links_resolve(files: Seq<(Seq<char>, Seq<char>)>)
    ensures
        links_resolve(pages_of(files, file_titles(files))),
{
    let titles = file_titles(files);
    let pages = pages_of(files, titles);
    lemma_pages_of(files, titles);
    assert forall|i: int, j: int|
        0 <= i < pages.len() && 0 <= j < pages[i].links.len() implies titles_of(pages).contains(
        #[trigger] pages[i].links[j],
    ) by {
        let link = pages[i].links[j];
        let k = choose|k: int| 0 <= k < files.len() && pages[i] == page_of_file(#[trigger] files[k]);
        assert(link == links_in(files[k].1)[j]);
        let target = if titles.contains(link) {
            let g = choose|g: int| 0 <= g < titles.len() && titles[g] == link;
            page_of_file(files[g])
        } else {
            placeholder(link)
        };
        assert(pages.contains(target));
        let at = choose|at: int| 0 <= at < pages.len() && pages[at] == target;
        assert(titles_of(pages)[at] == link);
    }
}

/// The graph of a vault, from the title and the text of each of its files; or
/// nothing where the vault has more pages or links than a graph can number.
///
/// In the graph every link leads to a node, and every node with an empty page
/// has a neighbour.
pub fn vault_to_graph(files: &Vec<(String, String)>) -> (graph: Option<Graph<Page, ()>>)
    ensures
        ({
            let pages = pages_of(file_views(files@), file_titles(file_views(files@)));
            match graph {
                Some(graph) => {
                    &&& pages.len() <= u32::MAX
                    &&& link_count(pages) <= u32::MAX
                    &&& page_views(graph_pages(graph)) == node_pages(pages)
                    &&& graph_links(graph) == links_of(titles_of(node_pages(pages)), pages)
                    &&& graph_neighbors(graph) == neighbors_of(
                        node_pages(pages).len(),
                        graph_links(graph),
                    )
                    &&& empty_pages_linked(graph)
                },
                None => pages.len() > u32::MAX || link_count(pages) > u32::MAX,
            }
        }),
{
    let pages = extract_pages(files);
    proof {
        lemma_extracted_links_resolve(file_views(files@));
    }
    if can_build_graph(&pages) {
        let graph = pages_to_graph(pages);
        proof {
            let nodes = page_views(graph_pages(graph));
            assert forall|n: int|
                0 <= n < graph_pages(graph).len() && graph_pages(graph)[n].empty implies (
            #[trigger] graph_neighbors(graph)[n]).len() > 0 by {
                assert(nodes[n].empty == graph_pages(graph)[n].empty);
                lemma_vault_placeholders_linked(file_views(files@), n);
            }
        }
        Some(graph)
    } else {
        None
    }
}

} // verus!
