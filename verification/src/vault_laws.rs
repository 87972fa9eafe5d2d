//! What holds of the graph of every vault.

use crate::graph_store::neighbors_with_link;
use crate::graph_store::out_degree;
use crate::markdown::links_in;
use crate::text::lemma_position_of;
use crate::text::position_of;
use crate::vault_parser::file_titles;
use crate::vault_parser::lemma_extracted_links_resolve;
use crate::vault_parser::lemma_node_pages;
use crate::vault_parser::lemma_pages_of;
use crate::vault_parser::links_of;
use crate::vault_parser::neighbors_of;
use crate::vault_parser::node_of;
use crate::vault_parser::node_pages;
use crate::vault_parser::page_of_file;
use crate::vault_parser::pages_of;
use crate::vault_parser::placeholder;
use crate::vault_parser::placeholders;
use crate::vault_parser::titles_of;
use crate::PageView;
use vstd::prelude::*;

verus! {

/// The number of links in `links` that reach node `b` from another node.
pub open spec fn in_degree(links: Seq<(usize, usize)>, b: usize) -> nat
    decreases links.len(),
{
    if links.len() == 0 {
        0
    } else if links.last().1 == b && links.last().0 != b {
        in_degree(links.drop_last(), b) + 1
    } else {
        in_degree(links.drop_last(), b)
    }
}

/// Every link of `links` joins two of `count` nodes.
pub open spec fn links_within(links: Seq<(usize, usize)>, count: nat) -> bool {
    forall|e: int| 0 <= e < links.len() ==> (#[trigger] links[e]).0 < count && links[e].1 < count
}

/// A node has as many neighbours as links leave it and reach it from other nodes.
pub proof fn lemma_neighbor_count(count: nat, links: Seq<(usize, usize)>)
    requires
        links_within(links, count),
    ensures
        neighbors_of(count, links).len() == count,
        forall|x: usize|
            x < count ==> (#[trigger] neighbors_of(count, links)[x as int]).len() == out_degree(
                links,
                x,
            ) + in_degree(links, x),
    decreases links.len(),
{
    if links.len() > 0 {
        let rest = links.drop_last();
        let (a, b) = links.last();
        assert forall|e: int| 0 <= e < rest.len() implies (#[trigger] rest[e]).0 < count && rest[e].1
            < count by {
            assert(rest[e] == links[e]);
        }
        lemma_neighbor_count(count, rest);
        let before = neighbors_of(count, rest);
        let after = neighbors_of(count, links);
        assert(after == neighbors_with_link(before, rest, a, b));
        assert(links[links.len() - 1].0 < count);
        assert(before[a as int].len() == out_degree(rest, a) + in_degree(rest, a));
        assert(before[b as int].len() == out_degree(rest, b) + in_degree(rest, b));
        assert forall|x: usize| x < count implies (#[trigger] after[x as int]).len() == out_degree(
            links,
            x,
        ) + in_degree(links, x) by {
            assert(before[x as int].len() == out_degree(rest, x) + in_degree(rest, x));
            let with_target = before.update(a as int, seq![b] + before[a as int]);
            if a == b {
                assert(after == with_target);
            } else {
                let grown = before[b as int].insert(out_degree(rest, b) as int, a);
                assert(grown.len() == before[b as int].len() + 1);
                assert(after == with_target.update(b as int, grown));
            }
        }
    }
}

/// A link leaves its source, and reaches its target where that is another node.
pub proof fn lemma_link_counts(links: Seq<(usize, usize)>, e: int)
    requires
        0 <= e < links.len(),
    ensures
        out_degree(links, links[e].0) > 0,
        links[e].0 != links[e].1 ==> in_degree(links, links[e].1) > 0,
    decreases links.len(),
{
    if e < links.len() - 1 {
        assert(links.drop_last()[e] == links[e]);
        lemma_link_counts(links.drop_last(), e);
    }
}

/// Each link of each page is among the links of the pages.
proof fn lemma_links_of_has(names: Seq<Seq<char>>, pages: Seq<PageView>, i: int, j: int)
    requires
        0 <= i < pages.len(),
        0 <= j < pages[i].links.len(),
    ensures
        links_of(names, pages).contains(
            (node_of(names, pages[i].title), node_of(names, pages[i].links[j])),
        ),
    decreases pages.len(),
{
    let page = pages.last();
    let head = links_of(names, pages.drop_last());
    let tail = page.links.map_values(
        |link: Seq<char>| (node_of(names, page.title), node_of(names, link)),
    );
    let link = (node_of(names, pages[i].title), node_of(names, pages[i].links[j]));
    assert(links_of(names, pages) == head + tail);
    if i < pages.len() - 1 {
        assert(pages.drop_last()[i] == pages[i]);
        lemma_links_of_has(names, pages.drop_last(), i, j);
        let at = choose|at: int| 0 <= at < head.len() && head[at] == link;
        assert((head + tail)[at] == link);
    } else {
        assert((head + tail)[head.len() + j] == tail[j]);
    }
}

/// Where every title and every link of `pages` is one of `names`, every link
/// joins two of the nodes.
proof fn lemma_links_of_within(names: Seq<Seq<char>>, pages: Seq<PageView>)
    requires
        names.len() <= usize::MAX,
        forall|i: int| 0 <= i < pages.len() ==> names.contains(#[trigger] pages[i].title),
        forall|i: int, j: int|
            0 <= i < pages.len() && 0 <= j < pages[i].links.len() ==> names.contains(
                #[trigger] pages[i].links[j],
            ),
    ensures
        links_within(links_of(names, pages), names.len()),
    decreases pages.len(),
{
    if pages.len() > 0 {
        let page = pages.last();
        let rest = pages.drop_last();
        let head = links_of(names, rest);
        let tail = page.links.map_values(
            |link: Seq<char>| (node_of(names, page.title), node_of(names, link)),
        );
        assert forall|i: int| 0 <= i < rest.len() implies names.contains(
            #[trigger] rest[i].title,
        ) by {
            assert(rest[i] == pages[i]);
        }
        assert forall|i: int, j: int|
            0 <= i < rest.len() && 0 <= j < rest[i].links.len() implies names.contains(
            #[trigger] rest[i].links[j],
        ) by {
            assert(rest[i] == pages[i]);
        }
        lemma_links_of_within(names, rest);
        assert(names.contains(pages[pages.len() - 1].title));
        lemma_position_of(names, page.title);
        assert forall|e: int| 0 <= e < (head + tail).len() implies (#[trigger] (head + tail)[e]).0
            < names.len() && (head + tail)[e].1 < names.len() by {
            if e < head.len() {
                assert((head + tail)[e] == head[e]);
            } else {
                let j = e - head.len();
                assert((head + tail)[e] == tail[j]);
                assert(names.contains(pages[pages.len() - 1].links[j]));
                lemma_position_of(names, page.links[j]);
            }
        }
    }
}

/// Every node is one of the pages, and is the node of its own title.
proof fn lemma_nodes_are_pages(pages: Seq<PageView>)
    ensures
        forall|n: int|
            0 <= n < node_pages(pages).len() ==> pages.contains(#[trigger] node_pages(pages)[n]),
        forall|n: int|
            0 <= n < node_pages(pages).len() ==> position_of(
                titles_of(node_pages(pages)),
                (#[trigger] node_pages(pages)[n]).title,
            ) == Some(n),
    decreases pages.len(),
{
    if pages.len() > 0 {
        let last = pages.last();
        let rest = pages.drop_last();
        let before = node_pages(rest);
        let nodes = node_pages(pages);
        lemma_nodes_are_pages(rest);
        assert forall|n: int| 0 <= n < nodes.len() implies pages.contains(#[trigger] nodes[n]) by {
            if n < before.len() {
                let at = choose|at: int| 0 <= at < rest.len() && rest[at] == before[n];
                assert(pages[at] == before[n]);
            } else {
                assert(pages[pages.len() - 1] == last);
            }
        }
        if position_of(titles_of(before), last.title) is None {
            assert(titles_of(nodes) == titles_of(before).push(last.title));
            assert(titles_of(nodes).drop_last() == titles_of(before));
        }
    }
}

/// An empty page of a vault stands for a link of one of its files to a title
/// that no file has.
proof fn lemma_empty_pages(files: Seq<(Seq<char>, Seq<char>)>, titles: Seq<Seq<char>>)
    ensures
        forall|i: int|
            0 <= i < pages_of(files, titles).len() && (#[trigger] pages_of(files, titles)[i]).empty
                ==> exists|k: int, j: int|
                0 <= k < files.len() && 0 <= j < links_in(files[k].1).len() && !titles.contains(
                    links_in(files[k].1)[j],
                ) && pages_of(files, titles)[i] == placeholder(
                    #[trigger] links_in(files[k].1)[j],
                ),
    decreases files.len(),
{
    if files.len() > 0 {
        let last = files.last();
        let rest = files.drop_last();
        let before = pages_of(rest, titles);
        let added = placeholders(links_in(last.1), titles);
        let all = pages_of(files, titles);
        lemma_empty_pages(rest, titles);
        lemma_placeholder_sources(links_in(last.1), titles);
        assert(all == before.push(page_of_file(last)) + added);
        assert forall|i: int| 0 <= i < all.len() && (#[trigger] all[i]).empty implies exists|
            k: int,
            j: int,
        |
            0 <= k < files.len() && 0 <= j < links_in(files[k].1).len() && !titles.contains(
                links_in(files[k].1)[j],
            ) && all[i] == placeholder(#[trigger] links_in(files[k].1)[j]) by {
            if i < before.len() {
                assert(all[i] == before[i]);
                let (k, j) = choose|k: int, j: int|
                    0 <= k < rest.len() && 0 <= j < links_in(rest[k].1).len() && !titles.contains(
                        links_in(rest[k].1)[j],
                    ) && before[i] == placeholder(#[trigger] links_in(rest[k].1)[j]);
                assert(rest[k] == files[k]);
                assert(all[i] == placeholder(links_in(files[k].1)[j]));
            } else if i == before.len() {
                assert(all[i] == page_of_file(last));
            } else {
                let at = i - before.len() - 1;
                assert(all[i] == added[at]);
                let j = choose|j: int|
                    0 <= j < links_in(last.1).len() && !titles.contains(links_in(last.1)[j])
                        && added[at] == placeholder(#[trigger] links_in(last.1)[j]);
                let k = files.len() - 1;
                assert(files[k] == last);
                assert(all[i] == placeholder(links_in(files[k].1)[j]));
            }
        }
    }
}

/// Each of the empty pages for `links` stands for one of them that is none of
/// `titles`.
proof fn lemma_placeholder_sources(links: Seq<Seq<char>>, titles: Seq<Seq<char>>)
    ensures
        forall|i: int|
            0 <= i < placeholders(links, titles).len() ==> exists|j: int|
                0 <= j < links.len() && !titles.contains(links[j]) && (#[trigger] placeholders(
                    links,
                    titles,
                )[i]) == placeholder(#[trigger] links[j]),
    decreases links.len(),
{
    if links.len() > 0 {
        let rest = links.drop_last();
        let before = placeholders(rest, titles);
        let all = placeholders(links, titles);
        lemma_placeholder_sources(rest, titles);
        assert forall|i: int| 0 <= i < all.len() implies exists|j: int|
            0 <= j < links.len() && !titles.contains(links[j]) && (#[trigger] all[i])
                == placeholder(#[trigger] links[j]) by {
            if i < before.len() {
                assert(all[i] == before[i]);
                let j = choose|j: int|
                    0 <= j < rest.len() && !titles.contains(rest[j]) && before[i] == placeholder(
                        #[trigger] rest[j],
                    );
                assert(rest[j] == links[j]);
            } else {
                assert(all[i] == placeholder(links[links.len() - 1]));
            }
        }
    }
}

/// In the graph of a vault every node with an empty page has a neighbour.
pub proof fn lemma_vault_placeholders_linked(files: Seq<(Seq<char>, Seq<char>)>, n: int)
    requires
        pages_of(files, file_titles(files)).len() <= usize::MAX,
        0 <= n < node_pages(pages_of(files, file_titles(files))).len(),
        node_pages(pages_of(files, file_titles(files)))[n].empty,
    ensures
        ({
            let pages = pages_of(files, file_titles(files));
            let nodes = node_pages(pages);
            neighbors_of(nodes.len(), links_of(titles_of(nodes), pages))[n].len() > 0
        }),
{
    let titles = file_titles(files);
    let pages = pages_of(files, titles);
    let nodes = node_pages(pages);
    let names = titles_of(nodes);
    let links = links_of(names, pages);
    // All links join nodes.
    lemma_extracted_links_resolve(files);
    lemma_node_pages(pages);
    assert forall|i: int, j: int|
        0 <= i < pages.len() && 0 <= j < pages[i].links.len() implies names.contains(
        #[trigger] pages[i].links[j],
    ) by {
        let link = pages[i].links[j];
        let at = choose|at: int| 0 <= at < titles_of(pages).len() && titles_of(pages)[at] == link;
        assert(pages[at].title == link);
    }
    lemma_links_of_within(names, pages);
    lemma_neighbor_count(nodes.len(), links);
    // The empty page stands for a link of a file.
    lemma_nodes_are_pages(pages);
    let at = choose|at: int| 0 <= at < pages.len() && pages[at] == nodes[n];
    lemma_empty_pages(files, titles);
    let (k, j) = choose|k: int, j: int|
        0 <= k < files.len() && 0 <= j < links_in(files[k].1).len() && !titles.contains(
            links_in(files[k].1)[j],
        ) && pages[at] == placeholder(#[trigger] links_in(files[k].1)[j]);
    let target = links_in(files[k].1)[j];
    // That link is a link of the graph, from another node to this one.
    lemma_pages_of(files, titles);
    let from = choose|from: int| 0 <= from < pages.len() && pages[from] == page_of_file(files[k]);
    assert(pages[from].links[j] == target);
    lemma_links_of_has(names, pages, from, j);
    let link = (node_of(names, pages[from].title), node_of(names, target));
    let e = choose|e: int| 0 <= e < links.len() && links[e] == link;
    assert(names.contains(pages[from].title));
    lemma_position_of(names, pages[from].title);
    assert(titles[k] == files[k].0);
    assert(names[link.0 as int] == files[k].0);
    lemma_position_of(names, target);
    assert(link.1 == n);
    assert(names[n] == target);
    lemma_link_counts(links, e);
    assert(neighbors_of(nodes.len(), links)[n as usize as int].len() > 0);
}

} // verus!
