use vstd::prelude::*;
use crate::models::toc_entry::{TocEntry, TocEntryView, entries_view};

verus! {

/// One node of a document outline: its title, the page it points to if it
/// has a destination, and the nodes below it. A node that a lenient reader
/// found without a title has none: it gives no entry, but what is below it
/// still lies one level deeper.
#[derive(Debug, PartialEq, Eq)]
pub struct OutlineNode {
    pub title: Option<String>,
    pub page: Option<u32>,
    pub children: Vec<OutlineNode>,
}

/// The title of a node (empty without one).
pub open spec fn title_of(node: OutlineNode) -> Seq<char> {
    match node.title {
        Some(title) => title@,
        None => Seq::empty(),
    }
}

/// The entry that a node gives at `level`: its title, its page (0 without a
/// destination), and no paragraph yet.
pub open spec fn entry_of(node: OutlineNode, level: int) -> TocEntryView {
    TocEntryView {
        title: title_of(node),
        level: level as u8,
        page_number: match node.page {
            Some(page) => page,
            None => 0,
        },
        paragraph_index: 0,
    }
}

/// The entries of a forest in pre-order: each node at `level`, then what is
/// below it one level deeper, then its next sibling.
pub open spec fn flatten_forest(nodes: Seq<OutlineNode>, level: int) -> Seq<TocEntryView>
    decreases nodes, 0int,
{
    if nodes.len() == 0 {
        Seq::empty()
    } else {
        flatten_forest(nodes.drop_last(), level) + flatten_node(nodes.last(), level)
    }
}

/// The entry of the node itself: one for a node with a title, none for a
/// node without.
pub open spec fn own_entry(node: OutlineNode, level: int) -> Seq<TocEntryView> {
    if node.title is Some {
        seq![entry_of(node, level)]
    } else {
        Seq::empty()
    }
}

/// The entries of one node and of all that is below it.
pub open spec fn flatten_node(node: OutlineNode, level: int) -> Seq<TocEntryView>
    decreases node, 1int,
{
    own_entry(node, level) + flatten_forest(node.children@, level + 1)
}

/// Whether every node of the forest, placed at `level`, gets a level that
/// fits the 8 bits of an entry.
pub open spec fn levels_fit(nodes: Seq<OutlineNode>, level: int) -> bool
    decreases nodes, 0int,
{
    nodes.len() == 0 || (levels_fit(nodes.drop_last(), level) && node_fits(nodes.last(), level))
}

/// Whether the node and all that is below it fit, the node placed at `level`.
pub open spec fn node_fits(node: OutlineNode, level: int) -> bool
    decreases node, 1int,
{
    level <= u8::MAX && levels_fit(node.children@, level + 1)
}

/// Decides whether the forest can be flattened from `level` on without a
/// level leaving 8 bits.
pub fn outline_fits(outlines: &Vec<OutlineNode>, level: u8) -> (fits: bool)
    ensures
        fits == levels_fit(outlines@, level as int),
    decreases outlines,
{
    let mut i: usize = 0;
    while i < outlines.len()
        invariant
            i <= outlines.len(),
            levels_fit(outlines@.take(i as int), level as int),
        decreases outlines.len() - i,
    {
        proof {
            let prefix = outlines@.take(i as int + 1);
            assert(prefix.drop_last() == outlines@.take(i as int));
            assert(prefix.last() == outlines@[i as int]);
        }
        let node = &outlines[i];
        let node_ok = if node.children.len() == 0 {
            true
        } else if level == u8::MAX {
            proof {
                lemma_deeper_level_fails(node.children@, level as int + 1);
            }
            false
        } else {
            outline_fits(&node.children, level + 1)
        };
        assert(node_ok == node_fits(outlines@[i as int], level as int));
        if !node_ok {
            proof {
                if levels_fit(outlines@, level as int) {
                    lemma_prefix_fits(outlines@, i as int + 1, level as int);
                }
            }
            return false;
        }
        i = i + 1;
    }
    proof {
        assert(outlines@.take(i as int) == outlines@);
    }
    true
}

/// A forest with a node in it does not fit at a level beyond 8 bits.
proof fn lemma_deeper_level_fails(nodes: Seq<OutlineNode>, level: int)
    requires
        nodes.len() > 0,
        level > u8::MAX,
    ensures
        !levels_fit(nodes, level),
{
    assert(!node_fits(nodes.last(), level));
}

/// If a forest fits, so does every prefix of it.
proof fn lemma_prefix_fits(nodes: Seq<OutlineNode>, k: int, level: int)
    requires
        0 <= k <= nodes.len(),
        levels_fit(nodes, level),
    ensures
        levels_fit(nodes.take(k), level),
    decreases nodes.len(),
{
    if k == nodes.len() {
        assert(nodes.take(k) == nodes);
    } else {
        lemma_prefix_fits(nodes.drop_last(), k, level);
        assert(nodes.drop_last().take(k) == nodes.take(k));
    }
}

/// Appends the entries of `outlines` to `entries` in pre-order, the roots at
/// `level` and each node one level below its parent.
pub fn flatten_outlines(outlines: &Vec<OutlineNode>, level: u8, entries: &mut Vec<TocEntry>)
    requires
        levels_fit(outlines@, level as int),
    ensures
        entries_view(final(entries)@) == entries_view(old(entries)@) + flatten_forest(
            outlines@,
            level as int,
        ),
    decreases outlines,
{
    let ghost before = entries_view(entries@);
    let mut i: usize = 0;
    while i < outlines.len()
        invariant
            i <= outlines.len(),
            levels_fit(outlines@, level as int),
            entries_view(entries@) == before + flatten_forest(
                outlines@.take(i as int),
                level as int,
            ),
        decreases outlines.len() - i,
    {
        proof {
            let prefix = outlines@.take(i as int + 1);
            assert(prefix.drop_last() == outlines@.take(i as int));
            assert(prefix.last() == outlines@[i as int]);
            lemma_prefix_fits(outlines@, i as int + 1, level as int);
        }
        let node = &outlines[i];
        let page = match node.page {
            Some(page) => page,
            None => 0,
        };
        match &node.title {
            Some(title) => {
                let entry = TocEntry::new(title.clone(), level, page, 0);
                proof {
                    assert(entries_view(entries@.push(entry)) == entries_view(entries@).push(
                        entry@,
                    ));
                    assert(entry@ == entry_of(outlines@[i as int], level as int));
                }
                entries.push(entry);
            },
            None => {},
        }
        let ghost with_own = entries_view(entries@);
        proof {
            let done = flatten_forest(outlines@.take(i as int), level as int);
            assert(with_own == (before + done) + own_entry(outlines@[i as int], level as int));
            assert(node_fits(outlines@[i as int], level as int));
            if level == u8::MAX && node.children@.len() > 0 {
                lemma_deeper_level_fails(node.children@, level as int + 1);
            }
        }
        if node.children.len() > 0 {
            flatten_outlines(&node.children, level + 1, entries);
        }
        proof {
            let done = flatten_forest(outlines@.take(i as int), level as int);
            let own = own_entry(outlines@[i as int], level as int);
            let below = flatten_forest(node.children@, level as int + 1);
            assert(flatten_node(outlines@[i as int], level as int) == own + below);
            assert(entries_view(entries@) == with_own + below);
            assert(((before + done) + own) + below == before + (done + (own + below)));
        }
        i = i + 1;
    }
    proof {
        assert(outlines@.take(i as int) == outlines@);
    }
}

/// The table of contents of an outline as its source delivered it. A source
/// that could not read the outline gives an empty table, not an error, and
/// so does an outline nested deeper than a level can count.
pub open spec fn toc_of<E>(outline: Result<Vec<OutlineNode>, E>) -> Seq<TocEntryView> {
    match outline {
        Ok(nodes) => if levels_fit(nodes@, 0) {
            flatten_forest(nodes@, 0)
        } else {
            Seq::empty()
        },
        Err(_) => Seq::empty(),
    }
}

/// Flattens the outline of a document into its table of contents.
pub fn extract_toc<E>(outline: Result<Vec<OutlineNode>, E>) -> (entries: Vec<TocEntry>)
    ensures
        entries_view(entries@) == toc_of(outline),
        outline is Err ==> entries@.len() == 0,
{
    let mut entries: Vec<TocEntry> = Vec::new();
    match &outline {
        Ok(nodes) => {
            if outline_fits(nodes, 0) {
                flatten_outlines(nodes, 0, &mut entries);
            }
        },
        Err(_) => {},
    }
    proof {
        assert(entries_view(entries@).len() == entries@.len());
    }
    entries
}

/// The number of titled nodes of a forest.
pub open spec fn forest_size(nodes: Seq<OutlineNode>) -> nat
    decreases nodes, 0int,
{
    if nodes.len() == 0 {
        0
    } else {
        forest_size(nodes.drop_last()) + node_size(nodes.last())
    }
}

/// The number of titled nodes of a tree.
pub open spec fn node_size(node: OutlineNode) -> nat
    decreases node, 1int,
{
    own_entry(node, 0).len() + forest_size(node.children@)
}

/// Flattening gives one entry for each titled node, none at a level above
/// the roots, and starts with the first root, if it has a title, at the
/// level of the roots.
pub proof fn lemma_flatten_shape(nodes: Seq<OutlineNode>, level: int)
    requires
        0 <= level,
        levels_fit(nodes, level),
    ensures
        flatten_forest(nodes, level).len() == forest_size(nodes),
        forall|i: int|
            0 <= i < flatten_forest(nodes, level).len() ==> (#[trigger] flatten_forest(
                nodes,
                level,
            )[i]).level >= level,
        nodes.len() > 0 && nodes[0].title is Some ==> flatten_forest(nodes, level).len() > 0
            && flatten_forest(nodes, level)[0] == entry_of(nodes[0], level),
    decreases nodes, 0int,
{
    if nodes.len() > 0 {
        let rest = nodes.drop_last();
        let node = nodes.last();
        lemma_flatten_shape(rest, level);
        lemma_flatten_node_shape(node, level);
        let done = flatten_forest(rest, level);
        let added = flatten_node(node, level);
        assert forall|i: int| 0 <= i < flatten_forest(nodes, level).len() implies (
        #[trigger] flatten_forest(nodes, level)[i]).level >= level by {
            if i < done.len() {
                assert(flatten_forest(nodes, level)[i] == done[i]);
            } else {
                assert(flatten_forest(nodes, level)[i] == added[i - done.len()]);
            }
        }
        if nodes[0].title is Some {
            if rest.len() > 0 {
                assert(rest[0] == nodes[0]);
                assert(done.len() > 0);
                assert(flatten_forest(nodes, level)[0] == done[0]);
            } else {
                assert(flatten_forest(nodes, level)[0] == added[0]);
            }
        }
    }
}

/// The entries of a tree: its root, if it has a title, at the level given,
/// then one for each titled node below it, each deeper than the root.
pub proof fn lemma_flatten_node_shape(node: OutlineNode, level: int)
    requires
        0 <= level,
        node_fits(node, level),
    ensures
        flatten_node(node, level).len() == node_size(node),
        node.title is Some ==> flatten_node(node, level).len() > 0 && flatten_node(node, level)[0]
            == entry_of(node, level),
        forall|i: int|
            0 <= i < flatten_node(node, level).len() ==> (#[trigger] flatten_node(
                node,
                level,
            )[i]).level >= level,
        forall|i: int|
            own_entry(node, level).len() <= i < flatten_node(node, level).len() ==> (
            #[trigger] flatten_node(node, level)[i]).level > level,
    decreases node, 1int,
{
    lemma_flatten_shape(node.children@, level + 1);
    let below = flatten_forest(node.children@, level + 1);
    let own = own_entry(node, level);
    assert forall|i: int| own.len() <= i < flatten_node(node, level).len() implies (
    #[trigger] flatten_node(node, level)[i]).level > level by {
        assert(flatten_node(node, level)[i] == below[i - own.len()]);
    }
    assert forall|i: int| 0 <= i < flatten_node(node, level).len() implies (
    #[trigger] flatten_node(node, level)[i]).level >= level by {
        if i >= own.len() {
            assert(flatten_node(node, level)[i] == below[i - own.len()]);
        }
    }
}

/// The 0-based page behind the first of the numbered pages that is the
/// object `target`, if one is. Pages are numbered from 1.
pub open spec fn page_of_object(pages: Seq<(u32, (u32, u16))>, target: (u32, u16)) -> Option<u32>
    decreases pages.len(),
{
    if pages.len() == 0 {
        None
    } else if pages[0].1 == target {
        Some(
            if pages[0].0 > 0 {
                (pages[0].0 - 1) as u32
            } else {
                0
            },
        )
    } else {
        page_of_object(pages.skip(1), target)
    }
}

/// Finds the page that a destination points to: `pages` holds the number
/// and the object of each page in rising order, `target` is the object the
/// destination names.
pub fn page_of_destination(pages: &Vec<(u32, (u32, u16))>, target: (u32, u16)) -> (page: Option<
    u32,
>)
    ensures
        page == page_of_object(pages@, target),
{
    let mut i: usize = 0;
    proof {
        assert(pages@.skip(0) == pages@);
    }
    while i < pages.len()
        invariant
            i <= pages.len(),
            page_of_object(pages@, target) == page_of_object(pages@.skip(i as int), target),
        decreases pages.len() - i,
    {
        let (number, object) = pages[i];
        proof {
            assert(pages@.skip(i as int)[0] == pages@[i as int]);
            assert(pages@.skip(i as int).skip(1) == pages@.skip(i as int + 1));
        }
        if object.0 == target.0 && object.1 == target.1 {
            return Some(if number > 0 { number - 1 } else { 0 });
        }
        i = i + 1;
    }
    None
}

} // verus!
