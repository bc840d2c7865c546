use vstd::prelude::*;
use vstd::seq_lib::lemma_multiset_commutative;

use crate::btree_page::{spec_child_pages, spec_leaf_rows, PageType};
use crate::{spec_get_page, spec_scan, spec_walk, RowView};

verus! {

/// The rows below `page`, leaf by leaf in depth-first order, where the tree
/// below it is at most `d` pages deep and every page of it decodes.
pub open spec fn subtree_rows(data: Seq<u8>, page_size: nat, page: usize, d: nat, f: Option<(usize, Seq<u8>)>) -> Option<
    Seq<RowView>,
>
    decreases d, 0nat,
{
    if d == 0 {
        None
    } else {
        match spec_get_page(data, page_size, page as int) {
            Err(_) => None,
            Ok(p) => match p.page_type {
                PageType::LeafTableBTreePage => match spec_leaf_rows(p.data, p.cell_pointers, f) {
                    Ok(rs) => Some(rs),
                    Err(_) => None,
                },
                PageType::InteriorTableBTreePage => match spec_child_pages(p) {
                    Ok(cs) => forest_rows(data, page_size, cs, (d - 1) as nat, f),
                    Err(_) => None,
                },
                _ => None,
            },
        }
    }
}

/// The rows below each of `pages`, one tree after another.
pub open spec fn forest_rows(
    data: Seq<u8>,
    page_size: nat,
    pages: Seq<usize>,
    d: nat,
    f: Option<(usize, Seq<u8>)>,
) -> Option<Seq<RowView>>
    decreases d, pages.len(),
{
    if pages.len() == 0 {
        Some(Seq::empty())
    } else {
        match subtree_rows(data, page_size, pages[0], d, f) {
            None => None,
            Some(a) => match forest_rows(data, page_size, pages.drop_first(), d, f) {
                None => None,
                Some(b) => Some(a + b),
            },
        }
    }
}

proof fn lemma_subtree_deeper(data: Seq<u8>, page_size: nat, page: usize, d: nat, f: Option<(usize, Seq<u8>)>)
    requires
        subtree_rows(data, page_size, page, d, f) is Some,
    ensures
        subtree_rows(data, page_size, page, d + 1, f) == subtree_rows(data, page_size, page, d, f),
    decreases d, 0nat,
{
    if d > 0 {
        match spec_get_page(data, page_size, page as int) {
            Err(_) => {},
            Ok(p) => match p.page_type {
                PageType::InteriorTableBTreePage => match spec_child_pages(p) {
                    Ok(cs) => {
                        lemma_forest_deeper(data, page_size, cs, (d - 1) as nat, f);
                    },
                    Err(_) => {},
                },
                _ => {},
            },
        }
    }
}

proof fn lemma_forest_deeper(data: Seq<u8>, page_size: nat, pages: Seq<usize>, d: nat, f: Option<(usize, Seq<u8>)>)
    requires
        forest_rows(data, page_size, pages, d, f) is Some,
    ensures
        forest_rows(data, page_size, pages, d + 1, f) == forest_rows(data, page_size, pages, d, f),
    decreases d, pages.len(),
{
    if pages.len() > 0 {
        lemma_subtree_deeper(data, page_size, pages[0], d, f);
        lemma_forest_deeper(data, page_size, pages.drop_first(), d, f);
    }
}

proof fn lemma_forest_concat(
    data: Seq<u8>,
    page_size: nat,
    a: Seq<usize>,
    b: Seq<usize>,
    d: nat,
    f: Option<(usize, Seq<u8>)>,
)
    requires
        forest_rows(data, page_size, a, d, f) is Some,
        forest_rows(data, page_size, b, d, f) is Some,
    ensures
        forest_rows(data, page_size, a + b, d, f) == Some(
            forest_rows(data, page_size, a, d, f)->Some_0 + forest_rows(data, page_size, b, d, f)->Some_0,
        ),
    decreases a.len(),
{
    if a.len() == 0 {
        assert(a + b =~= b);
        assert(Seq::<RowView>::empty() + forest_rows(data, page_size, b, d, f)->Some_0 =~= forest_rows(
            data,
            page_size,
            b,
            d,
            f,
        )->Some_0);
    } else {
        lemma_forest_concat(data, page_size, a.drop_first(), b, d, f);
        assert((a + b).drop_first() =~= a.drop_first() + b);
        assert((a + b)[0] == a[0]);
        let x = subtree_rows(data, page_size, a[0], d, f)->Some_0;
        let y = forest_rows(data, page_size, a.drop_first(), d, f)->Some_0;
        let z = forest_rows(data, page_size, b, d, f)->Some_0;
        assert(x + (y + z) =~= (x + y) + z);
    }
}

proof fn lemma_walk_complete(
    data: Seq<u8>,
    page_size: nat,
    queue: Seq<usize>,
    budget: nat,
    d: nat,
    f: Option<(usize, Seq<u8>)>,
)
    requires
        spec_walk(data, page_size, queue, budget, f) is Ok,
        forest_rows(data, page_size, queue, d, f) is Some,
    ensures
        spec_walk(data, page_size, queue, budget, f)->Ok_0.to_multiset() == forest_rows(
            data,
            page_size,
            queue,
            d,
            f,
        )->Some_0.to_multiset(),
    decreases budget,
{
    if queue.len() > 0 {
        let rest = queue.drop_first();
        let p = spec_get_page(data, page_size, queue[0] as int)->Ok_0;
        let here = subtree_rows(data, page_size, queue[0], d, f)->Some_0;
        let others = forest_rows(data, page_size, rest, d, f)->Some_0;
        lemma_multiset_commutative(here, others);
        match p.page_type {
            PageType::LeafTableBTreePage => {
                let rs = spec_leaf_rows(p.data, p.cell_pointers, f)->Ok_0;
                lemma_walk_complete(data, page_size, rest, (budget - 1) as nat, d, f);
                lemma_multiset_commutative(rs, spec_walk(data, page_size, rest, (budget - 1) as nat, f)->Ok_0);
            },
            PageType::InteriorTableBTreePage => {
                let cs = spec_child_pages(p)->Ok_0;
                lemma_forest_deeper(data, page_size, cs, (d - 1) as nat, f);
                lemma_forest_concat(data, page_size, rest, cs, d, f);
                lemma_walk_complete(data, page_size, rest + cs, (budget - 1) as nat, d, f);
                lemma_multiset_commutative(others, here);
            },
            _ => {},
        }
    }
}

/// A table scan is complete and adds nothing: where it succeeds and the tree
/// below the root decodes to a depth of `d`, it returns exactly the rows of
/// that tree's leaves that pass the filter, each as often, in some order.
pub proof fn lemma_scan_complete(data: Seq<u8>, page_size: nat, root: usize, d: nat, f: Option<(usize, Seq<u8>)>)
    requires
        spec_scan(data, page_size, root, f) is Ok,
        subtree_rows(data, page_size, root, d, f) is Some,
    ensures
        spec_scan(data, page_size, root, f)->Ok_0.to_multiset() == subtree_rows(
            data,
            page_size,
            root,
            d,
            f,
        )->Some_0.to_multiset(),
{
    let q = seq![root];
    assert(q.drop_first() =~= Seq::<usize>::empty());
    assert(forest_rows(data, page_size, q.drop_first(), d, f) == Some(Seq::<RowView>::empty()));
    let t = subtree_rows(data, page_size, root, d, f)->Some_0;
    assert(t + Seq::<RowView>::empty() =~= t);
    lemma_walk_complete(data, page_size, q, crate::page_count(data, page_size), d, f);
}

} // verus!
