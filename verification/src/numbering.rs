//! How the widgets of a built tree are numbered.

use vstd::prelude::*;
use crate::ids::{lemma_wrap_add, lemma_wrap_distinct, lemma_wrap_small, lemma_wrap_zero, wrap};
use crate::model::{default_widget_id, StateDeclaration, WidgetBuilder, WidgetDeclaration, WidgetID};
use crate::widget::{
    built, child, child_count, children_built, children_largest_id, decl_size, decls_size,
    largest_id, preorder, preorder_children, Widget,
};

verus! {

proof fn lemma_children_built_at<'a, F: Fn(&WidgetBuilder, &WidgetBuilder) -> WidgetBuilder>(
    ws: Seq<(String, Widget<'a>)>,
    ds: Seq<WidgetDeclaration>,
    component: Seq<char>,
    states: Seq<StateDeclaration>,
    cid: u32,
    first: u32,
    combine: F,
    i: int,
)
    requires
        children_built(ws, ds, component, states, cid, first, combine),
        ws.len() <= ds.len(),
        0 <= i < ws.len(),
    ensures
        built(ws[i].1, ds[i], component, states, cid, wrap(first, decls_size(ds, i)), combine),
    decreases ws.len(),
{
    if i < ws.len() - 1 {
        lemma_children_built_at(ws.drop_last(), ds, component, states, cid, first, combine, i);
    }
}

/// Building numbers the widgets of a tree in pre-order, one after the other
/// from the counter's value: the widget at position `k` of the pre-order has
/// number `start + k` (past the largest number, counting goes on from zero),
/// and the tree has as many widgets as its declaration.
pub proof fn lemma_built_numbering<'a, F: Fn(&WidgetBuilder, &WidgetBuilder) -> WidgetBuilder>(
    w: Widget<'a>,
    d: WidgetDeclaration,
    component: Seq<char>,
    states: Seq<StateDeclaration>,
    cid: u32,
    start: u32,
    combine: F,
)
    requires
        built(w, d, component, states, cid, start, combine),
    ensures
        preorder(w).len() == decl_size(d),
        forall|k: int|
            0 <= k < preorder(w).len() ==> #[trigger] preorder(w)[k].id == (WidgetID {
                component_id: cid,
                widget_id: wrap(start, k as nat),
            }),
    decreases w, 1int, 0int,
{
    lemma_wrap_zero(start);
    match d.widget.widgets {
        Some(ds) => {
            lemma_children_numbering(w, d, component, states, cid, start, combine, child_count(w));
            assert forall|k: int| 0 <= k < preorder(w).len() implies #[trigger] preorder(w)[k].id
                == (WidgetID { component_id: cid, widget_id: wrap(start, k as nat) }) by {
                if k > 0 {
                    assert(preorder(w)[k] == preorder_children(w, child_count(w))[k - 1]);
                    lemma_wrap_add(start, 1, (k - 1) as nat);
                }
            }
        },
        None => {
            assert(preorder(w) =~= seq![w]);
        },
    }
}

proof fn lemma_children_numbering<'a, F: Fn(&WidgetBuilder, &WidgetBuilder) -> WidgetBuilder>(
    w: Widget<'a>,
    d: WidgetDeclaration,
    component: Seq<char>,
    states: Seq<StateDeclaration>,
    cid: u32,
    start: u32,
    combine: F,
    n: int,
)
    requires
        built(w, d, component, states, cid, start, combine),
        d.widget.widgets is Some,
        0 <= n <= child_count(w),
    ensures
        preorder_children(w, n).len() == decls_size(d.widget.widgets->0@, n),
        forall|k: int|
            0 <= k < preorder_children(w, n).len() ==> #[trigger] preorder_children(w, n)[k].id == (
            WidgetID { component_id: cid, widget_id: wrap(wrap(start, 1), k as nat) }),
    decreases w, 0int, n,
{
    let ds = d.widget.widgets->0@;
    let ws = w.child_widgets->0.widgets@;
    if n > 0 {
        lemma_children_numbering(w, d, component, states, cid, start, combine, n - 1);
        lemma_children_built_at(ws, ds, component, states, cid, wrap(start, 1), combine, n - 1);
        let c = child(w, n - 1);
        let cstart = wrap(wrap(start, 1), decls_size(ds, n - 1));
        lemma_built_numbering(c, ds[n - 1], component, states, cid, cstart, combine);
        let prev = preorder_children(w, n - 1);
        assert(preorder_children(w, n) == prev + preorder(c));
        assert forall|k: int|
            0 <= k < preorder_children(w, n).len() implies #[trigger] preorder_children(w, n)[k].id
            == (WidgetID { component_id: cid, widget_id: wrap(wrap(start, 1), k as nat) }) by {
            if k >= prev.len() {
                assert(preorder_children(w, n)[k] == preorder(c)[k - prev.len()]);
                lemma_wrap_add(
                    wrap(start, 1),
                    decls_size(ds, n - 1),
                    (k - prev.len()) as nat,
                );
            } else {
                assert(preorder_children(w, n)[k] == prev[k]);
            }
        }
    }
}

/// The widgets of a built tree of at most 2^32 widgets have pairwise distinct
/// identifiers.
pub proof fn lemma_built_ids_distinct<'a, F: Fn(&WidgetBuilder, &WidgetBuilder) -> WidgetBuilder>(
    w: Widget<'a>,
    d: WidgetDeclaration,
    component: Seq<char>,
    states: Seq<StateDeclaration>,
    cid: u32,
    start: u32,
    combine: F,
)
    requires
        built(w, d, component, states, cid, start, combine),
        decl_size(d) <= 0x1_0000_0000,
    ensures
        forall|i: int, j: int|
            0 <= i < j < preorder(w).len() ==> #[trigger] preorder(w)[i].id != #[trigger] preorder(
                w,
            )[j].id,
{
    lemma_built_numbering(w, d, component, states, cid, start, combine);
    assert forall|i: int, j: int| 0 <= i < j < preorder(w).len() implies #[trigger] preorder(w)[i].id
        != #[trigger] preorder(w)[j].id by {
        lemma_wrap_distinct(start, i as nat, j as nat);
    }
}

/// The identifier `get_largest_id` gives is the default one or that of a
/// widget of the tree, and no widget of the tree has a larger number.
pub proof fn lemma_largest_id_is_maximum<'a>(w: Widget<'a>)
    ensures
        forall|k: int|
            0 <= k < preorder(w).len() ==> #[trigger] preorder(w)[k].id.widget_id <= largest_id(
                w,
            ).widget_id,
        largest_id(w) == default_widget_id() || exists|k: int|
            0 <= k < preorder(w).len() && #[trigger] preorder(w)[k].id == largest_id(w),
    decreases w, 1int, 0int,
{
    lemma_children_largest(w, child_count(w));
    let pc = preorder_children(w, child_count(w));
    assert(preorder(w)[0] == w);
    assert forall|k: int| 0 <= k < preorder(w).len() implies #[trigger] preorder(w)[k].id.widget_id
        <= largest_id(w).widget_id by {
        if k > 0 {
            assert(preorder(w)[k] == pc[k - 1]);
        }
    }
    match children_largest_id(w, child_count(w)) {
        Some(x) => {
            if largest_id(w) == x && x != default_widget_id() {
                let k = choose|k: int| 0 <= k < pc.len() && #[trigger] pc[k].id == x;
                assert(preorder(w)[k + 1] == pc[k]);
            } else if largest_id(w) != x {
                assert(preorder(w)[0].id == largest_id(w));
            }
        },
        None => {
            if largest_id(w) != default_widget_id() {
                assert(preorder(w)[0].id == largest_id(w));
            }
        },
    }
}

proof fn lemma_children_largest<'a>(w: Widget<'a>, n: int)
    ensures
        (0 < n <= child_count(w)) <==> children_largest_id(w, n) is Some,
        children_largest_id(w, n) matches Some(x) ==> (forall|k: int|
            0 <= k < preorder_children(w, n).len() ==> #[trigger] preorder_children(w, n)[k].id.widget_id
                <= x.widget_id) && (x == default_widget_id() || exists|k: int|
            0 <= k < preorder_children(w, n).len() && #[trigger] preorder_children(w, n)[k].id == x),
    decreases w, 0int, n,
{
    if 0 < n <= child_count(w) {
        let c = child(w, n - 1);
        lemma_children_largest(w, n - 1);
        lemma_largest_id_is_maximum(c);
        let prev = preorder_children(w, n - 1);
        let all = preorder_children(w, n);
        assert(all == prev + preorder(c));
        let lc = largest_id(c);
        let x = children_largest_id(w, n)->0;
        assert forall|k: int| 0 <= k < all.len() implies #[trigger] all[k].id.widget_id <= x.widget_id by {
            if k >= prev.len() {
                assert(all[k] == preorder(c)[k - prev.len()]);
            } else {
                assert(all[k] == prev[k]);
            }
        }
        assert(preorder(c)[0] == c);
        if x == lc {
            if lc != default_widget_id() {
                let k = choose|k: int| 0 <= k < preorder(c).len() && #[trigger] preorder(c)[k].id == lc;
                assert(all[prev.len() + k] == preorder(c)[k]);
            }
        } else {
            let p = children_largest_id(w, n - 1)->0;
            if p != default_widget_id() {
                let k = choose|k: int| 0 <= k < prev.len() && #[trigger] prev[k].id == p;
                assert(all[k] == prev[k]);
            }
        }
    }
}

/// While the counter does not pass its largest number, a built widget has a
/// smaller number than every widget below it: the root is numbered before its
/// descendants (and so is the root of every subtree, itself a built tree).
pub proof fn lemma_root_numbered_first<'a, F: Fn(&WidgetBuilder, &WidgetBuilder) -> WidgetBuilder>(
    w: Widget<'a>,
    d: WidgetDeclaration,
    component: Seq<char>,
    states: Seq<StateDeclaration>,
    cid: u32,
    start: u32,
    combine: F,
)
    requires
        built(w, d, component, states, cid, start, combine),
        start + decl_size(d) <= 0x1_0000_0000,
    ensures
        preorder(w)[0] == w,
        forall|k: int|
            0 < k < preorder(w).len() ==> w.id.widget_id < #[trigger] preorder(w)[k].id.widget_id,
{
    lemma_built_numbering(w, d, component, states, cid, start, combine);
    assert(preorder(w)[0] == w);
    assert forall|k: int| 0 < k < preorder(w).len() implies w.id.widget_id
        < #[trigger] preorder(w)[k].id.widget_id by {
        lemma_wrap_small(start, k as nat);
    }
}

/// Two trees built from one widget counter, the second after the first took
/// its numbers (and after any others taken in between, `k` in all), have no
/// number in common while the counter moves on fewer than 2^32 steps over
/// both.
pub proof fn lemma_trees_ids_distinct<
    'a,
    'b,
    F: Fn(&WidgetBuilder, &WidgetBuilder) -> WidgetBuilder,
    G: Fn(&WidgetBuilder, &WidgetBuilder) -> WidgetBuilder,
>(
    w1: Widget<'a>,
    d1: WidgetDeclaration,
    component1: Seq<char>,
    states1: Seq<StateDeclaration>,
    cid1: u32,
    combine1: F,
    w2: Widget<'b>,
    d2: WidgetDeclaration,
    component2: Seq<char>,
    states2: Seq<StateDeclaration>,
    cid2: u32,
    combine2: G,
    start: u32,
    k: nat,
)
    requires
        built(w1, d1, component1, states1, cid1, start, combine1),
        built(w2, d2, component2, states2, cid2, wrap(start, k), combine2),
        decl_size(d1) <= k,
        k + decl_size(d2) <= 0x1_0000_0000,
    ensures
        forall|i: int, j: int|
            0 <= i < preorder(w1).len() && 0 <= j < preorder(w2).len() ==> #[trigger] preorder(
                w1,
            )[i].id.widget_id != #[trigger] preorder(w2)[j].id.widget_id,
{
    lemma_built_numbering(w1, d1, component1, states1, cid1, start, combine1);
    lemma_built_numbering(w2, d2, component2, states2, cid2, wrap(start, k), combine2);
    assert forall|i: int, j: int|
        0 <= i < preorder(w1).len() && 0 <= j < preorder(w2).len() implies #[trigger] preorder(
        w1,
    )[i].id.widget_id != #[trigger] preorder(w2)[j].id.widget_id by {
        lemma_wrap_add(start, k, j as nat);
        lemma_wrap_distinct(start, i as nat, (k + j) as nat);
    }
}

/// Trees built for components that took their numbers from one component
/// counter, `i` and `j` steps on from `c` with `j` fewer than 2^32 steps after
/// `i`, share no identifier: every widget carries its component's number.
pub proof fn lemma_component_ids_distinct<
    'a,
    'b,
    F: Fn(&WidgetBuilder, &WidgetBuilder) -> WidgetBuilder,
    G: Fn(&WidgetBuilder, &WidgetBuilder) -> WidgetBuilder,
>(
    w1: Widget<'a>,
    d1: WidgetDeclaration,
    component1: Seq<char>,
    states1: Seq<StateDeclaration>,
    start1: u32,
    combine1: F,
    w2: Widget<'b>,
    d2: WidgetDeclaration,
    component2: Seq<char>,
    states2: Seq<StateDeclaration>,
    start2: u32,
    combine2: G,
    c: u32,
    i: nat,
    j: nat,
)
    requires
        built(w1, d1, component1, states1, wrap(c, i), start1, combine1),
        built(w2, d2, component2, states2, wrap(c, j), start2, combine2),
        i < j < i + 0x1_0000_0000,
    ensures
        w1.id.component_id != w2.id.component_id,
        forall|a: int, b: int|
            0 <= a < preorder(w1).len() && 0 <= b < preorder(w2).len() ==> #[trigger] preorder(
                w1,
            )[a].id.component_id != #[trigger] preorder(w2)[b].id.component_id,
{
    lemma_built_numbering(w1, d1, component1, states1, wrap(c, i), start1, combine1);
    lemma_built_numbering(w2, d2, component2, states2, wrap(c, j), start2, combine2);
    lemma_wrap_distinct(c, i, j);
}

} // verus!
