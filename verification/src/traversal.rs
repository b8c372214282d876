//! What the walks over a widget tree have in common.

use vstd::prelude::*;
use crate::flat::{flat_map, lemma_flat_map_concat, lemma_flat_map_push};
use crate::fluent::{FluentIdent, FluentIdentView};
use crate::model::{WidgetBuilder, WidgetID};
use crate::widget::{
    all_fluents, child, child_count, child_key, child_stmt, dfs, dfs_children, fluent_update,
    fluent_update_of, fluents_of, fluents_update, id_stmt_of, lemma_iter_visits_each_widget_once,
    lemma_pre_at_step, lemma_pre_at_whole, lemma_pre_step, lemma_pre_whole, postorder_at,
    postorder_children_at, preorder, preorder_at, preorder_children, preorder_children_at, Widget,
};

verus! {

/// The identifiers of the widgets of the tree of `w`, in pre-order.
pub open spec fn tree_ids(w: Widget) -> Seq<WidgetID> {
    preorder(w).map_values(|n: Widget| n.id)
}

/// The identifiers of a list of identifiers and statements.
pub open spec fn entry_ids(s: Seq<(WidgetID, Seq<char>)>) -> Seq<WidgetID> {
    s.map_values(|e: (WidgetID, Seq<char>)| e.0)
}

/// `contains_fluents` holds of a tree exactly when `push_fluents` appends at
/// least one fluent for it.
pub proof fn lemma_contains_fluents_iff_push_adds(
    w: Widget,
    before: Seq<FluentIdentView>,
    after: Seq<FluentIdentView>,
)
    requires
        after == before + all_fluents(w),
    ensures
        (all_fluents(w).len() > 0) <==> after.len() > before.len(),
{
}

/// `gen_widget_id_to_widget` lists every widget of the tree exactly once: the
/// identifiers it appends are those of the tree's widgets, each as often.
pub proof fn lemma_id_to_widget_lists_each_widget_once(w: Widget, stmt: Seq<char>)
    ensures
        entry_ids(flat_map(postorder_at(w, stmt), id_stmt_of())).to_multiset() == tree_ids(
            w,
        ).to_multiset(),
    decreases w, 1int, 0int,
{
    let cc = child_count(w);
    lemma_post_children_ids(w, stmt, cc);
    lemma_flat_map_push(postorder_children_at(w, stmt, cc), (w, stmt), id_stmt_of());
    let fc = flat_map(postorder_children_at(w, stmt, cc), id_stmt_of());
    let pc = preorder_children(w, cc);
    assert(entry_ids(fc + seq![(w.id, stmt)]) =~= entry_ids(fc) + seq![w.id]);
    assert(tree_ids(w) =~= seq![w.id] + pc.map_values(|n: Widget| n.id));
    vstd::seq_lib::lemma_multiset_commutative(entry_ids(fc), seq![w.id]);
    vstd::seq_lib::lemma_multiset_commutative(seq![w.id], pc.map_values(|n: Widget| n.id));
    assert(entry_ids(fc).to_multiset().add(seq![w.id].to_multiset()) =~= seq![w.id].to_multiset().add(
        pc.map_values(|n: Widget| n.id).to_multiset(),
    ));
}

proof fn lemma_post_children_ids(w: Widget, stmt: Seq<char>, n: int)
    ensures
        entry_ids(flat_map(postorder_children_at(w, stmt, n), id_stmt_of())).to_multiset()
            == preorder_children(w, n).map_values(|m: Widget| m.id).to_multiset(),
    decreases w, 0int, n,
{
    if 0 < n <= child_count(w) {
        let c = child(w, n - 1);
        let cs = child_stmt(stmt, child_key(w, n - 1));
        lemma_post_children_ids(w, stmt, n - 1);
        lemma_id_to_widget_lists_each_widget_once(c, cs);
        let a = postorder_children_at(w, stmt, n - 1);
        let b = postorder_at(c, cs);
        assert(postorder_children_at(w, stmt, n) == a + b);
        lemma_flat_map_concat(a, b, id_stmt_of());
        let fa = flat_map(a, id_stmt_of());
        let fb = flat_map(b, id_stmt_of());
        assert(entry_ids(fa + fb) =~= entry_ids(fa) + entry_ids(fb));
        let pa = preorder_children(w, n - 1);
        assert(preorder_children(w, n) == pa + preorder(c));
        assert((pa + preorder(c)).map_values(|m: Widget| m.id) =~= pa.map_values(|m: Widget| m.id)
            + tree_ids(c));
        vstd::seq_lib::lemma_multiset_commutative(entry_ids(fa), entry_ids(fb));
        vstd::seq_lib::lemma_multiset_commutative(pa.map_values(|m: Widget| m.id), tree_ids(c));
    } else {
        assert(entry_ids(flat_map(postorder_children_at(w, stmt, n), id_stmt_of())) =~= Seq::empty());
        assert(preorder_children(w, n).map_values(|m: Widget| m.id) =~= Seq::empty());
    }
}

/// The widget at position `i` of `s` is followed, from `i` on, by its whole
/// tree in the order `WidgetIter` visits it: itself, then all its descendants.
pub open spec fn subtree_at<'a>(s: Seq<Widget<'a>>, i: int) -> bool {
    &&& i + dfs(s[i]).len() <= s.len()
    &&& s.subrange(i, i + dfs(s[i]).len()) == dfs(s[i])
}

/// A full run of `WidgetIter` over the tree of `w` (`iter`, then `next` until
/// it gives none, which by `next`'s contract comes right after the last widget
/// of `dfs(w)`) yields every widget of the tree exactly once, `w` first, and
/// each widget before all of its descendants, which follow it as one block.
pub proof fn lemma_iter_run<'a>(w: Widget<'a>)
    ensures
        dfs(w).len() == preorder(w).len(),
        dfs(w).to_multiset() == preorder(w).to_multiset(),
        dfs(w)[0] == w,
        forall|i: int| 0 <= i < dfs(w).len() ==> #[trigger] subtree_at(dfs(w), i),
{
    lemma_iter_visits_each_widget_once(w);
    lemma_dfs_subtrees(w);
}

proof fn lemma_subtrees_concat<'a>(a: Seq<Widget<'a>>, b: Seq<Widget<'a>>)
    requires
        forall|i: int| 0 <= i < a.len() ==> #[trigger] subtree_at(a, i),
        forall|i: int| 0 <= i < b.len() ==> #[trigger] subtree_at(b, i),
    ensures
        forall|i: int| 0 <= i < (a + b).len() ==> #[trigger] subtree_at(a + b, i),
{
    assert forall|i: int| 0 <= i < (a + b).len() implies #[trigger] subtree_at(a + b, i) by {
        if i < a.len() {
            assert(subtree_at(a, i));
            assert((a + b)[i] == a[i]);
            let l = dfs(a[i]).len();
            assert((a + b).subrange(i, i + l) =~= a.subrange(i, i + l));
        } else {
            let j = i - a.len();
            assert(subtree_at(b, j));
            assert((a + b)[i] == b[j]);
            let l = dfs(b[j]).len();
            assert((a + b).subrange(i, i + l) =~= b.subrange(j, j + l));
        }
    }
}

proof fn lemma_dfs_subtrees<'a>(w: Widget<'a>)
    ensures
        forall|i: int| 0 <= i < dfs(w).len() ==> #[trigger] subtree_at(dfs(w), i),
    decreases w, 1int, 0int,
{
    let rest = dfs_children(w, child_count(w));
    lemma_dfs_children_subtrees(w, child_count(w));
    let s = dfs(w);
    assert(s == seq![w] + rest);
    assert forall|i: int| 0 <= i < s.len() implies #[trigger] subtree_at(s, i) by {
        if i == 0 {
            assert(s[0] == w);
            assert(s.subrange(0, s.len() as int) =~= s);
        } else {
            let j = i - 1;
            assert(subtree_at(rest, j));
            assert(s[i] == rest[j]);
            let l = dfs(rest[j]).len();
            assert(s.subrange(i, i + l) =~= rest.subrange(j, j + l));
        }
    }
}

proof fn lemma_dfs_children_subtrees<'a>(w: Widget<'a>, n: int)
    ensures
        forall|i: int|
            0 <= i < dfs_children(w, n).len() ==> #[trigger] subtree_at(dfs_children(w, n), i),
    decreases w, 0int, n,
{
    if 0 < n <= child_count(w) {
        let c = child(w, n - 1);
        lemma_dfs_subtrees(c);
        lemma_dfs_children_subtrees(w, n - 1);
        lemma_subtrees_concat(dfs(c), dfs_children(w, n - 1));
    }
}

/// `gen_fluent_update` appends nothing exactly when the tree has no fluent,
/// that is when `contains_fluents` is false; what was in the stream before
/// stays its beginning either way.
pub proof fn lemma_fluent_update_empty_iff_no_fluents(
    w: Widget,
    stmt: Seq<char>,
    before: Seq<char>,
    after: Seq<char>,
)
    requires
        after == before + flat_map(preorder_at(w, stmt), fluent_update_of()),
    ensures
        (after == before) <==> !(all_fluents(w).len() > 0),
        after.len() >= before.len(),
        after.subrange(0, before.len() as int) == before,
{
    lemma_fluent_code_empty(w, stmt);
    assert(after.subrange(0, before.len() as int) =~= before);
    if after.len() == before.len() {
        assert(flat_map(preorder_at(w, stmt), fluent_update_of()) =~= Seq::<char>::empty());
        assert(after =~= before);
    }
}

proof fn lemma_fluent_update_nonempty(f: FluentIdent, b: WidgetBuilder, stmt: Seq<char>)
    ensures
        fluent_update(f, b, stmt).len() > 0,
{
    reveal_strlit("if force_update");
}

proof fn lemma_fluents_update_empty(fs: Seq<FluentIdent>, b: WidgetBuilder, stmt: Seq<char>)
    ensures
        (fluents_update(fs, b, stmt).len() == 0) == (fs.len() == 0),
{
    if fs.len() > 0 {
        lemma_fluent_update_nonempty(fs.last(), b, stmt);
    }
}

proof fn lemma_fluent_code_empty<'a>(w: Widget<'a>, stmt: Seq<char>)
    ensures
        (flat_map(preorder_at(w, stmt), fluent_update_of()).len() == 0) == (all_fluents(w).len()
            == 0),
    decreases w, 1int, 0int,
{
    lemma_pre_at_whole(w, stmt, fluent_update_of());
    lemma_pre_whole(w, fluents_of());
    lemma_fluents_update_empty(w.fluents@, w.widget_declaration.widget, stmt);
    lemma_fluent_code_children_empty(w, stmt, child_count(w));
}

proof fn lemma_fluent_code_children_empty<'a>(w: Widget<'a>, stmt: Seq<char>, n: int)
    ensures
        (flat_map(preorder_children_at(w, stmt, n), fluent_update_of()).len() == 0) == (flat_map(
            preorder_children(w, n),
            fluents_of(),
        ).len() == 0),
    decreases w, 0int, n,
{
    if 0 < n <= child_count(w) {
        lemma_pre_at_step(w, stmt, n - 1, fluent_update_of());
        lemma_pre_step(w, n - 1, fluents_of());
        lemma_fluent_code_children_empty(w, stmt, n - 1);
        lemma_fluent_code_empty(child(w, n - 1), child_stmt(stmt, child_key(w, n - 1)));
    }
}

} // verus!
