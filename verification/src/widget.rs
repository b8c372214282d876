//! The widget tree of a component and the code generated from it.

use vstd::prelude::*;
use crate::flat::{flat_map, lemma_flat_map_concat, lemma_flat_map_prepend, lemma_flat_map_push};
use crate::code::{decimal, quoted, string_literal};
use crate::error::BuildError;
use crate::ids::{lemma_wrap_add, lemma_wrap_zero, take_number, wrap, IdCounters};
use crate::fluent::{
    fluent_ident_spec, fluent_set, push_fluent_set, push_var_block, state_fluent_ident_spec, var_block,
    widget_label, FluentIdent, FluentIdentView,
};
use crate::model::{
    copy_pairs, default_widget_id, update_code, ComponentDeclaration, Fluent,
    NormalVariableDeclaration, StateDeclaration, WidgetBuilder, WidgetDeclaration, WidgetID,
    WidgetOverride,
};
use crate::widget_set::WidgetSet;

verus! {

/// What a state changes of a widget: the widget's static properties, fluents and
/// variable properties in that state.
#[derive(Clone, Debug)]
pub struct OverriddenWidgets<'a> {
    pub state_name: &'a str,
    pub statics: Vec<(String, String)>,
    pub fluents: Vec<FluentIdent>,
    pub state_fluent_overrides: Vec<FluentIdent>,
    pub variables: Vec<(String, String)>,
}

/// A widget of a component, with what generation needs of it and its children.
#[derive(Debug)]
pub struct Widget<'a> {
    pub widget_type_name: &'a str,
    pub widget_declaration: &'a WidgetDeclaration,
    pub state_overrides: Vec<OverriddenWidgets<'a>>,
    pub child_widgets: Option<WidgetSet<'a>>,
    pub child_type: Option<String>,
    pub handler: Option<String>,
    pub statics: Vec<(String, String)>,
    pub fluents: Vec<FluentIdent>,
    pub variables: Vec<(String, String)>,
    pub id: WidgetID,
}

/// The number of children of `w`.
pub open spec fn child_count(w: Widget) -> int {
    match w.child_widgets {
        Some(s) => s.widgets@.len() as int,
        None => 0,
    }
}

/// Child `i` of `w`.
pub open spec fn child<'a>(w: Widget<'a>, i: int) -> Widget<'a> {
    w.child_widgets->0.widgets@[i].1
}

/// The key of child `i` of `w`.
pub open spec fn child_key(w: Widget, i: int) -> Seq<char> {
    w.child_widgets->0.widgets@[i].0@
}

/// The statement that reaches the child of key `key` from its parent, reached
/// by `stmt`: the child as field `key` of the parent's value (this library's
/// convention, see `WidgetSet`).
pub open spec fn child_stmt(stmt: Seq<char>, key: Seq<char>) -> Seq<char> {
    "("@ + stmt + ")."@ + key
}

/// The widgets of the tree of `w`, each before its children.
pub open spec fn preorder<'a>(w: Widget<'a>) -> Seq<Widget<'a>>
    decreases w, 1int, 0int,
{
    seq![w] + preorder_children(w, child_count(w))
}

/// `preorder` of the first `n` children of `w`, one after the other.
pub open spec fn preorder_children<'a>(w: Widget<'a>, n: int) -> Seq<Widget<'a>>
    decreases w, 0int, n,
{
    if n <= 0 || n > child_count(w) {
        Seq::empty()
    } else {
        preorder_children(w, n - 1) + preorder(child(w, n - 1))
    }
}

/// The widgets of the tree of `w`, each before its children, with the statement
/// that reaches each when `stmt` reaches `w`.
pub open spec fn preorder_at<'a>(w: Widget<'a>, stmt: Seq<char>) -> Seq<(Widget<'a>, Seq<char>)>
    decreases w, 1int, 0int,
{
    seq![(w, stmt)] + preorder_children_at(w, stmt, child_count(w))
}

/// `preorder_at` of the first `n` children of `w`, one after the other.
pub open spec fn preorder_children_at<'a>(w: Widget<'a>, stmt: Seq<char>, n: int) -> Seq<
    (Widget<'a>, Seq<char>),
>
    decreases w, 0int, n,
{
    if n <= 0 || n > child_count(w) {
        Seq::empty()
    } else {
        preorder_children_at(w, stmt, n - 1) + preorder_at(
            child(w, n - 1),
            child_stmt(stmt, child_key(w, n - 1)),
        )
    }
}

/// The widgets of the tree of `w`, each after its children.
pub open spec fn postorder<'a>(w: Widget<'a>) -> Seq<Widget<'a>>
    decreases w, 1int, 0int,
{
    postorder_children(w, child_count(w)).push(w)
}

/// `postorder` of the first `n` children of `w`, one after the other.
pub open spec fn postorder_children<'a>(w: Widget<'a>, n: int) -> Seq<Widget<'a>>
    decreases w, 0int, n,
{
    if n <= 0 || n > child_count(w) {
        Seq::empty()
    } else {
        postorder_children(w, n - 1) + postorder(child(w, n - 1))
    }
}

/// The widgets of the tree of `w`, each after its children, with the statement
/// that reaches each when `stmt` reaches `w`.
pub open spec fn postorder_at<'a>(w: Widget<'a>, stmt: Seq<char>) -> Seq<(Widget<'a>, Seq<char>)>
    decreases w, 1int, 0int,
{
    postorder_children_at(w, stmt, child_count(w)).push((w, stmt))
}

/// `postorder_at` of the first `n` children of `w`, one after the other.
pub open spec fn postorder_children_at<'a>(w: Widget<'a>, stmt: Seq<char>, n: int) -> Seq<
    (Widget<'a>, Seq<char>),
>
    decreases w, 0int, n,
{
    if n <= 0 || n > child_count(w) {
        Seq::empty()
    } else {
        postorder_children_at(w, stmt, n - 1) + postorder_at(
            child(w, n - 1),
            child_stmt(stmt, child_key(w, n - 1)),
        )
    }
}

/// The plain values of the fluents of one widget.
pub open spec fn own_fluents(w: Widget) -> Seq<FluentIdentView> {
    w.fluents@.map_values(|f: FluentIdent| f@)
}

/// `own_fluents` as a function.
pub open spec fn fluents_of<'a>() -> spec_fn(Widget<'a>) -> Seq<FluentIdentView> {
    |n: Widget<'a>| own_fluents(n)
}

/// The fluents of all widgets of the tree of `w`, in pre-order.
pub open spec fn all_fluents(w: Widget) -> Seq<FluentIdentView> {
    flat_map(preorder(w), fluents_of())
}

impl<'a> Widget<'a> {
    /// Whether any widget of the tree has a fluent.
    pub fn contains_fluents(&self) -> (r: bool)
        ensures
            r == (all_fluents(*self).len() > 0),
        decreases *self,
    {
        proof {
            lemma_flat_map_prepend(*self, preorder_children(*self, child_count(*self)), fluents_of());
        }
        if !self.fluents.is_empty() {
            return true;
        }
        match &self.child_widgets {
            Some(s) => {
                let mut i: usize = 0;
                while i < s.widgets.len()
                    invariant
                        self.child_widgets == Some(*s),
                        0 <= i <= s.widgets@.len(),
                        flat_map(preorder_children(*self, i as int), fluents_of()).len() == 0,
                        own_fluents(*self).len() == 0,
                        all_fluents(*self) == own_fluents(*self) + flat_map(
                            preorder_children(*self, child_count(*self)),
                            fluents_of(),
                        ),
                    decreases s.widgets.len() - i,
                {
                    proof {
                        assert(preorder_children(*self, i + 1) == preorder_children(*self, i as int)
                            + preorder(child(*self, i as int)));
                        lemma_flat_map_concat(
                            preorder_children(*self, i as int),
                            preorder(child(*self, i as int)),
                            fluents_of(),
                        );
                    }
                    let found = s.widgets[i].1.contains_fluents();
                    if found {
                        proof {
                            lemma_prefix_flat_len(*self, i as int + 1, fluents_of());
                        }
                        return true;
                    }
                    i = i + 1;
                }
            },
            None => {},
        }
        false
    }
}

/// A flat map over the first `n` children's trees is no longer than over all.
pub proof fn lemma_prefix_flat_len<'a, B>(w: Widget<'a>, n: int, f: spec_fn(Widget<'a>) -> Seq<B>)
    requires
        0 <= n <= child_count(w),
    ensures
        flat_map(preorder_children(w, n), f).len() <= flat_map(
            preorder_children(w, child_count(w)),
            f,
        ).len(),
    decreases child_count(w) - n,
{
    if n < child_count(w) {
        lemma_pre_step(w, n, f);
        lemma_prefix_flat_len(w, n + 1, f);
    }
}

pub proof fn lemma_pre_step<'a, B>(w: Widget<'a>, i: int, f: spec_fn(Widget<'a>) -> Seq<B>)
    requires
        0 <= i < child_count(w),
    ensures
        flat_map(preorder_children(w, i + 1), f) == flat_map(preorder_children(w, i), f)
            + flat_map(preorder(child(w, i)), f),
{
    assert(preorder_children(w, i + 1) == preorder_children(w, i) + preorder(child(w, i)));
    lemma_flat_map_concat(preorder_children(w, i), preorder(child(w, i)), f);
}

pub proof fn lemma_pre_whole<'a, B>(w: Widget<'a>, f: spec_fn(Widget<'a>) -> Seq<B>)
    ensures
        flat_map(preorder(w), f) == f(w) + flat_map(preorder_children(w, child_count(w)), f),
{
    lemma_flat_map_prepend(w, preorder_children(w, child_count(w)), f);
}

pub proof fn lemma_pre_at_step<'a, B>(
    w: Widget<'a>,
    stmt: Seq<char>,
    i: int,
    f: spec_fn((Widget<'a>, Seq<char>)) -> Seq<B>,
)
    requires
        0 <= i < child_count(w),
    ensures
        flat_map(preorder_children_at(w, stmt, i + 1), f) == flat_map(
            preorder_children_at(w, stmt, i),
            f,
        ) + flat_map(preorder_at(child(w, i), child_stmt(stmt, child_key(w, i))), f),
{
    assert(preorder_children_at(w, stmt, i + 1) == preorder_children_at(w, stmt, i) + preorder_at(
        child(w, i),
        child_stmt(stmt, child_key(w, i)),
    ));
    lemma_flat_map_concat(
        preorder_children_at(w, stmt, i),
        preorder_at(child(w, i), child_stmt(stmt, child_key(w, i))),
        f,
    );
}

pub proof fn lemma_pre_at_whole<'a, B>(
    w: Widget<'a>,
    stmt: Seq<char>,
    f: spec_fn((Widget<'a>, Seq<char>)) -> Seq<B>,
)
    ensures
        flat_map(preorder_at(w, stmt), f) == f((w, stmt)) + flat_map(
            preorder_children_at(w, stmt, child_count(w)),
            f,
        ),
{
    lemma_flat_map_prepend((w, stmt), preorder_children_at(w, stmt, child_count(w)), f);
}

pub proof fn lemma_post_step<'a, B>(w: Widget<'a>, i: int, f: spec_fn(Widget<'a>) -> Seq<B>)
    requires
        0 <= i < child_count(w),
    ensures
        flat_map(postorder_children(w, i + 1), f) == flat_map(postorder_children(w, i), f)
            + flat_map(postorder(child(w, i)), f),
{
    assert(postorder_children(w, i + 1) == postorder_children(w, i) + postorder(child(w, i)));
    lemma_flat_map_concat(postorder_children(w, i), postorder(child(w, i)), f);
}

pub proof fn lemma_post_whole<'a, B>(w: Widget<'a>, f: spec_fn(Widget<'a>) -> Seq<B>)
    ensures
        flat_map(postorder(w), f) == flat_map(postorder_children(w, child_count(w)), f) + f(w),
{
    lemma_flat_map_push(postorder_children(w, child_count(w)), w, f);
}

pub proof fn lemma_post_at_step<'a, B>(
    w: Widget<'a>,
    stmt: Seq<char>,
    i: int,
    f: spec_fn((Widget<'a>, Seq<char>)) -> Seq<B>,
)
    requires
        0 <= i < child_count(w),
    ensures
        flat_map(postorder_children_at(w, stmt, i + 1), f) == flat_map(
            postorder_children_at(w, stmt, i),
            f,
        ) + flat_map(postorder_at(child(w, i), child_stmt(stmt, child_key(w, i))), f),
{
    assert(postorder_children_at(w, stmt, i + 1) == postorder_children_at(w, stmt, i)
        + postorder_at(child(w, i), child_stmt(stmt, child_key(w, i))));
    lemma_flat_map_concat(
        postorder_children_at(w, stmt, i),
        postorder_at(child(w, i), child_stmt(stmt, child_key(w, i))),
        f,
    );
}

pub proof fn lemma_post_at_whole<'a, B>(
    w: Widget<'a>,
    stmt: Seq<char>,
    f: spec_fn((Widget<'a>, Seq<char>)) -> Seq<B>,
)
    ensures
        flat_map(postorder_at(w, stmt), f) == flat_map(
            postorder_children_at(w, stmt, child_count(w)),
            f,
        ) + f((w, stmt)),
{
    lemma_flat_map_push(postorder_children_at(w, stmt, child_count(w)), (w, stmt), f);
}

/// The plain values of a list of fluents.
pub open spec fn fluent_views(s: Seq<FluentIdent>) -> Seq<FluentIdentView> {
    s.map_values(|f: FluentIdent| f@)
}

/// The declaration of the handler type of a widget that has one.
pub open spec fn handler_struct(w: Widget) -> Seq<char> {
    match w.handler {
        Some(h) => "pub(crate) struct "@ + h@ + "; impl ToHandler for "@ + h@
            + " { type BaseHandler = CompStruct; } "@,
        None => Seq::empty(),
    }
}

/// `handler_struct` as a function.
pub open spec fn handler_struct_of<'a>() -> spec_fn(Widget<'a>) -> Seq<char> {
    |n: Widget<'a>| handler_struct(n)
}

/// A widget's identifier with the statement that reaches it.
pub open spec fn id_stmt_of<'a>() -> spec_fn((Widget<'a>, Seq<char>)) -> Seq<(WidgetID, Seq<char>)> {
    |p: (Widget<'a>, Seq<char>)| seq![(p.0.id, p.1)]
}

/// The plain values of a list of identifiers and statements.
pub open spec fn id_stmt_views(s: Seq<(WidgetID, String)>) -> Seq<(WidgetID, Seq<char>)> {
    s.map_values(|e: (WidgetID, String)| (e.0, e.1@))
}

/// The identifiers of the children of `w`, in order.
pub open spec fn child_ids(w: Widget) -> Seq<WidgetID> {
    Seq::new(child_count(w) as nat, |i: int| child(w, i).id)
}

/// A widget that holds a set of children, with the identifiers of the children.
pub open spec fn parent_entry<'a>() -> spec_fn(Widget<'a>) -> Seq<(WidgetID, Seq<WidgetID>)> {
    |n: Widget<'a>|
        if n.child_widgets is Some {
            seq![(n.id, child_ids(n))]
        } else {
            Seq::empty()
        }
}

/// The plain values of a list of parents and their children.
pub open spec fn parent_views(s: Seq<(WidgetID, Vec<WidgetID>)>) -> Seq<(WidgetID, Seq<WidgetID>)> {
    s.map_values(|e: (WidgetID, Vec<WidgetID>)| (e.0, e.1@))
}

/// Of two identifiers, the one with the larger number, the second on a tie.
pub open spec fn max_by_widget_id(a: WidgetID, b: WidgetID) -> WidgetID {
    if b.widget_id >= a.widget_id {
        b
    } else {
        a
    }
}

/// The identifier that `get_largest_id` gives for `w`.
pub open spec fn largest_id(w: Widget) -> WidgetID
    decreases w, 1int, 0int,
{
    max_by_widget_id(
        w.id,
        match children_largest_id(w, child_count(w)) {
            Some(x) => x,
            None => default_widget_id(),
        },
    )
}

/// The largest identifier among the trees of the first `n` children of `w`,
/// the later one on a tie; none without children.
pub open spec fn children_largest_id(w: Widget, n: int) -> Option<WidgetID>
    decreases w, 0int, n,
{
    if n <= 0 || n > child_count(w) {
        None
    } else {
        match children_largest_id(w, n - 1) {
            None => Some(largest_id(child(w, n - 1))),
            Some(p) => Some(max_by_widget_id(p, largest_id(child(w, n - 1)))),
        }
    }
}

impl<'a> Widget<'a> {
    /// Appends the fluents of all widgets of the tree to `container`, in
    /// pre-order.
    pub fn push_fluents(&self, container: &mut Vec<FluentIdent>)
        ensures
            fluent_views(final(container)@) == fluent_views(old(container)@) + all_fluents(*self),
        decreases *self,
    {
        let mut i: usize = 0;
        while i < self.fluents.len()
            invariant
                0 <= i <= self.fluents@.len(),
                fluent_views(container@) == fluent_views(old(container)@) + own_fluents(*self).take(
                    i as int,
                ),
            decreases self.fluents.len() - i,
        {
            let f = self.fluents[i].duplicate();
            let ghost prev = container@;
            container.push(f);
            assert(container@ == prev.push(f));
            assert(f@ == own_fluents(*self)[i as int]);
            assert(fluent_views(container@) =~= fluent_views(prev).push(f@));
            assert(own_fluents(*self).take(i + 1) =~= own_fluents(*self).take(i as int).push(f@));
            assert(fluent_views(container@) =~= fluent_views(old(container)@) + own_fluents(
                *self,
            ).take(i + 1));
            i = i + 1;
        }
        assert(own_fluents(*self).take(self.fluents@.len() as int) =~= own_fluents(*self));
        proof {
            lemma_pre_whole(*self, fluents_of());
        }
        match &self.child_widgets {
            Some(s) => {
                let mut j: usize = 0;
                while j < s.widgets.len()
                    invariant
                        self.child_widgets == Some(*s),
                        0 <= j <= s.widgets@.len(),
                        fluent_views(container@) == fluent_views(old(container)@) + own_fluents(
                            *self,
                        ) + flat_map(preorder_children(*self, j as int), fluents_of()),
                    decreases s.widgets.len() - j,
                {
                    proof {
                        lemma_pre_step(*self, j as int, fluents_of());
                    }
                    s.widgets[j].1.push_fluents(container);
                    j = j + 1;
                }
            },
            None => {},
        }
    }

    /// Appends to `stream` the declaration of the handler type of every widget
    /// of the tree that has a handler, in pre-order.
    pub fn gen_handler_structs(&self, stream: &mut String) -> (r: Result<(), crate::error::BuildError>)
        ensures
            r is Ok,
            final(stream)@ == old(stream)@ + flat_map(preorder(*self), handler_struct_of()),
        decreases *self,
    {
        match &self.handler {
            Some(name) => {
                stream.append("pub(crate) struct ");
                stream.append(name.as_str());
                stream.append("; impl ToHandler for ");
                stream.append(name.as_str());
                stream.append(" { type BaseHandler = CompStruct; } ");
            },
            None => {},
        }
        assert(stream@ =~= old(stream)@ + handler_struct(*self));
        proof {
            lemma_pre_whole(*self, handler_struct_of());
        }
        match &self.child_widgets {
            Some(s) => {
                let mut j: usize = 0;
                while j < s.widgets.len()
                    invariant
                        self.child_widgets == Some(*s),
                        0 <= j <= s.widgets@.len(),
                        stream@ == old(stream)@ + handler_struct(*self) + flat_map(
                            preorder_children(*self, j as int),
                            handler_struct_of(),
                        ),
                    decreases s.widgets.len() - j,
                {
                    proof {
                        lemma_pre_step(*self, j as int, handler_struct_of());
                    }
                    let _ = s.widgets[j].1.gen_handler_structs(stream);
                    j = j + 1;
                }
            },
            None => {},
        }
        Ok(())
    }

    /// Appends to `acc`, for every widget of the tree, its identifier and the
    /// statement that reaches it (`self.widget` for this widget unless
    /// `widget_stmt` is given), children before their parent.
    pub fn gen_widget_id_to_widget(&self, widget_stmt: Option<&String>, acc: &mut Vec<(WidgetID, String)>)
        ensures
            id_stmt_views(final(acc)@) == id_stmt_views(old(acc)@) + flat_map(
                postorder_at(
                    *self,
                    match widget_stmt {
                        Some(s) => s@,
                        None => "self.widget"@,
                    },
                ),
                id_stmt_of(),
            ),
        decreases *self,
    {
        let stmt = match widget_stmt {
            Some(s) => s.clone(),
            None => "self.widget".to_owned(),
        };
        let ghost st = stmt@;
        proof {
            lemma_post_at_whole(*self, st, id_stmt_of());
        }
        match &self.child_widgets {
            Some(set) => {
                let gets = set.gen_widget_gets(&stmt);
                let mut j: usize = 0;
                while j < gets.len()
                    invariant
                        self.child_widgets == Some(*set),
                        gets@.len() == set.widgets@.len(),
                        forall|i: int|
                            0 <= i < gets@.len() ==> #[trigger] gets@[i].0@ == child_stmt(
                                st,
                                set.widgets@[i].0@,
                            ) && *gets@[i].1 == set.widgets@[i].1,
                        0 <= j <= gets@.len(),
                        id_stmt_views(acc@) == id_stmt_views(old(acc)@) + flat_map(
                            postorder_children_at(*self, st, j as int),
                            id_stmt_of(),
                        ),
                    decreases gets.len() - j,
                {
                    proof {
                        lemma_post_at_step(*self, st, j as int, id_stmt_of());
                    }
                    set.widgets[j].1.gen_widget_id_to_widget(Some(&gets[j].0), acc);
                    j = j + 1;
                }
            },
            None => {
                assert(flat_map(postorder_children_at(*self, st, 0), id_stmt_of())
                    =~= Seq::empty());
            },
        }
        let ghost before = acc@;
        acc.push((self.id, stmt));
        assert(id_stmt_views(acc@) =~= id_stmt_views(before) + seq![(self.id, st)]);
        assert(id_stmt_views(acc@) =~= id_stmt_views(old(acc)@) + flat_map(
            postorder_at(*self, st),
            id_stmt_of(),
        ));
    }

    /// Appends to `acc`, for every widget of the tree that holds a set of
    /// children, its identifier and those of its children, children before their
    /// parent.
    pub fn get_parent_ids(&self, acc: &mut Vec<(WidgetID, Vec<WidgetID>)>)
        ensures
            parent_views(final(acc)@) == parent_views(old(acc)@) + flat_map(
                postorder(*self),
                parent_entry(),
            ),
        decreases *self,
    {
        proof {
            lemma_post_whole(*self, parent_entry());
        }
        match &self.child_widgets {
            Some(set) => {
                let mut child_ids_v: Vec<WidgetID> = Vec::new();
                let mut j: usize = 0;
                while j < set.widgets.len()
                    invariant
                        self.child_widgets == Some(*set),
                        0 <= j <= set.widgets@.len(),
                        child_ids_v@ =~= child_ids(*self).take(j as int),
                        parent_views(acc@) == parent_views(old(acc)@) + flat_map(
                            postorder_children(*self, j as int),
                            parent_entry(),
                        ),
                    decreases set.widgets.len() - j,
                {
                    proof {
                        lemma_post_step(*self, j as int, parent_entry());
                    }
                    let w = &set.widgets[j].1;
                    w.get_parent_ids(acc);
                    child_ids_v.push(w.id);
                    j = j + 1;
                }
                let ghost before = acc@;
                assert(child_ids(*self).take(set.widgets@.len() as int) =~= child_ids(*self));
                acc.push((self.id, child_ids_v));
                assert(parent_views(acc@) =~= parent_views(before) + seq![(self.id, child_ids(*self))]);
            },
            None => {
                assert(flat_map(postorder_children(*self, 0), parent_entry()) =~= Seq::empty());
                assert(parent_views(acc@) =~= parent_views(old(acc)@) + flat_map(
                    postorder(*self),
                    parent_entry(),
                ));
            },
        }
    }

    /// The identifier of the tree with the largest number: this widget's own
    /// against the largest among its children (or the default identifier where
    /// it has none), the latter on a tie.
    pub fn get_largest_id(&self) -> (r: WidgetID)
        ensures
            r == largest_id(*self),
        decreases *self,
    {
        let other = match &self.child_widgets {
            Some(s) => match s.largest_id() {
                Some(x) => x,
                None => WidgetID::default(),
            },
            None => WidgetID::default(),
        };
        if other.widget_id() >= self.id.widget_id() {
            other
        } else {
            self.id
        }
    }
}

/// The update code of the properties bound to variable `var` among `vars`, in
/// order.
pub open spec fn var_props_update(b: WidgetBuilder, vars: Seq<(String, String)>, var: Seq<char>) -> Seq<char>
    decreases vars.len(),
{
    if vars.len() == 0 {
        Seq::empty()
    } else {
        var_props_update(b, vars.drop_last(), var) + if vars.last().1@ == var {
            update_code(b, vars.last().0@)
        } else {
            Seq::empty()
        }
    }
}

/// `fluent_set` of each of `fluents` that refers to `var`, in order.
pub open spec fn var_fluent_sets(fluents: Seq<FluentIdent>, var: Seq<char>) -> Seq<char>
    decreases fluents.len(),
{
    if fluents.len() == 0 {
        Seq::empty()
    } else {
        var_fluent_sets(fluents.drop_last(), var) + if fluents.last().fluent.refers_to(var) {
            fluent_set(fluents.last()@, var)
        } else {
            Seq::empty()
        }
    }
}

/// What one widget, reached by `stmt`, does when variable `var` changed: it
/// updates the properties bound to `var`, where there is code for them, and the
/// fluents that refer to `var`.
pub open spec fn own_var_update(w: Widget, var: Seq<char>, stmt: Seq<char>) -> Seq<char> {
    let upd = var_props_update(w.widget_declaration.widget, w.variables@, var);
    (if upd.len() > 0 {
        "let widget = "@ + stmt + "; "@ + upd
    } else {
        Seq::empty()
    }) + var_fluent_sets(w.fluents@, var)
}

/// `own_var_update` as a function.
pub open spec fn var_update_of<'a>(var: Seq<char>) -> spec_fn((Widget<'a>, Seq<char>)) -> Seq<char> {
    |p: (Widget<'a>, Seq<char>)| own_var_update(p.0, var, p.1)
}

/// The code that re-renders one fluent of a widget, reached by `stmt`, when an
/// update is forced or a variable it refers to changed.
pub open spec fn fluent_update(f: FluentIdent, b: WidgetBuilder, stmt: Seq<char>) -> Seq<char> {
    "if force_update"@ + (if f.fluent.vars@.len() > 0 {
        " || "@ + f.property_ident@
    } else {
        Seq::empty()
    }) + " { let value = get_bundle_message("@ + quoted(f.name@) + ", "@ + (if f.fluent.vars@.len()
        == 0 {
        "None"@
    } else {
        "Some(&self."@ + f.ident@ + ")"@
    }) + "); let widget = "@ + stmt + "; "@ + update_code(b, f.property@) + "} "@
}

/// Appends `fluent_update` of one fluent.
fn push_fluent_update(stream: &mut String, fluent: &FluentIdent, b: &WidgetBuilder, stmt: &String)
    ensures
        final(stream)@ == old(stream)@ + fluent_update(*fluent, *b, stmt@),
{
    stream.append("if force_update");
    if !fluent.fluent.vars.is_empty() {
        stream.append(" || ");
        stream.append(fluent.property_ident.as_str());
    }
    stream.append(" { let value = get_bundle_message(");
    let lit = string_literal(fluent.name.as_str());
    stream.append(lit.as_str());
    stream.append(", ");
    if fluent.fluent.vars.is_empty() {
        stream.append("None");
    } else {
        stream.append("Some(&self.");
        stream.append(fluent.ident.as_str());
        stream.append(")");
    }
    stream.append("); let widget = ");
    stream.append(stmt.as_str());
    stream.append("; ");
    b.on_property_update(fluent.property.as_str(), stream);
    stream.append("} ");
    assert(final(stream)@ =~= old(stream)@ + fluent_update(*fluent, *b, stmt@));
}

/// `fluent_update` of each of `fluents`, in order.
pub open spec fn fluents_update(fluents: Seq<FluentIdent>, b: WidgetBuilder, stmt: Seq<char>) -> Seq<char>
    decreases fluents.len(),
{
    if fluents.len() == 0 {
        Seq::empty()
    } else {
        fluents_update(fluents.drop_last(), b, stmt) + fluent_update(fluents.last(), b, stmt)
    }
}

/// `fluents_update` of a widget's own fluents, as a function.
pub open spec fn fluent_update_of<'a>() -> spec_fn((Widget<'a>, Seq<char>)) -> Seq<char> {
    |p: (Widget<'a>, Seq<char>)| fluents_update(p.0.fluents@, p.0.widget_declaration.widget, p.1)
}

/// The code that sets each static property, in order.
pub open spec fn statics_update(b: WidgetBuilder, statics: Seq<(String, String)>) -> Seq<char>
    decreases statics.len(),
{
    if statics.len() == 0 {
        Seq::empty()
    } else {
        statics_update(b, statics.drop_last()) + "let value = "@ + statics.last().1@ + "; "@
            + update_code(b, statics.last().0@)
    }
}

/// What one widget, reached by `stmt`, does to set its static properties.
pub open spec fn own_statics(w: Widget, stmt: Seq<char>) -> Seq<char> {
    (if w.statics@.len() > 0 {
        "let widget = "@ + stmt + "; "@
    } else {
        Seq::empty()
    }) + statics_update(w.widget_declaration.widget, w.statics@)
}

/// `own_statics` as a function.
pub open spec fn statics_of<'a>() -> spec_fn((Widget<'a>, Seq<char>)) -> Seq<char> {
    |p: (Widget<'a>, Seq<char>)| own_statics(p.0, p.1)
}

/// The statement that reaches the component's root widget.
pub open spec fn root_stmt() -> Seq<char> {
    "&mut self.widget"@
}

/// The code that updates the tree of `w` when variable `var` changed.
pub open spec fn widget_var_update(w: Widget, var: Seq<char>) -> Seq<char> {
    var_block(var, flat_map(preorder_at(w, root_stmt()), var_update_of(var)))
}

impl<'a> Widget<'a> {
    fn gen_var_update2(&self, var: &NormalVariableDeclaration, widget_stmt: &String, stream: &mut String)
        ensures
            final(stream)@ == old(stream)@ + flat_map(
                preorder_at(*self, widget_stmt@),
                var_update_of(var.name@),
            ),
        decreases *self,
    {
        let ghost b = self.widget_declaration.widget;
        let mut update_stream = String::new();
        let mut i: usize = 0;
        while i < self.variables.len()
            invariant
                0 <= i <= self.variables@.len(),
                b == self.widget_declaration.widget,
                update_stream@ == var_props_update(b, self.variables@.take(i as int), var.name@),
            decreases self.variables.len() - i,
        {
            assert(self.variables@.take(i + 1).drop_last() =~= self.variables@.take(i as int));
            if self.variables[i].1 == var.name {
                self.widget_declaration.widget.on_property_update(
                    self.variables[i].0.as_str(),
                    &mut update_stream,
                );
            } else {
                assert(update_stream@ =~= update_stream@ + Seq::<char>::empty());
            }
            i = i + 1;
        }
        assert(self.variables@.take(self.variables@.len() as int) =~= self.variables@);
        if !update_stream.as_str().is_empty() {
            stream.append("let widget = ");
            stream.append(widget_stmt.as_str());
            stream.append("; ");
            stream.append(update_stream.as_str());
        }
        let ghost mid = stream@;
        let mut k: usize = 0;
        while k < self.fluents.len()
            invariant
                0 <= k <= self.fluents@.len(),
                stream@ == mid + var_fluent_sets(self.fluents@.take(k as int), var.name@),
            decreases self.fluents.len() - k,
        {
            assert(self.fluents@.take(k + 1).drop_last() =~= self.fluents@.take(k as int));
            if self.fluents[k].fluent.contains_var(&var.name) {
                push_fluent_set(stream, &self.fluents[k], var.name.as_str());
            } else {
                assert(stream@ =~= stream@ + Seq::<char>::empty());
            }
            k = k + 1;
        }
        assert(self.fluents@.take(self.fluents@.len() as int) =~= self.fluents@);
        assert(stream@ =~= old(stream)@ + own_var_update(*self, var.name@, widget_stmt@));
        proof {
            lemma_pre_at_whole(*self, widget_stmt@, var_update_of(var.name@));
        }
        match &self.child_widgets {
            Some(set) => {
                let gets = set.gen_widget_gets(widget_stmt);
                let ghost before = stream@;
                let mut j: usize = 0;
                while j < gets.len()
                    invariant
                        self.child_widgets == Some(*set),
                        gets@.len() == set.widgets@.len(),
                        forall|i: int|
                            0 <= i < gets@.len() ==> #[trigger] gets@[i].0@ == child_stmt(
                                widget_stmt@,
                                set.widgets@[i].0@,
                            ) && *gets@[i].1 == set.widgets@[i].1,
                        0 <= j <= gets@.len(),
                        stream@ == before + flat_map(
                            preorder_children_at(*self, widget_stmt@, j as int),
                            var_update_of(var.name@),
                        ),
                    decreases gets.len() - j,
                {
                    proof {
                        lemma_pre_at_step(*self, widget_stmt@, j as int, var_update_of(var.name@));
                    }
                    set.widgets[j].1.gen_var_update2(var, &gets[j].0, stream);
                    j = j + 1;
                }
            },
            None => {
                assert(flat_map(preorder_children_at(*self, widget_stmt@, 0), var_update_of(var.name@))
                    =~= Seq::empty());
            },
        }
    }

    /// The code that, when variable `var` changed or an update is forced,
    /// updates every widget of the tree that depends on it: their properties
    /// bound to it and their fluents that refer to it.
    pub fn gen_var_update(&self, var: &NormalVariableDeclaration) -> (r: String)
        ensures
            r@ == widget_var_update(*self, var.name@),
    {
        let mut stream = String::new();
        let widget = "&mut self.widget".to_owned();
        self.gen_var_update2(var, &widget, &mut stream);
        let mut r = String::new();
        push_var_block(&mut r, var.name.as_str(), stream.as_str());
        r
    }

    /// Appends to `stream` the code that re-renders every fluent of the tree,
    /// each widget reached from this one's statement (`&mut self.widget` unless
    /// `widget_stmt` is given).
    pub fn gen_fluent_update(&self, widget_stmt: Option<&String>, stream: &mut String)
        ensures
            final(stream)@ == old(stream)@ + flat_map(
                preorder_at(
                    *self,
                    match widget_stmt {
                        Some(s) => s@,
                        None => root_stmt(),
                    },
                ),
                fluent_update_of(),
            ),
        decreases *self,
    {
        let stmt = match widget_stmt {
            Some(s) => s.clone(),
            None => "&mut self.widget".to_owned(),
        };
        let ghost st = stmt@;
        let ghost b = self.widget_declaration.widget;
        let mut k: usize = 0;
        while k < self.fluents.len()
            invariant
                0 <= k <= self.fluents@.len(),
                b == self.widget_declaration.widget,
                stmt@ == st,
                stream@ == old(stream)@ + fluents_update(self.fluents@.take(k as int), b, st),
            decreases self.fluents.len() - k,
        {
            assert(self.fluents@.take(k + 1).drop_last() =~= self.fluents@.take(k as int));
            push_fluent_update(stream, &self.fluents[k], &self.widget_declaration.widget, &stmt);
            k = k + 1;
        }
        assert(self.fluents@.take(self.fluents@.len() as int) =~= self.fluents@);
        proof {
            lemma_pre_at_whole(*self, st, fluent_update_of());
        }
        match &self.child_widgets {
            Some(set) => {
                let gets = set.gen_widget_gets(&stmt);
                let ghost before = stream@;
                let mut j: usize = 0;
                while j < gets.len()
                    invariant
                        self.child_widgets == Some(*set),
                        gets@.len() == set.widgets@.len(),
                        forall|i: int|
                            0 <= i < gets@.len() ==> #[trigger] gets@[i].0@ == child_stmt(
                                st,
                                set.widgets@[i].0@,
                            ) && *gets@[i].1 == set.widgets@[i].1,
                        0 <= j <= gets@.len(),
                        stream@ == before + flat_map(
                            preorder_children_at(*self, st, j as int),
                            fluent_update_of(),
                        ),
                    decreases gets.len() - j,
                {
                    proof {
                        lemma_pre_at_step(*self, st, j as int, fluent_update_of());
                    }
                    set.widgets[j].1.gen_fluent_update(Some(&gets[j].0), stream);
                    j = j + 1;
                }
            },
            None => {
                assert(flat_map(preorder_children_at(*self, st, 0), fluent_update_of())
                    =~= Seq::empty());
            },
        }
    }

    /// Appends to `stream` the code that sets the static properties of every
    /// widget of the tree, each reached from this one's statement
    /// (`&mut self.widget` unless `widget_stmt` is given).
    pub fn gen_statics(&self, widget_stmt: Option<&String>, stream: &mut String)
        ensures
            final(stream)@ == old(stream)@ + flat_map(
                preorder_at(
                    *self,
                    match widget_stmt {
                        Some(s) => s@,
                        None => root_stmt(),
                    },
                ),
                statics_of(),
            ),
        decreases *self,
    {
        let stmt = match widget_stmt {
            Some(s) => s.clone(),
            None => "&mut self.widget".to_owned(),
        };
        let ghost st = stmt@;
        let ghost b = self.widget_declaration.widget;
        if !self.statics.is_empty() {
            stream.append("let widget = ");
            stream.append(stmt.as_str());
            stream.append("; ");
        }
        let ghost mid = stream@;
        let mut k: usize = 0;
        while k < self.statics.len()
            invariant
                0 <= k <= self.statics@.len(),
                b == self.widget_declaration.widget,
                stream@ == mid + statics_update(b, self.statics@.take(k as int)),
            decreases self.statics.len() - k,
        {
            assert(self.statics@.take(k + 1).drop_last() =~= self.statics@.take(k as int));
            let ghost before = stream@;
            stream.append("let value = ");
            stream.append(self.statics[k].1.as_str());
            stream.append("; ");
            self.widget_declaration.widget.on_property_update(self.statics[k].0.as_str(), stream);
            assert(stream@ =~= before + "let value = "@ + self.statics@[k as int].1@ + "; "@
                + update_code(b, self.statics@[k as int].0@));
            k = k + 1;
        }
        assert(self.statics@.take(self.statics@.len() as int) =~= self.statics@);
        assert(stream@ =~= old(stream)@ + own_statics(*self, st));
        proof {
            lemma_pre_at_whole(*self, st, statics_of());
        }
        match &self.child_widgets {
            Some(set) => {
                let gets = set.gen_widget_gets(&stmt);
                let ghost before = stream@;
                let mut j: usize = 0;
                while j < gets.len()
                    invariant
                        self.child_widgets == Some(*set),
                        gets@.len() == set.widgets@.len(),
                        forall|i: int|
                            0 <= i < gets@.len() ==> #[trigger] gets@[i].0@ == child_stmt(
                                st,
                                set.widgets@[i].0@,
                            ) && *gets@[i].1 == set.widgets@[i].1,
                        0 <= j <= gets@.len(),
                        stream@ == before + flat_map(
                            preorder_children_at(*self, st, j as int),
                            statics_of(),
                        ),
                    decreases gets.len() - j,
                {
                    proof {
                        lemma_pre_at_step(*self, st, j as int, statics_of());
                    }
                    set.widgets[j].1.gen_statics(Some(&gets[j].0), stream);
                    j = j + 1;
                }
            },
            None => {
                assert(flat_map(preorder_children_at(*self, st, 0), statics_of()) =~= Seq::empty());
            },
        }
    }
}

/// A declared name as plain characters.
pub open spec fn name_view(n: Option<String>) -> Option<Seq<char>> {
    match n {
        Some(s) => Some(s@),
        None => None,
    }
}

/// The name under which a declared widget's fluents are known.
pub open spec fn decl_label(d: WidgetDeclaration) -> Seq<char> {
    widget_label(name_view(d.name), d.widget.name@)
}

/// The fluents of a builder's properties, named for widget `label` of
/// component `component`.
pub open spec fn named_fluents(fluents: Seq<(String, Fluent)>, component: Seq<char>, label: Seq<char>) -> Seq<FluentIdentView> {
    fluents.map_values(|p: (String, Fluent)| fluent_ident_spec(p.0@, p.1.vars@, component, label))
}

/// The fluents of a builder's properties, named as state overrides.
pub open spec fn state_named_fluents(
    fluents: Seq<(String, Fluent)>,
    component: Seq<char>,
    widget: Seq<char>,
    state: Seq<char>,
) -> Seq<FluentIdentView> {
    fluents.map_values(
        |p: (String, Fluent)| state_fluent_ident_spec(p.0@, p.1.vars@, component, widget, state),
    )
}

/// The overrides among `os` of the widget named `name`, in order.
pub open spec fn override_matches(os: Seq<WidgetOverride>, name: Seq<char>) -> Seq<WidgetOverride>
    decreases os.len(),
{
    if os.len() == 0 {
        Seq::empty()
    } else {
        override_matches(os.drop_last(), name) + if os.last().name@ == name {
            seq![os.last()]
        } else {
            Seq::empty()
        }
    }
}

/// Whether a builder holds at least one child.
pub open spec fn holds_children(b: WidgetBuilder) -> bool {
    match b.widgets {
        Some(v) => v@.len() > 0,
        None => false,
    }
}

/// What is wrong with `state`'s overrides of the widget named `name`: more than
/// one, or one that holds children.
pub open spec fn state_override_error(name: String, state: StateDeclaration) -> Option<BuildError> {
    let m = override_matches(state.overrides@, name@);
    if m.len() > 1 {
        Some(BuildError::RepeatedOverride { widget: name, state: state.name })
    } else if m.len() == 1 && holds_children(m[0].widget) {
        Some(BuildError::OverrideWithChildren { widget: name, state: state.name })
    } else {
        None
    }
}

/// The first `state_override_error` among the first `n` states.
pub open spec fn overrides_error(name: String, states: Seq<StateDeclaration>, n: int) -> Option<BuildError>
    decreases n,
{
    if n <= 0 || n > states.len() {
        None
    } else {
        match overrides_error(name, states, n - 1) {
            Some(e) => Some(e),
            None => state_override_error(name, states[n - 1]),
        }
    }
}

/// What is wrong with the states' overrides of a declared widget; a widget
/// without a name is never overridden.
pub open spec fn decl_override_error(d: WidgetDeclaration, states: Seq<StateDeclaration>) -> Option<BuildError> {
    match d.name {
        Some(nm) => overrides_error(nm, states, states.len() as int),
        None => None,
    }
}

/// `e` holds what the combined builder `c` gives in state `state`.
pub open spec fn combined_entry(e: OverriddenWidgets, c: WidgetBuilder, state: StateDeclaration, component: Seq<char>) -> bool {
    &&& e.statics@ == c.statics@
    &&& e.variables@ == c.vars@
    &&& fluent_views(e.state_fluent_overrides@) == state_named_fluents(
        c.fluents@,
        state.name@,
        component,
        state.name@,
    )
}

/// `e` is what state `state` makes of declared widget `d` through override
/// `ov`: the override's own fluents named for the widget, and what `combine`
/// makes of the override and the widget's builder.
pub open spec fn override_built<F: Fn(&WidgetBuilder, &WidgetBuilder) -> WidgetBuilder>(
    e: OverriddenWidgets,
    state: StateDeclaration,
    ov: WidgetOverride,
    d: WidgetDeclaration,
    component: Seq<char>,
    combine: F,
) -> bool {
    &&& e.state_name@ == state.name@
    &&& fluent_views(e.fluents@) == named_fluents(ov.widget.fluents@, component, decl_label(d))
    &&& exists|c: WidgetBuilder|
        call_ensures(combine, (&ov.widget, &d.widget), c) && #[trigger] combined_entry(e, c, state, component)
}

/// `v` holds, in order, one entry for each of the first `n` states that
/// overrides the widget named `name` once.
pub open spec fn overrides_built_upto<F: Fn(&WidgetBuilder, &WidgetBuilder) -> WidgetBuilder>(
    v: Seq<OverriddenWidgets>,
    name: Seq<char>,
    d: WidgetDeclaration,
    component: Seq<char>,
    states: Seq<StateDeclaration>,
    n: int,
    combine: F,
) -> bool
    decreases n,
{
    if n <= 0 || n > states.len() {
        v.len() == 0
    } else {
        let m = override_matches(states[n - 1].overrides@, name);
        if m.len() == 1 {
            &&& v.len() > 0
            &&& overrides_built_upto(v.drop_last(), name, d, component, states, n - 1, combine)
            &&& override_built(v.last(), states[n - 1], m[0], d, component, combine)
        } else {
            overrides_built_upto(v, name, d, component, states, n - 1, combine)
        }
    }
}

/// `v` holds what the states make of declared widget `d`.
pub open spec fn overrides_built<F: Fn(&WidgetBuilder, &WidgetBuilder) -> WidgetBuilder>(
    v: Seq<OverriddenWidgets>,
    d: WidgetDeclaration,
    component: Seq<char>,
    states: Seq<StateDeclaration>,
    combine: F,
) -> bool {
    match d.name {
        Some(nm) => overrides_built_upto(v, nm@, d, component, states, states.len() as int, combine),
        None => v.len() == 0,
    }
}

/// The number of widgets declared in the tree of `d`.
pub open spec fn decl_size(d: WidgetDeclaration) -> nat
    decreases d, 0int,
{
    1 + match d.widget.widgets {
        Some(ds) => decls_size(ds@, ds@.len() as int),
        None => 0,
    }
}

/// The number of widgets declared in the trees of the first `n` of `ds`.
pub open spec fn decls_size(ds: Seq<WidgetDeclaration>, n: int) -> nat
    decreases ds, n,
{
    if n <= 0 || n > ds.len() {
        0
    } else {
        decls_size(ds, n - 1) + decl_size(ds[n - 1])
    }
}

/// The first thing, in pre-order, that stops the tree of `d` from being built.
pub open spec fn build_error(d: WidgetDeclaration, states: Seq<StateDeclaration>) -> Option<BuildError>
    decreases d, 0int,
{
    if d.widget.has_handler && d.name is None {
        Some(BuildError::UnnamedHandler)
    } else {
        match decl_override_error(d, states) {
            Some(e) => Some(e),
            None => match d.widget.widgets {
                Some(ds) => children_error(ds@, states, ds@.len() as int),
                None => None,
            },
        }
    }
}

/// The first `build_error` among the first `n` of `ds`.
pub open spec fn children_error(ds: Seq<WidgetDeclaration>, states: Seq<StateDeclaration>, n: int) -> Option<BuildError>
    decreases ds, n,
{
    if n <= 0 || n > ds.len() {
        None
    } else {
        match children_error(ds, states, n - 1) {
            Some(e) => Some(e),
            None => build_error(ds[n - 1], states),
        }
    }
}

/// How many numbers an attempt to build the tree of `d` takes: one for each
/// widget reached before the first error.
pub open spec fn ids_used(d: WidgetDeclaration, states: Seq<StateDeclaration>) -> nat
    decreases d, 0int,
{
    if d.widget.has_handler && d.name is None {
        0
    } else if decl_override_error(d, states) is Some {
        1
    } else {
        1 + match d.widget.widgets {
            Some(ds) => children_ids_used(ds@, states, ds@.len() as int),
            None => 0,
        }
    }
}

/// How many numbers building the first `n` of `ds`, up to the first error,
/// takes.
pub open spec fn children_ids_used(ds: Seq<WidgetDeclaration>, states: Seq<StateDeclaration>, n: int) -> nat
    decreases ds, n,
{
    if n <= 0 || n > ds.len() {
        0
    } else if children_error(ds, states, n - 1) is Some {
        children_ids_used(ds, states, n - 1)
    } else {
        children_ids_used(ds, states, n - 1) + ids_used(ds[n - 1], states)
    }
}

/// `w` is the widget built from declaration `d` of component `component`,
/// numbered `start` in component `cid`, its tree numbered on in pre-order.
pub open spec fn built<'a, F: Fn(&WidgetBuilder, &WidgetBuilder) -> WidgetBuilder>(
    w: Widget<'a>,
    d: WidgetDeclaration,
    component: Seq<char>,
    states: Seq<StateDeclaration>,
    cid: u32,
    start: u32,
    combine: F,
) -> bool
    decreases w, 0int,
{
    &&& *w.widget_declaration == d
    &&& w.widget_type_name@ == d.widget.name@
    &&& w.handler == (if d.widget.has_handler {
        d.name
    } else {
        None
    })
    &&& fluent_views(w.fluents@) == named_fluents(d.widget.fluents@, component, decl_label(d))
    &&& w.variables@ == d.widget.vars@
    &&& w.statics@ == d.widget.statics@
    &&& w.child_type is None
    &&& w.id == WidgetID { component_id: cid, widget_id: start }
    &&& overrides_built(w.state_overrides@, d, component, states, combine)
    &&& match d.widget.widgets {
        None => w.child_widgets is None,
        Some(ds) => {
            &&& w.child_widgets is Some
            &&& w.child_widgets->0.widgets@.len() == ds@.len()
            &&& children_built(
                w.child_widgets->0.widgets@,
                ds@,
                component,
                states,
                cid,
                wrap(start, 1),
                combine,
            )
        },
    }
}

/// Each of `ws`, keyed by its position, is built from the declaration at the
/// same position of `ds`, the first numbered `first` and the rest on in
/// pre-order.
pub open spec fn children_built<'a, F: Fn(&WidgetBuilder, &WidgetBuilder) -> WidgetBuilder>(
    ws: Seq<(String, Widget<'a>)>,
    ds: Seq<WidgetDeclaration>,
    component: Seq<char>,
    states: Seq<StateDeclaration>,
    cid: u32,
    first: u32,
    combine: F,
) -> bool
    decreases ws, 0int,
{
    if ws.len() == 0 || ws.len() > ds.len() {
        ws.len() == 0
    } else {
        let n = ws.len() - 1;
        &&& children_built(ws.drop_last(), ds, component, states, cid, first, combine)
        &&& ws[n].0@ == decimal(n as nat)
        &&& built(ws[n].1, ds[n], component, states, cid, wrap(first, decls_size(ds, n)), combine)
    }
}

pub proof fn lemma_matches_prefix(os: Seq<WidgetOverride>, name: Seq<char>, k: int)
    requires
        0 <= k <= os.len(),
    ensures
        override_matches(os, name).len() >= override_matches(os.take(k), name).len(),
    decreases os.len() - k,
{
    if k < os.len() {
        assert(os.take(k + 1).drop_last() =~= os.take(k));
        lemma_matches_prefix(os, name, k + 1);
    } else {
        assert(os.take(k) =~= os);
    }
}

/// Where exactly one override of the widget named `name` stands in `os`, and
/// whether there are more.
fn find_override(os: &Vec<WidgetOverride>, name: &String) -> (r: Result<Option<usize>, ()>)
    ensures
        match r {
            Err(()) => override_matches(os@, name@).len() > 1,
            Ok(None) => override_matches(os@, name@).len() == 0,
            Ok(Some(k)) => override_matches(os@, name@).len() == 1 && k < os@.len()
                && os@[k as int] == override_matches(os@, name@)[0],
        },
{
    let mut found: Option<usize> = None;
    let mut i: usize = 0;
    while i < os.len()
        invariant
            0 <= i <= os@.len(),
            override_matches(os@.take(i as int), name@).len() <= 1,
            found is None <==> override_matches(os@.take(i as int), name@).len() == 0,
            found matches Some(k) ==> k < i && os@[k as int] == override_matches(
                os@.take(i as int),
                name@,
            )[0],
        decreases os.len() - i,
    {
        assert(os@.take(i + 1).drop_last() =~= os@.take(i as int));
        assert(os@.take(i + 1).last() == os@[i as int]);
        if os[i].name == *name {
            if found.is_some() {
                proof {
                    lemma_matches_prefix(os@, name@, i + 1);
                }
                return Err(());
            }
            found = Some(i);
        }
        i = i + 1;
    }
    assert(os@.take(os@.len() as int) =~= os@);
    Ok(found)
}

pub proof fn lemma_overrides_error_persists(name: String, states: Seq<StateDeclaration>, n: int, m: int)
    requires
        0 <= n <= m <= states.len(),
        overrides_error(name, states, n) is Some,
    ensures
        overrides_error(name, states, m) == overrides_error(name, states, n),
    decreases m - n,
{
    if n < m {
        lemma_overrides_error_persists(name, states, n, m - 1);
    }
}

pub proof fn lemma_children_error_persists(ds: Seq<WidgetDeclaration>, states: Seq<StateDeclaration>, n: int, m: int)
    requires
        0 <= n <= m <= ds.len(),
        children_error(ds, states, n) is Some,
    ensures
        children_error(ds, states, m) == children_error(ds, states, n),
        children_ids_used(ds, states, m) == children_ids_used(ds, states, n),
    decreases m - n,
{
    if n < m {
        lemma_children_error_persists(ds, states, n, m - 1);
    }
}

pub proof fn lemma_ids_used_size(d: WidgetDeclaration, states: Seq<StateDeclaration>)
    requires
        build_error(d, states) is None,
    ensures
        ids_used(d, states) == decl_size(d),
    decreases d, 0int,
{
    match d.widget.widgets {
        Some(ds) => {
            lemma_children_ids_used_size(ds@, states, ds@.len() as int);
        },
        None => {},
    }
}

pub proof fn lemma_children_ids_used_size(ds: Seq<WidgetDeclaration>, states: Seq<StateDeclaration>, n: int)
    requires
        children_error(ds, states, n) is None,
    ensures
        children_ids_used(ds, states, n) == decls_size(ds, n),
    decreases ds, n,
{
    if 0 < n <= ds.len() {
        lemma_children_ids_used_size(ds, states, n - 1);
        lemma_ids_used_size(ds[n - 1], states);
    }
}

/// The fluents of `fluents`, named for the given widget of `component_name`.
fn name_fluents(
    fluents: &Vec<(String, Fluent)>,
    component_name: &str,
    widget_name: Option<&str>,
    widget_type_name: &str,
) -> (r: Vec<FluentIdent>)
    ensures
        fluent_views(r@) == named_fluents(
            fluents@,
            component_name@,
            widget_label(
                match widget_name {
                    Some(n) => Some(n@),
                    None => None,
                },
                widget_type_name@,
            ),
        ),
{
    let ghost label = widget_label(
        match widget_name {
            Some(n) => Some(n@),
            None => None,
        },
        widget_type_name@,
    );
    let mut r: Vec<FluentIdent> = Vec::new();
    let mut i: usize = 0;
    while i < fluents.len()
        invariant
            0 <= i <= fluents@.len(),
            label == widget_label(
                match widget_name {
                    Some(n) => Some(n@),
                    None => None,
                },
                widget_type_name@,
            ),
            fluent_views(r@) =~= named_fluents(fluents@.take(i as int), component_name@, label),
        decreases fluents.len() - i,
    {
        let f = FluentIdent::new(
            fluents[i].0.as_str(),
            &fluents[i].1,
            component_name,
            widget_name,
            widget_type_name,
        );
        let ghost prev = r@;
        r.push(f);
        assert(fluent_views(r@) =~= fluent_views(prev).push(f@));
        assert(fluents@.take(i + 1) =~= fluents@.take(i as int).push(fluents@[i as int]));
        assert(named_fluents(fluents@.take(i + 1), component_name@, label) =~= named_fluents(
            fluents@.take(i as int),
            component_name@,
            label,
        ).push(f@));
        i = i + 1;
    }
    assert(fluents@.take(fluents@.len() as int) =~= fluents@);
    r
}

/// The fluents of `fluents`, named as the given state's overrides.
fn name_state_fluents(
    fluents: &Vec<(String, Fluent)>,
    component_name: &str,
    widget_name: &str,
    state_name: &str,
) -> (r: Vec<FluentIdent>)
    ensures
        fluent_views(r@) == state_named_fluents(
            fluents@,
            component_name@,
            widget_name@,
            state_name@,
        ),
{
    let mut r: Vec<FluentIdent> = Vec::new();
    let mut i: usize = 0;
    while i < fluents.len()
        invariant
            0 <= i <= fluents@.len(),
            fluent_views(r@) =~= state_named_fluents(
                fluents@.take(i as int),
                component_name@,
                widget_name@,
                state_name@,
            ),
        decreases fluents.len() - i,
    {
        let f = FluentIdent::new_state_override(
            fluents[i].0.as_str(),
            &fluents[i].1,
            component_name,
            widget_name,
            state_name,
        );
        let ghost prev = r@;
        r.push(f);
        assert(fluent_views(r@) =~= fluent_views(prev).push(f@));
        assert(fluents@.take(i + 1) =~= fluents@.take(i as int).push(fluents@[i as int]));
        assert(state_named_fluents(
            fluents@.take(i + 1),
            component_name@,
            widget_name@,
            state_name@,
        ) =~= state_named_fluents(
            fluents@.take(i as int),
            component_name@,
            widget_name@,
            state_name@,
        ).push(f@));
        i = i + 1;
    }
    assert(fluents@.take(fluents@.len() as int) =~= fluents@);
    r
}

impl<'a> OverriddenWidgets<'a> {
    /// What state `state_name` makes of a widget: `fluents`, and the static
    /// properties, variable properties and fluents of the combined `builder`.
    fn new_inner(
        state_name: &'a str,
        widget_name: &str,
        component_name: &str,
        fluents: Vec<FluentIdent>,
        builder: &WidgetBuilder,
    ) -> (r: Self)
        ensures
            r.state_name == state_name,
            r.fluents == fluents,
            r.statics@ == builder.statics@,
            r.variables@ == builder.vars@,
            fluent_views(r.state_fluent_overrides@) == state_named_fluents(
                builder.fluents@,
                component_name@,
                widget_name@,
                state_name@,
            ),
    {
        let statics = copy_pairs(&builder.statics);
        let state_fluent_overrides = name_state_fluents(
            &builder.fluents,
            component_name,
            widget_name,
            state_name,
        );
        let variables = copy_pairs(&builder.vars);
        OverriddenWidgets { state_name, statics, fluents, state_fluent_overrides, variables }
    }

    /// What each state that overrides the declared widget makes of it, in the
    /// order of the states: the override's fluents, named for the widget, and
    /// what `combine` makes of the override and the widget's builder. Fails on
    /// the first state that overrides the widget more than once, or with an
    /// override that holds children. A widget without a name is not overridden.
    pub fn new<F: Fn(&WidgetBuilder, &WidgetBuilder) -> WidgetBuilder>(
        component_name: &str,
        widget_declaration: &'a WidgetDeclaration,
        states: &'a [StateDeclaration],
        combine: &F,
    ) -> (r: Result<Vec<Self>, BuildError>)
        requires
            forall|a: &WidgetBuilder, b: &WidgetBuilder| call_requires(*combine, (a, b)),
        ensures
            r is Err <==> decl_override_error(*widget_declaration, states@) is Some,
            r matches Err(e) ==> decl_override_error(*widget_declaration, states@) == Some(e),
            r matches Ok(v) ==> overrides_built(
                v@,
                *widget_declaration,
                component_name@,
                states@,
                *combine,
            ),
    {
        let mut result: Vec<Self> = Vec::new();
        match &widget_declaration.name {
            Some(widget_name) => {
                let mut i: usize = 0;
                while i < states.len()
                    invariant
                        forall|a: &WidgetBuilder, b: &WidgetBuilder| call_requires(*combine, (a, b)),
                        widget_declaration.name == Some(*widget_name),
                        0 <= i <= states@.len(),
                        overrides_error(*widget_name, states@, i as int) is None,
                        overrides_built_upto(
                            result@,
                            widget_name@,
                            *widget_declaration,
                            component_name@,
                            states@,
                            i as int,
                            *combine,
                        ),
                    decreases states.len() - i,
                {
                    let state = &states[i];
                    match find_override(&state.overrides, widget_name) {
                        Err(()) => {
                            let e = BuildError::RepeatedOverride {
                                widget: widget_name.clone(),
                                state: state.name.clone(),
                            };
                            proof {
                                lemma_overrides_error_persists(
                                    *widget_name,
                                    states@,
                                    i + 1,
                                    states@.len() as int,
                                );
                            }
                            return Err(e);
                        },
                        Ok(None) => {},
                        Ok(Some(k)) => {
                            let ov = &state.overrides[k];
                            let has_children = match &ov.widget.widgets {
                                Some(v) => !v.is_empty(),
                                None => false,
                            };
                            if has_children {
                                let e = BuildError::OverrideWithChildren {
                                    widget: widget_name.clone(),
                                    state: state.name.clone(),
                                };
                                proof {
                                    lemma_overrides_error_persists(
                                        *widget_name,
                                        states@,
                                        i + 1,
                                        states@.len() as int,
                                    );
                                }
                                return Err(e);
                            }
                            let fluents = name_fluents(
                                &ov.widget.fluents,
                                component_name,
                                Some(widget_name.as_str()),
                                widget_declaration.widget.name.as_str(),
                            );
                            let new_widget = combine(&ov.widget, &widget_declaration.widget);
                            // The component's name goes where `new_inner` takes the
                            // widget's and the state's where it takes the component's,
                            // so the state's fluents are named
                            // `{state}_{component}_{state}_{property}`.
                            let entry = Self::new_inner(
                                state.name.as_str(),
                                component_name,
                                state.name.as_str(),
                                fluents,
                                &new_widget,
                            );
                            let ghost prev = result@;
                            result.push(entry);
                            assert(combined_entry(entry, new_widget, *state, component_name@));
                            assert(result@.drop_last() =~= prev);
                        },
                    }
                    i = i + 1;
                }
            },
            None => {},
        }
        Ok(result)
    }
}

impl<'a> Widget<'a> {
    /// Builds the widget of `widget_declaration` and the tree below it, for
    /// component `component_name` numbered `component_id`: each widget takes
    /// the next number of `widget_counter`, in pre-order. Fails on the first
    /// widget, in pre-order, that has a handler but no name, or whose
    /// overrides are at fault (see `OverriddenWidgets::new`); the numbers taken
    /// up to then stay taken.
    pub fn new_inner<F: Fn(&WidgetBuilder, &WidgetBuilder) -> WidgetBuilder>(
        component_name: &str,
        widget_declaration: &'a WidgetDeclaration,
        states: &'a [StateDeclaration],
        component_id: u32,
        widget_counter: &mut u32,
        combine: &F,
    ) -> (r: Result<Self, BuildError>)
        requires
            forall|a: &WidgetBuilder, b: &WidgetBuilder| call_requires(*combine, (a, b)),
        ensures
            r is Err <==> build_error(*widget_declaration, states@) is Some,
            r matches Err(e) ==> build_error(*widget_declaration, states@) == Some(e),
            *final(widget_counter) == wrap(*old(widget_counter), ids_used(*widget_declaration, states@)),
            r matches Ok(w) ==> built(
                w,
                *widget_declaration,
                component_name@,
                states@,
                component_id,
                *old(widget_counter),
                *combine,
            ),
        decreases widget_declaration,
    {
        let widget = &widget_declaration.widget;
        let widget_type_name = widget.name.as_str();
        let handler = if widget.has_handler {
            match &widget_declaration.name {
                Some(n) => Some(n.clone()),
                None => {
                    proof {
                        lemma_wrap_zero(*old(widget_counter));
                    }
                    return Err(BuildError::UnnamedHandler);
                },
            }
        } else {
            None
        };
        let widget_name = match &widget_declaration.name {
            Some(n) => Some(n.as_str()),
            None => None,
        };
        let fluents = name_fluents(&widget.fluents, component_name, widget_name, widget_type_name);
        let id = WidgetID::new(component_id, take_number(widget_counter));
        let state_overrides = match OverriddenWidgets::new(
            component_name,
            widget_declaration,
            states,
            combine,
        ) {
            Ok(v) => v,
            Err(e) => {
                return Err(e);
            },
        };
        let child_widgets = match &widget.widgets {
            Some(ws) => {
                let ghost before = *widget_counter;
                match WidgetSet::new(component_name, ws, states, component_id, widget_counter, combine) {
                    Ok(set) => {
                        proof {
                            lemma_wrap_add(
                                *old(widget_counter),
                                1,
                                children_ids_used(ws@, states@, ws@.len() as int),
                            );
                        }
                        Some(set)
                    },
                    Err(e) => {
                        proof {
                            lemma_wrap_add(
                                *old(widget_counter),
                                1,
                                children_ids_used(ws@, states@, ws@.len() as int),
                            );
                        }
                        return Err(e);
                    },
                }
            },
            None => None,
        };
        Ok(Widget {
            widget_type_name,
            widget_declaration,
            state_overrides,
            child_widgets,
            child_type: None,
            handler,
            statics: copy_pairs(&widget.statics),
            fluents,
            variables: copy_pairs(&widget.vars),
            id,
        })
    }

    /// Builds the widget tree of `component`: the component takes the next
    /// number of the component counter, and each widget the next number of the
    /// widget counter, in pre-order (see `new_inner`).
    pub fn new<F: Fn(&WidgetBuilder, &WidgetBuilder) -> WidgetBuilder>(
        component: &'a ComponentDeclaration,
        counters: &mut IdCounters,
        combine: &F,
    ) -> (r: Result<Self, BuildError>)
        requires
            forall|a: &WidgetBuilder, b: &WidgetBuilder| call_requires(*combine, (a, b)),
        ensures
            r is Err <==> build_error(component.child, component.states@) is Some,
            r matches Err(e) ==> build_error(component.child, component.states@) == Some(e),
            final(counters).component == wrap(old(counters).component, 1),
            final(counters).widget == wrap(
                old(counters).widget,
                ids_used(component.child, component.states@),
            ),
            r matches Ok(w) ==> built(
                w,
                component.child,
                component.name@,
                component.states@,
                old(counters).component,
                old(counters).widget,
                *combine,
            ),
    {
        let component_id = take_number(&mut counters.component);
        Self::new_inner(
            component.name.as_str(),
            &component.child,
            component.states.as_slice(),
            component_id,
            &mut counters.widget,
            combine,
        )
    }
}

/// The order in which `WidgetIter` visits the tree of `w`: each widget before
/// its children, the children last one first.
pub open spec fn dfs<'a>(w: Widget<'a>) -> Seq<Widget<'a>>
    decreases w, 1int, 0int,
{
    seq![w] + dfs_children(w, child_count(w))
}

/// `dfs` of the first `n` children of `w`, the last of them first.
pub open spec fn dfs_children<'a>(w: Widget<'a>, n: int) -> Seq<Widget<'a>>
    decreases w, 0int, n,
{
    if n <= 0 || n > child_count(w) {
        Seq::empty()
    } else {
        dfs(child(w, n - 1)) + dfs_children(w, n - 1)
    }
}

/// `dfs` of each widget of a stack, the top one first.
pub open spec fn stack_dfs<'a, 'b>(s: Seq<&'b Widget<'a>>) -> Seq<Widget<'a>>
    decreases s.len(),
{
    if s.len() == 0 {
        Seq::empty()
    } else {
        dfs(*s.last()) + stack_dfs(s.drop_last())
    }
}

/// Visits the widgets of a tree one at a time, each before its children.
pub struct WidgetIter<'a, 'b> {
    widget: Option<&'b Widget<'a>>,
    to_visit: Vec<&'b Widget<'a>>,
}

impl<'a, 'b> WidgetIter<'a, 'b> {
    #[verifier::type_invariant]
    spec fn well_formed(self) -> bool {
        self.widget is None ==> self.to_visit@.len() == 0
    }

    /// The widgets still to be visited, in the order of their visits.
    pub closed spec fn remaining(self) -> Seq<Widget<'a>> {
        (match self.widget {
            Some(w) => dfs(*w),
            None => Seq::empty(),
        }) + stack_dfs(self.to_visit@)
    }

    fn new(widget: &'b Widget<'a>) -> (r: Self)
        ensures
            r.remaining() == dfs(*widget),
    {
        let r = WidgetIter { widget: Some(widget), to_visit: Vec::new() };
        assert(r.remaining() =~= dfs(*widget));
        r
    }

    /// The next widget, none once all have been visited.
    pub fn next(&mut self) -> (r: Option<&'b Widget<'a>>)
        ensures
            old(self).remaining().len() == 0 ==> r is None && final(self).remaining().len() == 0,
            old(self).remaining().len() > 0 ==> (r matches Some(w) && *w == old(self).remaining()[0]
                && final(self).remaining() == old(self).remaining().drop_first()),
    {
        proof {
            use_type_invariant(&*self);
        }
        let mut to_visit: Vec<&'b Widget<'a>> = Vec::new();
        std::mem::swap(&mut to_visit, &mut self.to_visit);
        let ghost stack = to_visit@;
        match self.widget {
            Some(w) => {
                match &w.child_widgets {
                    Some(ws) => {
                        let mut i: usize = 0;
                        while i < ws.widgets.len()
                            invariant
                                w.child_widgets == Some(*ws),
                                0 <= i <= ws.widgets@.len(),
                                to_visit@.len() >= stack.len(),
                                stack_dfs(to_visit@) == dfs_children(*w, i as int) + stack_dfs(
                                    stack,
                                ),
                            decreases ws.widgets.len() - i,
                        {
                            let ghost prev = to_visit@;
                            to_visit.push(&ws.widgets[i].1);
                            assert(to_visit@.drop_last() =~= prev);
                            assert(stack_dfs(to_visit@) =~= dfs(child(*w, i as int)) + stack_dfs(
                                prev,
                            ));
                            i = i + 1;
                        }
                    },
                    None => {},
                }
                assert(stack_dfs(to_visit@) =~= dfs_children(*w, child_count(*w)) + stack_dfs(
                    stack,
                ));
            },
            None => {},
        }
        let ghost all = to_visit@;
        let widget = self.widget;
        let next = to_visit.pop();
        self.to_visit = to_visit;
        self.widget = next;
        proof {
            if all.len() > 0 {
                assert(self.to_visit@ =~= all.drop_last());
            }
            assert(self.remaining() =~= stack_dfs(all));
            match widget {
                Some(w) => {
                    assert(old(self).remaining() =~= seq![*w] + stack_dfs(all));
                },
                None => {},
            }
        }
        widget
    }
}

impl<'a> Widget<'a> {
    /// Visits the widgets of the tree, each before its children.
    pub fn iter<'b>(&'b self) -> (r: WidgetIter<'a, 'b>)
        ensures
            r.remaining() == dfs(*self),
    {
        WidgetIter::new(self)
    }
}

/// `WidgetIter` visits every widget of the tree exactly once: what it yields
/// for `w` holds each widget of the tree as often as the pre-order does.
pub proof fn lemma_iter_visits_each_widget_once<'a>(w: Widget<'a>)
    ensures
        dfs(w).to_multiset() == preorder(w).to_multiset(),
        dfs(w).len() == preorder(w).len(),
    decreases w, 1int, 0int,
{
    lemma_dfs_children_preorder(w, child_count(w));
    vstd::seq_lib::lemma_multiset_commutative(seq![w], dfs_children(w, child_count(w)));
    vstd::seq_lib::lemma_multiset_commutative(seq![w], preorder_children(w, child_count(w)));
}

proof fn lemma_dfs_children_preorder<'a>(w: Widget<'a>, n: int)
    ensures
        dfs_children(w, n).to_multiset() == preorder_children(w, n).to_multiset(),
        dfs_children(w, n).len() == preorder_children(w, n).len(),
    decreases w, 0int, n,
{
    if 0 < n <= child_count(w) {
        let c = child(w, n - 1);
        lemma_dfs_children_preorder(w, n - 1);
        lemma_iter_visits_each_widget_once(c);
        vstd::seq_lib::lemma_multiset_commutative(dfs(c), dfs_children(w, n - 1));
        vstd::seq_lib::lemma_multiset_commutative(preorder_children(w, n - 1), preorder(c));
        assert(dfs(c).to_multiset().add(dfs_children(w, n - 1).to_multiset())
            =~= preorder_children(w, n - 1).to_multiset().add(preorder(c).to_multiset()));
    }
}

} // verus!
