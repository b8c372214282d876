//! The children of a widget.

use vstd::prelude::*;
use crate::code::decimal_text;
use crate::error::BuildError;
use crate::ids::{lemma_wrap_add, lemma_wrap_zero, wrap};
use crate::model::{StateDeclaration, WidgetBuilder, WidgetDeclaration, WidgetID};
use crate::widget::{
    child_count, child_stmt, children_built, children_error, children_ids_used, children_largest_id,
    decls_size, lemma_children_error_persists, lemma_ids_used_size, Widget,
};

verus! {

/// The children of a widget, each with the key by which code reaches it from
/// its parent. This library's convention: a child's key is its position among
/// its siblings in decimal, and generated code reaches it as that field of its
/// parent's value, `(stmt).key` (see `child_stmt`).
#[derive(Debug)]
pub struct WidgetSet<'a> {
    pub widgets: Vec<(String, Widget<'a>)>,
}

impl<'a> WidgetSet<'a> {
    /// Builds the widgets of `ws`, in order, each keyed by its position written
    /// in decimal (see `Widget::new_inner`); fails on the first that fails.
    pub fn new<F: Fn(&WidgetBuilder, &WidgetBuilder) -> WidgetBuilder>(
        component_name: &str,
        ws: &'a Vec<WidgetDeclaration>,
        states: &'a [StateDeclaration],
        component_id: u32,
        widget_counter: &mut u32,
        combine: &F,
    ) -> (r: Result<WidgetSet<'a>, BuildError>)
        requires
            forall|a: &WidgetBuilder, b: &WidgetBuilder| call_requires(*combine, (a, b)),
        ensures
            r is Err <==> children_error(ws@, states@, ws@.len() as int) is Some,
            r matches Err(e) ==> children_error(ws@, states@, ws@.len() as int) == Some(e),
            *final(widget_counter) == wrap(
                *old(widget_counter),
                children_ids_used(ws@, states@, ws@.len() as int),
            ),
            r matches Ok(s) ==> s.widgets@.len() == ws@.len() && children_built(
                s.widgets@,
                ws@,
                component_name@,
                states@,
                component_id,
                *old(widget_counter),
                *combine,
            ),
        decreases ws,
    {
        let mut widgets: Vec<(String, Widget<'a>)> = Vec::new();
        proof {
            lemma_wrap_zero(*old(widget_counter));
        }
        let mut i: usize = 0;
        while i < ws.len()
            invariant
                forall|a: &WidgetBuilder, b: &WidgetBuilder| call_requires(*combine, (a, b)),
                0 <= i <= ws@.len(),
                widgets@.len() == i,
                children_error(ws@, states@, i as int) is None,
                children_ids_used(ws@, states@, i as int) == decls_size(ws@, i as int),
                *widget_counter == wrap(*old(widget_counter), decls_size(ws@, i as int)),
                children_built(
                    widgets@,
                    ws@,
                    component_name@,
                    states@,
                    component_id,
                    *old(widget_counter),
                    *combine,
                ),
            decreases ws.len() - i,
        {
            let ghost before = *widget_counter;
            match Widget::new_inner(component_name, &ws[i], states, component_id, widget_counter, combine) {
                Ok(w) => {
                    proof {
                        lemma_ids_used_size(ws@[i as int], states@);
                        lemma_wrap_add(
                            *old(widget_counter),
                            decls_size(ws@, i as int),
                            crate::widget::decl_size(ws@[i as int]),
                        );
                    }
                    let key = decimal_text(i);
                    let ghost prev = widgets@;
                    widgets.push((key, w));
                    assert(widgets@.drop_last() =~= prev);
                },
                Err(e) => {
                    proof {
                        lemma_wrap_add(
                            *old(widget_counter),
                            decls_size(ws@, i as int),
                            crate::widget::ids_used(ws@[i as int], states@),
                        );
                        lemma_children_error_persists(ws@, states@, i + 1, ws@.len() as int);
                    }
                    return Err(e);
                },
            }
            i = i + 1;
        }
        Ok(WidgetSet { widgets })
    }

    /// The largest identifier among the children's trees, the later one on a
    /// tie; none without children.
    pub fn largest_id(&self) -> (r: Option<WidgetID>)
        ensures
            forall|w: Widget<'a>|
                w.child_widgets == Some(*self) ==> r == children_largest_id(w, child_count(w)),
        decreases self,
    {
        let mut r: Option<WidgetID> = None;
        let mut i: usize = 0;
        while i < self.widgets.len()
            invariant
                0 <= i <= self.widgets@.len(),
                forall|w: Widget<'a>|
                    w.child_widgets == Some(*self) ==> r == children_largest_id(w, i as int),
            decreases self.widgets.len() - i,
        {
            let c = self.widgets[i].1.get_largest_id();
            let ghost prev = r;
            r = match r {
                None => Some(c),
                Some(p) => Some(if c.widget_id() >= p.widget_id() { c } else { p }),
            };
            assert forall|w: Widget<'a>| w.child_widgets == Some(*self) implies r
                == children_largest_id(w, i + 1) by {
                assert(child_count(w) == self.widgets@.len());
                assert(prev == children_largest_id(w, i as int));
            }
            i = i + 1;
        }
        r
    }

    /// For each child, the statement that reaches it from the parent reached by
    /// `widget_stmt`, and the child. The statement is `(widget_stmt).key`, the
    /// child as a field of the parent's value: this library's convention, under
    /// which generated code that binds it (`let widget = (&mut self.widget).0;`)
    /// takes the field itself, so it compiles only where the parent's value
    /// gives access to its children in that form.
    pub fn gen_widget_gets<'b>(&'b self, widget_stmt: &String) -> (r: Vec<(String, &'b Widget<'a>)>)
        ensures
            r@.len() == self.widgets@.len(),
            forall|i: int|
                0 <= i < r@.len() ==> #[trigger] r@[i].0@ == child_stmt(widget_stmt@, self.widgets@[i].0@)
                    && *r@[i].1 == self.widgets@[i].1,
    {
        let mut r: Vec<(String, &'b Widget<'a>)> = Vec::new();
        let mut i: usize = 0;
        while i < self.widgets.len()
            invariant
                0 <= i <= self.widgets@.len(),
                r@.len() == i,
                forall|j: int|
                    0 <= j < i ==> #[trigger] r@[j].0@ == child_stmt(widget_stmt@, self.widgets@[j].0@)
                        && *r@[j].1 == self.widgets@[j].1,
            decreases self.widgets.len() - i,
        {
            let mut s = String::new();
            s.append("(");
            s.append(widget_stmt.as_str());
            s.append(").");
            s.append(self.widgets[i].0.as_str());
            assert(s@ =~= child_stmt(widget_stmt@, self.widgets@[i as int].0@));
            r.push((s, &self.widgets[i].1));
            i = i + 1;
        }
        r
    }
}

} // verus!
