//! What the generated code holds for every widget and every fluent of a tree.

use vstd::prelude::*;
use crate::code::quoted;
use crate::flat::flat_map;
use crate::fluent::{component_var_update, component_vars_update, entry_or_empty, fluent_sets, FluentIdent};
use crate::model::{
    distinct_keys, lemma_find_key_distinct, StateDeclaration, WidgetBuilder, WidgetDeclaration,
    NormalVariableDeclaration,
};
use crate::widget::{
    built, child, child_count, child_key, child_stmt, fluent_update, fluent_update_of, fluents_update,
    handler_struct_of, own_var_update, preorder, preorder_at, preorder_children, preorder_children_at,
    root_stmt, var_fluent_sets, var_props_update, var_update_of, widget_var_update, Widget,
};

verus! {

/// Whether `small` stands somewhere in `big` as one contiguous piece.
pub open spec fn occurs_in(small: Seq<char>, big: Seq<char>) -> bool {
    exists|k: int|
        0 <= k && k + small.len() <= big.len() && #[trigger] big.subrange(k, k + small.len())
            == small
}

proof fn lemma_occurs_self(s: Seq<char>)
    ensures
        occurs_in(s, s),
{
    let k: int = 0;
    assert(s.subrange(k, k + s.len()) =~= s);
}

proof fn lemma_occurs_left(small: Seq<char>, a: Seq<char>, b: Seq<char>)
    requires
        occurs_in(small, a),
    ensures
        occurs_in(small, a + b),
{
    let k = choose|k: int|
        0 <= k && k + small.len() <= a.len() && #[trigger] a.subrange(k, k + small.len()) == small;
    assert((a + b).subrange(k, k + small.len()) =~= a.subrange(k, k + small.len()));
}

proof fn lemma_occurs_right(small: Seq<char>, a: Seq<char>, b: Seq<char>)
    requires
        occurs_in(small, b),
    ensures
        occurs_in(small, a + b),
{
    let k = choose|k: int|
        0 <= k && k + small.len() <= b.len() && #[trigger] b.subrange(k, k + small.len()) == small;
    let j = a.len() + k;
    assert((a + b).subrange(j, j + small.len()) =~= b.subrange(k, k + small.len()));
}

proof fn lemma_occurs_trans(small: Seq<char>, mid: Seq<char>, big: Seq<char>)
    requires
        occurs_in(small, mid),
        occurs_in(mid, big),
    ensures
        occurs_in(small, big),
{
    let k = choose|k: int|
        0 <= k && k + small.len() <= mid.len() && #[trigger] mid.subrange(k, k + small.len())
            == small;
    let m = choose|m: int|
        0 <= m && m + mid.len() <= big.len() && #[trigger] big.subrange(m, m + mid.len()) == mid;
    assert(big.subrange(m + k, m + k + small.len()) =~= mid.subrange(k, k + small.len()));
}

proof fn lemma_flat_map_occurs<A>(s: Seq<A>, f: spec_fn(A) -> Seq<char>, k: int)
    requires
        0 <= k < s.len(),
    ensures
        occurs_in(f(s[k]), flat_map(s, f)),
    decreases s.len(),
{
    if k == s.len() - 1 {
        lemma_occurs_self(f(s[k]));
        lemma_occurs_right(f(s[k]), flat_map(s.drop_last(), f), f(s.last()));
    } else {
        lemma_flat_map_occurs(s.drop_last(), f, k);
        assert(s.drop_last()[k] == s[k]);
        lemma_occurs_left(f(s[k]), flat_map(s.drop_last(), f), f(s.last()));
    }
}

/// The widgets that `preorder_at` pairs with statements are those of the
/// pre-order, in the same order.
pub proof fn lemma_preorder_at_widgets<'a>(w: Widget<'a>, stmt: Seq<char>)
    ensures
        preorder_at(w, stmt).len() == preorder(w).len(),
        forall|k: int|
            0 <= k < preorder(w).len() ==> #[trigger] preorder_at(w, stmt)[k].0 == preorder(w)[k],
    decreases w, 1int, 0int,
{
    let cc = child_count(w);
    lemma_children_at_widgets(w, stmt, cc);
    let pa = preorder_children_at(w, stmt, cc);
    let pc = preorder_children(w, cc);
    assert(preorder_at(w, stmt) == seq![(w, stmt)] + pa);
    assert(preorder(w) == seq![w] + pc);
    assert forall|k: int| 0 <= k < preorder(w).len() implies #[trigger] preorder_at(w, stmt)[k].0
        == preorder(w)[k] by {
        if k > 0 {
            assert(preorder_at(w, stmt)[k] == pa[k - 1]);
            assert(preorder(w)[k] == pc[k - 1]);
        }
    }
}

proof fn lemma_children_at_widgets<'a>(w: Widget<'a>, stmt: Seq<char>, n: int)
    ensures
        preorder_children_at(w, stmt, n).len() == preorder_children(w, n).len(),
        forall|k: int|
            0 <= k < preorder_children(w, n).len() ==> #[trigger] preorder_children_at(w, stmt, n)[k].0
                == preorder_children(w, n)[k],
    decreases w, 0int, n,
{
    if 0 < n <= child_count(w) {
        let c = child(w, n - 1);
        let cs = child_stmt(stmt, child_key(w, n - 1));
        lemma_children_at_widgets(w, stmt, n - 1);
        lemma_preorder_at_widgets(c, cs);
        let a = preorder_children_at(w, stmt, n - 1);
        let p = preorder_children(w, n - 1);
        assert(preorder_children_at(w, stmt, n) == a + preorder_at(c, cs));
        assert(preorder_children(w, n) == p + preorder(c));
        assert forall|k: int| 0 <= k < preorder_children(w, n).len() implies #[trigger] preorder_children_at(
            w,
            stmt,
            n,
        )[k].0 == preorder_children(w, n)[k] by {
            if k < a.len() {
                assert(preorder_children_at(w, stmt, n)[k] == a[k]);
                assert(preorder_children(w, n)[k] == p[k]);
            } else {
                assert(preorder_children_at(w, stmt, n)[k] == preorder_at(c, cs)[k - a.len()]);
                assert(preorder_children(w, n)[k] == preorder(c)[k - p.len()]);
            }
        }
    }
}

/// `gen_handler_structs` declares the handler type of every widget of the tree
/// that has a handler, whether or not the widget has children: what it appends
/// (`flat_map(preorder(w), handler_struct_of())`, by its `ensures`) holds
/// `pub(crate) struct h; impl ToHandler for h { type BaseHandler = CompStruct; } `
/// for each such handler `h`.
pub proof fn lemma_every_handler_declared(w: Widget, k: int)
    requires
        0 <= k < preorder(w).len(),
        preorder(w)[k].handler is Some,
    ensures
        occurs_in(
            "pub(crate) struct "@ + preorder(w)[k].handler->0@ + "; impl ToHandler for "@
                + preorder(w)[k].handler->0@ + " { type BaseHandler = CompStruct; } "@,
            flat_map(preorder(w), handler_struct_of()),
        ),
{
    lemma_flat_map_occurs(preorder(w), handler_struct_of(), k);
}

/// A built widget has exactly one fluent for each fluent property of its
/// declaration, in order. The fluent of property `p` keeps `p`'s variables and
/// is identified, in component `component`, as `component_label_p` and named
/// `component-label-p`, where `label` is the widget's name, or its type's name
/// when it has none.
pub proof fn lemma_built_fluents<'a, F: Fn(&WidgetBuilder, &WidgetBuilder) -> WidgetBuilder>(
    w: Widget<'a>,
    d: WidgetDeclaration,
    component: Seq<char>,
    states: Seq<StateDeclaration>,
    cid: u32,
    start: u32,
    combine: F,
)
    requires
        built(w, d, component, states, cid, start, combine),
    ensures
        w.fluents@.len() == d.widget.fluents@.len(),
        forall|i: int|
            0 <= i < w.fluents@.len() ==> ({
                let f = #[trigger] w.fluents@[i];
                let p = d.widget.fluents@[i];
                let label = match d.name {
                    Some(n) => n@,
                    None => d.widget.name@,
                };
                &&& f.property@ == p.0@
                &&& f.property_ident@ == p.0@
                &&& f.fluent.vars@ == p.1.vars@
                &&& f.ident@ == component + "_"@ + label + "_"@ + p.0@
                &&& f.name@ == component + "-"@ + label + "-"@ + p.0@
            }),
{
    let views = w.fluents@.map_values(|f: FluentIdent| f@);
    assert(views.len() == w.fluents@.len());
    assert forall|i: int| 0 <= i < w.fluents@.len() implies views[i] == (#[trigger] w.fluents@[i])@ by {
    }
}

proof fn lemma_var_fluent_sets_occurs(fs: Seq<FluentIdent>, var: Seq<char>, i: int, j: int)
    requires
        0 <= i < fs.len(),
        0 <= j < fs[i].fluent.vars@.len(),
        fs[i].fluent.vars@[j]@ == var,
    ensures
        occurs_in(
            fs[i].property@ + " = true; self."@ + fs[i].ident@ + ".set("@ + quoted(var)
                + ", value); "@,
            var_fluent_sets(fs, var),
        ),
    decreases fs.len(),
{
    let t = fs[i].property@ + " = true; self."@ + fs[i].ident@ + ".set("@ + quoted(var)
        + ", value); "@;
    let prev = var_fluent_sets(fs.drop_last(), var);
    if i == fs.len() - 1 {
        assert(fs.last().fluent.vars@[j]@ == var);
        assert(fs.last().fluent.refers_to(var));
        assert(var_fluent_sets(fs, var) == prev + t);
        lemma_occurs_self(t);
        lemma_occurs_right(t, prev, t);
    } else {
        assert(fs.drop_last()[i] == fs[i]);
        lemma_var_fluent_sets_occurs(fs.drop_last(), var, i, j);
        let last = if fs.last().fluent.refers_to(var) {
            crate::fluent::fluent_set(fs.last()@, var)
        } else {
            Seq::empty()
        };
        assert(var_fluent_sets(fs, var) == prev + last);
        lemma_occurs_left(t, prev, last);
    }
}

/// When variable `var` changed, the code that `Widget::gen_var_update` writes
/// (`widget_var_update`, by its `ensures`) sets every fluent of every widget of
/// the tree among whose variables `var` stands, at whatever position: it marks
/// the fluent's property as changed and hands the fluent the new value under
/// `var`'s name.
pub proof fn lemma_var_update_sets_every_referring_fluent(
    w: Widget,
    var: Seq<char>,
    k: int,
    i: int,
    j: int,
)
    requires
        0 <= k < preorder(w).len(),
        0 <= i < preorder(w)[k].fluents@.len(),
        0 <= j < preorder(w)[k].fluents@[i].fluent.vars@.len(),
        preorder(w)[k].fluents@[i].fluent.vars@[j]@ == var,
    ensures
        occurs_in(
            preorder(w)[k].fluents@[i].property@ + " = true; self."@
                + preorder(w)[k].fluents@[i].ident@ + ".set("@ + quoted(var) + ", value); "@,
            widget_var_update(w, var),
        ),
{
    let x = preorder(w)[k];
    let t = x.fluents@[i].property@ + " = true; self."@ + x.fluents@[i].ident@ + ".set("@
        + quoted(var) + ", value); "@;
    lemma_preorder_at_widgets(w, root_stmt());
    let pa = preorder_at(w, root_stmt());
    let p = pa[k];
    assert(p.0 == x);
    lemma_var_fluent_sets_occurs(x.fluents@, var, i, j);
    let upd = var_props_update(x.widget_declaration.widget, x.variables@, var);
    let head = if upd.len() > 0 {
        "let widget = "@ + p.1 + "; "@ + upd
    } else {
        Seq::empty()
    };
    assert(own_var_update(x, var, p.1) == head + var_fluent_sets(x.fluents@, var));
    lemma_occurs_right(t, head, var_fluent_sets(x.fluents@, var));
    assert(var_update_of(var)(p) == own_var_update(x, var, p.1));
    lemma_flat_map_occurs(pa, var_update_of(var), k);
    let body = flat_map(pa, var_update_of(var));
    lemma_occurs_trans(t, own_var_update(x, var, p.1), body);
    let pre = "if force_update || <CompStruct as Update<"@ + var
        + ">>::is_updated(&self.comp_struct) { let value = <CompStruct as Update<"@ + var
        + ">>::value(&self.comp_struct); "@;
    assert(widget_var_update(w, var) == pre + body + "} "@);
    lemma_occurs_right(t, pre, body);
    lemma_occurs_left(t, pre + body, "} "@);
}

/// The guard of the code that re-renders fluent `f`: it tests the fluent's
/// property for a change exactly when the fluent has variables.
proof fn lemma_fluent_update_guard(f: FluentIdent, b: WidgetBuilder, stmt: Seq<char>)
    ensures
        f.fluent.vars@.len() > 0 ==> occurs_in(
            "if force_update"@ + " || "@ + f.property_ident@ + " { let value = get_bundle_message("@
                + quoted(f.name@) + ", "@ + "Some(&self."@ + f.ident@ + ")"@,
            fluent_update(f, b, stmt),
        ),
        f.fluent.vars@.len() == 0 ==> occurs_in(
            "if force_update"@ + " { let value = get_bundle_message("@ + quoted(f.name@) + ", "@
                + "None"@,
            fluent_update(f, b, stmt),
        ),
{
    let rest = "); let widget = "@ + stmt + "; "@ + crate::model::update_code(b, f.property@)
        + "} "@;
    if f.fluent.vars@.len() > 0 {
        let t = "if force_update"@ + " || "@ + f.property_ident@
            + " { let value = get_bundle_message("@ + quoted(f.name@) + ", "@ + "Some(&self."@
            + f.ident@ + ")"@;
        assert(fluent_update(f, b, stmt) =~= t + rest);
        lemma_occurs_self(t);
        lemma_occurs_left(t, t, rest);
    } else {
        let t = "if force_update"@ + " { let value = get_bundle_message("@ + quoted(f.name@)
            + ", "@ + "None"@;
        assert(fluent_update(f, b, stmt) =~= t + rest);
        lemma_occurs_self(t);
        lemma_occurs_left(t, t, rest);
    }
}

proof fn lemma_fluents_update_occurs(fs: Seq<FluentIdent>, b: WidgetBuilder, stmt: Seq<char>, i: int)
    requires
        0 <= i < fs.len(),
    ensures
        occurs_in(fluent_update(fs[i], b, stmt), fluents_update(fs, b, stmt)),
    decreases fs.len(),
{
    let t = fluent_update(fs[i], b, stmt);
    let prev = fluents_update(fs.drop_last(), b, stmt);
    if i == fs.len() - 1 {
        lemma_occurs_self(t);
        lemma_occurs_right(t, prev, t);
    } else {
        assert(fs.drop_last()[i] == fs[i]);
        lemma_fluents_update_occurs(fs.drop_last(), b, stmt, i);
        lemma_occurs_left(t, prev, fluent_update(fs.last(), b, stmt));
    }
}

/// In the code that `Widget::gen_fluent_update` appends (by its `ensures`),
/// every fluent of every widget of the tree is re-rendered under a guard that
/// tests the fluent's property for a change exactly when the fluent has
/// variables, however many: `if force_update || property { .. Some(&self.ident)`
/// with variables, `if force_update { .. None` without.
pub proof fn lemma_fluent_update_guards(w: Widget, stmt: Seq<char>, k: int, i: int)
    requires
        0 <= k < preorder(w).len(),
        0 <= i < preorder(w)[k].fluents@.len(),
    ensures
        ({
            let f = preorder(w)[k].fluents@[i];
            f.fluent.vars@.len() > 0 ==> occurs_in(
                "if force_update"@ + " || "@ + f.property_ident@
                    + " { let value = get_bundle_message("@ + quoted(f.name@) + ", "@
                    + "Some(&self."@ + f.ident@ + ")"@,
                flat_map(preorder_at(w, stmt), fluent_update_of()),
            )
        }),
        ({
            let f = preorder(w)[k].fluents@[i];
            f.fluent.vars@.len() == 0 ==> occurs_in(
                "if force_update"@ + " { let value = get_bundle_message("@ + quoted(f.name@)
                    + ", "@ + "None"@,
                flat_map(preorder_at(w, stmt), fluent_update_of()),
            )
        }),
{
    let x = preorder(w)[k];
    let f = x.fluents@[i];
    let b = x.widget_declaration.widget;
    lemma_preorder_at_widgets(w, stmt);
    let pa = preorder_at(w, stmt);
    let p = pa[k];
    assert(p.0 == x);
    lemma_fluent_update_guard(f, b, p.1);
    lemma_fluents_update_occurs(x.fluents@, b, p.1, i);
    assert(fluent_update_of()(p) == fluents_update(x.fluents@, b, p.1));
    lemma_flat_map_occurs(pa, fluent_update_of(), k);
    let all = flat_map(pa, fluent_update_of());
    let mine = fluents_update(x.fluents@, b, p.1);
    if f.fluent.vars@.len() > 0 {
        let t = "if force_update"@ + " || "@ + f.property_ident@
            + " { let value = get_bundle_message("@ + quoted(f.name@) + ", "@ + "Some(&self."@
            + f.ident@ + ")"@;
        lemma_occurs_trans(t, fluent_update(f, b, p.1), mine);
        lemma_occurs_trans(t, mine, all);
    } else {
        let t = "if force_update"@ + " { let value = get_bundle_message("@ + quoted(f.name@)
            + ", "@ + "None"@;
        lemma_occurs_trans(t, fluent_update(f, b, p.1), mine);
        lemma_occurs_trans(t, mine, all);
    }
}

proof fn lemma_fluent_sets_occurs(fs: Seq<FluentIdent>, var: Seq<char>, i: int)
    requires
        0 <= i < fs.len(),
    ensures
        occurs_in(
            fs[i].property@ + " = true; self."@ + fs[i].ident@ + ".set("@ + quoted(var)
                + ", value); "@,
            fluent_sets(fs, var),
        ),
    decreases fs.len(),
{
    let t = fs[i].property@ + " = true; self."@ + fs[i].ident@ + ".set("@ + quoted(var)
        + ", value); "@;
    let prev = fluent_sets(fs.drop_last(), var);
    if i == fs.len() - 1 {
        assert(fluent_sets(fs, var) == prev + t);
        lemma_occurs_self(t);
        lemma_occurs_right(t, prev, t);
    } else {
        assert(fs.drop_last()[i] == fs[i]);
        lemma_fluent_sets_occurs(fs.drop_last(), var, i);
        lemma_occurs_left(t, prev, crate::fluent::fluent_set(fs.last()@, var));
    }
}

proof fn lemma_vars_update_occurs(
    t: Seq<char>,
    component: crate::model::ComponentDeclaration,
    vars: Seq<&NormalVariableDeclaration>,
    var_to_fluent: Seq<(String, Vec<FluentIdent>)>,
    widget_vars: Seq<(String, Vec<String>)>,
    v: int,
)
    requires
        0 <= v < vars.len(),
        occurs_in(t, component_var_update(component, vars[v].name@, var_to_fluent, widget_vars)),
    ensures
        occurs_in(t, component_vars_update(component, vars, var_to_fluent, widget_vars)),
    decreases vars.len(),
{
    let prev = component_vars_update(component, vars.drop_last(), var_to_fluent, widget_vars);
    let last = component_var_update(component, vars.last().name@, var_to_fluent, widget_vars);
    if v == vars.len() - 1 {
        lemma_occurs_right(t, prev, last);
    } else {
        assert(vars.drop_last()[v] == vars[v]);
        lemma_vars_update_occurs(t, component, vars.drop_last(), var_to_fluent, widget_vars, v);
        lemma_occurs_left(t, prev, last);
    }
}

/// The code that `fluent::gen_var_update` writes (`component_vars_update`, by its
/// `ensures`) sets, for each variable, every fluent that `var_to_fluent` lists
/// for it: each marks its property as changed and gets the variable's new
/// value under the variable's name.
pub proof fn lemma_component_update_sets_every_listed_fluent(
    component: crate::model::ComponentDeclaration,
    vars: Seq<&NormalVariableDeclaration>,
    var_to_fluent: Seq<(String, Vec<FluentIdent>)>,
    widget_vars: Seq<(String, Vec<String>)>,
    v: int,
    e: int,
    i: int,
)
    requires
        distinct_keys(var_to_fluent),
        0 <= v < vars.len(),
        0 <= e < var_to_fluent.len(),
        var_to_fluent[e].0@ == vars[v].name@,
        0 <= i < var_to_fluent[e].1@.len(),
    ensures
        occurs_in(
            var_to_fluent[e].1@[i].property@ + " = true; self."@ + var_to_fluent[e].1@[i].ident@
                + ".set("@ + quoted(vars[v].name@) + ", value); "@,
            component_vars_update(component, vars, var_to_fluent, widget_vars),
        ),
{
    let var = vars[v].name@;
    let fs = var_to_fluent[e].1@;
    let t = fs[i].property@ + " = true; self."@ + fs[i].ident@ + ".set("@ + quoted(var)
        + ", value); "@;
    lemma_find_key_distinct(var_to_fluent, var, e);
    assert(entry_or_empty(var_to_fluent, var) == fs);
    lemma_fluent_sets_occurs(fs, var, i);
    let head = "let widget = &mut self.widget; "@ + crate::fluent::props_update(
        component.child.widget,
        entry_or_empty(widget_vars, var),
    );
    lemma_occurs_right(t, head, fluent_sets(fs, var));
    let body = head + fluent_sets(fs, var);
    let pre = "if force_update || <CompStruct as Update<"@ + var
        + ">>::is_updated(&self.comp_struct) { let value = <CompStruct as Update<"@ + var
        + ">>::value(&self.comp_struct); "@;
    assert(component_var_update(component, var, var_to_fluent, widget_vars) == pre + body + "} "@);
    lemma_occurs_right(t, pre, body);
    lemma_occurs_left(t, pre + body, "} "@);
    lemma_vars_update_occurs(t, component, vars, var_to_fluent, widget_vars, v);
}

proof fn lemma_flat_map_all_empty<A>(s: Seq<A>, f: spec_fn(A) -> Seq<char>)
    requires
        forall|k: int| 0 <= k < s.len() ==> (#[trigger] f(s[k])).len() == 0,
    ensures
        flat_map(s, f).len() == 0,
    decreases s.len(),
{
    if s.len() > 0 {
        assert forall|k: int| 0 <= k < s.drop_last().len() implies (#[trigger] f(
            s.drop_last()[k],
        )).len() == 0 by {
            assert(s.drop_last()[k] == s[k]);
        }
        lemma_flat_map_all_empty(s.drop_last(), f);
        assert(f(s[s.len() - 1]).len() == 0);
    }
}

proof fn lemma_var_props_update_unbound(b: WidgetBuilder, vars: Seq<(String, String)>, var: Seq<char>)
    requires
        forall|i: int| 0 <= i < vars.len() ==> (#[trigger] vars[i]).1@ != var,
    ensures
        var_props_update(b, vars, var).len() == 0,
    decreases vars.len(),
{
    if vars.len() > 0 {
        assert forall|i: int| 0 <= i < vars.drop_last().len() implies (#[trigger] vars.drop_last()[i]).1@
            != var by {
            assert(vars.drop_last()[i] == vars[i]);
        }
        lemma_var_props_update_unbound(b, vars.drop_last(), var);
        assert(vars[vars.len() - 1].1@ != var);
    }
}

proof fn lemma_var_fluent_sets_unused(fs: Seq<FluentIdent>, var: Seq<char>)
    requires
        forall|i: int, j: int|
            0 <= i < fs.len() && 0 <= j < fs[i].fluent.vars@.len() ==> (#[trigger] fs[i].fluent.vars@[j])@
                != var,
    ensures
        var_fluent_sets(fs, var).len() == 0,
    decreases fs.len(),
{
    if fs.len() > 0 {
        let last = fs[fs.len() - 1];
        assert forall|i: int, j: int|
            0 <= i < fs.drop_last().len() && 0 <= j < fs.drop_last()[i].fluent.vars@.len() implies (
            #[trigger] fs.drop_last()[i].fluent.vars@[j])@ != var by {
            assert(fs.drop_last()[i] == fs[i]);
            assert(fs[i].fluent.vars@[j]@ != var);
        }
        lemma_var_fluent_sets_unused(fs.drop_last(), var);
        if last.fluent.refers_to(var) {
            let j = choose|j: int| 0 <= j < last.fluent.vars@.len() && #[trigger] last.fluent.vars@[j]@ == var;
            assert(fs[fs.len() - 1].fluent.vars@[j]@ != var);
        }
    }
}

/// Where no widget of the tree binds a property to variable `var` and no fluent
/// of it refers to `var`, the block that `Widget::gen_var_update` writes for
/// `var` (`widget_var_update`, by its `ensures`) does nothing but read the new
/// value: no widget is reached and no fluent is set.
pub proof fn lemma_var_update_empty_when_unused(w: Widget, var: Seq<char>)
    requires
        forall|k: int, i: int|
            0 <= k < preorder(w).len() && 0 <= i < preorder(w)[k].variables@.len() ==> (
            #[trigger] preorder(w)[k].variables@[i]).1@ != var,
        forall|k: int, i: int, j: int|
            0 <= k < preorder(w).len() && 0 <= i < preorder(w)[k].fluents@.len() && 0 <= j
                < preorder(w)[k].fluents@[i].fluent.vars@.len() ==> (
            #[trigger] preorder(w)[k].fluents@[i].fluent.vars@[j])@ != var,
    ensures
        widget_var_update(w, var) == "if force_update || <CompStruct as Update<"@ + var
            + ">>::is_updated(&self.comp_struct) { let value = <CompStruct as Update<"@ + var
            + ">>::value(&self.comp_struct); "@ + "} "@,
{
    lemma_preorder_at_widgets(w, root_stmt());
    let pa = preorder_at(w, root_stmt());
    assert forall|k: int| 0 <= k < pa.len() implies (#[trigger] var_update_of(var)(pa[k])).len()
        == 0 by {
        let x = preorder(w)[k];
        assert(pa[k].0 == x);
        assert forall|i: int| 0 <= i < x.variables@.len() implies (#[trigger] x.variables@[i]).1@
            != var by {
            assert(preorder(w)[k].variables@[i].1@ != var);
        }
        lemma_var_props_update_unbound(x.widget_declaration.widget, x.variables@, var);
        assert forall|i: int, j: int|
            0 <= i < x.fluents@.len() && 0 <= j < x.fluents@[i].fluent.vars@.len() implies (
            #[trigger] x.fluents@[i].fluent.vars@[j])@ != var by {
            assert(preorder(w)[k].fluents@[i].fluent.vars@[j]@ != var);
        }
        lemma_var_fluent_sets_unused(x.fluents@, var);
        assert(var_update_of(var)(pa[k]) == own_var_update(x, var, pa[k].1));
    }
    lemma_flat_map_all_empty(pa, var_update_of(var));
    assert(flat_map(pa, var_update_of(var)) =~= Seq::<char>::empty());
    let pre = "if force_update || <CompStruct as Update<"@ + var
        + ">>::is_updated(&self.comp_struct) { let value = <CompStruct as Update<"@ + var
        + ">>::value(&self.comp_struct); "@;
    assert(pre + Seq::<char>::empty() =~= pre);
}

} // verus!
