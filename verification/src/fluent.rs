//! Naming of fluent texts and the code that keeps them up to date.

use vstd::prelude::*;
use crate::code::{quoted, string_literal};
use crate::model::{
    distinct_keys, find_entry, find_key, lemma_find_key_from_bounds, update_code, ComponentDeclaration, Fluent,
    NormalVariableDeclaration,
};

verus! {

/// A fluent text of a widget, with the identifier of the field that holds its
/// arguments and the name of its message.
#[derive(Clone, Debug, PartialEq, Eq)]
pub struct FluentIdent {
    pub fluent: Fluent,
    pub ident: String,
    pub name: String,
    pub property: String,
    pub property_ident: String,
}

/// The plain values of a `FluentIdent`.
pub struct FluentIdentView {
    pub vars: Seq<String>,
    pub ident: Seq<char>,
    pub name: Seq<char>,
    pub property: Seq<char>,
    pub property_ident: Seq<char>,
}

impl View for FluentIdent {
    type V = FluentIdentView;

    open spec fn view(&self) -> FluentIdentView {
        FluentIdentView {
            vars: self.fluent.vars@,
            ident: self.ident@,
            name: self.name@,
            property: self.property@,
            property_ident: self.property_ident@,
        }
    }
}

/// The name by which a widget's fluents are known: its own name where it has
/// one, else its type's name.
pub open spec fn widget_label(widget_name: Option<Seq<char>>, widget_type_name: Seq<char>) -> Seq<char> {
    match widget_name {
        Some(n) => n,
        None => widget_type_name,
    }
}

/// `a`, `b` and `c` joined by `sep`.
pub open spec fn join3(a: Seq<char>, b: Seq<char>, c: Seq<char>, sep: Seq<char>) -> Seq<char> {
    a + sep + b + sep + c
}

/// `a`, `b`, `c` and `d` joined by `sep`.
pub open spec fn join4(a: Seq<char>, b: Seq<char>, c: Seq<char>, d: Seq<char>, sep: Seq<char>) -> Seq<char> {
    a + sep + b + sep + c + sep + d
}

/// The fluent of `property` in widget `widget` of component `component`: its
/// field is `component_widget_property`, its message `component-widget-property`.
pub open spec fn fluent_ident_spec(
    property: Seq<char>,
    vars: Seq<String>,
    component: Seq<char>,
    widget: Seq<char>,
) -> FluentIdentView {
    FluentIdentView {
        vars: vars,
        ident: join3(component, widget, property, "_"@),
        name: join3(component, widget, property, "-"@),
        property: property,
        property_ident: property,
    }
}

/// The fluent of `property` in widget `widget` of component `component` as state
/// `state` overrides it: `component_widget_state_property`, and
/// `component-widget-state-property` for its message. This naming is this
/// library's choice: the state's name sits between the widget's and the
/// property's.
pub open spec fn state_fluent_ident_spec(
    property: Seq<char>,
    vars: Seq<String>,
    component: Seq<char>,
    widget: Seq<char>,
    state: Seq<char>,
) -> FluentIdentView {
    FluentIdentView {
        vars: vars,
        ident: join4(component, widget, state, property, "_"@),
        name: join4(component, widget, state, property, "-"@),
        property: property,
        property_ident: property,
    }
}

fn join3_text(a: &str, b: &str, c: &str, sep: &str) -> (r: String)
    ensures
        r@ == join3(a@, b@, c@, sep@),
{
    let mut r = a.to_owned();
    r.append(sep);
    r.append(b);
    r.append(sep);
    r.append(c);
    r
}

fn join4_text(a: &str, b: &str, c: &str, d: &str, sep: &str) -> (r: String)
    ensures
        r@ == join4(a@, b@, c@, d@, sep@),
{
    let mut r = join3_text(a, b, c, sep);
    r.append(sep);
    r.append(d);
    r
}

impl FluentIdent {
    /// The fluent text of `property` in the given widget of `component_name`.
    pub fn new(
        property: &str,
        fluent: &Fluent,
        component_name: &str,
        widget_name: Option<&str>,
        widget_type_name: &str,
    ) -> (r: FluentIdent)
        ensures
            r@ == fluent_ident_spec(
                property@,
                fluent.vars@,
                component_name@,
                widget_label(
                    match widget_name {
                        Some(n) => Some(n@),
                        None => None,
                    },
                    widget_type_name@,
                ),
            ),
    {
        let fluent_widget_name = match widget_name {
            Some(n) => n,
            None => widget_type_name,
        };
        FluentIdent {
            fluent: fluent.duplicate(),
            ident: join3_text(component_name, fluent_widget_name, property, "_"),
            name: join3_text(component_name, fluent_widget_name, property, "-"),
            property: property.to_owned(),
            property_ident: property.to_owned(),
        }
    }

    /// The fluent text of `property` in the given widget of `component_name` as
    /// state `state_name` overrides it, named as `state_fluent_ident_spec` says
    /// (a naming of this library's own).
    pub fn new_state_override(
        property: &str,
        fluent: &Fluent,
        component_name: &str,
        widget_name: &str,
        state_name: &str,
    ) -> (r: FluentIdent)
        ensures
            r@ == state_fluent_ident_spec(
                property@,
                fluent.vars@,
                component_name@,
                widget_name@,
                state_name@,
            ),
    {
        FluentIdent {
            fluent: fluent.duplicate(),
            ident: join4_text(component_name, widget_name, state_name, property, "_"),
            name: join4_text(component_name, widget_name, state_name, property, "-"),
            property: property.to_owned(),
            property_ident: property.to_owned(),
        }
    }

    /// A copy with the same plain values.
    pub fn duplicate(&self) -> (r: FluentIdent)
        ensures
            r@ == self@,
    {
        FluentIdent {
            fluent: self.fluent.duplicate(),
            ident: self.ident.clone(),
            name: self.name.clone(),
            property: self.property.clone(),
            property_ident: self.property_ident.clone(),
        }
    }
}

/// The block that, when `var` changed or an update is forced, binds its new
/// value to `value` and runs `body`.
pub open spec fn var_block(var: Seq<char>, body: Seq<char>) -> Seq<char> {
    "if force_update || <CompStruct as Update<"@ + var
        + ">>::is_updated(&self.comp_struct) { let value = <CompStruct as Update<"@ + var
        + ">>::value(&self.comp_struct); "@ + body + "} "@
}

pub fn push_var_block(stream: &mut String, var: &str, body: &str)
    ensures
        final(stream)@ == old(stream)@ + var_block(var@, body@),
{
    stream.append("if force_update || <CompStruct as Update<");
    stream.append(var);
    stream.append(">>::is_updated(&self.comp_struct) { let value = <CompStruct as Update<");
    stream.append(var);
    stream.append(">>::value(&self.comp_struct); ");
    stream.append(body);
    stream.append("} ");
    assert(final(stream)@ =~= old(stream)@ + var_block(var@, body@));
}

/// Marks the fluent's property as changed and hands the new value of `var` to
/// the fluent's arguments.
pub open spec fn fluent_set(f: FluentIdentView, var: Seq<char>) -> Seq<char> {
    f.property + " = true; self."@ + f.ident + ".set("@ + quoted(var) + ", value); "@
}

pub fn push_fluent_set(stream: &mut String, f: &FluentIdent, var: &str)
    ensures
        final(stream)@ == old(stream)@ + fluent_set(f@, var@),
{
    stream.append(f.property.as_str());
    stream.append(" = true; self.");
    stream.append(f.ident.as_str());
    stream.append(".set(");
    let lit = string_literal(var);
    stream.append(lit.as_str());
    stream.append(", value); ");
    assert(final(stream)@ =~= old(stream)@ + fluent_set(f@, var@));
}

/// The update code of each of `props`, one after the other.
pub open spec fn props_update(b: crate::model::WidgetBuilder, props: Seq<String>) -> Seq<char>
    decreases props.len(),
{
    if props.len() == 0 {
        Seq::empty()
    } else {
        props_update(b, props.drop_last()) + update_code(b, props.last()@)
    }
}

/// `fluent_set` of each of `fluents`, one after the other.
pub open spec fn fluent_sets(fluents: Seq<FluentIdent>, var: Seq<char>) -> Seq<char>
    decreases fluents.len(),
{
    if fluents.len() == 0 {
        Seq::empty()
    } else {
        fluent_sets(fluents.drop_last(), var) + fluent_set(fluents.last()@, var)
    }
}

/// The entry of `entries` keyed `key`, empty where there is none.
pub open spec fn entry_or_empty<V>(entries: Seq<(String, Vec<V>)>, key: Seq<char>) -> Seq<V> {
    match find_key(entries, key) {
        Some(i) => entries[i].1@,
        None => Seq::empty(),
    }
}

/// The code that updates what depends on variable `var` of `component`: the
/// root widget's properties bound to it, then the fluents that use it.
pub open spec fn component_var_update(
    component: ComponentDeclaration,
    var: Seq<char>,
    var_to_fluent: Seq<(String, Vec<FluentIdent>)>,
    widget_vars: Seq<(String, Vec<String>)>,
) -> Seq<char> {
    var_block(
        var,
        "let widget = &mut self.widget; "@ + props_update(
            component.child.widget,
            entry_or_empty(widget_vars, var),
        ) + fluent_sets(entry_or_empty(var_to_fluent, var), var),
    )
}

/// `component_var_update` for each of the first `n` variables, one after the
/// other.
pub open spec fn component_vars_update(
    component: ComponentDeclaration,
    vars: Seq<&NormalVariableDeclaration>,
    var_to_fluent: Seq<(String, Vec<FluentIdent>)>,
    widget_vars: Seq<(String, Vec<String>)>,
) -> Seq<char>
    decreases vars.len(),
{
    if vars.len() == 0 {
        Seq::empty()
    } else {
        component_vars_update(component, vars.drop_last(), var_to_fluent, widget_vars)
            + component_var_update(component, vars.last().name@, var_to_fluent, widget_vars)
    }
}

fn var_update_body(
    component: &ComponentDeclaration,
    var: &String,
    var_to_fluent: &Vec<(String, Vec<FluentIdent>)>,
    widget_vars: &Vec<(String, Vec<String>)>,
) -> (r: String)
    ensures
        r@ == "let widget = &mut self.widget; "@ + props_update(
            component.child.widget,
            entry_or_empty(widget_vars@, var@),
        ) + fluent_sets(entry_or_empty(var_to_fluent@, var@), var@),
{
    let mut body = String::new();
    body.append("let widget = &mut self.widget; ");
    let ghost head = body@;
    proof {
        lemma_find_key_from_bounds(widget_vars@, var@, 0);
        lemma_find_key_from_bounds(var_to_fluent@, var@, 0);
    }
    let ghost props = entry_or_empty(widget_vars@, var@);
    match find_entry(widget_vars, var.as_str()) {
        Some(k) => {
            let props_v = &widget_vars[k].1;
            let mut i: usize = 0;
            while i < props_v.len()
                invariant
                    props == props_v@,
                    0 <= i <= props_v@.len(),
                    body@ == head + props_update(component.child.widget, props.take(i as int)),
                decreases props_v.len() - i,
            {
                component.child.widget.on_property_update(props_v[i].as_str(), &mut body);
                assert(props.take(i + 1).drop_last() =~= props.take(i as int));
                i = i + 1;
            }
            assert(props.take(props.len() as int) =~= props);
        },
        None => {
            assert(body@ =~= head + props_update(component.child.widget, props));
        },
    }
    let ghost mid = body@;
    let ghost fluents = entry_or_empty(var_to_fluent@, var@);
    match find_entry(var_to_fluent, var.as_str()) {
        Some(k) => {
            let fs = &var_to_fluent[k].1;
            let mut i: usize = 0;
            while i < fs.len()
                invariant
                    fluents == fs@,
                    0 <= i <= fs@.len(),
                    body@ == mid + fluent_sets(fluents.take(i as int), var@),
                decreases fs.len() - i,
            {
                push_fluent_set(&mut body, &fs[i], var.as_str());
                assert(fluents.take(i + 1).drop_last() =~= fluents.take(i as int));
                i = i + 1;
            }
            assert(fluents.take(fluents.len() as int) =~= fluents);
        },
        None => {
            assert(body@ =~= mid + fluent_sets(fluents, var@));
        },
    }
    body
}

/// The code that, for each variable in turn, updates the root widget's
/// properties bound to it (`widget_vars`) and the fluents that use it
/// (`var_to_fluent`) when it changed. Both maps are lists of pairs keyed by
/// variable name, no name twice.
pub fn gen_var_update(
    component: &ComponentDeclaration,
    normal_variables: &[&NormalVariableDeclaration],
    var_to_fluent: &Vec<(String, Vec<FluentIdent>)>,
    widget_vars: &Vec<(String, Vec<String>)>,
) -> (r: String)
    requires
        distinct_keys(var_to_fluent@),
        distinct_keys(widget_vars@),
    ensures
        r@ == component_vars_update(*component, normal_variables@, var_to_fluent@, widget_vars@),
{
    let mut stream = String::new();
    let mut i: usize = 0;
    while i < normal_variables.len()
        invariant
            0 <= i <= normal_variables@.len(),
            stream@ == component_vars_update(
                *component,
                normal_variables@.take(i as int),
                var_to_fluent@,
                widget_vars@,
            ),
        decreases normal_variables.len() - i,
    {
        let v = normal_variables[i];
        let body = var_update_body(component, &v.name, var_to_fluent, widget_vars);
        push_var_block(&mut stream, v.name.as_str(), body.as_str());
        assert(normal_variables@.take(i + 1).drop_last() =~= normal_variables@.take(i as int));
        i = i + 1;
    }
    assert(normal_variables@.take(normal_variables@.len() as int) =~= normal_variables@);
    stream
}

/// The function through which generated code formats a fluent message with its
/// arguments, from the component's bundle of fluent resources.
pub const BUNDLE_FUNCTION: &'static str = r#"use gui::{FluentBundle, FluentArgs, FluentResource}; use std::borrow::Cow; fn get_bundle_message<'a>(message: &'a str, args: Option<&'a FluentArgs<'_>>) -> Cow<'a, str> { use std::sync::OnceLock; use gui::langid; static BUNDLE: OnceLock<FluentBundle<FluentResource>> = OnceLock::new(); const FTL_STRING: &str = include_str!(concat!(env!("OUT_DIR"), "/Counter.ftl")); let mut errors = vec![]; let bundle = BUNDLE.get_or_init(|| { let mut bundle = FluentBundle::new_concurrent(vec![langid!("en-GB")]); let resource = FluentResource::try_new(FTL_STRING.to_string()).expect("FTL string is valid."); bundle.add_resource(resource).expect("No identifiers are overlapping."); bundle }); let message = bundle.get_message(message).expect("Message exists."); let pattern = message.value().expect("Value exists."); bundle.format_pattern(pattern, args, &mut errors) }"#;

/// The code of `get_bundle_message`, which generated code calls to format a
/// fluent message.
pub fn gen_bundle_function() -> (r: String)
    ensures
        r@ == BUNDLE_FUNCTION@,
{
    BUNDLE_FUNCTION.to_owned()
}

} // verus!
