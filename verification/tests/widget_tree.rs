use gui_build::error::BuildError;
use gui_build::ids::IdCounters;
use gui_build::model::{
    ComponentDeclaration, Fluent, StateDeclaration, WidgetBuilder, WidgetDeclaration, WidgetID,
    WidgetOverride,
};
use gui_build::widget::{OverriddenWidgets, Widget};

fn builder(name: &str, children: Option<Vec<WidgetDeclaration>>) -> WidgetBuilder {
    WidgetBuilder {
        name: name.to_string(),
        has_handler: false,
        fluents: vec![],
        statics: vec![],
        vars: vec![],
        widgets: children,
        property_updates: vec![],
    }
}

fn named(name: &str, widget: WidgetBuilder) -> WidgetDeclaration {
    WidgetDeclaration { name: Some(name.to_string()), widget }
}

fn text(name: &str) -> WidgetDeclaration {
    named(name, builder("Text", None))
}

fn combine(o: &WidgetBuilder, b: &WidgetBuilder) -> WidgetBuilder {
    WidgetBuilder {
        name: b.name.clone(),
        has_handler: b.has_handler,
        fluents: o.fluents.clone(),
        statics: o.statics.clone(),
        vars: o.vars.clone(),
        widgets: None,
        property_updates: b.property_updates.clone(),
    }
}

fn iter_component() -> ComponentDeclaration {
    let two = named(
        "Two",
        builder("HStack", Some(vec![text("TwoA"), text("TwoB")])),
    );
    let three = named("Three", builder("Button", Some(vec![text("Four")])));
    let six = named("Six", builder("Button", Some(vec![text("Seven")])));
    let five = named("Five", builder("Button", Some(vec![six])));
    ComponentDeclaration {
        name: "Test".to_string(),
        child: WidgetDeclaration {
            name: None,
            widget: builder("VStack", Some(vec![text("One"), two, three, five])),
        },
        states: vec![],
    }
}

#[test]
fn test_iter() {
    let declaration = iter_component();
    let mut counters = IdCounters { component: 0, widget: 0 };
    let tree = Widget::new(&declaration, &mut counters, &combine).ok().unwrap();
    let mut v: Vec<&str> = Vec::new();
    let mut it = tree.iter();
    while let Some(w) = it.next() {
        if let Some(s) = &w.widget_declaration.name {
            v.push(s.as_str());
        }
    }
    let mut slice = ["One", "Two", "TwoA", "TwoB", "Three", "Four", "Five", "Six", "Seven"];
    slice.sort();
    v.sort();
    assert_eq!(v, slice);
}

#[test]
fn iter_order_visits_last_child_first() {
    let declaration = iter_component();
    let mut counters = IdCounters { component: 0, widget: 0 };
    let tree = Widget::new(&declaration, &mut counters, &combine).ok().unwrap();
    let mut order: Vec<String> = Vec::new();
    let mut it = tree.iter();
    while let Some(w) = it.next() {
        order.push(w.widget_type_name.to_string());
    }
    assert_eq!(order.len(), 10);
    assert_eq!(order[0], "VStack");
    assert_eq!(order[1], "Button");
    assert!(it.next().is_none());
}

#[test]
fn widgets_are_numbered_in_preorder() {
    let declaration = iter_component();
    let mut counters = IdCounters { component: 7, widget: 100 };
    let tree = Widget::new(&declaration, &mut counters, &combine).ok().unwrap();
    assert_eq!(counters.component, 8);
    assert_eq!(counters.widget, 110);
    assert_eq!(tree.id, WidgetID { component_id: 7, widget_id: 100 });
    let children = &tree.child_widgets.as_ref().unwrap().widgets;
    assert_eq!(children[0].1.id.widget_id, 101);
    assert_eq!(children[1].1.id.widget_id, 102);
    assert_eq!(children[2].1.id.widget_id, 105);
    assert_eq!(children[3].1.id.widget_id, 107);
    assert_eq!(children[0].0, "0");
    assert_eq!(children[3].0, "3");
    assert_eq!(tree.get_largest_id(), WidgetID { component_id: 7, widget_id: 109 });
}

#[test]
fn numbering_wraps_past_the_largest_number() {
    let declaration = iter_component();
    let mut counters = IdCounters { component: u32::MAX, widget: u32::MAX - 1 };
    let tree = Widget::new(&declaration, &mut counters, &combine).ok().unwrap();
    assert_eq!(counters.component, 0);
    assert_eq!(counters.widget, 8);
    assert_eq!(tree.id.widget_id, u32::MAX - 1);
    assert_eq!(tree.id.component_id, u32::MAX);
}

#[test]
fn largest_id_of_a_single_widget_numbered_zero_is_the_default() {
    let declaration = ComponentDeclaration {
        name: "C".to_string(),
        child: text("Only"),
        states: vec![],
    };
    let mut counters = IdCounters { component: 5, widget: 0 };
    let tree = Widget::new(&declaration, &mut counters, &combine).ok().unwrap();
    assert_eq!(tree.id, WidgetID { component_id: 5, widget_id: 0 });
    assert_eq!(tree.get_largest_id(), WidgetID::default());
}

#[test]
fn handler_needs_a_name() {
    let mut b = builder("Button", None);
    b.has_handler = true;
    let declaration = ComponentDeclaration {
        name: "C".to_string(),
        child: WidgetDeclaration {
            name: None,
            widget: builder("VStack", Some(vec![WidgetDeclaration { name: None, widget: b }])),
        },
        states: vec![],
    };
    let mut counters = IdCounters { component: 0, widget: 3 };
    let r = Widget::new(&declaration, &mut counters, &combine);
    match r {
        Err(e) => {
            assert!(matches!(e, BuildError::UnnamedHandler));
            assert_eq!(e.message(), "Widgets with handlers must be named.");
        },
        Ok(_) => panic!("a handler without a name is refused"),
    }
    assert_eq!(counters.widget, 4);
}

#[test]
fn handler_is_named_after_its_widget() {
    let mut b = builder("Button", None);
    b.has_handler = true;
    let declaration = ComponentDeclaration {
        name: "C".to_string(),
        child: named("Clicker", b),
        states: vec![],
    };
    let mut counters = IdCounters { component: 0, widget: 0 };
    let tree = Widget::new(&declaration, &mut counters, &combine).ok().unwrap();
    assert_eq!(tree.handler, Some("Clicker".to_string()));
    let mut stream = String::new();
    assert!(tree.gen_handler_structs(&mut stream).is_ok());
    assert_eq!(
        stream,
        "pub(crate) struct Clicker; impl ToHandler for Clicker { type BaseHandler = CompStruct; } "
    );
}

fn state(name: &str, overrides: Vec<WidgetOverride>) -> StateDeclaration {
    StateDeclaration { name: name.to_string(), overrides }
}

fn overriding(name: &str, widget: WidgetBuilder) -> WidgetOverride {
    WidgetOverride { name: name.to_string(), widget }
}

#[test]
fn repeated_override_is_refused() {
    let decl = text("Label");
    let states = vec![state(
        "Big",
        vec![overriding("Label", builder("Text", None)), overriding("Label", builder("Text", None))],
    )];
    match OverriddenWidgets::new("C", &decl, &states, &combine) {
        Err(e) => {
            assert!(matches!(e, BuildError::RepeatedOverride { .. }));
            assert_eq!(e.message(), "Can only override widget Label once in Big.");
        },
        Ok(_) => panic!("two overrides in one state are refused"),
    }
}

#[test]
fn override_with_children_is_refused() {
    let decl = text("Label");
    let states = vec![
        state("Small", vec![]),
        state("Big", vec![overriding("Label", builder("Text", Some(vec![text("Inner")])))]),
    ];
    match OverriddenWidgets::new("C", &decl, &states, &combine) {
        Err(e) => {
            assert!(matches!(e, BuildError::OverrideWithChildren { .. }));
            assert_eq!(e.message(), "Overridden widget Label in Big contains children.");
        },
        Ok(_) => panic!("an override with children is refused"),
    }
}

#[test]
fn override_with_empty_children_is_accepted() {
    let decl = text("Label");
    let states = vec![state("Big", vec![overriding("Label", builder("Text", Some(vec![])))])];
    let v = OverriddenWidgets::new("C", &decl, &states, &combine).ok().unwrap();
    assert_eq!(v.len(), 1);
}

#[test]
fn overrides_follow_the_states() {
    let decl = text("Label");
    let mut ov = builder("Text", None);
    ov.statics = vec![("size".to_string(), "20".to_string())];
    ov.vars = vec![("text".to_string(), "count".to_string())];
    ov.fluents = vec![("text".to_string(), Fluent { vars: vec!["count".to_string()] })];
    let states = vec![
        state("Big", vec![overriding("Label", ov), overriding("Other", builder("Text", None))]),
        state("Small", vec![]),
        state("Tiny", vec![overriding("Label", builder("Text", None))]),
    ];
    let v = OverriddenWidgets::new("Comp", &decl, &states, &combine).ok().unwrap();
    assert_eq!(v.len(), 2);
    assert_eq!(v[0].state_name, "Big");
    assert_eq!(v[1].state_name, "Tiny");
    assert_eq!(v[0].statics, vec![("size".to_string(), "20".to_string())]);
    assert_eq!(v[0].variables, vec![("text".to_string(), "count".to_string())]);
    assert_eq!(v[0].fluents.len(), 1);
    assert_eq!(v[0].fluents[0].ident, "Comp_Label_text");
    assert_eq!(v[0].fluents[0].name, "Comp-Label-text");
    assert_eq!(v[0].state_fluent_overrides.len(), 1);
    assert_eq!(v[0].state_fluent_overrides[0].ident, "Big_Comp_Big_text");
    assert_eq!(v[0].state_fluent_overrides[0].name, "Big-Comp-Big-text");
    assert!(v[1].statics.is_empty());
}

#[test]
fn unnamed_widget_is_not_overridden() {
    let decl = WidgetDeclaration { name: None, widget: builder("Text", None) };
    let states = vec![state("Big", vec![overriding("Text", builder("Text", None))])];
    let v = OverriddenWidgets::new("C", &decl, &states, &combine).ok().unwrap();
    assert!(v.is_empty());
}

#[test]
fn override_error_stops_the_build_after_numbering_the_widget() {
    let declaration = ComponentDeclaration {
        name: "C".to_string(),
        child: named("Root", builder("VStack", Some(vec![text("Label"), text("Next")]))),
        states: vec![state(
            "S",
            vec![overriding("Label", builder("Text", None)), overriding("Label", builder("Text", None))],
        )],
    };
    let mut counters = IdCounters { component: 0, widget: 0 };
    let r = Widget::new(&declaration, &mut counters, &combine);
    assert!(matches!(r, Err(BuildError::RepeatedOverride { .. })));
    assert_eq!(counters.widget, 2);
}

#[test]
fn iter_run_visits_parents_before_descendants_then_stops() {
    let declaration = iter_component();
    let mut counters = IdCounters { component: 0, widget: 0 };
    let tree = Widget::new(&declaration, &mut counters, &combine).ok().unwrap();
    let mut order: Vec<Option<String>> = Vec::new();
    let mut it = tree.iter();
    while let Some(w) = it.next() {
        order.push(w.widget_declaration.name.clone());
    }
    let pos = |n: &str| order.iter().position(|o| o.as_deref() == Some(n)).unwrap();
    assert_eq!(order[0], None);
    assert_eq!(order.len(), 10);
    assert!(pos("Two") < pos("TwoA") && pos("Two") < pos("TwoB"));
    assert!(pos("Three") < pos("Four"));
    assert!(pos("Five") < pos("Six") && pos("Six") < pos("Seven"));
    assert_eq!(pos("Six"), pos("Five") + 1);
    assert!(it.next().is_none());
    assert!(it.next().is_none());
}

fn widget_numbers(tree: &Widget) -> Vec<u32> {
    let mut ids = Vec::new();
    let mut it = tree.iter();
    while let Some(w) = it.next() {
        ids.push(w.id.widget_id);
    }
    ids
}

#[test]
fn trees_sharing_a_widget_counter_have_distinct_numbers() {
    let first = iter_component();
    let second = iter_component();
    let mut widget_counter: u32 = 40;
    let a = Widget::new_inner("A", &first.child, &first.states, 1, &mut widget_counter, &combine)
        .ok()
        .unwrap();
    let b = Widget::new_inner("B", &second.child, &second.states, 2, &mut widget_counter, &combine)
        .ok()
        .unwrap();
    assert_eq!(widget_counter, 60);
    let ids_a = widget_numbers(&a);
    let ids_b = widget_numbers(&b);
    for x in &ids_a {
        assert!(!ids_b.contains(x));
        assert!(a.id.widget_id <= *x);
    }
    for x in &ids_b {
        assert!(b.id.widget_id <= *x);
    }
    assert_eq!(ids_a.iter().filter(|x| **x == a.id.widget_id).count(), 1);
}

#[test]
fn successive_components_take_distinct_numbers() {
    let declaration = iter_component();
    let mut counters = IdCounters { component: u32::MAX - 1, widget: 0 };
    let mut seen: Vec<u32> = Vec::new();
    for _ in 0..4 {
        let tree = Widget::new(&declaration, &mut counters, &combine).ok().unwrap();
        assert!(!seen.contains(&tree.id.component_id));
        seen.push(tree.id.component_id);
    }
    assert_eq!(seen, vec![u32::MAX - 1, u32::MAX, 0, 1]);
}
