use gui_build::code::{decimal_text, into_token_stream, string_literal};
use gui_build::fluent::{gen_bundle_function, gen_var_update, FluentIdent};
use gui_build::ids::IdCounters;
use gui_build::model::{
    ComponentDeclaration, Fluent, NormalVariableDeclaration, WidgetBuilder, WidgetDeclaration,
    WidgetID,
};
use gui_build::widget::Widget;

fn builder(name: &str, children: Option<Vec<WidgetDeclaration>>) -> WidgetBuilder {
    WidgetBuilder {
        name: name.to_string(),
        has_handler: false,
        fluents: vec![],
        statics: vec![],
        vars: vec![],
        widgets: children,
        property_updates: vec![],
    }
}

fn combine(o: &WidgetBuilder, b: &WidgetBuilder) -> WidgetBuilder {
    WidgetBuilder {
        name: b.name.clone(),
        has_handler: b.has_handler,
        fluents: o.fluents.clone(),
        statics: o.statics.clone(),
        vars: o.vars.clone(),
        widgets: None,
        property_updates: b.property_updates.clone(),
    }
}

fn pair(a: &str, b: &str) -> (String, String) {
    (a.to_string(), b.to_string())
}

/// A label bound to `count`, with a fluent title, inside a column.
fn component() -> ComponentDeclaration {
    let mut label = builder("Text", None);
    label.vars = vec![pair("text", "count"), pair("color", "theme")];
    label.statics = vec![pair("size", "12")];
    label.fluents = vec![("title".to_string(), Fluent { vars: vec!["count".to_string()] })];
    label.property_updates = vec![
        pair("text", "widget.set_text(value);"),
        pair("size", "widget.set_size(value);"),
        pair("title", "widget.set_title(value);"),
    ];
    let mut column = builder("VStack", Some(vec![WidgetDeclaration {
        name: Some("Label".to_string()),
        widget: label,
    }]));
    column.fluents = vec![("header".to_string(), Fluent { vars: vec![] })];
    ComponentDeclaration {
        name: "Counter".to_string(),
        child: WidgetDeclaration { name: None, widget: column },
        states: vec![],
    }
}

#[test]
fn fluent_ident_names() {
    let f = Fluent { vars: vec!["a".to_string()] };
    let named = FluentIdent::new("text", &f, "Comp", Some("Label"), "Text");
    assert_eq!(named.ident, "Comp_Label_text");
    assert_eq!(named.name, "Comp-Label-text");
    assert_eq!(named.property, "text");
    assert_eq!(named.property_ident, "text");
    assert_eq!(named.fluent.vars, vec!["a".to_string()]);
    let unnamed = FluentIdent::new("text", &f, "Comp", None, "Text");
    assert_eq!(unnamed.ident, "Comp_Text_text");
    assert_eq!(unnamed.name, "Comp-Text-text");
    let state = FluentIdent::new_state_override("text", &f, "Comp", "Label", "Big");
    assert_eq!(state.ident, "Comp_Label_Big_text");
    assert_eq!(state.name, "Comp-Label-Big-text");
}

#[test]
fn string_literals_are_escaped() {
    assert_eq!(string_literal("a-b"), "\"a-b\"");
    assert_eq!(string_literal("say \"hi\" \\ o"), "\"say \\\"hi\\\" \\\\ o\"");
    assert_eq!(string_literal(""), "\"\"");
}

#[test]
fn control_characters_are_escaped() {
    assert_eq!(string_literal("a\rb"), "\"a\\rb\"");
    assert_eq!(string_literal("\t\n"), "\"\\t\\n\"");
    assert_eq!(string_literal("\u{0}7"), "\"\\x007\"");
    assert_eq!(string_literal("\u{0}a"), "\"\\0a\"");
    assert_eq!(string_literal("\u{0}"), "\"\\0\"");
    assert_eq!(string_literal("\u{1b}[\u{7f}"), "\"\\u{1b}[\\u{7f}\"");
    assert_eq!(string_literal("it's"), "\"it's\"");
    assert!(into_token_stream(&string_literal("a\rb")).is_ok());
}

#[test]
fn ascii_literals_are_written_as_proc_macro2_writes_them() {
    let samples = [
        "count",
        "say \"hi\"",
        "back\\slash",
        "tab\there",
        "cr\r\nlf",
        "nul\u{0}0 and \u{0}x",
        "bell\u{7}del\u{7f}esc\u{1b}",
        "quote ' here",
    ];
    for s in samples {
        assert_eq!(string_literal(s), proc_macro2::Literal::string(s).to_string());
    }
    let all: String = (0u8..128).map(char::from).collect();
    assert_eq!(string_literal(&all), proc_macro2::Literal::string(&all).to_string());
}

#[test]
fn decimal_numbers() {
    assert_eq!(decimal_text(0), "0");
    assert_eq!(decimal_text(7), "7");
    assert_eq!(decimal_text(10), "10");
    assert_eq!(decimal_text(4096), "4096");
}

#[test]
fn widget_var_update_code() {
    let declaration = component();
    let mut counters = IdCounters { component: 0, widget: 0 };
    let tree = Widget::new(&declaration, &mut counters, &combine).ok().unwrap();
    let var = NormalVariableDeclaration { name: "count".to_string() };
    let code = tree.gen_var_update(&var);
    assert_eq!(
        code,
        "if force_update || <CompStruct as Update<count>>::is_updated(&self.comp_struct) { \
         let value = <CompStruct as Update<count>>::value(&self.comp_struct); \
         let widget = (&mut self.widget).0; widget.set_text(value);\
         title = true; self.Counter_Label_title.set(\"count\", value); } "
    );
    assert!(into_token_stream(&code).is_ok());
    let other = NormalVariableDeclaration { name: "theme".to_string() };
    assert_eq!(
        tree.gen_var_update(&other),
        "if force_update || <CompStruct as Update<theme>>::is_updated(&self.comp_struct) { \
         let value = <CompStruct as Update<theme>>::value(&self.comp_struct); } "
    );
}

#[test]
fn fluent_update_code() {
    let declaration = component();
    let mut counters = IdCounters { component: 0, widget: 0 };
    let tree = Widget::new(&declaration, &mut counters, &combine).ok().unwrap();
    let mut stream = String::new();
    tree.gen_fluent_update(None, &mut stream);
    assert_eq!(
        stream,
        "if force_update { let value = get_bundle_message(\"Counter-VStack-header\", None); \
         let widget = &mut self.widget; } \
         if force_update || title { let value = get_bundle_message(\"Counter-Label-title\", \
         Some(&self.Counter_Label_title)); let widget = (&mut self.widget).0; \
         widget.set_title(value);} "
    );
    assert!(into_token_stream(&stream).is_ok());
}

#[test]
fn statics_code() {
    let declaration = component();
    let mut counters = IdCounters { component: 0, widget: 0 };
    let tree = Widget::new(&declaration, &mut counters, &combine).ok().unwrap();
    let mut stream = String::new();
    let stmt = "&mut self.root".to_string();
    tree.gen_statics(Some(&stmt), &mut stream);
    assert_eq!(
        stream,
        "let widget = (&mut self.root).0; let value = 12; widget.set_size(value);"
    );
}

#[test]
fn widget_ids_and_parents() {
    let declaration = component();
    let mut counters = IdCounters { component: 3, widget: 9 };
    let tree = Widget::new(&declaration, &mut counters, &combine).ok().unwrap();
    let mut acc: Vec<(WidgetID, String)> = Vec::new();
    tree.gen_widget_id_to_widget(None, &mut acc);
    assert_eq!(
        acc,
        vec![
            (WidgetID { component_id: 3, widget_id: 10 }, "(self.widget).0".to_string()),
            (WidgetID { component_id: 3, widget_id: 9 }, "self.widget".to_string()),
        ]
    );
    let mut parents: Vec<(WidgetID, Vec<WidgetID>)> = Vec::new();
    tree.get_parent_ids(&mut parents);
    assert_eq!(
        parents,
        vec![(
            WidgetID { component_id: 3, widget_id: 9 },
            vec![WidgetID { component_id: 3, widget_id: 10 }]
        )]
    );
}

#[test]
fn fluents_of_the_tree() {
    let declaration = component();
    let mut counters = IdCounters { component: 0, widget: 0 };
    let tree = Widget::new(&declaration, &mut counters, &combine).ok().unwrap();
    assert!(tree.contains_fluents());
    let mut all: Vec<FluentIdent> = Vec::new();
    tree.push_fluents(&mut all);
    let names: Vec<&str> = all.iter().map(|f| f.name.as_str()).collect();
    assert_eq!(names, vec!["Counter-VStack-header", "Counter-Label-title"]);
    let bare = ComponentDeclaration {
        name: "C".to_string(),
        child: WidgetDeclaration { name: None, widget: builder("Text", None) },
        states: vec![],
    };
    let tree = Widget::new(&bare, &mut counters, &combine).ok().unwrap();
    assert!(!tree.contains_fluents());
    let mut none: Vec<FluentIdent> = Vec::new();
    tree.push_fluents(&mut none);
    assert!(none.is_empty());
}

#[test]
fn component_var_update_code() {
    let declaration = component();
    let mut root = builder("Text", None);
    root.property_updates = vec![pair("text", "widget.set_text(value);")];
    let declaration = ComponentDeclaration {
        name: declaration.name,
        child: WidgetDeclaration { name: None, widget: root },
        states: vec![],
    };
    let count = NormalVariableDeclaration { name: "count".to_string() };
    let other = NormalVariableDeclaration { name: "other".to_string() };
    let f = Fluent { vars: vec!["count".to_string()] };
    let fluent = FluentIdent::new("title", &f, "Counter", None, "Text");
    let var_to_fluent = vec![("count".to_string(), vec![fluent])];
    let widget_vars = vec![("count".to_string(), vec!["text".to_string()])];
    let code = gen_var_update(&declaration, &[&count, &other], &var_to_fluent, &widget_vars);
    assert_eq!(
        code,
        "if force_update || <CompStruct as Update<count>>::is_updated(&self.comp_struct) { \
         let value = <CompStruct as Update<count>>::value(&self.comp_struct); \
         let widget = &mut self.widget; widget.set_text(value);\
         title = true; self.Counter_Text_title.set(\"count\", value); } \
         if force_update || <CompStruct as Update<other>>::is_updated(&self.comp_struct) { \
         let value = <CompStruct as Update<other>>::value(&self.comp_struct); \
         let widget = &mut self.widget; } "
    );
    assert!(into_token_stream(&code).is_ok());
}

#[test]
fn bundle_function_code() {
    let code = gen_bundle_function();
    assert!(code.starts_with("use gui::{FluentBundle, FluentArgs, FluentResource};"));
    assert!(code.contains("fn get_bundle_message<'a>"));
    assert!(into_token_stream(&code).is_ok());
}

#[test]
fn unbalanced_code_does_not_lex() {
    assert!(into_token_stream("fn f( {").is_err());
    assert!(into_token_stream("let x = 1;").is_ok());
}

#[test]
fn var_update_marks_the_fluents_property() {
    let declaration = component();
    let mut counters = IdCounters { component: 0, widget: 0 };
    let mut tree = Widget::new(&declaration, &mut counters, &combine).ok().unwrap();
    tree.child_widgets.as_mut().unwrap().widgets[0].1.fluents[0].property_ident =
        "title_changed".to_string();
    let var = NormalVariableDeclaration { name: "count".to_string() };
    let code = tree.gen_var_update(&var);
    assert!(code.contains("title = true; self.Counter_Label_title.set(\"count\", value); "));
    assert!(!code.contains("title_changed"));
}

#[test]
fn fluent_update_tests_the_property_ident() {
    let declaration = component();
    let mut counters = IdCounters { component: 0, widget: 0 };
    let mut tree = Widget::new(&declaration, &mut counters, &combine).ok().unwrap();
    tree.child_widgets.as_mut().unwrap().widgets[0].1.fluents[0].property_ident =
        "title_changed".to_string();
    let mut stream = String::new();
    tree.gen_fluent_update(None, &mut stream);
    assert!(stream.contains("if force_update || title_changed { "));
    assert!(stream.contains("widget.set_title(value);"));
}

#[test]
fn component_var_update_marks_the_fluents_property() {
    let root = builder("Text", None);
    let declaration = ComponentDeclaration {
        name: "Counter".to_string(),
        child: WidgetDeclaration { name: None, widget: root },
        states: vec![],
    };
    let count = NormalVariableDeclaration { name: "count".to_string() };
    let f = Fluent { vars: vec!["count".to_string()] };
    let mut fluent = FluentIdent::new("title", &f, "Counter", None, "Text");
    fluent.property_ident = "title_changed".to_string();
    let var_to_fluent = vec![("count".to_string(), vec![fluent])];
    let widget_vars: Vec<(String, Vec<String>)> = vec![];
    let code = gen_var_update(&declaration, &[&count], &var_to_fluent, &widget_vars);
    assert_eq!(
        code,
        "if force_update || <CompStruct as Update<count>>::is_updated(&self.comp_struct) { \
         let value = <CompStruct as Update<count>>::value(&self.comp_struct); \
         let widget = &mut self.widget; \
         title = true; self.Counter_Text_title.set(\"count\", value); } "
    );
}

#[test]
fn fluent_update_appends_nothing_without_fluents() {
    let declaration = ComponentDeclaration {
        name: "Plain".to_string(),
        child: WidgetDeclaration {
            name: None,
            widget: builder("VStack", Some(vec![WidgetDeclaration {
                name: Some("Label".to_string()),
                widget: builder("Text", None),
            }])),
        },
        states: vec![],
    };
    let mut counters = IdCounters { component: 0, widget: 0 };
    let tree = Widget::new(&declaration, &mut counters, &combine).ok().unwrap();
    assert!(!tree.contains_fluents());
    let mut stream = "let a = 1; ".to_string();
    tree.gen_fluent_update(None, &mut stream);
    assert_eq!(stream, "let a = 1; ");

    let fluent_component = component();
    let with = Widget::new(&fluent_component, &mut counters, &combine).ok().unwrap();
    assert!(with.contains_fluents());
    let mut stream = "let a = 1; ".to_string();
    with.gen_fluent_update(None, &mut stream);
    assert!(stream.starts_with("let a = 1; "));
    assert!(stream.len() > "let a = 1; ".len());
}
