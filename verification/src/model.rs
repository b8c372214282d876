//! The declarations that the generator reads: a component, its widget tree and its
//! states. Each widget's builder is held as the plain values that generation reads
//! of it, the code it writes to update a property among them.

use vstd::prelude::*;

verus! {

/// A localised text of a widget; generation reads the names of the variables that
/// the text refers to.
#[derive(Clone, Debug, PartialEq, Eq)]
pub struct Fluent {
    pub vars: Vec<String>,
}

impl Fluent {
    /// Whether the text refers to the variable `name`.
    pub open spec fn refers_to(self, name: Seq<char>) -> bool {
        exists|i: int| 0 <= i < self.vars@.len() && #[trigger] self.vars@[i]@ == name
    }

    /// A copy holding the same variable names.
    pub fn duplicate(&self) -> (r: Fluent)
        ensures
            r.vars@ == self.vars@,
    {
        Fluent { vars: copy_strings(&self.vars) }
    }

    /// Whether the text refers to the variable `name`.
    pub fn contains_var(&self, name: &String) -> (r: bool)
        ensures
            r == self.refers_to(name@),
    {
        let mut i: usize = 0;
        while i < self.vars.len()
            invariant
                0 <= i <= self.vars@.len(),
                forall|j: int| 0 <= j < i ==> self.vars@[j]@ != name@,
            decreases self.vars.len() - i,
        {
            if self.vars[i] == *name {
                return true;
            }
            i = i + 1;
        }
        false
    }
}

/// A variable of a component that is not a fluent text.
#[derive(Clone, Debug)]
pub struct NormalVariableDeclaration {
    pub name: String,
}

/// What generation reads of a widget's builder: its type name, whether it has a
/// handler, its fluent properties, its static properties (property and value
/// code), its variable properties (property and variable name), its children
/// where it holds any, and the code that updates each property from `value`
/// through `widget` and `handle_ref`.
#[derive(Debug)]
pub struct WidgetBuilder {
    pub name: String,
    pub has_handler: bool,
    pub fluents: Vec<(String, Fluent)>,
    pub statics: Vec<(String, String)>,
    pub vars: Vec<(String, String)>,
    pub widgets: Option<Vec<WidgetDeclaration>>,
    pub property_updates: Vec<(String, String)>,
}

/// A widget in a component's tree, named or not.
#[derive(Debug)]
pub struct WidgetDeclaration {
    pub name: Option<String>,
    pub widget: WidgetBuilder,
}

/// A state's replacement for the widget of the given name.
#[derive(Debug)]
pub struct WidgetOverride {
    pub name: String,
    pub widget: WidgetBuilder,
}

/// A state of a component and the widgets it overrides.
#[derive(Debug)]
pub struct StateDeclaration {
    pub name: String,
    pub overrides: Vec<WidgetOverride>,
}

/// A component: its name, its root widget and its states.
#[derive(Debug)]
pub struct ComponentDeclaration {
    pub name: String,
    pub child: WidgetDeclaration,
    pub states: Vec<StateDeclaration>,
}

/// Identifies a widget: the component it belongs to and its own number.
#[derive(Clone, Copy, Debug, PartialEq, Eq, Structural)]
pub struct WidgetID {
    pub component_id: u32,
    pub widget_id: u32,
}

impl WidgetID {
    pub fn new(component_id: u32, widget_id: u32) -> (r: WidgetID)
        ensures
            r.component_id == component_id,
            r.widget_id == widget_id,
    {
        WidgetID { component_id, widget_id }
    }

    /// The number by which widgets are ordered.
    pub fn widget_id(&self) -> (r: u32)
        ensures
            r == self.widget_id,
    {
        self.widget_id
    }
}

impl Default for WidgetID {
    fn default() -> (r: WidgetID)
        ensures
            r == default_widget_id(),
    {
        WidgetID { component_id: 0, widget_id: 0 }
    }
}

/// The identifier that stands where a widget has none to compare with.
pub open spec fn default_widget_id() -> WidgetID {
    WidgetID { component_id: 0, widget_id: 0 }
}

/// No two entries share a key, as in a map.
pub open spec fn distinct_keys<V>(entries: Seq<(String, V)>) -> bool {
    forall|i: int, j: int|
        0 <= i < j < entries.len() ==> #[trigger] entries[i].0@ != #[trigger] entries[j].0@
}

/// Where keys are distinct, the entry keyed `key` is the one that `find_key`
/// finds.
pub proof fn lemma_find_key_distinct<V>(entries: Seq<(String, V)>, key: Seq<char>, i: int)
    requires
        distinct_keys(entries),
        0 <= i < entries.len(),
        entries[i].0@ == key,
    ensures
        find_key(entries, key) == Some(i),
{
    lemma_find_key_from_bounds(entries, key, 0);
    match find_key(entries, key) {
        Some(k) => {
            if k != i {
                if k < i {
                    assert(entries[k].0@ != entries[i].0@);
                } else {
                    assert(entries[i].0@ != entries[k].0@);
                }
            }
        },
        None => {
            assert(entries[i].0@ != key);
        },
    }
}

/// The position of the first entry keyed `key`, searching from `from`.
pub open spec fn find_key_from<V>(entries: Seq<(String, V)>, key: Seq<char>, from: int) -> Option<int>
    decreases entries.len() - from,
{
    if from < 0 || from >= entries.len() {
        None
    } else if entries[from].0@ == key {
        Some(from)
    } else {
        find_key_from(entries, key, from + 1)
    }
}

/// The position of the first entry keyed `key`.
pub open spec fn find_key<V>(entries: Seq<(String, V)>, key: Seq<char>) -> Option<int> {
    find_key_from(entries, key, 0)
}

pub proof fn lemma_find_key_from_bounds<V>(entries: Seq<(String, V)>, key: Seq<char>, from: int)
    ensures
        find_key_from(entries, key, from) matches Some(i) ==> from <= i < entries.len()
            && entries[i].0@ == key,
        find_key_from(entries, key, from) is None && 0 <= from ==> forall|j: int|
            from <= j < entries.len() ==> #[trigger] entries[j].0@ != key,
    decreases entries.len() - from,
{
    if 0 <= from < entries.len() && entries[from].0@ != key {
        lemma_find_key_from_bounds(entries, key, from + 1);
    }
}

/// The position of the first entry of `entries` keyed `key`.
pub fn find_entry<V>(entries: &Vec<(String, V)>, key: &str) -> (r: Option<usize>)
    ensures
        match r {
            Some(i) => find_key(entries@, key@) == Some(i as int),
            None => find_key(entries@, key@) is None,
        },
{
    let k = key.to_owned();
    let mut i: usize = 0;
    while i < entries.len()
        invariant
            0 <= i <= entries@.len(),
            k@ == key@,
            find_key(entries@, key@) == find_key_from(entries@, key@, i as int),
        decreases entries.len() - i,
    {
        if entries[i].0 == k {
            return Some(i);
        }
        i = i + 1;
    }
    None
}

/// The code by which the builder updates `prop`; none for a property that it
/// does not update.
pub open spec fn update_code(b: WidgetBuilder, prop: Seq<char>) -> Seq<char> {
    match find_key(b.property_updates@, prop) {
        Some(i) => b.property_updates@[i].1@,
        None => Seq::empty(),
    }
}

impl WidgetBuilder {
    /// Appends to `stream` the code that updates `prop` from `value` through
    /// `widget` and `handle_ref`.
    pub fn on_property_update(&self, prop: &str, stream: &mut String)
        ensures
            final(stream)@ == old(stream)@ + update_code(*self, prop@),
    {
        proof {
            lemma_find_key_from_bounds(self.property_updates@, prop@, 0);
        }
        match find_entry(&self.property_updates, prop) {
            Some(i) => stream.append(self.property_updates[i].1.as_str()),
            None => {
                assert(old(stream)@ + Seq::<char>::empty() =~= old(stream)@);
            },
        }
    }
}

/// A copy of a list of strings.
pub fn copy_strings(v: &Vec<String>) -> (r: Vec<String>)
    ensures
        r@ == v@,
{
    let mut r: Vec<String> = Vec::new();
    let mut i: usize = 0;
    while i < v.len()
        invariant
            0 <= i <= v@.len(),
            r@ =~= v@.take(i as int),
        decreases v.len() - i,
    {
        r.push(v[i].clone());
        i = i + 1;
    }
    r
}

/// A copy of a list of string pairs.
pub fn copy_pairs(v: &Vec<(String, String)>) -> (r: Vec<(String, String)>)
    ensures
        r@ == v@,
{
    let mut r: Vec<(String, String)> = Vec::new();
    let mut i: usize = 0;
    while i < v.len()
        invariant
            0 <= i <= v@.len(),
            r@ =~= v@.take(i as int),
        decreases v.len() - i,
    {
        r.push((v[i].0.clone(), v[i].1.clone()));
        i = i + 1;
    }
    r
}

} // verus!
