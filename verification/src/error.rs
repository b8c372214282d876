//! What stops a component's widget tree from being built.

use vstd::prelude::*;

verus! {

/// Why a widget tree could not be built.
pub enum BuildError {
    /// A widget has a handler but no name.
    UnnamedHandler,
    /// A state overrides the named widget more than once.
    RepeatedOverride { widget: String, state: String },
    /// A state's override of the named widget has children.
    OverrideWithChildren { widget: String, state: String },
}

/// The message of each error.
pub open spec fn error_message(e: BuildError) -> Seq<char> {
    match e {
        BuildError::UnnamedHandler => "Widgets with handlers must be named."@,
        BuildError::RepeatedOverride { widget, state } => "Can only override widget "@ + widget@
            + " once in "@ + state@ + "."@,
        BuildError::OverrideWithChildren { widget, state } => "Overridden widget "@ + widget@
            + " in "@ + state@ + " contains children."@,
    }
}

impl BuildError {
    /// The message that reports the error.
    pub fn message(&self) -> (r: String)
        ensures
            r@ == error_message(*self),
    {
        let mut r = String::new();
        match self {
            BuildError::UnnamedHandler => {
                r.append("Widgets with handlers must be named.");
            },
            BuildError::RepeatedOverride { widget, state } => {
                r.append("Can only override widget ");
                r.append(widget.as_str());
                r.append(" once in ");
                r.append(state.as_str());
                r.append(".");
            },
            BuildError::OverrideWithChildren { widget, state } => {
                r.append("Overridden widget ");
                r.append(widget.as_str());
                r.append(" in ");
                r.append(state.as_str());
                r.append(" contains children.");
            },
        }
        assert(r@ =~= error_message(*self));
        r
    }
}

} // verus!
