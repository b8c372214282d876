pub mod code;
pub mod coverage;
pub mod error;
pub mod flat;
pub mod fluent;
pub mod ids;
pub mod model;
pub mod numbering;
pub mod traversal;
pub mod widget;
pub mod widget_set;
