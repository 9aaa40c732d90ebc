//! Plain data of the terminal interface: text attributes, space demands,
//! the state of line-editing widgets, and the position of a pager.
pub mod textattribute;
pub mod widget;
pub mod widgets;
pub mod pager;
