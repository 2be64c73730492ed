use vstd::prelude::*;

pub mod back_nav;
pub mod cards;
pub mod catalog;
pub mod collections;
pub mod command;
pub mod context_menu;
pub mod cookies;
pub mod destination;
pub mod focus;
pub mod ids;
pub mod last_move;
pub mod overlay_stack;
mod page_band;
pub mod palette;
pub mod query_bar;
pub mod quick_add;
pub mod rail;
pub mod scroll_lock;
pub mod selection;
pub mod states;
pub mod stepper;
pub mod text;
pub mod toasts;
pub mod ui;

verus! {

} // verus!
