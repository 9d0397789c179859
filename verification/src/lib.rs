//! The portable model of the opengrid web components: column layout, the
//! virtualized window and its row pool, keyboard navigation, paging, grouping
//! as a display list, filters and facets, and the pivot model.

pub mod summary;
pub mod text;
pub mod columns;
pub mod controls;
pub mod display;
pub mod facets;
pub mod filter_row;
pub mod filters;
pub mod grouped_run;
pub mod grid_patch;
pub mod grouping;
pub mod json;
pub mod keys;
pub mod menu;
pub mod patch;
pub mod paths;
pub mod pivot;
pub mod pivot_table;
pub mod query;
pub mod requests;
pub mod routing;
pub mod window;
