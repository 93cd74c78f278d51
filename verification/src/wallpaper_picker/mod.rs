//! The wallpaper picker: every wallpaper that is available, as a grid that can be searched,
//! filtered and sorted, the displays to apply one to, and a panel that fetches more.

pub mod fetch;
pub mod grid;
pub mod paths;
pub mod scan;
pub mod state;
