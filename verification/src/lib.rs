//! A system monitor panel for a small OLED screen: pages of system readings,
//! their text, the placement of characters and icons on the screen, and the
//! panel's reaction to its buttons and to time.
pub mod text;
pub mod number;
pub mod layout;
pub mod pages;
pub mod panel;
