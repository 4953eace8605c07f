pub mod text;
pub mod menu;
pub mod appmenu;
pub mod icon_theme;
pub mod layout;
pub mod pointer;
