//! Keyboard-layout fixing and shortcut handling for the LangFix menu-bar
//! utility: the text conversion, shortcut normalisation and labelling, and
//! the decision logic of the settings and fix-text flows.
pub mod outcome;
pub mod text;
pub mod layout;
pub mod shortcut;
pub mod settings;
pub mod fix;
pub mod update;
