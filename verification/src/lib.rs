//! Console-session support library: directory-navigation history, command
//! history, prompt recognition, console attachment accounting, pane-focus
//! resolution and directory completion for a text console host.

pub mod attach;
pub mod calculator;
pub mod command_hist;
pub mod console;
pub mod dir_complete;
pub mod dir_man;
pub mod options;
pub mod shell;
pub mod text;
pub mod wt_focus;
