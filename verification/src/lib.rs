//! Terminals of Docker containers and tmux panes, addressed by URLs such as
//! `docker://name`, `docker://project/service` and
//! `tmux://session/window/pane`: how the URLs resolve, what key presses are
//! sent as, how target lists are read and shown, and how a captured screen is
//! framed.

pub mod backends;
pub mod created;
pub mod docker;
pub mod keys;
pub mod listing;
pub mod screen;
pub mod target;
pub mod text;
pub mod tmux;
