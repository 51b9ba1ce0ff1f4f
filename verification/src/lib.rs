//! The verified core of a terminal disk-usage analyser: sizes and ages as
//! text, terminal capabilities, themes, the donut wheel, the table's
//! navigation and marking state, and the wording of every panel.

pub mod text;
pub mod order;
pub mod model;
pub mod paths;
pub mod state;
pub mod caps;
pub mod theme;
pub mod clipboard;
pub mod config;
pub mod toast;
pub mod double;
pub mod fmt;
pub mod size;
pub mod wheel;
pub mod freeable_panel;
pub mod filterview;
pub mod history;
pub mod recycle_rt;
pub mod reveal_in;
pub mod luminance;
pub mod osc11;
pub mod anim;
pub mod flatview;
pub mod keymap;
pub mod palette;
pub mod session;
pub mod mouse;
pub mod lines;
pub mod layout;
pub mod gauge;
pub mod panels;
pub mod table_view;
pub mod wheel_view;
pub mod modals;
pub mod overlays;
pub mod cockpit;
pub mod nlink_rt;
pub mod holders_rt;
pub mod floor_rt;
pub mod oracle_job;
pub mod oracle;
pub mod oracle_rt;
pub mod report;
