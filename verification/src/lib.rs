//! Decision logic of the automatic shop-reversal helper: text normalisation and
//! list matching of recognised cards, action planning, configuration lists,
//! screen-region geometry and the placement of annotation marks, the
//! per-round engine state machine, the runtime status machine of the user
//! interface, window selection and command-line quoting.
pub mod text;
pub mod config;
pub mod strategy;
pub mod layout;
pub mod engine;
pub mod recognition;
pub mod ui_state;
pub mod windowing;
pub mod report;
pub mod win_input;
pub mod overlay;
pub mod launch;
pub mod legacy;


