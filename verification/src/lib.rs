//! Verified core of a 2D scene editor: documents, reversible commands,
//! undo/redo logs, logic graphs and their analyses.

pub mod asset_command;
pub mod asset_files;
pub mod assoc;
pub mod bsn_export;
pub mod bsn_ir;
pub mod bsn_layout;
pub mod bus;
pub mod command;
pub mod document;
pub mod dynamic_scene;
pub mod history;
pub mod hot_reload;
pub mod instance_projection;
pub mod json;
pub mod logic_command;
pub mod logic_evaluator;
pub mod logic_graph;
pub mod logic_recipes;
pub mod logic_state;
pub mod logic_validation;
pub mod operation_log;
pub mod persistence;
pub mod preview_state;
pub mod processor;
pub mod runtime_delta;
pub mod scene_asset;
pub mod seqs;
pub mod text;
pub mod topo_order;
pub mod validation_center;
