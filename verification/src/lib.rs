pub mod scope;
pub mod text;
pub mod planner;
pub mod tokenize;
pub mod json;
pub mod xml;
pub mod parse;
pub mod om_bridge;
pub mod kernel;
pub mod sink;
pub mod cli;
pub mod expansion;
pub mod om_state;
pub mod embedding;
pub mod editor;
pub mod migration;
pub mod sorted_map;
pub mod prompt_policy;
pub mod observer;
