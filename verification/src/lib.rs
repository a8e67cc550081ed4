//! A verified core for a deterministic Dream Maker virtual machine.

pub mod accessors;
pub mod activation;
pub mod alphabet;
pub mod answering;
pub mod answers;
pub mod appearance;
pub mod arena;
pub mod arguments;
pub mod attending;
pub mod bitwise;
pub mod builtins;
pub mod callee;
pub mod calling;
pub mod catalog;
pub mod catching;
pub mod changing;
pub mod clients;
pub mod collector;
pub mod commands;
pub mod comparing;
pub mod constructing;
pub mod coordinates;
pub mod delays;
pub mod descending;
pub mod dispatch;
pub mod dispatching;
pub mod entering;
pub mod executing;
pub mod fault;
pub mod filters;
pub mod finding;
pub mod frame;
pub mod geometry;
pub mod globals;
pub mod guests;
pub mod heap;
pub mod heap_gc;
pub mod inline;
pub mod interpreter;
pub mod intervals;
pub mod inventory;
pub mod iteration;
pub mod jobs;
pub mod keeping;
pub mod list;
pub mod literals;
pub mod making;
pub mod logins;
pub mod mapping;
pub mod maps;
pub mod marks;
pub mod measuring;
pub mod members;
pub mod messages;
pub mod metrics;
pub mod mirrors;
pub mod moving;
pub mod names;
pub mod natives;
pub mod number;
pub mod operands;
pub mod ordering;
pub mod pacing;
pub mod performing;
pub mod pointers;
pub mod preparing;
pub mod program;
pub mod prompts;
pub mod quickening;
pub mod readback;
pub mod reading;
pub mod reporting;
pub mod resizing;
pub mod retention;
pub mod root_sets;
pub mod roots;
pub mod routing;
pub mod running;
pub mod savefiles;
pub mod scheduling;
pub mod seeing;
pub mod services;
pub mod serving;
pub mod showing;
pub mod sidecar;
pub mod signals;
pub mod skins;
pub mod slicing;
pub mod snapshot;
pub mod sorting;
pub mod soundness;
pub mod spelling;
pub mod state;
pub mod storing;
pub mod surviving;
pub mod symbols;
pub mod table;
pub mod tasks;
pub mod terrain;
pub mod text;
pub mod typelists;
pub mod types;
pub mod unwinding;
pub mod updating;
pub mod value;
pub mod verbs;
pub mod visibility;
pub mod waiting;
pub mod wording;
pub mod world;
pub mod world_index;
