//! Incremental scaffolding of a web project: every edit grafts generated
//! code, markup or configuration into text that may already hold earlier
//! additions, and does so exactly once.
//!
//! `text` holds the search and the splicing that every edit is made of.
//! `markup`, `modules`, `routes` and `registry` edit the base layout, the
//! declarations of the units, the route table and the manifest. `stubs`
//! writes the files of a new unit. `project` and `commands` put the edits
//! together into the commands of the tool; `page` shows what creating a
//! page leaves in the project, and `idempotence` what a second run of a
//! command does.
pub mod commands;
pub mod error;
pub mod idempotence;
pub mod markup;
pub mod modules;
pub mod page;
pub mod project;
pub mod registry;
pub mod routes;
pub mod stubs;
pub mod text;
pub mod theme;
