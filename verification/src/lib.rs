//! Lays out what a package manager has to build.
//!
//! A build starts from packages, a resolution that says which package depends
//! on which, and a list of units that are asked for: a unit is a target of a
//! package together with how it is compiled.
//! [`unit_dependencies::build_unit_dependencies`] turns these into the graph of
//! all units that are needed and of what each of them has to wait for.
//!
//! - The tables that a build is laid out from: [`package`], [`resolve`],
//!   [`profiles`], [`target_data`], and what they consist of.
//! - What a unit depends on: [`plan`], for one unit; [`search`], for all that
//!   follow from it; [`layout`], for the build as a whole.
//! - The code that computes it: [`unit_dependencies`], [`links`], [`dep_order`].
//! - What a search leaves behind when it fails: [`leftover`].
//! - What holds of every build: [`laws`], [`order_laws`], [`script_laws`],
//!   [`std_laws`] and [`table_laws`], which rest on [`walk`], [`facts`],
//!   [`reach`] and [`outcome`].
//! - The same in terms of the inputs alone, in the words of [`terms`]: what is in
//!   a graph and why, in [`graph_laws`]; what each dependency is, in
//!   [`dep_laws`]; which build scripts wait for which, in [`link_laws`]; how
//!   lists look, in [`list_laws`]; how a build ends, in [`end_laws`]; how units
//!   are visited, in [`visit_laws`]; and what single steps do, in [`step_laws`].
//!   These rest on [`members`] and [`origin`].
//! - The command that saves a token for a registry: [`login`].

pub mod command_prelude;
pub mod compile;
pub mod context;
pub mod dep_laws;
pub mod dep_order;
pub mod dependency;
pub mod dev_edges;
pub mod end_laws;
pub mod errors;
pub mod facts;
pub mod graph_laws;
pub mod interning;
pub mod laws;
pub mod layout;
pub mod leftover;
pub mod link_laws;
pub mod links;
pub mod list_laws;
pub mod login;
pub mod lookup;
pub mod members;
pub mod order_laws;
pub mod origin;
pub mod outcome;
pub mod package;
pub mod plan;
pub mod profiles;
pub mod reach;
pub mod resolve;
pub mod run;
pub mod script_laws;
pub mod search;
pub mod std_laws;
pub mod step_laws;
pub mod table_laws;
pub mod target;
pub mod target_data;
pub mod terms;
pub mod unit;
pub mod unit_dependencies;
pub mod unit_graph;
pub mod visit_laws;
pub mod walk;
