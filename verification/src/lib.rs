//! Core library of git-gud, a stacked-diffs tool: configuration, branch and
//! commit-message conventions, pull-request bodies, stack navigation and the
//! decisions behind its commands.
pub mod text;
pub mod paths;
pub mod keyed;
pub mod line_edit;
pub mod error;
pub mod config;
pub mod git;
pub mod gh;
pub mod provider;
pub mod github_stacks;
pub mod stack;
pub mod immutability;
pub mod managed_body;
pub mod stack_nav;
pub mod template;
pub mod commands;
pub mod output;
pub mod context;
pub mod mcp;
pub mod operations;
