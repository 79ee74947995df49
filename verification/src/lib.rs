//! An issue tracker that lives in a repository: issues, their history and the
//! rules over them.
pub mod agent_ctx;
pub mod attributes;
pub mod calendar;
pub mod charts;
pub mod config;
pub mod create;
pub mod dashboard;
pub mod dates;
pub mod edit;
pub mod editing;
pub mod error;
pub mod events;
pub mod evidence;
pub mod filter;
pub mod form;
pub mod graph;
pub mod id;
pub mod import;
pub mod issue;
pub mod json;
pub mod jsonl;
pub mod legacy_crdt;
pub mod markdown;
pub mod messages;
pub mod overlays;
pub mod panes;
pub mod path;
pub mod plan;
pub mod query;
pub mod relations;
pub mod render;
pub mod report;
pub mod robot;
pub mod selection;
pub mod service;
pub mod sort;
pub mod stats;
pub mod store;
pub mod style;
pub mod swimlane;
pub mod text;
pub mod time;
pub mod timeline;
pub mod tree;
pub mod tui;
pub mod verification;

pub use agent_ctx::AgentCtx;
pub use config::Config;
pub use error::Error;
pub use events::{diff_issue, enrich_issue, Event, EventAction, EventLog, FieldChange};
pub use graph::IssueGraph;
pub use id::generate_id;
pub use issue::{Dependency, DependencyType, Issue, IssueType, Status};
pub use service::{ServiceManager, ServiceStatus};
pub use store::Store;
pub use timeline::{summarize_sessions, SessionSummary};
