//! The core of a site builder that keeps each project in a directory of
//! JSON files: page ids derived from routes, documents brought into one
//! canonical form, what is read from and written to a project directory,
//! the projects of a workspace, and the rules of the remote mirror.
//!
//! This crate decides and computes; reading and writing files, the clock,
//! and the network are the caller's part.

pub mod doc;
pub mod ident;
pub mod normalize;
pub mod order;
pub mod registry;
pub mod remote;
pub mod store;
pub mod text;

pub use doc::{
    BlockDoc, BlockStyleDoc, BuilderProjectDoc, PageDoc, PageSeoDoc, ProjectMetadata,
    ProjectRecord, SiteDoc, SitemapDoc,
};
pub use ident::{canonical_page_id_from_route, normalize_site_url, normalize_slug};
pub use normalize::{default_builder_doc, normalize_builder_doc};
pub use registry::project_record_from_dir;
pub use remote::{
    advertised_remote_url, require_remote_token, stopped_remote_status, RemoteServerStatus,
};
