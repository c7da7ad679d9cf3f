//! Managed sub-repos: `[[repo]]` entries in the local (untrusted)
//! configuration, materialized as **readonly** plain git checkouts with a
//! detached HEAD at the locked commit.
//!
//! State model: a managed repo is in the desired state iff
//! `HEAD == lock.commit`. Dirty working copies are never touched: `apply`
//! skips them with a status, `doctor` reports them.

pub mod doctor;
pub mod entry;
pub mod laws;
pub mod load;
pub mod manifest;
pub mod materialize;
pub mod progress;
pub mod secondary;

pub use doctor::doctor;
pub use doctor::doctor_one;
pub use doctor::gc_lock;
pub use doctor::Diagnosis;
pub use doctor::DoctorStatus;
pub use doctor::RepoSight;
pub use entry::default_name;
pub use entry::entry_summary;
pub use entry::validate;
pub use entry::ApplyStatus;
pub use entry::RepoEntry;
pub use entry::RepoError;
pub use load::load_entries;
pub use materialize::apply_one;
pub use materialize::GitCall;
pub use materialize::Materialize;
pub use materialize::RepoAsk;
pub use materialize::RepoReply;
pub use secondary::check_secondary;
pub use secondary::link_secondary;
pub use secondary::SecondaryStatus;
pub use manifest::append_manifest_entry;
pub use manifest::remove_manifest_entry;
pub use manifest::Manifest;
pub use progress::parse_progress_line;
pub use progress::GitProgress;
