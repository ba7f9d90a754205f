//! Pull-request statistics for the participants of a mentorship programme:
//! walking the forge's paginated listing of a repository's pull requests,
//! and counting, for each registered student, the pull requests that the
//! student opened in a given period.

pub mod database;
pub mod error;
pub mod page_count;
pub mod pagination;
pub mod pattern;
pub mod pulls;
pub mod repo_link;
pub mod report;
pub mod tally;
pub mod tally_order;
pub mod timestamp;

pub use database::{Project, Student, StudentDirectory};
pub use error::StatsError;
pub use pagination::{PageResponse, PullFetcher};
pub use pulls::{Pull, User};
pub use repo_link::split_repo_link;
pub use report::passed_students;
pub use tally::{update_if_room, update_users_pr_counts};
