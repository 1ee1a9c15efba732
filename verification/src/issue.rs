//! The issue snapshot the tracker hands back for one sync run.

use vstd::prelude::*;
use crate::richtext::JiraADF;

verus! {

/// One immutable issue snapshot: its stable key, title, status (with the
/// coarse lifecycle category, when the tracker reports one), optional
/// priority, type, creation timestamp, and optional rich-text description.
pub struct JiraIssue {
    pub key: String,
    pub summary: String,
    pub status: String,
    pub status_category: Option<String>,
    pub priority: Option<String>,
    pub issue_type: String,
    pub created: String,
    pub description: Option<JiraADF>,
}

} // verus!
