//! The settings of the synchronisation jobs and the credentials they use.
use vstd::prelude::*;

verus! {

/// Where a secret is read from: an environment variable, or the output of a
/// shell command.
#[derive(Clone, Debug, PartialEq, Eq)]
pub enum Key {
    Env { env: String },
    Cmd { cmd: String },
}

/// The credentials of the task manager's document database.
#[derive(Clone, Debug)]
pub struct AmazingMarvinCredentials {
    pub uri: String,
    pub username: String,
    pub password: String,
    pub database_name: String,
}

/// The job that mirrors the tasks completed in one category.
#[derive(Clone, Debug)]
pub struct CategorySyncConfig {
    pub uri: Key,
    pub username: Key,
    pub password: Key,
    pub database_name: Key,
    pub category: String,
    pub goal_name: String,
}

/// The job that mirrors the forecasting questions created.
#[derive(Clone, Debug)]
pub struct FatebookConfig {
    pub key: Key,
}

/// The job that mirrors a user's commits.
#[derive(Clone, Debug)]
pub struct GitHubConfig {
    pub key: Option<Key>,
    pub goal_name: String,
    pub username: String,
}

/// The job that mirrors completed meeting sessions; a session whose comment
/// mentions `#tag` for one of `auto_tags` is mirrored to that goal too.
#[derive(Clone, Debug)]
pub struct FocusmateConfig {
    pub key: Key,
    pub goal_name: String,
    pub auto_tags: Vec<String>,
}

/// Filters of a question listing; an absent filter is not sent.
#[derive(Clone, Debug)]
pub struct GetQuestionsConfig {
    pub resolved: Option<bool>,
    pub unresolved: Option<bool>,
    pub ready_to_resolve: Option<bool>,
    pub resolving_soon: Option<bool>,
    pub limit: Option<i32>,
    pub search_string: Option<String>,
    pub show_all_public: Option<bool>,
}

impl Default for GetQuestionsConfig {
    fn default() -> (r: GetQuestionsConfig)
        ensures
            r.resolved is None && r.unresolved is None && r.ready_to_resolve is None
                && r.resolving_soon is None && r.limit is None && r.search_string is None
                && r.show_all_public is None,
    {
        GetQuestionsConfig {
            resolved: None,
            unresolved: None,
            ready_to_resolve: None,
            resolving_soon: None,
            limit: None,
            search_string: None,
            show_all_public: None,
        }
    }
}

/// Why no single category id could be found for a title.
#[derive(Clone, Copy, Debug, PartialEq, Eq)]
pub enum CategoryLookupError {
    /// No category has the title.
    NotFound,
    /// The one category with the title has no usable id.
    MissingId,
    /// This many categories have the title.
    Ambiguous(usize),
}

/// The id of the one category found for a title, from the ids of the
/// documents found (`None` for a document without a usable id).
pub fn single_category_id(found: &[Option<String>]) -> (r: Result<String, CategoryLookupError>)
    ensures
        found@.len() == 0 ==> r == Err::<String, CategoryLookupError>(CategoryLookupError::NotFound),
        found@.len() == 1 && found@[0] is None ==> r == Err::<String, CategoryLookupError>(
            CategoryLookupError::MissingId,
        ),
        found@.len() == 1 && found@[0] is Some ==> r is Ok && r->Ok_0@ == found@[0]->0@,
        found@.len() > 1 ==> r == Err::<String, CategoryLookupError>(
            CategoryLookupError::Ambiguous(found@.len() as usize),
        ),
{
    if found.len() == 0 {
        Err(CategoryLookupError::NotFound)
    } else if found.len() == 1 {
        match &found[0] {
            Some(id) => Ok(id.clone()),
            None => Err(CategoryLookupError::MissingId),
        }
    } else {
        Err(CategoryLookupError::Ambiguous(found.len()))
    }
}

/// How far back completed tasks are looked for: two weeks, in milliseconds.
pub const COMPLETION_LOOKBACK_MILLIS: u64 = 1_209_600_000;

/// The earliest completion instant (in milliseconds) of the tasks looked for:
/// two weeks before `now_millis`, or the epoch when that is earlier.
pub fn recent_completion_cutoff(now_millis: u64) -> (r: u64)
    ensures
        r == if now_millis >= COMPLETION_LOOKBACK_MILLIS {
            now_millis - COMPLETION_LOOKBACK_MILLIS
        } else {
            0
        },
{
    if now_millis >= COMPLETION_LOOKBACK_MILLIS {
        now_millis - COMPLETION_LOOKBACK_MILLIS
    } else {
        0
    }
}

} // verus!
