use vstd::prelude::*;

verus! {

/// The profile of one user, as the remote service describes it.
pub struct UserProfile {
    pub login: String,
    pub id: u32,
    pub public_repo_count: u32,
}

/// One repository of the user.
pub struct RepositoryRecord {
    pub name: String,
    pub description: Option<String>,
    pub star_count: u32,
}

/// What the pipeline hands to a presenter: the repositories at or above the
/// threshold, most starred first, and the stars of every fetched repository.
pub struct AggregationResult {
    pub retained_repositories: Vec<RepositoryRecord>,
    pub total_star_count: u64,
}

/// The ways a request to the remote service can fail.
#[derive(Clone, Copy, Debug, PartialEq, Eq, Structural)]
pub enum ApiError {
    /// The service answered with a status outside 200..=299.
    HttpError { status: u16 },
    /// The body did not have the expected shape.
    DecodeError,
    /// The request did not get an answer (name lookup, connection, timeout).
    TransportError,
}

/// A status code of the success class.
pub open spec fn is_success(status: u16) -> bool {
    200 <= status <= 299
}

/// Accepts a response status of the success class; any other one is an
/// `HttpError` carrying that status.
pub fn check_status(status: u16) -> (r: Result<(), ApiError>)
    ensures
        is_success(status) <==> r is Ok,
        !is_success(status) ==> r == Err::<(), ApiError>(ApiError::HttpError { status }),
{
    if 200 <= status && status <= 299 {
        Ok(())
    } else {
        Err(ApiError::HttpError { status })
    }
}

} // verus!
