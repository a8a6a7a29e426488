//! Committing a patched file: a remote-API attempt with a local-checkout
//! fallback.
//!
//! A unit of work is persisted by at most two strategies, tried strictly in
//! sequence: first an update through a remote commit API (read the current
//! blob id, then submit the new content); only when that has fully failed,
//! and only when a local checkout was supplied, a write into the checkout
//! followed by stage, commit and push. The record returned names the
//! strategy that actually succeeded, and each error names the unit of work
//! it failed for.
//!
//! The two backends are capability interfaces so that the embedding program
//! supplies the real network and version-control calls, and tests supply
//! in-memory fakes.

use vstd::prelude::*;

use base64::Engine;

verus! {

/// Which commit mechanism succeeded.
#[derive(Debug, Clone, Copy, PartialEq, Eq, Structural)]
pub enum CommitStrategy {
    /// The remote commit API; no local checkout involved.
    RemoteApi,
    /// The local checkout: write, stage, commit and push.
    LocalCheckout,
}

/// Outcome of a single successful file commit.
#[derive(Debug, Clone)]
pub struct CommitResult {
    /// Repository slug, `org/name`.
    pub repo: String,
    /// Path of the committed file inside the repository.
    pub file_path: String,
    /// Strategy that succeeded.
    pub strategy: CommitStrategy,
    /// Commit id reported by the backend that succeeded.
    pub sha: String,
}

/// Why a commit failed, naming the unit of work it failed for.
#[derive(Debug, Clone)]
pub enum CommitError {
    /// The remote attempt failed and no local checkout was supplied.
    NoFallbackAvailable { repo: String, file_path: String },
    /// The remote attempt failed and then a step of the local attempt
    /// failed; there is no further fallback.
    LocalCommitFailed { repo: String, file_path: String },
}

/// The remote commit API. `fetch_blob_id` reads the identifier of the
/// file's current content; `put_content` submits the new content (already
/// base64-encoded) together with that identifier, which the API uses as an
/// optimistic-concurrency token, and reports the new commit id. Either call
/// reports failure through `Err`, with a message.
pub trait RemoteCommitApi {
    fn fetch_blob_id(&mut self, repo: &str, file_path: &str) -> Result<String, String>;

    fn put_content(
        &mut self,
        repo: &str,
        file_path: &str,
        message: &str,
        content_b64: &str,
        blob_id: &str,
    ) -> Result<String, String>;
}

/// A local checkout with a configured remote. Each step reports whether it
/// succeeded; `head_id` reads the short id of the new head commit.
pub trait CheckoutVcs {
    fn write_file(&mut self, file_path: &str, content: &str) -> bool;

    fn add(&mut self, file_path: &str) -> bool;

    fn commit(&mut self, message: &str) -> bool;

    fn push(&mut self) -> bool;

    fn head_id(&mut self) -> Option<String>;
}

/// The standard base64 encoding, with padding, of the UTF-8 bytes of a
/// text; it depends on the characters alone.
pub uninterp spec fn b64_of(s: Seq<char>) -> Seq<char>;

/// Relies on the `encode` of base64's `STANDARD` engine: encodes the UTF-8
/// bytes of `s`, and encodes an empty input to an empty string.
#[verifier::external_body]
fn encode_base64(s: &str) -> (r: String)
    ensures
        r@ == b64_of(s@),
        s@.len() == 0 ==> r@.len() == 0,
{
    base64::engine::general_purpose::STANDARD.encode(s.as_bytes())
}

/// One full remote-API attempt: read the current blob id, then submit the
/// base64-encoded new content against it. `Some` carries the new commit id;
/// `None` means the attempt failed at either round trip.
fn remote_attempt<R: RemoteCommitApi>(
    api: &mut R,
    repo: &str,
    file_path: &str,
    content: &str,
    message: &str,
) -> Option<String> {
    match api.fetch_blob_id(repo, file_path) {
        Err(_) => None,
        Ok(blob_id) => {
            let encoded = encode_base64(content);
            match api.put_content(
                repo,
                file_path,
                message,
                encoded.as_str(),
                blob_id.as_str(),
            ) {
                Ok(sha) => Some(sha),
                Err(_) => None,
            }
        },
    }
}

/// One full local-checkout attempt, in the fixed order write, stage,
/// commit, push; `Some` carries the short id of the new head. The first
/// failing step ends the attempt.
fn local_attempt<V: CheckoutVcs>(
    vcs: &mut V,
    file_path: &str,
    content: &str,
    message: &str,
) -> Option<String> {
    if !vcs.write_file(file_path, content) {
        return None;
    }
    if !vcs.add(file_path) {
        return None;
    }
    if !vcs.commit(message) {
        return None;
    }
    if !vcs.push() {
        return None;
    }
    vcs.head_id()
}

/// Commits `content` to `file_path` in `org/repo` with `message`: first
/// through the remote API, then — only if that failed and a checkout was
/// supplied — through the local checkout.
///
/// Exactly one outcome is produced. A success names the strategy that
/// actually succeeded and the unit of work; without a checkout the only
/// possible strategy is the remote API. Each error names the unit of work,
/// and `NoFallbackAvailable` is returned exactly when the remote attempt
/// failed with no checkout to fall back to, `LocalCommitFailed` only when a
/// supplied checkout failed a step.
pub fn commit_file<R: RemoteCommitApi, V: CheckoutVcs>(
    api: &mut R,
    org: &str,
    repo: &str,
    file_path: &str,
    content: &str,
    message: &str,
    local: Option<V>,
) -> (r: Result<CommitResult, CommitError>)
    ensures
        r matches Ok(res) ==> {
            &&& res.repo@ == org@ + "/"@ + repo@
            &&& res.file_path@ == file_path@
            &&& (local is None ==> res.strategy == CommitStrategy::RemoteApi)
        },
        r matches Err(e) ==> match e {
            CommitError::NoFallbackAvailable { repo: er, file_path: ef } => {
                &&& er@ == org@ + "/"@ + repo@
                &&& ef@ == file_path@
                &&& local is None
            },
            CommitError::LocalCommitFailed { repo: er, file_path: ef } => {
                &&& er@ == org@ + "/"@ + repo@
                &&& ef@ == file_path@
                &&& local is Some
            },
        },
{
    let slug = String::from_str(org).concat("/").concat(repo);
    match remote_attempt(api, slug.as_str(), file_path, content, message) {
        Some(sha) => Ok(
            CommitResult {
                repo: slug,
                file_path: String::from_str(file_path),
                strategy: CommitStrategy::RemoteApi,
                sha,
            },
        ),
        None => match local {
            None => Err(
                CommitError::NoFallbackAvailable {
                    repo: slug,
                    file_path: String::from_str(file_path),
                },
            ),
            Some(mut vcs) => match local_attempt(&mut vcs, file_path, content, message) {
                Some(sha) => Ok(
                    CommitResult {
                        repo: slug,
                        file_path: String::from_str(file_path),
                        strategy: CommitStrategy::LocalCheckout,
                        sha,
                    },
                ),
                None => Err(
                    CommitError::LocalCommitFailed {
                        repo: slug,
                        file_path: String::from_str(file_path),
                    },
                ),
            },
        },
    }
}

} // verus!
