//! Repository information, computation side.
//!
//! The caller runs the version-control probes; this module assembles
//! their plain results into the record the dashboard shows, and holds
//! the small decisions of the default-branch lookup chain.

use vstd::prelude::*;

use crate::strutil::str_to_chars;

verus! {

/// What the dashboard knows of one repository.
pub struct GitInfo {
    pub branch: String,
    pub default_branch: String,
    pub latest_commit_hash: String,
    pub latest_commit_time: String,
    pub has_unstaged_changes: bool,
    pub has_staged_changes: bool,
    pub is_git_repo: bool,
}

/// True when every field of the record is empty or false.
pub open spec fn git_info_is_blank(g: GitInfo) -> bool {
    &&& g.branch@.len() == 0
    &&& g.default_branch@.len() == 0
    &&& g.latest_commit_hash@.len() == 0
    &&& g.latest_commit_time@.len() == 0
    &&& !g.has_unstaged_changes
    &&& !g.has_staged_changes
    &&& !g.is_git_repo
}

impl Default for GitInfo {
    /// The record for a path that is no repository: everything empty.
    fn default() -> (r: Self)
        ensures
            git_info_is_blank(r),
    {
        GitInfo {
            branch: String::new(),
            default_branch: String::new(),
            latest_commit_hash: String::new(),
            latest_commit_time: String::new(),
            has_unstaged_changes: false,
            has_staged_changes: false,
            is_git_repo: false,
        }
    }
}

/// Assembles the repository record from the caller's probe results: a
/// blank record unless the path exists and is a repository, else the
/// probe results verbatim, with a missing branch name as empty.
pub fn get_git_info(
    path_exists: bool,
    is_git_repo: bool,
    branch: Option<String>,
    default_branch: String,
    latest_commit_hash: String,
    latest_commit_time: String,
    has_unstaged_changes: bool,
    has_staged_changes: bool,
) -> (r: GitInfo)
    ensures
        !(path_exists && is_git_repo) ==> git_info_is_blank(r),
        path_exists && is_git_repo ==> {
            &&& r.is_git_repo
            &&& r.branch@ == (match branch {
                Some(b) => b@,
                None => Seq::<char>::empty(),
            })
            &&& r.default_branch == default_branch
            &&& r.latest_commit_hash == latest_commit_hash
            &&& r.latest_commit_time == latest_commit_time
            &&& r.has_unstaged_changes == has_unstaged_changes
            &&& r.has_staged_changes == has_staged_changes
        },
{
    if !path_exists || !is_git_repo {
        return GitInfo::default();
    }
    let branch = match branch {
        Some(b) => b,
        None => String::new(),
    };
    GitInfo {
        branch,
        default_branch,
        latest_commit_hash,
        latest_commit_time,
        has_unstaged_changes,
        has_staged_changes,
        is_git_repo: true,
    }
}

/// The branch a remote-head reference names: the non-empty remainder
/// after the origin prefix, if the reference has that shape.
pub open spec fn spec_branch_from_remote_head(s: Seq<char>) -> Option<Seq<char>> {
    let p = "refs/remotes/origin/"@;
    if s.len() > p.len() && s.take(p.len() as int) == p {
        Some(s.skip(p.len() as int))
    } else {
        None
    }
}

/// Extracts the branch name from a remote-head reference such as the
/// symbolic reference of the origin remote.
pub fn branch_from_remote_head(remote_head: &str) -> (r: Option<String>)
    ensures
        match r {
            Some(b) => spec_branch_from_remote_head(remote_head@) == Some(b@),
            None => spec_branch_from_remote_head(remote_head@) is None,
        },
{
    let chars = str_to_chars(remote_head);
    let prefix = str_to_chars("refs/remotes/origin/");
    let plen = prefix.len();
    if chars.len() <= plen {
        return None;
    }
    let mut i: usize = 0;
    while i < plen
        invariant
            0 <= i <= plen == prefix@.len(),
            plen < chars@.len(),
            chars@ == remote_head@,
            prefix@ == "refs/remotes/origin/"@,
            forall|j: int| 0 <= j < i ==> chars@[j] == prefix@[j],
        decreases plen - i,
    {
        if chars[i] != prefix[i] {
            proof {
                assert(remote_head@.take(plen as int)[i as int] != prefix@[i as int]);
            }
            return None;
        }
        i = i + 1;
    }
    proof {
        assert(remote_head@.take(plen as int) =~= prefix@);
    }
    let rest = crate::jsonl::copy_range(chars.as_slice(), plen, chars.len());
    proof {
        assert(rest@ =~= remote_head@.skip(plen as int));
    }
    Some(crate::strutil::chars_to_string(&rest))
}

} // verus!
