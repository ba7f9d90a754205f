//! Repository references: from a project's link to the owner and the name
//! of its repository.

use vstd::prelude::*;
use vstd::string::*;

use crate::database::Project;
use crate::error::StatsError;
use crate::pattern::{captures, regex_captures, regex_compiles};

verus! {

/// The address of the forge, with which every repository reference begins.
pub const FORGE_ADDRESS: &'static str = "https://github.com/";

/// The shape of a repository reference, as a regular expression: at the
/// very start of the text the forge's address, then the owner and the
/// repository as its two groups.
pub const REPO_LINK_PATTERN: &'static str = r"^https:\/\/github\.com\/([^\/]+)\/([^\/]+)";

/// `text` is one segment of a path: not empty and without a `/`.
pub open spec fn is_segment(text: Seq<char>) -> bool {
    text.len() > 0 && forall|i: int| 0 <= i < text.len() ==> text[i] != '/'
}

/// The reference to `owner`'s repository `repo`.
pub open spec fn reference_to(owner: Seq<char>, repo: Seq<char>) -> Seq<char> {
    FORGE_ADDRESS@ + owner + seq!['/'] + repo
}

/// `link` refers to `owner`'s repository `repo`: it is the forge's address,
/// the owner, a `/` and the repository, both of them segments, and after
/// the repository it ends or goes on with a `/`.
pub open spec fn refers_to(link: Seq<char>, owner: Seq<char>, repo: Seq<char>) -> bool {
    let reference = reference_to(owner, repo);
    &&& is_segment(owner)
    &&& is_segment(repo)
    &&& reference.len() <= link.len()
    &&& link.subrange(0, reference.len() as int) == reference
    &&& link.len() == reference.len() || link[reference.len() as int] == '/'
}

/// The owner and the repository among the groups of a match in `link`: the
/// first and the second group, where both took part in the match and `link`
/// refers to the repository that they name.
pub open spec fn repo_in_groups(link: Seq<char>, found: Option<Seq<Option<Seq<char>>>>) -> Option<
    (Seq<char>, Seq<char>),
> {
    match found {
        Some(groups) => if groups.len() >= 3 && groups[1] is Some && groups[2] is Some && refers_to(
            link,
            groups[1]->0,
            groups[2]->0,
        ) {
            Some((groups[1]->0, groups[2]->0))
        } else {
            None
        },
        None => None,
    }
}

/// The owner and the repository that `link` refers to, if it is a
/// repository reference.
pub open spec fn repo_reference(link: Seq<char>) -> Option<(Seq<char>, Seq<char>)> {
    if regex_compiles(REPO_LINK_PATTERN@) {
        repo_in_groups(link, regex_captures(REPO_LINK_PATTERN@, link))
    } else {
        None
    }
}

/// A link that refers to a repository begins with the forge's address: a
/// text with anything before the address, or with another address, refers
/// to none.
pub proof fn lemma_reference_begins_with_address(link: Seq<char>, owner: Seq<char>, repo: Seq<char>)
    requires
        refers_to(link, owner, repo),
    ensures
        FORGE_ADDRESS@.len() <= link.len(),
        link.subrange(0, FORGE_ADDRESS@.len() as int) == FORGE_ADDRESS@,
{
    let reference = reference_to(owner, repo);
    let n = FORGE_ADDRESS@.len() as int;
    assert forall|i: int| 0 <= i < n implies link[i] == FORGE_ADDRESS@[i] by {
        assert(link.subrange(0, reference.len() as int)[i] == reference[i]);
    }
    assert(link.subrange(0, n) =~= FORGE_ADDRESS@);
}

/// A link refers to one repository at most.
pub proof fn lemma_one_repo_per_link(
    link: Seq<char>,
    owner: Seq<char>,
    repo: Seq<char>,
    other_owner: Seq<char>,
    other_repo: Seq<char>,
)
    requires
        refers_to(link, owner, repo),
        refers_to(link, other_owner, other_repo),
    ensures
        owner == other_owner,
        repo == other_repo,
{
    let start = FORGE_ADDRESS@.len() as int;
    let one = reference_to(owner, repo);
    let two = reference_to(other_owner, other_repo);
    assert forall|i: int| 0 <= i < one.len() implies link[i] == one[i] by {
        assert(link.subrange(0, one.len() as int)[i] == one[i]);
    }
    assert forall|i: int| 0 <= i < two.len() implies link[i] == two[i] by {
        assert(link.subrange(0, two.len() as int)[i] == two[i]);
    }
    // The first `/` after the address ends the owner, whoever names it.
    if owner.len() < other_owner.len() {
        assert(one[start + owner.len()] == '/');
        assert(two[start + owner.len()] == other_owner[owner.len() as int]);
    } else if other_owner.len() < owner.len() {
        assert(two[start + other_owner.len()] == '/');
        assert(one[start + other_owner.len()] == owner[other_owner.len() as int]);
    }
    assert(owner =~= other_owner) by {
        assert forall|i: int| 0 <= i < owner.len() implies owner[i] == other_owner[i] by {
            assert(one[start + i] == owner[i]);
            assert(two[start + i] == other_owner[i]);
        }
    }
    let from = start + owner.len() + 1;
    // The repository ends where the link ends or goes on with a `/`.
    if repo.len() < other_repo.len() {
        assert(two[from + repo.len()] == other_repo[repo.len() as int]);
    } else if other_repo.len() < repo.len() {
        assert(one[from + other_repo.len()] == repo[other_repo.len() as int]);
    }
    assert(repo =~= other_repo) by {
        assert forall|i: int| 0 <= i < repo.len() implies repo[i] == other_repo[i] by {
            assert(one[from + i] == repo[i]);
            assert(two[from + i] == other_repo[i]);
        }
    }
}

/// Whether `text` is one segment of a path.
pub fn is_path_segment(text: &str) -> (ok: bool)
    ensures
        ok == is_segment(text@),
{
    let n = text.unicode_len();
    if n == 0 {
        return false;
    }
    let mut i: usize = 0;
    while i < n
        invariant
            i <= n,
            n == text@.len(),
            forall|k: int| 0 <= k < i ==> text@[k] != '/',
        decreases n - i,
    {
        if text.get_char(i) == '/' {
            return false;
        }
        i += 1;
    }
    true
}

/// Whether `link` refers to `owner`'s repository `repo`.
pub fn names_repo(link: &str, owner: &str, repo: &str) -> (ok: bool)
    ensures
        ok == refers_to(link@, owner@, repo@),
{
    if !is_path_segment(owner) || !is_path_segment(repo) {
        return false;
    }
    let mut reference = String::from_str(FORGE_ADDRESS);
    reference.append(owner);
    proof {
        reveal_strlit("/");
        assert("/"@ =~= seq!['/']);
    }
    reference.append("/");
    reference.append(repo);
    assert(reference@ == reference_to(owner@, repo@));
    let reference_len = reference.as_str().unicode_len();
    let link_len = link.unicode_len();
    if link_len < reference_len {
        return false;
    }
    let start = String::from_str(link.substring_char(0, reference_len));
    if start != reference {
        return false;
    }
    link_len == reference_len || link.get_char(reference_len) == '/'
}

/// Picks the owner and the repository out of the groups that the search for
/// a repository reference in `link` found.
///
/// Succeeds exactly when there was a match whose first two groups are both
/// present and `link` refers to the repository that they name; anything
/// else is a `Configuration` error.
pub fn owner_and_repo(link: &str, found: &Option<Vec<Option<String>>>) -> (parts: Result<
    (String, String),
    StatsError,
>)
    ensures
        match parts {
            Ok((owner, repo)) => repo_in_groups(link@, found.deep_view()) == Some((owner@, repo@))
                && refers_to(link@, owner@, repo@),
            Err(e) => e == StatsError::Configuration && repo_in_groups(link@, found.deep_view()) is None,
        },
{
    match found {
        Some(groups) => {
            if groups.len() < 3 {
                return Err(StatsError::Configuration);
            }
            match (&groups[1], &groups[2]) {
                (Some(owner), Some(repo)) => {
                    if names_repo(link, owner.as_str(), repo.as_str()) {
                        Ok((owner.clone(), repo.clone()))
                    } else {
                        Err(StatsError::Configuration)
                    }
                },
                _ => Err(StatsError::Configuration),
            }
        },
        None => Err(StatsError::Configuration),
    }
}

/// Splits a repository reference into owner and repository.
///
/// A reference is the text `https://github.com/<owner>/<repo>`, where owner
/// and repository are segments of a path; after the repository the text may
/// go on with a `/` and more. Any other text is a `Configuration` error: one
/// that does not begin with the forge's address, one that lacks the owner or
/// the repository.
pub fn split_repo_link(link: &String) -> (parts: Result<(String, String), StatsError>)
    ensures
        match parts {
            Ok((owner, repo)) => repo_reference(link@) == Some((owner@, repo@)) && refers_to(
                link@,
                owner@,
                repo@,
            ),
            Err(e) => e == StatsError::Configuration && repo_reference(link@) is None,
        },
{
    match captures(REPO_LINK_PATTERN, link.as_str()) {
        Ok(found) => owner_and_repo(link.as_str(), &found),
        Err(_) => Err(StatsError::Configuration),
    }
}

/// The owner and the repository of a project.
///
/// A project without a repository reference, or with one that cannot be
/// split, is a `Configuration` error.
pub fn project_repo(project: &Project) -> (parts: Result<(String, String), StatsError>)
    ensures
        match parts {
            Ok((owner, repo)) => project.repo_link is Some && repo_reference(project.repo_link->0@) == Some(
                (owner@, repo@),
            ) && refers_to(project.repo_link->0@, owner@, repo@),
            Err(e) => e == StatsError::Configuration && (project.repo_link is None || repo_reference(
                project.repo_link->0@,
            ) is None),
        },
{
    match &project.repo_link {
        Some(link) => split_repo_link(link),
        None => Err(StatsError::Configuration),
    }
}

} // verus!
