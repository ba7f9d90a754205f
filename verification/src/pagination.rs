//! Walking the pages of a repository's pull-request listing.
//!
//! The forge hands the listing out page by page and names the next page in
//! the `Link` header of each response. A `PullFetcher` holds what has been
//! fetched so far and the address to ask next; whoever talks to the forge
//! asks for `next_url`, hands the answer to `on_response`, and goes on until
//! there is no next address.

use vstd::prelude::*;
use vstd::string::*;

use crate::pattern::{captures, regex_captures, regex_compiles};
use crate::pulls::Pull;

verus! {

/// How many pull requests the forge is asked to put on a page.
pub const PER_PAGE: u32 = 100;

/// The address of the forge's repositories.
pub const REPOS_ADDRESS: &'static str = "https://api.github.com/repos/";

/// What asks for the pull requests in every state, a page at a time.
pub const LISTING_QUERY: &'static str = "/pulls?state=all&per_page=";

/// The link of a `Link` header that is marked as the next page, as a
/// regular expression with the address as its group.
pub const NEXT_LINK_PATTERN: &'static str = "<([^>]+)>; rel=\"next\"";

/// The decimal digit for `d`.
pub open spec fn digit(d: nat) -> char {
    if d == 0 {
        '0'
    } else if d == 1 {
        '1'
    } else if d == 2 {
        '2'
    } else if d == 3 {
        '3'
    } else if d == 4 {
        '4'
    } else if d == 5 {
        '5'
    } else if d == 6 {
        '6'
    } else if d == 7 {
        '7'
    } else if d == 8 {
        '8'
    } else {
        '9'
    }
}

/// `n` in decimal digits, without leading zeros.
pub open spec fn decimal(n: nat) -> Seq<char>
    decreases n,
{
    if n < 10 {
        seq![digit(n)]
    } else {
        decimal(n / 10).push(digit(n % 10))
    }
}

/// Appends `n` in decimal digits to `text`.
pub fn push_decimal(text: &mut String, n: u32)
    ensures
        final(text)@ == old(text)@ + decimal(n as nat),
    decreases n,
{
    if n >= 10 {
        push_decimal(text, n / 10);
    }
    let d = n % 10;
    let word = if d == 0 {
        "0"
    } else if d == 1 {
        "1"
    } else if d == 2 {
        "2"
    } else if d == 3 {
        "3"
    } else if d == 4 {
        "4"
    } else if d == 5 {
        "5"
    } else if d == 6 {
        "6"
    } else if d == 7 {
        "7"
    } else if d == 8 {
        "8"
    } else {
        "9"
    };
    proof {
        reveal_strlit("0");
        reveal_strlit("1");
        reveal_strlit("2");
        reveal_strlit("3");
        reveal_strlit("4");
        reveal_strlit("5");
        reveal_strlit("6");
        reveal_strlit("7");
        reveal_strlit("8");
        reveal_strlit("9");
        assert(word@ =~= seq![digit(d as nat)]);
    }
    let ghost before = text@;
    text.append(word);
    proof {
        if n >= 10 {
            assert(text@ =~= old(text)@ + decimal((n / 10) as nat).push(digit(d as nat)));
        } else {
            assert(text@ =~= old(text)@ + seq![digit(d as nat)]);
        }
    }
}

/// The address of the first page of the pull requests of `owner`'s
/// repository `repo`.
pub open spec fn first_page(owner: Seq<char>, repo: Seq<char>) -> Seq<char> {
    REPOS_ADDRESS@ + owner + seq!['/'] + repo + LISTING_QUERY@ + decimal(PER_PAGE as nat)
}

/// Builds the address of the first page of a repository's pull requests.
pub fn first_page_url(owner: &str, repo: &str) -> (url: String)
    ensures
        url@ == first_page(owner@, repo@),
{
    let mut url = String::from_str(REPOS_ADDRESS);
    url.append(owner);
    proof {
        reveal_strlit("/");
        assert("/"@ =~= seq!['/']);
    }
    url.append("/");
    url.append(repo);
    url.append(LISTING_QUERY);
    push_decimal(&mut url, PER_PAGE);
    url
}

/// Whether a response with this status carries a page: the statuses from
/// 200 to 299.
pub open spec fn success(status: int) -> bool {
    200 <= status < 300
}

/// Whether a response with this status carries a page.
pub fn is_success(status: u16) -> (ok: bool)
    ensures
        ok == success(status as int),
{
    200 <= status && status < 300
}

/// The address of the next page among the groups of a match: the first
/// group, where it took part in the match.
pub open spec fn next_in_groups(found: Option<Seq<Option<Seq<char>>>>) -> Option<Seq<char>> {
    match found {
        Some(groups) => if groups.len() >= 2 {
            groups[1]
        } else {
            None
        },
        None => None,
    }
}

/// The address of the next page that a `Link` header names, if the
/// response has the header and the header marks a link as the next page.
pub open spec fn next_link(header: Option<Seq<char>>) -> Option<Seq<char>> {
    match header {
        Some(text) => if regex_compiles(NEXT_LINK_PATTERN@) {
            next_in_groups(regex_captures(NEXT_LINK_PATTERN@, text))
        } else {
            None
        },
        None => None,
    }
}

/// Picks the address of the next page out of the groups that the search
/// for a link to the next page found.
pub fn next_address(found: &Option<Vec<Option<String>>>) -> (next: Option<String>)
    ensures
        next.deep_view() == next_in_groups(found.deep_view()),
{
    match found {
        Some(groups) => {
            if groups.len() < 2 {
                return None;
            }
            match &groups[1] {
                Some(address) => Some(address.clone()),
                None => None,
            }
        },
        None => None,
    }
}

/// Reads the address of the next page from the `Link` header of a
/// response.
pub fn next_page_link(header: &Option<String>) -> (next: Option<String>)
    ensures
        next.deep_view() == next_link(header.deep_view()),
{
    match header {
        Some(text) => match captures(NEXT_LINK_PATTERN, text.as_str()) {
            Ok(found) => next_address(&found),
            Err(_) => None,
        },
        None => None,
    }
}

/// The answer to the request for one page.
pub struct PageResponse {
    /// The HTTP status.
    pub status: u16,
    /// The `Link` header, if the response has one.
    pub link: Option<String>,
    /// The pull requests of the page; of no account unless the status is a
    /// success.
    pub pulls: Vec<Pull>,
}

/// What the walk reads of a response.
pub struct Page {
    /// The status is a success.
    pub success: bool,
    /// The address that the response names as the next page.
    pub next: Option<Seq<char>>,
    /// The pull requests of the page.
    pub pulls: Seq<Pull>,
}

impl View for PageResponse {
    type V = Page;

    open spec fn view(&self) -> Page {
        Page {
            success: success(self.status as int),
            next: next_link(self.link.deep_view()),
            pulls: self.pulls@,
        }
    }
}

/// How far the walk through a listing has come.
pub struct Progress {
    /// The address to ask next; `None` once the walk is over.
    pub next: Option<Seq<char>>,
    /// The pull requests of the pages fetched so far, in order.
    pub pulls: Seq<Pull>,
    /// The walk ended on a response without success, so that pages may be
    /// missing.
    pub cut_short: bool,
}

/// The walk before the first request.
pub open spec fn start(owner: Seq<char>, repo: Seq<char>) -> Progress {
    Progress { next: Some(first_page(owner, repo)), pulls: Seq::empty(), cut_short: false }
}

/// The walk after one more response.
///
/// A response without success ends the walk with what it had. A page is
/// added to what was fetched, and the walk goes on to the page it names as
/// next, or ends if it names none. A walk that is over takes no more
/// responses.
pub open spec fn step(walk: Progress, page: Page) -> Progress {
    if walk.next is None {
        walk
    } else if !page.success {
        Progress { next: None, pulls: walk.pulls, cut_short: true }
    } else {
        Progress { next: page.next, pulls: walk.pulls + page.pulls, cut_short: walk.cut_short }
    }
}

/// Fetches the pull requests of one repository, page by page.
pub struct PullFetcher {
    next: Option<String>,
    pulls: Vec<Pull>,
    cut_short: bool,
}

impl View for PullFetcher {
    type V = Progress;

    closed spec fn view(&self) -> Progress {
        Progress { next: self.next.deep_view(), pulls: self.pulls@, cut_short: self.cut_short }
    }
}

impl PullFetcher {
    /// A walk through the pull requests of `owner`'s repository `repo`, about
    /// to ask for the first page.
    pub fn new(owner: &str, repo: &str) -> (fetcher: PullFetcher)
        ensures
            fetcher@ == start(owner@, repo@),
    {
        PullFetcher { next: Some(first_page_url(owner, repo)), pulls: Vec::new(), cut_short: false }
    }

    /// The address to ask next, or `None` once the walk is over.
    pub fn next_url(&self) -> (url: Option<&String>)
        ensures
            url.deep_view() == self@.next,
    {
        match &self.next {
            Some(url) => Some(url),
            None => None,
        }
    }

    /// Whether the walk ended on a response without success.
    pub fn cut_short(&self) -> (cut: bool)
        ensures
            cut == self@.cut_short,
    {
        self.cut_short
    }

    /// The pull requests fetched so far.
    pub fn pulls(&self) -> (pulls: &Vec<Pull>)
        ensures
            pulls@ == self@.pulls,
    {
        &self.pulls
    }

    /// Ends the walk and hands out what it fetched.
    pub fn into_pulls(self) -> (pulls: Vec<Pull>)
        ensures
            pulls@ == self@.pulls,
    {
        self.pulls
    }

    /// Takes the answer to the request for `next_url`, the address of the
    /// next page already read from it.
    pub fn advance(&mut self, status: u16, next: Option<String>, page: Vec<Pull>)
        ensures
            final(self)@ == step(
                old(self)@,
                Page { success: success(status as int), next: next.deep_view(), pulls: page@ },
            ),
    {
        if self.next.is_none() {
            return ;
        }
        if !is_success(status) {
            self.next = None;
            self.cut_short = true;
            return ;
        }
        let mut page = page;
        self.pulls.append(&mut page);
        self.next = next;
    }

    /// Takes the answer to the request for `next_url`.
    pub fn on_response(&mut self, response: PageResponse)
        ensures
            final(self)@ == step(old(self)@, response@),
    {
        let next = next_page_link(&response.link);
        self.advance(response.status, next, response.pulls);
    }
}

} // verus!
