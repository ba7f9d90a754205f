//! Pull requests as the forge lists them, and what counting reads of one.

use vstd::prelude::*;
use vstd::string::*;

use crate::timestamp::created_at_seconds;

verus! {

/// The account that opened a pull request.
#[derive(Debug, Clone)]
pub struct User {
    pub login: Option<String>,
    pub id: Option<u32>,
}

/// One pull request, field for field as the forge's listing gives it.
#[derive(Debug, Clone)]
pub struct Pull {
    pub url: Option<String>,
    pub id: Option<u32>,
    /// `"open"` or `"closed"`.
    pub state: Option<String>,
    pub title: Option<String>,
    pub body: Option<String>,
    pub user: Option<User>,
    /// Present exactly when the pull request was merged.
    pub merged_at: Option<String>,
    /// An RFC 3339 timestamp.
    pub created_at: Option<String>,
}

/// What counting reads of a pull request.
pub struct PullView {
    /// The login of the account that opened it, where the listing names one.
    pub author: Option<Seq<char>>,
    /// Its state is `open`.
    pub open: bool,
    /// It was merged.
    pub merged: bool,
    /// When it was opened, in Unix seconds; `None` where the listing gives no
    /// well-formed creation time.
    pub created: Option<int>,
}

/// The state of a pull request that is still open: the text `open`.
pub open spec fn open_state() -> Seq<char> {
    seq!['o', 'p', 'e', 'n']
}

impl Pull {
    /// The login of the account that opened the pull request.
    pub open spec fn author(self) -> Option<Seq<char>> {
        match self.user {
            Some(user) => match user.login {
                Some(login) => Some(login@),
                None => None,
            },
            None => None,
        }
    }

    /// The state is present and reads `open`.
    pub open spec fn is_open(self) -> bool {
        self.state matches Some(state) && state@ == open_state()
    }

    /// What counting reads of the pull request once its creation time has
    /// been read as `created`.
    pub open spec fn facts(self, created: Option<int>) -> PullView {
        PullView {
            author: self.author(),
            open: self.is_open(),
            merged: self.merged_at is Some,
            created,
        }
    }

    /// The login of the account that opened the pull request, if the listing
    /// names one.
    pub fn author_login(&self) -> (login: Option<&String>)
        ensures
            match login {
                Some(name) => self.author() == Some(name@),
                None => self.author() is None,
            },
    {
        match &self.user {
            Some(user) => match &user.login {
                Some(login) => Some(login),
                None => None,
            },
            None => None,
        }
    }

    /// Whether the pull request is still open.
    pub fn has_open_state(&self) -> (open: bool)
        ensures
            open == self.is_open(),
    {
        match &self.state {
            Some(state) => {
                let word = String::from_str("open");
                proof {
                    reveal_strlit("open");
                    assert(word@ =~= open_state());
                }
                *state == word
            },
            None => false,
        }
    }

    /// Whether the pull request was merged.
    pub fn was_merged(&self) -> (merged: bool)
        ensures
            merged == (self.merged_at is Some),
    {
        self.merged_at.is_some()
    }
}

impl View for Pull {
    type V = PullView;

    open spec fn view(&self) -> PullView {
        self.facts(created_at_seconds(self.created_at))
    }
}

} // verus!
