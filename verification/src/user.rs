//! Unified identities: a person known to the chat platform, to the
//! workspace tool, or to both, linked by normalized email equality.

use vstd::prelude::*;
use vstd::string::StringExecFns;
use crate::notion::{NotionPerson, NotionPersonV};
use crate::slack::{SlackUser, SlackUserV};
use crate::seqs::{first_index, lemma_first_index};
use crate::text::{lower_of, lowercase_str, trim_str, trimmed_of};

verus! {

/// The normalized form under which two email addresses are compared:
/// surrounding whitespace removed, then lowercased.
pub open spec fn email_key(e: Seq<char>) -> Seq<char> {
    lower_of(trimmed_of(e))
}

/// Normalizes an email address for comparison by trimming surrounding
/// whitespace and converting to lowercase.
pub fn normalize_email(email: &str) -> (r: String)
    ensures
        r@ == email_key(email@),
{
    lowercase_str(trim_str(email))
}

/// Compares two email addresses after normalization.
pub fn emails_match(email1: &str, email2: &str) -> (r: bool)
    ensures
        r == (email_key(email1@) == email_key(email2@)),
{
    let normalized1 = normalize_email(email1);
    let normalized2 = normalize_email(email2);
    normalized1 == normalized2
}

/// The views of a sequence of users.
pub open spec fn users_of(s: Seq<User>) -> Seq<UserV> {
    s.map_values(|u: User| u@)
}

/// A person unified across the two directories. At least one side is
/// present in any identity built by [`User::new`].
#[derive(Clone, Debug)]
pub struct User {
    pub slack_user: Option<SlackUser>,
    pub notion_user: Option<NotionPerson>,
}

pub ghost struct UserV {
    pub slack_user: Option<SlackUserV>,
    pub notion_user: Option<NotionPersonV>,
}

impl View for User {
    type V = UserV;

    open spec fn view(&self) -> UserV {
        UserV {
            slack_user: match self.slack_user {
                Some(u) => Some(u@),
                None => None,
            },
            notion_user: match self.notion_user {
                Some(u) => Some(u@),
                None => None,
            },
        }
    }
}

impl UserV {
    /// At least one directory knows the person.
    pub open spec fn wf(self) -> bool {
        self.slack_user is Some || self.notion_user is Some
    }
}

impl User {
    /// Builds a unified identity; two absent sides yield no identity,
    /// which is not an error.
    pub fn new(slack_user: Option<SlackUser>, notion_user: Option<NotionPerson>) -> (r: Option<
        User,
    >)
        ensures
            r is Some <==> (slack_user is Some || notion_user is Some),
            match r {
                Some(u) => u.slack_user == slack_user && u.notion_user == notion_user && u@.wf(),
                None => true,
            },
    {
        if slack_user.is_none() && notion_user.is_none() {
            None
        } else {
            Some(User { slack_user, notion_user })
        }
    }

    /// A field-for-field copy.
    pub fn duplicate(&self) -> (r: Self)
        ensures
            r@ == self@,
    {
        User {
            slack_user: match &self.slack_user {
                Some(u) => Some(u.duplicate()),
                None => None,
            },
            notion_user: match &self.notion_user {
                Some(u) => Some(u.duplicate()),
                None => None,
            },
        }
    }

    /// Which systems this user exists in, as a short label.
    pub fn system_presence(&self) -> (r: String)
        ensures
            r@ == spec_system_presence(self@),
    {
        if self.slack_user.is_some() && self.notion_user.is_some() {
            String::from_str("Slack & Notion")
        } else if self.slack_user.is_some() {
            String::from_str("Slack")
        } else if self.notion_user.is_some() {
            String::from_str("Notion")
        } else {
            String::new()
        }
    }

    /// The human-readable form: display name (with the email for a
    /// chat-platform user), then the systems the user exists in.
    pub fn display_string(&self) -> (r: String)
        requires
            self@.wf(),
        ensures
            r@ == spec_display(self@),
    {
        let mut out = String::new();
        match &self.slack_user {
            Some(u) => {
                out.append(u.name.as_str());
                out.append(" ");
                match &u.profile {
                    Some(p) => {
                        out.append("(");
                        match &p.email {
                            Some(e) => { out.append(e.as_str()) },
                            None => {},
                        }
                        out.append(")");
                    },
                    None => {},
                }
            },
            None => {
                match &self.notion_user {
                    Some(u) => { out.append(u.name.as_str()) },
                    None => {},
                }
            },
        }
        out.append(" [");
        let presence = self.system_presence();
        out.append(presence.as_str());
        out.append("]");
        proof {
            assert(out@ =~= spec_display(self@));
        }
        out
    }
}

/// The label naming the systems a user exists in.
pub open spec fn spec_system_presence(u: UserV) -> Seq<char> {
    if u.slack_user is Some && u.notion_user is Some {
        "Slack & Notion"@
    } else if u.slack_user is Some {
        "Slack"@
    } else if u.notion_user is Some {
        "Notion"@
    } else {
        Seq::empty()
    }
}

/// The human-readable form of a unified identity.
pub open spec fn spec_display(u: UserV) -> Seq<char> {
    let name_part = match u.slack_user {
        Some(su) => su.name + " "@ + match su.profile {
            Some(p) => "("@ + match p.email {
                Some(e) => e,
                None => Seq::empty(),
            } + ")"@,
            None => Seq::empty(),
        },
        None => match u.notion_user {
            Some(nu) => nu.name,
            None => Seq::empty(),
        },
    };
    name_part + " ["@ + spec_system_presence(u) + "]"@
}

/// Whether a chat-platform user's profile email matches `email` after
/// normalization.
pub open spec fn slack_matches(su: SlackUserV, email: Seq<char>) -> bool {
    match su.profile {
        Some(p) => match p.email {
            Some(se) => email_key(se) == email_key(email),
            None => false,
        },
        None => false,
    }
}

/// The chat-platform side the reconciler pairs with a workspace-tool
/// person: the first user whose profile email matches, if the person
/// has an email at all.
pub open spec fn reconciled_slack(slack_users: Seq<SlackUserV>, np: NotionPersonV) -> Option<
    SlackUserV,
> {
    match np.person {
        Some(d) => {
            let k = first_index(slack_users, |su: SlackUserV| slack_matches(su, d.email));
            if k < slack_users.len() {
                Some(slack_users[k])
            } else {
                None
            }
        },
        None => None,
    }
}

/// Finds the first chat-platform user whose profile email matches.
fn find_slack_match(slack_users: &Vec<SlackUser>, email: &str) -> (r: Option<SlackUser>)
    ensures
        match r {
            Some(su) => {
                let svs = slack_users@.map_values(|u: SlackUser| u@);
                let k = first_index(svs, |su: SlackUserV| slack_matches(su, email@));
                k < svs.len() && su@ == svs[k]
            },
            None => {
                let svs = slack_users@.map_values(|u: SlackUser| u@);
                first_index(svs, |su: SlackUserV| slack_matches(su, email@)) == svs.len()
            },
        },
{
    let ghost svs = slack_users@.map_values(|u: SlackUser| u@);
    let n = slack_users.len();
    let mut k: usize = 0;
    while k < n
        invariant
            n == slack_users@.len(),
            svs == slack_users@.map_values(|u: SlackUser| u@),
            k <= n,
            forall|j: int| 0 <= j < k ==> !slack_matches(svs[j], email@),
        decreases n - k,
    {
        let su = &slack_users[k];
        let matched = match &su.profile {
            Some(p) => match &p.email {
                Some(se) => emails_match(se.as_str(), email),
                None => false,
            },
            None => false,
        };
        if matched {
            proof {
                lemma_first_index(svs, |su: SlackUserV| slack_matches(su, email@), k as int);
            }
            return Some(su.duplicate());
        }
        k += 1;
    }
    proof {
        lemma_first_index(svs, |su: SlackUserV| slack_matches(su, email@), n as int);
    }
    None
}

/// Merges the two directory listings into one unified identity per
/// workspace-tool person, pairing each with the first chat-platform
/// user whose normalized email equals the person's. People without an
/// email, or without a match, keep only the workspace-tool side;
/// chat-platform users that match nobody do not appear.
pub fn reconcile_identities(slack_users: &Vec<SlackUser>, notion_people: Vec<NotionPerson>) -> (r:
    Vec<User>)
    ensures
        r@.len() == notion_people@.len(),
        forall|k: int|
            0 <= k < r@.len() ==> {
                let uv = #[trigger] r@[k]@;
                let np = notion_people@[k]@;
                let svs = slack_users@.map_values(|u: SlackUser| u@);
                uv.notion_user == Some(np) && uv.slack_user == reconciled_slack(svs, np)
            },
{
    let ghost svs = slack_users@.map_values(|u: SlackUser| u@);
    let n = notion_people.len();
    let mut out: Vec<User> = Vec::new();
    let mut idx: usize = 0;
    while idx < n
        invariant
            n == notion_people@.len(),
            svs == slack_users@.map_values(|u: SlackUser| u@),
            idx <= n,
            out@.len() == idx,
            forall|k: int|
                0 <= k < idx ==> {
                    let uv = #[trigger] out@[k]@;
                    let np = notion_people@[k]@;
                    uv.notion_user == Some(np) && uv.slack_user == reconciled_slack(svs, np)
                },
        decreases n - idx,
    {
        let nu = notion_people[idx].duplicate();
        let slack_user = match &nu.person {
            Some(d) => find_slack_match(slack_users, d.email.as_str()),
            None => None,
        };
        let user = User { slack_user, notion_user: Some(nu) };
        out.push(user);
        idx += 1;
    }
    out
}

} // verus!
