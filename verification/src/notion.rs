//! Person records as the workspace-tool directory supplies them: a
//! person with an optional email-bearing sub-record; and the record
//! shape handed to the persistence sink for a kept incident.

use vstd::prelude::*;
use crate::incident::{Incident, spec_short_fmt};
use crate::text::strings_of;
use crate::user::UserV;

verus! {

/// The email-bearing sub-record of a workspace-tool person.
#[derive(Clone, Debug)]
pub struct NotionPersonDetails {
    pub email: String,
}

pub ghost struct NotionPersonDetailsV {
    pub email: Seq<char>,
}

impl View for NotionPersonDetails {
    type V = NotionPersonDetailsV;

    open spec fn view(&self) -> NotionPersonDetailsV {
        NotionPersonDetailsV { email: self.email@ }
    }
}

impl NotionPersonDetails {
    /// A field-for-field copy.
    pub fn duplicate(&self) -> (r: Self)
        ensures
            r@ == self@,
    {
        NotionPersonDetails { email: self.email.clone() }
    }
}

/// A workspace-tool person record.
#[derive(Clone, Debug)]
pub struct NotionPerson {
    pub object: String,
    pub id: String,
    pub name: String,
    pub avatar_url: Option<String>,
    pub person: Option<NotionPersonDetails>,
}

pub ghost struct NotionPersonV {
    pub object: Seq<char>,
    pub id: Seq<char>,
    pub name: Seq<char>,
    pub avatar_url: Option<Seq<char>>,
    pub person: Option<NotionPersonDetailsV>,
}

impl View for NotionPerson {
    type V = NotionPersonV;

    open spec fn view(&self) -> NotionPersonV {
        NotionPersonV {
            object: self.object@,
            id: self.id@,
            name: self.name@,
            avatar_url: match self.avatar_url {
                Some(u) => Some(u@),
                None => None,
            },
            person: match self.person {
                Some(p) => Some(p@),
                None => None,
            },
        }
    }
}

impl NotionPerson {
    /// A field-for-field copy.
    pub fn duplicate(&self) -> (r: Self)
        ensures
            r@ == self@,
    {
        NotionPerson {
            object: self.object.clone(),
            id: self.id.clone(),
            name: self.name.clone(),
            avatar_url: match &self.avatar_url {
                Some(u) => Some(u.clone()),
                None => None,
            },
            person: match &self.person {
                Some(p) => Some(p.duplicate()),
                None => None,
            },
        }
    }
}

/// Persisting an incident that never got a POC assignment is a
/// programming defect of the decision protocol, surfaced as a typed
/// error rather than an abort.
#[derive(PartialEq, Eq, Structural, Clone, Copy, Debug)]
pub enum PersistError {
    /// The incident reached the persistence step with no POC set.
    MissingPoc,
}

/// What the persistence sink is handed for one kept incident: the
/// combined title, the source link, and the workspace-tool ids of the
/// assigned POCs.
#[derive(Clone, Debug)]
pub struct PersistRecord {
    pub title: String,
    pub url: String,
    pub poc_ids: Vec<String>,
}

/// The workspace-tool ids of the users that have a workspace-tool
/// side, in order; users known only to the chat platform contribute
/// nothing.
pub open spec fn notion_ids(users: Seq<UserV>) -> Seq<Seq<char>>
    decreases users.len(),
{
    if users.len() == 0 {
        Seq::empty()
    } else {
        notion_ids(users.drop_last()) + (match users.last().notion_user {
            Some(nu) => seq![nu.id],
            None => Seq::empty(),
        })
    }
}

/// Builds the persistence record for a kept incident: the short-form
/// title, the source link, and the POCs resolved to workspace-tool
/// ids. An incident without any POC assignment is a `MissingPoc`
/// error, never a silent write.
pub fn prepare_incident_record(incident: &Incident) -> (r: Result<PersistRecord, PersistError>)
    ensures
        r is Ok <==> incident@.poc_users is Some,
        r matches Err(e) ==> e == PersistError::MissingPoc,
        r matches Ok(rec) ==> {
            &&& rec.title@ == spec_short_fmt(incident@)
            &&& rec.url@ == incident@.html_url
            &&& strings_of(rec.poc_ids@) == notion_ids(incident@.poc_users->Some_0)
        },
{
    let users = match &incident.poc_users {
        Some(users) => users,
        None => { return Err(PersistError::MissingPoc) },
    };
    let ghost uvs = incident@.poc_users->Some_0;
    let n = users.len();
    let mut poc_ids: Vec<String> = Vec::new();
    let mut k: usize = 0;
    proof {
        assert(uvs.take(0) =~= Seq::<UserV>::empty());
        assert(strings_of(poc_ids@) =~= notion_ids(uvs.take(0)));
    }
    while k < n
        invariant
            n == users@.len(),
            uvs == crate::user::users_of(users@),
            k <= n,
            strings_of(poc_ids@) == notion_ids(uvs.take(k as int)),
        decreases n - k,
    {
        proof {
            assert(uvs.take(k + 1).drop_last() =~= uvs.take(k as int));
            assert(uvs.take(k + 1).last() == uvs[k as int]);
            assert(uvs[k as int] == users@[k as int]@);
        }
        match &users[k].notion_user {
            Some(nu) => {
                poc_ids.push(nu.id.clone());
                proof {
                    assert(strings_of(poc_ids@) =~= notion_ids(uvs.take(k + 1)));
                }
            },
            None => {
                proof {
                    assert(strings_of(poc_ids@) =~= notion_ids(uvs.take(k + 1)));
                }
            },
        }
        k += 1;
    }
    proof {
        assert(uvs.take(n as int) =~= uvs);
    }
    let title = incident.short_fmt();
    let url = incident.html_url.clone();
    Ok(PersistRecord { title, url, poc_ids })
}


} // verus!
