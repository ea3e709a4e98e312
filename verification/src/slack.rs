//! Person and channel records as the chat-platform directory supplies
//! them: a user with an optional profile that may carry an email, and
//! a named channel.

use vstd::prelude::*;
use crate::text::{contains_seq, dec_str, str_chars, u64_to_dec, chars_contain};
use crate::seqs::{first_index, lemma_first_index};
use crate::incident::Incident;

verus! {

/// A chat-platform profile: may carry an email address.
#[derive(Clone, Debug)]
pub struct Profile {
    pub email: Option<String>,
}

pub ghost struct ProfileV {
    pub email: Option<Seq<char>>,
}

impl View for Profile {
    type V = ProfileV;

    open spec fn view(&self) -> ProfileV {
        ProfileV {
            email: match self.email {
                Some(e) => Some(e@),
                None => None,
            },
        }
    }
}

impl Profile {
    /// A field-for-field copy.
    pub fn duplicate(&self) -> (r: Self)
        ensures
            r@ == self@,
    {
        Profile {
            email: match &self.email {
                Some(e) => Some(e.clone()),
                None => None,
            },
        }
    }
}

/// A chat-platform user record.
#[derive(Clone, Debug)]
pub struct SlackUser {
    pub id: String,
    pub name: String,
    pub profile: Option<Profile>,
}

pub ghost struct SlackUserV {
    pub id: Seq<char>,
    pub name: Seq<char>,
    pub profile: Option<ProfileV>,
}

impl View for SlackUser {
    type V = SlackUserV;

    open spec fn view(&self) -> SlackUserV {
        SlackUserV {
            id: self.id@,
            name: self.name@,
            profile: match self.profile {
                Some(p) => Some(p@),
                None => None,
            },
        }
    }
}

impl SlackUser {
    /// A field-for-field copy.
    pub fn duplicate(&self) -> (r: Self)
        ensures
            r@ == self@,
    {
        SlackUser {
            id: self.id.clone(),
            name: self.name.clone(),
            profile: match &self.profile {
                Some(p) => Some(p.duplicate()),
                None => None,
            },
        }
    }
}

/// A chat channel.
#[derive(Clone, Debug)]
pub struct Channel {
    pub id: String,
    pub name: String,
}

pub ghost struct ChannelV {
    pub id: Seq<char>,
    pub name: Seq<char>,
}

impl View for Channel {
    type V = ChannelV;

    open spec fn view(&self) -> ChannelV {
        ChannelV { id: self.id@, name: self.name@ }
    }
}

impl Channel {
    /// A field-for-field copy.
    pub fn duplicate(&self) -> (r: Self)
        ensures
            r@ == self@,
    {
        Channel { id: self.id.clone(), name: self.name.clone() }
    }
}

/// Whether a channel's name mentions the incident's number.
pub open spec fn channel_mentions(c: ChannelV, number: u64) -> bool {
    contains_seq(c.name, dec_str(number as nat))
}

/// The first index in `channels` whose name mentions `number`, or the
/// length if none does.
pub open spec fn channel_index(channels: Seq<ChannelV>, number: u64) -> int {
    first_index(channels, |c: ChannelV| channel_mentions(c, number))
}

/// The first channel whose name contains the incident's number,
/// rendered in decimal, if any.
pub fn get_channel_for<'a>(incident: &Incident, channels: &'a Vec<Channel>) -> (r: Option<
    &'a Channel,
>)
    ensures
        match r {
            Some(c) => {
                &&& channel_index(channels@.map_values(|c: Channel| c@), incident.number)
                    < channels@.len()
                &&& c@ == channels@.map_values(|c: Channel| c@)[channel_index(
                    channels@.map_values(|c: Channel| c@),
                    incident.number,
                )]
            },
            None => channel_index(channels@.map_values(|c: Channel| c@), incident.number)
                == channels@.len(),
        },
{
    let ghost cvs = channels@.map_values(|c: Channel| c@);
    let number_str = u64_to_dec(incident.number);
    let needle = str_chars(number_str.as_str());
    let n = channels.len();
    let mut k: usize = 0;
    while k < n
        invariant
            n == channels@.len(),
            cvs == channels@.map_values(|c: Channel| c@),
            needle@ == dec_str(incident.number as nat),
            k <= n,
            forall|j: int| 0 <= j < k ==> !channel_mentions(cvs[j], incident.number),
        decreases n - k,
    {
        let name_chars = str_chars(channels[k].name.as_str());
        if chars_contain(&name_chars, &needle) {
            proof {
                lemma_first_index(cvs, |c: ChannelV| channel_mentions(c, incident.number), k as int);
            }
            return Some(&channels[k]);
        }
        k += 1;
    }
    proof {
        lemma_first_index(cvs, |c: ChannelV| channel_mentions(c, incident.number), n as int);
    }
    None
}

} // verus!
