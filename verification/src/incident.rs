//! Incident records, the severity-label parser, and the
//! priority/channel filter that selects review candidates.

use vstd::prelude::*;
use vstd::string::StringExecFns;
use crate::slack::{Channel, ChannelV};
use crate::text::{dec_str, push_dec, str_chars};
use crate::user::{User, UserV, users_of};

verus! {

/// A configuration mistake, surfaced before any interactive step.
#[derive(PartialEq, Eq, Structural, Clone, Copy, Debug)]
pub enum ConfigError {
    /// The grouping threshold is outside the unit interval.
    InvalidThreshold,
    /// The minimum severity label has no parsable numeric suffix.
    InvalidPriorityLabel,
}

/// An ordered severity label such as `P2`.
#[derive(Clone, Debug)]
pub struct Priority {
    pub name: String,
}

pub ghost struct PriorityV {
    pub name: Seq<char>,
}

impl View for Priority {
    type V = PriorityV;

    open spec fn view(&self) -> PriorityV {
        PriorityV { name: self.name@ }
    }
}

impl Priority {
    /// A field-for-field copy.
    pub fn duplicate(&self) -> (r: Self)
        ensures
            r@ == self@,
    {
        Priority { name: self.name.clone() }
    }
}

/// An incident report pulled from the external tracker.
#[derive(Clone, Debug)]
pub struct Incident {
    pub number: u64,
    pub title: String,
    pub priority: Option<Priority>,
    pub slack_channel: Option<Channel>,
    pub poc_users: Option<Vec<User>>,
    pub html_url: String,
}

#[verifier::ext_equal]
pub ghost struct IncidentV {
    pub number: u64,
    pub title: Seq<char>,
    pub priority: Option<PriorityV>,
    pub slack_channel: Option<ChannelV>,
    pub poc_users: Option<Seq<UserV>>,
    pub html_url: Seq<char>,
}

impl View for Incident {
    type V = IncidentV;

    open spec fn view(&self) -> IncidentV {
        IncidentV {
            number: self.number,
            title: self.title@,
            priority: match self.priority {
                Some(p) => Some(p@),
                None => None,
            },
            slack_channel: match self.slack_channel {
                Some(c) => Some(c@),
                None => None,
            },
            poc_users: match self.poc_users {
                Some(v) => Some(users_of(v@)),
                None => None,
            },
            html_url: self.html_url@,
        }
    }
}

impl IncidentV {
    /// The incident with its POC assignment erased: what the engine
    /// partitions, independent of the decisions taken on it.
    pub open spec fn stripped(self) -> IncidentV {
        IncidentV { poc_users: None, ..self }
    }
}

/// The views of a sequence of incidents.
pub open spec fn incs_of(s: Seq<Incident>) -> Seq<IncidentV> {
    s.map_values(|i: Incident| i@)
}

/// The views with their POC assignments erased.
pub open spec fn stripped_of(s: Seq<IncidentV>) -> Seq<IncidentV> {
    s.map_values(|i: IncidentV| i.stripped())
}

pub(crate) fn duplicate_users(users: &Vec<User>) -> (r: Vec<User>)
    ensures
        users_of(r@) == users_of(users@),
{
    let n = users.len();
    let mut out: Vec<User> = Vec::new();
    let mut k: usize = 0;
    while k < n
        invariant
            n == users@.len(),
            k <= n,
            out@.len() == k,
            forall|j: int| 0 <= j < k ==> #[trigger] out@[j]@ == users@[j]@,
        decreases n - k,
    {
        out.push(users[k].duplicate());
        k += 1;
    }
    proof {
        assert(users_of(out@) =~= users_of(users@));
    }
    out
}

impl Default for Incident {
    /// An empty incident: number zero, empty title and link, nothing
    /// attached.
    fn default() -> (r: Self)
        ensures
            r.number == 0,
            r.title@ == Seq::<char>::empty(),
            r.priority is None,
            r.slack_channel is None,
            r.poc_users is None,
            r.html_url@ == Seq::<char>::empty(),
    {
        Incident {
            number: 0,
            title: String::new(),
            priority: None,
            slack_channel: None,
            poc_users: None,
            html_url: String::new(),
        }
    }
}

impl Incident {
    /// A field-for-field copy.
    pub fn duplicate(&self) -> (r: Self)
        ensures
            r@ == self@,
    {
        let r = Incident {
            number: self.number,
            title: self.title.clone(),
            priority: match &self.priority {
                Some(p) => Some(p.duplicate()),
                None => None,
            },
            slack_channel: match &self.slack_channel {
                Some(c) => Some(c.duplicate()),
                None => None,
            },
            poc_users: match &self.poc_users {
                Some(v) => Some(duplicate_users(v)),
                None => None,
            },
            html_url: self.html_url.clone(),
        };
        proof {
            assert(r@ =~= self@);
        }
        r
    }

    /// The short form used in summaries and persisted titles: the
    /// number, a separator, the title.
    pub fn short_fmt(&self) -> (r: String)
        ensures
            r@ == spec_short_fmt(self@),
    {
        let mut out = String::new();
        push_dec(&mut out, self.number);
        out.append(": ");
        out.append(self.title.as_str());
        proof {
            assert(out@ =~= spec_short_fmt(self@));
        }
        out
    }
}

/// The short form of an incident: `<number>: <title>`.
pub open spec fn spec_short_fmt(i: IncidentV) -> Seq<char> {
    dec_str(i.number as nat) + ": "@ + i.title
}

/// Whether a character is a decimal digit.
pub open spec fn is_digit(c: char) -> bool {
    '0' <= c && c <= '9'
}

/// The value of a decimal digit character.
pub open spec fn digit_val(c: char) -> int {
    c as int - 48
}

/// The severity label with its leading `P` markers removed.
pub open spec fn strip_p(s: Seq<char>) -> Seq<char>
    decreases s.len(),
{
    if s.len() > 0 && s[0] == 'P' {
        strip_p(s.drop_first())
    } else {
        s
    }
}

/// The numeric value of a digit string, most significant digit first.
pub open spec fn digits_val(s: Seq<char>) -> int
    decreases s.len(),
{
    if s.len() == 0 {
        0
    } else {
        digits_val(s.drop_last()) * 10 + digit_val(s.last())
    }
}

/// The numeric rank of a severity label of the form `P<digits>`:
/// leading `P` markers are stripped, and what remains must be a
/// nonempty digit string whose value fits the rank's range.
pub open spec fn spec_priority_rank(name: Seq<char>) -> Option<u8> {
    let d = strip_p(name);
    if d.len() > 0 && (forall|j: int| 0 <= j < d.len() ==> is_digit(d[j])) && digits_val(d) <= 255 {
        Some(digits_val(d) as u8)
    } else {
        None
    }
}

/// Parses a severity label's numeric rank.
pub fn parse_priority_label(label: &str) -> (r: Option<u8>)
    ensures
        r == spec_priority_rank(label@),
{
    let chars = str_chars(label);
    let n = chars.len();
    proof {
        assert(chars@.subrange(0, n as int) =~= chars@);
    }
    let mut start: usize = 0;
    while start < n && chars[start] == 'P'
        invariant
            n == chars@.len(),
            chars@ == label@,
            start <= n,
            strip_p(label@) == strip_p(chars@.subrange(start as int, n as int)),
        decreases n - start,
    {
        proof {
            let tail = chars@.subrange(start as int, n as int);
            assert(tail[0] == 'P');
            assert(tail.drop_first() =~= chars@.subrange(start + 1, n as int));
        }
        start += 1;
    }
    proof {
        let tail = chars@.subrange(start as int, n as int);
        assert(strip_p(tail) == tail);
        assert(strip_p(label@) == chars@.subrange(start as int, n as int));
    }
    let ghost d = strip_p(label@);
    if start == n {
        proof {
            assert(d =~= Seq::<char>::empty());
        }
        return None;
    }
    // saturating accumulation: `val` tracks the digit value, capped
    // one past the largest representable rank
    let mut val: u32 = 0;
    let mut k: usize = start;
    while k < n
        invariant
            n == chars@.len(),
            chars@ == label@,
            start <= k <= n,
            d == strip_p(label@),
            d == chars@.subrange(start as int, n as int),
            forall|j: int| start <= j < k ==> is_digit(chars@[j]),
            val == if digits_val(d.take(k - start)) <= 255 {
                digits_val(d.take(k - start))
            } else {
                256int
            },
            val <= 256,
        decreases n - k,
    {
        let c = chars[k];
        if !(c >= '0' && c <= '9') {
            proof {
                assert(d[k - start] == chars@[k as int]);
                assert(!is_digit(d[k - start]));
                assert(!(forall|j: int| 0 <= j < d.len() ==> is_digit(d[j])));
            }
            return None;
        }
        let dv: u32 = (c as u32) - 48;
        proof {
            assert(d.take(k - start + 1).drop_last() =~= d.take(k - start));
            assert(d.take(k - start + 1).last() == chars@[k as int]);
        }
        let next = val * 10 + dv;
        val = if next > 255 {
            256
        } else {
            next
        };
        k += 1;
    }
    proof {
        assert(d.take(n - start) =~= d);
        assert(forall|j: int| 0 <= j < d.len() ==> is_digit(#[trigger] d[j]));
    }
    if val > 255 {
        return None;
    }
    Some(val as u8)
}

/// Whether the filter keeps an incident: a nonempty priority whose
/// rank is at or below the minimum rank, or any pre-existing channel
/// association.
pub open spec fn keep_incident(i: IncidentV, min_rank: u8) -> bool {
    (match i.priority {
        Some(p) => p.name.len() > 0 && (match spec_priority_rank(p.name) {
            Some(rk) => rk <= min_rank,
            None => false,
        }),
        None => false,
    }) || i.slack_channel is Some
}

/// The subsequence of incident views the filter keeps, in order.
pub open spec fn filtered_incs(s: Seq<IncidentV>, min_rank: u8) -> Seq<IncidentV>
    decreases s.len(),
{
    if s.len() == 0 {
        Seq::empty()
    } else {
        filtered_incs(s.drop_last(), min_rank) + if keep_incident(s.last(), min_rank) {
            seq![s.last()]
        } else {
            Seq::empty()
        }
    }
}

/// Filters incidents on whether they have at most `min_priority`
/// severity or any chat channel associated; order is preserved. An
/// unparsable minimum label is a configuration error.
pub fn filter_incidents_for_review(incidents: Vec<Incident>, min_priority: &str) -> (r: Result<
    Vec<Incident>,
    ConfigError,
>)
    ensures
        r is Ok <==> spec_priority_rank(min_priority@) is Some,
        r matches Err(e) ==> e == ConfigError::InvalidPriorityLabel,
        r matches Ok(v) ==> incs_of(v@) == filtered_incs(
            incs_of(incidents@),
            spec_priority_rank(min_priority@)->Some_0,
        ),
{
    let min_rank = match parse_priority_label(min_priority) {
        Some(rk) => rk,
        None => { return Err(ConfigError::InvalidPriorityLabel) },
    };
    let n = incidents.len();
    let mut out: Vec<Incident> = Vec::new();
    let mut k: usize = 0;
    while k < n
        invariant
            n == incidents@.len(),
            k <= n,
            incs_of(out@) == filtered_incs(incs_of(incidents@).take(k as int), min_rank),
        decreases n - k,
    {
        let i = &incidents[k];
        let keep = (match &i.priority {
            Some(p) => !p.name.as_str().is_empty() && (match parse_priority_label(p.name.as_str()) {
                Some(rk) => rk <= min_rank,
                None => false,
            }),
            None => false,
        }) || i.slack_channel.is_some();
        proof {
            assert(keep == keep_incident(incs_of(incidents@)[k as int], min_rank));
            assert(incs_of(incidents@).take(k + 1).drop_last() =~= incs_of(incidents@).take(
                k as int,
            ));
            assert(incs_of(incidents@).take(k + 1).last() == incs_of(incidents@)[k as int]);
        }
        if keep {
            out.push(i.duplicate());
            proof {
                assert(incs_of(out@) =~= filtered_incs(incs_of(incidents@).take(k + 1), min_rank));
            }
        } else {
            proof {
                assert(incs_of(out@) =~= filtered_incs(incs_of(incidents@).take(k + 1), min_rank));
            }
        }
        k += 1;
    }
    proof {
        assert(incs_of(incidents@).take(n as int) =~= incs_of(incidents@));
    }
    Ok(out)
}

} // verus!
