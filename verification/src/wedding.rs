//! The wedding site's guest data: who is invited and in what party size,
//! how a party size is stored in its integer column, and the decision an
//! RSVP update makes before anything is stored.

use vstd::prelude::*;

use crate::spans::push_lit;
use crate::text::{chars_eq_lit, chars_to_string, dec_str, push_u32_decimal, str_to_chars};
use vstd::string::StrSliceExecFns;

verus! {

/// How many people one invitation covers.
#[derive(Clone, Copy, PartialEq, Eq, Structural, Debug)]
pub enum PartySize {
    /// a party of several people
    Group(u8),
    /// a single person who is not allowed a plus one
    NoPlusOne,
    /// allowed a plus one, but has not said whether one is coming
    AllowedPlusOne,
    /// allowed a plus one and not bringing one
    NotBringing,
    /// allowed a plus one and bringing one
    Bringing,
    /// invited, but unable to come in the end
    NotAttending,
}

/// The integer a party size is stored as: a group by its size, each single
/// kind by a fixed value past the largest group.
pub open spec fn spec_to_int(p: PartySize) -> int {
    match p {
        PartySize::Group(n) => n as int,
        PartySize::NoPlusOne => 257,
        PartySize::AllowedPlusOne => 258,
        PartySize::NotBringing => 259,
        PartySize::Bringing => 260,
        PartySize::NotAttending => 261,
    }
}

/// The party size a stored integer decodes to, `None` for the values no
/// size is stored as.
pub open spec fn spec_from_int(v: int) -> Option<PartySize> {
    if 0 <= v <= 255 {
        Some(PartySize::Group(v as u8))
    } else if v == 257 {
        Some(PartySize::NoPlusOne)
    } else if v == 258 {
        Some(PartySize::AllowedPlusOne)
    } else if v == 259 {
        Some(PartySize::NotBringing)
    } else if v == 260 {
        Some(PartySize::Bringing)
    } else if v == 261 {
        Some(PartySize::NotAttending)
    } else {
        None
    }
}

/// A stored integer no party size decodes from.
#[derive(Clone, Copy, PartialEq, Eq, Structural, Debug)]
pub struct InvalidValue(pub i32);

impl PartySize {
    /// How many seats the party takes: a group its size, a single person
    /// one — two with a plus one — and none when not attending. A single
    /// person who has not answered about their plus one counts as one.
    pub fn total_size(&self) -> (r: u8)
        ensures
            r == match *self {
                PartySize::Group(size) => size,
                PartySize::NoPlusOne | PartySize::NotBringing | PartySize::AllowedPlusOne => 1u8,
                PartySize::Bringing => 2u8,
                PartySize::NotAttending => 0u8,
            },
    {
        match self {
            Self::Group(size) => *size,
            Self::NoPlusOne | Self::NotBringing | Self::AllowedPlusOne => 1,
            Self::Bringing => 2,
            Self::NotAttending => 0,
        }
    }

    /// The integer this party size is stored as.
    pub fn to_int(self) -> (r: i32)
        ensures
            r == spec_to_int(self),
    {
        match self {
            PartySize::Group(num) => num as i32,
            PartySize::NoPlusOne => 257,
            PartySize::AllowedPlusOne => 258,
            PartySize::NotBringing => 259,
            PartySize::Bringing => 260,
            PartySize::NotAttending => 261,
        }
    }

    /// Decode a stored integer; the values no size is stored as are
    /// returned as the error.
    pub fn try_from(value: i32) -> (r: Result<PartySize, InvalidValue>)
        ensures
            r == match spec_from_int(value as int) {
                Some(p) => Ok::<PartySize, InvalidValue>(p),
                None => Err::<PartySize, InvalidValue>(InvalidValue(value)),
            },
    {
        if 0 <= value && value <= 255 {
            return Ok(Self::Group(value as u8));
        }
        match value {
            257 => Ok(Self::NoPlusOne),
            258 => Ok(Self::AllowedPlusOne),
            259 => Ok(Self::NotBringing),
            260 => Ok(Self::Bringing),
            261 => Ok(Self::NotAttending),
            other_val => Err(InvalidValue(other_val)),
        }
    }

    /// The party size a form's selector option names; the group option
    /// starts at a size of one, to be adjusted later.
    pub fn from_str(s: &str) -> (r: Result<PartySize, ()>)
        ensures
            r == spec_from_select(s@),
    {
        let v = str_to_chars(s);
        if chars_eq_lit(&v, "Group") {
            Ok(Self::Group(1))
        } else if chars_eq_lit(&v, "Single with plus one") {
            Ok(Self::AllowedPlusOne)
        } else if chars_eq_lit(&v, "Single; No plus one") {
            Ok(Self::NoPlusOne)
        } else {
            Err(())
        }
    }

    /// The phrase a party size is shown as.
    pub fn display_string(&self) -> (r: String)
        ensures
            r@ == spec_display(*self),
    {
        let mut out: Vec<char> = Vec::new();
        match self {
            Self::Group(num) => {
                push_lit(&mut out, "Group (size of ");
                push_u32_decimal(&mut out, *num as u32);
                push_lit(&mut out, ")");
            },
            Self::NoPlusOne => push_lit(&mut out, "Single person, no +1 allowed"),
            Self::AllowedPlusOne => push_lit(&mut out, "+1 allowed; no rsvp yet"),
            Self::NotBringing => push_lit(&mut out, "+1 allowed but not taking"),
            Self::Bringing => push_lit(&mut out, "Person with +1"),
            Self::NotAttending => push_lit(&mut out, "Not Attending"),
        }
        chars_to_string(&out)
    }
}

/// The party size each form selector option names.
pub open spec fn spec_from_select(s: Seq<char>) -> Result<PartySize, ()> {
    if s == "Group"@ {
        Ok(PartySize::Group(1))
    } else if s == "Single with plus one"@ {
        Ok(PartySize::AllowedPlusOne)
    } else if s == "Single; No plus one"@ {
        Ok(PartySize::NoPlusOne)
    } else {
        Err(())
    }
}

/// The phrase each party size is shown as.
pub open spec fn spec_display(p: PartySize) -> Seq<char> {
    match p {
        PartySize::Group(num) => "Group (size of "@ + dec_str(num as nat) + ")"@,
        PartySize::NoPlusOne => "Single person, no +1 allowed"@,
        PartySize::AllowedPlusOne => "+1 allowed; no rsvp yet"@,
        PartySize::NotBringing => "+1 allowed but not taking"@,
        PartySize::Bringing => "Person with +1"@,
        PartySize::NotAttending => "Not Attending"@,
    }
}

/// Round trip: every party size survives its integer column encoding.
pub proof fn lemma_party_size_round_trip(p: PartySize)
    ensures
        spec_from_int(spec_to_int(p)) == Some(p),
{
}

/// One invited guest. The id mirrors the stored UUID, as its 128-bit
/// value.
pub struct Guest {
    pub id: u128,
    pub name: String,
    pub party_size: PartySize,
    pub full_address: Option<String>,
    pub email: Option<String>,
    pub extra_notes: Option<String>,
}

impl Guest {
    /// Whether the guest has answered: left an email, or declined.
    pub fn has_rsvpd(&self) -> (r: bool)
        ensures
            r == (self.email is Some || self.party_size is NotAttending),
    {
        self.email.is_some() || self.party_size == PartySize::NotAttending
    }
}

/// Someone who gets the announcement but no invitation.
pub struct AnnouncementRecipient {
    pub name: String,
    pub address: String,
    pub email: String,
}

impl AnnouncementRecipient {
    /// Whether the request may be stored: an announcement needs a name and
    /// an address, the email may stay empty.
    pub fn is_complete(&self) -> (r: bool)
        ensures
            r == (self.name@.len() > 0 && self.address@.len() > 0),
    {
        !self.name.as_str().is_empty() && !self.address.as_str().is_empty()
    }
}

/// Everyone the couple writes to: announcement-only, or invited.
pub enum Relation {
    AnnouncementOnly(AnnouncementRecipient),
    Invitee(Guest),
}

/// Which stored party sizes an RSVP update may overwrite: only a guest of
/// the matching kind, or anyone when declining.
#[derive(Clone, Copy, PartialEq, Eq, Structural, Debug)]
pub enum SizeCond {
    /// any group size
    GroupRange,
    /// the three plus-one kinds
    PlusOneKinds,
    /// a single person without a plus one
    Alone,
    /// no restriction
    Any,
}

/// What an RSVP update decides: the new party size and the class of stored
/// sizes it may overwrite. An attending guest without an email is the one
/// error. A submitted group size wins over a plus-one answer; declining
/// overrides everything.
pub open spec fn spec_rsvp_decision(
    accepted_plus_one: Option<bool>,
    group_size: Option<u8>,
    attending: bool,
    has_email: bool,
) -> Result<(PartySize, SizeCond), ()> {
    if attending && !has_email {
        Err(())
    } else if !attending {
        Ok((PartySize::NotAttending, SizeCond::Any))
    } else {
        match (accepted_plus_one, group_size) {
            (_, Some(size)) => Ok((PartySize::Group(size), SizeCond::GroupRange)),
            (Some(accepted), None) => Ok(
                (
                    if accepted {
                        PartySize::Bringing
                    } else {
                        PartySize::NotBringing
                    },
                    SizeCond::PlusOneKinds,
                ),
            ),
            (None, None) => Ok((PartySize::NoPlusOne, SizeCond::Alone)),
        }
    }
}

/// The decision an RSVP update makes before anything is stored.
pub fn rsvp_decision(
    accepted_plus_one: Option<bool>,
    group_size: Option<u8>,
    attending: bool,
    has_email: bool,
) -> (r: Result<(PartySize, SizeCond), ()>)
    ensures
        r == spec_rsvp_decision(accepted_plus_one, group_size, attending, has_email),
{
    if attending && !has_email {
        return Err(());
    }
    if !attending {
        return Ok((PartySize::NotAttending, SizeCond::Any));
    }
    match (accepted_plus_one, group_size) {
        (_, Some(size)) => Ok((PartySize::Group(size), SizeCond::GroupRange)),
        (Some(accepted), None) => Ok(
            (
                if accepted {
                    PartySize::Bringing
                } else {
                    PartySize::NotBringing
                },
                SizeCond::PlusOneKinds,
            ),
        ),
        (None, None) => Ok((PartySize::NoPlusOne, SizeCond::Alone)),
    }
}

} // verus!
