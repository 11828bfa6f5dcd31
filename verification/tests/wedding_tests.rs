//! Tests of the wedding guest data: party-size encoding, form parsing, and
//! the RSVP update decision.

use shared_data::wedding::{
    rsvp_decision, AnnouncementRecipient, Guest, InvalidValue, PartySize, SizeCond,
};

#[test]
fn all_party_sizes_can_serde() {
    fn check(size: PartySize) {
        assert_eq!(PartySize::try_from(size.to_int()), Ok(size));
    }

    for i in u8::MIN..=u8::MAX {
        check(PartySize::Group(i));
    }
    check(PartySize::NoPlusOne);
    check(PartySize::AllowedPlusOne);
    check(PartySize::NotBringing);
    check(PartySize::Bringing);
    check(PartySize::NotAttending);
}

#[test]
fn party_size_ints_match_storage_scheme() {
    assert_eq!(PartySize::Group(0).to_int(), 0);
    assert_eq!(PartySize::Group(255).to_int(), 255);
    assert_eq!(PartySize::NoPlusOne.to_int(), 257);
    assert_eq!(PartySize::AllowedPlusOne.to_int(), 258);
    assert_eq!(PartySize::NotBringing.to_int(), 259);
    assert_eq!(PartySize::Bringing.to_int(), 260);
    assert_eq!(PartySize::NotAttending.to_int(), 261);
    assert_eq!(PartySize::try_from(256), Err(InvalidValue(256)));
    assert_eq!(PartySize::try_from(-1), Err(InvalidValue(-1)));
    assert_eq!(PartySize::try_from(262), Err(InvalidValue(262)));
}

#[test]
fn party_size_totals() {
    assert_eq!(PartySize::Group(7).total_size(), 7);
    assert_eq!(PartySize::NoPlusOne.total_size(), 1);
    assert_eq!(PartySize::AllowedPlusOne.total_size(), 1);
    assert_eq!(PartySize::NotBringing.total_size(), 1);
    assert_eq!(PartySize::Bringing.total_size(), 2);
    assert_eq!(PartySize::NotAttending.total_size(), 0);
}

#[test]
fn party_size_from_selector_options() {
    assert_eq!(PartySize::from_str("Group"), Ok(PartySize::Group(1)));
    assert_eq!(
        PartySize::from_str("Single with plus one"),
        Ok(PartySize::AllowedPlusOne)
    );
    assert_eq!(
        PartySize::from_str("Single; No plus one"),
        Ok(PartySize::NoPlusOne)
    );
    assert_eq!(PartySize::from_str("group"), Err(()));
    assert_eq!(PartySize::from_str(""), Err(()));
}

#[test]
fn party_size_display_strings() {
    assert_eq!(PartySize::Group(12).display_string(), "Group (size of 12)");
    assert_eq!(
        PartySize::NoPlusOne.display_string(),
        "Single person, no +1 allowed"
    );
    assert_eq!(PartySize::Bringing.display_string(), "Person with +1");
    assert_eq!(PartySize::NotAttending.display_string(), "Not Attending");
}

fn guest(party_size: PartySize, email: Option<&str>) -> Guest {
    Guest {
        id: 7,
        name: "June".to_string(),
        party_size,
        full_address: None,
        email: email.map(str::to_string),
        extra_notes: None,
    }
}

#[test]
fn rsvp_is_an_email_or_a_decline() {
    assert!(guest(PartySize::AllowedPlusOne, Some("a@b.c")).has_rsvpd());
    assert!(guest(PartySize::NotAttending, None).has_rsvpd());
    assert!(!guest(PartySize::AllowedPlusOne, None).has_rsvpd());
}

#[test]
fn announcement_needs_name_and_address() {
    let full = AnnouncementRecipient {
        name: "a".to_string(),
        address: "b".to_string(),
        email: String::new(),
    };
    assert!(full.is_complete());
    let nameless = AnnouncementRecipient { name: String::new(), ..full };
    assert!(!nameless.is_complete());
}

#[test]
fn rsvp_decision_cases() {
    // attending without an email is the one rejection
    assert_eq!(rsvp_decision(None, None, true, false), Err(()));
    // declining needs no email and overrides everything
    assert_eq!(
        rsvp_decision(Some(true), Some(4), false, false),
        Ok((PartySize::NotAttending, SizeCond::Any))
    );
    // a group size wins over a plus-one answer
    assert_eq!(
        rsvp_decision(Some(true), Some(4), true, true),
        Ok((PartySize::Group(4), SizeCond::GroupRange))
    );
    assert_eq!(
        rsvp_decision(Some(true), None, true, true),
        Ok((PartySize::Bringing, SizeCond::PlusOneKinds))
    );
    assert_eq!(
        rsvp_decision(Some(false), None, true, true),
        Ok((PartySize::NotBringing, SizeCond::PlusOneKinds))
    );
    assert_eq!(
        rsvp_decision(None, None, true, true),
        Ok((PartySize::NoPlusOne, SizeCond::Alone))
    );
}
