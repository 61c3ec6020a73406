use authit::errors::{Error, ErrorKind};
use authit::kanidm::{Group, Person, RawGroup, RawPerson};

fn strings(xs: &[&str]) -> Vec<String> {
    xs.iter().map(|x| x.to_string()).collect()
}

#[test]
fn person_translation_takes_first_values() {
    let raw = RawPerson {
        uuid: strings(&["11111111-2222-3333-4444-555555555555", "ignored"]),
        name: strings(&["jdoe"]),
        displayname: strings(&["Jane Doe"]),
        mail: strings(&["jdoe@example.com", "jane@example.com"]),
        memberof: strings(&["staff@example.com"]),
    };
    let p = Person::try_from_raw(raw).unwrap();
    assert_eq!(p.uuid, "11111111-2222-3333-4444-555555555555");
    assert_eq!(p.name, "jdoe");
    assert_eq!(p.display_name, "Jane Doe");
    assert_eq!(p.email_addresses, strings(&["jdoe@example.com", "jane@example.com"]));
    assert_eq!(p.groups, strings(&["staff@example.com"]));
}

#[test]
fn person_without_uuid_is_fatal_to_that_record() {
    let raw = RawPerson {
        uuid: vec![],
        name: strings(&["jdoe"]),
        displayname: strings(&["Jane Doe"]),
        mail: vec![],
        memberof: vec![],
    };
    let r = Person::try_from_raw(raw);
    assert!(matches!(r, Err(e) if matches!(e.kind, ErrorKind::UpstreamError(_))));
}

#[test]
fn person_without_name_is_fatal_to_that_record() {
    let raw = RawPerson {
        uuid: strings(&["11111111-2222-3333-4444-555555555555"]),
        name: vec![],
        displayname: vec![],
        mail: vec![],
        memberof: vec![],
    };
    assert!(Person::try_from_raw(raw).is_err());
}

#[test]
fn missing_optional_attributes_default_to_empty() {
    let raw = RawPerson {
        uuid: strings(&["11111111-2222-3333-4444-555555555555"]),
        name: strings(&["jdoe"]),
        displayname: vec![],
        mail: vec![],
        memberof: vec![],
    };
    let p = Person::try_from_raw(raw).unwrap();
    assert_eq!(p.display_name, "");
    assert!(p.email_addresses.is_empty());
    assert!(p.groups.is_empty());
}

#[test]
fn group_translation_requires_uuid_and_name() {
    let g = Group::try_from_raw(RawGroup {
        uuid: strings(&["aaaa"]),
        name: strings(&["staff", "extra"]),
    })
    .unwrap();
    assert_eq!(g.uuid, "aaaa");
    assert_eq!(g.name, "staff");

    assert!(Group::try_from_raw(RawGroup { uuid: vec![], name: strings(&["staff"]) }).is_err());
    assert!(Group::try_from_raw(RawGroup { uuid: strings(&["aaaa"]), name: vec![] }).is_err());
}

#[test]
fn error_new_carries_its_kind() {
    let e = Error::new(ErrorKind::Expired);
    assert_eq!(e.kind, ErrorKind::Expired);
    let e = Error::new(ErrorKind::UpstreamError("status 502".to_string()));
    assert_eq!(e.kind, ErrorKind::UpstreamError("status 502".to_string()));
}

#[test]
fn listing_translation_keeps_order_and_drops_bad_records() {
    let entries = vec![
        RawPerson {
            uuid: strings(&["u-a"]),
            name: strings(&["alice"]),
            displayname: strings(&["Alice"]),
            mail: vec![],
            memberof: vec![],
        },
        RawPerson {
            uuid: vec![], // fatal to this record only
            name: strings(&["ghost"]),
            displayname: vec![],
            mail: vec![],
            memberof: vec![],
        },
        RawPerson {
            uuid: strings(&["u-b"]),
            name: strings(&["bob"]),
            displayname: vec![],
            mail: strings(&["bob@example.com"]),
            memberof: strings(&["staff"]),
        },
    ];
    let persons = authit::kanidm::persons_from_raw(entries);
    assert_eq!(persons.len(), 2);
    assert_eq!(persons[0].name, "alice");
    assert_eq!(persons[1].name, "bob");
    assert_eq!(persons[1].display_name, "");
    assert_eq!(persons[1].groups, strings(&["staff"]));
}

#[test]
fn group_listing_translation_drops_bad_records() {
    let entries = vec![
        RawGroup { uuid: strings(&["g-1"]), name: strings(&["staff"]) },
        RawGroup { uuid: strings(&["g-2"]), name: vec![] },
        RawGroup { uuid: strings(&["g-3"]), name: strings(&["vpn"]) },
    ];
    let groups = authit::kanidm::groups_from_raw(entries);
    assert_eq!(groups.len(), 2);
    assert_eq!(groups[0].name, "staff");
    assert_eq!(groups[1].name, "vpn");
}
