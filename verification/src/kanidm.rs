//! Projections of the identity provider's records. The provider hands back
//! attribute bags — lists of values per attribute name — and the
//! translation here is exact about which attributes are required: a record
//! without a `uuid` or a `name` is fatal to that record, while the optional
//! attributes default to empty.

use vstd::prelude::*;

use crate::errors::Error;
use crate::errors::ErrorKind;

verus! {

/// The attribute bag of a person record, one list of values per attribute.
pub struct RawPerson {
    pub uuid: Vec<String>,
    pub name: Vec<String>,
    pub displayname: Vec<String>,
    pub mail: Vec<String>,
    pub memberof: Vec<String>,
}

/// The attribute bag of a group record.
pub struct RawGroup {
    pub uuid: Vec<String>,
    pub name: Vec<String>,
}

/// The abstract content of a translated person.
pub ghost struct PersonModel {
    pub uuid: Seq<char>,
    pub name: Seq<char>,
    pub display_name: Seq<char>,
    pub email_addresses: Seq<Seq<char>>,
    pub groups: Seq<Seq<char>>,
}

/// The abstract content of a translated group.
pub ghost struct GroupModel {
    pub uuid: Seq<char>,
    pub name: Seq<char>,
}

/// An attribute bag can be translated when its required attributes each
/// carry at least one value.
pub open spec fn raw_person_ok(raw: RawPerson) -> bool {
    raw.uuid@.len() > 0 && raw.name@.len() > 0
}

/// What a translatable person bag translates to: the first value of each
/// required attribute, a defaulted display name, and the optional lists
/// carried over.
pub open spec fn raw_person_model(raw: RawPerson) -> PersonModel {
    PersonModel {
        uuid: raw.uuid@[0]@,
        name: raw.name@[0]@,
        display_name: if raw.displayname@.len() > 0 {
            raw.displayname@[0]@
        } else {
            Seq::<char>::empty()
        },
        email_addresses: raw.mail.deep_view(),
        groups: raw.memberof.deep_view(),
    }
}

/// An attribute bag can be translated into a group when both required
/// attributes carry a value.
pub open spec fn raw_group_ok(raw: RawGroup) -> bool {
    raw.uuid@.len() > 0 && raw.name@.len() > 0
}

/// What a translatable group bag translates to.
pub open spec fn raw_group_model(raw: RawGroup) -> GroupModel {
    GroupModel { uuid: raw.uuid@[0]@, name: raw.name@[0]@ }
}

/// The translation of a whole listing: the translatable records, in their
/// wire order; an untranslatable record is fatal to itself alone.
pub open spec fn translated_persons(s: Seq<RawPerson>) -> Seq<PersonModel>
    decreases s.len(),
{
    if s.len() == 0 {
        Seq::empty()
    } else if raw_person_ok(s.last()) {
        translated_persons(s.drop_last()).push(raw_person_model(s.last()))
    } else {
        translated_persons(s.drop_last())
    }
}

/// The translation of a whole group listing, in wire order.
pub open spec fn translated_groups(s: Seq<RawGroup>) -> Seq<GroupModel>
    decreases s.len(),
{
    if s.len() == 0 {
        Seq::empty()
    } else if raw_group_ok(s.last()) {
        translated_groups(s.drop_last()).push(raw_group_model(s.last()))
    } else {
        translated_groups(s.drop_last())
    }
}

/// A person as this application sees one.
pub struct Person {
    pub uuid: String,
    pub name: String,
    pub display_name: String,
    pub email_addresses: Vec<String>,
    pub groups: Vec<String>,
}

/// A group as this application sees one.
pub struct Group {
    pub uuid: String,
    pub name: String,
}

/// A credential-reset link the identity provider issued: where to send the
/// new user, and until when the link works (seconds since the Unix epoch).
pub struct ResetLink {
    pub url: String,
    pub expires_at: u64,
}

impl Person {
    /// The person's abstract content.
    pub open spec fn model(&self) -> PersonModel {
        PersonModel {
            uuid: self.uuid@,
            name: self.name@,
            display_name: self.display_name@,
            email_addresses: self.email_addresses.deep_view(),
            groups: self.groups.deep_view(),
        }
    }

    /// Translates an attribute bag into a person. `uuid` and `name` must
    /// each carry at least one value — their first value is taken — while
    /// a missing `displayname` defaults to empty and `mail` and `memberof`
    /// are carried over as they are.
    pub fn try_from_raw(raw: RawPerson) -> (r: Result<Person, Error>)
        ensures
            r is Ok <==> raw_person_ok(raw),
            r matches Ok(p) ==> p.model() == raw_person_model(raw),
            r matches Err(e) ==> e.kind matches ErrorKind::UpstreamError(_),
    {
        if raw.uuid.len() == 0 {
            return Err(Error::new(ErrorKind::UpstreamError("missing uuid for person".to_owned())));
        }
        if raw.name.len() == 0 {
            return Err(Error::new(ErrorKind::UpstreamError("missing name for person".to_owned())));
        }
        let display_name = if raw.displayname.len() > 0 {
            raw.displayname[0].clone()
        } else {
            String::new()
        };
        Ok(
            Person {
                uuid: raw.uuid[0].clone(),
                name: raw.name[0].clone(),
                display_name,
                email_addresses: raw.mail,
                groups: raw.memberof,
            },
        )
    }
}

impl Group {
    /// The group's abstract content.
    pub open spec fn model(&self) -> GroupModel {
        GroupModel { uuid: self.uuid@, name: self.name@ }
    }

    /// Translates an attribute bag into a group; `uuid` and `name` are
    /// required, their first value is taken.
    pub fn try_from_raw(raw: RawGroup) -> (r: Result<Group, Error>)
        ensures
            r is Ok <==> raw_group_ok(raw),
            r matches Ok(g) ==> g.model() == raw_group_model(raw),
            r matches Err(e) ==> e.kind matches ErrorKind::UpstreamError(_),
    {
        if raw.uuid.len() == 0 {
            return Err(Error::new(ErrorKind::UpstreamError("missing uuid for group".to_owned())));
        }
        if raw.name.len() == 0 {
            return Err(Error::new(ErrorKind::UpstreamError("missing name for group".to_owned())));
        }
        Ok(Group { uuid: raw.uuid[0].clone(), name: raw.name[0].clone() })
    }
}

/// Translates a whole person listing: exactly the translatable records,
/// in their wire order.
pub fn persons_from_raw(entries: Vec<RawPerson>) -> (r: Vec<Person>)
    ensures
        r@.map_values(|p: Person| p.model()) == translated_persons(entries@),
{
    let ghost all = entries@;
    let mut rest = entries;
    let mut out: Vec<Person> = Vec::new();
    let ghost mut done: int = 0;
    while rest.len() > 0
        invariant
            0 <= done <= all.len(),
            rest@ == all.skip(done),
            out@.map_values(|p: Person| p.model()) == translated_persons(all.take(done)),
        decreases rest@.len(),
    {
        let raw = rest.remove(0);
        proof {
            assert(raw == all[done]);
            assert(rest@ =~= all.skip(done + 1));
            assert(all.take(done + 1).drop_last() =~= all.take(done));
            assert(all.take(done + 1).last() == all[done]);
        }
        match Person::try_from_raw(raw) {
            Ok(p) => {
                out.push(p);
                proof {
                    assert(out@.map_values(|p: Person| p.model()) =~= translated_persons(
                        all.take(done + 1),
                    ));
                }
            },
            Err(_) => {},
        }
        proof {
            done = done + 1;
        }
    }
    proof {
        assert(all.take(all.len() as int) =~= all);
    }
    out
}

/// Translates a whole group listing: exactly the translatable records, in
/// their wire order.
pub fn groups_from_raw(entries: Vec<RawGroup>) -> (r: Vec<Group>)
    ensures
        r@.map_values(|g: Group| g.model()) == translated_groups(entries@),
{
    let ghost all = entries@;
    let mut rest = entries;
    let mut out: Vec<Group> = Vec::new();
    let ghost mut done: int = 0;
    while rest.len() > 0
        invariant
            0 <= done <= all.len(),
            rest@ == all.skip(done),
            out@.map_values(|g: Group| g.model()) == translated_groups(all.take(done)),
        decreases rest@.len(),
    {
        let raw = rest.remove(0);
        proof {
            assert(raw == all[done]);
            assert(rest@ =~= all.skip(done + 1));
            assert(all.take(done + 1).drop_last() =~= all.take(done));
            assert(all.take(done + 1).last() == all[done]);
        }
        match Group::try_from_raw(raw) {
            Ok(g) => {
                out.push(g);
                proof {
                    assert(out@.map_values(|g: Group| g.model()) =~= translated_groups(
                        all.take(done + 1),
                    ));
                }
            },
            Err(_) => {},
        }
        proof {
            done = done + 1;
        }
    }
    proof {
        assert(all.take(all.len() as int) =~= all);
    }
    out
}

impl ResetLink {
    /// Builds the reset link for a credential-update intent token: the
    /// provider's reset page with the token as its query.
    pub fn from_intent(base_url: &str, token: &str, expires_at: u64) -> (r: Self)
        ensures
            r.url@ == base_url@ + "/ui/reset?token="@ + token@,
            r.expires_at == expires_at,
    {
        let mut url = base_url.to_owned();
        vstd::string::StringExecFns::append(&mut url, "/ui/reset?token=");
        vstd::string::StringExecFns::append(&mut url, token);
        ResetLink { url, expires_at }
    }

    /// A fresh copy of the reset link.
    pub fn dup(&self) -> (r: Self)
        ensures
            r.url@ == self.url@,
            r.expires_at == self.expires_at,
    {
        ResetLink { url: self.url.clone(), expires_at: self.expires_at }
    }
}

} // verus!
