//! The authorization gate: resolve the caller's session from the request's
//! cookie header, and require the configured admin group for the
//! administrative operations. Cookie extraction is by exact name match on
//! the first matching segment.

use vstd::prelude::*;
use vstd::utf8::encode_utf8;

use crate::codec::verify_outcome;
use crate::codec::verify_token_bytes;
use crate::errors::Error;
use crate::errors::ErrorKind;
use crate::session::SessionStore;
use crate::session::UserData;
use crate::session::UserDataModel;
use crate::session::SESSION_COOKIE_NAME;
use crate::strutil::str_bytes;
use crate::strutil::sub_bytes;

verus! {

/// An ASCII space or horizontal tab, the padding around cookie segments.
pub open spec fn is_blank(c: u8) -> bool {
    c == 32u8 || c == 9u8
}

/// `s` without its leading blanks.
pub open spec fn trim_front(s: Seq<u8>) -> Seq<u8>
    decreases s.len(),
{
    if s.len() > 0 && is_blank(s.first()) {
        trim_front(s.drop_first())
    } else {
        s
    }
}

/// `s` without its trailing blanks.
pub open spec fn trim_back(s: Seq<u8>) -> Seq<u8>
    decreases s.len(),
{
    if s.len() > 0 && is_blank(s.last()) {
        trim_back(s.drop_last())
    } else {
        s
    }
}

/// `s` without its leading and trailing blanks.
pub open spec fn trimmed(s: Seq<u8>) -> Seq<u8> {
    trim_back(trim_front(s))
}

/// The index of the first semicolon, or the length if there is none.
pub open spec fn first_semi(s: Seq<u8>) -> int
    decreases s.len(),
{
    if s.len() == 0 {
        0
    } else if s.first() == 59u8 {
        0
    } else {
        1 + first_semi(s.drop_first())
    }
}

/// `first_semi` points at a semicolon within bounds, or past the end when
/// there is none, and nothing before it is a semicolon.
pub proof fn lemma_first_semi(s: Seq<u8>)
    ensures
        0 <= first_semi(s) <= s.len(),
        first_semi(s) < s.len() ==> s[first_semi(s)] == 59u8,
        forall|j: int| 0 <= j < first_semi(s) ==> s[j] != 59u8,
    decreases s.len(),
{
    if s.len() > 0 && s.first() != 59u8 {
        lemma_first_semi(s.drop_first());
        assert forall|j: int| 0 <= j < first_semi(s) implies s[j] != 59u8 by {
            if j > 0 {
                assert(s.drop_first()[j - 1] != 59u8);
            }
        }
    }
}

/// What one cookie segment yields for `name`: the bytes after `name=` once
/// the segment is trimmed of blanks, if it has that shape.
pub open spec fn seg_value(seg: Seq<u8>, name: Seq<u8>) -> Option<Seq<u8>> {
    let t = trimmed(seg);
    if t.len() > name.len() && t.take(name.len() as int) == name && t[name.len() as int] == 61u8 {
        Some(t.skip(name.len() + 1 as int))
    } else {
        None
    }
}

/// The value of the first `name=` segment in a cookie header, segments
/// separated by semicolons.
pub open spec fn cookie_value_in(header: Seq<u8>, name: Seq<u8>) -> Option<Seq<u8>>
    decreases header.len(),
    via cookie_value_in_decreases
{
    let p = first_semi(header);
    if p == header.len() {
        seg_value(header, name)
    } else {
        if seg_value(header.take(p), name) is Some {
            seg_value(header.take(p), name)
        } else {
            cookie_value_in(header.skip(p + 1), name)
        }
    }
}

#[via_fn]
proof fn cookie_value_in_decreases(header: Seq<u8>, name: Seq<u8>) {
    lemma_first_semi(header);
}

/// Decides blankness.
fn is_blank_byte(c: u8) -> (r: bool)
    ensures
        r == is_blank(c),
{
    c == 32 || c == 9
}

/// Trimming from the front is cutting at the first non-blank.
proof fn lemma_trim_front_at(s: Seq<u8>, a: int)
    requires
        0 <= a <= s.len(),
        forall|j: int| 0 <= j < a ==> is_blank(s[j]),
        a == s.len() || !is_blank(s[a]),
    ensures
        trim_front(s) == s.skip(a),
    decreases a,
{
    if a == 0 {
        assert(s.skip(0) =~= s);
    } else {
        lemma_trim_front_at(s.drop_first(), a - 1);
        assert(s.drop_first().skip(a - 1) =~= s.skip(a));
    }
}

/// Trimming from the back is cutting at the last non-blank.
proof fn lemma_trim_back_at(s: Seq<u8>, b: int)
    requires
        0 <= b <= s.len(),
        forall|j: int| b <= j < s.len() ==> is_blank(s[j]),
        b == 0 || !is_blank(s[b - 1]),
    ensures
        trim_back(s) == s.take(b),
    decreases s.len(),
{
    if b == s.len() {
        assert(s.take(b) =~= s);
    } else {
        lemma_trim_back_at(s.drop_last(), b);
        assert(s.drop_last().take(b) =~= s.take(b));
    }
}

/// Extracts the trimmed `name=` value from one segment.
fn seg_lookup(seg: &Vec<u8>, name: &Vec<u8>) -> (r: Option<Vec<u8>>)
    ensures
        r matches Some(v) ==> seg_value(seg@, name@) == Some(v@),
        r is None ==> seg_value(seg@, name@) is None,
{
    let mut a: usize = 0;
    while a < seg.len() && is_blank_byte(seg[a])
        invariant
            a <= seg@.len(),
            forall|j: int| 0 <= j < a ==> is_blank(seg@[j]),
        decreases seg@.len() - a,
    {
        a = a + 1;
    }
    proof {
        lemma_trim_front_at(seg@, a as int);
    }
    let mut b: usize = seg.len();
    while b > a && is_blank_byte(seg[b - 1])
        invariant
            a <= b <= seg@.len(),
            forall|j: int| b <= j < seg@.len() ==> is_blank(seg@[j]),
        decreases b,
    {
        b = b - 1;
    }
    let ghost t = trimmed(seg@);
    proof {
        lemma_trim_back_at(seg@.skip(a as int), b - a);
        assert(seg@.skip(a as int).take(b - a) =~= seg@.subrange(a as int, b as int));
        assert(t == seg@.subrange(a as int, b as int));
    }
    if b - a <= name.len() {
        return None;
    }
    let prefix = sub_bytes(seg, a, a + name.len());
    if !crate::strutil::bytes_eq(&prefix, name) {
        proof {
            assert(t.take(name@.len() as int) =~= prefix@);
        }
        return None;
    }
    if seg[a + name.len()] != 61 {
        proof {
            assert(t[name@.len() as int] == seg@[a + name@.len()]);
        }
        return None;
    }
    let v = sub_bytes(seg, a + name.len() + 1, b);
    proof {
        assert(t.take(name@.len() as int) =~= prefix@);
        assert(t[name@.len() as int] == seg@[a + name@.len()]);
        assert(t.skip(name@.len() + 1 as int) =~= v@);
    }
    Some(v)
}

/// Finds the first `name=` cookie in a header.
pub(crate) fn cookie_lookup(header: &Vec<u8>, name: &Vec<u8>) -> (r: Option<Vec<u8>>)
    ensures
        r matches Some(v) ==> cookie_value_in(header@, name@) == Some(v@),
        r is None ==> cookie_value_in(header@, name@) is None,
    decreases header@.len(),
{
    let mut p: usize = 0;
    while p < header.len() && header[p] != 59
        invariant
            p <= header@.len(),
            forall|j: int| 0 <= j < p ==> header@[j] != 59u8,
        decreases header@.len() - p,
    {
        p = p + 1;
    }
    proof {
        lemma_first_semi_at(header@, p as int);
    }
    if p == header.len() {
        seg_lookup(header, name)
    } else {
        let seg = sub_bytes(header, 0, p);
        proof {
            assert(seg@ =~= header@.take(p as int));
        }
        match seg_lookup(&seg, name) {
            Some(v) => Some(v),
            None => {
                let rest = sub_bytes(header, p + 1, header.len());
                proof {
                    assert(rest@ =~= header@.skip(p + 1));
                }
                cookie_lookup(&rest, name)
            },
        }
    }
}

/// The first semicolon is where the scan stopped.
proof fn lemma_first_semi_at(s: Seq<u8>, p: int)
    requires
        0 <= p <= s.len(),
        forall|j: int| 0 <= j < p ==> s[j] != 59u8,
        p == s.len() || s[p] == 59u8,
    ensures
        first_semi(s) == p,
    decreases p,
{
    if p == 0 {
    } else {
        lemma_first_semi_at(s.drop_first(), p - 1);
    }
}

/// The cookie name's bytes.
pub open spec fn cookie_name_bytes() -> Seq<u8> {
    encode_utf8(SESSION_COOKIE_NAME@)
}

/// The view of an optional header string.
pub open spec fn header_view(h: Option<&str>) -> Option<Seq<char>> {
    match h {
        Some(s) => Some(s@),
        None => None,
    }
}

/// How a request resolves to a session: a missing header, a missing
/// cookie, a token that fails verification, and an identifier with no
/// session on file are all the same unauthenticated outcome; otherwise the
/// session's claims are returned.
pub open spec fn resolve_outcome(
    m: Map<Seq<u8>, UserDataModel>,
    secret: Seq<u8>,
    header: Option<Seq<char>>,
) -> Result<UserDataModel, ErrorKind> {
    match header {
        None => Err(ErrorKind::Unauthenticated),
        Some(h) => match cookie_value_in(encode_utf8(h), cookie_name_bytes()) {
            None => Err(ErrorKind::Unauthenticated),
            Some(tok) => match verify_outcome(secret, tok) {
                Err(_) => Err(ErrorKind::Unauthenticated),
                Ok(id) => if m.dom().contains(id) {
                    Ok(m[id])
                } else {
                    Err(ErrorKind::Unauthenticated)
                },
            },
        },
    }
}

/// The admin gate on top of session resolution: a resolved session without
/// the admin group is forbidden — a different refusal than not being
/// signed in at all.
pub open spec fn admin_outcome(
    m: Map<Seq<u8>, UserDataModel>,
    secret: Seq<u8>,
    header: Option<Seq<char>>,
    admin_group: Seq<char>,
) -> Result<UserDataModel, ErrorKind> {
    match resolve_outcome(m, secret, header) {
        Err(e) => Err(e),
        Ok(u) => if u.groups.contains(admin_group) {
            Ok(u)
        } else {
            Err(ErrorKind::Forbidden)
        },
    }
}

/// Resolves the caller's session from the request's cookie header.
pub fn get_session_from_cookie(
    sessions: &SessionStore,
    secret: &Vec<u8>,
    cookie_header: Option<&str>,
) -> (r: Result<UserData, Error>)
    requires
        sessions.wf(),
    ensures
        r matches Ok(u) ==> resolve_outcome(sessions@, secret@, header_view(cookie_header)) == Ok::<
            UserDataModel,
            ErrorKind,
        >(u.model()),
        r matches Err(e) ==> resolve_outcome(sessions@, secret@, header_view(cookie_header))
            == Err::<UserDataModel, ErrorKind>(e.kind),
{
    let header = match cookie_header {
        None => {
            return Err(Error::new(ErrorKind::Unauthenticated));
        },
        Some(h) => h,
    };
    let hb = str_bytes(header);
    let name = str_bytes(SESSION_COOKIE_NAME);
    let tok = match cookie_lookup(&hb, &name) {
        None => {
            return Err(Error::new(ErrorKind::Unauthenticated));
        },
        Some(t) => t,
    };
    let id = match verify_token_bytes(secret, tok) {
        Err(_) => {
            return Err(Error::new(ErrorKind::Unauthenticated));
        },
        Ok(id) => id,
    };
    match sessions.find(&id) {
        None => Err(Error::new(ErrorKind::Unauthenticated)),
        Some(s) => Ok(s.user_data().dup()),
    }
}

/// Resolves the caller's session and requires membership of the admin
/// group; a session without it is forbidden.
pub fn require_admin_session(
    sessions: &SessionStore,
    secret: &Vec<u8>,
    admin_group: &str,
    cookie_header: Option<&str>,
) -> (r: Result<UserData, Error>)
    requires
        sessions.wf(),
    ensures
        r matches Ok(u) ==> admin_outcome(
            sessions@,
            secret@,
            header_view(cookie_header),
            admin_group@,
        ) == Ok::<UserDataModel, ErrorKind>(u.model()),
        r matches Err(e) ==> admin_outcome(
            sessions@,
            secret@,
            header_view(cookie_header),
            admin_group@,
        ) == Err::<UserDataModel, ErrorKind>(e.kind),
{
    let user = match get_session_from_cookie(sessions, secret, cookie_header) {
        Err(e) => {
            return Err(e);
        },
        Ok(u) => u,
    };
    if user.is_in_group(admin_group) {
        Ok(user)
    } else {
        Err(Error::new(ErrorKind::Forbidden))
    }
}

/// A valid session that lacks the admin group is rejected as forbidden,
/// however complete its other claims are.
pub proof fn lemma_admin_gate_rejects(
    m: Map<Seq<u8>, UserDataModel>,
    secret: Seq<u8>,
    header: Option<Seq<char>>,
    admin_group: Seq<char>,
)
    requires
        resolve_outcome(m, secret, header) matches Ok(u) && !u.groups.contains(admin_group),
    ensures
        admin_outcome(m, secret, header, admin_group) == Err::<UserDataModel, ErrorKind>(
            ErrorKind::Forbidden,
        ),
{
}

} // verus!
