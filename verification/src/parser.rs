//! The record locator and parser.
//!
//! A credential record sits inside unstructured memory content, anchored by
//! fixed byte markers and closed by a terminator. The four bytes before the
//! terminator are a variant tag: one standard-account tag, and two
//! administrator tags. The payload before the tag is text holding a username
//! prefix followed by one (standard) or two (administrator) base64 fields,
//! concatenated without a delimiter, so the boundary is found by brute
//! force: starting at the payload length modulo 4 (or 4 when that is 0, so
//! the trailing segment stays base64-aligned), split points advance by 4 and
//! the first split whose segments all decode wins. Every decode failure only
//! moves the search to the next candidate.

use vstd::prelude::*;

verus! {

use vstd::slice::{slice_subrange, slice_to_vec};
use vstd::string::StringExecFns;
use vstd::utf8::{valid_utf8, decode_utf8};
use crate::decryption::{decrypt_spec, decrypt_password_bytes, string_from_utf8};
use crate::search::{first_match_from, after_first_match, lemma_first_match_from_spec, position,
    slice_eq, starting_at_position};
use crate::scanner::MemoryRegion;

/// One recovered credential: the username initials and the decrypted
/// password. Only a candidate that decoded and validated as text in full
/// ever becomes a `User`.
#[derive(Debug)]
pub struct User {
    pub username_initials: String,
    pub plaintext_pw: String,
}

/// The mathematical value of a credential: both fields as character
/// sequences. Credentials are equal exactly when both fields are.
pub struct UserView {
    pub username_initials: Seq<char>,
    pub plaintext_pw: Seq<char>,
}

impl View for User {
    type V = UserView;

    open spec fn view(&self) -> UserView {
        UserView {
            username_initials: self.username_initials@,
            plaintext_pw: self.plaintext_pw@,
        }
    }
}

impl PartialEq for User {
    fn eq(&self, other: &User) -> (r: bool) {
        self.username_initials == other.username_initials && self.plaintext_pw
            == other.plaintext_pw
    }
}

impl vstd::std_specs::cmp::PartialEqSpecImpl for User {
    open spec fn obeys_eq_spec() -> bool {
        true
    }

    open spec fn eq_spec(&self, other: &User) -> bool {
        self@ == other@
    }
}

impl User {
    /// One output line for a discovered credential, in the form
    /// `identifier: secret`.
    pub fn render_line(&self) -> (r: String)
        ensures
            r@ == self.username_initials@ + ": "@ + self.plaintext_pw@,
    {
        let mut line = self.username_initials.clone();
        line.append(": ");
        line.append(self.plaintext_pw.as_str());
        line
    }
}

/// The bytes as text, exactly when they are valid UTF-8.
fn bytes_to_text(bytes: &[u8]) -> (r: Option<String>)
    ensures
        r is Some <==> valid_utf8(bytes@),
        r matches Some(s) ==> s@ == decode_utf8(bytes@),
{
    match string_from_utf8(slice_to_vec(bytes)) {
        Ok(s) => Some(s),
        Err(_) => None,
    }
}

/// The first candidate split offset: the payload length modulo 4, or 4 when
/// that remainder is 0, so that the segment after the split stays
/// base64-aligned.
pub open spec fn username_padding(len: int) -> int {
    if len % 4 == 0 {
        4
    } else {
        len % 4
    }
}

/// One candidate split of a standard record at offset `k`: the prefix is
/// text and the suffix decodes as one encrypted password field.
pub open spec fn split_ok(data: Seq<u8>, k: int) -> bool {
    &&& valid_utf8(data.subrange(0, k))
    &&& decrypt_spec(data.subrange(k, data.len() as int)) is Some
}

/// The first working split at or after `k`, stepping by 4, strictly below
/// the payload length.
pub open spec fn first_split_from(data: Seq<u8>, k: int) -> Option<int>
    decreases data.len() - k + 4,
{
    if k >= data.len() {
        None
    } else if split_ok(data, k) {
        Some(k)
    } else {
        first_split_from(data, k + 4)
    }
}

/// A parsed standard record: the first working split gives the username
/// prefix and the decoded password; no working split, no record.
pub open spec fn parse_non_admin_spec(data: Seq<u8>) -> Option<UserView> {
    match first_split_from(data, username_padding(data.len() as int)) {
        Some(k) => Some(
            UserView {
                username_initials: decode_utf8(data.subrange(0, k)),
                plaintext_pw: decrypt_spec(data.subrange(k, data.len() as int)).unwrap(),
            },
        ),
        None => None,
    }
}

impl User {
    /// Parse a standard-account payload by brute-force boundary search: try
    /// each candidate split in order and return the first one whose prefix
    /// is text and whose suffix decodes; every failed decode just moves on
    /// to the next split.
    pub fn parse_non_admin_data(data: &[u8]) -> (r: Option<User>)
        ensures
            match r {
                Some(u) => parse_non_admin_spec(data@) == Some(u@),
                None => parse_non_admin_spec(data@) is None,
            },
    {
        let len = data.len();
        let p: usize = if len % 4 == 0 {
            4
        } else {
            len % 4
        };
        let mut k: usize = p;
        while k < len
            invariant
                len == data@.len(),
                p as int == username_padding(data@.len() as int),
                first_split_from(data@, p as int) == first_split_from(data@, k as int),
            decreases len - k,
        {
            let prefix = slice_subrange(data, 0, k);
            let suffix = slice_subrange(data, k, len);
            match bytes_to_text(prefix) {
                Some(uname) => {
                    match decrypt_password_bytes(suffix) {
                        Ok(pw) => {
                            proof {
                                assert(split_ok(data@, k as int));
                                assert(first_split_from(data@, k as int) == Some(k as int));
                            }
                            return Some(User { username_initials: uname, plaintext_pw: pw });
                        },
                        Err(_) => {
                            proof {
                                assert(!split_ok(data@, k as int));
                            }
                        },
                    }
                },
                None => {
                    proof {
                        assert(!split_ok(data@, k as int));
                    }
                },
            }
            proof {
                assert(first_split_from(data@, k as int) == first_split_from(data@, k as int + 4));
            }
            let remaining = len - k;
            if remaining <= 4 {
                proof {
                    assert(first_split_from(data@, k as int + 4) is None);
                }
                return None;
            }
            k += 4;
        }
        proof {
            assert(first_split_from(data@, k as int) is None);
        }
        None
    }
}

/// One candidate inner split of an administrator record whose username ends
/// at `k`: the account password (before the boundary `m`) and the
/// administrator password (after it) both decode. Only the account password
/// is surfaced; the administrator field serves as a validity pre-check.
pub open spec fn admin_split_ok(data: Seq<u8>, k: int, m: int) -> bool {
    &&& decrypt_spec(data.subrange(k + m, data.len() as int)) is Some
    &&& decrypt_spec(data.subrange(k, k + m)) is Some
}

/// The first working inner boundary at or after `m` (an offset into the
/// segment after the username), stepping by 4, strictly inside that segment.
pub open spec fn first_admin_m_from(data: Seq<u8>, k: int, m: int) -> Option<int>
    decreases data.len() - k - m + 4,
{
    if m >= data.len() - k {
        None
    } else if admin_split_ok(data, k, m) {
        Some(m)
    } else {
        first_admin_m_from(data, k, m + 4)
    }
}

/// One candidate outer split of an administrator record at offset `k`: the
/// prefix is text and some inner boundary makes both password fields decode.
pub open spec fn admin_outer_ok(data: Seq<u8>, k: int) -> bool {
    &&& valid_utf8(data.subrange(0, k))
    &&& first_admin_m_from(data, k, 4) is Some
}

/// The first working outer split at or after `k`, stepping by 4, strictly
/// below the payload length.
pub open spec fn first_admin_split_from(data: Seq<u8>, k: int) -> Option<int>
    decreases data.len() - k + 4,
{
    if k >= data.len() {
        None
    } else if admin_outer_ok(data, k) {
        Some(k)
    } else {
        first_admin_split_from(data, k + 4)
    }
}

/// A parsed administrator record: the first working outer split, then the
/// first working inner boundary, give the username and the account
/// password (the administrator password is checked and discarded).
pub open spec fn parse_admin_spec(data: Seq<u8>) -> Option<UserView> {
    match first_admin_split_from(data, username_padding(data.len() as int)) {
        Some(k) => {
            let m = first_admin_m_from(data, k, 4).unwrap();
            Some(
                UserView {
                    username_initials: decode_utf8(data.subrange(0, k)),
                    plaintext_pw: decrypt_spec(data.subrange(k, k + m)).unwrap(),
                },
            )
        },
        None => None,
    }
}

/// The inner brute-force boundary search of an administrator record whose
/// username (already decoded as `uname`) ends at `k`.
fn parse_admin_inner(data: &[u8], k: usize, uname: String) -> (r: Option<User>)
    requires
        k < data@.len(),
        uname@ == decode_utf8(data@.subrange(0, k as int)),
    ensures
        match r {
            Some(u) => {
                &&& first_admin_m_from(data@, k as int, 4) is Some
                &&& u@.username_initials == decode_utf8(data@.subrange(0, k as int))
                &&& u@.plaintext_pw == decrypt_spec(
                    data@.subrange(
                        k as int,
                        k as int + first_admin_m_from(data@, k as int, 4).unwrap(),
                    ),
                ).unwrap()
            },
            None => first_admin_m_from(data@, k as int, 4) is None,
        },
{
    let len = data.len();
    let seg_len = len - k;
    let mut m: usize = 4;
    while m < seg_len
        invariant
            len == data@.len(),
            k < len,
            seg_len == len - k,
            uname@ == decode_utf8(data@.subrange(0, k as int)),
            first_admin_m_from(data@, k as int, 4) == first_admin_m_from(
                data@,
                k as int,
                m as int,
            ),
        decreases seg_len - m,
    {
        let account_field = slice_subrange(data, k, k + m);
        let admin_field = slice_subrange(data, k + m, len);
        let admin_ok = match decrypt_password_bytes(admin_field) {
            Ok(_) => true,
            Err(_) => false,
        };
        if admin_ok {
            match decrypt_password_bytes(account_field) {
                Ok(pw) => {
                    proof {
                        assert(admin_split_ok(data@, k as int, m as int));
                        assert(first_admin_m_from(data@, k as int, m as int) == Some(m as int));
                    }
                    return Some(User { username_initials: uname, plaintext_pw: pw });
                },
                Err(_) => {
                    proof {
                        assert(!admin_split_ok(data@, k as int, m as int));
                    }
                },
            }
        } else {
            proof {
                assert(!admin_split_ok(data@, k as int, m as int));
            }
        }
        proof {
            assert(first_admin_m_from(data@, k as int, m as int) == first_admin_m_from(
                data@,
                k as int,
                m as int + 4,
            ));
        }
        let remaining = seg_len - m;
        if remaining <= 4 {
            proof {
                assert(first_admin_m_from(data@, k as int, m as int + 4) is None);
            }
            return None;
        }
        m += 4;
    }
    proof {
        assert(first_admin_m_from(data@, k as int, m as int) is None);
    }
    None
}

impl User {
    /// Parse an administrator-account payload: the outer brute-force search
    /// finds the username boundary, and for each candidate an inner search
    /// splits the rest into an account password and an administrator
    /// password, both of which must decode before the record is accepted.
    pub fn parse_admin_data(data: &[u8]) -> (r: Option<User>)
        ensures
            match r {
                Some(u) => parse_admin_spec(data@) == Some(u@),
                None => parse_admin_spec(data@) is None,
            },
    {
        let len = data.len();
        let p: usize = if len % 4 == 0 {
            4
        } else {
            len % 4
        };
        let mut k: usize = p;
        while k < len
            invariant
                len == data@.len(),
                p as int == username_padding(data@.len() as int),
                first_admin_split_from(data@, p as int) == first_admin_split_from(
                    data@,
                    k as int,
                ),
            decreases len - k,
        {
            let prefix = slice_subrange(data, 0, k);
            match bytes_to_text(prefix) {
                Some(uname) => {
                    match parse_admin_inner(data, k, uname) {
                        Some(u) => {
                            proof {
                                assert(admin_outer_ok(data@, k as int));
                                assert(first_admin_split_from(data@, k as int) == Some(k as int));
                            }
                            return Some(u);
                        },
                        None => {
                            proof {
                                assert(!admin_outer_ok(data@, k as int));
                            }
                        },
                    }
                },
                None => {
                    proof {
                        assert(!admin_outer_ok(data@, k as int));
                    }
                },
            }
            proof {
                assert(first_admin_split_from(data@, k as int) == first_admin_split_from(
                    data@,
                    k as int + 4,
                ));
            }
            let remaining = len - k;
            if remaining <= 4 {
                proof {
                    assert(first_admin_split_from(data@, k as int + 4) is None);
                }
                return None;
            }
            k += 4;
        }
        proof {
            assert(first_admin_split_from(data@, k as int) is None);
        }
        None
    }
}

/// The record terminator: the ASCII bytes of `false`.
pub open spec fn terminator_seq() -> Seq<u8> {
    seq![102u8, 97u8, 108u8, 115u8, 101u8]
}

/// The standard-account variant tag: the ASCII bytes of `0801`.
pub open spec fn tag_standard_seq() -> Seq<u8> {
    seq![48u8, 56u8, 48u8, 49u8]
}

/// The first administrator variant tag: the ASCII bytes of `0001`.
pub open spec fn tag_admin_a_seq() -> Seq<u8> {
    seq![48u8, 48u8, 48u8, 49u8]
}

/// The second administrator variant tag: the ASCII bytes of `1801`.
pub open spec fn tag_admin_b_seq() -> Seq<u8> {
    seq![49u8, 56u8, 48u8, 49u8]
}

/// The ignorable embedded sub-field marker of an administrator record: the
/// ASCII bytes of `uwNSCO0Igow=`. When present, it and everything after it
/// are a redundant alternate field, and the record is parsed as a standard
/// one up to the marker.
pub open spec fn ignorable_seq() -> Seq<u8> {
    seq![117u8, 119u8, 78u8, 83u8, 67u8, 79u8, 48u8, 73u8, 103u8, 111u8, 119u8, 61u8]
}

/// The database-path field marker that anchors an entry: the ASCII bytes of
/// `pdfpath`.
pub open spec fn marker_pdfpath_seq() -> Seq<u8> {
    seq![112u8, 100u8, 102u8, 112u8, 97u8, 116u8, 104u8]
}

/// The user-record marker inside an entry window: the ASCII bytes of `user`.
pub open spec fn marker_user_seq() -> Seq<u8> {
    seq![117u8, 115u8, 101u8, 114u8]
}

fn terminator() -> (r: Vec<u8>)
    ensures
        r@ == terminator_seq(),
{
    let mut v: Vec<u8> = Vec::new();
    v.push(102);
    v.push(97);
    v.push(108);
    v.push(115);
    v.push(101);
    proof {
        assert(v@ =~= terminator_seq());
    }
    v
}

fn tag_standard() -> (r: Vec<u8>)
    ensures
        r@ == tag_standard_seq(),
{
    let mut v: Vec<u8> = Vec::new();
    v.push(48);
    v.push(56);
    v.push(48);
    v.push(49);
    proof {
        assert(v@ =~= tag_standard_seq());
    }
    v
}

fn tag_admin_a() -> (r: Vec<u8>)
    ensures
        r@ == tag_admin_a_seq(),
{
    let mut v: Vec<u8> = Vec::new();
    v.push(48);
    v.push(48);
    v.push(48);
    v.push(49);
    proof {
        assert(v@ =~= tag_admin_a_seq());
    }
    v
}

fn tag_admin_b() -> (r: Vec<u8>)
    ensures
        r@ == tag_admin_b_seq(),
{
    let mut v: Vec<u8> = Vec::new();
    v.push(49);
    v.push(56);
    v.push(48);
    v.push(49);
    proof {
        assert(v@ =~= tag_admin_b_seq());
    }
    v
}

fn ignorable_marker() -> (r: Vec<u8>)
    ensures
        r@ == ignorable_seq(),
{
    let mut v: Vec<u8> = Vec::new();
    v.push(117);
    v.push(119);
    v.push(78);
    v.push(83);
    v.push(67);
    v.push(79);
    v.push(48);
    v.push(73);
    v.push(103);
    v.push(111);
    v.push(119);
    v.push(61);
    proof {
        assert(v@ =~= ignorable_seq());
    }
    v
}

fn marker_pdfpath() -> (r: Vec<u8>)
    ensures
        r@ == marker_pdfpath_seq(),
{
    let mut v: Vec<u8> = Vec::new();
    v.push(112);
    v.push(100);
    v.push(102);
    v.push(112);
    v.push(97);
    v.push(116);
    v.push(104);
    proof {
        assert(v@ =~= marker_pdfpath_seq());
    }
    v
}

fn marker_user() -> (r: Vec<u8>)
    ensures
        r@ == marker_user_seq(),
{
    let mut v: Vec<u8> = Vec::new();
    v.push(117);
    v.push(115);
    v.push(101);
    v.push(114);
    proof {
        assert(v@ =~= marker_user_seq());
    }
    v
}

/// A parsed raw candidate: everything before the first terminator is the
/// record, its last four bytes are the variant tag, and the payload before
/// the tag must be text. The standard tag parses one password field; either
/// administrator tag parses two, unless the ignorable sub-field marker is
/// present, in which case everything from the marker on is stripped and the
/// record is parsed as a standard one. No terminator, a record shorter than
/// the tag, a payload that is not text, or an unrecognized tag yield
/// nothing.
pub open spec fn try_from_parsed_spec(data: Seq<u8>) -> Option<UserView> {
    match first_match_from(data, terminator_seq(), 0) {
        Some(t) => {
            if t < 4 {
                None
            } else {
                let body = data.subrange(0, t - 4);
                let tag = data.subrange(t - 4, t);
                if !valid_utf8(body) {
                    None
                } else if tag == tag_standard_seq() {
                    parse_non_admin_spec(body)
                } else if tag == tag_admin_a_seq() || tag == tag_admin_b_seq() {
                    match first_match_from(body, ignorable_seq(), 0) {
                        Some(ipos) => parse_non_admin_spec(body.subrange(0, ipos)),
                        None => parse_admin_spec(body),
                    }
                } else {
                    None
                }
            }
        },
        None => None,
    }
}

impl User {
    /// Segment a raw candidate record and parse it according to its variant
    /// tag, as [`try_from_parsed_spec`] lays the steps out. Every
    /// malformation — no terminator, a short record, a non-text payload, an
    /// unknown tag, or no working split — yields `None`, never an error.
    pub fn try_from_parsed_data(data: &[u8]) -> (r: Option<User>)
        ensures
            match r {
                Some(u) => try_from_parsed_spec(data@) == Some(u@),
                None => try_from_parsed_spec(data@) is None,
            },
    {
        let term = terminator();
        let t = match position(data, term.as_slice()) {
            Some(t) => t,
            None => {
                return None;
            },
        };
        proof {
            lemma_first_match_from_spec(data@, terminator_seq(), 0);
        }
        if t < 4 {
            return None;
        }
        let body = slice_subrange(data, 0, t - 4);
        let tag = slice_subrange(data, t - 4, t);
        if bytes_to_text(body).is_none() {
            return None;
        }
        if slice_eq(tag, tag_standard().as_slice()) {
            Self::parse_non_admin_data(body)
        } else if slice_eq(tag, tag_admin_a().as_slice()) || slice_eq(
            tag,
            tag_admin_b().as_slice(),
        ) {
            let ign = ignorable_marker();
            match position(body, ign.as_slice()) {
                Some(ipos) => {
                    proof {
                        lemma_first_match_from_spec(body@, ignorable_seq(), 0);
                    }
                    Self::parse_non_admin_data(slice_subrange(body, 0, ipos))
                },
                None => Self::parse_admin_data(body),
            }
        } else {
            None
        }
    }
}

/// The fixed-size entry window after the database-path marker, clamped to
/// what the snapshot actually holds.
pub open spec fn window_of(entry: Seq<u8>) -> Seq<u8> {
    if entry.len() <= 256 {
        entry
    } else {
        entry.subrange(0, 256)
    }
}

/// The credential one snapshot yields: anchor on the database-path marker,
/// take the 256-byte entry window after it (shorter when the snapshot ends
/// first), find the user-record marker inside the window, and parse what
/// follows it.
pub open spec fn extract_spec(bytes: Seq<u8>) -> Option<UserView> {
    match after_first_match(bytes, marker_pdfpath_seq()) {
        Some(entry) => match after_first_match(window_of(entry), marker_user_seq()) {
            Some(user_data) => try_from_parsed_spec(user_data),
            None => None,
        },
        None => None,
    }
}

/// Search one memory snapshot for a credential record and parse it.
pub fn extract_from_region(bytes: &[u8]) -> (r: Option<User>)
    ensures
        match r {
            Some(u) => extract_spec(bytes@) == Some(u@),
            None => extract_spec(bytes@) is None,
        },
{
    let anchor = marker_pdfpath();
    let entry = match starting_at_position(bytes, anchor.as_slice()) {
        Some(e) => e,
        None => {
            return None;
        },
    };
    let wlen: usize = if entry.len() > 256 {
        256
    } else {
        entry.len()
    };
    let window = slice_subrange(entry, 0, wlen);
    proof {
        assert(window@ =~= window_of(entry@));
    }
    let user_marker = marker_user();
    match starting_at_position(window, user_marker.as_slice()) {
        Some(user_data) => User::try_from_parsed_data(user_data),
        None => None,
    }
}

/// `acc` with `u` appended, unless a structurally equal credential is
/// already there: the locator keeps discovery order and drops duplicates
/// silently.
pub open spec fn insert_unique(acc: Seq<UserView>, u: UserView) -> Seq<UserView> {
    if acc.contains(u) {
        acc
    } else {
        acc.push(u)
    }
}

/// The credentials a sequence of snapshot contents yields, in discovery
/// order and without structural duplicates.
pub open spec fn locate_spec(contents: Seq<Seq<u8>>) -> Seq<UserView>
    decreases contents.len(),
{
    if contents.len() == 0 {
        Seq::empty()
    } else {
        let prev = locate_spec(contents.drop_last());
        match extract_spec(contents.last()) {
            Some(u) => insert_unique(prev, u),
            None => prev,
        }
    }
}

/// Whether a structurally equal credential is already in `users`.
fn contains_user(users: &Vec<User>, u: &User) -> (r: bool)
    ensures
        r == users@.map_values(|x: User| x@).contains(u@),
{
    let ghost views = users@.map_values(|x: User| x@);
    let mut i: usize = 0;
    while i < users.len()
        invariant
            i <= users@.len(),
            views == users@.map_values(|x: User| x@),
            forall|j: int| 0 <= j < i ==> views[j] != u@,
        decreases users@.len() - i,
    {
        let candidate = &users[i];
        if candidate.username_initials == u.username_initials && candidate.plaintext_pw
            == u.plaintext_pw {
            proof {
                assert(views[i as int] == u@);
                assert(views.contains(u@));
            }
            return true;
        }
        proof {
            assert(views[i as int] != u@);
        }
        i += 1;
    }
    false
}

/// Scan every snapshot in order and accumulate the credentials found, first
/// discovery first; a credential structurally equal to one already found is
/// dropped silently.
pub fn locate(regions: &Vec<MemoryRegion>) -> (r: Vec<User>)
    ensures
        r@.map_values(|u: User| u@) == locate_spec(
            regions@.map_values(|m: MemoryRegion| m.bytes@),
        ),
{
    let ghost contents = regions@.map_values(|m: MemoryRegion| m.bytes@);
    let mut users: Vec<User> = Vec::new();
    let mut i: usize = 0;
    while i < regions.len()
        invariant
            i <= regions@.len(),
            contents == regions@.map_values(|m: MemoryRegion| m.bytes@),
            users@.map_values(|u: User| u@) == locate_spec(contents.take(i as int)),
        decreases regions@.len() - i,
    {
        let region = &regions[i];
        let found = extract_from_region(region.bytes.as_slice());
        if let Some(u) = found {
            if !contains_user(&users, &u) {
                let ghost old_views = users@.map_values(|x: User| x@);
                users.push(u);
                proof {
                    assert(users@.map_values(|x: User| x@) =~= old_views.push(u@));
                }
            }
        }
        proof {
            assert(contents.take(i as int + 1).drop_last() =~= contents.take(i as int));
            assert(contents.take(i as int + 1).last() == contents[i as int]);
            assert(users@.map_values(|u: User| u@) == locate_spec(contents.take(i as int + 1)));
        }
        i += 1;
    }
    proof {
        assert(contents.take(regions@.len() as int) =~= contents);
    }
    users
}

/// Law: the locator never yields two structurally equal credentials, for
/// any sequence of snapshot contents.
pub proof fn lemma_locate_no_duplicates(contents: Seq<Seq<u8>>)
    ensures
        forall|i: int, j: int|
            0 <= i < j < locate_spec(contents).len() ==> locate_spec(contents)[i] != locate_spec(
                contents,
            )[j],
    decreases contents.len(),
{
    if contents.len() > 0 {
        lemma_locate_no_duplicates(contents.drop_last());
        let prev = locate_spec(contents.drop_last());
        let cur = locate_spec(contents);
        match extract_spec(contents.last()) {
            Some(u) => {
                if !prev.contains(u) {
                    assert forall|i: int, j: int| 0 <= i < j < cur.len() implies cur[i] != cur[j] by {
                        if j < prev.len() {
                        } else {
                            assert(cur[j] == u);
                            if cur[i] == u {
                                assert(prev[i] == u);
                                assert(prev.contains(u));
                            }
                        }
                    }
                }
            },
            None => {},
        }
    }
}

/// Every credential extracted from some scanned content is in the locator's
/// result.
proof fn lemma_locate_keeps_extracted(contents: Seq<Seq<u8>>, i: int)
    requires
        0 <= i < contents.len(),
        extract_spec(contents[i]) is Some,
    ensures
        locate_spec(contents).contains(extract_spec(contents[i]).unwrap()),
    decreases contents.len(),
{
    broadcast use vstd::seq_lib::lemma_seq_contains_after_push;

    let prev = locate_spec(contents.drop_last());
    let u = extract_spec(contents[i]).unwrap();
    if i == contents.len() - 1 {
        assert(contents.last() == contents[i]);
        if !prev.contains(u) {
            assert(locate_spec(contents) == prev.push(u));
        }
    } else {
        assert(contents.drop_last()[i] == contents[i]);
        lemma_locate_keeps_extracted(contents.drop_last(), i);
        match extract_spec(contents.last()) {
            Some(w) => {
                if !prev.contains(w) {
                    assert(locate_spec(contents) == prev.push(w));
                }
            },
            None => {},
        }
    }
}

/// Law: scanning one more snapshot whose content already appeared earlier
/// changes nothing — re-reading the same memory adds no credential.
pub proof fn lemma_locate_duplicate_content(contents: Seq<Seq<u8>>, i: int)
    requires
        0 <= i < contents.len(),
    ensures
        locate_spec(contents.push(contents[i])) == locate_spec(contents),
{
    let pushed = contents.push(contents[i]);
    assert(pushed.drop_last() =~= contents);
    assert(pushed.last() == contents[i]);
    match extract_spec(contents[i]) {
        Some(u) => {
            lemma_locate_keeps_extracted(contents, i);
        },
        None => {},
    }
}

/// Law: feeding the same snapshot content twice yields exactly what feeding
/// it once yields — in particular, content holding one record yields one
/// credential, not two.
pub proof fn lemma_locate_same_region_twice(content: Seq<u8>)
    ensures
        locate_spec(seq![content, content]) == locate_spec(seq![content]),
        extract_spec(content) is Some ==> locate_spec(seq![content, content]).len() == 1,
{
    let two = seq![content, content];
    let one = seq![content];
    assert(two.drop_last() =~= one);
    assert(one.drop_last() =~= Seq::<Seq<u8>>::empty());
    assert(two.last() == content);
    assert(one.last() == content);
    match extract_spec(content) {
        Some(u) => {
            let first = locate_spec(one);
            assert(locate_spec(Seq::<Seq<u8>>::empty()) == Seq::<UserView>::empty());
            assert(!Seq::<UserView>::empty().contains(u));
            assert(first == Seq::<UserView>::empty().push(u));
            assert(first[0] == u);
            assert(first.contains(u));
            assert(locate_spec(two) == insert_unique(first, u));
        },
        None => {},
    }
}

} // verus!
