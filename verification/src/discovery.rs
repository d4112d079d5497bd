//! Picking the target process out of a process enumeration.
//!
//! The enumeration itself is an outside collaborator: the caller walks the
//! system's process listing and hands the entries over as plain values. What
//! is decided here — reading a fixed-size NUL-padded name field, and taking
//! the first entry whose name matches — is verified.

use vstd::prelude::*;

verus! {

use vstd::slice::{slice_subrange, slice_to_vec};
use vstd::string::StringSliceAdditionalSpecFns;
use vstd::utf8::{valid_utf8, decode_utf8, encode_utf8, encode_utf8_decode_utf8};
use crate::decryption::string_from_utf8;
use crate::search::slice_eq;

/// One entry of a process enumeration: an executable name and the numeric
/// process identifier.
pub struct ProcessEntry {
    pub name: String,
    pub pid: u32,
}

/// The index of the first NUL byte at or after `i`, or the length when
/// there is none.
pub open spec fn first_nul_from(raw: Seq<u8>, i: int) -> int
    decreases raw.len() - i,
{
    if i < 0 || i >= raw.len() {
        raw.len() as int
    } else if raw[i] == 0 {
        i
    } else {
        first_nul_from(raw, i + 1)
    }
}

/// The bytes of a fixed-size, NUL-padded name field up to (and not through)
/// the first NUL; all of them when no byte is NUL.
pub open spec fn nul_prefix(raw: Seq<u8>) -> Seq<u8> {
    raw.subrange(0, first_nul_from(raw, 0))
}

/// The printable name held in a NUL-padded name field: the bytes before the
/// first NUL read as text, or nothing when they are not valid text.
pub fn cstr_prefix_text(raw: &[u8]) -> (r: Option<String>)
    ensures
        r is Some <==> valid_utf8(nul_prefix(raw@)),
        r matches Some(s) ==> s@ == decode_utf8(nul_prefix(raw@)),
{
    let mut end: usize = 0;
    while end < raw.len() && raw[end] != 0
        invariant
            end <= raw@.len(),
            first_nul_from(raw@, 0) == first_nul_from(raw@, end as int),
        decreases raw@.len() - end,
    {
        proof {
            assert(first_nul_from(raw@, end as int) == first_nul_from(raw@, end as int + 1));
        }
        end += 1;
    }
    proof {
        assert(first_nul_from(raw@, end as int) == end);
    }
    let prefix = slice_subrange(raw, 0, end);
    match string_from_utf8(slice_to_vec(prefix)) {
        Ok(s) => Some(s),
        Err(_) => None,
    }
}

/// The identifier of the first entry whose name is `name`, in enumeration
/// order, if any entry matches.
pub open spec fn first_pid_from(entries: Seq<ProcessEntry>, name: Seq<char>, i: int) -> Option<
    u32,
>
    decreases entries.len() - i,
{
    if i < 0 || i >= entries.len() {
        None
    } else if entries[i].name@ == name {
        Some(entries[i].pid)
    } else {
        first_pid_from(entries, name, i + 1)
    }
}

/// The process identifier of the target application: the first enumerated
/// entry whose executable name equals `name`, or nothing when the target is
/// not running.
pub fn process_by_name(entries: &Vec<ProcessEntry>, name: &str) -> (r: Option<u32>)
    ensures
        r == first_pid_from(entries@, name@, 0),
{
    let mut i: usize = 0;
    while i < entries.len()
        invariant
            i <= entries@.len(),
            first_pid_from(entries@, name@, 0) == first_pid_from(entries@, name@, i as int),
        decreases entries@.len() - i,
    {
        let entry = &entries[i];
        if slice_eq(entry.name.as_str().as_bytes(), name.as_bytes()) {
            proof {
                broadcast use encode_utf8_decode_utf8;

                assert(decode_utf8(encode_utf8(entry.name@)) == decode_utf8(encode_utf8(name@)));
                assert(entry.name@ == name@);
            }
            return Some(entry.pid);
        }
        proof {
            broadcast use encode_utf8_decode_utf8;

            if entries@[i as int].name@ == name@ {
                assert(encode_utf8(entry.name@) == encode_utf8(name@));
            }
        }
        i += 1;
    }
    None
}

} // verus!
