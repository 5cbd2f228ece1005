//! The key that the stored state is wrapped with: bound to the machine and to
//! its current boot.

use crate::scan::{
    find_char, find_text, first_occurrence, last_word, lines, lines_of, place_of, text_views, trim,
    trim_back, trim_front, word_at_end,
};
use crate::text::{contains_text, occurs};
use hmac::{Hmac, KeyInit, Mac};
use sha2::Sha256;
use vstd::prelude::*;
use vstd::utf8::encode_utf8;

verus! {

/// The HMAC-SHA256 code of a message under a key.
pub uninterp spec fn hmac_sha256(key: Seq<u8>, message: Seq<u8>) -> Seq<u8>;

/// Calls `Hmac::<Sha256>::new_from_slice`, which takes a key of any length,
/// `update` and `finalize`: the code of the message under the key, 32 bytes
/// that depend on the two alone.
#[verifier::external_body]
fn hmac_code(key: &[u8], message: &[u8]) -> (r: Option<Vec<u8>>)
    ensures
        r is Some,
        r->0@ == hmac_sha256(key@, message@),
        r->0@.len() == 32,
{
    let mut mac = Hmac::<Sha256>::new_from_slice(key).ok()?;
    mac.update(message);
    Some(mac.finalize().into_bytes().to_vec())
}

/// The purpose that the key is derived for.
pub open spec fn wrap_info() -> Seq<u8> {
    encode_utf8("tunnet-state-enc-v1"@)
}

/// What the key is derived from: the machine's id and behind it the boot's.
pub open spec fn key_material(machine: Seq<u8>, boot: Seq<u8>) -> Seq<u8> {
    machine + boot
}

/// The salt that is used: 32 zero bytes where none is given.
pub open spec fn salt_or_zeros(salt: Seq<u8>) -> Seq<u8> {
    if salt.len() == 0 {
        Seq::new(32, |i: int| 0u8)
    } else {
        salt
    }
}

/// Extract-and-expand by HMAC-SHA256, one block long.
pub open spec fn wrap_key(machine: Seq<u8>, boot: Seq<u8>, salt: Seq<u8>) -> Seq<u8> {
    hmac_sha256(
        hmac_sha256(salt_or_zeros(salt), key_material(machine, boot)),
        wrap_info().push(1),
    )
}

/// The 32 bytes of the key for a machine, its boot where it has an id, and a
/// salt. Without a code there would be no key, but every key length is taken.
pub fn derive_wrap_key(machine: &str, boot: Option<&str>, salt: &[u8]) -> (r: Option<Vec<u8>>)
    ensures
        r matches Some(key) && key@ == wrap_key(
            encode_utf8(machine@),
            match boot {
                Some(b) => encode_utf8(b@),
                None => Seq::empty(),
            },
            salt@,
        ) && key@.len() == 32,
{
    let mut ikm: Vec<u8> = Vec::new();
    ikm.extend_from_slice(machine.as_bytes());
    if let Some(b) = boot {
        ikm.extend_from_slice(b.as_bytes());
    }
    let ghost boot_bytes = match boot {
        Some(b) => encode_utf8(b@),
        None => Seq::empty(),
    };
    proof {
        assert(ikm@ =~= key_material(encode_utf8(machine@), boot_bytes));
    }
    let mut zeros: Vec<u8> = Vec::new();
    while zeros.len() < 32
        invariant
            zeros@.len() <= 32,
            zeros@ =~= Seq::new(zeros@.len(), |i: int| 0u8),
        decreases 32 - zeros@.len(),
    {
        zeros.push(0);
    }
    let prk = if salt.len() == 0 {
        hmac_code(zeros.as_slice(), ikm.as_slice())
    } else {
        hmac_code(salt, ikm.as_slice())
    };
    let mut info: Vec<u8> = Vec::new();
    info.extend_from_slice("tunnet-state-enc-v1".as_bytes());
    info.push(1);
    proof {
        assert(info@ =~= wrap_info().push(1));
        assert(salt@.len() == 0 ==> zeros@ =~= salt_or_zeros(salt@));
    }
    match prk {
        Some(prk) => hmac_code(prk.as_slice(), info.as_slice()),
        None => None,
    }
}

/// What stands between the first occurrence of a key in a line and the next
/// one, or the line's end.
pub open spec fn behind_key(line: Seq<char>, key: Seq<char>) -> Option<Seq<char>> {
    let at = first_occurrence(line, key, 0);
    if at >= line.len() {
        None
    } else {
        let from = at + key.len();
        Some(line.subrange(from, first_occurrence(line, key, from)))
    }
}

/// The first quoted text of a property's value: behind the `=` where there is one.
pub open spec fn quoted_value(rest: Seq<char>) -> Option<Seq<char>> {
    let eq = place_of(rest, '=', 0);
    let from = if eq < rest.len() {
        eq + 1
    } else {
        0
    };
    let open = place_of(rest, '"', from);
    let close = place_of(rest, '"', open + 1);
    if open < rest.len() && close < rest.len() {
        Some(rest.subrange(open + 1, close))
    } else {
        None
    }
}

/// The hardware's id in one line of what `ioreg` prints.
pub open spec fn platform_uuid(line: Seq<char>) -> Option<Seq<char>> {
    match behind_key(line, "IOPlatformUUID"@) {
        Some(rest) => quoted_value(rest),
        None => None,
    }
}

fn uuid_in_line(line: &str) -> (r: Option<String>)
    ensures
        crate::membership::opt_text(r) == platform_uuid(line@),
{
    proof {
        reveal_strlit("IOPlatformUUID");
    }
    let key = "IOPlatformUUID";
    let n: usize = line.unicode_len();
    let at: usize = find_text(line, key, 0);
    if at == n {
        return None;
    }
    let from: usize = at + 14;
    let to: usize = find_text(line, key, from);
    let rest = line.substring_char(from, to);
    let m: usize = rest.unicode_len();
    let eq: usize = find_char(rest, '=', 0);
    let start: usize = if eq < m {
        eq + 1
    } else {
        0
    };
    let open: usize = find_char(rest, '"', start);
    if open == m {
        return None;
    }
    let close: usize = find_char(rest, '"', open + 1);
    if close == m {
        return None;
    }
    Some(rest.substring_char(open + 1, close).to_owned())
}

/// The first line that gives something.
pub open spec fn first_some(
    lines: Seq<Seq<char>>,
    f: spec_fn(Seq<char>) -> Option<Seq<char>>,
) -> Option<Seq<char>>
    decreases lines.len(),
{
    if lines.len() == 0 {
        None
    } else {
        match f(lines[0]) {
            Some(x) => Some(x),
            None => first_some(lines.drop_first(), f),
        }
    }
}

/// The machine's id from what `ioreg` prints on macOS, or a text that says it
/// is not there.
pub fn ioreg_machine_id(text: &str) -> (r: Result<String, String>)
    ensures
        match first_some(lines_of(text@), |l: Seq<char>| platform_uuid(l)) {
            Some(id) => r matches Ok(s) && s@ == id,
            None => r matches Err(e) && e@ == "IOPlatformUUID not found"@,
        },
{
    let all = lines(text);
    let ghost f = |l: Seq<char>| platform_uuid(l);
    let ghost views = text_views(all@);
    let mut i: usize = 0;
    proof {
        assert(views.skip(0) =~= views);
    }
    while i < all.len()
        invariant
            i <= all@.len(),
            views == text_views(all@),
            views == lines_of(text@),
            f == (|l: Seq<char>| platform_uuid(l)),
            first_some(views.skip(i as int), f) == first_some(views, f),
        decreases all@.len() - i,
    {
        let ghost rest = views.skip(i as int);
        proof {
            assert(rest[0] == all@[i as int]@);
            assert(rest.drop_first() =~= views.skip(i + 1));
        }
        let found = uuid_in_line(all[i].as_str());
        if let Some(id) = found {
            return Ok(id);
        }
        i = i + 1;
    }
    Err("IOPlatformUUID not found".to_owned())
}

/// The machine's id in one line of what `reg query` prints.
pub open spec fn guid_in(line: Seq<char>) -> Option<Seq<char>> {
    if occurs("MachineGuid"@, line) && last_word(line).len() > 0 {
        Some(last_word(line))
    } else {
        None
    }
}

/// The machine's id from what `reg query` prints on Windows, or a text that
/// says it is not there.
pub fn reg_machine_id(text: &str) -> (r: Result<String, String>)
    ensures
        match first_some(lines_of(text@), |l: Seq<char>| guid_in(l)) {
            Some(id) => r matches Ok(s) && s@ == id,
            None => r matches Err(e) && e@ == "MachineGuid not found"@,
        },
{
    let all = lines(text);
    let ghost f = |l: Seq<char>| guid_in(l);
    let ghost views = text_views(all@);
    let mut i: usize = 0;
    proof {
        assert(views.skip(0) =~= views);
    }
    while i < all.len()
        invariant
            i <= all@.len(),
            views == text_views(all@),
            views == lines_of(text@),
            f == (|l: Seq<char>| guid_in(l)),
            first_some(views.skip(i as int), f) == first_some(views, f),
        decreases all@.len() - i,
    {
        let ghost rest = views.skip(i as int);
        proof {
            assert(rest[0] == all@[i as int]@);
            assert(rest.drop_first() =~= views.skip(i + 1));
        }
        if contains_text(all[i].as_str(), "MachineGuid") {
            let word = word_at_end(all[i].as_str());
            if word.as_str().unicode_len() > 0 {
                return Ok(word);
            }
        }
        i = i + 1;
    }
    Err("MachineGuid not found".to_owned())
}

/// The first file that holds an id.
pub open spec fn first_id(files: Seq<Option<Seq<char>>>) -> Option<Seq<char>>
    decreases files.len(),
{
    if files.len() == 0 {
        None
    } else {
        match files[0] {
            Some(s) => if trim_front(trim_back(s)).len() > 0 {
                Some(trim_front(trim_back(s)))
            } else {
                first_id(files.drop_first())
            },
            None => first_id(files.drop_first()),
        }
    }
}

pub open spec fn file_views(v: Seq<Option<String>>) -> Seq<Option<Seq<char>>> {
    Seq::new(v.len(), |i: int| crate::membership::opt_text(v[i]))
}

/// The machine's id on Linux, from what the files that may hold it hold, in
/// the order in which they are asked, or a text that says there is none.
pub fn linux_machine_id(files: &Vec<Option<String>>) -> (r: Result<String, String>)
    ensures
        match first_id(file_views(files@)) {
            Some(id) => r matches Ok(s) && s@ == id,
            None => r matches Err(e) && e@ == "no machine-id found"@,
        },
{
    let ghost views = file_views(files@);
    let mut i: usize = 0;
    proof {
        assert(views.skip(0) =~= views);
    }
    while i < files.len()
        invariant
            i <= files@.len(),
            views == file_views(files@),
            first_id(views.skip(i as int)) == first_id(views),
        decreases files@.len() - i,
    {
        let ghost rest = views.skip(i as int);
        proof {
            assert(rest[0] == crate::membership::opt_text(files@[i as int]));
            assert(rest.drop_first() =~= views.skip(i + 1));
        }
        if let Some(s) = &files[i] {
            let id = trim(s.as_str());
            if id.as_str().unicode_len() > 0 {
                return Ok(id);
            }
        }
        i = i + 1;
    }
    Err("no machine-id found".to_owned())
}

/// Without a salt the key is that of 32 zero bytes.
pub proof fn law_no_salt_is_zero_salt(machine: Seq<u8>, boot: Seq<u8>)
    ensures
        wrap_key(machine, boot, Seq::empty()) == wrap_key(
            machine,
            boot,
            Seq::new(32, |i: int| 0u8),
        ),
{
}

} // verus!
