//! Unit naming: the service manager's path-escaping convention.
//!
//! A mount unit is named after the path it mounts: the path's UTF-8 bytes are
//! trimmed of leading and trailing slashes, runs of slashes are collapsed,
//! each slash becomes a hyphen, every byte outside the safe set becomes a
//! `\xNN` escape, and the `.mount` suffix is appended.

use vstd::prelude::*;

verus! {

use vstd::string::StringSliceAdditionalSpecFns;
use vstd::string::StringExecFns;
use vstd::utf8::encode_utf8;

/// The lower-case hexadecimal digit for a value below sixteen.
pub open spec fn hex_digit_char(d: u8) -> char
    recommends
        d < 16,
{
    if d < 10 {
        ((d + 48) as u8) as char  // '0' ..= '9'
    } else {
        ((d + 87) as u8) as char  // 'a' ..= 'f'
    }
}

/// Bytes the escaping convention keeps as they are, at any position:
/// `:`, `_`, digits and ASCII letters.
pub open spec fn is_unescaped_byte(b: u8) -> bool {
    b == 58  // ':'
    || b == 95  // '_'
    || (48 <= b && b <= 57)  // '0' ..= '9'
    || (97 <= b && b <= 122)  // 'a' ..= 'z'
    || (65 <= b && b <= 90)  // 'A' ..= 'Z'
}

/// What one byte of a path contributes to the escaped form. A slash becomes
/// a hyphen; a safe byte stays; a dot stays except in first position; every
/// other byte becomes `\x` and two lower-case hex digits.
pub open spec fn escape_byte_spec(b: u8, first: bool) -> Seq<char> {
    if b == 47 {  // '/'
        seq!['-']
    } else if is_unescaped_byte(b) {
        seq![b as char]
    } else if b == 46 && !first {  // '.'
        seq!['.']
    } else {
        seq!['\\', 'x', hex_digit_char(b / 16), hex_digit_char(b % 16)]
    }
}

/// The bytes with every leading and trailing slash removed.
pub open spec fn trim_slashes(b: Seq<u8>) -> Seq<u8>
    decreases b.len(),
{
    if b.len() > 0 && b[0] == 47 {
        trim_slashes(b.drop_first())
    } else if b.len() > 0 && b[b.len() - 1] == 47 {
        trim_slashes(b.drop_last())
    } else {
        b
    }
}

/// The suffix of `b` from `i` on, with every slash that directly follows
/// another slash dropped.
pub open spec fn collapse_slashes_from(b: Seq<u8>, i: int) -> Seq<u8>
    decreases b.len() - i,
{
    if i < 0 || i >= b.len() {
        Seq::empty()
    } else if b[i] == 47 && i > 0 && b[i - 1] == 47 {
        collapse_slashes_from(b, i + 1)
    } else {
        seq![b[i]] + collapse_slashes_from(b, i + 1)
    }
}

/// The bytes with every run of slashes shortened to a single slash.
pub open spec fn collapse_slashes(b: Seq<u8>) -> Seq<u8> {
    collapse_slashes_from(b, 0)
}

/// The escaped forms of the bytes from `i` on, concatenated; only the byte
/// at position zero counts as first.
pub open spec fn escape_bytes_from(b: Seq<u8>, i: int) -> Seq<char>
    decreases b.len() - i,
{
    if i < 0 || i >= b.len() {
        Seq::empty()
    } else {
        escape_byte_spec(b[i], i == 0) + escape_bytes_from(b, i + 1)
    }
}

/// The service manager's escaped form of a path given by its UTF-8 bytes:
/// trim slashes at both ends, then—if nothing is left—a single hyphen,
/// else collapse slash runs and escape byte for byte.
pub open spec fn escape_path_spec(bytes: Seq<u8>) -> Seq<char> {
    let t = trim_slashes(bytes);
    if t.len() == 0 {
        seq!['-']
    } else {
        escape_bytes_from(collapse_slashes(t), 0)
    }
}

/// The mount-unit name derived from a path: its escaped form with the
/// `.mount` suffix.
pub open spec fn unit_name_spec(path: Seq<char>) -> Seq<char> {
    escape_path_spec(encode_utf8(path)) + ".mount"@
}

/// Relies on `libsystemd::unit::escape_path`: systemd's path escaping, like
/// `systemd-escape --path`. It trims slashes at both ends, returns `-` for
/// an empty remainder, collapses slash runs, maps `/` to `-`, keeps `:`,
/// `_`, digits, letters and any dot after the first position, and writes
/// every other byte of the path's UTF-8 form as `\x` plus two lower-case
/// hex digits.
#[verifier::external_body]
fn escape_path(path: &str) -> (r: String)
    ensures
        r@ == escape_path_spec(path.spec_bytes()),
{
    libsystemd::unit::escape_path(path)
}

/// The unit name under which the service manager would know a mount on
/// `path`: the escaped path with the `.mount` suffix.
pub fn systemd_escape_path(path: &str) -> (r: String)
    ensures
        r@ == unit_name_spec(path@),
{
    let mut escaped = escape_path(path);
    escaped.append(".mount");
    escaped
}

} // verus!
