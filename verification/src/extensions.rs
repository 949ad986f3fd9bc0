//! The helpers that the plugin runtime offers to scripts: random
//! identifiers.
use vstd::prelude::*;
use crate::text::chars_of;
use crate::Output;

verus! {

broadcast use vstd::string::group_string_axioms;

/// A character of `nanoid::alphabet::SAFE`: `_`, `-`, a digit or an ASCII
/// letter.
pub open spec fn safe_char(c: char) -> bool {
    c == '_' || c == '-' || ('0' <= c && c <= '9') || ('a' <= c && c <= 'z') || ('A' <= c
        && c <= 'Z')
}

/// A lowercase hexadecimal digit.
pub open spec fn lower_hex(c: char) -> bool {
    ('0' <= c && c <= '9') || ('a' <= c && c <= 'f')
}

/// Whether `s` is a version-4 UUID as `Uuid::to_string` writes it: five
/// groups of 8, 4, 4, 4 and 12 lowercase hexadecimal digits joined by `-`,
/// with version digit `4` and an RFC 9562 variant digit.
pub open spec fn uuid_v4_text(s: Seq<char>) -> bool {
    &&& s.len() == 36
    &&& forall|i: int|
        0 <= i < 36 ==> if i == 8 || i == 13 || i == 18 || i == 23 {
            s[i] == '-'
        } else {
            lower_hex(#[trigger] s[i])
        }
    &&& s[14] == '4'
    &&& (s[19] == '8' || s[19] == '9' || s[19] == 'a' || s[19] == 'b')
}

/// `nanoid::format(nanoid::rngs::default, &nanoid::alphabet::SAFE, size)`,
/// which `nanoid!(size)` expands to.
///
/// Trusted: the id is random; what is stated holds of every outcome: as the
/// source of `format` shows, it has `size` characters, each of the alphabet.
/// `format` never returns for a size of 0, and computes `8 * size`.
#[verifier::external_body]
fn safe_id(size: usize) -> (r: String)
    requires
        0 < size <= usize::MAX / 8,
    ensures
        r@.len() == size,
        forall|i: int| 0 <= i < size ==> safe_char(#[trigger] r@[i]),
{
    nanoid::format(nanoid::rngs::default, &nanoid::alphabet::SAFE, size)
}

/// `nanoid::format(nanoid::rngs::default, alphabet, size)`.
///
/// Trusted: the id is random; what is stated holds of every outcome: as the
/// source of `format` shows, it has `size` characters, each from `alphabet`.
/// `format` asserts that the alphabet has at most 255 characters, never
/// returns for an empty alphabet or a size of 0, counts the id's length in
/// bytes (so its characters are asked to be ASCII), and computes `8 * size`.
#[verifier::external_body]
fn custom_id(alphabet: &Vec<char>, size: usize) -> (r: String)
    requires
        0 < alphabet@.len() <= 255,
        forall|i: int| 0 <= i < alphabet@.len() ==> (#[trigger] alphabet@[i] as u32) < 128,
        0 < size <= usize::MAX / 8,
    ensures
        r@.len() == size,
        forall|i: int| 0 <= i < size ==> alphabet@.contains(#[trigger] r@[i]),
{
    nanoid::format(nanoid::rngs::default, alphabet.as_slice(), size)
}

/// `nanoid::format(random, &nanoid::alphabet::SAFE, size)`.
///
/// Trusted: `random` gives zero bytes, each of which picks the first
/// character of the alphabet, `_`; as the source of `format` shows, the id
/// is then `size` of them. `format` never returns for a size of 0, and
/// computes `8 * size`.
#[verifier::external_body]
fn zero_id(size: usize) -> (r: String)
    requires
        0 < size <= usize::MAX / 8,
    ensures
        r@ == Seq::new(size as nat, |i: int| '_'),
{
    nanoid::format(random, &nanoid::alphabet::SAFE, size)
}

/// `uuid::Uuid::new_v4().to_string()`.
///
/// Trusted: the UUID is random; what is stated holds of every outcome: the
/// uuid crate writes a UUID as hyphenated lowercase hexadecimal, and a
/// version-4 UUID carries the version and variant that RFC 9562 sets.
#[verifier::external_body]
fn new_uuid_text() -> (r: String)
    ensures
        uuid_v4_text(r@),
{
    uuid::Uuid::new_v4().to_string()
}

/// `size` zero bytes: the "random" bytes behind `nid_safe`.
pub fn random(size: usize) -> (r: Vec<u8>)
    ensures
        r@ == Seq::new(size as nat, |i: int| 0u8),
{
    let result: Vec<u8> = vec![0; size];
    assert(result@ =~= Seq::new(size as nat, |i: int| 0u8));
    result
}

/// A random id of `size` characters of the safe alphabet.
pub fn nid(size: usize) -> (r: Output)
    requires
        0 < size <= usize::MAX / 8,
    ensures
        r.data@.len() == size,
        forall|i: int| 0 <= i < size ==> safe_char(#[trigger] r.data@[i]),
{
    Output { data: safe_id(size) }
}

/// A random id of `size` characters from those of `custom`.
pub fn nid_custom(size: usize, custom: &str) -> (r: Output)
    requires
        0 < custom@.len() <= 255,
        forall|i: int| 0 <= i < custom@.len() ==> (#[trigger] custom@[i] as u32) < 128,
        0 < size <= usize::MAX / 8,
    ensures
        r.data@.len() == size,
        forall|i: int| 0 <= i < size ==> custom@.contains(#[trigger] r.data@[i]),
{
    let v = chars_of(custom);
    Output { data: custom_id(&v, size) }
}

/// The id that the safe alphabet gives with zero bytes: `size` times `_`.
pub fn nid_safe(size: usize) -> (r: Output)
    requires
        0 < size <= usize::MAX / 8,
    ensures
        r.data@ == Seq::new(size as nat, |i: int| '_'),
{
    Output { data: zero_id(size) }
}

/// A random version-4 UUID.
pub fn uid() -> (r: Output)
    ensures
        uuid_v4_text(r.data@),
{
    Output { data: new_uuid_text() }
}

} // verus!
