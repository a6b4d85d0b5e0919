use vstd::prelude::*;
use vstd::string::StringSliceAdditionalSpecFns;

verus! {

/// Longest file name, in bytes, that a FAT directory entry holds.
pub const FAT_MAX_NAME: usize = 255;

/// Whether `name` is longer than a FAT file name may be.
pub fn name_too_long(name: &str) -> (r: bool)
    ensures
        r == (name.spec_bytes().len() > FAT_MAX_NAME),
{
    name.as_bytes().len() > FAT_MAX_NAME
}


#[verifier::external_type_specification]
#[verifier::external_body]
pub struct ExUcs2Error(ucs2::Error);

/// Every character of `s` lies in the Basic Multilingual Plane.
pub open spec fn bmp_only(s: Seq<char>) -> bool {
    forall|i: int| 0 <= i < s.len() ==> (#[trigger] s[i] as u32) < 0x10000
}

/// Relies on `ucs2::encode`: it writes one code unit per character, equal to the character's
/// code point, from the start of the buffer, and fails when a character lies outside the
/// Basic Multilingual Plane or the buffer is too short.
#[verifier::external_body]
fn encode_ucs2(input: &str, buffer: &mut Vec<u16>) -> (r: Result<usize, ucs2::Error>)
    ensures
        final(buffer)@.len() == old(buffer)@.len(),
        r is Ok <==> (bmp_only(input@) && input@.len() <= old(buffer)@.len()),
        r matches Ok(n) ==> {
            &&& n == input@.len()
            &&& forall|i: int| 0 <= i < n ==> #[trigger] final(buffer)@[i] == input@[i] as u16
            &&& forall|i: int| n <= i < old(buffer)@.len() ==> #[trigger] final(buffer)@[i] == old(
                buffer,
            )@[i]
        },
{
    ucs2::encode(input, buffer.as_mut_slice())
}

/// The name as a zero-padded UCS-2 buffer of `FAT_MAX_NAME + 1` code units, or `None` when a
/// character lies outside the Basic Multilingual Plane or the name does not fit.
pub fn name_to_u16_array(name: &str) -> (r: Option<Vec<u16>>)
    ensures
        r is Some <==> (bmp_only(name@) && name@.len() <= FAT_MAX_NAME + 1),
        r matches Some(buf) ==> {
            &&& buf@.len() == FAT_MAX_NAME + 1
            &&& forall|i: int| 0 <= i < name@.len() ==> #[trigger] buf@[i] == name@[i] as u16
            &&& forall|i: int| name@.len() <= i <= FAT_MAX_NAME ==> #[trigger] buf@[i] == 0
        },
{
    let mut buf: Vec<u16> = Vec::new();
    let mut i: usize = 0;
    while i < FAT_MAX_NAME + 1
        invariant
            i <= FAT_MAX_NAME + 1,
            buf@.len() == i,
            forall|j: int| 0 <= j < i ==> #[trigger] buf@[j] == 0,
        decreases FAT_MAX_NAME + 1 - i,
    {
        buf.push(0);
        i += 1;
    }
    match encode_ucs2(name, &mut buf) {
        Ok(_) => Some(buf),
        Err(_) => None,
    }
}

} // verus!
