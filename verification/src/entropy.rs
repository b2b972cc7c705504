//! Random bytes of the operating system.

use crate::scalar::{clamp_scalar, clamped, is_clamped};
use rand::rngs::OsRng;
use rand::RngCore;
use vstd::prelude::*;

verus! {

/// `OsRng.try_fill_bytes`: fills 32 bytes from the generator of the operating
/// system and says whether that worked. Which bytes come is left open.
#[verifier::external_body]
fn fill_from_os(bytes: &mut [u8; 32]) -> (filled: bool) {
    OsRng.try_fill_bytes(bytes).is_ok()
}

/// What a draw gives: the bytes if they were filled, else nothing.
pub fn filled_bytes(filled: bool, bytes: [u8; 32]) -> (drawn: Option<[u8; 32]>)
    ensures
        drawn == if filled {
            Some(bytes)
        } else {
            None
        },
{
    if filled {
        Some(bytes)
    } else {
        None
    }
}

/// The clamped scalar that drawn bytes make, if any were drawn.
pub fn start_scalar_from(drawn: Option<[u8; 32]>) -> (scalar: Option<[u8; 32]>)
    ensures
        scalar is Some <==> drawn is Some,
        scalar matches Some(s) ==> s@ == clamped(drawn->0@) && is_clamped(s@),
{
    match drawn {
        Some(bytes) => {
            let mut scalar: [u8; 32] = bytes;
            clamp_scalar(&mut scalar);
            Some(scalar)
        },
        None => None,
    }
}

/// One call of the operating system's generator: what it left in the buffer if
/// it says that it filled that, else nothing.
fn draw_from_os() -> (drawn: Option<[u8; 32]>)
    ensures
        exists|buffer: &mut [u8; 32], filled: bool|
            {
                &&& #[trigger] call_ensures(fill_from_os, (buffer,), filled)
                &&& drawn == if filled {
                    Some(*final(buffer))
                } else {
                    None
                }
            },
{
    let mut bytes: [u8; 32] = [0; 32];
    let filled = fill_from_os(&mut bytes);
    filled_bytes(filled, bytes)
}

/// Whether an outcome is one that a call of the operating system's generator
/// gave.
pub closed spec fn is_draw(drawn: Option<[u8; 32]>) -> bool {
    call_ensures(draw_from_os, (), drawn)
}

/// Random bytes, or their lack, come from a call of the generator.
proof fn law_draws_come_from_the_generator(drawn: Option<[u8; 32]>)
    requires
        is_draw(drawn),
    ensures
        call_ensures(draw_from_os, (), drawn),
{
}

/// Thirty-two random bytes, or `None` if the operating system has none to give.
pub fn random_bytes() -> (bytes: Option<[u8; 32]>)
    ensures
        is_draw(bytes),
{
    draw_from_os()
}

/// A random clamped scalar to start a search from, or `None` if the operating
/// system has no random bytes to give.
pub fn random_start_scalar() -> (scalar: Option<[u8; 32]>)
    ensures
        scalar matches Some(s) ==> is_clamped(s@),
        exists|drawn: Option<[u8; 32]>|
            {
                &&& #[trigger] call_ensures(random_bytes, (), drawn)
                &&& scalar is Some <==> drawn is Some
                &&& scalar matches Some(s) ==> s@ == clamped(drawn->0@)
            },
{
    start_scalar_from(random_bytes())
}

} // verus!
