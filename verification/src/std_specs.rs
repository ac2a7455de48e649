//! What this library takes on trust of the standard library.
//!
//! Each item here gives a contract to a function of `std` that the library
//! calls and that `vstd` says nothing of. None of them is proved: they say
//! what the standard library's documentation says.

use std::time::Instant;
use vstd::prelude::*;
use vstd::string::StringSliceAdditionalSpecFns;
use vstd::utf8::valid_utf8;

verus! {

/// `String::push` appends the character to the end of the string.
pub assume_specification[ String::push ](text: &mut String, c: char)
    ensures
        final(text)@ == old(text)@.push(c),
;

#[verifier::external_type_specification]
#[verifier::external_body]
pub struct ExUtf8Error(core::str::Utf8Error);

/// `core::str::from_utf8` gives the bytes back as text where they are valid
/// UTF-8, and an error where they are not.
pub assume_specification[ core::str::from_utf8 ](bytes: &[u8]) -> (text: Result<
    &str,
    core::str::Utf8Error,
>)
    ensures
        text is Ok <==> valid_utf8(bytes@),
        text matches Ok(found) ==> found.spec_bytes() == bytes@,
;

#[verifier::external_type_specification]
#[verifier::external_body]
pub struct ExInstant(Instant);

/// `Instant::now` reads the clock. Nothing is claimed of what it reads.
pub assume_specification[ Instant::now ]() -> Instant;

/// `Instant::elapsed` gives the time that has passed since the instant.
/// Nothing is claimed of how long that is.
pub assume_specification[ Instant::elapsed ](start: &Instant) -> core::time::Duration;

/// `Duration::as_nanos` gives the duration in nanoseconds. Nothing is
/// claimed of the number.
pub assume_specification[ core::time::Duration::as_nanos ](duration: &core::time::Duration) -> u128;

} // verus!
