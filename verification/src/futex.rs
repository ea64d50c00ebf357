use vstd::prelude::*;

verus! {

/// The error code `libc::EAGAIN`, with which the system refuses to put a
/// thread to sleep on a word that no longer holds the expected value.
/// Nothing is claimed of its value, which differs between systems.
#[verifier::external_body]
fn try_again_code() -> (code: i32) {
    libc::EAGAIN
}

/// The constant `libc::INT_MAX`, the greatest number of threads that one
/// call can ask the system to wake. It is defined as the greatest value of
/// the system's `int`, a signed type of 16 bits at least; no more is
/// claimed of it.
#[verifier::external_body]
fn int_max() -> (max: i32)
    ensures
        max >= 32767,
{
    libc::INT_MAX
}

/// What a wait on a word comes to, given what the system call returned, the
/// error code it left, and the code that stands for "the word has changed":
/// a failure with that code counts as a wake-up, every other failure is
/// reported with its code.
pub fn wait_outcome(ret: i64, errno: i32, try_again: i32) -> (r: Result<(), i32>)
    ensures
        r == if ret >= 0 || errno == try_again {
            Ok::<(), i32>(())
        } else {
            Err::<(), i32>(errno)
        },
{
    if ret < 0 {
        if errno == try_again {
            Ok(())
        } else {
            Err(errno)
        }
    } else {
        Ok(())
    }
}

/// What a wait on a word comes to, given what the system call returned and
/// the error code it left.
pub fn wait_result(ret: i64, errno: i32) -> (r: Result<(), i32>)
    ensures
        ret >= 0 ==> r is Ok,
        r matches Err(code) ==> code == errno && ret < 0,
{
    wait_outcome(ret, errno, try_again_code())
}

/// Whether `how_many` is a number of threads that one call can ask the
/// system to wake, given the greatest value of the system's `int`.
pub fn wake_count_fits(how_many: u32, max: i32) -> (b: bool)
    ensures
        b == (how_many as int <= max as int),
{
    max >= 0 && how_many <= max as u32
}

/// Whether `how_many` is a number of threads that one call can ask the
/// system to wake. On every system that is so up to 32767, and nowhere
/// beyond the greatest 32-bit signed number.
pub fn wake_count_allowed(how_many: u32) -> (b: bool)
    ensures
        how_many <= 32767 ==> b,
        b ==> how_many <= i32::MAX,
{
    wake_count_fits(how_many, int_max())
}

/// What a request to wake threads comes to, given what the system call
/// returned and the error code it left: the number of threads woken, or the
/// code.
pub fn wake_result(ret: i64, errno: i32) -> (r: Result<u32, i32>)
    requires
        ret <= u32::MAX,
    ensures
        r == if ret >= 0 {
            Ok::<u32, i32>(ret as u32)
        } else {
            Err::<u32, i32>(errno)
        },
{
    if ret >= 0 {
        Ok(ret as u32)
    } else {
        Err(errno)
    }
}

} // verus!
