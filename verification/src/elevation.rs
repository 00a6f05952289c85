use vstd::prelude::*;

use crate::cmdline::{join_quoted, quoted_parameters, string_views};
use crate::wide::{encode_utf16, to_wide_null};

verus! {

/// What a `ShellExecuteExW` call that runs a program with administrator
/// rights is given: the verb, the program and its parameters, each as a
/// zero-terminated UTF-16 string.
#[derive(Debug, Clone)]
pub struct ElevationRequest {
    pub verb: Vec<u16>,
    pub file: Vec<u16>,
    pub parameters: Vec<u16>,
}

/// Builds the request that runs `command` with `args` through the `runas`
/// verb: the arguments are quoted one by one and joined with spaces.
pub fn elevation_request(command: &str, args: &[String]) -> (req: ElevationRequest)
    ensures
        req.verb@ == encode_utf16("runas"@).push(0),
        req.file@ == encode_utf16(command@).push(0),
        req.parameters@ == encode_utf16(join_quoted(string_views(args@))).push(0),
{
    let verb = to_wide_null("runas");
    let file = to_wide_null(command);
    let params = quoted_parameters(args);
    let parameters = to_wide_null(params.as_str());
    ElevationRequest { verb, file, parameters }
}

/// The Win32 error code of an operation that the user canceled.
pub const ERROR_CANCELLED: u32 = 1223u32;

/// `HRESULT_FROM_WIN32(ERROR_CANCELLED)`, that is 0x800704C7 read as a signed
/// 32-bit value.
pub const HRESULT_FROM_WIN32_ERROR_CANCELLED: i32 = -2147023673i32;

/// The HRESULT that stands for a Win32 error code: codes that are zero or
/// negative as `i32` are kept, any other keeps its low 16 bits under the
/// Win32 facility (7) with the failure bit set.
pub open spec fn hresult_from_win32_spec(error: u32) -> i32 {
    if (error as i32) <= 0 {
        error as i32
    } else {
        ((error & 0xFFFFu32) | 0x0007_0000u32 | 0x8000_0000u32) as i32
    }
}

/// Maps a Win32 error code to an HRESULT.
pub fn hresult_from_win32(error: u32) -> (h: i32)
    ensures
        h == hresult_from_win32_spec(error),
        error == 0 ==> h == 0,
        0 < error < 0x8000_0000 ==> h < 0 && h as u32 == 0x8007_0000 + error % 0x10000,
        error >= 0x8000_0000 ==> h < 0 && h as u32 == error,
{
    proof {
        lemma_hresult_from_win32_values(error);
    }
    if (error as i32) <= 0 {
        error as i32
    } else {
        ((error & 0xFFFFu32) | 0x0007_0000u32 | 0x8000_0000u32) as i32
    }
}

/// What the HRESULT of a Win32 error code is, by value: success stays 0, a
/// code that is already a failure HRESULT is kept, and any other code becomes
/// 0x8007XXXX with XXXX its low 16 bits.
pub proof fn lemma_hresult_from_win32_values(error: u32)
    ensures
        error == 0 ==> hresult_from_win32_spec(error) == 0,
        0 < error < 0x8000_0000 ==> hresult_from_win32_spec(error) < 0 && hresult_from_win32_spec(
            error,
        ) as u32 == 0x8007_0000 + error % 0x10000,
        error >= 0x8000_0000 ==> hresult_from_win32_spec(error) < 0 && hresult_from_win32_spec(
            error,
        ) as u32 == error,
{
    let h = hresult_from_win32_spec(error);
    assert(error == 0 ==> (error as i32) == 0i32) by (bit_vector);
    assert(0 < error < 0x8000_0000 ==> (error as i32) > 0i32) by (bit_vector);
    assert(error >= 0x8000_0000 ==> (error as i32) < 0i32) by (bit_vector);
    assert(error >= 0x8000_0000 ==> ((error as i32) as u32) == error) by (bit_vector);
    let v = ((error & 0xFFFFu32) | 0x0007_0000u32 | 0x8000_0000u32);
    assert(v == 0x8007_0000u32 + error % 0x10000u32) by (bit_vector)
        requires
            v == ((error & 0xFFFFu32) | 0x0007_0000u32 | 0x8000_0000u32),
    ;
    assert((v as i32) < 0i32 && ((v as i32) as u32) == v) by (bit_vector)
        requires
            v == ((error & 0xFFFFu32) | 0x0007_0000u32 | 0x8000_0000u32),
    ;
}

/// Why a `ShellExecuteExW` call failed.
#[derive(Debug, Clone, Copy, PartialEq, Eq)]
pub enum ShellExecuteFailure {
    /// The user declined the elevation prompt.
    Canceled,
    /// Any other failure, with its HRESULT.
    Failed(i32),
}

/// Whether an HRESULT reports that the user canceled.
pub open spec fn is_cancel_code(code: i32) -> bool {
    code == HRESULT_FROM_WIN32_ERROR_CANCELLED || code == hresult_from_win32_spec(ERROR_CANCELLED)
}

/// Classifies the HRESULT of a failed `ShellExecuteExW` call.
pub fn classify_shell_execute_error(code: i32) -> (failure: ShellExecuteFailure)
    ensures
        failure == (if is_cancel_code(code) {
            ShellExecuteFailure::Canceled
        } else {
            ShellExecuteFailure::Failed(code)
        }),
        failure == ShellExecuteFailure::Canceled <==> code == -2147023673i32,
        code != -2147023673i32 ==> failure == ShellExecuteFailure::Failed(code),
{
    proof {
        lemma_only_cancel_code_cancels(code);
    }
    if code == HRESULT_FROM_WIN32_ERROR_CANCELLED || code == hresult_from_win32(ERROR_CANCELLED) {
        ShellExecuteFailure::Canceled
    } else {
        ShellExecuteFailure::Failed(code)
    }
}

/// The two ways of naming the cancel code agree: both are 0x800704C7.
pub proof fn lemma_cancel_code()
    ensures
        hresult_from_win32_spec(ERROR_CANCELLED) == HRESULT_FROM_WIN32_ERROR_CANCELLED,
        is_cancel_code(-2147023673i32),
{
    assert(((1223u32 & 0xFFFFu32) | 0x0007_0000u32 | 0x8000_0000u32) as i32 == -2147023673i32)
        by (bit_vector);
    assert((1223u32 as i32) == 1223i32) by (bit_vector);
}

/// Exactly one HRESULT, 0x800704C7 (`HRESULT_FROM_WIN32(ERROR_CANCELLED)`),
/// reports a canceled elevation prompt; every other failure code, such as
/// 0x80070005 (access denied), is a real failure.
pub proof fn lemma_only_cancel_code_cancels(code: i32)
    ensures
        is_cancel_code(code) <==> code == -2147023673i32,
        code != -2147023673i32 ==> !is_cancel_code(code),
{
    lemma_cancel_code();
}

} // verus!
