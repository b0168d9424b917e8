//! Error codes for the rendering host: Win32 error codes and I/O error
//! kinds, both mapped onto 32-bit HRESULT values.

use vstd::prelude::*;

verus! {

/// The HRESULT encoding of a Win32 error code: zero and codes with the high
/// bit set pass through as the same 32-bit pattern, any other code is
/// folded into facility 7 (Win32) with the failure bit set.
pub open spec fn hresult_of_win32(code: u32) -> int {
    if code == 0 {
        0
    } else if code >= 0x8000_0000 {
        code - 0x1_0000_0000
    } else {
        (code & 0xFFFF) + 0x8007_0000 - 0x1_0000_0000
    }
}

/// Maps a Win32 error code to an HRESULT.
pub fn win32_to_hresult(code: u32) -> (r: i32)
    ensures
        r == hresult_of_win32(code),
{
    if code == 0 {
        0
    } else if code >= 0x8000_0000 {
        (code as i64 - 0x1_0000_0000) as i32
    } else {
        proof {
            assert(code & 0xFFFF <= 0xFFFF) by (bit_vector);
        }
        let low: u32 = code & 0xFFFF;
        (low as i64 + 0x8007_0000 - 0x1_0000_0000) as i32
    }
}

/// The I/O failure classes the host distinguishes when loading assets.
#[derive(Clone, Copy, Debug, PartialEq, Eq)]
pub enum IoErrorKind {
    NotFound,
    PermissionDenied,
    ConnectionRefused,
    ConnectionReset,
    ConnectionAborted,
    NotConnected,
    AddrInUse,
    AddrNotAvailable,
    BrokenPipe,
    AlreadyExists,
    WouldBlock,
    InvalidInput,
    InvalidData,
    TimedOut,
    WriteZero,
    Interrupted,
    Unsupported,
    UnexpectedEof,
    OutOfMemory,
    Other,
}

/// The HRESULT each I/O failure class maps to.
pub open spec fn hresult_of_io(kind: IoErrorKind) -> int {
    match kind {
        IoErrorKind::NotFound => -2147024894,
        IoErrorKind::PermissionDenied => -2147024891,
        IoErrorKind::ConnectionRefused => -2147023671,
        IoErrorKind::ConnectionReset => -2147012865,
        IoErrorKind::ConnectionAborted => -2147023660,
        IoErrorKind::NotConnected => -2147022646,
        IoErrorKind::AddrInUse => -2147019839,
        IoErrorKind::AddrNotAvailable => -2147019860,
        IoErrorKind::BrokenPipe => -2147024787,
        IoErrorKind::AlreadyExists => -2147024713,
        IoErrorKind::WouldBlock => -2147014861,
        IoErrorKind::InvalidInput => -2147024809,
        IoErrorKind::InvalidData => -2147024883,
        IoErrorKind::TimedOut => -2147024880,
        IoErrorKind::WriteZero => -2147024867,
        IoErrorKind::Interrupted => -2146233063,
        IoErrorKind::Unsupported => -2147467263,
        IoErrorKind::UnexpectedEof => -1072896679,
        IoErrorKind::OutOfMemory => -2147024882,
        IoErrorKind::Other => -1,
    }
}

/// Maps an I/O failure class to an HRESULT.
pub fn io_error(kind: IoErrorKind) -> (r: i32)
    ensures
        r == hresult_of_io(kind),
{
    match kind {
        IoErrorKind::NotFound => -2147024894,
        IoErrorKind::PermissionDenied => -2147024891,
        IoErrorKind::ConnectionRefused => -2147023671,
        IoErrorKind::ConnectionReset => -2147012865,
        IoErrorKind::ConnectionAborted => -2147023660,
        IoErrorKind::NotConnected => -2147022646,
        IoErrorKind::AddrInUse => -2147019839,
        IoErrorKind::AddrNotAvailable => -2147019860,
        IoErrorKind::BrokenPipe => -2147024787,
        IoErrorKind::AlreadyExists => -2147024713,
        IoErrorKind::WouldBlock => -2147014861,
        IoErrorKind::InvalidInput => -2147024809,
        IoErrorKind::InvalidData => -2147024883,
        IoErrorKind::TimedOut => -2147024880,
        IoErrorKind::WriteZero => -2147024867,
        IoErrorKind::Interrupted => -2146233063,
        IoErrorKind::Unsupported => -2147467263,
        IoErrorKind::UnexpectedEof => -1072896679,
        IoErrorKind::OutOfMemory => -2147024882,
        IoErrorKind::Other => -1,
    }
}

} // verus!
