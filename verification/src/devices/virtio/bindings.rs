//! Constants and error numbers of the Linux interface.

use vstd::prelude::*;

verus! {

pub const LINUX_EACCES: i32 = 13;

pub const LINUX_ENODATA: i32 = 61;

pub const LINUX_ENOSYS: i32 = 38;

pub const LINUX_ENOTEMPTY: i32 = 39;

pub const LINUX_O_APPEND: i32 = 1024;

pub const LINUX_O_CLOEXEC: i32 = 0x80000;

pub const LINUX_O_DIRECT: i32 = 0x4000;

pub const LINUX_O_DIRECTORY: i32 = 0x10000;

pub const LINUX_O_LARGEFILE: i32 = 0;

pub const LINUX_O_NOFOLLOW: i32 = 0x20000;

pub const LINUX_O_CREAT: i32 = 64;

pub const LINUX_O_EXCL: i32 = 128;

pub const LINUX_O_NOCTTY: i32 = 256;

pub const LINUX_O_NONBLOCK: i32 = 2048;

pub const LINUX_O_SYNC: i32 = 1052672;

pub const LINUX_O_TRUNC: i32 = 512;

pub const LINUX_O_RSYNC: i32 = 1052672;

pub const LINUX_O_DSYNC: i32 = 4096;

pub const LINUX_O_ASYNC: i32 = 0x2000;

pub const LINUX_RENAME_NOREPLACE: i32 = 1;

pub const LINUX_RENAME_EXCHANGE: i32 = 2;

pub const LINUX_RENAME_WHITEOUT: i32 = 4;

pub const LINUX_XATTR_CREATE: i32 = 1;

pub const LINUX_XATTR_REPLACE: i32 = 2;

/// The Linux error number for a Windows error code; `EIO` for a code that has
/// no counterpart.
pub open spec fn linux_errno(win_err: u32) -> i32 {
    if win_err == 0 {
        0
    } else if win_err == 1 || win_err == 1314 {
        1
    } else if win_err == 2 || win_err == 3 {
        2
    } else if win_err == 5 {
        LINUX_EACCES
    } else if win_err == 6 || win_err == 21 {
        6
    } else if win_err == 112 {
        28
    } else if win_err == 4 {
        24
    } else if win_err == 8 || win_err == 14 {
        12
    } else if win_err == 80 || win_err == 183 {
        17
    } else if win_err == 87 || win_err == 161 {
        22
    } else if win_err == 145 {
        LINUX_ENOTEMPTY
    } else if win_err == 120 {
        LINUX_ENOSYS
    } else if win_err == 4331 {
        LINUX_ENODATA
    } else {
        5
    }
}

/// Translates a Windows error code into a Linux error number.
pub fn win_to_linux_errno(win_err: u32) -> (r: i32)
    ensures
        r == linux_errno(win_err),
{
    match win_err {
        0 => 0,
        1 | 1314 => 1,
        2 | 3 => 2,
        5 => LINUX_EACCES,
        6 | 21 => 6,
        1117 => 5,
        112 => 28,
        4 => 24,
        8 | 14 => 12,
        80 | 183 => 17,
        87 | 161 => 22,
        145 => LINUX_ENOTEMPTY,
        120 => LINUX_ENOSYS,
        4331 => LINUX_ENODATA,
        _ => 5,
    }
}

} // verus!
