//! The constants of the Redox system call interface that the scheme logic
//! decides by. Each is read from the `syscall` crate; the contract of each
//! states the value that crate defines.

use vstd::prelude::*;

verus! {

/// `syscall::flag::O_DIRECTORY`, defined there as `0x1000_0000`.
#[verifier::external_body]
pub(crate) fn o_directory() -> (r: usize)
    ensures
        r == 0x1000_0000,
{
    syscall::flag::O_DIRECTORY
}

/// `syscall::flag::O_STAT`, defined there as `0x2000_0000`.
#[verifier::external_body]
pub(crate) fn o_stat() -> (r: usize)
    ensures
        r == 0x2000_0000,
{
    syscall::flag::O_STAT
}

/// `syscall::flag::SEEK_SET`, defined there as `0`.
#[verifier::external_body]
pub(crate) fn seek_set() -> (r: usize)
    ensures
        r == 0,
{
    syscall::flag::SEEK_SET
}

/// `syscall::flag::SEEK_CUR`, defined there as `1`.
#[verifier::external_body]
pub(crate) fn seek_cur() -> (r: usize)
    ensures
        r == 1,
{
    syscall::flag::SEEK_CUR
}

/// `syscall::flag::SEEK_END`, defined there as `2`.
#[verifier::external_body]
pub(crate) fn seek_end() -> (r: usize)
    ensures
        r == 2,
{
    syscall::flag::SEEK_END
}

/// `syscall::flag::MODE_DIR`, defined there as `0x4000`.
#[verifier::external_body]
pub(crate) fn mode_dir() -> (r: u16)
    ensures
        r == 0x4000,
{
    syscall::flag::MODE_DIR
}

/// `syscall::flag::MODE_FILE`, defined there as `0x8000`.
#[verifier::external_body]
pub(crate) fn mode_file() -> (r: u16)
    ensures
        r == 0x8000,
{
    syscall::flag::MODE_FILE
}

/// `syscall::error::ENOENT`, defined there as `2`.
#[verifier::external_body]
pub(crate) fn enoent() -> (r: i32)
    ensures
        r == 2,
{
    syscall::error::ENOENT
}

/// `syscall::error::EBADF`, defined there as `9`.
#[verifier::external_body]
pub(crate) fn ebadf() -> (r: i32)
    ensures
        r == 9,
{
    syscall::error::EBADF
}

/// `syscall::error::EACCES`, defined there as `13`.
#[verifier::external_body]
pub(crate) fn eacces() -> (r: i32)
    ensures
        r == 13,
{
    syscall::error::EACCES
}

/// `syscall::error::EISDIR`, defined there as `21`.
#[verifier::external_body]
pub(crate) fn eisdir() -> (r: i32)
    ensures
        r == 21,
{
    syscall::error::EISDIR
}

/// `syscall::error::EINVAL`, defined there as `22`.
#[verifier::external_body]
pub(crate) fn einval() -> (r: i32)
    ensures
        r == 22,
{
    syscall::error::EINVAL
}

} // verus!
