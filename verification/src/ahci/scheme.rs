//! The handle table of the `disk:` scheme.
//!
//! Opening the root gives a handle on its listing, opening `/<n>` a handle on
//! disk `n`. A handle carries a byte offset that reads, writes and seeks
//! move. Listings are read from memory here; a read or write of a disk
//! handle names the disk and block to transfer, and once the disk has done
//! it, `complete_disk_io` moves the handle's offset by what was transferred.
//! The errors are the `errno` values of the Redox system call interface.

use std::collections::BTreeMap;
use vstd::prelude::*;

use crate::ahci::path::{
    decimal, disk_listing, lemma_listed_name_parses, listing, parse_usize, parse_usize_range,
    trim_slashes, trim_slashes_range,
};
use crate::sys;

verus! {

/// `ENOENT`: no such file or directory.
pub open spec fn no_entry() -> i32 {
    2
}

/// `EBADF`: bad file number.
pub open spec fn bad_file() -> i32 {
    9
}

/// `EACCES`: permission denied.
pub open spec fn access_denied() -> i32 {
    13
}

/// `EISDIR`: is a directory.
pub open spec fn is_directory() -> i32 {
    21
}

/// `EINVAL`: invalid argument.
pub open spec fn invalid_argument() -> i32 {
    22
}

/// The `O_DIRECTORY` open flag.
pub open spec fn o_directory_flag() -> usize {
    0x1000_0000
}

/// The `O_STAT` open flag.
pub open spec fn o_stat_flag() -> usize {
    0x2000_0000
}

/// The file mode of a directory.
pub open spec fn mode_dir() -> u16 {
    0x4000
}

/// The file mode of a regular file.
pub open spec fn mode_file() -> u16 {
    0x8000
}

/// What an open handle refers to, and where in it the handle stands.
pub ghost enum HandleView {
    /// The listing of the root, as bytes.
    List { data: Seq<u8>, pos: usize },
    /// A disk, by its index.
    Disk { disk: usize, pos: usize },
}

impl HandleView {
    /// The byte offset of the handle.
    pub open spec fn pos(self) -> usize {
        match self {
            HandleView::List { pos, .. } => pos,
            HandleView::Disk { pos, .. } => pos,
        }
    }

    /// The same handle at another offset.
    pub open spec fn at(self, pos: usize) -> HandleView {
        match self {
            HandleView::List { data, .. } => HandleView::List { data, pos },
            HandleView::Disk { disk, .. } => HandleView::Disk { disk, pos },
        }
    }
}

/// The state of the scheme: the size in bytes of each disk, the open handles
/// by id, the id that the next handle gets, and how many ids have been
/// handed out so far.
pub ghost struct SchemeView {
    pub disks: Seq<u64>,
    pub handles: Map<usize, HandleView>,
    pub next_id: usize,
    pub issued: nat,
}

/// Every listing handle stands within its listing, which a `Vec` holds, and
/// every disk handle names a disk of the scheme. Until the id counter has
/// wrapped, the next id is the number of ids handed out, and every open id
/// is below it.
pub open spec fn well_formed(v: SchemeView) -> bool {
    &&& forall|id: usize| #[trigger]
        v.handles.contains_key(id) ==> match v.handles[id] {
            HandleView::List { data, pos } => pos <= data.len() <= usize::MAX,
            HandleView::Disk { disk, .. } => disk < v.disks.len(),
        }
    &&& v.issued <= usize::MAX ==> v.next_id == v.issued
    &&& forall|id: usize| #[trigger]
        v.handles.contains_key(id) ==> (v.issued <= usize::MAX ==> id < v.issued)
}

/// The id after `id`; ids wrap around at `usize::MAX`.
pub open spec fn id_after(id: usize) -> usize {
    if id == usize::MAX {
        0
    } else {
        (id + 1) as usize
    }
}

/// The state after a new handle `h` is opened under the next id.
pub open spec fn with_new_handle(v: SchemeView, h: HandleView) -> SchemeView {
    SchemeView {
        disks: v.disks,
        handles: v.handles.insert(v.next_id, h),
        next_id: id_after(v.next_id),
        issued: v.issued + 1,
    }
}

/// The state with the handle `id` replaced by `h`.
pub open spec fn with_handle(v: SchemeView, id: usize, h: HandleView) -> SchemeView {
    SchemeView { disks: v.disks, handles: v.handles.insert(id, h), next_id: v.next_id, issued: v.issued }
}

/// Whether open flags ask for a directory: `O_DIRECTORY` or `O_STAT` set.
pub open spec fn wants_directory(flags: usize) -> bool {
    flags & o_directory_flag() == o_directory_flag() || flags & o_stat_flag() == o_stat_flag()
}

/// The outcome of opening `path`: only the root user may open; a path that
/// is nothing but slashes names the root, which opens as its listing when
/// the flags ask for a directory; a path that reads as the index of a disk
/// opens that disk; anything else does not exist.
pub open spec fn open_spec(v: SchemeView, path: Seq<u8>, flags: usize, uid: u32) -> (Result<
    usize,
    i32,
>, SchemeView) {
    if uid != 0 {
        (Err(access_denied()), v)
    } else if trim_slashes(path).len() == 0 {
        if wants_directory(flags) {
            (
                Ok(v.next_id),
                with_new_handle(v, HandleView::List { data: listing(v.disks.len()), pos: 0 }),
            )
        } else {
            (Err(is_directory()), v)
        }
    } else {
        match parse_usize(trim_slashes(path)) {
            Some(i) => if i < v.disks.len() {
                (Ok(v.next_id), with_new_handle(v, HandleView::Disk { disk: i, pos: 0 }))
            } else {
                (Err(no_entry()), v)
            },
            None => (Err(no_entry()), v),
        }
    }
}

/// The outcome of duplicating handle `id`: a new handle on the same thing at
/// the same offset.
pub open spec fn dup_spec(v: SchemeView, id: usize) -> (Result<usize, i32>, SchemeView) {
    if v.handles.contains_key(id) {
        (Ok(v.next_id), with_new_handle(v, v.handles[id]))
    } else {
        (Err(bad_file()), v)
    }
}

/// The outcome of closing handle `id`.
pub open spec fn close_spec(v: SchemeView, id: usize) -> (Result<usize, i32>, SchemeView) {
    if v.handles.contains_key(id) {
        (
            Ok(0),
            SchemeView {
                disks: v.disks,
                handles: v.handles.remove(id),
                next_id: v.next_id,
                issued: v.issued,
            },
        )
    } else {
        (Err(bad_file()), v)
    }
}

/// The mode and size that `fstat` reports.
#[derive(Debug, Clone, Copy, PartialEq, Eq, Structural)]
pub struct FileStat {
    pub mode: u16,
    pub size: u64,
}

/// What `fstat` reports of handle `id`: a listing is a directory of its
/// length in bytes, a disk a file of the disk's size.
pub open spec fn fstat_spec(v: SchemeView, id: usize) -> Result<FileStat, i32> {
    if v.handles.contains_key(id) {
        match v.handles[id] {
            HandleView::List { data, .. } => Ok(FileStat { mode: mode_dir(), size: data.len() as u64 }),
            HandleView::Disk { disk, .. } => Ok(FileStat { mode: mode_file(), size: v.disks[disk as int] }),
        }
    } else {
        Err(bad_file())
    }
}

/// The length in bytes of what a handle refers to.
pub open spec fn handle_len(v: SchemeView, h: HandleView) -> usize {
    match h {
        HandleView::List { data, .. } => data.len() as usize,
        HandleView::Disk { disk, .. } => v.disks[disk as int] as usize,
    }
}

/// The value of a `usize` read as an `isize`.
pub open spec fn signed(x: usize) -> int {
    if x <= isize::MAX {
        x as int
    } else {
        x as int - usize::MAX as int - 1
    }
}

/// An offset `target` held to `0..=len`, `len` read as an `isize`.
pub open spec fn clamp_offset(len: usize, target: int) -> usize {
    let upper = signed(len);
    let t = if target < upper {
        target
    } else {
        upper
    };
    if t < 0 {
        0
    } else {
        t as usize
    }
}

/// Where a seek leads from `cur` in something of `len` bytes: to `pos` from
/// the start, or `pos` read as a signed distance from the current offset or
/// the end, held to `0..=len`. `None` for an unknown `whence`.
pub open spec fn seek_target(len: usize, cur: usize, pos: usize, whence: usize) -> Option<usize> {
    if whence == 0 {
        Some(if len < pos { len } else { pos })
    } else if whence == 1 {
        Some(clamp_offset(len, signed(cur) + signed(pos)))
    } else if whence == 2 {
        Some(clamp_offset(len, signed(len) + signed(pos)))
    } else {
        None
    }
}

/// Whether the signed sum that a seek from the current offset or from the
/// end computes leaves the range of `isize`.
pub open spec fn seek_overflows(len: usize, cur: usize, pos: usize, whence: usize) -> bool {
    let base = if whence == 1 {
        signed(cur)
    } else {
        signed(len)
    };
    (whence == 1 || whence == 2) && !(isize::MIN <= base + signed(pos) <= isize::MAX)
}

/// The outcome of a seek on handle `id`.
pub open spec fn seek_spec(v: SchemeView, id: usize, pos: usize, whence: usize) -> (Result<
    usize,
    i32,
>, SchemeView) {
    if v.handles.contains_key(id) {
        let h = v.handles[id];
        match seek_target(handle_len(v, h), h.pos(), pos, whence) {
            Some(p) => (Ok(p), with_handle(v, id, h.at(p))),
            None => (Err(invalid_argument()), v),
        }
    } else {
        (Err(bad_file()), v)
    }
}

/// A transfer for the disk to make: the disk's index and the block, of 512
/// bytes, at which the transfer starts.
#[derive(Debug, Clone, Copy, PartialEq, Eq, Structural)]
pub struct DiskRequest {
    pub disk: usize,
    pub block: u64,
}

/// What a read did: copied that many bytes of a listing, or asks the disk
/// for a transfer.
#[derive(Debug, Clone, Copy, PartialEq, Eq, Structural)]
pub enum ReadStep {
    Copied(usize),
    Disk(DiskRequest),
}

/// The transfer that a disk handle at `pos` asks for.
pub open spec fn disk_request(disk: usize, pos: usize) -> DiskRequest {
    DiskRequest { disk, block: (pos / 512) as u64 }
}

/// How many bytes a read of a listing copies: what is left of the listing,
/// at most the buffer's length.
pub open spec fn list_read_count(data: Seq<u8>, pos: usize, buf_len: nat) -> nat {
    let left = (data.len() - pos) as nat;
    if left < buf_len {
        left
    } else {
        buf_len
    }
}

/// The outcome of a read of handle `id` into a buffer of `buf_len` bytes.
pub open spec fn read_spec(v: SchemeView, id: usize, buf_len: nat) -> (Result<ReadStep, i32>, SchemeView) {
    if v.handles.contains_key(id) {
        match v.handles[id] {
            HandleView::List { data, pos } => {
                let n = list_read_count(data, pos, buf_len);
                (Ok(ReadStep::Copied(n as usize)), with_handle(v, id, HandleView::List { data, pos: (pos + n) as usize }))
            },
            HandleView::Disk { disk, pos } => (Ok(ReadStep::Disk(disk_request(disk, pos))), v),
        }
    } else {
        (Err(bad_file()), v)
    }
}

/// The buffer after a read: a listing read puts the bytes it copied in
/// front and keeps the rest; a disk read has not touched it yet.
pub open spec fn read_buffer(v: SchemeView, id: usize, buf: Seq<u8>) -> Seq<u8> {
    if v.handles.contains_key(id) {
        match v.handles[id] {
            HandleView::List { data, pos } => {
                let n = list_read_count(data, pos, buf.len());
                data.subrange(pos as int, pos + n) + buf.subrange(n as int, buf.len() as int)
            },
            HandleView::Disk { .. } => buf,
        }
    } else {
        buf
    }
}

/// What a write to handle `id` asks for: listings are read-only.
pub open spec fn write_spec(v: SchemeView, id: usize) -> Result<DiskRequest, i32> {
    if v.handles.contains_key(id) {
        match v.handles[id] {
            HandleView::List { .. } => Err(bad_file()),
            HandleView::Disk { disk, pos } => Ok(disk_request(disk, pos)),
        }
    } else {
        Err(bad_file())
    }
}

/// The outcome of a disk transfer of `count` bytes on handle `id`: the
/// handle's offset moves by `count`.
pub open spec fn complete_spec(v: SchemeView, id: usize, count: usize) -> (Result<usize, i32>, SchemeView) {
    if v.handles.contains_key(id) {
        match v.handles[id] {
            HandleView::Disk { disk, pos } => (Ok(count), with_handle(v, id, HandleView::Disk { disk, pos: (pos + count) as usize })),
            HandleView::List { .. } => (Err(bad_file()), v),
        }
    } else {
        (Err(bad_file()), v)
    }
}

/// The scheme's own name, which `fpath` writes.
pub open spec fn scheme_path() -> Seq<u8> {
    seq![0x64u8, 0x69u8, 0x73u8, 0x6Bu8, 0x3Au8]
}

/// How many bytes of the scheme's name fit in a buffer.
pub open spec fn fpath_count(buf_len: nat) -> nat {
    if buf_len < 5 {
        buf_len
    } else {
        5
    }
}


/// A `usize` read as an `isize`, two's complement, as `as` reads it.
fn as_signed(x: usize) -> (r: isize)
    ensures
        r as int == signed(x),
{
    if x <= isize::MAX as usize {
        x as isize
    } else {
        let below: usize = usize::MAX - x;
        -(below as isize) - 1
    }
}

/// The signed sum of two offsets held to `0..=len`.
fn clamped_sum(len: usize, a: usize, b: usize) -> (r: usize)
    requires
        isize::MIN <= signed(a) + signed(b) <= isize::MAX,
    ensures
        r == clamp_offset(len, signed(a) + signed(b)),
{
    let t: isize = as_signed(a) + as_signed(b);
    let upper: isize = as_signed(len);
    let m: isize = if t < upper {
        t
    } else {
        upper
    };
    if m < 0 {
        0
    } else {
        m as usize
    }
}

/// Every name in the root listing opens: for the root user, the decimal
/// index of a disk, as the listing spells it, opens a handle on that disk at
/// offset 0, under the next id.
pub proof fn lemma_listed_names_open(v: SchemeView, i: usize, flags: usize)
    requires
        i < v.disks.len(),
    ensures
        open_spec(v, decimal(i as nat), flags, 0) == (
            Ok::<usize, i32>(v.next_id),
            with_new_handle(v, HandleView::Disk { disk: i, pos: 0 }),
        ),
{
    lemma_listed_name_parses(i);
}

/// Closing a handle makes it unknown: each operation on its id then fails
/// with `EBADF` and changes nothing.
pub proof fn lemma_closed_handle_is_bad(v: SchemeView, id: usize, pos: usize, whence: usize, count: usize, buf_len: nat)
    requires
        v.handles.contains_key(id),
    ensures
        ({
            let c = close_spec(v, id).1;
            &&& close_spec(v, id).0 == Ok::<usize, i32>(0)
            &&& read_spec(c, id, buf_len) == (Err::<ReadStep, i32>(bad_file()), c)
            &&& write_spec(c, id) == Err::<DiskRequest, i32>(bad_file())
            &&& seek_spec(c, id, pos, whence) == (Err::<usize, i32>(bad_file()), c)
            &&& fstat_spec(c, id) == Err::<FileStat, i32>(bad_file())
            &&& dup_spec(c, id) == (Err::<usize, i32>(bad_file()), c)
            &&& complete_spec(c, id, count) == (Err::<usize, i32>(bad_file()), c)
            &&& close_spec(c, id) == (Err::<usize, i32>(bad_file()), c)
        }),
{
}

/// Closing the duplicate of a handle undoes the duplication, but for the
/// id counter, as long as the id the duplicate gets was free.
pub proof fn lemma_dup_then_close(v: SchemeView, id: usize)
    requires
        v.handles.contains_key(id),
        !v.handles.contains_key(v.next_id),
    ensures
        dup_spec(v, id).0 == Ok::<usize, i32>(v.next_id),
        close_spec(dup_spec(v, id).1, v.next_id).1.handles == v.handles,
        dup_spec(v, id).1.handles[v.next_id] == v.handles[id],
{
    assert(close_spec(dup_spec(v, id).1, v.next_id).1.handles =~= v.handles);
}

/// A duplicate is a handle of its own: it refers to the same listing or
/// disk at the same offset, and moving either handle leaves the other where
/// it was.
pub proof fn lemma_dup_independent(
    v: SchemeView,
    id: usize,
    pos: usize,
    whence: usize,
    count: usize,
    buf_len: nat,
)
    requires
        well_formed(v),
        v.handles.contains_key(id),
        v.issued <= usize::MAX,
    ensures
        ({
            let d = dup_spec(v, id).1;
            let m = v.next_id;
            &&& m != id
            &&& d.handles[m] == v.handles[id]
            &&& d.handles[id] == v.handles[id]
            &&& seek_spec(d, m, pos, whence).1.handles[id] == v.handles[id]
            &&& seek_spec(d, id, pos, whence).1.handles[m] == v.handles[id]
            &&& read_spec(d, m, buf_len).1.handles[id] == v.handles[id]
            &&& read_spec(d, id, buf_len).1.handles[m] == v.handles[id]
            &&& complete_spec(d, m, count).1.handles[id] == v.handles[id]
            &&& complete_spec(d, id, count).1.handles[m] == v.handles[id]
        }),
{
}

/// The root opens as its listing for the root user whenever the flags have
/// the `O_DIRECTORY` bit (`0x1000_0000`) or the `O_STAT` bit (`0x2000_0000`)
/// set, whatever their other bits; with neither bit set it fails with
/// `EISDIR` (21) and nothing changes.
pub proof fn lemma_open_root_by_flag_bits(v: SchemeView, path: Seq<u8>, flags: usize)
    requires
        trim_slashes(path).len() == 0,
    ensures
        (flags & 0x1000_0000usize == 0x1000_0000usize || flags & 0x2000_0000usize
            == 0x2000_0000usize) ==> {
            let (r, w) = open_spec(v, path, flags, 0);
            &&& r == Ok::<usize, i32>(v.next_id)
            &&& w.handles[v.next_id] == HandleView::List { data: listing(v.disks.len()), pos: 0 }
            &&& w.handles.remove(v.next_id) == v.handles.remove(v.next_id)
        },
        !(flags & 0x1000_0000usize == 0x1000_0000usize || flags & 0x2000_0000usize
            == 0x2000_0000usize) ==> open_spec(v, path, flags, 0) == (Err::<usize, i32>(21), v),
{
    let w = open_spec(v, path, flags, 0).1;
    assert(w.handles.remove(v.next_id) =~= v.handles.remove(v.next_id));
}

/// A seek from the start (`whence` 0) lands at the position asked for when
/// it lies within the length, and at the length when it lies beyond.
pub proof fn lemma_seek_set_lands(v: SchemeView, id: usize, p: usize)
    requires
        v.handles.contains_key(id),
    ensures
        ({
            let h = v.handles[id];
            let len = handle_len(v, h);
            let (r, w) = seek_spec(v, id, p, 0);
            &&& p <= len ==> r == Ok::<usize, i32>(p) && w.handles[id].pos() == p
            &&& p > len ==> r == Ok::<usize, i32>(len) && w.handles[id].pos() == len
        }),
{
}

/// A seek from the current offset (`whence` 1) moves by the distance asked
/// for, read as signed: forward by `d` when that stays within the length,
/// back by `k` (the distance `usize::MAX + 1 - k`) when that stays at or
/// after the start; a distance of 0 leaves the offset where it was.
pub proof fn lemma_seek_cur_moves_by_distance(v: SchemeView, id: usize, d: usize, k: usize)
    requires
        v.handles.contains_key(id),
        handle_len(v, v.handles[id]) <= isize::MAX,
        v.handles[id].pos() <= handle_len(v, v.handles[id]),
    ensures
        ({
            let h = v.handles[id];
            let cur = h.pos();
            let len = handle_len(v, h);
            &&& cur + d <= len ==> seek_spec(v, id, d, 1).0 == Ok::<usize, i32>((cur + d) as usize)
                && seek_spec(v, id, d, 1).1.handles[id] == h.at((cur + d) as usize)
            &&& 1 <= k <= cur ==> seek_spec(v, id, (usize::MAX - k + 1) as usize, 1).0 == Ok::<
                usize,
                i32,
            >((cur - k) as usize)
            &&& seek_spec(v, id, 0, 1).0 == Ok::<usize, i32>(cur)
            &&& seek_spec(v, id, 0, 1).1 == v
        }),
{
    let h = v.handles[id];
    assert(with_handle(v, id, h.at(h.pos())).handles =~= v.handles);
}

/// A seek from the end (`whence` 2) by `k` back lands `k` before the end
/// when that is at or after the start; a seek by 0 or forward lands at the
/// end.
pub proof fn lemma_seek_end_moves_from_length(v: SchemeView, id: usize, d: usize, k: usize)
    requires
        v.handles.contains_key(id),
        handle_len(v, v.handles[id]) <= isize::MAX,
    ensures
        ({
            let len = handle_len(v, v.handles[id]);
            &&& 1 <= k <= len ==> seek_spec(v, id, (usize::MAX - k + 1) as usize, 2).0 == Ok::<
                usize,
                i32,
            >((len - k) as usize)
            &&& d <= isize::MAX ==> seek_spec(v, id, d, 2).0 == Ok::<usize, i32>(len)
        }),
{
}

/// Seeking from the current offset or from the end by a distance that keeps
/// the signed sum within `isize` does not overflow.
pub proof fn lemma_seek_overflow_bounds(len: usize, cur: usize, d: usize, k: usize)
    requires
        len <= isize::MAX,
        cur <= isize::MAX,
    ensures
        d <= isize::MAX - cur ==> !seek_overflows(len, cur, d, 1),
        d <= isize::MAX - len ==> !seek_overflows(len, cur, d, 2),
        1 <= k <= isize::MAX ==> !seek_overflows(len, cur, (usize::MAX - k + 1) as usize, 1)
            && !seek_overflows(len, cur, (usize::MAX - k + 1) as usize, 2),
        cur + d > isize::MAX && d <= isize::MAX ==> seek_overflows(len, cur, d, 1),
{
}

/// `fstat` of a listing reports a directory (mode `0x4000`) of the whole
/// listing's length, and of a disk a file (mode `0x8000`) of the disk's
/// size; the report does not depend on the handle's offset, so reads and
/// seeks on the handle leave it as it was.
pub proof fn lemma_fstat_ignores_offset(v: SchemeView, id: usize, p: usize, buf_len: nat, whence: usize, count: usize)
    requires
        v.handles.contains_key(id),
    ensures
        v.handles[id] matches HandleView::List { data, .. } ==> fstat_spec(v, id)
            == Ok::<FileStat, i32>(FileStat { mode: 0x4000, size: data.len() as u64 }),
        v.handles[id] matches HandleView::Disk { disk, .. } ==> fstat_spec(v, id)
            == Ok::<FileStat, i32>(FileStat { mode: 0x8000, size: v.disks[disk as int] }),
        fstat_spec(with_handle(v, id, v.handles[id].at(p)), id) == fstat_spec(v, id),
        fstat_spec(read_spec(v, id, buf_len).1, id) == fstat_spec(v, id),
        fstat_spec(seek_spec(v, id, p, whence).1, id) == fstat_spec(v, id),
        fstat_spec(complete_spec(v, id, count).1, id) == fstat_spec(v, id),
{
}

/// A read or a write of a disk handle asks that disk for the 512-byte block
/// that holds the handle's offset, and both ask for the same block.
pub proof fn lemma_disk_transfer_block(v: SchemeView, id: usize, buf_len: nat)
    requires
        v.handles.contains_key(id),
        v.handles[id] is Disk,
    ensures
        ({
            let disk = v.handles[id]->Disk_disk;
            let pos = v.handles[id]->Disk_pos;
            &&& read_spec(v, id, buf_len).0 matches Ok(ReadStep::Disk(req)) && req.disk == disk
                && req.block * 512 <= pos < req.block * 512 + 512
            &&& write_spec(v, id) matches Ok(req) && req.disk == disk && req.block * 512 <= pos
                < req.block * 512 + 512
            &&& read_spec(v, id, buf_len).0 == Ok::<ReadStep, i32>(ReadStep::Disk(write_spec(v, id)->Ok_0))
            &&& read_spec(v, id, buf_len).1 == v
        }),
{
    let pos = v.handles[id]->Disk_pos;
    assert((pos / 512) * 512 <= pos < (pos / 512) * 512 + 512);
}

/// The errors of the scheme, as `errno` values, and the state they leave
/// unchanged: a user other than root gets `EACCES` (13); a path that names
/// no disk gets `ENOENT` (2), and one that names a disk opens it at offset 0;
/// an unknown id gets `EBADF` (9) from every operation; a listing cannot be
/// written (`EBADF`); an unknown `whence` gets `EINVAL` (22).
pub proof fn lemma_error_numbers(
    v: SchemeView,
    path: Seq<u8>,
    flags: usize,
    uid: u32,
    id: usize,
    pos: usize,
    whence: usize,
    count: usize,
    buf_len: nat,
)
    ensures
        uid != 0 ==> open_spec(v, path, flags, uid) == (Err::<usize, i32>(13), v),
        trim_slashes(path).len() > 0 && parse_usize(trim_slashes(path)) is None ==> open_spec(
            v,
            path,
            flags,
            0,
        ) == (Err::<usize, i32>(2), v),
        parse_usize(trim_slashes(path)) matches Some(i) ==> (trim_slashes(path).len() > 0 && i
            >= v.disks.len() ==> open_spec(v, path, flags, 0) == (Err::<usize, i32>(2), v)),
        parse_usize(trim_slashes(path)) matches Some(i) ==> (trim_slashes(path).len() > 0 && i
            < v.disks.len() ==> open_spec(v, path, flags, 0).0 == Ok::<usize, i32>(v.next_id)
            && open_spec(v, path, flags, 0).1.handles[v.next_id] == (HandleView::Disk {
            disk: i,
            pos: 0,
        })),
        !v.handles.contains_key(id) ==> {
            &&& dup_spec(v, id) == (Err::<usize, i32>(9), v)
            &&& close_spec(v, id) == (Err::<usize, i32>(9), v)
            &&& seek_spec(v, id, pos, whence) == (Err::<usize, i32>(9), v)
            &&& read_spec(v, id, buf_len) == (Err::<ReadStep, i32>(9), v)
            &&& write_spec(v, id) == Err::<DiskRequest, i32>(9)
            &&& complete_spec(v, id, count) == (Err::<usize, i32>(9), v)
            &&& fstat_spec(v, id) == Err::<FileStat, i32>(9)
        },
        v.handles.contains_key(id) && whence > 2 ==> seek_spec(v, id, pos, whence) == (Err::<
            usize,
            i32,
        >(22), v),
        v.handles.contains_key(id) && (v.handles[id] is List) ==> write_spec(v, id) == Err::<
            DiskRequest,
            i32,
        >(9) && complete_spec(v, id, count) == (Err::<usize, i32>(9), v),
{
}

/// Once the disk has transferred `count` bytes for a disk handle, the
/// handle's offset has moved on by exactly `count`, and the call reports
/// `count`.
pub proof fn lemma_transfer_moves_offset(v: SchemeView, id: usize, count: usize)
    requires
        v.handles.contains_key(id),
        v.handles[id] is Disk,
        v.handles[id].pos() + count <= usize::MAX,
    ensures
        complete_spec(v, id, count).0 == Ok::<usize, i32>(count),
        complete_spec(v, id, count).1.handles[id] == (HandleView::Disk {
            disk: v.handles[id]->Disk_disk,
            pos: (v.handles[id].pos() + count) as usize,
        }),
        complete_spec(v, id, count).1.handles.remove(id) == v.handles.remove(id),
{
    assert(complete_spec(v, id, count).1.handles.remove(id) =~= v.handles.remove(id));
}

/// `fpath` writes the bytes of `disk:` (`0x64 0x69 0x73 0x6B 0x3A`), as many
/// as the buffer holds, and reports how many it wrote.
pub proof fn lemma_fpath_bytes(buf_len: nat)
    ensures
        fpath_count(buf_len) == if buf_len < 5 {
            buf_len
        } else {
            5
        },
        scheme_path() == seq![0x64u8, 0x69u8, 0x73u8, 0x6Bu8, 0x3Au8],
{
}

/// A seek never leads past the end of what the handle refers to.
pub proof fn lemma_seek_within_bounds(v: SchemeView, id: usize, pos: usize, whence: usize)
    requires
        v.handles.contains_key(id),
    ensures
        seek_spec(v, id, pos, whence).0 matches Ok(p) ==> p <= handle_len(v, v.handles[id]),
{
}

/// Reading a listing from its start, with a buffer at least as long, gets
/// the whole listing; the next read gets nothing.
pub proof fn lemma_read_whole_listing(v: SchemeView, id: usize, buf: Seq<u8>)
    requires
        v.handles.contains_key(id),
        v.handles[id] matches HandleView::List { data, pos } && pos == 0 && data.len() <= buf.len()
            && data.len() <= usize::MAX,
    ensures
        read_spec(v, id, buf.len()).0 == Ok::<ReadStep, i32>(
            ReadStep::Copied(v.handles[id]->List_data.len() as usize),
        ),
        read_buffer(v, id, buf).subrange(0, v.handles[id]->List_data.len() as int)
            == v.handles[id]->List_data,
        read_spec(read_spec(v, id, buf.len()).1, id, buf.len()).0 == Ok::<ReadStep, i32>(
            ReadStep::Copied(0),
        ),
{
    let data = v.handles[id]->List_data;
    assert(v.handles[id] == HandleView::List { data, pos: 0 });
    assert(list_read_count(data, 0, buf.len()) == data.len());
    assert(read_buffer(v, id, buf).subrange(0, data.len() as int) =~= data);
}

/// Only a successful open or dup hands out an id: it takes the next id and
/// counts it; a failed open or dup, and every other operation, leaves the
/// counter as it was.
pub proof fn lemma_id_counter(
    v: SchemeView,
    path: Seq<u8>,
    flags: usize,
    uid: u32,
    id: usize,
    pos: usize,
    whence: usize,
    count: usize,
    buf_len: nat,
)
    ensures
        ({
            let (r, w) = open_spec(v, path, flags, uid);
            &&& r is Ok ==> r == Ok::<usize, i32>(v.next_id) && w.issued == v.issued + 1
                && w.next_id == id_after(v.next_id)
            &&& r is Err ==> w == v
        }),
        ({
            let (r, w) = dup_spec(v, id);
            &&& r is Ok ==> r == Ok::<usize, i32>(v.next_id) && w.issued == v.issued + 1
                && w.next_id == id_after(v.next_id)
            &&& r is Err ==> w == v
        }),
        close_spec(v, id).1.issued == v.issued && close_spec(v, id).1.next_id == v.next_id,
        seek_spec(v, id, pos, whence).1.issued == v.issued && seek_spec(v, id, pos, whence).1.next_id
            == v.next_id,
        read_spec(v, id, buf_len).1.issued == v.issued && read_spec(v, id, buf_len).1.next_id
            == v.next_id,
        complete_spec(v, id, count).1.issued == v.issued && complete_spec(v, id, count).1.next_id
            == v.next_id,
{
}

/// Until the counter wraps, ids are handed out as 0, 1, 2, ...: the next id
/// is the number of ids handed out so far, every open id is below it, and
/// so the id that a successful open or dup returns is held by no handle.
pub proof fn lemma_ids_fresh(v: SchemeView, path: Seq<u8>, flags: usize, uid: u32, id: usize)
    requires
        well_formed(v),
        v.issued <= usize::MAX,
    ensures
        v.next_id == v.issued,
        !v.handles.contains_key(v.next_id),
        forall|k: usize| v.handles.contains_key(k) ==> k < v.issued,
        open_spec(v, path, flags, uid).0 is Ok ==> open_spec(v, path, flags, uid).0 == Ok::<
            usize,
            i32,
        >(v.issued as usize),
        dup_spec(v, id).0 is Ok ==> dup_spec(v, id).0 == Ok::<usize, i32>(v.issued as usize),
{
}

/// A closed id is not handed out again before the counter wraps: in any
/// later state, with at least as many ids handed out, neither open nor dup
/// returns it.
pub proof fn lemma_closed_id_not_reissued(
    v: SchemeView,
    id: usize,
    w: SchemeView,
    path: Seq<u8>,
    flags: usize,
    uid: u32,
    other: usize,
)
    requires
        well_formed(v),
        v.handles.contains_key(id),
        v.issued <= usize::MAX,
        well_formed(w),
        close_spec(v, id).1.issued <= w.issued <= usize::MAX,
    ensures
        w.next_id != id,
        open_spec(w, path, flags, uid).0 != Ok::<usize, i32>(id),
        dup_spec(w, other).0 != Ok::<usize, i32>(id),
{
}

/// The bytes that one read of a listing at `pos` delivers into a buffer of
/// `buf_len` bytes.
pub open spec fn list_delivered(data: Seq<u8>, pos: usize, buf_len: nat) -> Seq<u8> {
    data.subrange(pos as int, pos + list_read_count(data, pos, buf_len))
}

/// The total of a sequence of lengths.
pub open spec fn total(lens: Seq<nat>) -> nat
    decreases lens.len(),
{
    if lens.len() == 0 {
        0
    } else {
        lens[0] + total(lens.drop_first())
    }
}

/// The bytes that successive reads of listing handle `id`, with buffers of
/// the given lengths, deliver one after the other, and the state after them.
pub open spec fn list_reads(v: SchemeView, id: usize, lens: Seq<nat>) -> (Seq<u8>, SchemeView)
    decreases lens.len(),
{
    if lens.len() == 0 {
        (Seq::empty(), v)
    } else {
        let first = match v.handles[id] {
            HandleView::List { data, pos } => list_delivered(data, pos, lens[0]),
            HandleView::Disk { .. } => Seq::empty(),
        };
        let rest = list_reads(read_spec(v, id, lens[0]).1, id, lens.drop_first());
        (first + rest.0, rest.1)
    }
}

/// What one read of a listing delivers is what it puts at the front of the
/// buffer, as many bytes as it reports; with a non-empty buffer it reports
/// none exactly when the handle is at the end of the listing.
pub proof fn lemma_list_read_delivers(v: SchemeView, id: usize, buf: Seq<u8>)
    requires
        v.handles.contains_key(id),
        v.handles[id] matches HandleView::List { data, pos } && pos <= data.len() <= usize::MAX,
    ensures
        ({
            let data = v.handles[id]->List_data;
            let pos = v.handles[id]->List_pos;
            let n = list_read_count(data, pos, buf.len());
            &&& read_spec(v, id, buf.len()).0 == Ok::<ReadStep, i32>(ReadStep::Copied(n as usize))
            &&& read_buffer(v, id, buf).subrange(0, n as int) == list_delivered(data, pos, buf.len())
            &&& buf.len() > 0 ==> (n == 0 <==> pos == data.len())
        }),
{
    let data = v.handles[id]->List_data;
    let pos = v.handles[id]->List_pos;
    let n = list_read_count(data, pos, buf.len());
    assert(read_buffer(v, id, buf).subrange(0, n as int) =~= list_delivered(data, pos, buf.len()));
}

/// Successive reads of a listing, whatever the buffer lengths, deliver the
/// listing from the handle's offset on, with nothing skipped or repeated:
/// together as many bytes as the buffers hold, at most what is left; the
/// handle ends up after them and nothing else changes.
pub proof fn lemma_successive_list_reads(v: SchemeView, id: usize, lens: Seq<nat>)
    requires
        v.handles.contains_key(id),
        v.handles[id] matches HandleView::List { data, pos } && pos <= data.len() <= usize::MAX,
    ensures
        ({
            let data = v.handles[id]->List_data;
            let pos = v.handles[id]->List_pos;
            let left = (data.len() - pos) as nat;
            let t = if total(lens) < left {
                total(lens)
            } else {
                left
            };
            &&& list_reads(v, id, lens).0 == data.subrange(pos as int, pos + t)
            &&& list_reads(v, id, lens).1 == with_handle(
                v,
                id,
                HandleView::List { data, pos: (pos + t) as usize },
            )
        }),
    decreases lens.len(),
{
    let data = v.handles[id]->List_data;
    let pos = v.handles[id]->List_pos;
    if lens.len() == 0 {
        assert(data.subrange(pos as int, pos as int) =~= Seq::<u8>::empty());
        assert(with_handle(v, id, HandleView::List { data, pos }).handles =~= v.handles);
    } else {
        let n0 = list_read_count(data, pos, lens[0]);
        let v1 = read_spec(v, id, lens[0]).1;
        assert(v1 == with_handle(v, id, HandleView::List { data, pos: (pos + n0) as usize }));
        lemma_successive_list_reads(v1, id, lens.drop_first());
        let left = (data.len() - pos) as nat;
        let t1 = if total(lens.drop_first()) < (left - n0) as nat {
            total(lens.drop_first())
        } else {
            (left - n0) as nat
        };
        let t = if total(lens) < left {
            total(lens)
        } else {
            left
        };
        assert(n0 + t1 == t);
        assert(list_delivered(data, pos, lens[0]) + data.subrange(pos + n0, pos + n0 + t1)
            =~= data.subrange(pos as int, pos + t));
        assert(with_handle(
            v1,
            id,
            HandleView::List { data, pos: (pos + n0 + t1) as usize },
        ).handles =~= with_handle(v, id, HandleView::List { data, pos: (pos + t) as usize }).handles);
    }
}

/// Reading the root listing of a freshly opened handle in pieces of any
/// sizes that together cover it delivers the whole listing, index by index,
/// and a further read with a non-empty buffer then reports no bytes.
pub proof fn lemma_listing_read_in_pieces(v: SchemeView, flags: usize, lens: Seq<nat>, buf_len: nat)
    requires
        wants_directory(flags),
        listing(v.disks.len()).len() <= usize::MAX,
        total(lens) >= listing(v.disks.len()).len(),
        buf_len > 0,
    ensures
        ({
            let (r, w) = open_spec(v, Seq::empty(), flags, 0);
            let (bytes, after) = list_reads(w, v.next_id, lens);
            &&& r == Ok::<usize, i32>(v.next_id)
            &&& bytes == listing(v.disks.len())
            &&& read_spec(after, v.next_id, buf_len).0 == Ok::<ReadStep, i32>(ReadStep::Copied(0))
        }),
{
    let data = listing(v.disks.len());
    assert(trim_slashes(Seq::<u8>::empty()) =~= Seq::<u8>::empty());
    let w = open_spec(v, Seq::empty(), flags, 0).1;
    assert(w.handles[v.next_id] == HandleView::List { data, pos: 0 });
    lemma_successive_list_reads(w, v.next_id, lens);
    assert(data.subrange(0, data.len() as int) =~= data);
}

/// An open handle.
enum Handle {
    List(Vec<u8>, usize),
    Disk(usize, usize),
}

impl View for Handle {
    type V = HandleView;

    closed spec fn view(&self) -> HandleView {
        match self {
            Handle::List(data, pos) => HandleView::List { data: data@, pos: *pos },
            Handle::Disk(disk, pos) => HandleView::Disk { disk: *disk, pos: *pos },
        }
    }
}

impl Handle {
    /// A copy of the handle.
    fn duplicate(&self) -> (r: Handle)
        ensures
            r@ == self@,
    {
        match self {
            Handle::List(data, pos) => {
                let copy = data.clone();
                assert(copy@ =~= data@);
                Handle::List(copy, *pos)
            },
            Handle::Disk(disk, pos) => Handle::Disk(*disk, *pos),
        }
    }
}

/// The views of a table of handles.
spec fn handles_view(m: Map<usize, Handle>) -> Map<usize, HandleView> {
    Map::new(|k: usize| m.contains_key(k), |k: usize| m[k]@)
}

proof fn lemma_handles_view_insert(m: Map<usize, Handle>, k: usize, h: Handle)
    ensures
        handles_view(m.insert(k, h)) == handles_view(m).insert(k, h@),
{
    assert(handles_view(m.insert(k, h)) =~= handles_view(m).insert(k, h@));
}

proof fn lemma_handles_view_remove(m: Map<usize, Handle>, k: usize)
    ensures
        handles_view(m.remove(k)) == handles_view(m).remove(k),
{
    assert(handles_view(m.remove(k)) =~= handles_view(m).remove(k));
}

/// The `disk:` scheme: the disks by their size in bytes, the open handles,
/// and the id for the next handle.
pub struct DiskScheme {
    disks: Vec<u64>,
    handles: BTreeMap<usize, Handle>,
    next_id: usize,
    issued: Ghost<nat>,
}

impl View for DiskScheme {
    type V = SchemeView;

    closed spec fn view(&self) -> SchemeView {
        SchemeView {
            disks: self.disks@,
            handles: handles_view(self.handles@),
            next_id: self.next_id,
            issued: self.issued@,
        }
    }
}

impl DiskScheme {
    /// The scheme's invariant.
    pub open spec fn wf(&self) -> bool {
        well_formed(self@)
    }

    /// A scheme over disks of the given sizes in bytes, with no handle open.
    pub fn new(disks: Vec<u64>) -> (s: DiskScheme)
        ensures
            s.wf(),
            s@.disks == disks@,
            s@.handles == Map::<usize, HandleView>::empty(),
            s@.next_id == 0,
            s@.issued == 0,
    {
        let s = DiskScheme { disks, handles: BTreeMap::new(), next_id: 0, issued: Ghost(0) };
        assert(s@.handles =~= Map::<usize, HandleView>::empty());
        s
    }

    /// Takes the next id for a new handle `h`.
    fn insert_new(&mut self, h: Handle) -> (id: usize)
        requires
            old(self).wf(),
            match h@ {
                HandleView::List { data, pos } => pos <= data.len() <= usize::MAX,
                HandleView::Disk { disk, .. } => disk < old(self)@.disks.len(),
            },
        ensures
            final(self).wf(),
            id == old(self)@.next_id,
            final(self)@ == with_new_handle(old(self)@, h@),
    {
        let id = self.next_id;
        self.next_id = self.next_id.wrapping_add(1);
        self.issued = Ghost(self.issued@ + 1);
        let ghost hv = h@;
        let ghost old_handles = self.handles@;
        self.handles.insert(id, h);
        proof {
            lemma_handles_view_insert(old_handles, id, h);
        }
        assert(self@.handles == old(self)@.handles.insert(id, hv));
        id
    }

    /// Opens `path` for the user `uid`: the root as its listing, or a disk
    /// by its index.
    pub fn open(&mut self, path: &[u8], flags: usize, uid: u32, _gid: u32) -> (r: Result<usize, i32>)
        requires
            old(self).wf(),
        ensures
            final(self).wf(),
            (r, final(self)@) == open_spec(old(self)@, path@, flags, uid),
    {
        if uid == 0 {
            let (start, end) = trim_slashes_range(path);
            if start == end {
                if flags & sys::o_directory() == sys::o_directory() || flags & sys::o_stat()
                    == sys::o_stat() {
                    let list = disk_listing(self.disks.len());
                    let list_len: usize = list.len();
                    assert(list@.len() == list_len);
                    let id = self.insert_new(Handle::List(list, 0));
                    Ok(id)
                } else {
                    Err(sys::eisdir())
                }
            } else {
                match parse_usize_range(path, start, end) {
                    Some(i) => {
                        if i < self.disks.len() {
                            let id = self.insert_new(Handle::Disk(i, 0));
                            Ok(id)
                        } else {
                            Err(sys::enoent())
                        }
                    },
                    None => Err(sys::enoent()),
                }
            }
        } else {
            Err(sys::eacces())
        }
    }

    /// Opens a second handle on what handle `id` refers to, at the same
    /// offset.
    pub fn dup(&mut self, id: usize, _buf: &[u8]) -> (r: Result<usize, i32>)
        requires
            old(self).wf(),
        ensures
            final(self).wf(),
            (r, final(self)@) == dup_spec(old(self)@, id),
    {
        let copy = match self.handles.get(&id) {
            Some(h) => {
                assert(self@.handles.contains_key(id) && self@.handles[id] == h@);
                h.duplicate()
            },
            None => {
                return Err(sys::ebadf());
            },
        };
        let new_id = self.insert_new(copy);
        Ok(new_id)
    }

    /// The mode and size of what handle `id` refers to.
    pub fn fstat(&self, id: usize) -> (r: Result<FileStat, i32>)
        requires
            self.wf(),
        ensures
            r == fstat_spec(self@, id),
    {
        match self.handles.get(&id) {
            Some(Handle::List(data, _)) => Ok(FileStat { mode: sys::mode_dir(), size: data.len() as u64 }),
            Some(Handle::Disk(disk, _)) => Ok(FileStat { mode: sys::mode_file(), size: self.disks[*disk] }),
            None => Err(sys::ebadf()),
        }
    }

    /// Writes as much of the scheme's name, `disk:`, as fits into `buf`,
    /// whatever the handle.
    pub fn fpath(&self, _id: usize, buf: &mut [u8]) -> (r: Result<usize, i32>)
        ensures
            r == Ok::<usize, i32>(fpath_count(old(buf)@.len()) as usize),
            final(buf)@.len() == old(buf)@.len(),
            final(buf)@ == scheme_path().subrange(0, fpath_count(old(buf)@.len()) as int) + old(
                buf,
            )@.subrange(fpath_count(old(buf)@.len()) as int, old(buf)@.len() as int),
    {
        let name: [u8; 5] = [0x64, 0x69, 0x73, 0x6B, 0x3A];
        assert(name@ =~= scheme_path());
        let mut i: usize = 0;
        while i < buf.len() && i < 5
            invariant
                i <= 5,
                i <= buf@.len(),
                buf@.len() == old(buf)@.len(),
                name@ == scheme_path(),
                forall|k: int| 0 <= k < i ==> buf@[k] == scheme_path()[k],
                forall|k: int| i <= k < buf@.len() ==> buf@[k] == old(buf)@[k],
            decreases 5 - i,
        {
            buf[i] = name[i];
            i = i + 1;
        }
        assert(buf@ =~= scheme_path().subrange(0, i as int) + old(buf)@.subrange(i as int, old(buf)@.len() as int));
        Ok(i)
    }
    /// Whether a handle could stand in this scheme's table.
    closed spec fn handle_fits(&self, h: HandleView) -> bool {
        match h {
            HandleView::List { data, pos } => pos <= data.len() <= usize::MAX,
            HandleView::Disk { disk, .. } => disk < self@.disks.len(),
        }
    }

    /// Takes handle `id` out of the table.
    fn take(&mut self, id: usize) -> (h: Option<Handle>)
        requires
            old(self).wf(),
        ensures
            final(self).wf(),
            final(self)@.disks == old(self)@.disks,
            final(self)@.next_id == old(self)@.next_id,
            final(self)@.issued == old(self)@.issued,
            final(self)@.handles == old(self)@.handles.remove(id),
            match h {
                Some(h) => old(self)@.handles.contains_key(id) && old(self)@.handles[id] == h@
                    && old(self).handle_fits(h@) && (old(self)@.issued <= usize::MAX ==> id
                    < old(self)@.issued),
                None => !old(self)@.handles.contains_key(id),
            },
    {
        let ghost old_handles = self.handles@;
        let h = self.handles.remove(&id);
        proof {
            lemma_handles_view_remove(old_handles, id);
            if h.is_none() {
                assert(old_handles.remove(id) =~= old_handles);
            }
        }
        h
    }

    /// Puts handle `h` into the table under `id`.
    fn put(&mut self, id: usize, h: Handle)
        requires
            old(self).wf(),
            old(self).handle_fits(h@),
            old(self)@.issued <= usize::MAX ==> id < old(self)@.issued,
        ensures
            final(self).wf(),
            final(self)@ == with_handle(old(self)@, id, h@),
    {
        let ghost old_handles = self.handles@;
        let ghost hv = h@;
        self.handles.insert(id, h);
        proof {
            lemma_handles_view_insert(old_handles, id, h);
        }
        assert(self@.handles == old(self)@.handles.insert(id, hv));
    }

    /// Reads from handle `id` into `buf`. A listing handle copies what is
    /// left of the listing, as much as fits, and moves on by that much; a
    /// disk handle asks for a transfer from the block its offset lies in.
    pub fn read(&mut self, id: usize, buf: &mut [u8]) -> (r: Result<ReadStep, i32>)
        requires
            old(self).wf(),
        ensures
            final(self).wf(),
            (r, final(self)@) == read_spec(old(self)@, id, old(buf)@.len()),
            final(buf)@ == read_buffer(old(self)@, id, old(buf)@),
    {
        match self.take(id) {
            None => {
                assert(self@.handles =~= old(self)@.handles);
                Err(sys::ebadf())
            },
            Some(Handle::Disk(disk, pos)) => {
                let request = DiskRequest { disk, block: (pos as u64) / 512 };
                self.put(id, Handle::Disk(disk, pos));
                assert(self@.handles =~= old(self)@.handles);
                Ok(ReadStep::Disk(request))
            },
            Some(Handle::List(data, pos)) => {
                let left: usize = data.len() - pos;
                let n: usize = if left < buf.len() {
                    left
                } else {
                    buf.len()
                };
                let mut k: usize = 0;
                while k < n
                    invariant
                        k <= n,
                        n <= buf@.len(),
                        pos + n <= data@.len(),
                        pos + n <= usize::MAX,
                        buf@.len() == old(buf)@.len(),
                        forall|j: int| 0 <= j < k ==> buf@[j] == data@[pos + j],
                        forall|j: int| k <= j < buf@.len() ==> buf@[j] == old(buf)@[j],
                    decreases n - k,
                {
                    buf[k] = data[pos + k];
                    k = k + 1;
                }
                assert(buf@ =~= data@.subrange(pos as int, pos + n) + old(buf)@.subrange(
                    n as int,
                    old(buf)@.len() as int,
                ));
                self.put(id, Handle::List(data, pos + n));
                assert(self@.handles =~= old(self)@.handles.insert(
                    id,
                    HandleView::List { data: data@, pos: (pos + n) as usize },
                ));
                Ok(ReadStep::Copied(n))
            },
        }
    }

    /// The transfer that a write to handle `id` asks the disk for; the
    /// listing cannot be written.
    pub fn write(&self, id: usize, _buf: &[u8]) -> (r: Result<DiskRequest, i32>)
        requires
            self.wf(),
        ensures
            r == write_spec(self@, id),
    {
        match self.handles.get(&id) {
            Some(Handle::List(_, _)) => Err(sys::ebadf()),
            Some(Handle::Disk(disk, pos)) => Ok(DiskRequest { disk: *disk, block: (*pos as u64) / 512 }),
            None => Err(sys::ebadf()),
        }
    }

    /// The byte offset of handle `id`.
    pub fn offset(&self, id: usize) -> (r: Option<usize>)
        ensures
            r == (if self@.handles.contains_key(id) {
                Some(self@.handles[id].pos())
            } else {
                None
            }),
    {
        match self.handles.get(&id) {
            Some(Handle::List(_, pos)) => Some(*pos),
            Some(Handle::Disk(_, pos)) => Some(*pos),
            None => None,
        }
    }

    /// Moves disk handle `id` on by the `count` bytes that the disk
    /// transferred for it.
    pub fn complete_disk_io(&mut self, id: usize, count: usize) -> (r: Result<usize, i32>)
        requires
            old(self).wf(),
            old(self)@.handles.contains_key(id) ==> old(self)@.handles[id].pos() + count
                <= usize::MAX,
        ensures
            final(self).wf(),
            (r, final(self)@) == complete_spec(old(self)@, id, count),
    {
        match self.take(id) {
            None => {
                assert(self@.handles =~= old(self)@.handles);
                Err(sys::ebadf())
            },
            Some(Handle::List(data, pos)) => {
                self.put(id, Handle::List(data, pos));
                assert(self@.handles =~= old(self)@.handles);
                Err(sys::ebadf())
            },
            Some(Handle::Disk(disk, pos)) => {
                self.put(id, Handle::Disk(disk, pos + count));
                assert(self@.handles =~= old(self)@.handles.insert(
                    id,
                    HandleView::Disk { disk, pos: (pos + count) as usize },
                ));
                Ok(count)
            },
        }
    }

    /// Whether a seek on handle `id` would compute a signed offset outside
    /// the range of `isize`.
    pub fn seek_overflows(&self, id: usize, pos: usize, whence: usize) -> (r: bool)
        requires
            self.wf(),
        ensures
            r == (self@.handles.contains_key(id) && seek_overflows(
                handle_len(self@, self@.handles[id]),
                self@.handles[id].pos(),
                pos,
                whence,
            )),
    {
        let (len, cur) = match self.handles.get(&id) {
            Some(h) => {
                assert(self@.handles.contains_key(id) && self@.handles[id] == h@);
                match h {
                    Handle::List(data, cur) => (data.len(), *cur),
                    Handle::Disk(disk, cur) => (self.disks[*disk] as usize, *cur),
                }
            },
            None => {
                return false;
            },
        };
        if whence == sys::seek_cur() {
            as_signed(cur).checked_add(as_signed(pos)).is_none()
        } else if whence == sys::seek_end() {
            as_signed(len).checked_add(as_signed(pos)).is_none()
        } else {
            false
        }
    }

    /// Moves handle `id` to `pos` from the start, or by `pos`, read as a
    /// signed distance, from the current offset or from the end; the offset
    /// is held to the length of what the handle refers to.
    pub fn seek(&mut self, id: usize, pos: usize, whence: usize) -> (r: Result<usize, i32>)
        requires
            old(self).wf(),
            old(self)@.handles.contains_key(id) ==> !seek_overflows(
                handle_len(old(self)@, old(self)@.handles[id]),
                old(self)@.handles[id].pos(),
                pos,
                whence,
            ),
        ensures
            final(self).wf(),
            (r, final(self)@) == seek_spec(old(self)@, id, pos, whence),
    {
        let h = match self.take(id) {
            Some(h) => h,
            None => {
                assert(self@.handles =~= old(self)@.handles);
                return Err(sys::ebadf());
            },
        };
        let (len, cur) = match &h {
            Handle::List(data, cur) => (data.len(), *cur),
            Handle::Disk(disk, cur) => (self.disks[*disk] as usize, *cur),
        };
        let target = if whence == sys::seek_set() {
            if len < pos {
                len
            } else {
                pos
            }
        } else if whence == sys::seek_cur() {
            clamped_sum(len, cur, pos)
        } else if whence == sys::seek_end() {
            clamped_sum(len, len, pos)
        } else {
            self.put(id, h);
            assert(self@.handles =~= old(self)@.handles);
            return Err(sys::einval());
        };
        let moved = match h {
            Handle::List(data, _) => Handle::List(data, target),
            Handle::Disk(disk, _) => Handle::Disk(disk, target),
        };
        let ghost hv = moved@;
        self.put(id, moved);
        assert(self@.handles =~= old(self)@.handles.insert(id, hv));
        Ok(target)
    }

    /// Closes handle `id`.
    pub fn close(&mut self, id: usize) -> (r: Result<usize, i32>)
        requires
            old(self).wf(),
        ensures
            final(self).wf(),
            (r, final(self)@) == close_spec(old(self)@, id),
    {
        match self.take(id) {
            Some(_) => Ok(0),
            None => {
                assert(self@.handles =~= old(self)@.handles);
                Err(sys::ebadf())
            },
        }
    }
}

} // verus!