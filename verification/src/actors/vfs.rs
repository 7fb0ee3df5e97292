//! The file server: it indexes the ustar archive in its RAM-disk
//! capability and answers read requests with the file's offset and size
//! and a read-only grant of the RAM disk.

use vstd::prelude::*;
use crate::actors::sdk::{Message, unpack_words, byte_of, VFS_READ_REPLY};
use crate::fs::tar::{self, octal_value, pow8};

verus! {

/// The RAM-disk memory capability (slot 1).
pub const RAMDISK_CAP: i64 = 1;
/// The endpoint to the shell (slot 2).
pub const EP_SHELL: i64 = 2;
/// The endpoint to the user-interface server (slot 3).
pub const EP_UI: i64 = 3;
/// The read right.
pub const PERM_READ: u32 = 1;
/// Files the index holds at most.
pub const MAX_FILES: usize = 32;
/// Size of a ustar block.
pub const BLOCK_SIZE: usize = 512;

/// An indexed file: its name, and where its data lies in the RAM disk.
#[derive(Clone, Copy, Debug)]
pub struct FileEntry {
    pub name: [u8; 100],
    pub name_len: usize,
    pub offset: u32,
    pub size: u32,
}

/// The value of an octal field (at most 16 bytes).
pub fn parse_octal(bytes: &[u8]) -> (r: u64)
    requires
        bytes@.len() <= 16,
    ensures
        r == octal_value(bytes@),
        r < pow8(bytes@.len()),
{
    tar::parse_octal(bytes)
}

/// Index of the first NUL of `s`, or its length.
pub open spec fn nul_len(s: Seq<u8>) -> int
    decreases s.len(),
{
    if s.len() == 0 || s[0] == 0 { 0 } else { 1 + nul_len(s.drop_first()) }
}

proof fn lemma_nul_len(s: Seq<u8>)
    ensures
        0 <= nul_len(s) <= s.len(),
        nul_len(s) < s.len() ==> s[nul_len(s)] == 0,
        forall|i: int| 0 <= i < nul_len(s) ==> s[i] != 0,
    decreases s.len(),
{
    if s.len() > 0 && s[0] != 0 {
        lemma_nul_len(s.drop_first());
        assert forall|i: int| 0 <= i < nul_len(s) implies s[i] != 0 by {
            if i > 0 {
                assert(s[i] == s.drop_first()[i - 1]);
            }
        }
    }
}

/// Length of the NUL-terminated string at the front of `bytes`.
pub fn parse_string_len(bytes: &[u8]) -> (r: usize)
    ensures
        r == nul_len(bytes@),
{
    let mut len: usize = 0;
    let n = bytes.len();
    proof { lemma_nul_len(bytes@); }
    while len < n && bytes[len] != 0
        invariant
            0 <= len <= n,
            n == bytes@.len(),
            len <= nul_len(bytes@),
            forall|i: int| 0 <= i < nul_len(bytes@) ==> bytes@[i] != 0,
            nul_len(bytes@) <= n,
            nul_len(bytes@) < n ==> bytes@[nul_len(bytes@)] == 0,
        decreases n - len,
    {
        len = len + 1;
    }
    len
}

/// Unpacks a requested file name: the 24 bytes and the name's length.
pub fn unpack_filename(data: &[u64; 3]) -> (r: ([u8; 24], usize))
    ensures
        forall|k: int, i: int| 0 <= k < 3 && 0 <= i < 8 ==> #[trigger] r.0@[8 * k + i] == byte_of(data@[k], i as nat),
        r.1 == nul_len(r.0@),
{
    let buf = unpack_words(data);
    let len = parse_string_len(buf.as_slice());
    (buf, len)
}

/// The five bytes of the ustar magic at offset 257.
pub open spec fn has_ustar_magic(b: Seq<u8>) -> bool {
    b[257] == 0x75 && b[258] == 0x73 && b[259] == 0x74 && b[260] == 0x61 && b[261] == 0x72
}

/// The name field of a header, without a leading `./`: where it starts
/// and how long it is.
pub open spec fn name_span(b: Seq<u8>) -> (int, int) {
    let n = nul_len(b.subrange(0, 100));
    if n >= 2 && b[0] == 0x2E && b[1] == 0x2F { (2, n - 2) } else { (0, n) }
}

/// A regular file: type flag `'0'` or NUL.
pub open spec fn is_regular(b: Seq<u8>) -> bool {
    b[156] == 0x30 || b[156] == 0
}

/// The file size of a header.
pub open spec fn header_size(b: Seq<u8>) -> int {
    octal_value(b.subrange(124, 136))
}

/// The offset of the next header after the one at `offset`: the header
/// and its data rounded up to whole blocks.
pub open spec fn next_header(b: Seq<u8>, offset: int) -> int {
    offset + 512 + ((((header_size(b) + 511) / 512) * 512) as i32)
}

/// The next header lies past the whole of the file's data: the data takes
/// whole 512-byte blocks after the header, the fewest that hold `size`
/// bytes. So the walk never reads file data as a header, and wastes less
/// than a block.
pub proof fn lemma_next_header_skips_data(b: Seq<u8>, offset: int)
    requires
        0 <= header_size(b),
        header_size(b) + 511 <= i32::MAX,
    ensures
        next_header(b, offset) - offset - 512 >= header_size(b),
        next_header(b, offset) - offset - 512 < header_size(b) + 512,
        (next_header(b, offset) - offset) % 512 == 0,
{
    let s = header_size(b);
    let r = (s + 511) / 512 * 512;
    assert(s <= r < s + 512 && r % 512 == 0 && r <= s + 511) by (nonlinear_arith)
        requires s >= 0, r == (s + 511) / 512 * 512;
    assert((r as i32) as int == r);
    assert((512 + r) % 512 == 0) by (nonlinear_arith)
        requires r % 512 == 0, r >= 0;
}

/// What indexing one header block gives.
pub enum IndexStep {
    /// The end of the archive (a zero first byte).
    End,
    /// Not a ustar header: the walk stops.
    BadMagic,
    /// A header: the entry to add, if it is a regular file, and the
    /// offset of the next header.
    Header { entry: Option<FileEntry>, next: i32 },
}

/// Reads the header block at `offset`. The walk also ends when the next
/// offset would not fit in an `i32`.
pub fn index_block(block: &[u8; 512], offset: i32) -> (r: IndexStep)
    ensures
        block@[0] == 0 ==> r is End,
        block@[0] != 0 && !has_ustar_magic(block@) ==> r is BadMagic,
        block@[0] != 0 && has_ustar_magic(block@) ==> match r {
            IndexStep::Header { entry, next } => {
                &&& next == next_header(block@, offset as int)
                &&& offset + 512 <= i32::MAX
                &&& (entry is Some) == is_regular(block@)
                &&& entry matches Some(e) ==> {
                    let (start, len) = name_span(block@);
                    &&& e.name_len == len
                    &&& e.name@.take(len) == block@.subrange(start, start + len)
                    &&& forall|i: int| len <= i < 100 ==> #[trigger] e.name@[i] == 0
                    &&& e.offset == (offset + 512) as u32
                    &&& e.size == header_size(block@) as u32
                }
            },
            IndexStep::End => i32::MIN > next_header(block@, offset as int) || next_header(block@, offset as int) > i32::MAX
                || offset + 512 > i32::MAX,
            IndexStep::BadMagic => false,
        },
{
    let b = block.as_slice();
    if block[0] == 0 {
        return IndexStep::End;
    }
    if !(block[257] == 0x75 && block[258] == 0x73 && block[259] == 0x74 && block[260] == 0x61 && block[261] == 0x72) {
        return IndexStep::BadMagic;
    }
    let name_len = parse_string_len(slice_range(b, 0, 100));
    let size = parse_octal(slice_range(b, 124, 136));
    proof {
        reveal_with_fuel(pow8, 13);
        assert(size < 0x10_0000_0000);
    }
    let data_blocks = (size + 511) / 512;
    let skip = (data_blocks * 512) as i32;
    if offset > i32::MAX - 512 {
        return IndexStep::End;
    }
    let here = offset + 512;
    let next = if skip >= 0 {
        if here > i32::MAX - skip { return IndexStep::End; }
        here + skip
    } else {
        if here < i32::MIN - skip { return IndexStep::End; }
        here + skip
    };
    let type_flag = block[156];
    if type_flag == 0x30 || type_flag == 0 {
        let (start, len) = if name_len >= 2 && block[0] == 0x2E && block[1] == 0x2F {
            (2usize, name_len - 2)
        } else {
            (0usize, name_len)
        };
        let mut name = [0u8; 100];
        let mut i: usize = 0;
        proof { lemma_nul_len(block@.subrange(0, 100)); }
        while i < len
            invariant
                0 <= i <= len,
                start + len <= 100,
                name@.len() == 100,
                forall|j: int| 0 <= j < i ==> #[trigger] name@[j] == block@[start + j],
                forall|j: int| i <= j < 100 ==> #[trigger] name@[j] == 0,
            decreases len - i,
        {
            name[i] = block[start + i];
            i = i + 1;
        }
        proof { assert(name@.take(len as int) =~= block@.subrange(start as int, start + len)); }
        let entry = FileEntry { name, name_len: len, offset: here as u32, size: size as u32 };
        IndexStep::Header { entry: Some(entry), next }
    } else {
        IndexStep::Header { entry: None, next }
    }
}

/// The bytes `lo..hi` of `b`.
fn slice_range(b: &[u8], lo: usize, hi: usize) -> (r: &[u8])
    requires
        lo <= hi <= b@.len(),
    ensures
        r@ == b@.subrange(lo as int, hi as int),
{
    vstd::slice::slice_subrange(b, lo, hi)
}

/// Adds `entry` to the index when there is room.
pub fn add_entry(files: &mut Vec<FileEntry>, entry: FileEntry)
    ensures
        old(files)@.len() < MAX_FILES ==> final(files)@ == old(files)@.push(entry),
        old(files)@.len() >= MAX_FILES ==> final(files)@ == old(files)@,
{
    if files.len() < MAX_FILES {
        files.push(entry);
    }
}

/// The index of the first entry named `name`.
pub open spec fn first_match(files: Seq<FileEntry>, name: Seq<u8>, i: int) -> bool {
    &&& 0 <= i < files.len()
    &&& files[i].name_len == name.len() && files[i].name@.take(name.len() as int) == name
    &&& forall|k: int| 0 <= k < i ==> !(#[trigger] files[k].name_len == name.len() && files[k].name@.take(name.len() as int) == name)
}

/// Looks `name` up in the index.
pub fn find_entry(files: &Vec<FileEntry>, name: &[u8]) -> (r: Option<usize>)
    requires
        name@.len() <= 100,
    ensures
        match r {
            Some(i) => first_match(files@, name@, i as int),
            None => forall|k: int| 0 <= k < files@.len() ==>
                !(#[trigger] files@[k].name_len == name@.len() && files@[k].name@.take(name@.len() as int) == name@),
        },
{
    let n = name.len();
    let mut i: usize = 0;
    while i < files.len()
        invariant
            0 <= i <= files@.len(),
            n == name@.len(),
            n <= 100,
            forall|k: int| 0 <= k < i ==>
                !(#[trigger] files@[k].name_len == name@.len() && files@[k].name@.take(name@.len() as int) == name@),
        decreases files@.len() - i,
    {
        let e = &files[i];
        if e.name_len == n {
            let mut j: usize = 0;
            let mut same = true;
            while j < n
                invariant
                    0 <= j <= n,
                    n <= 100,
                    n == name@.len(),
                    e.name@.len() == 100,
                    same == (forall|k: int| 0 <= k < j ==> e.name@[k] == name@[k]),
                decreases n - j,
            {
                if e.name[j] != name[j] {
                    same = false;
                }
                j = j + 1;
            }
            if same {
                proof { assert(e.name@.take(n as int) =~= name@); }
                return Some(i);
            }
            proof {
                let w = choose|k: int| 0 <= k < n && e.name@[k] != name@[k];
                assert(e.name@.take(n as int)[w] != name@[w]);
            }
        }
        i = i + 1;
    }
    None
}

/// The endpoint a reply goes to: the user-interface server when the
/// request's third data word is 3, the shell otherwise.
pub open spec fn reply_endpoint(hint: u64) -> i64 {
    if hint == 3 { EP_UI } else { EP_SHELL }
}

/// The answer to a read request: `None` for an empty name (no reply);
/// otherwise the endpoint and the reply, carrying offset and size and a
/// read-only grant of the RAM disk when the file is indexed, zeros and
/// no grant when it is not.
pub fn handle_read_request(files: &Vec<FileEntry>, msg: &Message) -> (r: Option<(i64, Message)>)
    ensures
        ({
            let words = msg.data@;
            let len = nul_len(Seq::new(24, |j: int| byte_of(words[j / 8], (j % 8) as nat) as u8));
            &&& (r is None) == (len == 0)
            &&& r matches Some((ep, reply)) ==> {
                &&& ep == reply_endpoint(msg.data@[2])
                &&& reply.label == VFS_READ_REPLY
                &&& reply._pad == 0
                &&& reply.data@[2] == 0
                &&& (exists|i: int| first_match(files@, Seq::new(24, |j: int| byte_of(words[j / 8], (j % 8) as nat) as u8).take(len), i)
                    && reply.data@[0] == files@[i].offset && reply.data@[1] == files@[i].size
                    && reply.cap_grant == RAMDISK_CAP as u64 && reply.cap_perms == PERM_READ)
                || (forall|k: int| 0 <= k < files@.len() ==> !(#[trigger] files@[k].name_len == len
                        && files@[k].name@.take(len) == Seq::new(24, |j: int| byte_of(words[j / 8], (j % 8) as nat) as u8).take(len)))
                    && reply.data@[0] == 0 && reply.data@[1] == 0 && reply.cap_grant == 0 && reply.cap_perms == 0
            }
        }),
{
    let (buf, len) = unpack_filename(&msg.data);
    let ghost words = msg.data@;
    proof {
        assert forall|j: int| 0 <= j < 24 implies buf@[j] == byte_of(words[j / 8], (j % 8) as nat) as u8 by {
            assert(buf@[8 * (j / 8) + j % 8] == byte_of(words[j / 8], (j % 8) as nat));
        }
        assert(buf@ =~= Seq::new(24, |j: int| byte_of(words[j / 8], (j % 8) as nat) as u8));
    }
    if len == 0 {
        return None;
    }
    proof { lemma_nul_len(buf@); }
    let requested = slice_range(buf.as_slice(), 0, len);
    let ep = if msg.data[2] == 3 { EP_UI } else { EP_SHELL };
    match find_entry(files, requested) {
        Some(i) => {
            let e = &files[i];
            let reply = Message {
                label: VFS_READ_REPLY,
                data: [e.offset as u64, e.size as u64, 0],
                cap_grant: RAMDISK_CAP as u64,
                cap_perms: PERM_READ,
                _pad: 0,
            };
            Some((ep, reply))
        },
        None => {
            let reply = Message { label: VFS_READ_REPLY, data: [0, 0, 0], cap_grant: 0, cap_perms: 0, _pad: 0 };
            Some((ep, reply))
        },
    }
}

} // verus!
