//! What every actor shares: the protocol labels, the 48-byte message and
//! a bounded log buffer, plus the packing of 24 payload bytes into the
//! three data words of a message.

use vstd::prelude::*;
use crate::fs::elf::{le, read_u64};
use vstd::string::StringSliceAdditionalSpecFns;

verus! {

/// Shell → file server: read the file named in the data words.
pub const VFS_READ_REQ: u64 = 1;
/// File server → requester: data[0] = offset, data[1] = size, and a
/// memory capability granted.
pub const VFS_READ_REPLY: u64 = 2;
/// Shell → user-interface server: draw the text in the data words.
pub const UI_DRAW_REQ: u64 = 3;
/// Keyboard driver → shell: a key was pressed (data[0] = scancode).
pub const KEY_EVENT: u64 = 4;
/// Mouse driver → user-interface server: data = dx, dy, buttons.
pub const MOUSE_EVENT: u64 = 5;

/// An IPC message: a label, 24 payload bytes and an optional capability
/// grant (its handle and the rights it is narrowed to).
#[derive(Clone, Copy, Debug)]
pub struct Message {
    pub label: u64,
    pub data: [u64; 3],
    pub cap_grant: u64,
    pub cap_perms: u32,
    pub _pad: u32,
}

impl Message {
    /// The all-zero message.
    pub fn empty() -> (r: Self)
        ensures
            r.label == 0,
            r.data@ == seq![0u64, 0u64, 0u64],
            r.cap_grant == 0,
            r.cap_perms == 0,
            r._pad == 0,
    {
        Message { label: 0, data: [0; 3], cap_grant: 0, cap_perms: 0, _pad: 0 }
    }
}

/// Capacity of the log buffer.
pub const LOG_CAPACITY: usize = 256;

/// Collects one log line; bytes beyond the capacity are dropped.
pub struct Logger {
    buf: [u8; 256],
    pos: usize,
}

impl Logger {
    /// The bytes collected so far.
    pub closed spec fn contents(&self) -> Seq<u8> {
        self.buf@.subrange(0, self.pos as int)
    }

    /// The position never passes the capacity.
    pub closed spec fn wf(&self) -> bool {
        self.pos <= LOG_CAPACITY && self.buf@.len() == LOG_CAPACITY
    }

    /// An empty buffer.
    pub fn new() -> (r: Self)
        ensures
            r.wf(),
            r.contents() == Seq::<u8>::empty(),
    {
        Logger { buf: [0u8; 256], pos: 0 }
    }

    /// Appends the bytes of `s` that still fit.
    pub fn write_str(&mut self, s: &str)
        requires
            old(self).wf(),
        ensures
            final(self).wf(),
            final(self).contents() == old(self).contents() + s.spec_bytes().take(
                if old(self).contents().len() + s.spec_bytes().len() <= LOG_CAPACITY {
                    s.spec_bytes().len() as int
                } else {
                    LOG_CAPACITY - old(self).contents().len()
                },
            ),
    {
        let bytes = s.as_bytes();
        let n = bytes.len();
        let mut i: usize = 0;
        let ghost start = self.pos as int;
        while i < n
            invariant_except_break
                0 <= i <= n,
                n == bytes@.len(),
                bytes@ == s.spec_bytes(),
                self.wf(),
                self.pos == start + i,
                self.contents() == old(self).contents() + bytes@.take(i as int),
                start == old(self).contents().len(),
            ensures
                self.wf(),
                self.contents() == old(self).contents() + bytes@.take(
                    if start + n <= LOG_CAPACITY { n as int } else { LOG_CAPACITY - start },
                ),
            decreases n - i,
        {
            if self.pos >= LOG_CAPACITY {
                break;
            }
            let ghost before = self.buf@;
            let ghost p0 = self.pos as int;
            self.buf[self.pos] = bytes[i];
            self.pos = self.pos + 1;
            i = i + 1;
            proof {
                assert(self.buf@.subrange(0, p0) =~= before.subrange(0, p0));
                assert(bytes@.take(i as int) =~= bytes@.take(i - 1).push(bytes@[i - 1]));
                assert(self.contents() =~= self.buf@.subrange(0, p0).push(bytes@[i - 1]));
                assert(self.contents() =~= old(self).contents() + bytes@.take(i as int));
            }
        }
    }

    /// Hands out the collected line, for the caller to pass to the
    /// kernel log when it is not empty, and empties the buffer.
    pub fn flush(&mut self) -> (r: Vec<u8>)
        requires
            old(self).wf(),
        ensures
            final(self).wf(),
            r@ == old(self).contents(),
            final(self).contents() == Seq::<u8>::empty(),
    {
        let mut out: Vec<u8> = Vec::new();
        let mut i: usize = 0;
        while i < self.pos
            invariant
                self.wf(),
                self.contents() == old(self).contents(),
                0 <= i <= self.pos,
                out@ == self.contents().take(i as int),
            decreases self.pos - i,
        {
            out.push(self.buf[i]);
            i = i + 1;
            proof { assert(out@ =~= self.contents().take(i as int)); }
        }
        proof { assert(out@ =~= self.contents()); }
        self.pos = 0;
        proof { assert(self.contents() =~= Seq::<u8>::empty()); }
        out
    }
}

/// 256^n.
pub open spec fn pow256(n: nat) -> int
    decreases n,
{
    if n == 0 { 1 } else { 256 * pow256((n - 1) as nat) }
}

/// Byte `i` (from the least significant) of `w`.
pub open spec fn byte_of(w: u64, i: nat) -> int {
    (w as int / pow256(i)) % 256
}

/// The 24 payload bytes carrying `name`: its first (at most 23) bytes,
/// then zeros, so the text is always NUL-terminated.
pub open spec fn name_payload(name: Seq<u8>) -> Seq<u8> {
    Seq::new(24, |i: int| if i < name.len() && i < 23 { name[i] } else { 0u8 })
}

/// Packs `name` into three data words, little-endian.
pub fn pack_name(name: &[u8]) -> (r: [u64; 3])
    ensures
        forall|k: int| 0 <= k < 3 ==> #[trigger] r@[k] == le(name_payload(name@), 8 * k, 8),
{
    let mut buf = [0u8; 24];
    let n = name.len();
    let len = if n < 23 { n } else { 23 };
    let mut i: usize = 0;
    while i < len
        invariant
            0 <= i <= len,
            len <= 23,
            len <= name@.len(),
            len == (if name@.len() < 23 { name@.len() } else { 23 }),
            buf@.len() == 24,
            forall|j: int| 0 <= j < i ==> #[trigger] buf@[j] == name@[j],
            forall|j: int| i <= j < 24 ==> #[trigger] buf@[j] == 0,
        decreases len - i,
    {
        buf[i] = name[i];
        i = i + 1;
    }
    proof { assert(buf@ =~= name_payload(name@)); }
    let d0 = read_u64(buf.as_slice(), 0);
    let d1 = read_u64(buf.as_slice(), 8);
    let d2 = read_u64(buf.as_slice(), 16);
    [d0, d1, d2]
}

/// Unpacks three data words into their 24 bytes, little-endian.
pub fn unpack_words(data: &[u64; 3]) -> (r: [u8; 24])
    ensures
        forall|k: int, i: int| 0 <= k < 3 && 0 <= i < 8 ==> #[trigger] r@[8 * k + i] == byte_of(data@[k], i as nat),
{
    let mut buf = [0u8; 24];
    let mut k: usize = 0;
    while k < 3
        invariant
            0 <= k <= 3,
            buf@.len() == 24,
            forall|kk: int, i: int| 0 <= kk < k && 0 <= i < 8 ==> #[trigger] buf@[8 * kk + i] == byte_of(data@[kk], i as nat),
        decreases 3 - k,
    {
        let w = data[k];
        let mut d: u64 = 1;
        let mut i: usize = 0;
        while i < 8
            invariant
                0 <= i <= 8,
                0 <= k < 3,
                w == data@[k as int],
                buf@.len() == 24,
                i < 8 ==> d == pow256(i as nat),
                1 <= d <= 0x100_0000_0000_0000,
                forall|kk: int, j: int| 0 <= kk < k && 0 <= j < 8 ==> #[trigger] buf@[8 * kk + j] == byte_of(data@[kk], j as nat),
                forall|j: int| 0 <= j < i ==> #[trigger] buf@[8 * k + j] == byte_of(w, j as nat),
            decreases 8 - i,
        {
            let b = (w / d) % 256;
            buf[8 * k + i] = b as u8;
            proof {
                reveal_with_fuel(pow256, 9);
                assert(i < 7 ==> d <= 0x1_0000_0000_0000);
            }
            if i < 7 {
                d = d * 256;
            }
            i = i + 1;
        }
        proof {
            assert forall|kk: int, j: int| 0 <= kk < k + 1 && 0 <= j < 8 implies #[trigger] buf@[8 * kk + j] == byte_of(data@[kk], j as nat) by {
                if kk == k as int {
                } else {
                }
            }
        }
        k = k + 1;
    }
    buf
}

/// The least significant byte of a little-endian value is its first
/// byte; dividing by 256 drops it.
proof fn lemma_le_step(s: Seq<u8>, off: int, n: nat)
    requires
        n >= 1,
        0 <= off,
        off + n <= s.len(),
    ensures
        le(s, off, n) % 256 == s[off] as int,
        le(s, off, n) / 256 == le(s, off + 1, (n - 1) as nat),
        le(s, off + 1, (n - 1) as nat) >= 0,
{
    lemma_le_nonneg(s, off + 1, (n - 1) as nat);
    let rest = le(s, off + 1, (n - 1) as nat);
    let a = s[off] as int;
    assert(le(s, off, n) == a + 256 * rest);
    vstd::arithmetic::div_mod::lemma_fundamental_div_mod_converse(le(s, off, n), 256, rest, a);
}

proof fn lemma_le_nonneg(s: Seq<u8>, off: int, n: nat)
    ensures
        le(s, off, n) >= 0,
    decreases n,
{
    if n > 0 {
        lemma_le_nonneg(s, off + 1, (n - 1) as nat);
    }
}

/// Byte `i` of a little-endian value is the byte stored at offset `i`.
proof fn lemma_le_digit(s: Seq<u8>, off: int, n: nat, i: nat)
    requires
        0 <= off,
        off + n <= s.len(),
        i < n,
    ensures
        (le(s, off, n) / pow256(i)) % 256 == s[off + i] as int,
    decreases i,
{
    lemma_le_step(s, off, n);
    if i > 0 {
        lemma_le_digit(s, off + 1, (n - 1) as nat, (i - 1) as nat);
        lemma_pow256_pos((i - 1) as nat);
        vstd::arithmetic::div_mod::lemma_div_denominator(le(s, off, n), 256, pow256((i - 1) as nat));
    }
}

proof fn lemma_pow256_pos(n: nat)
    ensures
        pow256(n) >= 1,
    decreases n,
{
    if n > 0 {
        lemma_pow256_pos((n - 1) as nat);
    }
}

/// Unpacking what `pack_name` packed gives back the payload: the name's
/// first (at most 23) bytes, then zeros.
pub proof fn lemma_unpack_pack(name: Seq<u8>, words: Seq<u64>, k: int, i: int)
    requires
        words.len() == 3,
        forall|kk: int| 0 <= kk < 3 ==> #[trigger] words[kk] == le(name_payload(name), 8 * kk, 8),
        0 <= k < 3,
        0 <= i < 8,
    ensures
        byte_of(words[k], i as nat) == name_payload(name)[8 * k + i],
{
    lemma_le_digit(name_payload(name), 8 * k, 8, i as nat);
}

} // verus!
