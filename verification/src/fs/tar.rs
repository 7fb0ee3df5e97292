//! Reading files out of a ustar archive held in memory.
//!
//! An archive is a run of 512-byte headers, each followed by its file's
//! data padded to whole blocks, and ends at an all-zero block.

use vstd::prelude::*;
use vstd::string::StringSliceAdditionalSpecFns;
use vstd::utf8::valid_utf8;

verus! {

/// Archive block size.
pub const BLOCK_SIZE: usize = 512;

/// Offset and width of the header's name field.
pub const NAME_OFF: usize = 0;
pub const NAME_LEN: usize = 100;
/// Offset and width of the size field (octal).
pub const SIZE_OFF: usize = 124;
pub const SIZE_LEN: usize = 12;
/// Offset of the type flag.
pub const TYPEFLAG_OFF: usize = 156;

/// The value of the octal digits at the front of `f`, read up to a NUL or
/// space; other non-digit bytes are skipped.
pub open spec fn octal_acc(f: Seq<u8>, acc: int) -> int
    decreases f.len(),
{
    if f.len() == 0 || f[0] == 0 || f[0] == 32 {
        acc
    } else if 48 <= f[0] <= 55 {
        octal_acc(f.drop_first(), acc * 8 + (f[0] - 48))
    } else {
        octal_acc(f.drop_first(), acc)
    }
}

pub proof fn lemma_octal_grows(f: Seq<u8>, acc: int)
    requires
        acc >= 0,
    ensures
        octal_acc(f, acc) >= acc,
    decreases f.len(),
{
    if f.len() > 0 && f[0] != 0 && f[0] != 32 {
        if 48 <= f[0] <= 55 {
            lemma_octal_grows(f.drop_first(), acc * 8 + (f[0] - 48));
        } else {
            lemma_octal_grows(f.drop_first(), acc);
        }
    }
}

/// The number an octal header field holds.
pub open spec fn octal_value(f: Seq<u8>) -> int {
    octal_acc(f, 0)
}

/// 8^n.
pub open spec fn pow8(n: nat) -> int
    decreases n,
{
    if n == 0 { 1 } else { 8 * pow8((n - 1) as nat) }
}

pub proof fn lemma_pow8_bound(n: nat)
    requires
        n <= 16,
    ensures
        1 <= pow8(n) <= 0x1_0000_0000_0000,
    decreases n,
{
    if n > 0 {
        lemma_pow8_bound((n - 1) as nat);
        assert(pow8(n) <= 8 * pow8((16 - 1) as nat)) by {
            lemma_pow8_mono((n - 1) as nat, 15);
        }
        reveal_with_fuel(pow8, 17);
    }
}

proof fn lemma_pow8_mono(a: nat, b: nat)
    requires
        a <= b,
    ensures
        pow8(a) <= pow8(b),
    decreases b,
{
    if a < b {
        lemma_pow8_mono(a, (b - 1) as nat);
        lemma_pow8_pos((b - 1) as nat);
    }
}

proof fn lemma_pow8_pos(n: nat)
    ensures
        pow8(n) >= 1,
    decreases n,
{
    if n > 0 {
        lemma_pow8_pos((n - 1) as nat);
    }
}

/// Reads an octal field (at most 16 bytes).
pub fn parse_octal(field: &[u8]) -> (r: u64)
    requires
        field@.len() <= 16,
    ensures
        r == octal_value(field@),
        r < pow8(field@.len()),
{
    let mut result: u64 = 0;
    let mut i: usize = 0;
    let n = field.len();
    proof {
        assert(field@.subrange(0, n as int) =~= field@);
        reveal_with_fuel(pow8, 1);
    }
    while i < n
        invariant_except_break
            0 <= i <= n,
            n == field@.len(),
            n <= 16,
            0 <= result < pow8(i as nat),
            octal_value(field@) == octal_acc(field@.subrange(i as int, n as int), result as int),
        ensures
            result == octal_value(field@),
            result < pow8(n as nat),
        decreases n - i,
    {
        let byte = field[i];
        proof {
            let rest = field@.subrange(i as int, n as int);
            assert(rest[0] == byte);
            assert(rest.drop_first() =~= field@.subrange(i + 1, n as int));
            lemma_pow8_bound(i as nat);
            lemma_pow8_bound((i + 1) as nat);
        }
        if byte == 0 || byte == 32 {
            proof { lemma_pow8_mono(i as nat, n as nat); }
            break;
        }
        if byte >= 48 && byte <= 55 {
            result = result * 8 + (byte - 48) as u64;
        }
        i = i + 1;
    }
    proof {
        if i == n {
            assert(field@.subrange(n as int, n as int) =~= Seq::<u8>::empty());
        }
    }
    result
}

/// Index of the first NUL in `f`, or its length.
pub open spec fn cstr_len(f: Seq<u8>) -> int
    decreases f.len(),
{
    if f.len() == 0 {
        0
    } else if f[0] == 0 {
        0
    } else {
        1 + cstr_len(f.drop_first())
    }
}

/// `f` without its trailing `/` bytes.
pub open spec fn trim_slashes(f: Seq<u8>) -> Seq<u8>
    decreases f.len(),
{
    if f.len() > 0 && f.last() == 47 {
        trim_slashes(f.drop_last())
    } else {
        f
    }
}

/// The name bytes of a header block: the name field up to its NUL, less
/// trailing slashes.
pub open spec fn name_bytes(block: Seq<u8>) -> Seq<u8> {
    let field = block.subrange(NAME_OFF as int, (NAME_OFF + NAME_LEN) as int);
    trim_slashes(field.subrange(0, cstr_len(field)))
}

/// The name of a header block: its name bytes when they are UTF-8, else
/// the empty name.
pub open spec fn header_name(block: Seq<u8>) -> Seq<u8> {
    if valid_utf8(name_bytes(block)) { name_bytes(block) } else { Seq::empty() }
}

/// The file size a header block records.
pub open spec fn header_size(block: Seq<u8>) -> int {
    octal_value(block.subrange(SIZE_OFF as int, (SIZE_OFF + SIZE_LEN) as int))
}

/// The header is a regular file (type `'0'` or NUL).
pub open spec fn header_regular(block: Seq<u8>) -> bool {
    block[TYPEFLAG_OFF as int] == 48 || block[TYPEFLAG_OFF as int] == 0
}

/// Every byte of the block is zero.
pub open spec fn zero_block(block: Seq<u8>) -> bool {
    forall|i: int| 0 <= i < block.len() ==> block[i] == 0
}

/// The part of `name` after its last `/`.
pub open spec fn last_component(name: Seq<u8>) -> Seq<u8>
    decreases name.len(),
{
    if name.len() == 0 {
        name
    } else if name.last() == 47 {
        Seq::empty()
    } else {
        last_component(name.drop_last()).push(name.last())
    }
}

/// A file named `name` is what a lookup of `target` asks for: the whole
/// path or its last component.
pub open spec fn name_matches(name: Seq<u8>, target: Seq<u8>) -> bool {
    name == target || last_component(name) == target
}

/// The offset of the header after the file at `off` of `size` bytes.
pub open spec fn next_header(off: int, size: int) -> int {
    off + BLOCK_SIZE + (size + BLOCK_SIZE - 1) / (BLOCK_SIZE as int) * BLOCK_SIZE
}

/// The header after a file lies past the whole of its data, which takes
/// the fewest whole 512-byte blocks that hold `size` bytes: the walk
/// never reads file data as a header and wastes less than a block.
pub proof fn lemma_next_header_skips_data(off: int, size: int)
    requires
        0 <= size,
    ensures
        next_header(off, size) - off - 512 >= size,
        next_header(off, size) - off - 512 < size + 512,
        (next_header(off, size) - off) % 512 == 0,
{
    let r = (size + 511) / 512 * 512;
    assert(size <= r < size + 512 && r % 512 == 0) by (nonlinear_arith)
        requires size >= 0, r == (size + 511) / 512 * 512;
    assert((512 + r) % 512 == 0) by (nonlinear_arith)
        requires r % 512 == 0, r >= 0;
}

/// The header block at `off`.
pub open spec fn block_at(a: Seq<u8>, off: int) -> Seq<u8> {
    a.subrange(off, off + BLOCK_SIZE)
}

/// The header offset of the first regular file from `off` on whose name
/// matches `target` and whose data lies inside the archive.
pub open spec fn find_from(a: Seq<u8>, off: int, target: Seq<u8>) -> Option<int>
    decreases (if off < a.len() { a.len() - off } else { 0 }),
{
    if off < 0 || off + BLOCK_SIZE > a.len() {
        None
    } else if zero_block(block_at(a, off)) {
        None
    } else {
        let b = block_at(a, off);
        let size = header_size(b);
        if header_regular(b) && name_matches(header_name(b), target) && off + BLOCK_SIZE + size <= a.len() {
            Some(off)
        } else {
            proof {
                lemma_octal_grows(b.subrange(SIZE_OFF as int, (SIZE_OFF + SIZE_LEN) as int), 0);
                assert(next_header(off, size) >= off + BLOCK_SIZE);
            }
            find_from(a, next_header(off, size), target)
        }
    }
}

/// The header offsets of the regular files from `off` on, in order.
pub open spec fn files_from(a: Seq<u8>, off: int) -> Seq<int>
    decreases (if off < a.len() { a.len() - off } else { 0 }),
{
    if off < 0 || off + BLOCK_SIZE > a.len() {
        Seq::empty()
    } else if zero_block(block_at(a, off)) {
        Seq::empty()
    } else {
        let b = block_at(a, off);
        proof {
            lemma_octal_grows(b.subrange(SIZE_OFF as int, (SIZE_OFF + SIZE_LEN) as int), 0);
            assert(next_header(off, header_size(b)) >= off + BLOCK_SIZE);
        }
        let rest = files_from(a, next_header(off, header_size(b)));
        if header_regular(b) { seq![off] + rest } else { rest }
    }
}

/// A file in the archive: its name and its data.
#[derive(Clone, Copy)]
pub struct TarFile<'a> {
    pub name: &'a str,
    pub data: &'a [u8],
}

/// `core::str::from_utf8`: the bytes as a string slice when they are
/// valid UTF-8, viewing the same bytes.
#[verifier::external_body]
fn utf8_str(bytes: &[u8]) -> (r: Option<&str>)
    ensures
        r is Some <==> valid_utf8(bytes@),
        r matches Some(s) ==> s.spec_bytes() == bytes@,
{
    core::str::from_utf8(bytes).ok()
}

/// The block is all zero.
fn is_zero_block(block: &[u8]) -> (r: bool)
    ensures
        r == zero_block(block@),
{
    let mut i: usize = 0;
    while i < block.len()
        invariant
            0 <= i <= block@.len(),
            forall|k: int| 0 <= k < i ==> block@[k] == 0,
        decreases block@.len() - i,
    {
        if block[i] != 0 {
            return false;
        }
        i = i + 1;
    }
    true
}

/// The name of a header block as stored.
fn name_of<'a>(block: &'a [u8]) -> (r: &'a str)
    requires
        block@.len() == BLOCK_SIZE,
    ensures
        r.spec_bytes() == header_name(block@),
{
    let field = &block[NAME_OFF..NAME_OFF + NAME_LEN];
    let mut len: usize = 0;
    proof { assert(field@.subrange(0, NAME_LEN as int) =~= field@); }
    while len < NAME_LEN && field[len] != 0
        invariant
            0 <= len <= NAME_LEN,
            field@.len() == NAME_LEN,
            cstr_len(field@) == len + cstr_len(field@.subrange(len as int, NAME_LEN as int)),
        decreases NAME_LEN - len,
    {
        proof {
            let rest = field@.subrange(len as int, NAME_LEN as int);
            assert(rest.drop_first() =~= field@.subrange(len + 1, NAME_LEN as int));
        }
        len = len + 1;
    }
    proof {
        if len < NAME_LEN {
            let rest = field@.subrange(len as int, NAME_LEN as int);
            assert(rest[0] == 0);
        } else {
            assert(field@.subrange(NAME_LEN as int, NAME_LEN as int) =~= Seq::<u8>::empty());
        }
        assert(field@ =~= block@.subrange(NAME_OFF as int, (NAME_OFF + NAME_LEN) as int));
    }
    let ghost full = field@.subrange(0, len as int);
    while len > 0 && field[len - 1] == 47
        invariant
            0 <= len <= NAME_LEN,
            field@.len() == NAME_LEN,
            full.len() <= NAME_LEN,
            len <= full.len(),
            full == field@.subrange(0, full.len() as int),
            trim_slashes(full) == trim_slashes(field@.subrange(0, len as int)),
        decreases len,
    {
        proof {
            assert(field@.subrange(0, len as int).drop_last() =~= field@.subrange(0, len - 1));
        }
        len = len - 1;
    }
    proof {
        let s = field@.subrange(0, len as int);
        assert(!(s.len() > 0 && s.last() == 47));
        assert(trim_slashes(s) == s);
    }
    let trimmed = &field[0..len];
    match utf8_str(trimmed) {
        Some(s) => s,
        None => {
            proof {
                reveal_strlit("");
                assert(""@ =~= Seq::<char>::empty());
                assert(vstd::utf8::encode_utf8(Seq::<char>::empty()) =~= Seq::<u8>::empty());
            }
            ""
        },
    }
}

/// The part of `s` after its last `/` (all of it when there is none).
fn last_component_of<'a>(s: &'a [u8]) -> (r: &'a [u8])
    ensures
        r@ == last_component(s@),
{
    let mut j: usize = s.len();
    proof { assert(s@.subrange(j as int, j as int) =~= Seq::<u8>::empty()); assert(s@.subrange(0, j as int) =~= s@); }
    while j > 0 && s[j - 1] != 47
        invariant
            0 <= j <= s@.len(),
            last_component(s@) == last_component(s@.subrange(0, j as int)) + s@.subrange(j as int, s@.len() as int),
        decreases j,
    {
        proof {
            let p = s@.subrange(0, j as int);
            assert(p.drop_last() =~= s@.subrange(0, j - 1));
            assert(last_component(p) == last_component(s@.subrange(0, j - 1)).push(s@[j - 1]));
            assert(last_component(s@.subrange(0, j - 1)).push(s@[j - 1]) + s@.subrange(j as int, s@.len() as int)
                =~= last_component(s@.subrange(0, j - 1)) + s@.subrange(j - 1, s@.len() as int));
        }
        j = j - 1;
    }
    proof {
        let p = s@.subrange(0, j as int);
        if j == 0 {
            assert(p =~= Seq::<u8>::empty());
        }
        assert(last_component(p) =~= Seq::<u8>::empty());
        assert(Seq::<u8>::empty() + s@.subrange(j as int, s@.len() as int) =~= s@.subrange(j as int, s@.len() as int));
    }
    &s[j..s.len()]
}

/// The two byte strings are equal.
fn bytes_equal(a: &[u8], b: &[u8]) -> (r: bool)
    ensures
        r == (a@ == b@),
{
    if a.len() != b.len() {
        return false;
    }
    let mut i: usize = 0;
    while i < a.len()
        invariant
            0 <= i <= a@.len(),
            a@.len() == b@.len(),
            forall|k: int| 0 <= k < i ==> a@[k] == b@[k],
        decreases a@.len() - i,
    {
        if a[i] != b[i] {
            return false;
        }
        i = i + 1;
    }
    proof { assert(a@ =~= b@); }
    true
}

/// Looks up a regular file by full path or by last path component; the
/// first match whose data lies inside the archive wins. The search stops
/// at the first all-zero block.
pub fn find_file<'a>(archive: &'a [u8], target_name: &str) -> (r: Option<TarFile<'a>>)
    ensures
        match find_from(archive@, 0, target_name.spec_bytes()) {
            Some(off) => r matches Some(f) && {
                &&& f.name.spec_bytes() == header_name(block_at(archive@, off))
                &&& f.data@ == archive@.subrange(off + BLOCK_SIZE, off + BLOCK_SIZE + header_size(block_at(archive@, off)))
            },
            None => r is None,
        },
{
    let target = target_name.as_bytes();
    let len = archive.len();
    let mut offset: usize = 0;
    while offset <= len && BLOCK_SIZE <= len - offset
        invariant
            offset <= len,
            len == archive@.len(),
            target@ == target_name.spec_bytes(),
            find_from(archive@, 0, target@) == find_from(archive@, offset as int, target@),
        decreases len - offset,
    {
        let block = &archive[offset..offset + BLOCK_SIZE];
        let ghost b = block_at(archive@, offset as int);
        proof { assert(block@ == b); }
        if is_zero_block(block) {
            return None;
        }
        let name = name_of(block);
        proof { assert(block@.subrange(SIZE_OFF as int, (SIZE_OFF + SIZE_LEN) as int).len() == 12); }
        let size = parse_octal(&block[SIZE_OFF..SIZE_OFF + SIZE_LEN]);
        proof {
            assert(block@.subrange(SIZE_OFF as int, (SIZE_OFF + SIZE_LEN) as int)
                == b.subrange(SIZE_OFF as int, (SIZE_OFF + SIZE_LEN) as int));
            lemma_octal_grows(b.subrange(SIZE_OFF as int, (SIZE_OFF + SIZE_LEN) as int), 0);
            lemma_pow8_bound(12);
        }
        let data_offset = offset + BLOCK_SIZE;
        let room = (len - data_offset) as u64;
        let typeflag = block[TYPEFLAG_OFF];
        if typeflag == 48 || typeflag == 0 {
            let nb = name.as_bytes();
            let matches = bytes_equal(nb, target) || bytes_equal(last_component_of(nb), target);
            proof {
                assert(matches == name_matches(header_name(b), target@));
            }
            if matches && size <= room {
                let end = data_offset + size as usize;
                return Some(TarFile { name, data: &archive[data_offset..end] });
            }
        }
        proof {
            assert(header_size(b) == size);
            assert(header_regular(b) == (typeflag == 48 || typeflag == 0));
            assert(!(header_regular(b) && name_matches(header_name(b), target@) && offset + BLOCK_SIZE + header_size(b) <= len));
            assert(find_from(archive@, offset as int, target@) == find_from(archive@, next_header(offset as int, size as int), target@));
        }
        let blocks = (size + 511) / 512;
        let advance = blocks * 512;
        if advance > room {
            proof {
                assert(next_header(offset as int, size as int) > len);
            }
            return None;
        }
        offset = data_offset + advance as usize;
    }
    None
}

/// The regular files of the archive, in order, each as its name and
/// size (what a visitor called per file would be handed). The walk stops
/// at the first all-zero block.
pub fn for_each_file<'a>(archive: &'a [u8]) -> (r: Vec<(&'a str, u64)>)
    ensures
        r@.len() == files_from(archive@, 0).len(),
        forall|k: int| 0 <= k < r@.len() ==> {
            &&& (#[trigger] r@[k]).0.spec_bytes() == header_name(block_at(archive@, files_from(archive@, 0)[k]))
            &&& r@[k].1 == header_size(block_at(archive@, files_from(archive@, 0)[k]))
        },
{
    let len = archive.len();
    let mut out: Vec<(&'a str, u64)> = Vec::new();
    let mut offset: usize = 0;
    let ghost all = files_from(archive@, 0);
    proof { assert(all =~= Seq::<int>::empty() + files_from(archive@, 0)); }
    while offset <= len && BLOCK_SIZE <= len - offset
        invariant_except_break
            offset <= len,
            len == archive@.len(),
            all == files_from(archive@, 0),
            out@.len() <= all.len(),
            all == all.subrange(0, out@.len() as int) + files_from(archive@, offset as int),
            forall|k: int| 0 <= k < out@.len() ==> {
                &&& (#[trigger] out@[k]).0.spec_bytes() == header_name(block_at(archive@, all[k]))
                &&& out@[k].1 == header_size(block_at(archive@, all[k]))
            },
        ensures
            out@.len() == all.len(),
            forall|k: int| 0 <= k < out@.len() ==> {
                &&& (#[trigger] out@[k]).0.spec_bytes() == header_name(block_at(archive@, all[k]))
                &&& out@[k].1 == header_size(block_at(archive@, all[k]))
            },
        decreases len - offset,
    {
        let block = &archive[offset..offset + BLOCK_SIZE];
        let ghost b = block_at(archive@, offset as int);
        proof { assert(block@ == b); }
        if is_zero_block(block) {
            proof { assert(all =~= all.subrange(0, out@.len() as int)); }
            break;
        }
        let name = name_of(block);
        let size = parse_octal(&block[SIZE_OFF..SIZE_OFF + SIZE_LEN]);
        proof {
            assert(block@.subrange(SIZE_OFF as int, (SIZE_OFF + SIZE_LEN) as int)
                == b.subrange(SIZE_OFF as int, (SIZE_OFF + SIZE_LEN) as int));
            lemma_octal_grows(b.subrange(SIZE_OFF as int, (SIZE_OFF + SIZE_LEN) as int), 0);
            lemma_pow8_bound(12);
        }
        let typeflag = block[TYPEFLAG_OFF];
        let ghost rest = files_from(archive@, next_header(offset as int, size as int));
        if typeflag == 48 || typeflag == 0 {
            proof {
                assert(files_from(archive@, offset as int) == seq![offset as int] + rest);
                assert(all[out@.len() as int] == offset as int);
            }
            out.push((name, size));
            proof {
                assert(all =~= all.subrange(0, out@.len() as int) + rest);
            }
        } else {
            proof { assert(files_from(archive@, offset as int) == rest); }
        }
        let data_offset = offset + BLOCK_SIZE;
        let room = (len - data_offset) as u64;
        let blocks = (size + 511) / 512;
        let advance = blocks * 512;
        if advance > room {
            proof {
                assert(files_from(archive@, next_header(offset as int, size as int)) =~= Seq::<int>::empty());
                assert(all =~= all.subrange(0, out@.len() as int));
            }
            break;
        }
        offset = data_offset + advance as usize;
    }
    proof {
        if !(offset <= len && BLOCK_SIZE <= len - offset) {
            assert(files_from(archive@, offset as int) =~= Seq::<int>::empty());
            assert(all =~= all.subrange(0, out@.len() as int));
        }
    }
    out
}

} // verus!
