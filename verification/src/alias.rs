//! Directory aliasing: one directory tree made to appear at a second
//! path without copying.  On POSIX that is a symbolic link; on Windows
//! an NTFS directory junction, a mount-point reparse point whose data
//! buffer this module lays out byte for byte.
//!
//! The filesystem mutation itself happens outside the library; here live
//! the two decisions that make it correct: which steps a call performs
//! (none at all under dry run), and the exact content of the bounded
//! reparse-data buffer, which must be size-checked before it is written.

use vstd::prelude::*;

verus! {

/// The reparse tag of a mount-point (junction) reparse point.
pub const IO_REPARSE_TAG_MOUNT_POINT: u32 = 0xA0000003;

/// The fixed maximum size of a reparse-data buffer; a target path whose
/// encoded form would overflow it must be rejected cleanly.
pub const MAXIMUM_REPARSE_DATA_BUFFER_SIZE: usize = 16384;

/// The little-endian bytes of a 16-bit word.
pub open spec fn le_bytes_u16(x: u16) -> Seq<u8> {
    seq![(x & 0xff) as u8, ((x >> 8) & 0xff) as u8]
}

/// The little-endian bytes of a 32-bit word.
pub open spec fn le_bytes_u32(x: u32) -> Seq<u8> {
    seq![
        (x & 0xff) as u8,
        ((x >> 8) & 0xff) as u8,
        ((x >> 16) & 0xff) as u8,
        ((x >> 24) & 0xff) as u8,
    ]
}

/// A UTF-16 string flattened to little-endian bytes.
pub open spec fn wide_to_bytes(s: Seq<u16>) -> Seq<u8>
    decreases s.len(),
{
    if s.len() == 0 {
        Seq::empty()
    } else {
        le_bytes_u16(s[0]) + wide_to_bytes(s.drop_first())
    }
}

proof fn lemma_wide_to_bytes_push(s: Seq<u16>, x: u16)
    ensures
        wide_to_bytes(s.push(x)) == wide_to_bytes(s) + le_bytes_u16(x),
    decreases s.len(),
{
    if s.len() == 0 {
        assert(s.push(x).drop_first() =~= Seq::<u16>::empty());
        assert(s.push(x)[0] == x);
        assert(wide_to_bytes(s) + le_bytes_u16(x) =~= le_bytes_u16(x) + wide_to_bytes(
            Seq::<u16>::empty(),
        ));
    } else {
        assert(s.push(x).drop_first() =~= s.drop_first().push(x));
        assert(s.push(x)[0] == s[0]);
        lemma_wide_to_bytes_push(s.drop_first(), x);
        assert(le_bytes_u16(s[0]) + (wide_to_bytes(s.drop_first()) + le_bytes_u16(x)) =~= (
        le_bytes_u16(s[0]) + wide_to_bytes(s.drop_first())) + le_bytes_u16(x));
    }
}

/// The device-path marker `\??\` that prefixes a junction target.
pub open spec fn device_prefix() -> Seq<u16> {
    seq![92u16, 63u16, 63u16, 92u16]
}

/// The UTF-16 content of the reparse target field: the device-path
/// marker, then the canonical target with its first four characters
/// (its own `\\?\` prefix) dropped, then a terminating NUL.
pub open spec fn junction_target_content(target: Seq<u16>) -> Seq<u16> {
    device_prefix() + (if target.len() >= 4 {
        target.skip(4)
    } else {
        Seq::empty()
    }) + seq![0u16]
}

/// Whether the encoded target fits the bounded reparse-data buffer.
pub open spec fn junction_target_fits(target: Seq<u16>) -> bool {
    2 * junction_target_content(target).len() + 18 <= MAXIMUM_REPARSE_DATA_BUFFER_SIZE
}

/// The bytes handed to the reparse-point control request: a 16-byte
/// mount-point header, the UTF-16 target content in little endian, and
/// two further zero bytes the request's length field covers.
pub open spec fn reparse_buffer_spec(target: Seq<u16>) -> Seq<u8> {
    let content = junction_target_content(target);
    let target_bytes = 2 * (content.len() - 1);
    le_bytes_u32(IO_REPARSE_TAG_MOUNT_POINT) + le_bytes_u32((target_bytes + 12) as u32)
        + le_bytes_u16(0u16) + le_bytes_u16(target_bytes as u16) + le_bytes_u16(
        (target_bytes + 2) as u16,
    ) + le_bytes_u16(0u16) + wide_to_bytes(content) + seq![0u8, 0u8]
}

fn push_u16_le(out: &mut Vec<u8>, x: u16)
    ensures
        final(out)@ == old(out)@ + le_bytes_u16(x),
{
    assert(x & 0xff <= 0xff) by (bit_vector);
    assert((x >> 8) & 0xff <= 0xff) by (bit_vector);
    out.push((x & 0xff) as u8);
    out.push(((x >> 8) & 0xff) as u8);
    proof {
        assert(out@ =~= old(out)@ + le_bytes_u16(x));
    }
}

fn push_u32_le(out: &mut Vec<u8>, x: u32)
    ensures
        final(out)@ == old(out)@ + le_bytes_u32(x),
{
    assert(x & 0xff <= 0xff) by (bit_vector);
    assert((x >> 8) & 0xff <= 0xff) by (bit_vector);
    assert((x >> 16) & 0xff <= 0xff) by (bit_vector);
    assert((x >> 24) & 0xff <= 0xff) by (bit_vector);
    out.push((x & 0xff) as u8);
    out.push(((x >> 8) & 0xff) as u8);
    out.push(((x >> 16) & 0xff) as u8);
    out.push(((x >> 24) & 0xff) as u8);
    proof {
        assert(out@ =~= old(out)@ + le_bytes_u32(x));
    }
}

/// Lays out the reparse-data buffer that attaches a mount-point reparse
/// point for `target`, the canonical absolute target path in UTF-16
/// without a terminating NUL.  Returns `None`, mutating nothing, when
/// the encoded target would overflow the bounded buffer.
pub fn junction_reparse_buffer(target: &Vec<u16>) -> (r: Option<Vec<u8>>)
    ensures
        junction_target_fits(target@) ==> (r matches Some(buf) && buf@ == reparse_buffer_spec(
            target@,
        )),
        !junction_target_fits(target@) ==> r is None,
{
    let n = target.len();
    proof {
        if n >= 4 {
            assert(junction_target_content(target@).len() == n + 1);
        } else {
            assert(junction_target_content(target@).len() == 5);
        }
    }
    if n > 8182 {
        return None;
    }

    // The UTF-16 content of the target field.
    let mut content: Vec<u16> = Vec::new();
    content.push(92);
    content.push(63);
    content.push(63);
    content.push(92);
    proof {
        assert(content@ =~= device_prefix());
    }
    if n >= 4 {
        proof {
            assert(content@ =~= device_prefix() + target@.subrange(4, 4));
        }
        let mut j: usize = 4;
        while j < n
            invariant
                4 <= j <= n,
                n == target@.len(),
                content@ == device_prefix() + target@.subrange(4, j as int),
            decreases n - j,
        {
            content.push(target[j]);
            proof {
                assert(content@ =~= device_prefix() + target@.subrange(4, j + 1));
            }
            j += 1;
        }
        proof {
            assert(target@.subrange(4, n as int) =~= target@.skip(4));
        }
    } else {
        proof {
            assert(content@ =~= device_prefix() + Seq::<u16>::empty());
        }
    }
    content.push(0);
    proof {
        assert(content@ =~= junction_target_content(target@));
    }

    let content_len = content.len();
    let target_bytes: usize = 2 * (content_len - 1);

    // The 16-byte mount-point header.
    let mut buf: Vec<u8> = Vec::new();
    push_u32_le(&mut buf, IO_REPARSE_TAG_MOUNT_POINT);
    push_u32_le(&mut buf, (target_bytes + 12) as u32);
    push_u16_le(&mut buf, 0);
    push_u16_le(&mut buf, target_bytes as u16);
    push_u16_le(&mut buf, (target_bytes + 2) as u16);
    push_u16_le(&mut buf, 0);
    let ghost header = buf@;

    // The target content, flattened to little-endian bytes.
    let mut j: usize = 0;
    while j < content.len()
        invariant
            j <= content@.len(),
            buf@ == header + wide_to_bytes(content@.subrange(0, j as int)),
        decreases content@.len() - j,
    {
        let ghost done = content@.subrange(0, j as int);
        push_u16_le(&mut buf, content[j]);
        proof {
            lemma_wide_to_bytes_push(done, content@[j as int]);
            assert(content@.subrange(0, j + 1) =~= done.push(content@[j as int]));
            assert(header + (wide_to_bytes(done) + le_bytes_u16(content@[j as int])) =~= (header
                + wide_to_bytes(done)) + le_bytes_u16(content@[j as int]));
        }
        j += 1;
    }
    proof {
        assert(content@.subrange(0, content@.len() as int) =~= content@);
    }
    buf.push(0);
    buf.push(0);
    proof {
        assert(buf@ =~= reparse_buffer_spec(target@));
    }
    Some(buf)
}

/// One step of materializing a directory alias.
#[derive(Clone, Copy, Debug, PartialEq, Eq, Structural)]
pub enum AliasStep {
    /// Remove an existing empty directory at the link path, ignoring
    /// failure; the creation step is authoritative.
    RemoveExistingDir,
    /// Create the platform alias: a symbolic link on POSIX, a junction
    /// on Windows.
    CreateAlias,
}

/// The steps a `symlink_dir` call performs: none at all under dry run,
/// which reports success while leaving the filesystem unchanged;
/// otherwise removal of a leftover empty directory, then creation.
pub fn symlink_dir_steps(dry_run: bool) -> (steps: Vec<AliasStep>)
    ensures
        dry_run ==> steps@ == Seq::<AliasStep>::empty(),
        !dry_run ==> steps@ == seq![AliasStep::RemoveExistingDir, AliasStep::CreateAlias],
{
    let mut steps: Vec<AliasStep> = Vec::new();
    if !dry_run {
        steps.push(AliasStep::RemoveExistingDir);
        steps.push(AliasStep::CreateAlias);
        proof {
            assert(steps@ =~= seq![AliasStep::RemoveExistingDir, AliasStep::CreateAlias]);
        }
    } else {
        proof {
            assert(steps@ =~= Seq::<AliasStep>::empty());
        }
    }
    steps
}

} // verus!
