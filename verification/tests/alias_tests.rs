use bootstrap::alias::{junction_reparse_buffer, symlink_dir_steps, AliasStep};

#[test]
fn dry_run_plans_no_steps() {
    let steps = symlink_dir_steps(true);
    assert!(steps.is_empty());
}

#[test]
fn real_run_removes_then_creates() {
    let steps = symlink_dir_steps(false);
    assert_eq!(steps, vec![AliasStep::RemoveExistingDir, AliasStep::CreateAlias]);
}

#[test]
fn reparse_buffer_layout_is_exact() {
    // The canonical target `\\?\C:\x` in UTF-16.
    let target: Vec<u16> = vec![92, 92, 63, 92, 67, 58, 92, 120];
    let buf = junction_reparse_buffer(&target).unwrap();

    // Content: `\??\` + `C:\x` + NUL = 9 UTF-16 units, so the target
    // field is 16 bytes long and the whole request covers 36 bytes.
    let mut expected: Vec<u8> = Vec::new();
    expected.extend_from_slice(&[0x03, 0x00, 0x00, 0xA0]); // IO_REPARSE_TAG_MOUNT_POINT
    expected.extend_from_slice(&[28, 0, 0, 0]); // ReparseDataLength = 16 + 12
    expected.extend_from_slice(&[0, 0]); // Reserved
    expected.extend_from_slice(&[16, 0]); // ReparseTargetLength
    expected.extend_from_slice(&[18, 0]); // ReparseTargetMaximumLength
    expected.extend_from_slice(&[0, 0]); // Reserved1
    for w in [92u16, 63, 63, 92, 67, 58, 92, 120, 0] {
        expected.push((w & 0xff) as u8);
        expected.push((w >> 8) as u8);
    }
    expected.extend_from_slice(&[0, 0]);

    assert_eq!(buf, expected);
    assert_eq!(buf.len(), 36);
}

#[test]
fn short_target_is_consumed_entirely_by_the_prefix_skip() {
    // Shorter than the four characters the device-path skip drops.
    let target: Vec<u16> = vec![92, 92];
    let buf = junction_reparse_buffer(&target).unwrap();
    // Content is `\??\` + NUL alone.
    assert_eq!(buf.len(), 16 + 2 * 5 + 2);
    assert_eq!(&buf[16..26], &[92, 0, 63, 0, 63, 0, 92, 0, 0, 0]);
}

#[test]
fn oversized_target_fails_cleanly() {
    let target: Vec<u16> = vec![92u16; 9000];
    assert!(junction_reparse_buffer(&target).is_none());
}

#[test]
fn largest_fitting_target_still_succeeds() {
    // 8182 encoded units is the largest target whose reparse data still
    // fits the bounded buffer.
    let target: Vec<u16> = vec![92u16; 8182];
    let buf = junction_reparse_buffer(&target).unwrap();
    assert_eq!(buf.len(), 16384);
    let target: Vec<u16> = vec![92u16; 8183];
    assert!(junction_reparse_buffer(&target).is_none());
}
