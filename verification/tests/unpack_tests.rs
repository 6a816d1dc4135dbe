use tar_split::metadata::{SplitMetadata, encode_split_metadata};
use tar_split::unpack::{UnpackAction, UnpackEntryKind, UnpackError, UnpackState, apply_chunk};

fn md_payload(path: &[u8], off: u32, csz: u32, tot: u64) -> Vec<u8> {
    encode_split_metadata(&SplitMetadata {
        path: path.to_vec(),
        start_offset: off,
        chunk_size: csz,
        total_size: tot,
    })
}

#[test]
fn directory_entry_makes_dir() {
    let mut u = UnpackState::new(b"/out".to_vec());
    let r = u.step(UnpackEntryKind::Directory, &b"a/".to_vec(), None, None).unwrap();
    match r {
        UnpackAction::MakeDir { path } => assert_eq!(path.as_slice(), b"/out/a/"),
        _ => panic!("expected a mkdir"),
    }
}

#[test]
fn symlink_targets_are_rewritten_under_root() {
    let mut u = UnpackState::new(b"/out".to_vec());
    let t = b"a/x".to_vec();
    let r = u.step(UnpackEntryKind::Symlink, &b"a/y".to_vec(), Some(&t), None).unwrap();
    match r {
        UnpackAction::MakeSymlink { path, target } => {
            assert_eq!(path.as_slice(), b"/out/a/y");
            assert_eq!(target.as_slice(), b"/out/a/x");
        }
        _ => panic!("expected a symlink"),
    }
}

#[test]
fn hardlink_entry_links_under_root() {
    let mut u = UnpackState::new(b"/out".to_vec());
    let t = b"f".to_vec();
    let r = u.step(UnpackEntryKind::Hardlink, &b"g".to_vec(), Some(&t), None).unwrap();
    match r {
        UnpackAction::MakeHardLink { path, target } => {
            assert_eq!(path.as_slice(), b"/out/g");
            assert_eq!(target.as_slice(), b"/out/f");
        }
        _ => panic!("expected a hardlink"),
    }
}

#[test]
fn link_without_target_fails() {
    let mut u = UnpackState::new(b"/out".to_vec());
    let r = u.step(UnpackEntryKind::Symlink, &b"a/y".to_vec(), None, None);
    assert!(matches!(r, Err(UnpackError::MissingLinkTarget)));
}

#[test]
fn metadata_then_chunk() {
    let mut u = UnpackState::new(b"/out".to_vec());
    let payload = md_payload(b"big", 1_000_000, 500_000, 2_500_000);
    let name = b"big.split-metadata.2.json".to_vec();
    let r = u.step(UnpackEntryKind::File, &name, None, Some(&payload)).unwrap();
    match r {
        UnpackAction::Preallocate { path, total_size } => {
            assert_eq!(path.as_slice(), b"/out/big");
            assert_eq!(total_size, 2_500_000);
        }
        _ => panic!("expected a preallocation"),
    }
    let r = u.step(UnpackEntryKind::File, &b"big".to_vec(), None, None).unwrap();
    match r {
        UnpackAction::WriteChunk { path, offset, expected_len } => {
            assert_eq!(path.as_slice(), b"/out/big");
            assert_eq!(offset, 1_000_000);
            assert_eq!(expected_len, 500_000);
        }
        _ => panic!("expected a chunk write"),
    }
    // The pending record is consumed: the next file is written whole.
    let r = u.step(UnpackEntryKind::File, &b"plain".to_vec(), None, None).unwrap();
    assert!(matches!(r, UnpackAction::WriteWhole { .. }));
}

#[test]
fn two_metadata_entries_in_a_row_fail() {
    let mut u = UnpackState::new(b"/out".to_vec());
    let payload = md_payload(b"big", 0, 1, 2);
    let name = b"big.split-metadata.0.json".to_vec();
    u.step(UnpackEntryKind::File, &name, None, Some(&payload)).unwrap();
    let r = u.step(UnpackEntryKind::File, &name, None, Some(&payload));
    assert!(matches!(r, Err(UnpackError::UnexpectedMetadata)));
}

#[test]
fn garbled_metadata_fails() {
    let mut u = UnpackState::new(b"/out".to_vec());
    let payload = b"{not json}".to_vec();
    let name = b"x.split-metadata.0.json".to_vec();
    let r = u.step(UnpackEntryKind::File, &name, None, Some(&payload));
    assert!(matches!(r, Err(UnpackError::MetadataParse)));
}

#[test]
fn plain_file_is_written_whole() {
    let mut u = UnpackState::new(b"".to_vec());
    let r = u.step(UnpackEntryKind::File, &b"f".to_vec(), None, None).unwrap();
    match r {
        UnpackAction::WriteWhole { path } => assert_eq!(path.as_slice(), b"f"),
        _ => panic!("expected a whole write"),
    }
}

#[test]
fn metadata_path_detection() {
    assert!(tar_split::unpack::is_split_metadata_path(b"a/b.split-metadata.0.json"));
    assert!(tar_split::unpack::is_split_metadata_path(b"split-metadata"));
    assert!(!tar_split::unpack::is_split_metadata_path(b"a/b.json"));
    assert!(!tar_split::unpack::is_split_metadata_path(b"split-metadat"));
}

#[test]
fn absolute_entry_paths_are_not_joined() {
    let mut u = UnpackState::new(b"/out".to_vec());
    let r = u.step(UnpackEntryKind::File, &b"/abs".to_vec(), None, None).unwrap();
    match r {
        UnpackAction::WriteWhole { path } => assert_eq!(path.as_slice(), b"/abs"),
        _ => panic!("expected a whole write"),
    }
}

#[test]
fn chunk_writes_rebuild_the_file() {
    // The content of the oversized file from the chunking scenario:
    // byte i holds i mod 256.
    let total = 2_500_000usize;
    let mut content: Vec<u8> = Vec::with_capacity(total);
    for i in 0..total {
        content.push((i % 256) as u8);
    }
    let plan = [(0usize, 1_000_000usize), (1_000_000, 1_000_000), (2_000_000, 500_000)];
    let mut buf = vec![0u8; total];
    for (off, len) in plan {
        apply_chunk(&mut buf, off, &content[off..off + len]);
    }
    assert_eq!(buf, content);
}

#[test]
fn chunk_write_order_does_not_matter() {
    // Workers on different archives may write their chunks in any order.
    let total = 2_500_000usize;
    let mut content: Vec<u8> = Vec::with_capacity(total);
    for i in 0..total {
        content.push((255 - i % 256) as u8);
    }
    let plan = [(0usize, 1_000_000usize), (1_000_000, 1_000_000), (2_000_000, 500_000)];
    let orders: [[usize; 3]; 3] = [[0, 1, 2], [2, 0, 1], [1, 2, 0]];
    let mut results: Vec<Vec<u8>> = Vec::new();
    for order in orders {
        let mut buf = vec![0u8; total];
        for k in order {
            let (off, len) = plan[k];
            apply_chunk(&mut buf, off, &content[off..off + len]);
        }
        results.push(buf);
    }
    assert_eq!(results[0], results[1]);
    assert_eq!(results[1], results[2]);
    assert_eq!(results[0], content);
}
