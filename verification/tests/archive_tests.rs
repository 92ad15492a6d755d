use ggpk::GGPK;
use ggpk::GGPKError;
use ggpk::GGPKFile;
use ggpk::FileRecord;

// Builders for archive byte images. Every record starts with a 4-byte
// little-endian total size and a 4-byte ASCII tag.

fn utf16z(name: &str) -> Vec<u8> {
    let mut out = Vec::new();
    for u in name.encode_utf16() {
        out.extend_from_slice(&u.to_le_bytes());
    }
    out.extend_from_slice(&0u16.to_le_bytes());
    out
}

fn utf32z(name: &str) -> Vec<u8> {
    let mut out = Vec::new();
    for c in name.chars() {
        out.extend_from_slice(&(c as u32).to_le_bytes());
    }
    out.extend_from_slice(&0u32.to_le_bytes());
    out
}

fn root_rec(version: u32, children: &[u64]) -> Vec<u8> {
    let size = 12 + 8 * children.len() as u32;
    let mut out = Vec::new();
    out.extend_from_slice(&size.to_le_bytes());
    out.extend_from_slice(b"GGPK");
    out.extend_from_slice(&version.to_le_bytes());
    for c in children {
        out.extend_from_slice(&c.to_le_bytes());
    }
    out
}

fn pdir_rec(name_enc: &[u8], declared_len: u32, children: &[u64]) -> Vec<u8> {
    let size = 48 + name_enc.len() as u32 + 12 * children.len() as u32;
    let mut out = Vec::new();
    out.extend_from_slice(&size.to_le_bytes());
    out.extend_from_slice(b"PDIR");
    out.extend_from_slice(&declared_len.to_le_bytes());
    out.extend_from_slice(&(children.len() as u32).to_le_bytes());
    out.extend_from_slice(&[0u8; 32]);
    out.extend_from_slice(name_enc);
    for c in children {
        out.extend_from_slice(&0u32.to_le_bytes());
        out.extend_from_slice(&c.to_le_bytes());
    }
    out
}

fn file_rec(name_enc: &[u8], declared_len: u32, content: &[u8]) -> Vec<u8> {
    let size = 44 + name_enc.len() as u32 + content.len() as u32;
    let mut out = Vec::new();
    out.extend_from_slice(&size.to_le_bytes());
    out.extend_from_slice(b"FILE");
    out.extend_from_slice(&declared_len.to_le_bytes());
    out.extend_from_slice(&[0u8; 32]);
    out.extend_from_slice(name_enc);
    out.extend_from_slice(content);
    out
}

fn free_rec(padding: u32) -> Vec<u8> {
    let size = 8 + padding;
    let mut out = Vec::new();
    out.extend_from_slice(&size.to_le_bytes());
    out.extend_from_slice(b"FREE");
    out.extend(std::iter::repeat(0u8).take(padding as usize));
    out
}

/// The example archive: root -> one directory `Data` holding one file
/// `quest.txt` with content `hello`, names encoded per `version`.
fn example_archive(version: u32, utf32: bool) -> Vec<u8> {
    let name_dir = if utf32 { utf32z("Data") } else { utf16z("Data") };
    let name_file = if utf32 { utf32z("quest.txt") } else { utf16z("quest.txt") };
    let root_size = 12 + 8;
    let dir_size = 48 + name_dir.len() as u64 + 12;
    let dir_off = root_size as u64;
    let file_off = dir_off + dir_size;
    let mut bytes = root_rec(version, &[dir_off]);
    bytes.extend_from_slice(&pdir_rec(&name_dir, 5, &[file_off]));
    bytes.extend_from_slice(&file_rec(&name_file, 10, b"hello"));
    bytes
}

fn sorted(mut v: Vec<String>) -> Vec<String> {
    v.sort();
    v
}

#[test]
fn example_scenario_lists_one_path() {
    let g = GGPK::from_bytes(&example_archive(3, false)).unwrap();
    assert_eq!(g.list_files(), vec!["Data/quest.txt".to_string()]);
}

#[test]
fn example_scenario_resolves_and_reads() {
    let g = GGPK::from_bytes(&example_archive(3, false)).unwrap();
    let f = g.get_file("Data/quest.txt").unwrap();
    assert_eq!(f.record.name, "quest.txt");
    assert_eq!(f.record.path, "Data");
    assert_eq!(f.record.bytes, 5);
    assert_eq!(f.record.absolute_path(), "Data/quest.txt");
    assert_eq!(f.bytes().unwrap(), b"hello".to_vec());
}

#[test]
fn utf32_archive_round_trip() {
    let g = GGPK::from_bytes(&example_archive(4, true)).unwrap();
    assert_eq!(g.list_files(), vec!["Data/quest.txt".to_string()]);
    let f = g.get_file("Data/quest.txt").unwrap();
    assert_eq!(f.bytes().unwrap(), b"hello".to_vec());
}

#[test]
fn unknown_version_behaves_like_newest() {
    // An unknown header version id falls back to the newest known version,
    // whose names are UTF-32; lookups behave exactly as under version 4.
    let g = GGPK::from_bytes(&example_archive(99, true)).unwrap();
    assert_eq!(g.list_files(), vec!["Data/quest.txt".to_string()]);
    let f = g.get_file("Data/quest.txt").unwrap();
    assert_eq!(f.record.bytes, 5);
}

#[test]
fn read_bytes_length_matches_descriptor() {
    let g = GGPK::from_bytes(&example_archive(2, false)).unwrap();
    let f = g.get_file("Data/quest.txt").unwrap();
    let v = f.bytes().unwrap();
    assert_eq!(v.len() as u32, f.record.bytes);
}

#[test]
fn ambiguous_lookup_reports_all_matches() {
    // Two distinct file records share the absolute path Data/quest.txt.
    let name_dir = utf16z("Data");
    let name_file = utf16z("quest.txt");
    let root_size: u64 = 12 + 8;
    let dir_size: u64 = 48 + name_dir.len() as u64 + 24;
    let file_size: u64 = 44 + name_file.len() as u64 + 5;
    let dir_off = root_size;
    let file1_off = dir_off + dir_size;
    let file2_off = file1_off + file_size;
    let mut bytes = root_rec(3, &[dir_off]);
    bytes.extend_from_slice(&pdir_rec(&name_dir, 5, &[file1_off, file2_off]));
    bytes.extend_from_slice(&file_rec(&name_file, 10, b"first"));
    bytes.extend_from_slice(&file_rec(&name_file, 10, b"other"));
    let g = GGPK::from_bytes(&bytes).unwrap();
    assert_eq!(g.list_files().len(), 2);
    match g.get_file("Data/quest.txt") {
        Err(GGPKError::Ambiguous { path, candidates }) => {
            assert_eq!(path, "Data/quest.txt");
            assert_eq!(
                sorted(candidates),
                vec!["Data/quest.txt".to_string(), "Data/quest.txt".to_string()]
            );
        },
        other => panic!("expected an ambiguous lookup, got {:?}", other.map(|f| f.record.name)),
    }
}

#[test]
fn missing_path_reports_not_found() {
    let g = GGPK::from_bytes(&example_archive(3, false)).unwrap();
    match g.get_file("Data/nothing.txt") {
        Err(GGPKError::NotFound { path }) => assert_eq!(path, "Data/nothing.txt"),
        other => panic!("expected not found, got {:?}", other.map(|f| f.record.name)),
    }
}

#[test]
fn corrupt_subtree_spares_the_rest() {
    // The root has two children: a directory offset far past the end of the
    // archive, and a healthy file. Only the corrupt subtree is missing.
    let name_file = utf16z("readme.txt");
    let root_size: u64 = 12 + 16;
    let file_off = root_size;
    let mut bytes = root_rec(3, &[1_000_000, file_off]);
    bytes.extend_from_slice(&file_rec(&name_file, 11, b"ok"));
    let g = GGPK::from_bytes(&bytes).unwrap();
    assert_eq!(g.list_files(), vec!["/readme.txt".to_string()]);
    let f = g.get_file("/readme.txt").unwrap();
    assert_eq!(f.bytes().unwrap(), b"ok".to_vec());
}

#[test]
fn free_records_and_unknown_tags_contribute_nothing() {
    let name_file = utf16z("a.txt");
    let root_size: u64 = 12 + 24;
    let free_off = root_size;
    let free_size: u64 = 8 + 4;
    let junk_off = free_off + free_size;
    let junk_size: u64 = 8;
    let file_off = junk_off + junk_size;
    let mut bytes = root_rec(3, &[free_off, junk_off, file_off]);
    bytes.extend_from_slice(&free_rec(4));
    bytes.extend_from_slice(&(junk_size as u32).to_le_bytes());
    bytes.extend_from_slice(b"WHAT");
    bytes.extend_from_slice(&file_rec(&name_file, 6, b"x"));
    let g = GGPK::from_bytes(&bytes).unwrap();
    assert_eq!(g.list_files(), vec!["/a.txt".to_string()]);
}

#[test]
fn forged_descriptor_is_out_of_bounds() {
    let g = GGPK::from_bytes(&example_archive(3, false)).unwrap();
    let forged = GGPKFile {
        ggpk: &g,
        record: FileRecord {
            name: "ghost".to_string(),
            path: "Data".to_string(),
            signature: [0u8; 32],
            begin: 50,
            bytes: 1_000_000,
        },
    };
    match forged.bytes() {
        Err(GGPKError::OutOfBounds) => {},
        other => panic!("expected out of bounds, got {:?}", other.map(|v| v.len())),
    }
}

#[test]
fn sibling_directory_with_prefix_name_does_not_confuse_lookup() {
    // Directories `Da` and `Data` hold files of the same name; exact-path
    // lookup keeps them apart.
    let name_da = utf16z("Da");
    let name_data = utf16z("Data");
    let name_file = utf16z("quest.txt");
    let root_size: u64 = 12 + 16;
    let da_size: u64 = 48 + name_da.len() as u64 + 12;
    let data_size: u64 = 48 + name_data.len() as u64 + 12;
    let file_size: u64 = 44 + name_file.len() as u64 + 3;
    let da_off = root_size;
    let data_off = da_off + da_size;
    let file1_off = data_off + data_size;
    let file2_off = file1_off + file_size;
    let mut bytes = root_rec(3, &[da_off, data_off]);
    bytes.extend_from_slice(&pdir_rec(&name_da, 3, &[file1_off]));
    bytes.extend_from_slice(&pdir_rec(&name_data, 5, &[file2_off]));
    bytes.extend_from_slice(&file_rec(&name_file, 10, b"one"));
    bytes.extend_from_slice(&file_rec(&name_file, 10, b"two"));
    let g = GGPK::from_bytes(&bytes).unwrap();
    assert_eq!(
        sorted(g.list_files()),
        vec!["Da/quest.txt".to_string(), "Data/quest.txt".to_string()]
    );
    assert_eq!(g.get_file("Da/quest.txt").unwrap().bytes().unwrap(), b"one".to_vec());
    assert_eq!(g.get_file("Data/quest.txt").unwrap().bytes().unwrap(), b"two".to_vec());
}

#[test]
fn filtered_lookup_agrees_with_listing_filtered_in_memory() {
    // Pruning changes the work, never the outcome: resolving each listed
    // path finds exactly the file whose absolute path it is.
    let g = GGPK::from_bytes(&example_archive(3, false)).unwrap();
    let all = g.list_files();
    for p in &all {
        let f = g.get_file(p).unwrap();
        assert_eq!(&f.record.absolute_path(), p);
        assert_eq!(all.iter().filter(|q| *q == p).count(), 1);
    }
}

#[test]
fn listing_is_deterministic_as_a_set() {
    let g = GGPK::from_bytes(&example_archive(4, true)).unwrap();
    let first = sorted(g.list_files());
    let second = sorted(g.list_files());
    assert_eq!(first, second);
}

#[test]
fn non_ascii_utf16_names_decode() {
    let name_dir = utf16z("Dätá");
    let name_file = utf16z("grüß.txt");
    let root_size: u64 = 12 + 8;
    let dir_size: u64 = 48 + name_dir.len() as u64 + 12;
    let dir_off = root_size;
    let file_off = dir_off + dir_size;
    let mut bytes = root_rec(3, &[dir_off]);
    bytes.extend_from_slice(&pdir_rec(&name_dir, 5, &[file_off]));
    bytes.extend_from_slice(&file_rec(&name_file, 9, b"!"));
    let g = GGPK::from_bytes(&bytes).unwrap();
    assert_eq!(g.list_files(), vec!["Dätá/grüß.txt".to_string()]);
    let f = g.get_file("Dätá/grüß.txt").unwrap();
    assert_eq!(f.bytes().unwrap(), b"!".to_vec());
}

#[test]
fn supplementary_plane_utf32_name_decodes() {
    let name_file = utf32z("m🎵.txt");
    let root_size: u64 = 12 + 8;
    let file_off = root_size;
    let mut bytes = root_rec(4, &[file_off]);
    bytes.extend_from_slice(&file_rec(&name_file, 7, b"la"));
    let g = GGPK::from_bytes(&bytes).unwrap();
    assert_eq!(g.list_files(), vec!["/m🎵.txt".to_string()]);
}

#[test]
fn invalid_utf32_unit_becomes_replacement_character() {
    // A surrogate code unit is not a Unicode scalar value: the lenient
    // UTF-32 decoding turns it into U+FFFD instead of failing.
    let mut name_enc = Vec::new();
    name_enc.extend_from_slice(&('a' as u32).to_le_bytes());
    name_enc.extend_from_slice(&0xD800u32.to_le_bytes());
    name_enc.extend_from_slice(&('b' as u32).to_le_bytes());
    name_enc.extend_from_slice(&0u32.to_le_bytes());
    let root_size: u64 = 12 + 8;
    let mut bytes = root_rec(4, &[root_size]);
    bytes.extend_from_slice(&file_rec(&name_enc, 4, b"z"));
    let g = GGPK::from_bytes(&bytes).unwrap();
    assert_eq!(g.list_files(), vec!["/a\u{FFFD}b".to_string()]);
}

#[test]
fn invalid_utf16_name_skips_only_that_record() {
    // An unpaired surrogate makes one file's name undecodable; that record
    // contributes nothing and its sibling is still found.
    let mut bad_name = Vec::new();
    bad_name.extend_from_slice(&0xD800u16.to_le_bytes());
    bad_name.extend_from_slice(&0u16.to_le_bytes());
    let good_name = utf16z("fine.txt");
    let root_size: u64 = 12 + 16;
    let bad_off = root_size;
    let bad_size: u64 = 44 + bad_name.len() as u64 + 1;
    let good_off = bad_off + bad_size;
    let mut bytes = root_rec(3, &[bad_off, good_off]);
    bytes.extend_from_slice(&file_rec(&bad_name, 2, b"?"));
    bytes.extend_from_slice(&file_rec(&good_name, 9, b"ok"));
    let g = GGPK::from_bytes(&bytes).unwrap();
    assert_eq!(g.list_files(), vec!["/fine.txt".to_string()]);
}

#[test]
fn declared_name_length_mismatch_is_tolerated() {
    // The declared name length field is wrong; the actual decoded name
    // still governs the content range.
    let name_file = utf16z("a.txt");
    let root_size: u64 = 12 + 8;
    let mut bytes = root_rec(3, &[root_size]);
    bytes.extend_from_slice(&file_rec(&name_file, 999, b"body"));
    let g = GGPK::from_bytes(&bytes).unwrap();
    let f = g.get_file("/a.txt").unwrap();
    assert_eq!(f.bytes().unwrap(), b"body".to_vec());
}

#[test]
fn record_size_smaller_than_header_is_skipped() {
    // A file record whose total size cannot even cover its name is
    // malformed and contributes nothing.
    let name_file = utf16z("a.txt");
    let root_size: u64 = 12 + 8;
    let mut rec = Vec::new();
    rec.extend_from_slice(&20u32.to_le_bytes());
    rec.extend_from_slice(b"FILE");
    rec.extend_from_slice(&6u32.to_le_bytes());
    rec.extend_from_slice(&[0u8; 32]);
    rec.extend_from_slice(&name_file);
    let mut bytes = root_rec(3, &[root_size]);
    bytes.extend_from_slice(&rec);
    let g = GGPK::from_bytes(&bytes).unwrap();
    assert_eq!(g.list_files(), Vec::<String>::new());
}

#[test]
fn empty_buffer_cannot_be_mapped() {
    // A zero-length memory map is refused by the platform; opening from an
    // empty buffer reports an open failure rather than panicking.
    match GGPK::from_bytes(&[]) {
        Err(GGPKError::OpenFailure) => {},
        other => panic!("expected open failure, got {:?}", other.map(|g| g.list_files())),
    }
}

#[test]
fn tiny_archive_opens_and_lists_nothing() {
    let g = GGPK::from_bytes(&[1, 2, 3, 4]).unwrap();
    assert_eq!(g.list_files(), Vec::<String>::new());
}

#[test]
fn root_without_children_lists_nothing() {
    let g = GGPK::from_bytes(&root_rec(3, &[])).unwrap();
    assert_eq!(g.list_files(), Vec::<String>::new());
}

#[test]
fn directory_without_entries_lists_nothing() {
    let name_dir = utf16z("Empty");
    let root_size: u64 = 12 + 8;
    let mut bytes = root_rec(3, &[root_size]);
    bytes.extend_from_slice(&pdir_rec(&name_dir, 6, &[]));
    let g = GGPK::from_bytes(&bytes).unwrap();
    assert_eq!(g.list_files(), Vec::<String>::new());
}

#[test]
fn duplicate_paths_both_surface_in_listing() {
    let name_file = utf16z("twin.txt");
    let root_size: u64 = 12 + 16;
    let file_size: u64 = 44 + name_file.len() as u64 + 1;
    let first_off = root_size;
    let second_off = first_off + file_size;
    let mut bytes = root_rec(3, &[first_off, second_off]);
    bytes.extend_from_slice(&file_rec(&name_file, 9, b"a"));
    bytes.extend_from_slice(&file_rec(&name_file, 9, b"b"));
    let g = GGPK::from_bytes(&bytes).unwrap();
    assert_eq!(
        sorted(g.list_files()),
        vec!["/twin.txt".to_string(), "/twin.txt".to_string()]
    );
}

#[test]
fn nested_directories_build_full_paths() {
    let name_outer = utf16z("Art");
    let name_inner = utf16z("Maps");
    let name_file = utf16z("m.bin");
    let root_size: u64 = 12 + 8;
    let outer_size: u64 = 48 + name_outer.len() as u64 + 12;
    let inner_size: u64 = 48 + name_inner.len() as u64 + 12;
    let outer_off = root_size;
    let inner_off = outer_off + outer_size;
    let file_off = inner_off + inner_size;
    let mut bytes = root_rec(3, &[outer_off]);
    bytes.extend_from_slice(&pdir_rec(&name_outer, 4, &[inner_off]));
    bytes.extend_from_slice(&pdir_rec(&name_inner, 5, &[file_off]));
    bytes.extend_from_slice(&file_rec(&name_file, 6, b"\x00\x01\x02"));
    let g = GGPK::from_bytes(&bytes).unwrap();
    assert_eq!(g.list_files(), vec!["Art/Maps/m.bin".to_string()]);
    let f = g.get_file("Art/Maps/m.bin").unwrap();
    assert_eq!(f.record.path, "Art/Maps");
    assert_eq!(f.bytes().unwrap(), vec![0u8, 1, 2]);
}

#[test]
fn signature_bytes_are_copied_from_the_record() {
    let name_file = utf16z("s.txt");
    let root_size: u64 = 12 + 8;
    let mut rec = file_rec(&name_file, 6, b"sig");
    for (k, b) in rec[12..44].iter_mut().enumerate() {
        *b = k as u8;
    }
    let mut bytes = root_rec(3, &[root_size]);
    bytes.extend_from_slice(&rec);
    let g = GGPK::from_bytes(&bytes).unwrap();
    let f = g.get_file("/s.txt").unwrap();
    let expected: Vec<u8> = (0u8..32).collect();
    assert_eq!(f.record.signature.to_vec(), expected);
}
