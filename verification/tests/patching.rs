use std::io::{Read, Write};

use ship::archive::{ar_identifier_to_name, find_payload, read_members, write_members, ArchiveMember};
use ship::error::{IoCause, PatchError, PatchStage};
use ship::links::SymlinkEntry;
use ship::patch::{patch, rewrite_data_archive, rewrite_deb_with_symlinks};
use ship::payload::{read_entries, repack, CompressionCodec, EntryType, PayloadEntry};

fn file_entry(path: &str, mode: u32, contents: &[u8]) -> PayloadEntry {
    PayloadEntry {
        path: path.to_string(),
        entry_type: EntryType::File,
        mode,
        link_target: None,
        contents: contents.to_vec(),
    }
}

fn dir_entry(path: &str) -> PayloadEntry {
    PayloadEntry {
        path: path.to_string(),
        entry_type: EntryType::Directory,
        mode: 0o755,
        link_target: None,
        contents: Vec::new(),
    }
}

fn sample_entries() -> Vec<PayloadEntry> {
    vec![
        dir_entry("opt/"),
        dir_entry("opt/app/"),
        file_entry("opt/app/app", 0o755, b"#!/bin/sh\necho app\n"),
        file_entry("opt/app/readme.txt", 0o644, b"read me"),
        PayloadEntry {
            path: "opt/app/latest".to_string(),
            entry_type: EntryType::Symlink,
            mode: 0o777,
            link_target: Some("app".to_string()),
            contents: Vec::new(),
        },
    ]
}

fn tape_of(entries: &[PayloadEntry]) -> Vec<u8> {
    let mut builder = tar::Builder::new(Vec::new());
    for entry in entries {
        let mut header = tar::Header::new_gnu();
        header.set_path(&entry.path).unwrap();
        header.set_mode(entry.mode);
        header.set_entry_type(tar::EntryType::new(entry.entry_type.as_byte()));
        if let Some(target) = &entry.link_target {
            header.set_link_name(target).unwrap();
        }
        header.set_size(entry.contents.len() as u64);
        header.set_cksum();
        builder.append(&header, entry.contents.as_slice()).unwrap();
    }
    builder.into_inner().unwrap()
}

fn tape_of_raw(entries: &[PayloadEntry]) -> Vec<u8> {
    let mut builder = tar::Builder::new(Vec::new());
    for entry in entries {
        let mut header = tar::Header::new_gnu();
        header.as_old_mut().name[..entry.path.len()].copy_from_slice(entry.path.as_bytes());
        header.set_mode(entry.mode);
        header.set_entry_type(tar::EntryType::new(entry.entry_type.as_byte()));
        header.set_size(entry.contents.len() as u64);
        header.set_cksum();
        builder.append(&header, entry.contents.as_slice()).unwrap();
    }
    builder.into_inner().unwrap()
}

fn xz_of(plain: &[u8]) -> Vec<u8> {
    let mut encoder = xz2::write::XzEncoder::new(Vec::new(), 6);
    encoder.write_all(plain).unwrap();
    encoder.finish().unwrap()
}

fn unxz(packed: &[u8]) -> Vec<u8> {
    let mut plain = Vec::new();
    xz2::read::XzDecoder::new(packed).read_to_end(&mut plain).unwrap();
    plain
}

fn zstd_of(plain: &[u8]) -> Vec<u8> {
    zstd::stream::encode_all(plain, 3).unwrap()
}

fn unzstd(packed: &[u8]) -> Vec<u8> {
    zstd::stream::decode_all(packed).unwrap()
}

fn member(identifier: &[u8], mode: u32, contents: &[u8]) -> ArchiveMember {
    ArchiveMember { identifier: identifier.to_vec(), mode, contents: contents.to_vec() }
}

fn package_of(members: &[ArchiveMember]) -> Vec<u8> {
    let mut builder = ar::Builder::new(Vec::new());
    for member in members {
        let mut header = ar::Header::new(member.identifier.clone(), member.contents.len() as u64);
        header.set_mode(member.mode);
        builder.append(&header, member.contents.as_slice()).unwrap();
    }
    builder.into_inner().unwrap()
}

fn sample_package(payload_name: &[u8], payload: &[u8]) -> Vec<u8> {
    package_of(&[
        member(b"debian-binary", 0o100644, b"2.0\n"),
        member(b"control.tar.xz", 0o100644, &xz_of(&tape_of(&[file_entry("control", 0o644, b"Package: app\n")]))),
        member(payload_name, 0o100644, payload),
    ])
}

fn link(link_path: &str, target_path: &str) -> SymlinkEntry {
    SymlinkEntry { link_path: link_path.to_string(), target_path: target_path.to_string() }
}

fn app_symlink() -> PayloadEntry {
    PayloadEntry {
        path: "usr/bin/app".to_string(),
        entry_type: EntryType::Symlink,
        mode: 0o777,
        link_target: Some("/opt/app/app".to_string()),
        contents: Vec::new(),
    }
}

#[test]
fn patch_without_symlinks_returns_the_bytes() {
    let bytes = b"not even a package".to_vec();
    assert_eq!(patch(&bytes, &Vec::new()), Ok(bytes.clone()));
}

#[test]
fn patch_adds_one_symlink_to_an_xz_payload() {
    let entries = sample_entries();
    let package = sample_package(b"data.tar.xz", &xz_of(&tape_of(&entries)));
    let patched = patch(&package, &vec![link("/usr/bin/app", "/opt/app/app")]).unwrap();
    let members = read_members(&patched).unwrap();
    assert_eq!(members.len(), 3);
    assert_eq!(members[2].identifier, b"data.tar.xz".to_vec());
    let after = read_entries(&unxz(&members[2].contents)).unwrap();
    let mut expected = entries.clone();
    expected.push(app_symlink());
    assert_eq!(after, expected);
    assert_eq!(after[5].contents.len(), 0);
}

#[test]
fn patch_adds_one_symlink_to_a_zstd_payload() {
    let entries = sample_entries();
    let package = sample_package(b"data.tar.zst", &zstd_of(&tape_of(&entries)));
    let patched = patch(&package, &vec![link("/usr/bin/app", "/opt/app/app")]).unwrap();
    let members = read_members(&patched).unwrap();
    assert_eq!(members[2].identifier, b"data.tar.zst".to_vec());
    let after = read_entries(&unzstd(&members[2].contents)).unwrap();
    let mut expected = entries.clone();
    expected.push(app_symlink());
    assert_eq!(after, expected);
}

#[test]
fn patch_keeps_the_other_members() {
    let package = sample_package(b"data.tar.xz", &xz_of(&tape_of(&sample_entries())));
    let before = read_members(&package).unwrap();
    let patched = rewrite_deb_with_symlinks(&package, &vec![link("/usr/bin/app", "/opt/app/app")])
        .unwrap();
    let after = read_members(&patched).unwrap();
    assert_eq!(after.len(), before.len());
    assert_eq!(after[0], before[0]);
    assert_eq!(after[1], before[1]);
    assert_eq!(after[2].identifier, before[2].identifier);
    assert_eq!(after[2].mode, before[2].mode);
    assert_ne!(after[2].contents, before[2].contents);
}

#[test]
fn patch_fails_without_a_payload() {
    let package = package_of(&[
        member(b"debian-binary", 0o100644, b"2.0\n"),
        member(b"data.tar.gz", 0o100644, b"whatever"),
    ]);
    assert_eq!(
        patch(&package, &vec![link("/usr/bin/app", "/opt/app/app")]),
        Err(PatchError::MissingPayload)
    );
}

#[test]
fn patch_fails_on_bytes_that_are_no_package() {
    let outcome = patch(b"certainly no package", &vec![link("/usr/bin/app", "/opt/app/app")]);
    assert!(matches!(outcome, Err(PatchError::Io(PatchStage::OuterDecode, _))));
}

#[test]
fn patch_fails_on_a_payload_that_is_not_compressed() {
    let package = sample_package(b"data.tar.xz", &tape_of(&sample_entries()));
    let outcome = patch(&package, &vec![link("/usr/bin/app", "/opt/app/app")]);
    assert!(matches!(outcome, Err(PatchError::Io(PatchStage::Decompress, _))));
}

#[test]
fn patch_fails_on_a_payload_that_is_no_tape() {
    let package = sample_package(b"data.tar.zst", &zstd_of(&[7u8; 700]));
    let outcome = patch(&package, &vec![link("/usr/bin/app", "/opt/app/app")]);
    assert!(matches!(outcome, Err(PatchError::Io(PatchStage::Payload, _))));
}

#[test]
fn patch_rejects_a_path_that_the_payload_holds() {
    let mut entries = sample_entries();
    entries.push(file_entry("usr/bin/app", 0o755, b"old"));
    let package = sample_package(b"data.tar.xz", &xz_of(&tape_of(&entries)));
    assert_eq!(
        patch(&package, &vec![link("/usr/bin/app", "/opt/app/app")]),
        Err(PatchError::PathConflict("usr/bin/app".to_string()))
    );
}

#[test]
fn rewrite_rejects_a_name_without_a_known_suffix() {
    let data = xz_of(&tape_of(&sample_entries()));
    assert_eq!(
        rewrite_data_archive(&data, b"data.tar.gz", &vec![link("/usr/bin/app", "/opt/app/app")]),
        Err(PatchError::UnsupportedFormat(b"data.tar.gz".to_vec()))
    );
}

#[test]
fn rewrite_without_links_keeps_every_entry() {
    let entries = sample_entries();
    let packed = rewrite_data_archive(&xz_of(&tape_of(&entries)), b"data.tar.xz", &Vec::new())
        .unwrap();
    assert_eq!(read_entries(&unxz(&packed)).unwrap(), entries);
    let packed = rewrite_data_archive(&zstd_of(&tape_of(&entries)), b"data.tar.zst", &Vec::new())
        .unwrap();
    assert_eq!(read_entries(&unzstd(&packed)).unwrap(), entries);
}

#[test]
fn rewrite_keeps_the_codec() {
    let entries = sample_entries();
    let links = vec![link("/usr/bin/app", "/opt/app/app")];
    let packed = rewrite_data_archive(&xz_of(&tape_of(&entries)), b"data.tar.xz", &links).unwrap();
    assert_eq!(&packed[..6], &[0xfd, b'7', b'z', b'X', b'Z', 0x00]);
    let packed = rewrite_data_archive(&zstd_of(&tape_of(&entries)), b"data.tar.zst", &links)
        .unwrap();
    assert_eq!(&packed[..4], &[0x28, 0xb5, 0x2f, 0xfd]);
}

#[test]
fn repack_writes_entries_then_links_in_order() {
    let entries = sample_entries();
    let links = vec![link("/usr/bin/app", "/opt/app/app"), link("/usr/bin/tool", "/opt/app/tool")];
    let tape = repack(&entries, &links).unwrap();
    assert_eq!(tape.len() % 512, 0);
    let after = read_entries(&tape).unwrap();
    assert_eq!(after.len(), 7);
    assert_eq!(&after[..5], entries.as_slice());
    assert_eq!(after[5], app_symlink());
    assert_eq!(after[6].path, "usr/bin/tool");
    assert_eq!(after[6].link_target, Some("/opt/app/tool".to_string()));
    assert_eq!(after[6].mode, 0o777);
    assert_eq!(after[6].entry_type, EntryType::Symlink);
}

#[test]
fn repack_reports_the_first_link_that_collides() {
    let entries = sample_entries();
    let links = vec![
        link("/usr/bin/app", "/opt/app/app"),
        link("/opt/app/readme.txt", "/opt/app/app"),
        link("/opt/app/app", "/opt/app/app"),
    ];
    assert_eq!(
        repack(&entries, &links),
        Err(PatchError::PathConflict("opt/app/readme.txt".to_string()))
    );
}

#[test]
fn repack_fails_on_a_link_that_no_header_takes() {
    let long = format!("/usr/bin/{}", "x".repeat(120));
    let outcome = repack(&sample_entries(), &vec![link(&long, "/opt/app/app")]);
    assert!(matches!(outcome, Err(PatchError::Io(PatchStage::Payload, _))));
}

#[test]
fn read_entries_keeps_targets_of_links_only() {
    let mut header = tar::Header::new_gnu();
    header.set_path("plain").unwrap();
    header.set_mode(0o644);
    header.set_entry_type(tar::EntryType::Regular);
    header.set_link_name("elsewhere").unwrap();
    header.set_size(0);
    header.set_cksum();
    let mut builder = tar::Builder::new(Vec::new());
    builder.append(&header, std::io::empty()).unwrap();
    let entries = read_entries(&builder.into_inner().unwrap()).unwrap();
    assert_eq!(entries, vec![file_entry("plain", 0o644, b"")]);
}

#[test]
fn read_entries_rejects_a_path_that_is_no_text() {
    let mut header = tar::Header::new_gnu();
    header.as_old_mut().name[..3].copy_from_slice(&[b'a', 0xff, b'b']);
    header.set_mode(0o644);
    header.set_entry_type(tar::EntryType::Regular);
    header.set_size(0);
    header.set_cksum();
    let mut builder = tar::Builder::new(Vec::new());
    builder.append(&header, std::io::empty()).unwrap();
    let outcome = read_entries(&builder.into_inner().unwrap());
    assert_eq!(outcome, Err(PatchError::Io(PatchStage::Payload, IoCause::NameNotText)));
}

#[test]
fn entry_type_bytes() {
    assert_eq!(EntryType::from_byte(0), EntryType::File);
    assert_eq!(EntryType::from_byte(b'0'), EntryType::File);
    assert_eq!(EntryType::from_byte(b'1'), EntryType::HardLink);
    assert_eq!(EntryType::from_byte(b'2'), EntryType::Symlink);
    assert_eq!(EntryType::from_byte(b'5'), EntryType::Directory);
    assert_eq!(EntryType::from_byte(b'6'), EntryType::Other(b'6'));
    assert_eq!(EntryType::File.as_byte(), b'0');
    assert_eq!(EntryType::Other(b'3').as_byte(), b'3');
    for byte in 1..=255u8 {
        assert_eq!(EntryType::from_byte(byte).as_byte(), byte);
        assert_eq!(tar::EntryType::new(byte).as_byte(), byte);
    }
}

#[test]
fn codec_of_a_name() {
    assert_eq!(CompressionCodec::from_name(b"data.tar.zst"), Some(CompressionCodec::Zstd));
    assert_eq!(CompressionCodec::from_name(b"data.tar.xz"), Some(CompressionCodec::Xz));
    assert_eq!(CompressionCodec::from_name(b".xz"), Some(CompressionCodec::Xz));
    assert_eq!(CompressionCodec::from_name(b"xz"), None);
    assert_eq!(CompressionCodec::from_name(b"data.tar.gz"), None);
    assert_eq!(CompressionCodec::from_name(b""), None);
}

#[test]
fn codecs_undo_each_other() {
    let plain = tape_of(&sample_entries());
    for codec in [CompressionCodec::Xz, CompressionCodec::Zstd] {
        let packed = codec.compress(&plain).unwrap();
        assert_ne!(packed, plain);
        assert_eq!(codec.decompress(&packed).unwrap(), plain);
    }
    assert_eq!(CompressionCodec::Xz.decompress(&xz_of(b"abc")).unwrap(), b"abc".to_vec());
    assert_eq!(CompressionCodec::Zstd.decompress(&zstd_of(b"abc")).unwrap(), b"abc".to_vec());
}

#[test]
fn identifier_to_name() {
    assert_eq!(ar_identifier_to_name(b"data.tar.xz"), b"data.tar.xz".to_vec());
    assert_eq!(ar_identifier_to_name(b"data.tar.xz     "), b"data.tar.xz".to_vec());
    assert_eq!(ar_identifier_to_name(b"data.tar.xz/"), b"data.tar.xz".to_vec());
    assert_eq!(ar_identifier_to_name(b"data.tar.xz/  "), b"data.tar.xz".to_vec());
    assert_eq!(ar_identifier_to_name(b"data.tar.xz//"), b"data.tar.xz/".to_vec());
    assert_eq!(ar_identifier_to_name(b"data.tar.xz /"), b"data.tar.xz ".to_vec());
    assert_eq!(ar_identifier_to_name(b"   "), Vec::<u8>::new());
    assert_eq!(ar_identifier_to_name(b"/"), Vec::<u8>::new());
    assert_eq!(ar_identifier_to_name(b""), Vec::<u8>::new());
}

#[test]
fn find_payload_takes_the_first() {
    let members = vec![
        member(b"debian-binary", 0o644, b"2.0\n"),
        member(b"data.tar.zst/", 0o644, b"one"),
        member(b"data.tar.xz", 0o644, b"two"),
    ];
    assert_eq!(find_payload(&members), Some(1));
    assert_eq!(find_payload(&members[..1].to_vec()), None);
    assert_eq!(find_payload(&Vec::new()), None);
}

#[test]
fn members_survive_writing_and_reading() {
    let members = vec![
        member(b"debian-binary", 0o100644, b"2.0\n"),
        member(b"odd", 0o600, b"abc"),
        member(b"empty", 0, b""),
    ];
    let package = write_members(&members).unwrap();
    assert_eq!(&package[..8], b"!<arch>\n");
    assert_eq!(package, package_of(&members));
    assert_eq!(read_members(&package).unwrap(), members);
    assert_eq!(write_members(&Vec::new()).unwrap(), Vec::<u8>::new());
}

#[test]
fn read_members_refuses_names_that_are_held_elsewhere() {
    let mut crafted = b"!<arch>\n".to_vec();
    crafted.extend_from_slice(b"/5              0           0     0     644     0         `\n");
    assert_eq!(
        read_members(&crafted),
        Err(PatchError::Io(PatchStage::OuterDecode, IoCause::NamelessMember))
    );

    let mut long_name = b"!<arch>\n".to_vec();
    long_name.extend_from_slice(b"#1/20           0           0     0     644     23        `\n");
    long_name.extend_from_slice(b"a-name-of-twenty-byt");
    long_name.extend_from_slice(b"abc\n");
    assert_eq!(
        read_members(&long_name),
        Err(PatchError::Io(PatchStage::OuterDecode, IoCause::NamelessMember))
    );

    let mut second = package_of(&[member(b"odd", 0o644, b"abc")]);
    second.extend_from_slice(b"/5              0           0     0     644     0         `\n");
    assert_eq!(
        read_members(&second),
        Err(PatchError::Io(PatchStage::OuterDecode, IoCause::NamelessMember))
    );
}

#[test]
fn read_members_takes_names_with_a_slash_at_the_end() {
    let mut package = b"!<arch>\n".to_vec();
    package.extend_from_slice(b"data.tar.xz/    0           0     0     644     3         `\n");
    package.extend_from_slice(b"abc\n");
    package.extend_from_slice(b"tail/           0           0     0     600     0         `\n");
    let members = read_members(&package).unwrap();
    assert_eq!(members, vec![member(b"data.tar.xz", 0o644, b"abc"), member(b"tail", 0o600, b"")]);
}

#[test]
fn read_members_of_a_cut_package() {
    let package = package_of(&[member(b"one", 0o644, b"abcdef"), member(b"two", 0o644, b"xyz")]);
    assert!(matches!(
        read_members(&package[..package.len() - 30]),
        Err(PatchError::Io(PatchStage::OuterDecode, IoCause::Reported(_)))
    ));
    let whole = package_of(&[member(b"one", 0o644, b"abcdef")]);
    for cut in 1..=6 {
        assert_eq!(
            read_members(&whole[..whole.len() - cut]),
            Err(PatchError::Io(PatchStage::OuterDecode, IoCause::MemberCutShort))
        );
    }
    let odd = package_of(&[member(b"one", 0o644, b"abc")]);
    assert_eq!(read_members(&odd[..odd.len() - 1]).unwrap(), vec![member(b"one", 0o644, b"abc")]);
    assert_eq!(read_members(b"!<arch>\n").unwrap(), Vec::new());
    assert!(matches!(
        read_members(b""),
        Err(PatchError::Io(PatchStage::OuterDecode, IoCause::Reported(_)))
    ));
}

#[test]
fn failures_in_words() {
    assert_eq!(PatchError::MissingPayload.message(), "deb package missing data archive");
    assert_eq!(
        PatchError::UnsupportedFormat(b"data.tar.gz".to_vec()).message(),
        "unsupported data archive format: data.tar.gz"
    );
    assert_eq!(
        PatchError::UnsupportedFormat(vec![b'a', 0xff]).message(),
        "unsupported data archive format: a\u{fffd}"
    );
    assert_eq!(
        PatchError::PathConflict("usr/bin/app".to_string()).message(),
        "data archive already contains path: usr/bin/app"
    );
    assert_eq!(
        PatchError::Io(PatchStage::Compress, IoCause::Reported("disk on fire".to_string()))
            .message(),
        "disk on fire"
    );
    assert_eq!(
        PatchError::Io(PatchStage::OuterDecode, IoCause::NamelessMember).message(),
        "a member of the package has no name in its header"
    );
    assert_eq!(
        PatchError::Io(PatchStage::OuterDecode, IoCause::MemberCutShort).message(),
        "a member of the package is cut short"
    );
    assert_eq!(
        PatchError::Io(PatchStage::Payload, IoCause::NameNotText).message(),
        "a name in the payload is not valid UTF-8"
    );
    let failed = patch(b"certainly no package", &vec![link("/usr/bin/app", "/opt/app/app")]);
    assert!(!failed.unwrap_err().message().is_empty());
}

#[test]
fn repack_keeps_kinds_modes_and_targets() {
    let entries = vec![
        dir_entry("opt/"),
        file_entry("opt/tool", 0o4755, b"tool"),
        PayloadEntry {
            path: "opt/same-tool".to_string(),
            entry_type: EntryType::HardLink,
            mode: 0o644,
            link_target: Some("opt/tool".to_string()),
            contents: Vec::new(),
        },
        PayloadEntry {
            path: "opt/pipe".to_string(),
            entry_type: EntryType::Other(b'6'),
            mode: 0o600,
            link_target: None,
            contents: Vec::new(),
        },
    ];
    let tape = repack(&entries, &Vec::new()).unwrap();
    assert_eq!(tape, tape_of(&entries));
    assert_eq!(read_entries(&tape).unwrap(), entries);
}

#[test]
fn repack_fails_on_an_entry_that_no_header_takes() {
    let long = file_entry(&format!("opt/{}", "y".repeat(150)), 0o644, b"long");
    let mut builder = tar::Builder::new(Vec::new());
    let mut header = tar::Header::new_gnu();
    header.set_mode(0o644);
    header.set_size(4);
    builder.append_data(&mut header, &long.path, &b"long"[..]).unwrap();
    let tape = builder.into_inner().unwrap();
    let entries = read_entries(&tape).unwrap();
    assert_eq!(entries.len(), 1);
    assert_eq!(entries[0].path, long.path);
    assert!(matches!(
        repack(&entries, &Vec::new()),
        Err(PatchError::Io(PatchStage::Payload, _))
    ));
    let absolute = vec![file_entry("/etc/passwd", 0o644, b"")];
    assert!(matches!(
        repack(&absolute, &Vec::new()),
        Err(PatchError::Io(PatchStage::Payload, _))
    ));
}

#[test]
fn a_link_without_a_slash_at_its_start_lands_where_it_says() {
    let tape = repack(&Vec::new(), &vec![link("usr/bin/app", "/opt/app/app")]).unwrap();
    assert_eq!(read_entries(&tape).unwrap(), vec![app_symlink()]);
    let tape = repack(&Vec::new(), &vec![link("//usr/bin/app", "/opt/app/app")]);
    assert!(matches!(tape, Err(PatchError::Io(PatchStage::Payload, _))));
}

#[test]
fn read_entries_of_a_cut_tape() {
    let entries = vec![file_entry("a", 0o644, &[7u8; 700])];
    let tape = tape_of(&entries);
    assert_eq!(tape.len(), 512 + 1024 + 1024);
    assert_eq!(read_entries(&tape).unwrap(), entries);
    assert_eq!(read_entries(&tape[..512 + 1024]).unwrap(), entries);
    for kept in [512 + 1023, 512 + 700, 512 + 699, 512 + 1, 512, 511, 1] {
        assert!(matches!(
            read_entries(&tape[..kept]),
            Err(PatchError::Io(PatchStage::Payload, IoCause::Reported(_)))
        ));
    }
    assert_eq!(read_entries(&[]).unwrap(), Vec::new());
}

#[test]
fn rewrite_without_links_returns_the_bytes() {
    let bytes = b"not even a package".to_vec();
    assert_eq!(rewrite_deb_with_symlinks(&bytes, &Vec::new()), Ok(bytes.clone()));
    let mut crafted = b"!<arch>\n".to_vec();
    crafted.extend_from_slice(b"/5              0           0     0     644     0         `\n");
    assert_eq!(rewrite_deb_with_symlinks(&crafted, &Vec::new()), Ok(crafted.clone()));
    let package = sample_package(b"data.tar.xz", &xz_of(&tape_of(&sample_entries())));
    assert_eq!(rewrite_deb_with_symlinks(&package, &Vec::new()), Ok(package.clone()));
    assert_eq!(patch(&package, &Vec::new()), Ok(package.clone()));
}

#[test]
fn a_path_is_taken_as_the_payload_holds_it() {
    let under_a_dot = vec![dir_entry("./"), dir_entry("./usr/"), file_entry("./usr/bin/app", 0o755, b"old")];
    let links = vec![link("/usr/bin/app", "/opt/app/app")];
    assert_eq!(
        repack(&under_a_dot, &links),
        Err(PatchError::PathConflict("usr/bin/app".to_string()))
    );
    let package = sample_package(b"data.tar.xz", &xz_of(&tape_of_raw(&under_a_dot)));
    assert_eq!(patch(&package, &links), Err(PatchError::PathConflict("usr/bin/app".to_string())));

    let plain = vec![file_entry("usr/bin/app", 0o755, b"old")];
    for asked in ["/usr/bin/./app", "/./usr/bin/app", "usr//bin/app", "/usr/bin/app"] {
        assert_eq!(
            repack(&plain, &vec![link(asked, "/opt/app/app")]),
            Err(PatchError::PathConflict("usr/bin/app".to_string()))
        );
    }
    let other = repack(&under_a_dot, &vec![link("/usr/bin/tool", "/opt/app/tool")]).unwrap();
    let after = read_entries(&other).unwrap();
    assert_eq!(after.len(), 4);
    assert_eq!(after[2].path, "usr/bin/app");
    assert_eq!(after[3].path, "usr/bin/tool");
}
