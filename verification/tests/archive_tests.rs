use filter_sync::archive::{
    entry_base_name, entry_destination, entry_extension, extract_assets, file_name_extension,
    Installer,
};
use filter_sync::error::SyncError;
use std::io::{Cursor, Write};
use std::path::Path;
use zip::write::SimpleFileOptions;
use zip::{CompressionMethod, ZipWriter};

fn archive(entries: &[(&str, &[u8])], method: CompressionMethod) -> Vec<u8> {
    let mut writer = ZipWriter::new(Cursor::new(Vec::new()));
    let options = SimpleFileOptions::default().compression_method(method);
    for (name, data) in entries {
        if name.ends_with('/') {
            writer.add_directory(*name, options).unwrap();
        } else {
            writer.start_file(*name, options).unwrap();
            writer.write_all(data).unwrap();
        }
    }
    writer.finish().unwrap().into_inner()
}

fn names_of(assets: &[filter_sync::archive::Asset]) -> Vec<&str> {
    assets.iter().map(|a| a.name.as_str()).collect()
}

#[test]
fn base_name_is_the_last_component() {
    assert_eq!(entry_base_name("a.filter").as_deref(), Some("a.filter"));
    assert_eq!(entry_base_name("dir/a.filter").as_deref(), Some("a.filter"));
    assert_eq!(
        entry_base_name("repo-abc/deep/er/a.filter").as_deref(),
        Some("a.filter")
    );
    assert_eq!(entry_base_name("/rooted/file").as_deref(), Some("file"));
}

#[test]
fn base_name_passes_over_empty_and_dot_components() {
    assert_eq!(entry_base_name("dir/").as_deref(), Some("dir"));
    assert_eq!(entry_base_name("dir//").as_deref(), Some("dir"));
    assert_eq!(entry_base_name("dir/.").as_deref(), Some("dir"));
    assert_eq!(entry_base_name("dir/./").as_deref(), Some("dir"));
    assert_eq!(entry_base_name("a//b").as_deref(), Some("b"));
    assert_eq!(entry_base_name("./b").as_deref(), Some("b"));
}

#[test]
fn base_name_is_missing_for_names_that_name_nothing() {
    assert_eq!(entry_base_name(""), None);
    assert_eq!(entry_base_name("/"), None);
    assert_eq!(entry_base_name("//"), None);
    assert_eq!(entry_base_name("."), None);
    assert_eq!(entry_base_name("./"), None);
    assert_eq!(entry_base_name(".."), None);
    assert_eq!(entry_base_name("a/.."), None);
    assert_eq!(entry_base_name("a/../"), None);
    assert_eq!(entry_base_name("a.filter/.."), None);
}

#[test]
fn base_name_keeps_dots_that_are_part_of_a_name() {
    assert_eq!(entry_base_name("...").as_deref(), Some("..."));
    assert_eq!(entry_base_name("a/.hidden").as_deref(), Some(".hidden"));
    assert_eq!(entry_base_name("a/..b").as_deref(), Some("..b"));
    assert_eq!(entry_base_name("a/b.").as_deref(), Some("b."));
}

#[test]
fn base_name_agrees_with_the_standard_library() {
    let names = [
        "",
        "/",
        ".",
        "..",
        "a",
        "a/",
        "a//",
        "a/.",
        "a/./",
        "a/..",
        "a/b",
        "/a/b",
        "a//b",
        "./a",
        "a/./b",
        "a/b/../c",
        "...",
        ".hidden",
        "a.filter",
        "x/y/z.filter",
        "x.filter/",
        "x.filter/.",
        "x.filter/..",
        "name with space.filter",
        "dir.d/file",
        "ünï/cödé.filter",
        "back\\slash.filter",
        "a/b.tar.gz",
    ];
    for name in names {
        let expected = Path::new(name)
            .file_name()
            .map(|f| f.to_str().unwrap().to_string());
        assert_eq!(entry_base_name(name), expected, "base name of {name:?}");
    }
}

#[test]
fn extension_follows_the_last_dot() {
    assert_eq!(file_name_extension("a.filter").as_deref(), Some("filter"));
    assert_eq!(file_name_extension("a.b.filter").as_deref(), Some("filter"));
    assert_eq!(file_name_extension("a.tar.gz").as_deref(), Some("gz"));
    assert_eq!(file_name_extension("a.").as_deref(), Some(""));
    assert_eq!(file_name_extension("a..").as_deref(), Some(""));
    assert_eq!(file_name_extension("...").as_deref(), Some(""));
}

#[test]
fn extension_is_missing_without_a_dot_behind_a_name() {
    assert_eq!(file_name_extension(""), None);
    assert_eq!(file_name_extension("filter"), None);
    assert_eq!(file_name_extension(".filter"), None);
    assert_eq!(file_name_extension(".hidden"), None);
    assert_eq!(file_name_extension("."), None);
}

#[test]
fn extension_agrees_with_the_standard_library() {
    let names = [
        "",
        "/",
        ".",
        "..",
        "a",
        "a.filter",
        ".filter",
        "a/.filter",
        "a/b.filter",
        "a.filter/b",
        "a.filter/",
        "a.filter/.",
        "a.filter/..",
        "a/b.filter/",
        "x.y.z",
        "x.",
        "x..",
        "...",
        "..a",
        "..a.b",
        "dir.d/.x.filter",
        "a/b.FILTER",
        "a/b.filter ",
        "ünï.fïlter",
    ];
    for name in names {
        let expected = Path::new(name)
            .extension()
            .map(|e| e.to_str().unwrap().to_string());
        assert_eq!(entry_extension(name), expected, "extension of {name:?}");
    }
}

#[test]
fn destination_is_the_base_name_of_a_managed_asset() {
    assert_eq!(entry_destination("a.filter").as_deref(), Some("a.filter"));
    assert_eq!(
        entry_destination("repo-1.0/sub/dir/Strict.filter").as_deref(),
        Some("Strict.filter")
    );
    assert_eq!(
        entry_destination("a.b.filter").as_deref(),
        Some("a.b.filter")
    );
    assert_eq!(
        entry_destination("x.filter/").as_deref(),
        Some("x.filter")
    );
}

#[test]
fn destination_is_missing_for_other_entries() {
    assert_eq!(entry_destination("README.md"), None);
    assert_eq!(entry_destination("a.filter.bak"), None);
    assert_eq!(entry_destination("a.FILTER"), None);
    assert_eq!(entry_destination("a.Filter"), None);
    assert_eq!(entry_destination("a.filter "), None);
    assert_eq!(entry_destination("a.filters"), None);
    assert_eq!(entry_destination("filter"), None);
    assert_eq!(entry_destination(".filter"), None);
    assert_eq!(entry_destination("dir/.filter"), None);
    assert_eq!(entry_destination("a.filter/b.txt"), None);
    assert_eq!(entry_destination("a.filter/.."), None);
    assert_eq!(entry_destination("dir/"), None);
    assert_eq!(entry_destination(""), None);
}

#[test]
fn destination_never_leaves_the_target_directory() {
    let names = [
        "../../etc/x.filter",
        "/abs/x.filter",
        "a/../b/x.filter",
        "x.filter/",
        "a//x.filter",
        "./x.filter",
    ];
    for name in names {
        let file = entry_destination(name).unwrap();
        assert_eq!(file, "x.filter");
        assert!(!file.contains('/'));
    }
}

#[test]
fn extension_filter_keeps_two_of_five() {
    let bytes = archive(
        &[
            ("repo-abc/README.md", b"readme"),
            ("repo-abc/Regular.filter", b"regular"),
            ("repo-abc/sounds/ping.mp3", b"sound"),
            ("repo-abc/extra/deep/er/Strict.filter", b"strict"),
            ("repo-abc/LICENSE", b"license"),
        ],
        CompressionMethod::Deflated,
    );
    let assets = extract_assets(bytes).unwrap();
    assert_eq!(assets.len(), 2);
    assert_eq!(names_of(&assets), vec!["Regular.filter", "Strict.filter"]);
    assert_eq!(assets[0].data, b"regular");
    assert_eq!(assets[1].data, b"strict");
}

#[test]
fn extraction_decompresses_the_content() {
    let content: Vec<u8> = "Show # a rule\n".repeat(500).into_bytes();
    let bytes = archive(
        &[("pack/Big.filter", content.as_slice())],
        CompressionMethod::Deflated,
    );
    assert!(bytes.len() < content.len());
    let assets = extract_assets(bytes.clone()).unwrap();
    assert_eq!(assets.len(), 1);
    assert_eq!(assets[0].name, "Big.filter");
    assert_eq!(assets[0].data, content);
    assert_ne!(assets[0].data, bytes);
}

#[test]
fn extraction_reads_stored_entries() {
    let bytes = archive(
        &[("a.filter", b"plain"), ("b.txt", b"other")],
        CompressionMethod::Stored,
    );
    let assets = extract_assets(bytes).unwrap();
    assert_eq!(names_of(&assets), vec!["a.filter"]);
    assert_eq!(assets[0].data, b"plain");
}

#[test]
fn archive_without_managed_assets_gives_none() {
    let bytes = archive(
        &[("README.md", b"x"), ("dir/", b""), ("dir/file.txt", b"y")],
        CompressionMethod::Deflated,
    );
    assert!(extract_assets(bytes).unwrap().is_empty());
}

#[test]
fn empty_archive_gives_none() {
    let bytes = archive(&[], CompressionMethod::Stored);
    assert!(extract_assets(bytes).unwrap().is_empty());
}

#[test]
fn empty_asset_is_still_an_asset() {
    let bytes = archive(&[("dir/Empty.filter", b"")], CompressionMethod::Deflated);
    let assets = extract_assets(bytes).unwrap();
    assert_eq!(names_of(&assets), vec!["Empty.filter"]);
    assert!(assets[0].data.is_empty());
}

#[test]
fn bytes_that_are_no_archive_are_an_archive_error() {
    assert_eq!(extract_assets(Vec::new()).unwrap_err(), SyncError::Archive);
    assert_eq!(
        extract_assets(b"this is not a zip archive".to_vec()).unwrap_err(),
        SyncError::Archive
    );
    assert_eq!(
        extract_assets(vec![0u8; 1024]).unwrap_err(),
        SyncError::Archive
    );
    assert!(matches!(
        Installer::open(b"PK\x03\x04 truncated".to_vec()),
        Err(SyncError::Archive)
    ));
}

#[test]
fn damaged_asset_is_an_archive_error() {
    let content: Vec<u8> = (0..4000u32).flat_map(|i| i.to_le_bytes()).collect();
    let good = archive(
        &[("Only.filter", content.as_slice())],
        CompressionMethod::Stored,
    );
    let position = good
        .windows(8)
        .position(|w| w == &content[..8])
        .expect("stored content is found in the archive");
    let mut bad = good.clone();
    bad[position + 100] ^= 0xff;
    assert_eq!(extract_assets(good).unwrap().len(), 1);
    assert_eq!(extract_assets(bad).unwrap_err(), SyncError::Archive);
}

#[test]
fn damage_outside_managed_assets_does_no_harm() {
    let content: Vec<u8> = (0..4000u32).flat_map(|i| i.to_le_bytes()).collect();
    let good = archive(
        &[("notes.bin", content.as_slice()), ("a.filter", b"rules")],
        CompressionMethod::Stored,
    );
    let position = good
        .windows(8)
        .position(|w| w == &content[..8])
        .expect("stored content is found in the archive");
    let mut bad = good;
    bad[position + 100] ^= 0xff;
    let assets = extract_assets(bad).unwrap();
    assert_eq!(names_of(&assets), vec!["a.filter"]);
    assert_eq!(assets[0].data, b"rules");
}

#[test]
fn assets_come_in_archive_order() {
    let bytes = archive(
        &[
            ("z/Last.filter", b"1"),
            ("skip.txt", b"-"),
            ("a/First.filter", b"2"),
            ("m/Middle.filter", b"3"),
        ],
        CompressionMethod::Deflated,
    );
    let assets = extract_assets(bytes).unwrap();
    assert_eq!(
        names_of(&assets),
        vec!["Last.filter", "First.filter", "Middle.filter"]
    );
    assert_eq!(assets[0].data, b"1");
    assert_eq!(assets[1].data, b"2");
    assert_eq!(assets[2].data, b"3");
}

#[test]
fn equal_base_names_share_a_destination() {
    let bytes = archive(
        &[("one/Same.filter", b"first"), ("two/Same.filter", b"second")],
        CompressionMethod::Deflated,
    );
    let assets = extract_assets(bytes).unwrap();
    assert_eq!(names_of(&assets), vec!["Same.filter", "Same.filter"]);
    assert_eq!(assets[0].data, b"first");
    assert_eq!(assets[1].data, b"second");
}

#[test]
fn installer_lists_every_entry_up_front() {
    let bytes = archive(
        &[("a.filter", b"1"), ("b.txt", b"2"), ("c/", b"")],
        CompressionMethod::Stored,
    );
    let installer = Installer::open(bytes).unwrap();
    assert_eq!(installer.entry_count(), 3);
}

#[test]
fn installer_hands_out_one_asset_at_a_time() {
    let bytes = archive(
        &[
            ("doc.md", b"d"),
            ("x/One.filter", b"one"),
            ("y.txt", b"y"),
            ("Two.filter", b"two"),
            ("tail.txt", b"t"),
        ],
        CompressionMethod::Deflated,
    );
    let mut installer = Installer::open(bytes).unwrap();
    let first = installer.next_asset().unwrap().unwrap();
    assert_eq!(first.name, "One.filter");
    assert_eq!(first.data, b"one");
    let second = installer.next_asset().unwrap().unwrap();
    assert_eq!(second.name, "Two.filter");
    assert_eq!(second.data, b"two");
    assert!(installer.next_asset().unwrap().is_none());
    assert!(installer.next_asset().unwrap().is_none());
}

#[test]
fn installer_passes_a_damaged_asset_and_goes_on() {
    let content: Vec<u8> = (0..4000u32).flat_map(|i| i.to_le_bytes()).collect();
    let good = archive(
        &[("Bad.filter", content.as_slice()), ("Good.filter", b"fine")],
        CompressionMethod::Stored,
    );
    let position = good
        .windows(8)
        .position(|w| w == &content[..8])
        .expect("stored content is found in the archive");
    let mut bad = good;
    bad[position + 100] ^= 0xff;
    let mut installer = Installer::open(bad).unwrap();
    assert_eq!(installer.next_asset().unwrap_err(), SyncError::Archive);
    let next = installer.next_asset().unwrap().unwrap();
    assert_eq!(next.name, "Good.filter");
    assert_eq!(next.data, b"fine");
    assert!(installer.next_asset().unwrap().is_none());
}

#[test]
fn installer_agrees_with_extraction_at_once() {
    let bytes = archive(
        &[
            ("r/a.filter", b"A"),
            ("r/b.txt", b"B"),
            ("r/s/c.filter", b"C"),
        ],
        CompressionMethod::Deflated,
    );
    let all = extract_assets(bytes.clone()).unwrap();
    let mut installer = Installer::open(bytes).unwrap();
    let mut one_by_one = Vec::new();
    while let Some(asset) = installer.next_asset().unwrap() {
        one_by_one.push(asset);
    }
    assert_eq!(all.len(), one_by_one.len());
    for (x, y) in all.iter().zip(one_by_one.iter()) {
        assert_eq!(x.name, y.name);
        assert_eq!(x.data, y.data);
    }
}

#[test]
fn download_with_bad_status_is_a_request_error() {
    let bytes = archive(&[("a.filter", b"x")], CompressionMethod::Stored);
    for status in [199u16, 302, 404, 500] {
        assert!(matches!(
            Installer::receive(status, bytes.clone()),
            Err(SyncError::RemoteRequest { status: s }) if s == status
        ));
    }
    assert!(matches!(
        Installer::receive(404, b"no archive".to_vec()),
        Err(SyncError::RemoteRequest { status: 404 })
    ));
}

#[test]
fn download_with_good_status_is_opened() {
    let bytes = archive(&[("a.filter", b"x")], CompressionMethod::Stored);
    let mut installer = Installer::receive(200, bytes).unwrap();
    assert_eq!(installer.next_asset().unwrap().unwrap().name, "a.filter");
    assert!(matches!(
        Installer::receive(200, b"no archive".to_vec()),
        Err(SyncError::Archive)
    ));
}

/// Replaces the first byte of the entry name `name`, wherever the archive
/// writes it, by a byte that no UTF-8 text holds.
fn with_foreign_name(mut bytes: Vec<u8>, name: &str) -> Vec<u8> {
    let mut found = 0;
    let mut at = 0;
    while at + name.len() <= bytes.len() {
        if &bytes[at..at + name.len()] == name.as_bytes() {
            bytes[at] = 0xe9;
            found += 1;
            at += name.len();
        } else {
            at += 1;
        }
    }
    assert_eq!(found, 2);
    bytes
}

#[test]
fn ordinary_archives_have_no_unnamed_entries() {
    let bytes = archive(
        &[("a.filter", b"1"), ("dir/", b""), ("dir/b.txt", b"2")],
        CompressionMethod::Stored,
    );
    let installer = Installer::open(bytes).unwrap();
    assert_eq!(installer.unnamed_entries(), 0);
    assert_eq!(installer.entry_count(), 3);
    let empty = Installer::open(archive(&[], CompressionMethod::Stored)).unwrap();
    assert_eq!(empty.unnamed_entries(), 0);
}

#[test]
fn foreign_name_of_another_entry_does_no_harm() {
    let bytes = with_foreign_name(
        archive(
            &[("Xnotes.txt", b"n"), ("pack/Good.filter", b"rules")],
            CompressionMethod::Stored,
        ),
        "Xnotes.txt",
    );
    let installer = Installer::open(bytes.clone()).unwrap();
    assert_eq!(installer.entry_count(), 2);
    let assets = extract_assets(bytes).unwrap();
    assert_eq!(names_of(&assets), vec!["Good.filter"]);
    assert_eq!(assets[0].data, b"rules");
}

#[test]
fn managed_asset_that_cannot_be_found_again_is_an_archive_error() {
    let bytes = with_foreign_name(
        archive(
            &[("Xodd.filter", b"rules"), ("Good.filter", b"fine")],
            CompressionMethod::Stored,
        ),
        "Xodd.filter",
    );
    let mut installer = Installer::open(bytes.clone()).unwrap();
    assert_eq!(installer.entry_count(), 2);
    assert_eq!(installer.next_asset().unwrap_err(), SyncError::Archive);
    assert_eq!(installer.next_asset().unwrap().unwrap().name, "Good.filter");
    assert_eq!(extract_assets(bytes).unwrap_err(), SyncError::Archive);
}
