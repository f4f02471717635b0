use netiso_srv::catalog::{
    get_iso_files, glob_pattern, is_known, retain_existing, scan_iso_files_initial, sector_count,
    FileProbe, IsoEntry, ScannedFile,
};

fn entry(path: &str, filesize: u64) -> IsoEntry {
    IsoEntry::new(path.to_string(), path.trim_start_matches("/iso/").to_string(), filesize, 0)
}

fn probed(path: &str, filesize: u64, data_start: u64) -> ScannedFile {
    ScannedFile {
        path: path.to_string(),
        filename: path.trim_start_matches("/iso/").to_string(),
        probe: Some(FileProbe { filesize, data_start }),
    }
}

fn unreadable(path: &str) -> ScannedFile {
    ScannedFile {
        path: path.to_string(),
        filename: path.trim_start_matches("/iso/").to_string(),
        probe: None,
    }
}

/// The existence flags of `catalog` in a directory where `present` exist.
fn flags(catalog: &Vec<IsoEntry>, present: &[&str]) -> Vec<bool> {
    catalog.iter().map(|e| present.contains(&e.path.as_str())).collect()
}

#[test]
fn sector_count_is_floor_of_size_over_2048() {
    assert_eq!(sector_count(4096), 2);
    assert_eq!(sector_count(4097), 2);
    assert_eq!(sector_count(2047), 0);
    assert_eq!(sector_count(2048), 1);
    assert_eq!(sector_count(0), 0);
    assert_eq!(sector_count(u64::MAX), u64::MAX / 2048);
}

#[test]
fn new_entry_derives_its_fields() {
    let e = IsoEntry::new("/iso/a.iso".to_string(), "a.iso".to_string(), 10_000, 0x0fd9_0000);
    assert_eq!(e.path, "/iso/a.iso");
    assert_eq!(e.filename, "a.iso");
    assert_eq!(e.filesize, 10_000);
    assert_eq!(e.data_start, 0x0fd9_0000);
    // Sectors are counted over the whole file, not over what follows the data start.
    assert_eq!(e.sector_count, 4);
    assert_eq!(e.has_type1_file, 0);
    assert_eq!(e.clone(), e);
}

#[test]
fn initial_scan_lists_the_files_in_walk_order() {
    let found = vec![probed("/iso/b.iso", 4096, 0), probed("/iso/a.iso", 8192, 0x0208_0000)];
    let catalog = scan_iso_files_initial(&found);
    assert_eq!(
        catalog,
        vec![
            IsoEntry {
                path: "/iso/b.iso".to_string(),
                filename: "b.iso".to_string(),
                filesize: 4096,
                data_start: 0,
                sector_count: 2,
                has_type1_file: 0,
            },
            IsoEntry {
                path: "/iso/a.iso".to_string(),
                filename: "a.iso".to_string(),
                filesize: 8192,
                data_start: 0x0208_0000,
                sector_count: 4,
                has_type1_file: 0,
            },
        ]
    );
}

#[test]
fn initial_scan_of_nothing_is_empty() {
    assert_eq!(scan_iso_files_initial(&Vec::new()), Vec::<IsoEntry>::new());
}

#[test]
fn unreadable_file_is_left_out_and_the_scan_goes_on() {
    let found =
        vec![probed("/iso/a.iso", 4096, 0), unreadable("/iso/bad.iso"), probed("/iso/c.iso", 1, 0)];
    let catalog = scan_iso_files_initial(&found);
    assert_eq!(catalog, vec![entry("/iso/a.iso", 4096), entry("/iso/c.iso", 1)]);
}

#[test]
fn retain_existing_keeps_order() {
    let old = vec![entry("/iso/a.iso", 1), entry("/iso/b.iso", 2), entry("/iso/c.iso", 3)];
    assert_eq!(
        retain_existing(&old, &vec![true, false, true]),
        vec![entry("/iso/a.iso", 1), entry("/iso/c.iso", 3)]
    );
    assert_eq!(retain_existing(&old, &vec![true, true, true]), old);
    assert_eq!(retain_existing(&old, &vec![false, false, false]), Vec::<IsoEntry>::new());
}

#[test]
fn retain_existing_counts_a_missing_flag_as_gone() {
    let old = vec![entry("/iso/a.iso", 1), entry("/iso/b.iso", 2)];
    assert_eq!(retain_existing(&old, &vec![true]), vec![entry("/iso/a.iso", 1)]);
    assert_eq!(retain_existing(&old, &Vec::new()), Vec::<IsoEntry>::new());
    assert_eq!(retain_existing(&old, &vec![true, true, true]), old);
}

#[test]
fn is_known_compares_paths() {
    let catalog = vec![entry("/iso/a.iso", 1), entry("/iso/b.iso", 2)];
    assert!(is_known(&catalog, &"/iso/a.iso".to_string()));
    assert!(is_known(&catalog, &"/iso/b.iso".to_string()));
    assert!(!is_known(&catalog, &"/iso/c.iso".to_string()));
    assert!(!is_known(&catalog, &"a.iso".to_string()));
    assert!(!is_known(&Vec::new(), &"/iso/a.iso".to_string()));
}

#[test]
fn refresh_appends_new_files_behind_the_old() {
    let old = vec![entry("/iso/a.iso", 4096), entry("/iso/b.iso", 8192)];
    let found = vec![
        probed("/iso/c.iso", 2048, 0),
        probed("/iso/a.iso", 4096, 0),
        probed("/iso/b.iso", 8192, 0),
    ];
    let catalog = get_iso_files(&old, &vec![true, true], &found);
    assert_eq!(
        catalog,
        vec![entry("/iso/a.iso", 4096), entry("/iso/b.iso", 8192), entry("/iso/c.iso", 2048)]
    );
}

#[test]
fn refresh_keeps_the_old_record_of_a_known_file() {
    // The file has grown since; its record is not probed again.
    let old = vec![entry("/iso/a.iso", 4096)];
    let found = vec![probed("/iso/a.iso", 1_000_000, 0x0208_0000)];
    assert_eq!(get_iso_files(&old, &vec![true], &found), old);
}

#[test]
fn refresh_drops_records_of_files_that_are_gone() {
    let old = vec![entry("/iso/a.iso", 1), entry("/iso/b.iso", 2), entry("/iso/c.iso", 3)];
    let found = vec![probed("/iso/a.iso", 1, 0), probed("/iso/c.iso", 3, 0)];
    let catalog = get_iso_files(&old, &vec![true, false, true], &found);
    assert_eq!(catalog, vec![entry("/iso/a.iso", 1), entry("/iso/c.iso", 3)]);
}

#[test]
fn new_file_does_not_take_the_place_of_a_removed_one() {
    let old = vec![entry("/iso/a.iso", 1), entry("/iso/b.iso", 2), entry("/iso/c.iso", 3)];
    let found = vec![probed("/iso/new.iso", 9, 0), probed("/iso/b.iso", 2, 0)];
    let present = ["/iso/b.iso", "/iso/c.iso", "/iso/new.iso"];
    let catalog = get_iso_files(&old, &flags(&old, &present), &found);
    // Index 0 was that of the removed file: it goes to a retained record.
    assert_eq!(
        catalog,
        vec![entry("/iso/b.iso", 2), entry("/iso/c.iso", 3), entry("/iso/new.iso", 9)]
    );
}

#[test]
fn refresh_of_a_wholly_removed_catalog_starts_over() {
    let old = vec![entry("/iso/a.iso", 1)];
    let found = vec![probed("/iso/c.iso", 3, 0)];
    let catalog = get_iso_files(&old, &vec![false], &found);
    assert_eq!(catalog, vec![entry("/iso/c.iso", 3)]);
}

#[test]
fn a_file_that_comes_back_is_appended_anew() {
    let old = vec![entry("/iso/a.iso", 1), entry("/iso/b.iso", 2)];
    let gone = get_iso_files(&old, &vec![false, true], &vec![probed("/iso/b.iso", 2, 0)]);
    assert_eq!(gone, vec![entry("/iso/b.iso", 2)]);
    let found = vec![probed("/iso/a.iso", 1, 0), probed("/iso/b.iso", 2, 0)];
    let back = get_iso_files(&gone, &vec![true], &found);
    assert_eq!(back, vec![entry("/iso/b.iso", 2), entry("/iso/a.iso", 1)]);
}

#[test]
fn rescanning_an_unchanged_directory_changes_nothing() {
    let present = ["/iso/b.iso", "/iso/c.iso", "/iso/d.iso", "/iso/bad.iso"];
    let found = vec![
        probed("/iso/d.iso", 4096, 0),
        unreadable("/iso/bad.iso"),
        probed("/iso/b.iso", 2, 0),
        probed("/iso/c.iso", 6000, 0x0fd9_0000),
    ];
    let old = vec![entry("/iso/a.iso", 1), entry("/iso/b.iso", 2)];
    let once = get_iso_files(&old, &flags(&old, &present), &found);
    let twice = get_iso_files(&once, &flags(&once, &present), &found);
    assert_eq!(
        once,
        vec![
            entry("/iso/b.iso", 2),
            entry("/iso/d.iso", 4096),
            IsoEntry::new("/iso/c.iso".to_string(), "c.iso".to_string(), 6000, 0x0fd9_0000),
        ]
    );
    assert_eq!(twice, once);
    let thrice = get_iso_files(&twice, &flags(&twice, &present), &found);
    assert_eq!(thrice, once);
}

#[test]
fn a_file_found_twice_is_recorded_twice_and_then_no_more() {
    let present = ["/iso/a.iso"];
    let found = vec![probed("/iso/a.iso", 1, 0), probed("/iso/a.iso", 1, 0)];
    let once = scan_iso_files_initial(&found);
    assert_eq!(once, vec![entry("/iso/a.iso", 1), entry("/iso/a.iso", 1)]);
    let twice = get_iso_files(&once, &flags(&once, &present), &found);
    assert_eq!(twice, once);
}

#[test]
fn glob_pattern_for_direct_children() {
    assert_eq!(glob_pattern("/srv/iso", "/", false), "/srv/iso/*.iso");
    assert_eq!(glob_pattern("C:\\iso", "\\", false), "C:\\iso\\*.iso");
    assert_eq!(glob_pattern("", "/", false), "/*.iso");
}

#[test]
fn glob_pattern_for_all_descendants() {
    assert_eq!(glob_pattern("/srv/iso", "/", true), "/srv/iso/**/*.iso");
    assert_eq!(glob_pattern("C:\\iso", "\\", true), "C:\\iso\\**\\*.iso");
}
