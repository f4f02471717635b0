//! The image catalog and its refresh.
//!
//! A catalog is an ordered list of [`IsoEntry`] records; the position of a
//! record is the image index that clients use. A refresh takes the previous
//! catalog and what the directory walk found, and gives the next catalog:
//! the previous records whose files are still there, in their order,
//! followed by a record for each file that was found, could be probed and
//! was not in the catalog yet.
//!
//! The directory walk and the probing of files are the caller's part. It
//! hands over plain values: for each previous record whether its file still
//! exists, and for each file found its path, its name and the outcome of
//! probing it.
use vstd::prelude::*;
use vstd::string::StringExecFns;
use crate::wire::SECTOR_SIZE;

verus! {

/// One image of the catalog.
#[derive(Debug, PartialEq, Eq)]
pub struct IsoEntry {
    /// Where the image file lies; the key by which a file is recognised.
    pub path: String,
    /// The name shown to clients.
    pub filename: String,
    /// Size of the whole file in bytes.
    pub filesize: u64,
    /// Offset in the file at which the disc's sector data begins.
    pub data_start: u64,
    /// Whole sectors in the file, counted over the whole file size.
    pub sector_count: u64,
    /// The flag that a type-1-file query reports.
    pub has_type1_file: u32,
}

/// What probing a file gave.
#[derive(Clone, Copy, Debug, PartialEq, Eq, Structural)]
pub struct FileProbe {
    pub filesize: u64,
    pub data_start: u64,
}

/// A file that the directory walk found.
#[derive(Debug, PartialEq, Eq)]
pub struct ScannedFile {
    pub path: String,
    pub filename: String,
    /// The outcome of probing the file; `None` if it could not be opened or
    /// read.
    pub probe: Option<FileProbe>,
}

/// Whole sectors in a file of `filesize` bytes.
pub open spec fn sector_count_spec(filesize: u64) -> u64 {
    (filesize / (SECTOR_SIZE as u64)) as u64
}

/// Whole sectors in a file of `filesize` bytes: the size divided by the
/// sector size, rounded down.
pub fn sector_count(filesize: u64) -> (count: u64)
    ensures
        count == filesize as int / 2048,
        count == sector_count_spec(filesize),
{
    filesize / (SECTOR_SIZE as u64)
}

impl IsoEntry {
    /// Whether the derived fields are what the file size gives.
    pub open spec fn well_formed(&self) -> bool {
        self.sector_count == sector_count_spec(self.filesize) && self.has_type1_file == 0
    }

    /// The bytes of the name shown to clients.
    pub open spec fn name_bytes(&self) -> Seq<u8> {
        vstd::utf8::encode_utf8(self.filename@)
    }

    /// The record of a file of `filesize` bytes whose data begins at
    /// `data_start`.
    pub fn new(path: String, filename: String, filesize: u64, data_start: u64) -> (entry: IsoEntry)
        ensures
            entry == (IsoEntry {
                path,
                filename,
                filesize,
                data_start,
                sector_count: sector_count_spec(filesize),
                has_type1_file: 0,
            }),
            entry.well_formed(),
    {
        IsoEntry {
            path,
            filename,
            filesize,
            data_start,
            sector_count: sector_count(filesize),
            has_type1_file: 0,
        }
    }
}

impl Clone for IsoEntry {
    fn clone(&self) -> (copy: Self)
        ensures
            copy == *self,
    {
        IsoEntry {
            path: self.path.clone(),
            filename: self.filename.clone(),
            filesize: self.filesize,
            data_start: self.data_start,
            sector_count: self.sector_count,
            has_type1_file: self.has_type1_file,
        }
    }
}

/// Whether the file of the previous record `i` still exists. A record
/// without a flag counts as gone.
pub open spec fn is_present(exists: Seq<bool>, i: int) -> bool {
    0 <= i < exists.len() && exists[i]
}

/// The previous records whose files still exist, in their order.
pub open spec fn retained_spec(previous: Seq<IsoEntry>, exists: Seq<bool>) -> Seq<IsoEntry>
    decreases previous.len(),
{
    if previous.len() == 0 {
        Seq::empty()
    } else {
        let head = retained_spec(previous.drop_last(), exists);
        if is_present(exists, previous.len() - 1) {
            head.push(previous.last())
        } else {
            head
        }
    }
}

/// Whether some record of `entries` has the path `path`.
pub open spec fn knows_path(entries: Seq<IsoEntry>, path: Seq<char>) -> bool {
    exists|i: int| 0 <= i < entries.len() && #[trigger] entries[i].path@ == path
}

/// Whether `file` gets a record: it could be probed, and no record of
/// `known` has its path.
pub open spec fn is_fresh(known: Seq<IsoEntry>, file: ScannedFile) -> bool {
    file.probe is Some && !knows_path(known, file.path@)
}

/// The record of a probed file.
pub open spec fn entry_of(file: ScannedFile) -> IsoEntry
    recommends
        file.probe is Some,
{
    IsoEntry {
        path: file.path,
        filename: file.filename,
        filesize: file.probe->0.filesize,
        data_start: file.probe->0.data_start,
        sector_count: sector_count_spec(file.probe->0.filesize),
        has_type1_file: 0,
    }
}

/// The records of the files of `found` that are fresh against `known`, in
/// the order in which they were found.
pub open spec fn appended_spec(known: Seq<IsoEntry>, found: Seq<ScannedFile>) -> Seq<IsoEntry>
    decreases found.len(),
{
    if found.len() == 0 {
        Seq::empty()
    } else {
        let head = appended_spec(known, found.drop_last());
        if is_fresh(known, found.last()) {
            head.push(entry_of(found.last()))
        } else {
            head
        }
    }
}

/// The catalog after a refresh: the retained records, then the new ones.
pub open spec fn scan_spec(
    previous: Seq<IsoEntry>,
    exists: Seq<bool>,
    found: Seq<ScannedFile>,
) -> Seq<IsoEntry> {
    let kept = retained_spec(previous, exists);
    kept + appended_spec(kept, found)
}

/// Drops the records whose files are gone: record `i` stays if `exists[i]`
/// is there and true.
pub fn retain_existing(old_entries: &Vec<IsoEntry>, exists: &Vec<bool>) -> (kept: Vec<IsoEntry>)
    ensures
        kept@ == retained_spec(old_entries@, exists@),
{
    let mut kept: Vec<IsoEntry> = Vec::new();
    let n = old_entries.len();
    let mut i: usize = 0;
    while i < n
        invariant
            i <= n,
            n == old_entries@.len(),
            kept@ == retained_spec(old_entries@.take(i as int), exists@),
        decreases n - i,
    {
        assert(old_entries@.take(i + 1).drop_last() =~= old_entries@.take(i as int));
        if i < exists.len() && exists[i] {
            kept.push(old_entries[i].clone());
        }
        i += 1;
    }
    assert(old_entries@.take(n as int) =~= old_entries@);
    kept
}

/// Whether some record of `entries` has the path `path`.
pub fn is_known(entries: &Vec<IsoEntry>, path: &String) -> (known: bool)
    ensures
        known == knows_path(entries@, path@),
{
    let n = entries.len();
    let mut i: usize = 0;
    while i < n
        invariant
            i <= n,
            n == entries@.len(),
            forall|j: int| 0 <= j < i ==> entries@[j].path@ != path@,
        decreases n - i,
    {
        if entries[i].path == *path {
            return true;
        }
        i += 1;
    }
    false
}

/// Refreshes the catalog.
///
/// `exists[i]` says whether the file of `old_entries[i]` is still there;
/// `found` holds the files of the directory walk in the order of the walk.
/// The result holds the records that stay, in their order, and behind them
/// a new record for each file of `found` that was probed and whose path no
/// retained record has. A file that could not be probed gets no record and
/// does not stop the refresh.
pub fn get_iso_files(
    old_entries: &Vec<IsoEntry>,
    exists: &Vec<bool>,
    found: &Vec<ScannedFile>,
) -> (catalog: Vec<IsoEntry>)
    ensures
        catalog@ == scan_spec(old_entries@, exists@, found@),
{
    let mut catalog = retain_existing(old_entries, exists);
    let mut fresh: Vec<IsoEntry> = Vec::new();
    let n = found.len();
    let mut i: usize = 0;
    while i < n
        invariant
            i <= n,
            n == found@.len(),
            catalog@ == retained_spec(old_entries@, exists@),
            fresh@ == appended_spec(catalog@, found@.take(i as int)),
        decreases n - i,
    {
        assert(found@.take(i + 1).drop_last() =~= found@.take(i as int));
        let file = &found[i];
        match file.probe {
            Some(probe) => {
                if !is_known(&catalog, &file.path) {
                    let entry = IsoEntry::new(
                        file.path.clone(),
                        file.filename.clone(),
                        probe.filesize,
                        probe.data_start,
                    );
                    assert(entry == entry_of(found@[i as int]));
                    fresh.push(entry);
                }
            },
            None => {},
        }
        i += 1;
    }
    assert(found@.take(n as int) =~= found@);
    catalog.append(&mut fresh);
    catalog
}

/// The first catalog: a refresh with no previous records.
pub fn scan_iso_files_initial(found: &Vec<ScannedFile>) -> (catalog: Vec<IsoEntry>)
    ensures
        catalog@ == scan_spec(Seq::empty(), Seq::empty(), found@),
        catalog@ == appended_spec(Seq::empty(), found@),
{
    let none: Vec<IsoEntry> = Vec::new();
    let flags: Vec<bool> = Vec::new();
    let catalog = get_iso_files(&none, &flags, found);
    assert(Seq::<IsoEntry>::empty() + appended_spec(Seq::empty(), found@) =~= appended_spec(
        Seq::empty(),
        found@,
    ));
    catalog
}

/// The pattern that the directory walk matches: the image files directly
/// in `directory`, or, with `recursive`, those at any depth below it.
pub open spec fn glob_pattern_spec(
    directory: Seq<char>,
    separator: Seq<char>,
    recursive: bool,
) -> Seq<char> {
    if recursive {
        directory + separator + "**"@ + separator + "*.iso"@
    } else {
        directory + separator + "*.iso"@
    }
}

/// The pattern that the directory walk matches, with the platform's path
/// separator between its parts.
pub fn glob_pattern(directory: &str, separator: &str, recursive: bool) -> (pattern: String)
    ensures
        pattern@ == glob_pattern_spec(directory@, separator@, recursive),
{
    let mut pattern = String::from_str(directory);
    if recursive {
        pattern.append(separator);
        pattern.append("**");
    }
    pattern.append(separator);
    pattern.append("*.iso");
    pattern
}

/// Whether `entry` is a previous record at place `from` or behind it whose
/// file still exists.
pub open spec fn is_survivor(
    previous: Seq<IsoEntry>,
    exists: Seq<bool>,
    entry: IsoEntry,
    from: int,
) -> bool {
    exists|i: int|
        from <= i < previous.len() && is_present(exists, i) && #[trigger] previous[i] == entry
}

/// Whether `entry` is the record of a file of `found` that is fresh against
/// `known`.
pub open spec fn is_newcomer(known: Seq<IsoEntry>, found: Seq<ScannedFile>, entry: IsoEntry) -> bool {
    exists|k: int|
        0 <= k < found.len() && is_fresh(known, #[trigger] found[k]) && entry_of(found[k]) == entry
}

/// Every retained record is a previous record whose file still exists, and
/// it has not moved towards the back.
pub proof fn lemma_retained_members(previous: Seq<IsoEntry>, exists: Seq<bool>)
    ensures
        retained_spec(previous, exists).len() <= previous.len(),
        forall|j: int|
            0 <= j < retained_spec(previous, exists).len() ==> is_survivor(
                previous,
                exists,
                #[trigger] retained_spec(previous, exists)[j],
                j,
            ),
    decreases previous.len(),
{
    if previous.len() > 0 {
        let head = previous.drop_last();
        lemma_retained_members(head, exists);
        let kept = retained_spec(previous, exists);
        let kept_head = retained_spec(head, exists);
        assert forall|j: int| 0 <= j < kept.len() implies is_survivor(
            previous,
            exists,
            #[trigger] kept[j],
            j,
        ) by {
            if j < kept_head.len() {
                assert(is_survivor(head, exists, kept_head[j], j));
                let i = choose|i: int|
                    j <= i < head.len() && is_present(exists, i) && #[trigger] head[i]
                        == kept_head[j];
                assert(previous[i] == kept[j]);
            } else {
                assert(previous[previous.len() - 1] == kept[j]);
            }
        }
    }
}

/// While no file is gone, the records keep their places: a refresh leaves
/// the first `n` records where they were if the files of all of them still
/// exist.
pub proof fn lemma_retained_prefix(previous: Seq<IsoEntry>, exists: Seq<bool>, n: int)
    requires
        0 <= n <= previous.len(),
        forall|i: int| 0 <= i < n ==> is_present(exists, i),
    ensures
        n <= retained_spec(previous, exists).len(),
        retained_spec(previous, exists).take(n) == previous.take(n),
    decreases previous.len(),
{
    if previous.len() == 0 {
        assert(retained_spec(previous, exists).take(n) =~= previous.take(n));
    } else if n == previous.len() {
        let head = previous.drop_last();
        lemma_retained_prefix(head, exists, n - 1);
        let kept_head = retained_spec(head, exists);
        lemma_retained_members(head, exists);
        assert(kept_head.len() == n - 1);
        assert(kept_head =~= kept_head.take(n - 1));
        assert(retained_spec(previous, exists).take(n) =~= previous.take(n));
    } else {
        let head = previous.drop_last();
        lemma_retained_prefix(head, exists, n);
        assert(retained_spec(previous, exists).take(n) =~= retained_spec(head, exists).take(n));
        assert(previous.take(n) =~= head.take(n));
    }
}

/// Every appended record is the record of a fresh file, and every fresh
/// file has its record among the appended ones.
pub proof fn lemma_appended_members(known: Seq<IsoEntry>, found: Seq<ScannedFile>)
    ensures
        appended_spec(known, found).len() <= found.len(),
        forall|j: int|
            0 <= j < appended_spec(known, found).len() ==> is_newcomer(
                known,
                found,
                #[trigger] appended_spec(known, found)[j],
            ),
        forall|k: int|
            0 <= k < found.len() && is_fresh(known, #[trigger] found[k]) ==> appended_spec(
                known,
                found,
            ).contains(entry_of(found[k])),
    decreases found.len(),
{
    if found.len() > 0 {
        let head = found.drop_last();
        lemma_appended_members(known, head);
        let app = appended_spec(known, found);
        let app_head = appended_spec(known, head);
        assert forall|j: int| 0 <= j < app.len() implies is_newcomer(
            known,
            found,
            #[trigger] app[j],
        ) by {
            if j < app_head.len() {
                assert(is_newcomer(known, head, app_head[j]));
                let k = choose|k: int|
                    0 <= k < head.len() && is_fresh(known, #[trigger] head[k]) && entry_of(head[k])
                        == app_head[j];
                assert(found[k] == head[k]);
            } else {
                assert(entry_of(found[found.len() - 1]) == app[j]);
            }
        }
        assert forall|k: int|
            0 <= k < found.len() && is_fresh(known, #[trigger] found[k]) implies app.contains(
            entry_of(found[k]),
        ) by {
            if k < head.len() {
                assert(head[k] == found[k]);
                assert(app_head.contains(entry_of(head[k])));
                let j = choose|j: int| 0 <= j < app_head.len() && app_head[j] == entry_of(head[k]);
                assert(app[j] == entry_of(found[k]));
            } else {
                assert(app[app.len() - 1] == entry_of(found[k]));
            }
        }
    }
}

/// New records stand behind the retained ones: the refreshed catalog opens
/// with the retained records, each a previous record that has not moved
/// back, and every record behind them is that of a fresh file. So a new
/// file never takes a place among the retained records.
pub proof fn lemma_new_entries_follow_retained(
    previous: Seq<IsoEntry>,
    exists: Seq<bool>,
    found: Seq<ScannedFile>,
)
    ensures
        ({
            let kept = retained_spec(previous, exists);
            let catalog = scan_spec(previous, exists, found);
            &&& kept.len() <= catalog.len() <= kept.len() + found.len()
            &&& catalog.take(kept.len() as int) == kept
            &&& forall|j: int|
                0 <= j < kept.len() ==> is_survivor(previous, exists, #[trigger] catalog[j], j)
            &&& forall|j: int|
                kept.len() <= j < catalog.len() ==> is_newcomer(kept, found, #[trigger] catalog[j])
        }),
{
    let kept = retained_spec(previous, exists);
    let app = appended_spec(kept, found);
    let catalog = scan_spec(previous, exists, found);
    lemma_retained_members(previous, exists);
    lemma_appended_members(kept, found);
    assert(catalog.take(kept.len() as int) =~= kept);
    assert forall|j: int| 0 <= j < kept.len() implies is_survivor(
        previous,
        exists,
        #[trigger] catalog[j],
        j,
    ) by {
        assert(catalog[j] == kept[j]);
    }
    assert forall|j: int| kept.len() <= j < catalog.len() implies is_newcomer(
        kept,
        found,
        #[trigger] catalog[j],
    ) by {
        assert(catalog[j] == app[j - kept.len()]);
    }
}

/// The place of a file that is gone goes to no new file, as long as records
/// enough are retained to fill it: if record `gone` of the previous catalog
/// is dropped and more than `gone` records stay, the record now at `gone`
/// is a previous one that stood behind it.
pub proof fn lemma_gone_index_not_reused(
    previous: Seq<IsoEntry>,
    exists: Seq<bool>,
    found: Seq<ScannedFile>,
    gone: int,
)
    requires
        0 <= gone < previous.len(),
        !is_present(exists, gone),
        gone < retained_spec(previous, exists).len(),
    ensures
        is_survivor(previous, exists, scan_spec(previous, exists, found)[gone], gone + 1),
{
    lemma_new_entries_follow_retained(previous, exists, found);
    let catalog = scan_spec(previous, exists, found);
    assert(is_survivor(previous, exists, catalog[gone], gone));
    let i = choose|i: int|
        gone <= i < previous.len() && is_present(exists, i) && #[trigger] previous[i]
            == catalog[gone];
    assert(previous[i] == catalog[gone]);
}

/// The existence flags that a set of existing paths gives to a catalog.
pub open spec fn presence(entries: Seq<IsoEntry>, present: Set<Seq<char>>) -> Seq<bool> {
    Seq::new(entries.len(), |i: int| present.contains(entries[i].path@))
}

/// A refresh against a directory in which the paths of `present` exist and
/// the walk finds `found`.
pub open spec fn rescan_spec(
    previous: Seq<IsoEntry>,
    present: Set<Seq<char>>,
    found: Seq<ScannedFile>,
) -> Seq<IsoEntry> {
    scan_spec(previous, presence(previous, present), found)
}

/// A catalog whose files all exist is retained whole.
proof fn lemma_retain_all(entries: Seq<IsoEntry>, exists: Seq<bool>)
    requires
        forall|i: int| 0 <= i < entries.len() ==> is_present(exists, i),
    ensures
        retained_spec(entries, exists) == entries,
{
    lemma_retained_prefix(entries, exists, entries.len() as int);
    lemma_retained_members(entries, exists);
    assert(entries.take(entries.len() as int) =~= entries);
    let kept = retained_spec(entries, exists);
    assert(kept.take(entries.len() as int) =~= kept);
}

/// Where no file is fresh, nothing is appended.
proof fn lemma_appended_none(known: Seq<IsoEntry>, found: Seq<ScannedFile>)
    requires
        forall|k: int| 0 <= k < found.len() ==> !is_fresh(known, #[trigger] found[k]),
    ensures
        appended_spec(known, found) == Seq::<IsoEntry>::empty(),
    decreases found.len(),
{
    if found.len() > 0 {
        let head = found.drop_last();
        assert forall|k: int| 0 <= k < head.len() implies !is_fresh(known, #[trigger] head[k]) by {
            assert(head[k] == found[k]);
        }
        lemma_appended_none(known, head);
        assert(found.last() == found[found.len() - 1]);
    }
}

/// Refreshing twice against an unchanged directory gives the same catalog
/// as refreshing once: the same records at the same places.
///
/// The directory is unchanged if the same paths exist and the walk finds
/// the same files with the same probing outcomes. Every file that the walk
/// finds exists.
pub proof fn lemma_rescan_idempotent(
    previous: Seq<IsoEntry>,
    present: Set<Seq<char>>,
    found: Seq<ScannedFile>,
)
    requires
        forall|k: int| 0 <= k < found.len() ==> present.contains(#[trigger] found[k].path@),
    ensures
        rescan_spec(rescan_spec(previous, present, found), present, found) == rescan_spec(
            previous,
            present,
            found,
        ),
{
    let flags = presence(previous, present);
    let kept = retained_spec(previous, flags);
    let app = appended_spec(kept, found);
    let once = rescan_spec(previous, present, found);
    let flags_once = presence(once, present);
    lemma_retained_members(previous, flags);
    lemma_appended_members(kept, found);
    assert forall|i: int| 0 <= i < once.len() implies is_present(flags_once, i) by {
        if i < kept.len() {
            assert(is_survivor(previous, flags, kept[i], i));
            let h = choose|h: int|
                i <= h < previous.len() && is_present(flags, h) && #[trigger] previous[h]
                    == kept[i];
            assert(once[i] == previous[h]);
        } else {
            let j = i - kept.len();
            assert(is_newcomer(kept, found, app[j]));
            let k = choose|k: int|
                0 <= k < found.len() && is_fresh(kept, #[trigger] found[k]) && entry_of(found[k])
                    == app[j];
            assert(once[i] == entry_of(found[k]));
            assert(present.contains(found[k].path@));
        }
    }
    lemma_retain_all(once, flags_once);
    assert forall|k: int| 0 <= k < found.len() implies !is_fresh(once, #[trigger] found[k]) by {
        if found[k].probe is Some {
            if knows_path(kept, found[k].path@) {
                let i = choose|i: int| 0 <= i < kept.len() && kept[i].path@ == found[k].path@;
                assert(once[i].path@ == found[k].path@);
            } else {
                assert(is_fresh(kept, found[k]));
                assert(app.contains(entry_of(found[k])));
                let j = choose|j: int| 0 <= j < app.len() && app[j] == entry_of(found[k]);
                assert(once[kept.len() + j].path@ == found[k].path@);
            }
        }
    }
    lemma_appended_none(once, found);
    assert(once + Seq::<IsoEntry>::empty() =~= once);
}

/// A refresh keeps a catalog well formed: every new record has the sector
/// count that its file size gives.
pub proof fn lemma_scan_well_formed(
    previous: Seq<IsoEntry>,
    exists: Seq<bool>,
    found: Seq<ScannedFile>,
)
    requires
        forall|i: int| 0 <= i < previous.len() ==> (#[trigger] previous[i]).well_formed(),
    ensures
        forall|j: int|
            0 <= j < scan_spec(previous, exists, found).len() ==> (#[trigger] scan_spec(
                previous,
                exists,
                found,
            )[j]).well_formed(),
{
    lemma_new_entries_follow_retained(previous, exists, found);
    let kept = retained_spec(previous, exists);
    let catalog = scan_spec(previous, exists, found);
    assert forall|j: int| 0 <= j < catalog.len() implies (#[trigger] catalog[j]).well_formed() by {
        if j < kept.len() {
            assert(is_survivor(previous, exists, catalog[j], j));
            let i = choose|i: int|
                j <= i < previous.len() && is_present(exists, i) && #[trigger] previous[i]
                    == catalog[j];
            assert(previous[i].well_formed());
        } else {
            assert(is_newcomer(kept, found, catalog[j]));
            let k = choose|k: int|
                0 <= k < found.len() && is_fresh(kept, #[trigger] found[k]) && entry_of(found[k])
                    == catalog[j];
            assert(entry_of(found[k]).well_formed());
        }
    }
}

} // verus!
