//! Archives of frontends: what they hold and what is made of it.
use std::io::{Cursor, Read};

use vstd::prelude::*;

use crate::{decimal, paths, search};
use crate::decimal::to_decimal;
use crate::paths::{archive_output_path, path_parts, Part};
use crate::text::chars_of;

verus! {

/// How many entries the archive in `bytes` has, by the crate `zip`.
pub uninterp spec fn archive_len(bytes: Seq<u8>) -> Option<usize>;

/// The name under which the archive in `bytes` stores an entry, and whether it is
/// a directory, by the crate `zip`.
pub uninterp spec fn archive_entry(bytes: Seq<u8>, index: usize) -> Option<(Seq<char>, bool)>;

/// What an entry of the archive in `bytes` holds, by the crate `zip`.
pub uninterp spec fn archive_contents(bytes: Seq<u8>, index: usize) -> Option<Seq<u8>>;

/// Calls `zip::ZipArchive::new` and `len`: how many entries there are, or nothing
/// where the bytes are no archive.
#[verifier::external_body]
fn zip_len(bytes: &[u8]) -> (r: Option<usize>)
    ensures
        r == archive_len(bytes@),
{
    zip::ZipArchive::new(Cursor::new(bytes)).ok().map(|archive| archive.len())
}

/// Calls `zip::ZipArchive::by_index`, and `name` and `is_dir` of the entry that
/// it gives, or tells that it gives none.
#[verifier::external_body]
fn zip_entry(bytes: &[u8], index: usize) -> (r: Option<(String, bool)>)
    ensures
        match r {
            Some(e) => archive_entry(bytes@, index) == Some((e.0@, e.1)),
            None => archive_entry(bytes@, index) is None,
        },
{
    let mut archive = zip::ZipArchive::new(Cursor::new(bytes)).ok()?;
    let entry = archive.by_index(index).ok()?;
    Some((entry.name().to_owned(), entry.is_dir()))
}

/// Calls `zip::ZipArchive::by_index` and reads the entry that it gives to its
/// end, or tells that this fails.
#[verifier::external_body]
fn zip_contents(bytes: &[u8], index: usize) -> (r: Option<Vec<u8>>)
    ensures
        match r {
            Some(v) => archive_contents(bytes@, index) == Some(v@),
            None => archive_contents(bytes@, index) is None,
        },
{
    let mut archive = zip::ZipArchive::new(Cursor::new(bytes)).ok()?;
    let mut entry = archive.by_index(index).ok()?;
    let mut contents: Vec<u8> = Vec::new();
    entry.read_to_end(&mut contents).ok()?;
    Some(contents)
}

/// An entry of an archive: its name, whether it is a directory, and what it
/// holds, as far as that can be read.
#[derive(Debug)]
pub struct ArchiveEntry {
    pub name: String,
    pub is_dir: bool,
    pub contents: Option<Vec<u8>>,
}

/// What an `ArchiveEntry` tells.
pub struct EntryView {
    pub name: Seq<char>,
    pub is_dir: bool,
    pub contents: Option<Seq<u8>>,
}

pub open spec fn bytes_opt(v: Option<Vec<u8>>) -> Option<Seq<u8>> {
    match v {
        Some(b) => Some(b@),
        None => None,
    }
}

impl View for ArchiveEntry {
    type V = EntryView;

    open spec fn view(&self) -> EntryView {
        EntryView {
            name: self.name@,
            is_dir: self.is_dir,
            contents: bytes_opt(self.contents),
        }
    }
}

/// The entry at `index` of the archive in `bytes`, where it can be read.
pub open spec fn entry_at(bytes: Seq<u8>, index: usize) -> Option<EntryView> {
    match archive_entry(bytes, index) {
        Some(e) => Some(
            EntryView {
                name: e.0,
                is_dir: e.1,
                contents: if e.1 {
                    None
                } else {
                    archive_contents(bytes, index)
                },
            },
        ),
        None => None,
    }
}

/// The entries of the archive in `bytes`, each where it can be read.
pub open spec fn entries_of(bytes: Seq<u8>) -> Option<Seq<Option<EntryView>>> {
    match archive_len(bytes) {
        Some(n) => Some(Seq::new(n as nat, |i: int| entry_at(bytes, i as usize))),
        None => None,
    }
}

pub open spec fn entry_views(v: Seq<Option<ArchiveEntry>>) -> Seq<Option<EntryView>> {
    v.map_values(
        |e: Option<ArchiveEntry>|
            match e {
                Some(entry) => Some(entry@),
                None => None,
            },
    )
}

/// The entries of the archive in `bytes`, each where it can be read.
pub fn read_archive(bytes: &[u8]) -> (r: Option<Vec<Option<ArchiveEntry>>>)
    ensures
        match r {
            Some(v) => entries_of(bytes@) == Some(entry_views(v@)),
            None => entries_of(bytes@) is None,
        },
{
    let n: usize = match zip_len(bytes) {
        Some(n) => n,
        None => {
            return None;
        },
    };
    let mut out: Vec<Option<ArchiveEntry>> = Vec::new();
    let mut i: usize = 0;
    while i < n
        invariant
            i <= n,
            out@.len() == i,
            forall|k: int|
                0 <= k < i ==> #[trigger] entry_views(out@)[k] == entry_at(bytes@, k as usize),
        decreases n - i,
    {
        let ghost before = out@;
        let entry = match zip_entry(bytes, i) {
            Some(e) => {
                let contents = if e.1 {
                    None
                } else {
                    zip_contents(bytes, i)
                };
                Some(ArchiveEntry { name: e.0, is_dir: e.1, contents })
            },
            None => None,
        };
        out.push(entry);
        proof {
            assert forall|k: int| 0 <= k < i + 1 implies #[trigger] entry_views(out@)[k]
                == entry_at(bytes@, k as usize) by {
                if k < i {
                    assert(entry_views(out@)[k] == entry_views(before)[k]);
                }
            }
        }
        i += 1;
    }
    proof {
        assert(entries_of(bytes@)->0 =~= entry_views(out@));
    }
    Some(out)
}

/// How deep the first `n` parts of a path lead, unless they lead to the root or
/// above where they began.
pub open spec fn depth_after(parts: Seq<paths::PartView>, n: nat) -> Option<nat>
    decreases n,
{
    if n == 0 {
        Some(0)
    } else {
        match depth_after(parts, (n - 1) as nat) {
            None => None,
            Some(depth) => match parts[n - 1] {
                paths::PartView::Root => None,
                paths::PartView::Here => Some(depth),
                paths::PartView::Up => if depth == 0 {
                    None
                } else {
                    Some((depth - 1) as nat)
                },
                paths::PartView::Name(_) => Some(depth + 1),
            },
        }
    }
}

/// Whether the name of an entry leads nowhere outside of the archive.
pub open spec fn stays_inside(name: Seq<char>) -> bool {
    let parts = paths::parts_of(name);
    !name.contains('\0') && depth_after(parts, parts.len()) is Some
}

fn contains_nul(name: &str) -> (r: bool)
    ensures
        r == name@.contains('\0'),
{
    let chars = chars_of(name);
    let mut i: usize = 0;
    while i < chars.len()
        invariant
            chars@ == name@,
            i <= chars@.len(),
            forall|k: int| 0 <= k < i ==> #[trigger] chars@[k] != '\0',
        decreases chars@.len() - i,
    {
        if chars[i] == '\0' {
            proof {
                assert(name@[i as int] == '\0');
            }
            return true;
        }
        i += 1;
    }
    false
}

proof fn lemma_depth_is_lost(parts: Seq<paths::PartView>, n: nat, m: nat)
    requires
        depth_after(parts, n) is None,
        n <= m,
    ensures
        depth_after(parts, m) is None,
    decreases m,
{
    if n < m {
        lemma_depth_is_lost(parts, n, (m - 1) as nat);
    }
}

/// Whether the name of an entry leads nowhere outside of the archive.
pub fn is_enclosed(name: &str) -> (r: bool)
    ensures
        r == stays_inside(name@),
{
    if contains_nul(name) {
        return false;
    }
    let parts = path_parts(name);
    let ghost views = paths::parts_of(name@);
    proof {
        assert(paths::part_views(parts@).len() == parts@.len());
    }
    let mut depth: usize = 0;
    let mut i: usize = 0;
    while i < parts.len()
        invariant
            i <= parts@.len(),
            parts@.len() == views.len(),
            views == paths::part_views(parts@),
            views == paths::parts_of(name@),
            depth <= i,
            depth_after(views, i as nat) == Some(depth as nat),
        decreases parts@.len() - i,
    {
        proof {
            assert(views[i as int] == parts@[i as int]@);
        }
        match &parts[i] {
            Part::Root => {
                proof {
                    assert(depth_after(views, (i + 1) as nat) is None);
                    lemma_depth_is_lost(views, (i + 1) as nat, views.len());
                }
                return false;
            },
            Part::Here => {},
            Part::Up => {
                if depth == 0 {
                    proof {
                        assert(depth_after(views, (i + 1) as nat) is None);
                        lemma_depth_is_lost(views, (i + 1) as nat, views.len());
                    }
                    return false;
                }
                depth -= 1;
            },
            Part::Name(_) => {
                depth += 1;
            },
        }
        i += 1;
    }
    true
}

/// Where an entry goes, if it is extracted at all.
pub open spec fn target_of(name: Seq<char>) -> Option<Seq<char>> {
    if stays_inside(name) {
        paths::archive_target(name)
    } else {
        None
    }
}

/// What is made of an entry: a file with its contents, or a directory.
#[derive(Debug)]
pub struct Extraction {
    pub path: String,
    pub contents: Option<Vec<u8>>,
}

pub open spec fn extraction_views(v: Seq<Extraction>) -> Seq<(Seq<char>, Option<Seq<u8>>)> {
    v.map_values(|e: Extraction| (e.path@, bytes_opt(e.contents)))
}

/// Why nothing is made of an archive. Entries are told by their place.
#[derive(Debug, Clone, Copy, PartialEq, Eq, Structural)]
pub enum ArchiveError {
    Invalid,
    Entry(usize),
    Contents(usize),
    Empty,
}

pub open spec fn archive_error_text(e: ArchiveError) -> Seq<char> {
    match e {
        ArchiveError::Invalid => "invalid dist.zip archive"@,
        ArchiveError::Entry(i) => "failed to read zip entry #"@ + decimal::decimal(i as nat),
        ArchiveError::Contents(i) => "failed to extract zip entry #"@ + decimal::decimal(i as nat),
        ArchiveError::Empty => "dist.zip did not contain any extractable files"@,
    }
}

impl ArchiveError {
    /// What is told of it.
    pub fn message(self) -> (r: String)
        ensures
            r@ == archive_error_text(self),
    {
        match self {
            ArchiveError::Invalid => "invalid dist.zip archive".to_owned(),
            ArchiveError::Entry(i) => {
                let mut m = "failed to read zip entry #".to_owned();
                m.append(to_decimal(i as u64).as_str());
                m
            },
            ArchiveError::Contents(i) => {
                let mut m = "failed to extract zip entry #".to_owned();
                m.append(to_decimal(i as u64).as_str());
                m
            },
            ArchiveError::Empty => "dist.zip did not contain any extractable files".to_owned(),
        }
    }
}

/// What is made of the first `n` entries, or what stops it first.
pub open spec fn extracted(entries: Seq<Option<EntryView>>, n: nat) -> Result<
    Seq<(Seq<char>, Option<Seq<u8>>)>,
    ArchiveError,
>
    decreases n,
{
    if n == 0 {
        Ok(seq![])
    } else {
        match extracted(entries, (n - 1) as nat) {
            Err(e) => Err(e),
            Ok(before) => match entries[n - 1] {
                None => Err(ArchiveError::Entry((n - 1) as usize)),
                Some(entry) => match target_of(entry.name) {
                    None => Ok(before),
                    Some(path) => if entry.is_dir {
                        Ok(before.push((path, None)))
                    } else {
                        match entry.contents {
                            Some(bytes) => Ok(before.push((path, Some(bytes)))),
                            None => Err(ArchiveError::Contents((n - 1) as usize)),
                        }
                    },
                },
            },
        }
    }
}

/// Whether a file is among what is made.
pub open spec fn has_file(v: Seq<(Seq<char>, Option<Seq<u8>>)>) -> bool {
    exists|i: int| 0 <= i < v.len() && (#[trigger] v[i]).1 is Some
}

/// What is made of all entries. An archive without a file is refused.
pub open spec fn made_of(entries: Seq<Option<EntryView>>) -> Result<
    Seq<(Seq<char>, Option<Seq<u8>>)>,
    ArchiveError,
> {
    match extracted(entries, entries.len()) {
        Ok(v) => if has_file(v) {
            Ok(v)
        } else {
            Err(ArchiveError::Empty)
        },
        Err(e) => Err(e),
    }
}

proof fn lemma_extraction_stops(entries: Seq<Option<EntryView>>, n: nat, m: nat)
    requires
        extracted(entries, n) is Err,
        n <= m,
    ensures
        extracted(entries, m) == extracted(entries, n),
    decreases m,
{
    if n < m {
        lemma_extraction_stops(entries, n, (m - 1) as nat);
    }
}

/// What is made of the entries of an archive.
pub fn extract_entries(entries: Vec<Option<ArchiveEntry>>) -> (r: Result<
    Vec<Extraction>,
    ArchiveError,
>)
    ensures
        match r {
            Ok(v) => made_of(entry_views(entries@)) == Ok::<_, ArchiveError>(
                extraction_views(v@),
            ),
            Err(e) => made_of(entry_views(entries@)) == Err::<
                Seq<(Seq<char>, Option<Seq<u8>>)>,
                ArchiveError,
            >(e),
        },
{
    let ghost all = entry_views(entries@);
    let mut out: Vec<Extraction> = Vec::new();
    let mut files = false;
    let len: usize = entries.len();
    let mut i: usize = 0;
    proof {
        assert(extraction_views(out@) =~= seq![]);
    }
    for entry in it: entries
        invariant
            it.seq() == entries@,
            all == entry_views(entries@),
            i == it.index(),
            i <= len == entries@.len(),
            extracted(all, i as nat) == Ok::<_, ArchiveError>(extraction_views(out@)),
            files == has_file(extraction_views(out@)),
    {
        let ghost before = extraction_views(out@);
        proof {
            assert(all[i as int] == match entry {
                Some(e) => Some(e@),
                None => None,
            });
        }
        let entry = match entry {
            Some(e) => e,
            None => {
                proof {
                    lemma_extraction_stops(all, (i + 1) as nat, all.len());
                }
                return Err(ArchiveError::Entry(i));
            },
        };
        let target = if is_enclosed(entry.name.as_str()) {
            archive_output_path(entry.name.as_str())
        } else {
            None
        };
        if let Some(path) = target {
            let contents = if entry.is_dir {
                None
            } else {
                match entry.contents {
                    Some(bytes) => Some(bytes),
                    None => {
                        proof {
                            lemma_extraction_stops(all, (i + 1) as nat, all.len());
                        }
                        return Err(ArchiveError::Contents(i));
                    },
                }
            };
            let made = Extraction { path, contents };
            if made.contents.is_some() {
                files = true;
            }
            let ghost pair = (made.path@, bytes_opt(made.contents));
            out.push(made);
            proof {
                let after = extraction_views(out@);
                assert(after =~= before.push(pair));
                if has_file(before) {
                    let k = choose|k: int| 0 <= k < before.len() && (#[trigger] before[k]).1
                        is Some;
                    assert(after[k].1 is Some);
                }
                if pair.1 is Some {
                    assert(after[before.len() as int].1 is Some);
                }
                if has_file(after) {
                    let k = choose|k: int| 0 <= k < after.len() && (#[trigger] after[k]).1 is Some;
                    if k < before.len() {
                        assert(before[k].1 is Some);
                    }
                }
            }
        }
        i += 1;
    }
    if files {
        Ok(out)
    } else {
        Err(ArchiveError::Empty)
    }
}

/// What is made of the archive in `bytes`.
pub fn extract_dist_zip(bytes: &[u8]) -> (r: Result<Vec<Extraction>, ArchiveError>)
    ensures
        match entries_of(bytes@) {
            Some(entries) => match r {
                Ok(v) => made_of(entries) == Ok::<_, ArchiveError>(extraction_views(v@)),
                Err(e) => made_of(entries) == Err::<
                    Seq<(Seq<char>, Option<Seq<u8>>)>,
                    ArchiveError,
                >(e),
            },
            None => r is Err && r->Err_0 == ArchiveError::Invalid,
        },
{
    match read_archive(bytes) {
        Some(entries) => extract_entries(entries),
        None => Err(ArchiveError::Invalid),
    }
}

proof fn lemma_extracted_below(entries: Seq<Option<EntryView>>, n: nat, i: int)
    requires
        n <= entries.len(),
        extracted(entries, n) is Ok,
        0 <= i < (extracted(entries, n)->Ok_0).len(),
    ensures
        exists|names: Seq<Seq<char>>|
            (extracted(entries, n)->Ok_0)[i].0 == #[trigger] search::joined(names, "/"@)
                && names.len() > 0 && forall|k: int|
                0 <= k < names.len() ==> paths::is_name(#[trigger] names[k]),
    decreases n,
{
    let before = extracted(entries, (n - 1) as nat)->Ok_0;
    if i < before.len() {
        lemma_extracted_below(entries, (n - 1) as nat, i);
    } else {
        paths::archives_never_go_up((entries[n - 1]->0).name);
    }
}

/// Whatever an archive holds, all that is made of it goes below the directory
/// that it is meant for: each path is a way of plain names, joined.
pub proof fn extractions_stay_below(entries: Seq<Option<EntryView>>, i: int)
    requires
        made_of(entries) is Ok,
        0 <= i < (made_of(entries)->Ok_0).len(),
    ensures
        exists|names: Seq<Seq<char>>|
            (made_of(entries)->Ok_0)[i].0 == #[trigger] search::joined(names, "/"@) && names.len()
                > 0 && forall|k: int|
                0 <= k < names.len() ==> paths::is_name(#[trigger] names[k]),
{
    lemma_extracted_below(entries, entries.len(), i);
}

proof fn lemma_depth_of_names(names: Seq<Seq<char>>, n: nat)
    requires
        n <= names.len(),
    ensures
        depth_after(names.map_values(|s: Seq<char>| paths::PartView::Name(s)), n) == Some(n),
    decreases n,
{
    if n > 0 {
        lemma_depth_of_names(names, (n - 1) as nat);
    }
}

/// An entry whose name is made of plain names stays inside; one that is rooted, or that
/// goes up more often than it went down, does not, nor one with a NUL.
pub proof fn plain_names_stay_inside(names: Seq<Seq<char>>, name: Seq<char>)
    requires
        names.len() > 0,
        forall|i: int| 0 <= i < names.len() ==> paths::is_name(#[trigger] names[i]),
        !search::joined(names, "/"@).contains('\0'),
    ensures
        stays_inside(search::joined(names, "/"@)),
        name.len() > 0 && name[0] == '/' ==> !stays_inside(name),
        paths::parts_of(name).len() > 0 && paths::parts_of(name)[0] == paths::PartView::Up
            ==> !stays_inside(name),
        name.contains('\0') ==> !stays_inside(name),
{
    paths::joined_names_are_parts(names);
    lemma_depth_of_names(names, names.len());
    let parts = paths::parts_of(name);
    if parts.len() > 0 && (parts[0] == paths::PartView::Up || parts[0]
        == paths::PartView::Root) {
        assert(depth_after(parts, 0) == Some(0nat));
        assert(depth_after(parts, 1) is None);
        lemma_depth_is_lost(parts, 1, parts.len());
    }
    if name.len() > 0 && name[0] == '/' {
        assert(parts[0] == paths::PartView::Root);
    }
}

/// Going down into a directory and up again leads where one was.
pub proof fn going_up_undoes_going_down(parts: Seq<paths::PartView>, n: nat, name: Seq<char>)
    requires
        n + 2 <= parts.len(),
        parts[n as int] == paths::PartView::Name(name),
        parts[n as int + 1] == paths::PartView::Up,
    ensures
        depth_after(parts, n + 2) == depth_after(parts, n),
{
    assert(depth_after(parts, n + 1) == match depth_after(parts, n) {
        Some(d) => Some(d + 1),
        None => None,
    });
}

/// Of entries that can all be read, those are made that stay inside and have a name left,
/// in their order: files with their contents, directories without.
pub proof fn readable_entries_are_extracted(entries: Seq<Option<EntryView>>, n: nat)
    requires
        n <= entries.len(),
        forall|i: int|
            0 <= i < entries.len() ==> (#[trigger] entries[i] matches Some(e) && (e.is_dir
                || e.contents is Some)),
    ensures
        extracted(entries, n) == Ok::<Seq<(Seq<char>, Option<Seq<u8>>)>, ArchiveError>(
            entries.take(n as int).filter(
                |e: Option<EntryView>| target_of((e->0).name) is Some,
            ).map_values(
                |e: Option<EntryView>|
                    (
                        target_of((e->0).name)->0,
                        if (e->0).is_dir {
                            None
                        } else {
                            (e->0).contents
                        },
                    ),
            ),
        ),
    decreases n,
{
    reveal(Seq::filter);
    let kept = entries.take(n as int).filter(
        |e: Option<EntryView>| target_of((e->0).name) is Some,
    ).map_values(
        |e: Option<EntryView>|
            (
                target_of((e->0).name)->0,
                if (e->0).is_dir {
                    None
                } else {
                    (e->0).contents
                },
            ),
    );
    if n > 0 {
        readable_entries_are_extracted(entries, (n - 1) as nat);
        assert(entries.take(n as int).drop_last() =~= entries.take(n - 1));
        assert(entries.take(n as int).last() == entries[n - 1]);
        assert(entries[n - 1] is Some);
        assert(extracted(entries, n)->Ok_0 =~= kept);
    } else {
        assert(extracted(entries, n)->Ok_0 =~= kept);
    }
}

/// An archive is refused where an entry cannot be read, or a file that would be made
/// cannot, at the first such entry; and where it has no file at all.
pub proof fn unreadable_archives_are_refused(entries: Seq<Option<EntryView>>, at: nat)
    requires
        at < entries.len(),
        extracted(entries, at) is Ok,
    ensures
        entries[at as int] is None ==> made_of(entries) == Err::<
            Seq<(Seq<char>, Option<Seq<u8>>)>,
            ArchiveError,
        >(ArchiveError::Entry(at as usize)),
        entries[at as int] matches Some(e) ==> (!e.is_dir && e.contents is None && target_of(
            e.name,
        ) is Some ==> made_of(entries) == Err::<Seq<(Seq<char>, Option<Seq<u8>>)>, ArchiveError>(
            ArchiveError::Contents(at as usize),
        )),
        made_of(entries) matches Ok(v) ==> has_file(v),
{
    if extracted(entries, at + 1) is Err {
        lemma_extraction_stops(entries, at + 1, entries.len());
    }
}

} // verus!
