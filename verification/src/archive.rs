//! Selective extraction: which entries of a downloaded archive are managed
//! assets, under which file name each one is installed, and what it holds.
//!
//! Entry names are read as `/`-separated paths. An entry is a managed asset
//! when the extension of its base name is the marker extension; it is
//! installed under its base name alone, so that directories inside the
//! archive leave no trace. Two entries with one base name therefore share a
//! destination, and the one that comes later in the archive overwrites the
//! earlier one. An entry whose name cannot be decoded is passed over, as is
//! one whose name has no base name.

use crate::error::SyncError;
use crate::github::{is_success, opt_text, status_is_success};
use crate::text::{
    chars_of, find_last, last_index, lemma_split_pieces_clean, same_text, split, split_on, texts,
};
use std::io::{Cursor, Read};
use vstd::prelude::*;
use vstd::string::*;
use zip::result::ZipError;
use zip::ZipArchive;

verus! {

/// The archive reader of `zip`, opaque here.
#[verifier::external_type_specification]
#[verifier::external_body]
#[verifier::reject_recursive_types(R)]
pub struct ExZipArchive<R>(ZipArchive<R>);

/// The in-memory reader of the standard library, opaque here.
#[verifier::external_type_specification]
#[verifier::external_body]
#[verifier::reject_recursive_types(T)]
pub struct ExCursor<T>(Cursor<T>);

/// The error type of `zip`, opaque here.
#[verifier::external_type_specification]
#[verifier::external_body]
pub struct ExZipError(ZipError);

/// The bytes that an open archive reads from.
pub uninterp spec fn archive_source(archive: ZipArchive<Cursor<Vec<u8>>>) -> Seq<u8>;

/// Whether `ZipArchive::new` accepts `bytes` as an archive.
pub uninterp spec fn archive_opens(bytes: Seq<u8>) -> bool;

/// What `ZipArchive::file_names` lists for the archive in `bytes`, in the
/// order of its central directory: for each entry its name, or `None` where
/// the name cannot be decoded.
pub uninterp spec fn archive_names(bytes: Seq<u8>) -> Seq<Option<Seq<char>>>;

/// What the entry `name` of the archive in `bytes` holds once it is
/// decompressed, as `ZipArchive::by_name` finds it and reading it to its end
/// yields it; `None` where either step reports an error.
pub uninterp spec fn archive_entry(bytes: Seq<u8>, name: Seq<char>) -> Option<Seq<u8>>;

/// Calls `ZipArchive::new` on an in-memory reader over `bytes`. Claims only
/// that the archive, where one comes back, reads from these bytes; whether
/// one comes back is given its name.
#[verifier::external_body]
fn open_archive(bytes: Vec<u8>) -> (r: Result<ZipArchive<Cursor<Vec<u8>>>, ZipError>)
    ensures
        r is Ok == archive_opens(bytes@),
        r matches Ok(archive) ==> archive_source(archive) == bytes@,
{
    ZipArchive::new(Cursor::new(bytes))
}

/// Calls `ZipArchive::file_names` and gathers what it yields, entry by
/// entry: the name, or `None` where it reports that the name cannot be
/// decoded. The list is given its name.
#[verifier::external_body]
fn list_names(archive: &ZipArchive<Cursor<Vec<u8>>>) -> (r: Vec<Option<String>>)
    ensures
        opt_texts(r@) == archive_names(archive_source(*archive)),
{
    archive.file_names().map(|name| name.ok().map(|text| text.into_owned())).collect()
}

/// Calls `ZipArchive::by_name` and reads the entry to its end. Claims that
/// the archive still reads from the same bytes; the entry's content is given
/// its name.
#[verifier::external_body]
fn read_entry(archive: &mut ZipArchive<Cursor<Vec<u8>>>, name: &str) -> (r: Result<
    Vec<u8>,
    ZipError,
>)
    ensures
        archive_source(*final(archive)) == archive_source(*old(archive)),
        match r {
            Ok(data) => archive_entry(archive_source(*old(archive)), name@) == Some(data@),
            Err(_) => archive_entry(archive_source(*old(archive)), name@) is None,
        },
{
    let mut entry = archive.by_name(name)?;
    let mut data: Vec<u8> = Vec::new();
    entry.read_to_end(&mut data)?;
    Ok(data)
}

/// The views of a sequence of optional strings.
pub open spec fn opt_texts(v: Seq<Option<String>>) -> Seq<Option<Seq<char>>> {
    Seq::new(v.len(), |i: int| opt_text(v[i]))
}

/// The extension that marks an entry as a managed asset.
pub open spec fn marker_extension() -> Seq<char> {
    "filter"@
}

/// A piece of a path that names something: neither empty nor `.`.
pub open spec fn is_component(piece: Seq<char>) -> bool {
    piece.len() > 0 && piece != seq!['.']
}

/// The last of the pieces that names something, if any does.
pub open spec fn last_component(pieces: Seq<Seq<char>>) -> Option<Seq<char>>
    decreases pieces.len(),
{
    if pieces.len() == 0 {
        None
    } else if is_component(pieces.last()) {
        Some(pieces.last())
    } else {
        last_component(pieces.drop_last())
    }
}

/// The base name of an entry: the last piece between `/` that is neither
/// empty nor `.`, unless that piece is `..` or there is none.
pub open spec fn base_name(name: Seq<char>) -> Option<Seq<char>> {
    match last_component(split_on(name, '/')) {
        Some(piece) => if piece == seq!['.', '.'] {
            None
        } else {
            Some(piece)
        },
        None => None,
    }
}

/// The extension of a file name: what follows its last `.`, unless it has no
/// `.` or its only `.` comes first.
pub open spec fn file_extension(file: Seq<char>) -> Option<Seq<char>> {
    if file.contains('.') && last_index(file, '.') > 0 {
        Some(file.subrange(last_index(file, '.') + 1, file.len() as int))
    } else {
        None
    }
}

/// The extension of an entry: that of its base name.
pub open spec fn extension(name: Seq<char>) -> Option<Seq<char>> {
    match base_name(name) {
        Some(file) => file_extension(file),
        None => None,
    }
}

/// Whether an entry is a managed asset.
pub open spec fn is_managed(name: Seq<char>) -> bool {
    extension(name) == Some(marker_extension())
}

/// The file name under which an entry is installed: its base name if it is a
/// managed asset, else none.
pub open spec fn destination(name: Seq<char>) -> Option<Seq<char>> {
    if is_managed(name) {
        base_name(name)
    } else {
        None
    }
}

/// What the last component is, is one of the pieces.
pub proof fn lemma_last_component_is_piece(pieces: Seq<Seq<char>>)
    ensures
        last_component(pieces) matches Some(c) ==> is_component(c) && pieces.contains(c),
    decreases pieces.len(),
{
    if pieces.len() > 0 {
        if is_component(pieces.last()) {
            assert(pieces[pieces.len() - 1] == pieces.last());
        } else {
            lemma_last_component_is_piece(pieces.drop_last());
            if let Some(c) = last_component(pieces.drop_last()) {
                let i = choose|i: int|
                    0 <= i < pieces.drop_last().len() && pieces.drop_last()[i] == c;
                assert(pieces[i] == c);
            }
        }
    }
}

/// A base name names a file in a single directory: it is not empty, holds no
/// `/`, and is neither `.` nor `..`.
pub proof fn lemma_base_name_is_plain(name: Seq<char>)
    ensures
        base_name(name) matches Some(file) ==> file.len() > 0 && !file.contains('/') && file
            != seq!['.'] && file != seq!['.', '.'],
{
    let pieces = split_on(name, '/');
    lemma_last_component_is_piece(pieces);
    lemma_split_pieces_clean(name, '/');
    if let Some(file) = base_name(name) {
        let i = choose|i: int| 0 <= i < pieces.len() && pieces[i] == file;
        assert(!split_on(name, '/')[i].contains('/'));
    }
}

/// The base name of an entry name.
pub fn entry_base_name(name: &str) -> (r: Option<String>)
    ensures
        opt_text(r) == base_name(name@),
{
    let pieces: Vec<String> = split(name, '/');
    let ghost all = texts(pieces@);
    let mut i: usize = pieces.len();
    assert(all.subrange(0, i as int) =~= all);
    while i > 0
        invariant
            i <= pieces@.len(),
            all == texts(pieces@),
            all == split_on(name@, '/'),
            last_component(all) == last_component(all.subrange(0, i as int)),
        decreases i,
    {
        let ghost front = all.subrange(0, i as int);
        i = i - 1;
        let piece: &String = &pieces[i];
        proof {
            reveal_strlit(".");
            reveal_strlit("..");
            assert(front.last() == piece@);
            assert(front.drop_last() =~= all.subrange(0, i as int));
            assert("."@ =~= seq!['.']);
            assert(".."@ =~= seq!['.', '.']);
        }
        let empty: bool = piece.as_str().unicode_len() == 0;
        if !empty && !same_text(piece.as_str(), ".") {
            if same_text(piece.as_str(), "..") {
                return None;
            }
            return Some(piece.clone());
        }
    }
    assert(all.subrange(0, 0) =~= Seq::<Seq<char>>::empty());
    None
}

/// The extension of a file name.
pub fn file_name_extension(file: &str) -> (r: Option<String>)
    ensures
        opt_text(r) == file_extension(file@),
{
    let chars = chars_of(file);
    let n: usize = chars.len();
    match find_last(&chars, '.') {
        Some(i) => if i > 0 {
            Some(file.substring_char(i + 1, n).to_owned())
        } else {
            None
        },
        None => None,
    }
}

/// The extension of an entry name.
pub fn entry_extension(name: &str) -> (r: Option<String>)
    ensures
        opt_text(r) == extension(name@),
{
    match entry_base_name(name) {
        Some(file) => file_name_extension(file.as_str()),
        None => None,
    }
}

/// The file name under which an entry is installed, if it is a managed asset.
/// It names a file in the target directory itself: it is not empty, holds no
/// `/`, and is neither `.` nor `..`.
pub fn entry_destination(name: &str) -> (r: Option<String>)
    ensures
        opt_text(r) == destination(name@),
        r is Some == is_managed(name@),
        r matches Some(file) ==> file@.len() > 0 && !file@.contains('/') && file@ != seq!['.']
            && file@ != seq!['.', '.'],
{
    proof {
        lemma_base_name_is_plain(name@);
    }
    match entry_base_name(name) {
        Some(file) => match file_name_extension(file.as_str()) {
            Some(found) => if same_text(found.as_str(), "filter") {
                Some(file)
            } else {
                None
            },
            None => None,
        },
        None => None,
    }
}

/// One file to install: its name inside the target directory and its content.
#[derive(Clone, Debug)]
pub struct Asset {
    pub name: String,
    pub data: Vec<u8>,
}

/// The mathematical value of an [`Asset`].
pub struct AssetView {
    pub name: Seq<char>,
    pub data: Seq<u8>,
}

impl View for Asset {
    type V = AssetView;

    open spec fn view(&self) -> AssetView {
        AssetView { name: self.name@, data: self.data@ }
    }
}

/// The views of a sequence of assets.
pub open spec fn asset_views(v: Seq<Asset>) -> Seq<AssetView> {
    Seq::new(v.len(), |i: int| v[i]@)
}

/// The file name under which a listed entry is installed: the destination
/// of its name, or none where it has no name.
pub open spec fn listed_destination(entry: Option<Seq<char>>) -> Option<Seq<char>> {
    match entry {
        Some(name) => destination(name),
        None => None,
    }
}

/// Whether a listed entry is a managed asset: it has a name, and that name
/// is one of a managed asset.
pub open spec fn listed_managed(entry: Option<Seq<char>>) -> bool {
    listed_destination(entry) is Some
}

/// How many of the listed entries have no name.
pub open spec fn unnamed(names: Seq<Option<Seq<char>>>) -> nat
    decreases names.len(),
{
    if names.len() == 0 {
        0
    } else if names.last() is None {
        unnamed(names.drop_last()) + 1
    } else {
        unnamed(names.drop_last())
    }
}

/// The position of the first managed asset among `names` at or after `from`.
pub open spec fn next_managed(names: Seq<Option<Seq<char>>>, from: nat) -> Option<nat>
    decreases names.len() - from,
{
    if from >= names.len() {
        None
    } else if listed_managed(names[from as int]) {
        Some(from)
    } else {
        next_managed(names, from + 1)
    }
}

/// The files to install for the listed entries `names` of the archive in
/// `bytes`, in the order of the entries: one for each managed asset, under
/// its destination. An entry without a name adds nothing. `None` where a
/// managed asset cannot be read.
pub open spec fn assets_of(bytes: Seq<u8>, names: Seq<Option<Seq<char>>>) -> Option<
    Seq<AssetView>,
>
    decreases names.len(),
{
    if names.len() == 0 {
        Some(Seq::empty())
    } else {
        match assets_of(bytes, names.drop_last()) {
            None => None,
            Some(before) => match listed_destination(names.last()) {
                None => Some(before),
                Some(file) => match archive_entry(bytes, names.last().unwrap()) {
                    None => None,
                    Some(data) => Some(before.push(AssetView { name: file, data })),
                },
            },
        }
    }
}

/// The files to install from the archive in `bytes`; `None` where the bytes
/// are no archive or a managed asset cannot be read.
pub open spec fn extracted(bytes: Seq<u8>) -> Option<Seq<AssetView>> {
    if archive_opens(bytes) {
        assets_of(bytes, archive_names(bytes))
    } else {
        None
    }
}

/// What [`next_managed`] finds is the first managed asset from `from` on.
pub proof fn lemma_next_managed(names: Seq<Option<Seq<char>>>, from: nat)
    ensures
        match next_managed(names, from) {
            Some(k) => from <= k < names.len() && listed_managed(names[k as int]) && forall|
                j: int,
            |
                from <= j < k ==> !listed_managed(#[trigger] names[j]),
            None => forall|j: int|
                from <= j < names.len() ==> !listed_managed(#[trigger] names[j]),
        },
    decreases names.len() - from,
{
    if from < names.len() && !listed_managed(names[from as int]) {
        lemma_next_managed(names, from + 1);
    }
}

/// Entries that are no managed assets add nothing to the files to install.
pub proof fn lemma_assets_skip(bytes: Seq<u8>, names: Seq<Option<Seq<char>>>, a: int, b: int)
    requires
        0 <= a <= b <= names.len(),
        forall|j: int| a <= j < b ==> !listed_managed(#[trigger] names[j]),
    ensures
        assets_of(bytes, names.subrange(0, b)) == assets_of(bytes, names.subrange(0, a)),
    decreases b - a,
{
    if a < b {
        lemma_assets_skip(bytes, names, a, b - 1);
        assert(names.subrange(0, b).drop_last() =~= names.subrange(0, b - 1));
        assert(names.subrange(0, b).last() == names[b - 1]);
        assert(!listed_managed(names[b - 1]));
    }
}

/// A managed asset that cannot be read spoils every longer list of entries.
pub proof fn lemma_assets_fail(bytes: Seq<u8>, names: Seq<Option<Seq<char>>>, k: int)
    requires
        0 <= k <= names.len(),
        assets_of(bytes, names.subrange(0, k)) is None,
    ensures
        assets_of(bytes, names) is None,
    decreases names.len() - k,
{
    if k < names.len() {
        assert(names.subrange(0, k + 1).drop_last() =~= names.subrange(0, k));
        lemma_assets_fail(bytes, names, k + 1);
    } else {
        assert(names.subrange(0, k) =~= names);
    }
}

/// An open archive, read one managed asset at a time.
pub struct Installer {
    archive: ZipArchive<Cursor<Vec<u8>>>,
    names: Vec<Option<String>>,
    cursor: usize,
}

impl Installer {
    /// The bytes of the archive.
    pub closed spec fn source(&self) -> Seq<u8> {
        archive_source(self.archive)
    }

    /// What the archive lists, in its own order: for each entry its name,
    /// or `None` where the name cannot be decoded.
    pub closed spec fn names(&self) -> Seq<Option<Seq<char>>> {
        opt_texts(self.names@)
    }

    /// How many entries have been passed.
    pub closed spec fn position(&self) -> nat {
        self.cursor as nat
    }

    /// Opens the archive in `bytes` and lists its entries, once and up front.
    /// Fails with an archive error exactly where the bytes are no archive. A
    /// name that cannot be decoded is no failure: its entry is listed without
    /// a name and passed over later.
    pub fn open(bytes: Vec<u8>) -> (r: Result<Installer, SyncError>)
        ensures
            match r {
                Ok(installer) => archive_opens(bytes@) && archive_names(bytes@)
                    == installer.names() && installer.source() == bytes@ && installer.position()
                    == 0,
                Err(e) => e == SyncError::Archive && !archive_opens(bytes@),
            },
    {
        let archive = match open_archive(bytes) {
            Ok(archive) => archive,
            Err(_) => {
                return Err(SyncError::Archive);
            },
        };
        let names: Vec<Option<String>> = list_names(&archive);
        Ok(Installer { archive, names, cursor: 0 })
    }

    /// Takes in a download: a status outside the success range is a request
    /// error with that status, whatever came with it; else the bytes are
    /// opened as an archive.
    pub fn receive(status: u16, bytes: Vec<u8>) -> (r: Result<Installer, SyncError>)
        ensures
            match r {
                Ok(installer) => is_success(status) && archive_opens(bytes@) && archive_names(
                    bytes@,
                ) == installer.names() && installer.source() == bytes@ && installer.position()
                    == 0,
                Err(e) => if !is_success(status) {
                    e == (SyncError::RemoteRequest { status })
                } else {
                    e == SyncError::Archive && !archive_opens(bytes@)
                },
            },
    {
        if !status_is_success(status) {
            return Err(SyncError::RemoteRequest { status });
        }
        Installer::open(bytes)
    }

    /// The number of entries in the archive, managed or not.
    pub fn entry_count(&self) -> (n: usize)
        ensures
            n == self.names().len(),
    {
        self.names.len()
    }

    /// The number of entries whose name cannot be decoded. None of them is
    /// ever handed out.
    pub fn unnamed_entries(&self) -> (n: usize)
        ensures
            n == unnamed(self.names()),
    {
        let count: usize = self.names.len();
        let ghost all = self.names();
        let mut n: usize = 0;
        let mut i: usize = 0;
        assert(all.subrange(0, 0) =~= Seq::<Option<Seq<char>>>::empty());
        while i < count
            invariant
                count == self.names@.len(),
                all == self.names(),
                i <= count,
                n <= i,
                n == unnamed(all.subrange(0, i as int)),
            decreases count - i,
        {
            proof {
                assert(all.subrange(0, i as int + 1).drop_last() =~= all.subrange(0, i as int));
                assert(all.subrange(0, i as int + 1).last() == opt_text(self.names@[i as int]));
            }
            if self.names[i].is_none() {
                n = n + 1;
            }
            i = i + 1;
        }
        assert(all.subrange(0, count as int) =~= all);
        n
    }

    /// Reads the next managed asset: entries that are none, and entries
    /// without a name, are passed over; the first that is one is read in full
    /// and handed out under its destination. `Ok(None)` when no managed asset
    /// is left; an archive error where the asset cannot be read, and then the
    /// asset counts as passed.
    pub fn next_asset(&mut self) -> (r: Result<Option<Asset>, SyncError>)
        ensures
            final(self).source() == old(self).source(),
            final(self).names() == old(self).names(),
            match next_managed(old(self).names(), old(self).position()) {
                None => r matches Ok(None) && final(self).position() >= old(self).names().len(),
                Some(k) => final(self).position() == k + 1 && old(self).names()[k as int]
                    is Some && match archive_entry(
                    old(self).source(),
                    old(self).names()[k as int].unwrap(),
                ) {
                    Some(data) => r matches Ok(Some(asset)) && Some(asset@.name)
                        == listed_destination(old(self).names()[k as int]) && asset@.data
                        == data,
                    None => r matches Err(e) && e == SyncError::Archive,
                },
            },
    {
        let n: usize = self.names.len();
        let mut i: usize = self.cursor;
        proof {
            lemma_next_managed(self.names(), self.position());
        }
        while i < n
            invariant
                n == self.names@.len(),
                *self == *old(self),
                self.cursor <= i,
                forall|j: int|
                    self.cursor <= j < i && j < n ==> !listed_managed(
                        #[trigger] self.names()[j],
                    ),
                next_managed(self.names(), self.cursor as nat) == next_managed(
                    self.names(),
                    i as nat,
                ),
            decreases n - i,
        {
            assert(self.names()[i as int] == opt_text(self.names@[i as int]));
            match &self.names[i] {
                Some(name) => match entry_destination(name.as_str()) {
                    Some(file) => {
                        let outcome = read_entry(&mut self.archive, name.as_str());
                        self.cursor = i + 1;
                        return match outcome {
                            Ok(data) => Ok(Some(Asset { name: file, data })),
                            Err(_) => Err(SyncError::Archive),
                        };
                    },
                    None => {},
                },
                None => {},
            }
            i = i + 1;
        }
        if self.cursor < n {
            self.cursor = n;
        }
        Ok(None)
    }
}

/// Reads every managed asset of the archive in `bytes`, in the order of the
/// archive. Fails with an archive error where the bytes are no archive or a
/// managed asset cannot be read. An archive without managed assets gives the
/// empty list.
pub fn extract_assets(bytes: Vec<u8>) -> (r: Result<Vec<Asset>, SyncError>)
    ensures
        match r {
            Ok(assets) => extracted(bytes@) == Some(asset_views(assets@)),
            Err(e) => e == SyncError::Archive && extracted(bytes@) is None,
        },
{
    let mut installer = match Installer::open(bytes) {
        Ok(installer) => installer,
        Err(e) => {
            return Err(e);
        },
    };
    let ghost names = installer.names();
    let mut out: Vec<Asset> = Vec::new();
    assert(names.subrange(0, 0) =~= Seq::<Option<Seq<char>>>::empty());
    assert(asset_views(out@) =~= Seq::<AssetView>::empty());
    loop
        invariant
            installer.source() == bytes@,
            installer.names() == names,
            archive_opens(bytes@),
            archive_names(bytes@) == names,
            installer.position() <= names.len(),
            assets_of(bytes@, names.subrange(0, installer.position() as int)) == Some(
                asset_views(out@),
            ),
        decreases names.len() - installer.position(),
    {
        let ghost from = installer.position();
        let ghost done = asset_views(out@);
        proof {
            lemma_next_managed(names, from);
        }
        match installer.next_asset() {
            Ok(Some(asset)) => {
                proof {
                    let k = next_managed(names, from).unwrap() as int;
                    lemma_assets_skip(bytes@, names, from as int, k);
                    assert(names.subrange(0, k + 1).drop_last() =~= names.subrange(0, k));
                    assert(names.subrange(0, k + 1).last() == names[k]);
                }
                out.push(asset);
                assert(asset_views(out@) =~= done.push(asset@));
            },
            Ok(None) => {
                proof {
                    lemma_assets_skip(bytes@, names, from as int, names.len() as int);
                    assert(names.subrange(0, names.len() as int) =~= names);
                }
                return Ok(out);
            },
            Err(e) => {
                proof {
                    let k = next_managed(names, from).unwrap() as int;
                    lemma_assets_skip(bytes@, names, from as int, k);
                    assert(names.subrange(0, k + 1).drop_last() =~= names.subrange(0, k));
                    assert(names.subrange(0, k + 1).last() == names[k]);
                    lemma_assets_fail(bytes@, names, k + 1);
                }
                return Err(e);
            },
        }
    }
}

} // verus!
