//! Paths as byte strings: the state file inside the target directory, and
//! the candidates among which the target directory is looked for.
//!
//! A path is a sequence of bytes with `/` between its components, as the
//! platform hands it out; nothing here requires it to be text.

use crate::text::split_on;
use vstd::prelude::*;
use vstd::string::*;

verus! {

/// The byte `/`, which separates the components of a path.
pub open spec fn slash() -> u8 {
    47u8
}

/// The byte `:`, which ends each path of a list of paths.
pub open spec fn colon() -> u8 {
    58u8
}

/// The bytes of a text that holds ASCII characters only.
pub open spec fn byte_text(text: Seq<char>) -> Seq<u8> {
    Seq::new(text.len(), |i: int| text[i] as u8)
}

/// The views of a sequence of byte strings.
pub open spec fn byte_views(v: Seq<Vec<u8>>) -> Seq<Seq<u8>> {
    Seq::new(v.len(), |i: int| v[i]@)
}

/// The paths of a `:`-terminated list: each piece that a `:` ends. What
/// follows the last `:` is not ended and is no path of the list.
pub open spec fn terminated_pieces(raw: Seq<u8>) -> Seq<Seq<u8>> {
    split_on(raw, colon()).drop_last()
}

/// The path `rel` as seen from `base`: `rel` itself where it starts at the
/// root, else `base` and `rel` with exactly one `/` put between them unless
/// `base` is empty or brings its own.
pub open spec fn joined(base: Seq<u8>, rel: Seq<u8>) -> Seq<u8> {
    if rel.len() > 0 && rel[0] == slash() {
        rel
    } else if base.len() == 0 || base.last() == slash() {
        base + rel
    } else {
        base + seq![slash()] + rel
    }
}

/// The name of the state file.
pub open spec fn state_file_name() -> Seq<u8> {
    byte_text("filter_watermarks.json"@)
}

/// The bytes of an ASCII text.
pub(crate) fn text_bytes(text: &str) -> (out: Vec<u8>)
    requires
        is_ascii(text),
    ensures
        out@ == byte_text(text@),
{
    proof {
        is_ascii_spec_bytes(text);
    }
    let out = text.as_bytes_vec();
    assert(out@ =~= byte_text(text@));
    out
}

/// The bytes of `v` from `from` up to `to`.
pub(crate) fn byte_range(v: &Vec<u8>, from: usize, to: usize) -> (out: Vec<u8>)
    requires
        from <= to <= v@.len(),
    ensures
        out@ == v@.subrange(from as int, to as int),
{
    let mut out: Vec<u8> = Vec::new();
    let mut i: usize = from;
    while i < to
        invariant
            from <= i <= to <= v@.len(),
            out@ == v@.subrange(from as int, i as int),
        decreases to - i,
    {
        out.push(v[i]);
        i = i + 1;
        assert(out@ =~= v@.subrange(from as int, i as int));
    }
    out
}

/// Whether two byte strings are equal.
pub fn same_bytes(a: &Vec<u8>, b: &Vec<u8>) -> (r: bool)
    ensures
        r == (a@ == b@),
{
    if a.len() != b.len() {
        return false;
    }
    let n: usize = a.len();
    let mut i: usize = 0;
    while i < n
        invariant
            n == a@.len(),
            n == b@.len(),
            i <= n,
            forall|j: int| 0 <= j < i ==> a@[j] == b@[j],
        decreases n - i,
    {
        if a[i] != b[i] {
            return false;
        }
        i = i + 1;
    }
    assert(a@ =~= b@);
    true
}

/// Splits a `:`-terminated list of paths. A last piece that no `:` ends is
/// left out, so a list of one path is written with a `:` behind it.
pub fn split_paths(raw: &Vec<u8>) -> (out: Vec<Vec<u8>>)
    ensures
        byte_views(out@) == terminated_pieces(raw@),
{
    let n: usize = raw.len();
    let mut out: Vec<Vec<u8>> = Vec::new();
    let mut start: usize = 0;
    let mut i: usize = 0;
    assert(raw@.subrange(0, 0) =~= Seq::<u8>::empty());
    assert(byte_views(out@).push(raw@.subrange(0, 0)) =~= seq![Seq::<u8>::empty()]);
    while i < n
        invariant
            n == raw@.len(),
            start <= i <= n,
            split_on(raw@.subrange(0, i as int), colon()) == byte_views(out@).push(
                raw@.subrange(start as int, i as int),
            ),
        decreases n - i,
    {
        let ghost prefix = raw@.subrange(0, i as int);
        let ghost grown = raw@.subrange(0, i as int + 1);
        let ghost done = byte_views(out@);
        let ghost piece = raw@.subrange(start as int, i as int);
        assert(grown.drop_last() =~= prefix);
        assert(grown.last() == raw@[i as int]);
        if raw[i] == 58u8 {
            let part: Vec<u8> = byte_range(raw, start, i);
            out.push(part);
            start = i + 1;
            assert(byte_views(out@) =~= done.push(piece));
            assert(raw@.subrange(start as int, i as int + 1) =~= Seq::<u8>::empty());
        } else {
            assert(done.push(piece).drop_last() =~= done);
            assert(piece.push(raw@[i as int]) =~= raw@.subrange(start as int, i as int + 1));
        }
        i = i + 1;
    }
    assert(raw@.subrange(0, n as int) =~= raw@);
    assert(byte_views(out@).push(raw@.subrange(start as int, n as int)).drop_last()
        =~= byte_views(out@));
    out
}

/// Appends the bytes of `tail` to `path`.
fn append_bytes(path: &mut Vec<u8>, tail: &Vec<u8>)
    ensures
        final(path)@ == old(path)@ + tail@,
{
    let n: usize = tail.len();
    let mut i: usize = 0;
    assert(path@ =~= old(path)@ + tail@.subrange(0, 0));
    while i < n
        invariant
            n == tail@.len(),
            i <= n,
            path@ == old(path)@ + tail@.subrange(0, i as int),
        decreases n - i,
    {
        path.push(tail[i]);
        i = i + 1;
        assert(path@ =~= old(path)@ + tail@.subrange(0, i as int));
    }
    assert(tail@.subrange(0, n as int) =~= tail@);
}

/// The path `rel` as seen from `base`.
pub fn join(base: &Vec<u8>, rel: &Vec<u8>) -> (out: Vec<u8>)
    ensures
        out@ == joined(base@, rel@),
{
    if rel.len() > 0 && rel[0] == 47u8 {
        return byte_range(rel, 0, rel.len());
    }
    let mut out: Vec<u8> = byte_range(base, 0, base.len());
    assert(out@ =~= base@);
    if base.len() > 0 && base[base.len() - 1] != 47u8 {
        out.push(47u8);
        assert(out@ =~= base@ + seq![slash()]);
    }
    append_bytes(&mut out, rel);
    out
}

/// The path of the state file inside the target directory `path`.
pub fn releases_file(path: &Vec<u8>) -> (file: Vec<u8>)
    ensures
        file@ == joined(path@, state_file_name()),
{
    proof {
        reveal_strlit("filter_watermarks.json");
    }
    let name: Vec<u8> = text_bytes("filter_watermarks.json");
    join(path, &name)
}

/// What the environment says about where the game keeps its data. Each field
/// is the value of one variable, or `None` where the variable is not set.
#[derive(Clone, Debug)]
pub struct Environment {
    /// `STEAM_COMPAT_DATA_PATH`: the compatibility data directory itself.
    pub compat_data_path: Option<Vec<u8>>,
    /// `STEAM_COMPAT_APP_ID`: the game's identifier.
    pub compat_app_id: Option<Vec<u8>>,
    /// `SteamGameId`: the game's identifier, used where the former is not set.
    pub steam_game_id: Option<Vec<u8>>,
    /// `STEAM_COMPAT_LIBRARY_PATHS`: a `:`-terminated list of library folders.
    pub compat_library_paths: Option<Vec<u8>>,
    /// `STEAM_BASE_FOLDER`: the folder of the installation.
    pub base_folder: Option<Vec<u8>>,
    /// `XDG_DATA_DIRS`: a `:`-terminated list of data directories.
    pub data_dirs: Option<Vec<u8>>,
    /// `HOME`: the user's home directory.
    pub home: Option<Vec<u8>>,
}

/// The mathematical value of an [`Environment`].
pub struct EnvironmentView {
    pub compat_data_path: Option<Seq<u8>>,
    pub compat_app_id: Option<Seq<u8>>,
    pub steam_game_id: Option<Seq<u8>>,
    pub compat_library_paths: Option<Seq<u8>>,
    pub base_folder: Option<Seq<u8>>,
    pub data_dirs: Option<Seq<u8>>,
    pub home: Option<Seq<u8>>,
}

/// The mathematical value of an optional byte string.
pub open spec fn opt_bytes(o: Option<Vec<u8>>) -> Option<Seq<u8>> {
    match o {
        Some(v) => Some(v@),
        None => None,
    }
}

impl View for Environment {
    type V = EnvironmentView;

    open spec fn view(&self) -> EnvironmentView {
        EnvironmentView {
            compat_data_path: opt_bytes(self.compat_data_path),
            compat_app_id: opt_bytes(self.compat_app_id),
            steam_game_id: opt_bytes(self.steam_game_id),
            compat_library_paths: opt_bytes(self.compat_library_paths),
            base_folder: opt_bytes(self.base_folder),
            data_dirs: opt_bytes(self.data_dirs),
            home: opt_bytes(self.home),
        }
    }
}

/// The game's identifier: the first of the two variables that is set, else
/// the identifier that the game is published under.
pub open spec fn game_id(env: EnvironmentView) -> Seq<u8> {
    match env.compat_app_id {
        Some(id) => id,
        None => match env.steam_game_id {
            Some(id) => id,
            None => byte_text("2694490"@),
        },
    }
}

/// The compatibility data directory of the game `id` below `base`, with
/// `middle` leading from the one to the other.
pub open spec fn below(base: Seq<u8>, middle: Seq<u8>, id: Seq<u8>) -> Seq<u8> {
    joined(joined(base, middle), id)
}

/// The candidate below each path of a `:`-terminated list, if the list is
/// set.
pub open spec fn listed(raw: Option<Seq<u8>>, middle: Seq<u8>, id: Seq<u8>) -> Seq<Seq<u8>> {
    match raw {
        Some(list) => Seq::new(
            terminated_pieces(list).len(),
            |i: int| below(terminated_pieces(list)[i], middle, id),
        ),
        None => Seq::empty(),
    }
}

/// The candidate below a single folder, if the folder is set.
pub open spec fn single(base: Option<Seq<u8>>, middle: Seq<u8>, id: Seq<u8>) -> Seq<Seq<u8>> {
    match base {
        Some(folder) => seq![below(folder, middle, id)],
        None => Seq::empty(),
    }
}

/// Every candidate for the game's compatibility data directory, in order of
/// priority, repetitions included.
pub open spec fn all_candidates(env: EnvironmentView) -> Seq<Seq<u8>> {
    let id = game_id(env);
    (match env.compat_data_path {
        Some(path) => seq![path],
        None => Seq::empty(),
    }) + listed(env.compat_library_paths, byte_text("compatdata"@), id) + single(
        env.base_folder,
        byte_text("steamapps/compatdata"@),
        id,
    ) + listed(env.data_dirs, byte_text("Steam/steamapps/compatdata"@), id) + single(
        env.home,
        byte_text(".local/share/Steam/steamapps/compatdata"@),
        id,
    )
}

/// The sequence without repetitions: of equal elements the first stays.
pub open spec fn first_occurrences(s: Seq<Seq<u8>>) -> Seq<Seq<u8>>
    decreases s.len(),
{
    if s.len() == 0 {
        Seq::empty()
    } else {
        let before = first_occurrences(s.drop_last());
        if before.contains(s.last()) {
            before
        } else {
            before.push(s.last())
        }
    }
}

/// The candidates for the game's compatibility data directory, in order of
/// priority, each once.
pub open spec fn candidates(env: EnvironmentView) -> Seq<Seq<u8>> {
    first_occurrences(all_candidates(env))
}

/// Where the documents of games lie inside a compatibility data directory.
pub open spec fn documents_below(candidate: Seq<u8>) -> Seq<u8> {
    joined(candidate, byte_text("pfx/drive_c/users/steamuser/My Documents/My Games"@))
}

/// Where the game keeps its data among the documents of games.
pub open spec fn game_data_below(documents: Seq<u8>) -> Seq<u8> {
    joined(documents, byte_text("Path of Exile 2"@))
}

/// What stays of a sequence without repetitions holds the same elements, and
/// none twice.
pub proof fn lemma_first_occurrences(s: Seq<Seq<u8>>)
    ensures
        first_occurrences(s).no_duplicates(),
        forall|x: Seq<u8>| first_occurrences(s).contains(x) <==> s.contains(x),
    decreases s.len(),
{
    if s.len() > 0 {
        let front = s.drop_last();
        let before = first_occurrences(front);
        lemma_first_occurrences(front);
        assert forall|x: Seq<u8>| first_occurrences(s).contains(x) <==> s.contains(x) by {
            if s.contains(x) {
                let i = choose|i: int| 0 <= i < s.len() && s[i] == x;
                if i < s.len() - 1 {
                    assert(front[i] == x);
                    assert(front.contains(x));
                    assert(before.contains(x));
                    if !before.contains(s.last()) {
                        let j = choose|j: int| 0 <= j < before.len() && before[j] == x;
                        assert(before.push(s.last())[j] == x);
                    }
                } else {
                    if !before.contains(s.last()) {
                        assert(before.push(s.last())[before.len() as int] == x);
                    }
                }
            }
            if first_occurrences(s).contains(x) {
                let j = choose|j: int|
                    0 <= j < first_occurrences(s).len() && first_occurrences(s)[j] == x;
                if j < before.len() {
                    assert(before[j] == x);
                    assert(front.contains(x));
                    let i = choose|i: int| 0 <= i < front.len() && front[i] == x;
                    assert(s[i] == x);
                } else {
                    assert(s[s.len() - 1] == x);
                }
            }
        }
    }
}

/// The paths without repetitions: of equal paths the first stays.
pub fn unique_paths(paths: Vec<Vec<u8>>) -> (out: Vec<Vec<u8>>)
    ensures
        byte_views(out@) == first_occurrences(byte_views(paths@)),
        byte_views(out@).no_duplicates(),
        forall|x: Seq<u8>| byte_views(out@).contains(x) <==> byte_views(paths@).contains(x),
{
    proof {
        lemma_first_occurrences(byte_views(paths@));
    }
    let n: usize = paths.len();
    let mut out: Vec<Vec<u8>> = Vec::new();
    let mut i: usize = 0;
    assert(byte_views(paths@).subrange(0, 0) =~= Seq::<Seq<u8>>::empty());
    assert(byte_views(out@) =~= Seq::<Seq<u8>>::empty());
    while i < n
        invariant
            n == paths@.len(),
            i <= n,
            byte_views(out@) == first_occurrences(byte_views(paths@).subrange(0, i as int)),
        decreases n - i,
    {
        let ghost all = byte_views(paths@);
        let ghost done = byte_views(out@);
        assert(all.subrange(0, i as int + 1).drop_last() =~= all.subrange(0, i as int));
        assert(all.subrange(0, i as int + 1).last() == paths@[i as int]@);
        let m: usize = out.len();
        let mut seen: bool = false;
        let mut j: usize = 0;
        while j < m && !seen
            invariant
                m == out@.len(),
                j <= m,
                i < n,
                n == paths@.len(),
                done == byte_views(out@),
                seen ==> done.contains(paths@[i as int]@),
                !seen ==> forall|k: int| 0 <= k < j ==> done[k] != paths@[i as int]@,
            decreases m - j + if seen { 0int } else { 1int },
        {
            if same_bytes(&out[j], &paths[i]) {
                seen = true;
                assert(done[j as int] == paths@[i as int]@);
            } else {
                j = j + 1;
            }
        }
        if !seen {
            let copy: Vec<u8> = byte_range(&paths[i], 0, paths[i].len());
            assert(copy@ =~= paths@[i as int]@);
            out.push(copy);
            assert(byte_views(out@) =~= done.push(paths@[i as int]@));
        }
        i = i + 1;
    }
    assert(byte_views(paths@).subrange(0, n as int) =~= byte_views(paths@));
    out
}

/// Adds the candidate below `base`.
fn push_below(paths: &mut Vec<Vec<u8>>, base: &Vec<u8>, middle: &Vec<u8>, id: &Vec<u8>)
    ensures
        byte_views(final(paths)@) == byte_views(old(paths)@).push(below(base@, middle@, id@)),
{
    let ghost before = byte_views(paths@);
    let inner: Vec<u8> = join(base, middle);
    let path: Vec<u8> = join(&inner, id);
    paths.push(path);
    assert(byte_views(paths@) =~= before.push(below(base@, middle@, id@)));
}

/// Adds the candidate below each path of the list `raw`.
fn push_listed(paths: &mut Vec<Vec<u8>>, raw: &Vec<u8>, middle: &Vec<u8>, id: &Vec<u8>)
    ensures
        byte_views(final(paths)@) == byte_views(old(paths)@) + listed(Some(raw@), middle@, id@),
{
    let ghost before = byte_views(paths@);
    let ghost target = listed(Some(raw@), middle@, id@);
    let pieces: Vec<Vec<u8>> = split_paths(raw);
    let n: usize = pieces.len();
    let mut i: usize = 0;
    assert(byte_views(paths@) =~= before + target.subrange(0, 0));
    assert(target.len() == n);
    while i < n
        invariant
            n == pieces@.len(),
            i <= n,
            target.len() == n,
            byte_views(pieces@) == terminated_pieces(raw@),
            target == listed(Some(raw@), middle@, id@),
            byte_views(paths@) == before + target.subrange(0, i as int),
        decreases n - i,
    {
        let ghost so_far = byte_views(paths@);
        assert(byte_views(pieces@)[i as int] == pieces@[i as int]@);
        push_below(paths, &pieces[i], middle, id);
        i = i + 1;
        assert(byte_views(paths@) =~= before + target.subrange(0, i as int)) by {
            assert(target.subrange(0, i as int) =~= target.subrange(0, i as int - 1).push(
                target[i as int - 1],
            ));
        }
    }
    assert(target.subrange(0, n as int) =~= target);
}

impl Environment {
    /// The game's identifier.
    pub fn game_id(&self) -> (id: Vec<u8>)
        ensures
            id@ == game_id(self@),
    {
        match &self.compat_app_id {
            Some(id) => byte_range(id, 0, id.len()),
            None => match &self.steam_game_id {
                Some(id) => byte_range(id, 0, id.len()),
                None => {
                    proof {
                        reveal_strlit("2694490");
                    }
                    text_bytes("2694490")
                },
            },
        }
    }
}

/// The candidates for the game's compatibility data directory, in order of
/// priority and each once: the directory that the environment names itself,
/// then the one below each library folder, below the installation's folder,
/// below each data directory, and below the user's home.
pub fn candidate_directories(env: &Environment) -> (out: Vec<Vec<u8>>)
    ensures
        byte_views(out@) == candidates(env@),
{
    proof {
        reveal_strlit("compatdata");
        reveal_strlit("steamapps/compatdata");
        reveal_strlit("Steam/steamapps/compatdata");
        reveal_strlit(".local/share/Steam/steamapps/compatdata");
    }
    let id: Vec<u8> = env.game_id();
    let mut paths: Vec<Vec<u8>> = Vec::new();
    let ghost empty = Seq::<Seq<u8>>::empty();
    assert(byte_views(paths@) =~= empty);
    match &env.compat_data_path {
        Some(path) => {
            let copy: Vec<u8> = byte_range(path, 0, path.len());
            assert(copy@ =~= path@);
            paths.push(copy);
            assert(byte_views(paths@) =~= seq![path@]);
        },
        None => {},
    }
    let ghost first = byte_views(paths@);
    match &env.compat_library_paths {
        Some(raw) => {
            let middle: Vec<u8> = text_bytes("compatdata");
            push_listed(&mut paths, raw, &middle, &id);
        },
        None => {
            assert(first + empty =~= first);
        },
    }
    let ghost second = byte_views(paths@);
    match &env.base_folder {
        Some(folder) => {
            let middle: Vec<u8> = text_bytes("steamapps/compatdata");
            push_below(&mut paths, folder, &middle, &id);
            assert(second.push(below(folder@, middle@, id@)) =~= second + seq![
                below(folder@, middle@, id@),
            ]);
        },
        None => {
            assert(second + empty =~= second);
        },
    }
    let ghost third = byte_views(paths@);
    match &env.data_dirs {
        Some(raw) => {
            let middle: Vec<u8> = text_bytes("Steam/steamapps/compatdata");
            push_listed(&mut paths, raw, &middle, &id);
        },
        None => {
            assert(third + empty =~= third);
        },
    }
    let ghost fourth = byte_views(paths@);
    match &env.home {
        Some(folder) => {
            let middle: Vec<u8> = text_bytes(".local/share/Steam/steamapps/compatdata");
            push_below(&mut paths, folder, &middle, &id);
            assert(fourth.push(below(folder@, middle@, id@)) =~= fourth + seq![
                below(folder@, middle@, id@),
            ]);
        },
        None => {
            assert(fourth + empty =~= fourth);
        },
    }
    assert(byte_views(paths@) == all_candidates(env@));
    unique_paths(paths)
}

/// Where the documents of games lie inside the compatibility data directory
/// `candidate`. The candidate counts only if this directory exists.
pub fn documents_directory(candidate: &Vec<u8>) -> (out: Vec<u8>)
    ensures
        out@ == documents_below(candidate@),
{
    proof {
        reveal_strlit("pfx/drive_c/users/steamuser/My Documents/My Games");
    }
    let rel: Vec<u8> = text_bytes("pfx/drive_c/users/steamuser/My Documents/My Games");
    join(candidate, &rel)
}

/// The target directory: where the game keeps its data among the documents
/// of games.
pub fn game_directory(documents: &Vec<u8>) -> (out: Vec<u8>)
    ensures
        out@ == game_data_below(documents@),
{
    proof {
        reveal_strlit("Path of Exile 2");
    }
    let rel: Vec<u8> = text_bytes("Path of Exile 2");
    join(documents, &rel)
}

} // verus!
