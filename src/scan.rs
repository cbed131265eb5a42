//! The scan of a song root: what to do with each root entry, the steps that
//! load one song folder, and the merge of all outcomes into the song list,
//! ordered by name, and the rejected paths. Listing, reading, resolving and
//! running workers are the caller's part; the decisions are here.
use vstd::prelude::*;
use vstd::multiset::Multiset;
use vstd::utf8::*;
use crate::digest::{all_text, byte_views, content_hash, level_hash_of};
use crate::song::{
    declaration_document, declaration_valid, declares, beatmap_filenames_of, find_declaration,
    is_declaration, Declaration, FolderEntry, Song,
};
use crate::cache::{recorded, IdCache};
use crate::text::same_text;

verus! {

broadcast use vstd::utf8::group_utf8_lib;

/// The name of the identifier cache file inside a song root.
pub const ID_CACHE_FILE: &'static str = "id.cache";

/// What a scan does with an entry of the song root.
#[derive(Clone, Copy, Debug, PartialEq, Eq, Structural)]
pub enum RootEntryKind {
    /// A directory: a candidate song folder.
    SongFolder,
    /// The identifier cache file: skipped.
    CacheFile,
    /// Anything else: recorded as rejected.
    Rejected,
}

pub open spec fn root_entry_kind(name: Seq<char>, is_dir: bool) -> RootEntryKind {
    if is_dir {
        RootEntryKind::SongFolder
    } else if name == ID_CACHE_FILE@ {
        RootEntryKind::CacheFile
    } else {
        RootEntryKind::Rejected
    }
}

/// Sorts an entry of the song root by its file name and whether it is a
/// directory.
pub fn classify_root_entry(name: &str, is_dir: bool) -> (r: RootEntryKind)
    ensures
        r == root_entry_kind(name@, is_dir),
{
    if is_dir {
        RootEntryKind::SongFolder
    } else if same_text(name, ID_CACHE_FILE) {
        RootEntryKind::CacheFile
    } else {
        RootEntryKind::Rejected
    }
}

/// What scanning one folder gave.
pub enum FolderOutcome {
    Loaded(Song),
    Rejected(String),
}

/// Where the loading of one song folder stands.
pub enum LoadState {
    /// Waiting for the folder listing.
    Listing,
    /// Waiting for the bytes of the declaration file.
    Declaration,
    /// Waiting for the beatmap files that the declaration names.
    Beatmaps { declaration_file: Vec<u8>, declaration: Declaration },
    /// Waiting for the catalog id of the content hash.
    Identify { declaration: Declaration, level_hash: String },
    /// Done.
    Finished,
}

/// What the caller does next for a folder being loaded.
pub enum LoadAction {
    /// Read the listing entry with this index, the declaration file.
    ReadDeclaration(usize),
    /// Read these files of the folder, in this order.
    ReadBeatmaps(Vec<String>),
    /// Look the content hash up in the identifier cache (`on_cache`).
    Identify(String),
    /// The hash is not cached: ask the catalog for it (`on_resolved`).
    Resolve(String),
    /// The folder is done.
    Finish(FolderOutcome),
}

/// The loading of one song folder, driven by what the caller reads.
pub struct SongLoad {
    pub path: String,
    pub state: LoadState,
}

/// `s` is the song of the folder at `path` with declaration `d`, content
/// hash `h` and catalog id `id`: every field comes from them.
pub open spec fn song_built(s: Song, path: String, d: Declaration, h: String, id: String) -> bool {
    &&& s.song_folder_path == path
    &&& s.song_name == d.song_name
    &&& s.song_sub_name == d.song_sub_name
    &&& s.song_author_name == d.song_author_name
    &&& s.level_author_name == d.level_author_name
    &&& s.beats_per_minute == d.beats_per_minute
    &&& s.song_filename == d.song_filename
    &&& s.cover_image_filename == d.cover_image_filename
    &&& s.difficulty_beatmap_sets == d.difficulty_beatmap_sets
    &&& s.level_hash == h
    &&& s.level_id == id
}

/// `x` is a loaded song as `song_built` describes it.
pub open spec fn loads(x: FolderOutcome, path: String, d: Declaration, h: String, id: String) -> bool {
    match x {
        FolderOutcome::Loaded(s) => song_built(s, path, d, h, id),
        FolderOutcome::Rejected(_) => false,
    }
}

pub open spec fn rejects(a: LoadAction, path: String) -> bool {
    a matches LoadAction::Finish(FolderOutcome::Rejected(p)) && p == path
}

/// The step after a declaration that parsed: `r` asks for the beatmap files
/// that `j` names, and the load keeps the file and what it declares.
pub open spec fn reads_beatmaps(r: LoadAction, state: LoadState, b: Seq<u8>, j: crate::json::Json) -> bool {
    match (r, state) {
        (LoadAction::ReadBeatmaps(names), LoadState::Beatmaps { declaration_file, declaration }) => {
            &&& declaration_file@ == b
            &&& declares(declaration, j)
            &&& names@ == beatmap_filenames_of(declaration.sets())
        },
        _ => false,
    }
}

/// The step after readable beatmap files: `r` asks for the catalog id of the
/// content hash, and the load keeps the declaration and the hash.
pub open spec fn identifies(r: LoadAction, state: LoadState, h: Seq<char>, d: Declaration) -> bool {
    match (r, state) {
        (LoadAction::Identify(x), LoadState::Identify { declaration, level_hash }) => {
            &&& x@ == h
            &&& level_hash == x
            &&& declaration == d
        },
        _ => false,
    }
}

impl SongLoad {
    pub fn new(path: String) -> (r: SongLoad)
        ensures
            r.path == path,
            r.state is Listing,
    {
        SongLoad { path, state: LoadState::Listing }
    }

    /// Takes the folder listing: the folder is rejected when it holds no
    /// declaration file; otherwise the first one is read.
    pub fn on_listing(&mut self, entries: &Vec<FolderEntry>) -> (r: LoadAction)
        requires
            old(self).state is Listing,
        ensures
            final(self).path == old(self).path,
            (forall|k: int| 0 <= k < entries@.len() ==> !is_declaration(#[trigger] entries@[k]))
                ==> rejects(r, old(self).path) && final(self).state is Finished,
            r matches LoadAction::ReadDeclaration(i) ==> i < entries@.len() && is_declaration(entries@[i as int])
                && (forall|k: int| 0 <= k < i ==> !is_declaration(#[trigger] entries@[k]))
                && final(self).state is Declaration,
            (exists|k: int| 0 <= k < entries@.len() && is_declaration(#[trigger] entries@[k]))
                ==> r is ReadDeclaration,
            r is ReadDeclaration || rejects(r, old(self).path),
    {
        match find_declaration(entries) {
            Some(i) => {
                self.state = LoadState::Declaration;
                LoadAction::ReadDeclaration(i)
            },
            None => {
                self.state = LoadState::Finished;
                LoadAction::Finish(FolderOutcome::Rejected(self.path.clone()))
            },
        }
    }

    /// Takes the declaration file, or `None` where it could not be read. A
    /// declaration that does not parse rejects the folder; otherwise its
    /// beatmap files are read next.
    pub fn on_declaration(&mut self, file: Option<Vec<u8>>) -> (r: LoadAction)
        requires
            old(self).state is Declaration,
        ensures
            final(self).path == old(self).path,
            file is None ==> rejects(r, old(self).path),
            file matches Some(b) ==> match declaration_document(b@) {
                Some(j) => if declaration_valid(j) {
                    reads_beatmaps(r, final(self).state, b@, j)
                } else {
                    rejects(r, old(self).path)
                },
                None => rejects(r, old(self).path),
            },
            rejects(r, old(self).path) ==> final(self).state is Finished,
    {
        let bytes = match file {
            Some(b) => b,
            None => {
                self.state = LoadState::Finished;
                return LoadAction::Finish(FolderOutcome::Rejected(self.path.clone()));
            },
        };
        match Declaration::parse(bytes.as_slice()) {
            Some(declaration) => {
                let names = declaration.beatmap_filenames();
                self.state = LoadState::Beatmaps { declaration_file: bytes, declaration };
                LoadAction::ReadBeatmaps(names)
            },
            None => {
                self.state = LoadState::Finished;
                LoadAction::Finish(FolderOutcome::Rejected(self.path.clone()))
            },
        }
    }

    /// Takes the beatmap files, in the order asked for, or `None` where one
    /// could not be read. Files that are not all UTF-8 text reject the
    /// folder; otherwise the content hash is identified next.
    pub fn on_beatmaps(&mut self, files: Option<Vec<Vec<u8>>>) -> (r: LoadAction)
        requires
            old(self).state is Beatmaps,
        ensures
            final(self).path == old(self).path,
            files is None ==> rejects(r, old(self).path) && final(self).state is Finished,
            files matches Some(fs) ==> {
                let b = old(self).state->declaration_file;
                if all_text(b@, byte_views(fs@)) {
                    identifies(r, final(self).state, level_hash_of(b@, byte_views(fs@)), old(self).state->Beatmaps_declaration)
                } else {
                    rejects(r, old(self).path) && final(self).state is Finished
                }
            },
    {
        let mut state = LoadState::Finished;
        std::mem::swap(&mut self.state, &mut state);
        let (declaration_file, declaration) = match state {
            LoadState::Beatmaps { declaration_file, declaration } => (declaration_file, declaration),
            _ => {
                proof { assert(false); }
                return LoadAction::Finish(FolderOutcome::Rejected(self.path.clone()));
            },
        };
        let fs = match files {
            Some(fs) => fs,
            None => return LoadAction::Finish(FolderOutcome::Rejected(self.path.clone())),
        };
        match content_hash(declaration_file.as_slice(), &fs) {
            Some(h) => {
                let level_hash = h.clone();
                self.state = LoadState::Identify { declaration, level_hash };
                LoadAction::Identify(h)
            },
            None => LoadAction::Finish(FolderOutcome::Rejected(self.path.clone())),
        }
    }

    /// Looks the content hash up in the identifier cache. On a hit the song
    /// is loaded with the cached id and no catalog exchange is asked for; on
    /// a miss the catalog is to be asked.
    pub fn on_cache(&mut self, cache: &IdCache) -> (r: LoadAction)
        requires
            old(self).state is Identify,
            cache.wf(),
        ensures
            final(self).path == old(self).path,
            ({
                let h = old(self).state->level_hash;
                let d = old(self).state->Identify_declaration;
                if cache@.contains_key(h@) {
                    &&& final(self).state is Finished
                    &&& r matches LoadAction::Finish(x)
                    &&& x matches FolderOutcome::Loaded(s)
                    &&& s.level_id@ == cache@[h@]
                    &&& song_built(s, old(self).path, d, h, s.level_id)
                } else {
                    &&& final(self).state == old(self).state
                    &&& r matches LoadAction::Resolve(x)
                    &&& x == h
                }
            }),
    {
        let hash = match &self.state {
            LoadState::Identify { level_hash, .. } => level_hash.clone(),
            _ => {
                proof { assert(false); }
                return LoadAction::Finish(FolderOutcome::Rejected(self.path.clone()));
            },
        };
        match cache.lookup(hash.as_str()) {
            Some(id) => LoadAction::Finish(self.on_id(id)),
            None => LoadAction::Resolve(hash),
        }
    }

    /// Takes the id that the catalog gave for an uncached hash: the cache
    /// records it (an unresolved id is not kept, so a later scan asks again)
    /// and the song is loaded with it.
    pub fn on_resolved(&mut self, level_id: String, cache: &mut IdCache) -> (r: FolderOutcome)
        requires
            old(self).state is Identify,
            old(cache).wf(),
        ensures
            final(self).path == old(self).path,
            final(self).state is Finished,
            final(cache).wf(),
            final(cache)@ == recorded(old(cache)@, old(self).state->level_hash@, level_id@),
            loads(r, old(self).path, old(self).state->Identify_declaration, old(self).state->level_hash, level_id),
    {
        let hash = match &self.state {
            LoadState::Identify { level_hash, .. } => level_hash.clone(),
            _ => {
                proof { assert(false); }
                return FolderOutcome::Rejected(self.path.clone());
            },
        };
        cache.record(hash, level_id.clone());
        self.on_id(level_id)
    }

    /// Takes the catalog id of the content hash: the song is loaded. This is
    /// also the step where the cache cannot be used at all.
    pub fn on_id(&mut self, level_id: String) -> (r: FolderOutcome)
        requires
            old(self).state is Identify,
        ensures
            final(self).path == old(self).path,
            final(self).state is Finished,
            loads(r, old(self).path, old(self).state->Identify_declaration, old(self).state->level_hash, level_id),
    {
        let mut state = LoadState::Finished;
        std::mem::swap(&mut self.state, &mut state);
        match state {
            LoadState::Identify { declaration, level_hash } => {
                FolderOutcome::Loaded(Song::from_parts(self.path.clone(), declaration, level_hash, level_id))
            },
            _ => {
                proof { assert(false); }
                FolderOutcome::Rejected(self.path.clone())
            },
        }
    }
}

/// Byte-wise lexicographic order: `x` sorts before `y` or equals it.
pub open spec fn bytes_le(x: Seq<u8>, y: Seq<u8>) -> bool
    decreases x.len(),
{
    if x.len() == 0 {
        true
    } else if y.len() == 0 {
        false
    } else if x[0] != y[0] {
        x[0] < y[0]
    } else {
        bytes_le(x.drop_first(), y.drop_first())
    }
}

proof fn lemma_bytes_le_total(x: Seq<u8>, y: Seq<u8>)
    ensures
        bytes_le(x, y) || bytes_le(y, x),
    decreases x.len(),
{
    if x.len() > 0 && y.len() > 0 && x[0] == y[0] {
        lemma_bytes_le_total(x.drop_first(), y.drop_first());
    }
}

proof fn lemma_bytes_le_transitive(x: Seq<u8>, y: Seq<u8>, z: Seq<u8>)
    requires
        bytes_le(x, y),
        bytes_le(y, z),
    ensures
        bytes_le(x, z),
    decreases x.len(),
{
    if x.len() > 0 && y.len() > 0 && z.len() > 0 && x[0] == y[0] && y[0] == z[0] {
        lemma_bytes_le_transitive(x.drop_first(), y.drop_first(), z.drop_first());
    }
}

/// `a` sorts before `b` by display name, or with it: the order of the names'
/// UTF-8 bytes, which is code point order, with no case folding.
pub open spec fn name_le(a: Song, b: Song) -> bool {
    bytes_le(encode_utf8(a.song_name@), encode_utf8(b.song_name@))
}

pub open spec fn sorted_by_name(s: Seq<Song>) -> bool {
    forall|i: int, j: int| 0 <= i < j < s.len() ==> name_le(#[trigger] s[i], #[trigger] s[j])
}

/// Whether text `a` sorts before `b` or with it, byte by byte.
pub fn text_le(a: &str, b: &str) -> (r: bool)
    ensures
        r == bytes_le(encode_utf8(a@), encode_utf8(b@)),
{
    let x = a.as_bytes();
    let y = b.as_bytes();
    let ghost xs = x@;
    let ghost ys = y@;
    let mut i: usize = 0;
    assert(xs.skip(0) =~= xs && ys.skip(0) =~= ys);
    while i < x.len() && i < y.len()
        invariant
            xs == x@ && ys == y@,
            xs == encode_utf8(a@) && ys == encode_utf8(b@),
            0 <= i <= xs.len() && i <= ys.len(),
            bytes_le(xs, ys) == bytes_le(xs.skip(i as int), ys.skip(i as int)),
        decreases xs.len() - i,
    {
        assert(xs.skip(i as int)[0] == xs[i as int] && ys.skip(i as int)[0] == ys[i as int]);
        if x[i] != y[i] {
            return x[i] < y[i];
        }
        assert(xs.skip(i as int).drop_first() =~= xs.skip(i + 1));
        assert(ys.skip(i as int).drop_first() =~= ys.skip(i + 1));
        i = i + 1;
    }
    i == x.len()
}

/// The songs of `s` whose display name is `n`, in order.
pub open spec fn named(s: Seq<Song>, n: Seq<char>) -> Seq<Song>
    decreases s.len(),
{
    if s.len() == 0 {
        seq![]
    } else if s.last().song_name@ == n {
        named(s.drop_last(), n).push(s.last())
    } else {
        named(s.drop_last(), n)
    }
}

proof fn lemma_named_concat(a: Seq<Song>, b: Seq<Song>, n: Seq<char>)
    ensures
        named(a + b, n) == named(a, n) + named(b, n),
    decreases b.len(),
{
    if b.len() == 0 {
        assert(a + b =~= a);
        assert(named(a, n) + named(b, n) =~= named(a, n));
    } else {
        lemma_named_concat(a, b.drop_last(), n);
        assert((a + b).drop_last() =~= a + b.drop_last());
        assert((a + b).last() == b.last());
        if b.last().song_name@ == n {
            assert(named(a, n) + named(b.drop_last(), n).push(b.last()) =~= (named(a, n) + named(b.drop_last(), n)).push(b.last()));
        }
    }
}

proof fn lemma_named_none(t: Seq<Song>, n: Seq<char>)
    requires
        forall|m: int| 0 <= m < t.len() ==> (#[trigger] t[m]).song_name@ != n,
    ensures
        named(t, n) == Seq::<Song>::empty(),
    decreases t.len(),
{
    if t.len() > 0 {
        assert(t.last() == t[t.len() - 1]);
        assert forall|m: int| 0 <= m < t.drop_last().len() implies (#[trigger] t.drop_last()[m]).song_name@ != n by {
            assert(t.drop_last()[m] == t[m]);
        }
        lemma_named_none(t.drop_last(), n);
    }
}

proof fn lemma_bytes_le_refl(x: Seq<u8>)
    ensures
        bytes_le(x, x),
    decreases x.len(),
{
    if x.len() > 0 {
        lemma_bytes_le_refl(x.drop_first());
    }
}

/// `songs` ordered by display name. The sort is stable: for every name, the
/// songs with that name come in the order they had in `songs`.
pub fn sort_by_name(songs: Vec<Song>) -> (r: Vec<Song>)
    ensures
        sorted_by_name(r@),
        r@.to_multiset() == songs@.to_multiset(),
        forall|n: Seq<char>| #[trigger] named(r@, n) == named(songs@, n),
{
    broadcast use vstd::seq_lib::group_to_multiset_ensures;

    let ghost input = songs@;
    let mut rest = songs;
    let mut r: Vec<Song> = Vec::new();
    let ghost mut done: int = 0;
    assert(input.subrange(0, 0) =~= Seq::<Song>::empty());
    assert(input.subrange(0, input.len() as int) =~= input);
    while rest.len() > 0
        invariant
            0 <= done <= input.len(),
            rest@ == input.subrange(done, input.len() as int),
            sorted_by_name(r@),
            r@.to_multiset().add(rest@.to_multiset()) == input.to_multiset(),
            forall|n: Seq<char>| #[trigger] named(r@, n) == named(input.subrange(0, done), n),
        decreases rest@.len(),
    {
        let ghost rest_before = rest@;
        let x = rest.remove(0);
        proof {
            vstd::seq_lib::to_multiset_remove(rest_before, 0);
            assert(rest_before[0] == x);
            assert(rest_before.contains(x));
            rest_before.to_multiset_ensures();
            assert(rest_before.to_multiset().count(x) > 0);
            assert(input[done] == x);
        }
        let mut j = r.len();
        while j > 0 && !text_le(r[j - 1].song_name.as_str(), x.song_name.as_str())
            invariant
                j <= r@.len(),
                forall|m: int| j <= m < r@.len() ==> !name_le(#[trigger] r@[m], x),
            decreases j,
        {
            j = j - 1;
        }
        let ghost before = r@;
        proof {
            assert forall|m: int| j <= m < before.len() implies name_le(x, #[trigger] before[m]) by {
                lemma_bytes_le_total(encode_utf8(x.song_name@), encode_utf8(before[m].song_name@));
            }
            if j > 0 {
                assert forall|m: int| 0 <= m < j implies name_le(#[trigger] before[m], x) by {
                    if m < j - 1 {
                        assert(name_le(before[m], before[j - 1]));
                        lemma_bytes_le_transitive(
                            encode_utf8(before[m].song_name@),
                            encode_utf8(before[j - 1].song_name@),
                            encode_utf8(x.song_name@),
                        );
                    }
                }
            }
        }
        r.insert(j, x);
        proof {
            vstd::seq_lib::to_multiset_insert(before, j as int, x);
            assert forall|a: int, b: int| 0 <= a < b < r@.len() implies name_le(#[trigger] r@[a], #[trigger] r@[b]) by {
                if a < j && b < j {
                    assert(r@[a] == before[a] && r@[b] == before[b]);
                } else if a < j && b == j {
                    assert(r@[a] == before[a]);
                } else if a < j {
                    assert(r@[a] == before[a] && r@[b] == before[b - 1]);
                    assert(name_le(before[a], x));
                    assert(name_le(x, before[b - 1]));
                    lemma_bytes_le_transitive(
                        encode_utf8(before[a].song_name@),
                        encode_utf8(x.song_name@),
                        encode_utf8(before[b - 1].song_name@),
                    );
                } else if a == j {
                    assert(r@[b] == before[b - 1]);
                } else {
                    assert(r@[a] == before[a - 1] && r@[b] == before[b - 1]);
                }
            }
            assert(r@.to_multiset().add(rest@.to_multiset()) =~= input.to_multiset());
            let head = before.subrange(0, j as int);
            let tail = before.subrange(j as int, before.len() as int);
            assert(before =~= head + tail);
            assert(r@ =~= head + (seq![x] + tail));
            assert forall|m: int| 0 <= m < tail.len() implies (#[trigger] tail[m]).song_name@ != x.song_name@ by {
                assert(tail[m] == before[j + m]);
                if tail[m].song_name@ == x.song_name@ {
                    lemma_bytes_le_refl(encode_utf8(x.song_name@));
                }
            }
            assert(input.subrange(0, done + 1) =~= input.subrange(0, done).push(x));
            assert forall|n: Seq<char>| #[trigger] named(r@, n) == named(input.subrange(0, done + 1), n) by {
                lemma_named_concat(head, seq![x] + tail, n);
                lemma_named_concat(seq![x], tail, n);
                lemma_named_concat(head, tail, n);
                assert(seq![x].drop_last() =~= Seq::<Song>::empty());
                assert(seq![x].last() == x);
                assert(named(seq![x].drop_last(), n) =~= Seq::<Song>::empty());
                assert(input.subrange(0, done + 1).drop_last() =~= input.subrange(0, done));
                if n == x.song_name@ {
                    lemma_named_none(tail, n);
                    assert(named(seq![x], n) =~= seq![x]);
                    assert(named(r@, n) =~= named(head, n) + seq![x]);
                    assert(named(before, n) =~= named(head, n));
                } else {
                    assert(named(seq![x], n) =~= Seq::<Song>::empty());
                    assert(named(r@, n) =~= named(head, n) + named(tail, n));
                }
            }
            done = done + 1;
            assert(rest@ =~= input.subrange(done, input.len() as int));
        }
    }
    proof {
        assert(rest@.to_multiset() =~= Multiset::empty());
        assert(r@.to_multiset().add(Multiset::empty()) =~= r@.to_multiset());
        assert(done == input.len());
    }
    r
}

/// The songs that `o` loaded, in order.
pub open spec fn loaded_songs(o: Seq<FolderOutcome>) -> Seq<Song>
    decreases o.len(),
{
    if o.len() == 0 {
        seq![]
    } else {
        match o[0] {
            FolderOutcome::Loaded(s) => seq![s] + loaded_songs(o.drop_first()),
            FolderOutcome::Rejected(_) => loaded_songs(o.drop_first()),
        }
    }
}

/// The paths that `o` rejected, in order.
pub open spec fn rejected_paths(o: Seq<FolderOutcome>) -> Seq<String>
    decreases o.len(),
{
    if o.len() == 0 {
        seq![]
    } else {
        match o[0] {
            FolderOutcome::Loaded(_) => rejected_paths(o.drop_first()),
            FolderOutcome::Rejected(p) => seq![p] + rejected_paths(o.drop_first()),
        }
    }
}

pub open spec fn outcome_path(x: FolderOutcome) -> Seq<char> {
    match x {
        FolderOutcome::Loaded(s) => s.song_folder_path@,
        FolderOutcome::Rejected(p) => p@,
    }
}

/// Every outcome is for another folder.
pub open spec fn distinct_folders(o: Seq<FolderOutcome>) -> bool {
    forall|a: int, b: int| 0 <= a < b < o.len() ==> outcome_path(#[trigger] o[a]) != outcome_path(#[trigger] o[b])
}

/// What a scan returns: the songs ordered by name, and the rejected paths.
pub struct ScanReport {
    pub songs: Vec<Song>,
    pub rejected: Vec<String>,
}

/// Merges the outcomes of all folders and root entries of a scan.
pub fn collect_scan(outcomes: Vec<FolderOutcome>) -> (r: ScanReport)
    ensures
        sorted_by_name(r.songs@),
        r.songs@.to_multiset() == loaded_songs(outcomes@).to_multiset(),
        forall|n: Seq<char>| #[trigger] named(r.songs@, n) == named(loaded_songs(outcomes@), n),
        r.rejected@ == rejected_paths(outcomes@),
{
    let mut rest = outcomes;
    let mut songs: Vec<Song> = Vec::new();
    let mut rejected: Vec<String> = Vec::new();
    while rest.len() > 0
        invariant
            songs@ + loaded_songs(rest@) == loaded_songs(outcomes@),
            rejected@ + rejected_paths(rest@) == rejected_paths(outcomes@),
        decreases rest@.len(),
    {
        let ghost before = rest@;
        let x = rest.remove(0);
        assert(before.drop_first() =~= rest@);
        match x {
            FolderOutcome::Loaded(s) => {
                let ghost acc = songs@;
                songs.push(s);
                assert(acc + (seq![s] + loaded_songs(rest@)) =~= songs@ + loaded_songs(rest@));
            },
            FolderOutcome::Rejected(p) => {
                let ghost acc = rejected@;
                rejected.push(p);
                assert(acc + (seq![p] + rejected_paths(rest@)) =~= rejected@ + rejected_paths(rest@));
            },
        }
    }
    assert(songs@ =~= loaded_songs(outcomes@));
    assert(rejected@ =~= rejected_paths(outcomes@));
    ScanReport { songs: sort_by_name(songs), rejected }
}

proof fn lemma_loaded_paths(o: Seq<FolderOutcome>, p: Seq<char>)
    requires
        forall|k: int| 0 <= k < o.len() ==> outcome_path(#[trigger] o[k]) != p,
    ensures
        forall|k: int| 0 <= k < loaded_songs(o).len() ==> (#[trigger] loaded_songs(o)[k]).song_folder_path@ != p,
    decreases o.len(),
{
    if o.len() > 0 {
        let t = o.drop_first();
        assert forall|k: int| 0 <= k < t.len() implies outcome_path(#[trigger] t[k]) != p by {
            assert(t[k] == o[k + 1]);
        }
        lemma_loaded_paths(t, p);
        assert(outcome_path(o[0]) != p);
        match o[0] {
            FolderOutcome::Loaded(s) => {
                assert forall|k: int| 0 <= k < loaded_songs(o).len() implies (#[trigger] loaded_songs(o)[k]).song_folder_path@ != p by {
                    if k > 0 {
                        assert(loaded_songs(o)[k] == loaded_songs(t)[k - 1]);
                    }
                }
            },
            FolderOutcome::Rejected(_) => {},
        }
    }
}

/// A rejected folder is reported as rejected and is never in the song list:
/// when the outcomes are for distinct folders, the path of a rejected
/// outcome is among the rejected paths, and no loaded song has it.
pub proof fn lemma_rejected_never_listed(o: Seq<FolderOutcome>, i: int)
    requires
        0 <= i < o.len(),
        o[i] is Rejected,
        distinct_folders(o),
    ensures
        rejected_paths(o).contains(o[i]->Rejected_0),
        forall|k: int| 0 <= k < loaded_songs(o).len() ==> (#[trigger] loaded_songs(o)[k]).song_folder_path@ != o[i]->Rejected_0@,
    decreases o.len(),
{
    let p = o[i]->Rejected_0;
    let t = o.drop_first();
    if i == 0 {
        assert(rejected_paths(o)[0] == p);
        assert forall|k: int| 0 <= k < t.len() implies outcome_path(#[trigger] t[k]) != p@ by {
            assert(t[k] == o[k + 1]);
        }
        lemma_loaded_paths(t, p@);
        assert(loaded_songs(o) == loaded_songs(t));
    } else {
        assert(t[i - 1] == o[i]);
        assert forall|a: int, b: int| 0 <= a < b < t.len() implies outcome_path(#[trigger] t[a]) != outcome_path(#[trigger] t[b]) by {
            assert(t[a] == o[a + 1] && t[b] == o[b + 1]);
        }
        lemma_rejected_never_listed(t, i - 1);
        let j = choose|j: int| 0 <= j < rejected_paths(t).len() && rejected_paths(t)[j] == p;
        assert(outcome_path(o[0]) != p@);
        match o[0] {
            FolderOutcome::Loaded(s) => {
                assert(rejected_paths(o) == rejected_paths(t));
                assert forall|k: int| 0 <= k < loaded_songs(o).len() implies (#[trigger] loaded_songs(o)[k]).song_folder_path@ != p@ by {
                    if k > 0 {
                        assert(loaded_songs(o)[k] == loaded_songs(t)[k - 1]);
                    }
                }
            },
            FolderOutcome::Rejected(q) => {
                assert(rejected_paths(o)[j + 1] == p);
                assert(loaded_songs(o) == loaded_songs(t));
            },
        }
    }
}

} // verus!
