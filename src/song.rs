//! Songs and the `info.dat` declaration they are read from.
use vstd::prelude::*;
use vstd::utf8::*;
use crate::json::{array_of, get_member, json_document, member, parse_json, str_of, u64_of, Json};
use crate::digest::{all_text, byte_views, content_hash, level_hash_of};
use crate::naming::{canonical_label, canonical_name_of, is_forbidden, label, lemma_sanitized, replace_forbidden_runs, sanitized, transliterate};
use crate::text::{eq_ignore_ascii_case, equal_ignoring_ascii_case, same_text, utf8_text};

verus! {

/// The seven beatmap characteristics a difficulty set can declare.
#[derive(Clone, Copy, Debug, PartialEq, Eq, Structural)]
pub enum BeatmapCharacteristic {
    Degree360,
    Degree90,
    Standard,
    NoArrows,
    OneSaber,
    Lawless,
    Lightshow,
}

impl BeatmapCharacteristic {
    /// The name under which the declaration file writes this characteristic.
    pub open spec fn name(self) -> Seq<char> {
        match self {
            BeatmapCharacteristic::Degree360 => "360Degree"@,
            BeatmapCharacteristic::Degree90 => "90Degree"@,
            BeatmapCharacteristic::Standard => "Standard"@,
            BeatmapCharacteristic::NoArrows => "NoArrows"@,
            BeatmapCharacteristic::OneSaber => "OneSaber"@,
            BeatmapCharacteristic::Lawless => "Lawless"@,
            BeatmapCharacteristic::Lightshow => "Lightshow"@,
        }
    }

    pub fn as_str(&self) -> (r: &'static str)
        ensures
            r@ == self.name(),
    {
        match self {
            BeatmapCharacteristic::Degree360 => "360Degree",
            BeatmapCharacteristic::Degree90 => "90Degree",
            BeatmapCharacteristic::Standard => "Standard",
            BeatmapCharacteristic::NoArrows => "NoArrows",
            BeatmapCharacteristic::OneSaber => "OneSaber",
            BeatmapCharacteristic::Lawless => "Lawless",
            BeatmapCharacteristic::Lightshow => "Lightshow",
        }
    }

    /// The characteristic written as `name`, if any.
    pub fn from_name(name: &str) -> (r: Option<BeatmapCharacteristic>)
        ensures
            r == characteristic_named(name@),
    {
        if same_text(name, "360Degree") {
            Some(BeatmapCharacteristic::Degree360)
        } else if same_text(name, "90Degree") {
            Some(BeatmapCharacteristic::Degree90)
        } else if same_text(name, "Standard") {
            Some(BeatmapCharacteristic::Standard)
        } else if same_text(name, "NoArrows") {
            Some(BeatmapCharacteristic::NoArrows)
        } else if same_text(name, "OneSaber") {
            Some(BeatmapCharacteristic::OneSaber)
        } else if same_text(name, "Lawless") {
            Some(BeatmapCharacteristic::Lawless)
        } else if same_text(name, "Lightshow") {
            Some(BeatmapCharacteristic::Lightshow)
        } else {
            None
        }
    }
}

pub open spec fn characteristic_named(name: Seq<char>) -> Option<BeatmapCharacteristic> {
    if name == "360Degree"@ {
        Some(BeatmapCharacteristic::Degree360)
    } else if name == "90Degree"@ {
        Some(BeatmapCharacteristic::Degree90)
    } else if name == "Standard"@ {
        Some(BeatmapCharacteristic::Standard)
    } else if name == "NoArrows"@ {
        Some(BeatmapCharacteristic::NoArrows)
    } else if name == "OneSaber"@ {
        Some(BeatmapCharacteristic::OneSaber)
    } else if name == "Lawless"@ {
        Some(BeatmapCharacteristic::Lawless)
    } else if name == "Lightshow"@ {
        Some(BeatmapCharacteristic::Lightshow)
    } else {
        None
    }
}

/// One playable difficulty: its label, rank and beatmap file.
#[derive(Clone, Debug, PartialEq, Eq)]
pub struct DifficultyBeatmap {
    pub difficulty: String,
    pub difficulty_rank: u64,
    pub beatmap_filename: String,
}

/// The beatmap that the JSON value `j` declares, if it declares all three fields.
pub open spec fn beatmap_of(j: Json) -> Option<DifficultyBeatmap> {
    match (
        str_of(member(j, "_difficulty"@)),
        u64_of(member(j, "_difficultyRank"@)),
        str_of(member(j, "_beatmapFilename"@)),
    ) {
        (Some(d), Some(r), Some(f)) => Some(
            DifficultyBeatmap { difficulty: d, difficulty_rank: r, beatmap_filename: f },
        ),
        _ => None,
    }
}

/// The beatmaps of `items`, in order, if every item is a beatmap.
pub open spec fn beatmaps_of(items: Seq<Json>) -> Option<Seq<DifficultyBeatmap>>
    decreases items.len(),
{
    if items.len() == 0 {
        Some(seq![])
    } else {
        match (beatmaps_of(items.drop_last()), beatmap_of(items.last())) {
            (Some(bs), Some(b)) => Some(bs.push(b)),
            _ => None,
        }
    }
}

fn get_str(j: &Json, key: &str) -> (r: Option<String>)
    ensures
        r == str_of(member(*j, key@)),
{
    match get_member(j, key) {
        Some(Json::Str(s)) => Some(s.clone()),
        _ => None,
    }
}

fn get_u64(j: &Json, key: &str) -> (r: Option<u64>)
    ensures
        r == u64_of(member(*j, key@)),
{
    match get_member(j, key) {
        Some(Json::UInt(n)) => Some(*n),
        _ => None,
    }
}

fn get_array<'a>(j: &'a Json, key: &str) -> (r: Option<&'a Vec<Json>>)
    ensures
        r is Some <==> array_of(member(*j, key@)) is Some,
        r matches Some(v) ==> array_of(member(*j, key@)) == Some(v@),
{
    match get_member(j, key) {
        Some(Json::Array(items)) => Some(items),
        _ => None,
    }
}

impl DifficultyBeatmap {
    pub fn new(data: &Json) -> (r: Option<Self>)
        ensures
            r == beatmap_of(*data),
    {
        let difficulty = match get_str(data, "_difficulty") {
            Some(s) => s,
            None => return None,
        };
        let difficulty_rank = match get_u64(data, "_difficultyRank") {
            Some(n) => n,
            None => return None,
        };
        let beatmap_filename = match get_str(data, "_beatmapFilename") {
            Some(s) => s,
            None => return None,
        };
        Some(DifficultyBeatmap { difficulty, difficulty_rank, beatmap_filename })
    }
}

/// A characteristic with its difficulties, in declaration order.
#[derive(Clone, Debug, PartialEq, Eq)]
pub struct DifficultyBeatmapSet {
    pub beatmap_characteristic_name: BeatmapCharacteristic,
    pub difficulty_beatmaps: Vec<DifficultyBeatmap>,
}

impl View for DifficultyBeatmapSet {
    type V = (BeatmapCharacteristic, Seq<DifficultyBeatmap>);

    open spec fn view(&self) -> Self::V {
        (self.beatmap_characteristic_name, self.difficulty_beatmaps@)
    }
}

/// The difficulty set that the JSON value `j` declares: a known characteristic
/// and an array of which every item is a beatmap.
pub open spec fn beatmap_set_of(j: Json) -> Option<(BeatmapCharacteristic, Seq<DifficultyBeatmap>)> {
    match str_of(member(j, "_beatmapCharacteristicName"@)) {
        Some(name) => match characteristic_named(name@) {
            Some(c) => match array_of(member(j, "_difficultyBeatmaps"@)) {
                Some(items) => match beatmaps_of(items) {
                    Some(bs) => Some((c, bs)),
                    None => None,
                },
                None => None,
            },
            None => None,
        },
        None => None,
    }
}

impl DifficultyBeatmapSet {
    pub fn new(data: &Json) -> (r: Option<Self>)
        ensures
            r is Some <==> beatmap_set_of(*data) is Some,
            r matches Some(s) ==> beatmap_set_of(*data) == Some(s@),
    {
        let name = match get_str(data, "_beatmapCharacteristicName") {
            Some(s) => s,
            None => return None,
        };
        let beatmap_characteristic_name = match BeatmapCharacteristic::from_name(name.as_str()) {
            Some(c) => c,
            None => return None,
        };
        let items = match get_array(data, "_difficultyBeatmaps") {
            Some(v) => v,
            None => return None,
        };
        let mut difficulty_beatmaps: Vec<DifficultyBeatmap> = Vec::new();
        let mut i: usize = 0;
        while i < items.len()
            invariant
                0 <= i <= items@.len(),
                beatmaps_of(items@.subrange(0, i as int)) == Some(difficulty_beatmaps@),
                array_of(member(*data, "_difficultyBeatmaps"@)) == Some(items@),
                str_of(member(*data, "_beatmapCharacteristicName"@)) == Some(name),
                characteristic_named(name@) == Some(beatmap_characteristic_name),
            decreases items@.len() - i,
        {
            assert(items@.subrange(0, i + 1).drop_last() =~= items@.subrange(0, i as int));
            match DifficultyBeatmap::new(&items[i]) {
                Some(b) => difficulty_beatmaps.push(b),
                None => {
                    proof { lemma_beatmaps_prefix_fails(items@, i as int); }
                    return None;
                },
            }
            i = i + 1;
        }
        assert(items@.subrange(0, i as int) =~= items@);
        Some(DifficultyBeatmapSet { beatmap_characteristic_name, difficulty_beatmaps })
    }
}

/// Once an item fails to decode, every longer prefix fails too.
proof fn lemma_beatmaps_prefix_fails(items: Seq<Json>, i: int)
    requires
        0 <= i < items.len(),
        beatmap_of(items[i]) is None,
    ensures
        beatmaps_of(items) is None,
    decreases items.len(),
{
    if i < items.len() - 1 {
        assert(items.drop_last()[i] == items[i]);
        lemma_beatmaps_prefix_fails(items.drop_last(), i);
    }
}

/// The difficulty sets of `items`, in order, if every item is one.
pub open spec fn beatmap_sets_of(items: Seq<Json>) -> Option<
    Seq<(BeatmapCharacteristic, Seq<DifficultyBeatmap>)>,
>
    decreases items.len(),
{
    if items.len() == 0 {
        Some(seq![])
    } else {
        match (beatmap_sets_of(items.drop_last()), beatmap_set_of(items.last())) {
            (Some(ss), Some(s)) => Some(ss.push(s)),
            _ => None,
        }
    }
}

proof fn lemma_sets_prefix_fails(items: Seq<Json>, i: int)
    requires
        0 <= i < items.len(),
        beatmap_set_of(items[i]) is None,
    ensures
        beatmap_sets_of(items) is None,
    decreases items.len(),
{
    if i < items.len() - 1 {
        assert(items.drop_last()[i] == items[i]);
        lemma_sets_prefix_fails(items.drop_last(), i);
    }
}

/// The contents of an `info.dat` declaration file.
#[derive(Clone, Debug)]
pub struct Declaration {
    pub song_name: String,
    pub song_sub_name: String,
    pub song_author_name: String,
    pub level_author_name: String,
    pub beats_per_minute: u64,
    pub song_filename: String,
    pub cover_image_filename: String,
    pub difficulty_beatmap_sets: Vec<DifficultyBeatmapSet>,
}

/// The JSON document held by the bytes of a declaration file: `None` where
/// the bytes are not UTF-8 text or the text is not JSON.
pub open spec fn declaration_document(bytes: Seq<u8>) -> Option<Json> {
    if valid_utf8(bytes) {
        json_document(decode_utf8(bytes))
    } else {
        None
    }
}

pub open spec fn declared_sets(j: Json) -> Option<Seq<(BeatmapCharacteristic, Seq<DifficultyBeatmap>)>> {
    match array_of(member(j, "_difficultyBeatmapSets"@)) {
        Some(items) => beatmap_sets_of(items),
        None => None,
    }
}

/// Every required field of the declaration is present with its type, and
/// every difficulty set decodes.
pub open spec fn declaration_valid(j: Json) -> bool {
    &&& str_of(member(j, "_songName"@)) is Some
    &&& str_of(member(j, "_songSubName"@)) is Some
    &&& str_of(member(j, "_songAuthorName"@)) is Some
    &&& str_of(member(j, "_levelAuthorName"@)) is Some
    &&& u64_of(member(j, "_beatsPerMinute"@)) is Some
    &&& str_of(member(j, "_songFilename"@)) is Some
    &&& str_of(member(j, "_coverImageFilename"@)) is Some
    &&& declared_sets(j) is Some
}

/// `d` holds exactly what the JSON document `j` declares.
pub open spec fn declares(d: Declaration, j: Json) -> bool {
    &&& str_of(member(j, "_songName"@)) == Some(d.song_name)
    &&& str_of(member(j, "_songSubName"@)) == Some(d.song_sub_name)
    &&& str_of(member(j, "_songAuthorName"@)) == Some(d.song_author_name)
    &&& str_of(member(j, "_levelAuthorName"@)) == Some(d.level_author_name)
    &&& u64_of(member(j, "_beatsPerMinute"@)) == Some(d.beats_per_minute)
    &&& str_of(member(j, "_songFilename"@)) == Some(d.song_filename)
    &&& str_of(member(j, "_coverImageFilename"@)) == Some(d.cover_image_filename)
    &&& declared_sets(j) == Some(d.difficulty_beatmap_sets@.map_values(|s: DifficultyBeatmapSet| s@))
}

/// The beatmap file names of `sets`: sets in order, and within a set its
/// beatmaps in order.
pub open spec fn beatmap_filenames_of(sets: Seq<(BeatmapCharacteristic, Seq<DifficultyBeatmap>)>) -> Seq<String>
    decreases sets.len(),
{
    if sets.len() == 0 {
        seq![]
    } else {
        beatmap_filenames_of(sets.drop_last()) + sets.last().1.map_values(
            |b: DifficultyBeatmap| b.beatmap_filename,
        )
    }
}

impl Declaration {
    /// The set view of the declared difficulty sets.
    pub open spec fn sets(self) -> Seq<(BeatmapCharacteristic, Seq<DifficultyBeatmap>)> {
        self.difficulty_beatmap_sets@.map_values(|s: DifficultyBeatmapSet| s@)
    }

    /// Reads a declaration from the bytes of its file. Fails closed: bytes
    /// that are not UTF-8 JSON reject the declaration, as does anything that
    /// `from_json` rejects.
    pub fn parse(bytes: &[u8]) -> (r: Option<Declaration>)
        ensures
            r is Some <==> (declaration_document(bytes@) matches Some(j) && declaration_valid(j)),
            r matches Some(d) ==> declares(d, declaration_document(bytes@)->0),
    {
        let text = match utf8_text(bytes) {
            Some(t) => t,
            None => return None,
        };
        match parse_json(text) {
            Some(doc) => Declaration::from_json(&doc),
            None => None,
        }
    }

    /// The declaration that the JSON document `doc` holds. Any missing or
    /// mistyped field, unknown characteristic or undecodable beatmap rejects
    /// the whole declaration.
    pub fn from_json(doc: &Json) -> (r: Option<Declaration>)
        ensures
            r is Some <==> declaration_valid(*doc),
            r matches Some(d) ==> declares(d, *doc),
    {
        let items = match get_array(doc, "_difficultyBeatmapSets") {
            Some(v) => v,
            None => return None,
        };
        let mut difficulty_beatmap_sets: Vec<DifficultyBeatmapSet> = Vec::new();
        let mut i: usize = 0;
        while i < items.len()
            invariant
                0 <= i <= items@.len(),
                beatmap_sets_of(items@.subrange(0, i as int)) == Some(
                    difficulty_beatmap_sets@.map_values(|s: DifficultyBeatmapSet| s@),
                ),
                array_of(member(*doc, "_difficultyBeatmapSets"@)) == Some(items@),
            decreases items@.len() - i,
        {
            assert(items@.subrange(0, i + 1).drop_last() =~= items@.subrange(0, i as int));
            match DifficultyBeatmapSet::new(&items[i]) {
                Some(set) => {
                    let ghost prev = difficulty_beatmap_sets@;
                    difficulty_beatmap_sets.push(set);
                    assert(difficulty_beatmap_sets@.map_values(|s: DifficultyBeatmapSet| s@)
                        =~= prev.map_values(|s: DifficultyBeatmapSet| s@).push(set@));
                },
                None => {
                    proof { lemma_sets_prefix_fails(items@, i as int); }
                    return None;
                },
            }
            i = i + 1;
        }
        assert(items@.subrange(0, i as int) =~= items@);
        let song_name = match get_str(doc, "_songName") {
            Some(s) => s,
            None => return None,
        };
        let song_sub_name = match get_str(doc, "_songSubName") {
            Some(s) => s,
            None => return None,
        };
        let song_author_name = match get_str(doc, "_songAuthorName") {
            Some(s) => s,
            None => return None,
        };
        let level_author_name = match get_str(doc, "_levelAuthorName") {
            Some(s) => s,
            None => return None,
        };
        let beats_per_minute = match get_u64(doc, "_beatsPerMinute") {
            Some(n) => n,
            None => return None,
        };
        let song_filename = match get_str(doc, "_songFilename") {
            Some(s) => s,
            None => return None,
        };
        let cover_image_filename = match get_str(doc, "_coverImageFilename") {
            Some(s) => s,
            None => return None,
        };
        Some(Declaration {
            song_name,
            song_sub_name,
            song_author_name,
            level_author_name,
            beats_per_minute,
            song_filename,
            cover_image_filename,
            difficulty_beatmap_sets,
        })
    }

    /// The beatmap files that the declaration names, in hashing order.
    pub fn beatmap_filenames(&self) -> (r: Vec<String>)
        ensures
            r@ == beatmap_filenames_of(self.sets()),
    {
        let sets = &self.difficulty_beatmap_sets;
        let mut r: Vec<String> = Vec::new();
        let mut i: usize = 0;
        while i < sets.len()
            invariant
                0 <= i <= sets@.len(),
                *sets == self.difficulty_beatmap_sets,
                r@ == beatmap_filenames_of(self.sets().subrange(0, i as int)),
            decreases sets@.len() - i,
        {
            assert(self.sets().subrange(0, i + 1).drop_last() =~= self.sets().subrange(0, i as int));
            let beatmaps = &sets[i].difficulty_beatmaps;
            let ghost before = r@;
            let mut k: usize = 0;
            while k < beatmaps.len()
                invariant
                    0 <= k <= beatmaps@.len(),
                    r@ == before + beatmaps@.subrange(0, k as int).map_values(
                        |b: DifficultyBeatmap| b.beatmap_filename,
                    ),
                decreases beatmaps@.len() - k,
            {
                r.push(beatmaps[k].beatmap_filename.clone());
                assert(beatmaps@.subrange(0, k + 1).map_values(|b: DifficultyBeatmap| b.beatmap_filename)
                    =~= beatmaps@.subrange(0, k as int).map_values(|b: DifficultyBeatmap| b.beatmap_filename).push(beatmaps@[k as int].beatmap_filename));
                k = k + 1;
            }
            assert(beatmaps@.subrange(0, k as int) =~= beatmaps@);
            i = i + 1;
        }
        assert(self.sets().subrange(0, i as int) =~= self.sets());
        r
    }
}

/// What a folder listing shows of one entry.
#[derive(Clone, Debug)]
pub struct FolderEntry {
    pub name: String,
    pub is_file: bool,
}

/// An entry is the declaration file when it is a file named `info.dat`, up to
/// ASCII case.
pub open spec fn is_declaration(e: FolderEntry) -> bool {
    e.is_file && equal_ignoring_ascii_case(e.name@, "info.dat"@)
}

/// The index of the first entry of a folder listing that is its declaration
/// file; `None` where the folder has none.
pub fn find_declaration(entries: &Vec<FolderEntry>) -> (r: Option<usize>)
    ensures
        r matches Some(i) ==> i < entries@.len() && is_declaration(entries@[i as int])
            && forall|k: int| 0 <= k < i ==> !is_declaration(#[trigger] entries@[k]),
        r is None ==> forall|k: int| 0 <= k < entries@.len() ==> !is_declaration(#[trigger] entries@[k]),
{
    let mut i: usize = 0;
    while i < entries.len()
        invariant
            0 <= i <= entries@.len(),
            forall|k: int| 0 <= k < i ==> !is_declaration(#[trigger] entries@[k]),
        decreases entries@.len() - i,
    {
        if entries[i].is_file && eq_ignore_ascii_case(entries[i].name.as_str(), "info.dat") {
            return Some(i);
        }
        i = i + 1;
    }
    None
}

/// Every character of `s` lies below U+007F: such text is its own ASCII
/// transliteration.
pub open spec fn below_delete(s: Seq<char>) -> bool {
    forall|i: int| 0 <= i < s.len() ==> #[trigger] s[i] < '\u{7f}'
}

/// A folder whose declaration file holds `declaration` and whose named
/// beatmap files hold `files` is a song: the declaration is valid, one file is
/// given per beatmap it names, and every file is UTF-8 text.
pub open spec fn folder_accepted(declaration: Seq<u8>, files: Seq<Seq<u8>>) -> bool {
    &&& declaration_document(declaration) matches Some(j)
    &&& declaration_valid(j)
    &&& files.len() == beatmap_filenames_of(declared_sets(j)->0).len()
    &&& all_text(declaration, files)
}

/// The declared part of a song.
pub open spec fn declaration_of(s: Song) -> Declaration {
    Declaration {
        song_name: s.song_name,
        song_sub_name: s.song_sub_name,
        song_author_name: s.song_author_name,
        level_author_name: s.level_author_name,
        beats_per_minute: s.beats_per_minute,
        song_filename: s.song_filename,
        cover_image_filename: s.cover_image_filename,
        difficulty_beatmap_sets: s.difficulty_beatmap_sets,
    }
}

/// One song of the library. Identity is the folder: two songs with the same
/// folder path are the same song, whatever their other fields hold.
#[derive(Clone, Debug, Eq)]
pub struct Song {
    pub song_folder_path: String,
    pub song_name: String,
    pub song_sub_name: String,
    pub song_author_name: String,
    pub level_author_name: String,
    pub beats_per_minute: u64,
    pub song_filename: String,
    pub cover_image_filename: String,
    pub difficulty_beatmap_sets: Vec<DifficultyBeatmapSet>,
    /// Lower-case hex SHA-1 of the declaration and beatmap files.
    pub level_hash: String,
    /// The catalog id, or the sentinel where it could not be resolved.
    pub level_id: String,
}

impl PartialEq for Song {
    fn eq(&self, other: &Song) -> (r: bool)
        ensures
            r == (self.song_folder_path@ == other.song_folder_path@),
    {
        same_text(self.song_folder_path.as_str(), other.song_folder_path.as_str())
    }
}

impl vstd::std_specs::cmp::PartialEqSpecImpl for Song {
    open spec fn obeys_eq_spec() -> bool {
        true
    }

    open spec fn eq_spec(&self, other: &Song) -> bool {
        self.song_folder_path@ == other.song_folder_path@
    }
}

impl Song {
    /// The song of the folder at `song_path` with declaration `declaration`,
    /// content hash `level_hash` and catalog id `level_id`: the last step of
    /// loading a folder (see `SongLoad`).
    pub fn from_parts(song_path: String, declaration: Declaration, level_hash: String, level_id: String) -> (r: Song)
        ensures
            r.song_folder_path == song_path,
            r.song_name == declaration.song_name,
            r.song_sub_name == declaration.song_sub_name,
            r.song_author_name == declaration.song_author_name,
            r.level_author_name == declaration.level_author_name,
            r.beats_per_minute == declaration.beats_per_minute,
            r.song_filename == declaration.song_filename,
            r.cover_image_filename == declaration.cover_image_filename,
            r.difficulty_beatmap_sets == declaration.difficulty_beatmap_sets,
            r.level_hash == level_hash,
            r.level_id == level_id,
    {
        Song {
            song_folder_path: song_path,
            song_name: declaration.song_name,
            song_sub_name: declaration.song_sub_name,
            song_author_name: declaration.song_author_name,
            level_author_name: declaration.level_author_name,
            beats_per_minute: declaration.beats_per_minute,
            song_filename: declaration.song_filename,
            cover_image_filename: declaration.cover_image_filename,
            difficulty_beatmap_sets: declaration.difficulty_beatmap_sets,
            level_hash,
            level_id,
        }
    }

    /// The song of the folder at `song_path`, read from the bytes of its
    /// declaration file and of the beatmap files that the declaration names
    /// (in `beatmap_filenames` order), with catalog id `level_id`.
    ///
    /// `None` where the declaration is not valid (not UTF-8 JSON, a missing or
    /// mistyped field, an unknown characteristic, an undecodable beatmap), where
    /// the number of beatmap files differs from the number named, or where a
    /// file is not UTF-8 text. Otherwise every field comes from the
    /// declaration, and the content hash from the bytes alone.
    pub fn from_path(song_path: String, declaration_file: &[u8], beatmap_files: &Vec<Vec<u8>>, level_id: String) -> (r: Option<Song>)
        ensures
            r is Some <==> folder_accepted(declaration_file@, byte_views(beatmap_files@)),
            r matches Some(s) ==> {
                &&& s.song_folder_path == song_path
                &&& declares(declaration_of(s), declaration_document(declaration_file@)->0)
                &&& s.level_hash@ == level_hash_of(declaration_file@, byte_views(beatmap_files@))
                &&& s.level_id == level_id
            },
    {
        let declaration = match Declaration::parse(declaration_file) {
            Some(d) => d,
            None => return None,
        };
        let names = declaration.beatmap_filenames();
        if names.len() != beatmap_files.len() {
            return None;
        }
        match content_hash(declaration_file, beatmap_files) {
            Some(h) => Some(Song::from_parts(song_path, declaration, h, level_id)),
            None => None,
        }
    }

    /// The name the song's folder gets on renaming:
    /// `{id} ({name} - {author})` with name and level author transliterated to
    /// ASCII, and every run of forbidden characters replaced by `_`.
    pub fn get_canonical_name(&self) -> (r: String)
        ensures
            r@ == canonical_name_of(self.level_id@, self.song_name@, self.level_author_name@),
            forall|i: int| 0 <= i < r@.len() ==> !is_forbidden(#[trigger] r@[i]),
            below_delete(self.song_name@) && below_delete(self.level_author_name@) ==> r@ == sanitized(
                label(self.level_id@, self.song_name@, self.level_author_name@),
            ),
    {
        let name = transliterate(self.song_name.as_str());
        let author = transliterate(self.level_author_name.as_str());
        let label = canonical_label(self.level_id.as_str(), name.as_str(), author.as_str());
        let r = replace_forbidden_runs(label.as_str());
        proof { lemma_sanitized(label@); }
        r
    }

    pub fn song_folder_path(&self) -> (r: &str)
        ensures
            r@ == self.song_folder_path@,
    {
        self.song_folder_path.as_str()
    }

    pub fn song_name(&self) -> (r: &str)
        ensures
            r@ == self.song_name@,
    {
        self.song_name.as_str()
    }

    pub fn beats_per_minute(&self) -> (r: u64)
        ensures
            r == self.beats_per_minute,
    {
        self.beats_per_minute
    }

    pub fn level_hash(&self) -> (r: &str)
        ensures
            r@ == self.level_hash@,
    {
        self.level_hash.as_str()
    }

    pub fn level_id(&self) -> (r: &str)
        ensures
            r@ == self.level_id@,
    {
        self.level_id.as_str()
    }
}

} // verus!
