//! The catalog: tracks found under a library root, their display fields,
//! their order and their positional ids.
use crate::text::{
    clock_text, compare_text, format_clock, lemma_text_order_flip, lemma_text_order_transitive,
    lemma_truncated_not_empty, text_order, truncate_by_width, truncated,
};
use rayon::slice::ParallelSliceMut;
use std::cmp::Ordering;
use vstd::prelude::*;

verus! {

/// One playable file of the catalog.
///
/// `id` is the track's position in the catalog it was taken from; `path`
/// is the only identity that survives a rescan or a re-sort.
#[derive(Debug)]
pub struct Track {
    pub id: usize,
    pub path: String,
    pub title: String,
    pub artist: String,
    /// Length as `MM:SS`.
    pub duration: String,
    /// Length in whole seconds.
    pub duration_secs: u32,
}

impl Clone for Track {
    fn clone(&self) -> (r: Self)
        ensures
            r == *self,
    {
        Track {
            id: self.id,
            path: self.path.clone(),
            title: self.title.clone(),
            artist: self.artist.clone(),
            duration: self.duration.clone(),
            duration_secs: self.duration_secs,
        }
    }
}

/// Field a catalog is ordered by; the path breaks ties.
#[derive(Clone, Copy, Debug, PartialEq, Eq, Structural)]
pub enum SortKey {
    Title,
    Artist,
    Duration,
}

/// What the tag reader found in one file.
#[derive(Debug)]
pub struct TagInfo {
    pub title: Option<String>,
    pub artist: Option<String>,
    /// Length in whole seconds.
    pub duration_secs: u32,
}

/// One file met while walking the library root: its path, and its tags
/// where they could be read.
#[derive(Debug)]
pub struct ScannedFile {
    pub path: String,
    pub tags: Option<TagInfo>,
}

/// The files that the catalog takes in: the audio extensions.
pub const AUDIO_FILES: &'static str = "**/*.{mp3,flac,wav,ogg}";

/// Display budget of a title or an artist, in character cells.
pub const NAME_CELLS: usize = 24;

/// What `globset` decides for `path` against glob `pattern`: `None` when
/// the pattern does not compile.
pub uninterp spec fn glob_accepts(pattern: Seq<char>, path: Seq<char>) -> Option<bool>;

/// Relies on `globset::GlobBuilder::build`, `Glob::compile_matcher` and
/// `GlobMatcher::is_match`: whether `path` matches `pattern`. Only the
/// audio glob is admitted: `compile_matcher` panics on patterns whose regex
/// is too deep or too large, which that small pattern is not.
#[verifier::external_body]
fn glob_match(pattern: &str, path: &str) -> (r: Option<bool>)
    requires
        pattern@ == AUDIO_FILES@,
    ensures
        r == glob_accepts(pattern@, path@),
{
    match globset::GlobBuilder::new(pattern).build() {
        Ok(glob) => Some(glob.compile_matcher().is_match(path)),
        Err(_) => None,
    }
}

/// What `std::path::Path::file_stem` gives for `path`: the file name
/// without its last extension.
pub uninterp spec fn stem_of(path: Seq<char>) -> Option<Seq<char>>;

/// Relies on `std::path::Path::file_stem`: the file name of `path` without
/// its last extension, if it has a file name.
#[verifier::external_body]
fn file_stem(path: &str) -> (r: Option<String>)
    ensures
        match r {
            Some(s) => stem_of(path@) == Some(s@),
            None => stem_of(path@) is None,
        },
{
    std::path::Path::new(path).file_stem().and_then(|s| s.to_str()).map(|s| s.to_string())
}

/// Whether a path names a file of one of the audio extensions.
pub open spec fn audio_path(path: Seq<char>) -> bool {
    glob_accepts(AUDIO_FILES@, path) == Some(true)
}

pub fn is_audio_path(path: &str) -> (r: bool)
    ensures
        r == audio_path(path@),
{
    match glob_match(AUDIO_FILES, path) {
        Some(m) => m,
        None => false,
    }
}

/// A file becomes a track when it has an audio extension and its tags
/// could be read.
pub open spec fn playable(f: ScannedFile) -> bool {
    &&& f.tags is Some
    &&& audio_path(f.path@)
}

/// The playable files, in the order met.
pub open spec fn playable_files(files: Seq<ScannedFile>) -> Seq<ScannedFile>
    decreases files.len(),
{
    if files.len() == 0 {
        Seq::empty()
    } else {
        let rest = playable_files(files.drop_last());
        if playable(files.last()) {
            rest.push(files.last())
        } else {
            rest
        }
    }
}

/// A tag value that is there and not empty.
pub open spec fn present(v: Option<String>) -> Option<Seq<char>> {
    match v {
        Some(s) => if s@.len() > 0 {
            Some(s@)
        } else {
            None
        },
        None => None,
    }
}

/// The title shown for a file: its tag, else its file stem, else
/// `unknown`; an empty tag or stem counts as missing.
pub open spec fn title_source(path: Seq<char>, tags: TagInfo) -> Seq<char> {
    match present(tags.title) {
        Some(t) => t,
        None => match stem_of(path) {
            Some(stem) => if stem.len() > 0 {
                stem
            } else {
                "unknown"@
            },
            None => "unknown"@,
        },
    }
}

/// The artist shown for a file: its tag, else `unknown`; an empty tag
/// counts as missing.
pub open spec fn artist_source(tags: TagInfo) -> Seq<char> {
    match present(tags.artist) {
        Some(a) => a,
        None => "unknown"@,
    }
}

/// `t` is the track made of `path` and `tags`, before numbering.
pub open spec fn describes(t: Track, path: Seq<char>, tags: TagInfo) -> bool {
    &&& t.id == 0
    &&& t.path@ == path
    &&& t.title@ == truncated(title_source(path, tags), NAME_CELLS as int)
    &&& t.artist@ == truncated(artist_source(tags), NAME_CELLS as int)
    &&& t.title@.len() > 0
    &&& t.artist@.len() > 0
    &&& t.duration@ == clock_text(tags.duration_secs as nat)
    &&& t.duration_secs == tags.duration_secs
}

/// The track of one file: display names cut to the budget, length as
/// `MM:SS`, id 0.
pub fn track_of(path: &String, tags: &TagInfo) -> (r: Track)
    ensures
        describes(r, path@, *tags),
{
    proof {
        reveal_strlit("unknown");
        lemma_truncated_not_empty(title_source(path@, *tags), NAME_CELLS as int);
        lemma_truncated_not_empty(artist_source(*tags), NAME_CELLS as int);
    }
    let title = match &tags.title {
        Some(t) if !t.as_str().is_empty() => truncate_by_width(t.as_str(), NAME_CELLS),
        _ => match file_stem(path.as_str()) {
            Some(stem) if !stem.as_str().is_empty() => truncate_by_width(
                stem.as_str(),
                NAME_CELLS,
            ),
            _ => truncate_by_width("unknown", NAME_CELLS),
        },
    };
    let artist = match &tags.artist {
        Some(a) if !a.as_str().is_empty() => truncate_by_width(a.as_str(), NAME_CELLS),
        _ => truncate_by_width("unknown", NAME_CELLS),
    };
    Track {
        id: 0,
        path: path.clone(),
        title,
        artist,
        duration: format_clock(tags.duration_secs as u64),
        duration_secs: tags.duration_secs,
    }
}

/// `m` holds one track for each file of `files`, in the same order.
pub open spec fn made_from(m: Seq<Track>, files: Seq<ScannedFile>) -> bool {
    &&& m.len() == files.len()
    &&& forall|k: int|
        0 <= k < m.len() ==> describes(#[trigger] m[k], files[k].path@, files[k].tags->0)
}

/// The catalog of a library: one track for each playable file, sorted by
/// `key` (turned around when not `ascending`, ties by path) and numbered
/// `0..n`. Files that are not audio or whose tags could not be read are
/// left out; no files, or none playable, give an empty catalog.
pub fn build_catalog(files: &Vec<ScannedFile>, key: SortKey, ascending: bool) -> (r: Vec<Track>)
    ensures
        r@.len() == playable_files(files@).len(),
        exists|m: Seq<Track>|
            made_from(m, playable_files(files@)) && sorted_catalog_of(m, r@, key, ascending),
{
    let mut made: Vec<Track> = Vec::new();
    let mut i: usize = 0;
    while i < files.len()
        invariant
            i <= files@.len(),
            made_from(made@, playable_files(files@.take(i as int))),
        decreases files.len() - i,
    {
        let f = &files[i];
        proof {
            assert(files@.take(i + 1).drop_last() =~= files@.take(i as int));
            assert(files@.take(i + 1).last() == files@[i as int]);
        }
        match &f.tags {
            Some(tags) => {
                if is_audio_path(f.path.as_str()) {
                    let t = track_of(&f.path, tags);
                    made.push(t);
                }
            },
            None => {},
        }
        i = i + 1;
    }
    proof {
        assert(files@.take(files@.len() as int) =~= files@);
    }
    sort_catalog(made, key, ascending)
}

/// A library with no playable file gives an empty catalog (see
/// [`build_catalog`], whose result is as long as the playable files).
pub proof fn lemma_nothing_playable(files: Seq<ScannedFile>)
    requires
        forall|i: int| 0 <= i < files.len() ==> !playable(#[trigger] files[i]),
    ensures
        playable_files(files).len() == 0,
    decreases files.len(),
{
    if files.len() > 0 {
        let rest = files.drop_last();
        assert forall|i: int| 0 <= i < rest.len() implies !playable(#[trigger] rest[i]) by {
            assert(rest[i] == files[i]);
        }
        lemma_nothing_playable(rest);
    }
}

/// First position of the catalog whose track has path `p`.
pub open spec fn path_index(cat: Seq<Track>, p: Seq<char>) -> Option<int>
    decreases cat.len(),
{
    if cat.len() == 0 {
        None
    } else if cat[0].path@ == p {
        Some(0)
    } else {
        match path_index(cat.drop_first(), p) {
            Some(i) => Some(i + 1),
            None => None,
        }
    }
}

/// `t` as the catalog knows it: the catalog's entry with the same path,
/// or `t` itself where the catalog has none.
pub open spec fn resolve(cat: Seq<Track>, t: Track) -> Track {
    match path_index(cat, t.path@) {
        Some(i) => cat[i],
        None => t,
    }
}

/// Every id equals the track's position.
pub open spec fn ids_positional(cat: Seq<Track>) -> bool {
    forall|i: int| 0 <= i < cat.len() ==> (#[trigger] cat[i]).id == i
}

pub proof fn lemma_path_index(cat: Seq<Track>, p: Seq<char>)
    ensures
        match path_index(cat, p) {
            Some(i) => 0 <= i < cat.len() && cat[i].path@ == p && forall|j: int|
                0 <= j < i ==> (#[trigger] cat[j]).path@ != p,
            None => forall|j: int| 0 <= j < cat.len() ==> (#[trigger] cat[j]).path@ != p,
        },
    decreases cat.len(),
{
    if cat.len() > 0 {
        lemma_path_index(cat.drop_first(), p);
        assert forall|j: int| 1 <= j < cat.len() implies cat[j] == cat.drop_first()[j - 1] by {}
    }
}

/// Resolving twice gives what resolving once gave.
pub proof fn lemma_resolve_idempotent(cat: Seq<Track>, t: Track)
    ensures
        resolve(cat, resolve(cat, t)) == resolve(cat, t),
{
    lemma_path_index(cat, t.path@);
    match path_index(cat, t.path@) {
        Some(i) => {
            lemma_path_index(cat, cat[i].path@);
            match path_index(cat, cat[i].path@) {
                Some(k) => {
                    assert(k == i);
                },
                None => {},
            }
        },
        None => {},
    }
}

/// In a catalog free of duplicate paths, each entry is its own resolution.
pub proof fn lemma_resolve_member(cat: Seq<Track>, j: int)
    requires
        paths_distinct(cat),
        0 <= j < cat.len(),
    ensures
        resolve(cat, cat[j]) == cat[j],
{
    lemma_path_index(cat, cat[j].path@);
    match path_index(cat, cat[j].path@) {
        Some(i) => {
            if i != j {
                assert(i < j);
                assert(cat[i].path@ != cat[j].path@);
            }
        },
        None => {},
    }
}

/// Looks `path` up in the catalog.
pub fn find_by_path(cat: &Vec<Track>, path: &String) -> (r: Option<usize>)
    ensures
        match r {
            Some(i) => i < cat@.len() && path_index(cat@, path@) == Some(i as int),
            None => path_index(cat@, path@) is None,
        },
{
    proof {
        lemma_path_index(cat@, path@);
    }
    let mut i: usize = 0;
    while i < cat.len()
        invariant
            i <= cat@.len(),
            forall|j: int| 0 <= j < i ==> (#[trigger] cat@[j]).path@ != path@,
            match path_index(cat@, path@) {
                Some(k) => 0 <= k < cat@.len() && cat@[k].path@ == path@ && forall|j: int|
                    0 <= j < k ==> (#[trigger] cat@[j]).path@ != path@,
                None => forall|j: int| 0 <= j < cat@.len() ==> (#[trigger] cat@[j]).path@ != path@,
            },
        decreases cat.len() - i,
    {
        if cat[i].path == *path {
            return Some(i);
        }
        i = i + 1;
    }
    None
}

/// The catalog's own copy of `t` (see [`resolve`]).
pub fn resolve_track(cat: &Vec<Track>, t: Track) -> (r: Track)
    ensures
        r == resolve(cat@, t),
{
    match find_by_path(cat, &t.path) {
        Some(i) => cat[i].clone(),
        None => t,
    }
}

/// Order of two numbers.
pub open spec fn number_order(a: int, b: int) -> Ordering {
    if a < b {
        Ordering::Less
    } else if a > b {
        Ordering::Greater
    } else {
        Ordering::Equal
    }
}

/// Order of the sort field alone, ascending.
pub open spec fn key_order(a: Track, b: Track, key: SortKey) -> Ordering {
    match key {
        SortKey::Title => text_order(a.title@, b.title@),
        SortKey::Artist => text_order(a.artist@, b.artist@),
        SortKey::Duration => number_order(a.duration_secs as int, b.duration_secs as int),
    }
}

/// The order of a catalog sorted by `key`: by the sort field, turned
/// around when not `ascending`, then by path.
pub open spec fn track_order(a: Track, b: Track, key: SortKey, ascending: bool) -> Ordering {
    let k = key_order(a, b, key);
    if k == Ordering::Equal {
        text_order(a.path@, b.path@)
    } else if ascending {
        k
    } else if k == Ordering::Less {
        Ordering::Greater
    } else {
        Ordering::Less
    }
}

/// No track comes before one that it orders after.
pub open spec fn sorted_by(s: Seq<Track>, key: SortKey, ascending: bool) -> bool {
    forall|i: int, j: int|
        0 <= i < j < s.len() ==> track_order(#[trigger] s[i], #[trigger] s[j], key, ascending)
            != Ordering::Greater
}

/// No two tracks share a path.
pub open spec fn paths_distinct(s: Seq<Track>) -> bool {
    forall|i: int, j: int| 0 <= i < j < s.len() ==> (#[trigger] s[i]).path@ != (#[trigger] s[j]).path@
}

/// The track with its id left out of account.
pub open spec fn unnumbered(t: Track) -> Track {
    Track { id: 0, ..t }
}

/// `a` and `b` hold the same tracks, ids aside, as many times each.
pub open spec fn same_tracks(a: Seq<Track>, b: Seq<Track>) -> bool {
    a.map_values(|t: Track| unnumbered(t)).to_multiset() == b.map_values(
        |t: Track| unnumbered(t),
    ).to_multiset()
}

/// `r` is `s` sorted by `key` and numbered by position.
pub open spec fn sorted_catalog_of(s: Seq<Track>, r: Seq<Track>, key: SortKey, ascending: bool) -> bool {
    &&& r.len() == s.len()
    &&& same_tracks(r, s)
    &&& sorted_by(r, key, ascending)
    &&& ids_positional(r)
}

proof fn lemma_track_order_flip(x: Track, y: Track, key: SortKey, ascending: bool)
    ensures
        track_order(x, y, key, ascending) == Ordering::Less ==> track_order(y, x, key, ascending)
            == Ordering::Greater,
        track_order(x, y, key, ascending) == Ordering::Greater ==> track_order(y, x, key, ascending)
            == Ordering::Less,
        x.path@ != y.path@ ==> track_order(x, y, key, ascending) != Ordering::Equal,
{
    lemma_text_order_flip(x.title@, y.title@);
    lemma_text_order_flip(x.artist@, y.artist@);
    lemma_text_order_flip(x.path@, y.path@);
    lemma_text_order_flip(y.title@, x.title@);
    lemma_text_order_flip(y.artist@, x.artist@);
    lemma_text_order_flip(y.path@, x.path@);
}

proof fn lemma_text_chain(a: Seq<char>, b: Seq<char>, c: Seq<char>)
    ensures
        text_order(a, b) != Ordering::Greater && text_order(b, c) != Ordering::Greater ==> text_order(
            a,
            c,
        ) != Ordering::Greater,
        text_order(a, b) == Ordering::Less && text_order(b, c) != Ordering::Greater ==> text_order(
            a,
            c,
        ) == Ordering::Less,
        text_order(a, b) != Ordering::Greater && text_order(b, c) == Ordering::Less ==> text_order(
            a,
            c,
        ) == Ordering::Less,
{
    lemma_text_order_flip(a, b);
    lemma_text_order_flip(b, c);
    lemma_text_order_flip(a, c);
    if text_order(a, b) == Ordering::Less && text_order(b, c) == Ordering::Less {
        lemma_text_order_transitive(a, b, c);
    }
}

/// [`track_order`] is a total order: it is transitive, turns around when
/// the operands are swapped, and says `Equal` only of tracks that agree on
/// the sort field and the path. So the comparator handed to the parallel
/// sort is a lawful one.
pub proof fn lemma_track_order_total(x: Track, y: Track, z: Track, key: SortKey, ascending: bool)
    ensures
        track_order(x, y, key, ascending) != Ordering::Greater && track_order(y, z, key, ascending)
            != Ordering::Greater ==> track_order(x, z, key, ascending) != Ordering::Greater,
        track_order(x, y, key, ascending) == Ordering::Less <==> track_order(y, x, key, ascending)
            == Ordering::Greater,
        track_order(x, y, key, ascending) == Ordering::Equal ==> x.path@ == y.path@
            && key_order(x, y, key) == Ordering::Equal,
{
    lemma_track_order_flip(x, y, key, ascending);
    lemma_track_order_flip(y, x, key, ascending);
    lemma_text_order_flip(x.path@, y.path@);
    lemma_text_chain(x.path@, y.path@, z.path@);
    match key {
        SortKey::Title => {
            lemma_text_chain(x.title@, y.title@, z.title@);
            lemma_text_chain(z.title@, y.title@, x.title@);
            lemma_text_order_flip(x.title@, y.title@);
            lemma_text_order_flip(y.title@, z.title@);
            lemma_text_order_flip(x.title@, z.title@);
        },
        SortKey::Artist => {
            lemma_text_chain(x.artist@, y.artist@, z.artist@);
            lemma_text_chain(z.artist@, y.artist@, x.artist@);
            lemma_text_order_flip(x.artist@, y.artist@);
            lemma_text_order_flip(y.artist@, z.artist@);
            lemma_text_order_flip(x.artist@, z.artist@);
        },
        SortKey::Duration => {},
    }
}

/// Two sorted arrangements of the same tracks with distinct paths are one
/// and the same.
proof fn lemma_sorted_unique(a: Seq<Track>, b: Seq<Track>, key: SortKey, ascending: bool)
    requires
        a.to_multiset() == b.to_multiset(),
        sorted_by(a, key, ascending),
        sorted_by(b, key, ascending),
        paths_distinct(a),
    ensures
        a == b,
    decreases a.len(),
{
    broadcast use vstd::seq_lib::group_to_multiset_ensures;

    assert(a.to_multiset().len() == a.len());
    assert(b.to_multiset().len() == b.len());
    if a.len() == 0 {
        assert(a =~= b);
    } else {
        let x = a[0];
        assert(a.contains(x));
        assert(a.to_multiset().count(x) > 0);
        assert(b.to_multiset().count(x) > 0);
        assert(b.contains(x));
        let j = choose|j: int| 0 <= j < b.len() && b[j] == x;
        if b[0] != x {
            let y = b[0];
            assert(b.contains(y));
            assert(b.to_multiset().count(y) > 0);
            assert(a.to_multiset().count(y) > 0);
            assert(a.contains(y));
            let m = choose|m: int| 0 <= m < a.len() && a[m] == y;
            assert(m != 0);
            assert(j != 0);
            lemma_track_order_flip(x, y, key, ascending);
            assert(track_order(a[0], a[m], key, ascending) != Ordering::Greater);
            assert(track_order(b[0], b[j], key, ascending) != Ordering::Greater);
            assert(false);
        }
        assert(a.remove(0) =~= a.drop_first());
        assert(b.remove(0) =~= b.drop_first());
        assert(a.remove(0).to_multiset() == a.to_multiset().remove(x));
        assert(b.remove(0).to_multiset() == b.to_multiset().remove(x));
        let a1 = a.drop_first();
        let b1 = b.drop_first();
        assert forall|i: int, k: int| 0 <= i < k < a1.len() implies track_order(
            #[trigger] a1[i],
            #[trigger] a1[k],
            key,
            ascending,
        ) != Ordering::Greater by {
            assert(a1[i] == a[i + 1] && a1[k] == a[k + 1]);
        }
        assert forall|i: int, k: int| 0 <= i < k < b1.len() implies track_order(
            #[trigger] b1[i],
            #[trigger] b1[k],
            key,
            ascending,
        ) != Ordering::Greater by {
            assert(b1[i] == b[i + 1] && b1[k] == b[k + 1]);
        }
        assert forall|i: int, k: int| 0 <= i < k < a1.len() implies (#[trigger] a1[i]).path@
            != (#[trigger] a1[k]).path@ by {
            assert(a1[i] == a[i + 1] && a1[k] == a[k + 1]);
        }
        lemma_sorted_unique(a1, b1, key, ascending);
        assert(a =~= b) by {
            assert(a =~= seq![x] + a1);
            assert(b =~= seq![x] + b1);
        }
    }
}

/// Sorting a catalog that is already sorted by the same key and order,
/// numbered by position and free of duplicate paths, gives it back
/// unchanged.
pub proof fn lemma_sorting_sorted_catalog(s: Seq<Track>, r: Seq<Track>, key: SortKey, ascending: bool)
    requires
        sorted_by(s, key, ascending),
        ids_positional(s),
        paths_distinct(s),
        sorted_catalog_of(s, r, key, ascending),
    ensures
        r == s,
{
    let f = |t: Track| unnumbered(t);
    let us = s.map_values(f);
    let ur = r.map_values(f);
    assert forall|i: int, k: int| 0 <= i < k < us.len() implies track_order(
        #[trigger] us[i],
        #[trigger] us[k],
        key,
        ascending,
    ) != Ordering::Greater by {
        assert(track_order(s[i], s[k], key, ascending) != Ordering::Greater);
    }
    assert forall|i: int, k: int| 0 <= i < k < ur.len() implies track_order(
        #[trigger] ur[i],
        #[trigger] ur[k],
        key,
        ascending,
    ) != Ordering::Greater by {
        assert(track_order(r[i], r[k], key, ascending) != Ordering::Greater);
    }
    assert forall|i: int, k: int| 0 <= i < k < us.len() implies (#[trigger] us[i]).path@
        != (#[trigger] us[k]).path@ by {
        assert(s[i].path@ != s[k].path@);
    }
    lemma_sorted_unique(us, ur, key, ascending);
    assert forall|i: int| 0 <= i < s.len() implies r[i] == s[i] by {
        assert(us[i] == ur[i]);
        assert(r[i].id == i && s[i].id == i);
    }
    assert(r =~= s);
}

/// Compares two tracks as [`track_order`] does.
pub fn compare_tracks(a: &Track, b: &Track, key: SortKey, ascending: bool) -> (r: Ordering)
    ensures
        r == track_order(*a, *b, key, ascending),
{
    let k = match key {
        SortKey::Title => compare_text(a.title.as_str(), b.title.as_str()),
        SortKey::Artist => compare_text(a.artist.as_str(), b.artist.as_str()),
        SortKey::Duration => if a.duration_secs < b.duration_secs {
            Ordering::Less
        } else if a.duration_secs > b.duration_secs {
            Ordering::Greater
        } else {
            Ordering::Equal
        },
    };
    match k {
        Ordering::Equal => compare_text(a.path.as_str(), b.path.as_str()),
        Ordering::Less => if ascending {
            Ordering::Less
        } else {
            Ordering::Greater
        },
        Ordering::Greater => if ascending {
            Ordering::Greater
        } else {
            Ordering::Less
        },
    }
}

/// Relies on `rayon::slice::ParallelSliceMut::par_sort_by`: the slice is
/// sorted by the comparator, its items only moved. The comparator is
/// [`compare_tracks`].
#[verifier::external_body]
fn par_sort_tracks(v: &mut Vec<Track>, key: SortKey, ascending: bool)
    ensures
        final(v)@.to_multiset() == old(v)@.to_multiset(),
        sorted_by(final(v)@, key, ascending),
{
    v.par_sort_by(|a, b| compare_tracks(a, b, key, ascending))
}

/// Mapping both sides keeps two sequences with the same items alike.
proof fn lemma_map_same_items(a: Seq<Track>, b: Seq<Track>)
    requires
        a.to_multiset() == b.to_multiset(),
    ensures
        same_tracks(a, b),
    decreases a.len(),
{
    broadcast use vstd::seq_lib::group_to_multiset_ensures;

    let f = |t: Track| unnumbered(t);
    if a.len() == 0 {
        assert(b.to_multiset().len() == 0);
        assert(b.len() == 0);
        assert(a.map_values(f) =~= b.map_values(f));
    } else {
        let x = a[0];
        assert(a.to_multiset().count(x) > 0) by {
            assert(a.contains(x));
        }
        assert(b.contains(x));
        let j = choose|j: int| 0 <= j < b.len() && b[j] == x;
        assert(a.remove(0) =~= a.drop_first());
        assert(a.remove(0).to_multiset() == a.to_multiset().remove(x));
        assert(b.remove(j).to_multiset() == b.to_multiset().remove(x));
        lemma_map_same_items(a.drop_first(), b.remove(j));
        assert(a.map_values(f).remove(0) =~= a.drop_first().map_values(f));
        assert(b.map_values(f).remove(j) =~= b.remove(j).map_values(f));
        assert(a.map_values(f).remove(0).to_multiset() == a.map_values(f).to_multiset().remove(
            f(x),
        ));
        assert(b.map_values(f).remove(j).to_multiset() == b.map_values(f).to_multiset().remove(
            f(x),
        ));
        assert(a.map_values(f).to_multiset().count(f(x)) > 0) by {
            assert(a.map_values(f).contains(f(x))) by {
                assert(a.map_values(f)[0] == f(x));
            }
        }
        assert(b.map_values(f).to_multiset().count(f(x)) > 0) by {
            assert(b.map_values(f).contains(f(x))) by {
                assert(b.map_values(f)[j] == f(x));
            }
        }
        assert(a.map_values(f).to_multiset() =~= b.map_values(f).to_multiset()) by {
            let ma = a.map_values(f).to_multiset();
            let mb = b.map_values(f).to_multiset();
            assert(ma.remove(f(x)) == mb.remove(f(x)));
            assert forall|y: Track| ma.count(y) == mb.count(y) by {
                if y != f(x) {
                    assert(ma.remove(f(x)).count(y) == ma.count(y));
                    assert(mb.remove(f(x)).count(y) == mb.count(y));
                } else {
                    assert(ma.remove(f(x)).count(y) == ma.count(y) - 1);
                    assert(mb.remove(f(x)).count(y) == mb.count(y) - 1);
                }
            }
        }
    }
}

/// Sets each track's id to its position.
fn number_tracks(v: &mut Vec<Track>)
    ensures
        final(v)@.len() == old(v)@.len(),
        ids_positional(final(v)@),
        forall|i: int| 0 <= i < old(v)@.len() ==> unnumbered(#[trigger] final(v)@[i]) == unnumbered(old(v)@[i]),
{
    let ghost start = v@;
    let mut i: usize = 0;
    while i < v.len()
        invariant
            v@.len() == start.len(),
            i <= v@.len(),
            forall|k: int| 0 <= k < i ==> (#[trigger] v@[k]).id == k,
            forall|k: int| 0 <= k < v@.len() ==> unnumbered(#[trigger] v@[k]) == unnumbered(start[k]),
        decreases v.len() - i,
    {
        let mut t = v[i].clone();
        t.id = i;
        v.set(i, t);
        i = i + 1;
    }
}

/// `tracks` sorted by `key` (turned around when not `ascending`, ties by
/// path), with ids renumbered `0..n`.
pub fn sort_catalog(tracks: Vec<Track>, key: SortKey, ascending: bool) -> (r: Vec<Track>)
    ensures
        sorted_catalog_of(tracks@, r@, key, ascending),
{
    let mut v = tracks;
    par_sort_tracks(&mut v, key, ascending);
    proof {
        broadcast use vstd::seq_lib::group_to_multiset_ensures;

        lemma_map_same_items(v@, tracks@);
        assert(v@.to_multiset().len() == tracks@.to_multiset().len());
    }
    let ghost sorted = v@;
    number_tracks(&mut v);
    proof {
        let f = |t: Track| unnumbered(t);
        assert(v@.map_values(f) =~= sorted.map_values(f));
        assert forall|i: int, j: int| 0 <= i < j < v@.len() implies track_order(
            #[trigger] v@[i],
            #[trigger] v@[j],
            key,
            ascending,
        ) != Ordering::Greater by {
            assert(unnumbered(v@[i]) == unnumbered(sorted[i]));
            assert(unnumbered(v@[j]) == unnumbered(sorted[j]));
            assert(track_order(sorted[i], sorted[j], key, ascending) != Ordering::Greater);
        }
    }
    v
}

} // verus!
