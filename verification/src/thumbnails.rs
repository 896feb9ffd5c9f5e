//! Finding the preview picture of a video.
//!
//! Pictures that were extracted from a video lie under one directory: in a subdirectory named after
//! the video, or in one for each of its chunks. The decisions are made here; looking at the disk is
//! left to the caller, who answers what each step asks.

use vstd::prelude::*;

use crate::query::name_texts;
use crate::results::optional_text;
use crate::sorting::{
    goes_before, is_stable_order, key_ranks, stable_order, stable_order_is_complete, text_le,
    SortKey,
};
use crate::text::{begins_with, chars_of, forward_slashes, has_prefix, has_text, slashed};

verus! {

/// Where a directory lies.
pub enum DirChoice {
    /// At the configured path.
    Custom(String),
    /// Below the working directory, through these names.
    Under(Vec<&'static str>),
}

/// The directory of cached thumbnails; `THUMBNAILS_DIR` where it is set.
pub fn infer_thumbnails_dir(custom: Option<String>) -> (dir: DirChoice)
    ensures
        match custom {
            Some(path) => dir == DirChoice::Custom(path),
            None => dir matches DirChoice::Under(names) && name_texts(names@) == seq![
                "videos"@,
                "output_indexer"@,
                "thumbnail_cache"@,
            ],
        },
{
    match custom {
        Some(path) => DirChoice::Custom(path),
        None => {
            let names = vec!["videos", "output_indexer", "thumbnail_cache"];
            assert(name_texts(names@) =~= seq!["videos"@, "output_indexer"@, "thumbnail_cache"@]);
            DirChoice::Under(names)
        },
    }
}

/// The directory of extracted pictures; `EXTRACTED_THUMBNAILS_DIR` where it is set.
pub fn infer_extracted_thumbnails_dir(custom: Option<String>) -> (dir: DirChoice)
    ensures
        match custom {
            Some(path) => dir == DirChoice::Custom(path),
            None => dir matches DirChoice::Under(names) && name_texts(names@) == seq![
                "videos"@,
                "output_indexer"@,
                "thumbnails"@,
            ],
        },
{
    match custom {
        Some(path) => DirChoice::Custom(path),
        None => {
            let names = vec!["videos", "output_indexer", "thumbnails"];
            assert(name_texts(names@) =~= seq!["videos"@, "output_indexer"@, "thumbnails"@]);
            DirChoice::Under(names)
        },
    }
}

/// A directory that may hold pictures of a video.
#[derive(Clone, Copy, Debug, PartialEq, Eq, Structural)]
pub enum Place {
    /// The subdirectory named after the video.
    Own,
    /// The entry at this position of the listing.
    Listed(usize),
}

/// A file that may be the picture.
#[derive(Clone, Copy, Debug, PartialEq, Eq)]
pub struct Candidate {
    pub place: Place,
    pub file: &'static str,
}

/// The mathematical content of a [`Candidate`].
pub ghost struct Spot {
    pub place: Place,
    pub file: Seq<char>,
}

impl View for Candidate {
    type V = Spot;

    open spec fn view(&self) -> Spot {
        Spot { place: self.place, file: self.file@ }
    }
}

/// An entry of the directory of extracted pictures.
#[derive(Debug)]
pub struct DirEntry {
    pub name: String,
    pub is_dir: bool,
}

/// The pictures looked for in one directory, best first.
pub open spec fn spots_in(place: Place) -> Seq<Spot> {
    seq![
        Spot { place, file: "middle.jpg"@ },
        Spot { place, file: "start.jpg"@ },
        Spot { place, file: "end.jpg"@ },
    ]
}

/// The pictures looked for in several directories, one after the other.
pub open spec fn spots_in_all(dirs: Seq<usize>) -> Seq<Spot>
    decreases dirs.len(),
{
    if dirs.len() == 0 {
        Seq::empty()
    } else {
        spots_in_all(dirs.drop_last()) + spots_in(Place::Listed(dirs.last()))
    }
}

/// The entry is a directory of one of the video's chunks.
pub open spec fn is_chunk_dir(entry: DirEntry, stem: Seq<char>) -> bool {
    entry.is_dir && begins_with(entry.name@, stem + "_chunk_"@)
}

/// `dirs` lists the chunk directories among `entries`, each once, by name; those with equal names in
/// the order of the listing.
pub open spec fn is_chunk_order(
    entries: Seq<DirEntry>,
    stem: Seq<char>,
    dirs: Seq<usize>,
) -> bool {
    &&& forall|p: int|
        0 <= p < dirs.len() ==> 0 <= #[trigger] dirs[p] < entries.len() && is_chunk_dir(
            entries[dirs[p] as int],
            stem,
        )
    &&& forall|i: usize|
        0 <= i < entries.len() && is_chunk_dir(#[trigger] entries[i as int], stem)
            ==> dirs.contains(i)
    &&& forall|p: int, q: int|
        #![trigger dirs[p], dirs[q]]
        0 <= p < q < dirs.len() ==> {
            let a = entries[dirs[p] as int].name@;
            let b = entries[dirs[q] as int].name@;
            text_le(a, b) && (text_le(b, a) ==> dirs[p] < dirs[q])
        }
}

/// The contents of a run of candidates.
pub open spec fn spots(candidates: Seq<Candidate>) -> Seq<Spot> {
    candidates.map_values(|c: Candidate| c@)
}

/// Looking for the picture of one video.
pub struct ThumbnailSearch {
    stem: String,
    listed: bool,
    queue: Vec<Candidate>,
    next: usize,
}

/// What the search asks for.
pub enum ThumbnailStep {
    /// Is there such a file?
    Probe(Candidate),
    /// What does the directory of extracted pictures hold?
    List,
    /// Nothing: there is no picture.
    Exhausted,
}

/// What an answer about a file leads to.
pub enum ProbeOutcome {
    Found(Candidate),
    Continue(ThumbnailSearch),
}

impl ThumbnailSearch {
    /// The file name of the video, without its extension.
    pub closed spec fn stem(&self) -> Seq<char> {
        self.stem@
    }

    /// The directory has been listed.
    pub closed spec fn listed(&self) -> bool {
        self.listed
    }

    /// The files that have not been asked about, of those known so far.
    pub closed spec fn remaining(&self) -> Seq<Spot> {
        spots(self.queue@).skip(self.next as int)
    }

    pub closed spec fn wf(&self) -> bool {
        self.next <= self.queue@.len()
    }

    /// The name of the video, which is also that of its own subdirectory.
    pub fn video_name(&self) -> (name: &str)
        ensures
            name@ == self.stem(),
    {
        self.stem.as_str()
    }

    /// The search for the picture of the video with this stem.
    fn begin(stem: String) -> (search: ThumbnailSearch)
        ensures
            search.wf(),
            search.stem() == stem@,
            !search.listed(),
            search.remaining() == spots_in(Place::Own),
    {
        let mut queue: Vec<Candidate> = Vec::new();
        push_place(&mut queue, Place::Own);
        let search = ThumbnailSearch { stem, listed: false, queue, next: 0 };
        assert(search.remaining() =~= spots_in(Place::Own));
        search
    }

    /// What to ask next: first about each known file, then for the listing.
    pub fn next_step(&self) -> (step: ThumbnailStep)
        requires
            self.wf(),
        ensures
            match step {
                ThumbnailStep::Probe(c) => self.remaining().len() > 0 && c@ == self.remaining()[0],
                ThumbnailStep::List => self.remaining().len() == 0 && !self.listed(),
                ThumbnailStep::Exhausted => self.remaining().len() == 0 && self.listed(),
            },
    {
        if self.next < self.queue.len() {
            ThumbnailStep::Probe(self.queue[self.next])
        } else if !self.listed {
            ThumbnailStep::List
        } else {
            ThumbnailStep::Exhausted
        }
    }

    /// Takes in whether the file that was asked about exists: the first that does is the picture.
    pub fn probed(self, exists: bool) -> (outcome: ProbeOutcome)
        requires
            self.wf(),
            self.remaining().len() > 0,
        ensures
            match outcome {
                ProbeOutcome::Found(c) => exists && c@ == self.remaining()[0],
                ProbeOutcome::Continue(search) => {
                    &&& !exists
                    &&& search.wf()
                    &&& search.stem() == self.stem()
                    &&& search.listed() == self.listed()
                    &&& search.remaining() == self.remaining().drop_first()
                },
            },
    {
        if exists {
            ProbeOutcome::Found(self.queue[self.next])
        } else {
            assert(self.next < self.queue.len());
            let ThumbnailSearch { stem, listed, queue, next } = self;
            let search = ThumbnailSearch { stem, listed, queue, next: next + 1 };
            assert(search.remaining() =~= self.remaining().drop_first());
            ProbeOutcome::Continue(search)
        }
    }

    /// Takes the listing in; a directory that cannot be listed ends the search.
    pub fn with_listing(self, listing: Option<Vec<DirEntry>>) -> (search: Option<ThumbnailSearch>)
        requires
            self.wf(),
            self.remaining().len() == 0,
        ensures
            match listing {
                Some(entries) => {
                    &&& search matches Some(s)
                    &&& s.wf()
                    &&& s.stem() == self.stem()
                    &&& s.listed()
                    &&& exists|dirs: Seq<usize>| #[trigger]
                        is_chunk_order(entries@, self.stem(), dirs) && s.remaining()
                            == spots_in_all(dirs)
                },
                None => search is None,
            },
    {
        match listing {
            Some(entries) => {
                let dirs = chunk_dirs(&entries, self.stem.as_str());
                assert(is_chunk_order(entries@, self.stem(), dirs@));
                let mut queue: Vec<Candidate> = Vec::new();
                let mut i: usize = 0;
                while i < dirs.len()
                    invariant
                        i <= dirs.len(),
                        spots(queue@) == spots_in_all(dirs@.take(i as int)),
                    decreases dirs.len() - i,
                {
                    assert(dirs@.take(i + 1).drop_last() == dirs@.take(i as int));
                    push_place(&mut queue, Place::Listed(dirs[i]));
                    i = i + 1;
                }
                assert(dirs@.take(dirs@.len() as int) == dirs@);
                let search = ThumbnailSearch { stem: self.stem, listed: true, queue, next: 0 };
                assert(search.remaining() =~= spots_in_all(dirs@));
                Some(search)
            },
            None => None,
        }
    }
}

/// Adds the pictures looked for in one directory.
fn push_place(queue: &mut Vec<Candidate>, place: Place)
    ensures
        spots(final(queue)@) == spots(old(queue)@) + spots_in(place),
{
    queue.push(Candidate { place, file: "middle.jpg" });
    queue.push(Candidate { place, file: "start.jpg" });
    queue.push(Candidate { place, file: "end.jpg" });
    assert(spots(queue@) =~= spots(old(queue)@) + spots_in(place));
}

/// The positions of the chunk directories, by name.
pub fn chunk_dirs(entries: &Vec<DirEntry>, stem: &str) -> (dirs: Vec<usize>)
    ensures
        is_chunk_order(entries@, stem@, dirs@),
{
    let mut prefix_text = stem.to_owned();
    prefix_text.append("_chunk_");
    let prefix = chars_of(prefix_text.as_str());
    let mut found: Vec<usize> = Vec::new();
    let mut names: Vec<Vec<char>> = Vec::new();
    let mut i: usize = 0;
    while i < entries.len()
        invariant
            i <= entries.len(),
            prefix@ == stem@ + "_chunk_"@,
            names@.len() == found@.len(),
            forall|p: int|
                0 <= p < found@.len() ==> 0 <= #[trigger] found@[p] < i && is_chunk_dir(
                    entries@[found@[p] as int],
                    stem@,
                ) && names@[p]@ == entries@[found@[p] as int].name@,
            forall|p: int, q: int|
                #![trigger found@[p], found@[q]]
                0 <= p < q < found@.len() ==> found@[p] < found@[q],
            forall|k: usize|
                0 <= k < i && is_chunk_dir(#[trigger] entries@[k as int], stem@) ==> found@.contains(k),
        decreases entries.len() - i,
    {
        let name = chars_of(entries[i].name.as_str());
        let ghost before = found@;
        if entries[i].is_dir && has_prefix(&name, &prefix) {
            found.push(i);
            names.push(name);
            assert(found@[before.len() as int] == i);
        }
        assert forall|k: usize|
            0 <= k < i + 1 && is_chunk_dir(#[trigger] entries@[k as int], stem@) implies found@.contains(
            k,
        ) by {
            if k < i {
                assert(before.contains(k));
                let p = choose|p: int| 0 <= p < before.len() && before[p] == k;
                assert(found@[p] == k);
            }
        }
        i = i + 1;
    }
    let order = stable_order(&names);
    let ghost ranks = key_ranks(names@);
    let mut dirs: Vec<usize> = Vec::new();
    let mut n: usize = 0;
    while n < order.len()
        invariant
            n <= order.len(),
            order.len() == found.len(),
            found@.len() == ranks.len(),
            is_stable_order(ranks, order@),
            dirs@.len() == n,
            forall|p: int| 0 <= p < n ==> #[trigger] dirs@[p] == found@[order@[p] as int],
        decreases order.len() - n,
    {
        dirs.push(found[order[n]]);
        n = n + 1;
    }
    proof {
        assert forall|p: int| 0 <= p < found@.len() implies #[trigger] ranks[p] == entries@[found@[p] as int].name@ by {
            assert(names@[p].key_rank() == names@[p]@);
        }
        assert forall|p: int| 0 <= p < dirs@.len() implies 0 <= #[trigger] dirs@[p] < entries@.len()
            && is_chunk_dir(entries@[dirs@[p] as int], stem@) by {
            assert(found@[order@[p] as int] < i);
        }
        assert forall|k: usize|
            0 <= k < entries@.len() && is_chunk_dir(#[trigger] entries@[k as int], stem@) implies dirs@.contains(
            k,
        ) by {
            assert(found@.contains(k));
            let p = choose|p: int| 0 <= p < found@.len() && found@[p] == k;
            stable_order_is_complete(ranks, order@, p as usize);
            let q = choose|q: int| 0 <= q < order@.len() && order@[q] == p as usize;
            assert(dirs@[q] == k);
        }
        assert forall|p: int, q: int|
            #![trigger dirs@[p], dirs@[q]]
            0 <= p < q < dirs@.len() implies {
            let a = entries@[dirs@[p] as int].name@;
            let b = entries@[dirs@[q] as int].name@;
            text_le(a, b) && (text_le(b, a) ==> dirs@[p] < dirs@[q])
        } by {
            assert(goes_before(ranks, order@[p] as int, order@[q] as int));
            assert(ranks[order@[p] as int] == entries@[dirs@[p] as int].name@);
            assert(ranks[order@[q] as int] == entries@[dirs@[q] as int].name@);
        }
    }
    dirs
}

/// The last position of a character in a text, or -1 where it does not stand there.
pub open spec fn last_at(s: Seq<char>, c: char) -> int
    decreases s.len(),
{
    if s.len() == 0 {
        -1
    } else if s.last() == c {
        s.len() - 1
    } else {
        last_at(s.drop_last(), c)
    }
}

/// A file name without its extension: what stands before its last dot, unless that dot comes first.
pub open spec fn stem_of(name: Seq<char>) -> Seq<char> {
    if last_at(name, '.') > 0 {
        name.take(last_at(name, '.'))
    } else {
        name
    }
}

/// The character parts the components of a path: a slash always, a backslash on some platforms.
pub open spec fn parts_path(c: char, backslash: bool) -> bool {
    c == '/' || (backslash && c == '\\')
}

/// The last position of a separator in a path, or -1 where it has none.
pub open spec fn last_separator(path: Seq<char>, backslash: bool) -> int
    decreases path.len(),
{
    if path.len() == 0 {
        -1
    } else if parts_path(path.last(), backslash) {
        path.len() - 1
    } else {
        last_separator(path.drop_last(), backslash)
    }
}

/// The file name at the end of a path. Separators at the end and components `.` are passed over; a
/// path that ends in `..`, or in which nothing is left, names no file.
pub open spec fn final_name(path: Seq<char>, backslash: bool) -> Option<Seq<char>>
    decreases path.len(),
{
    let at = last_separator(path, backslash);
    let component = path.skip(at + 1);
    if component == seq!['.', '.'] {
        None
    } else if component.len() > 0 && component != seq!['.'] {
        Some(component)
    } else if at >= 0 {
        proof {
            lemma_last_separator(path, backslash);
        }
        final_name(path.take(at), backslash)
    } else {
        None
    }
}

/// The stem of the file name at the end of a path.
pub open spec fn stem_in(path: Seq<char>, backslash: bool) -> Option<Seq<char>> {
    match final_name(path, backslash) {
        Some(name) => Some(stem_of(name)),
        None => None,
    }
}

/// The path begins with two separators, as the name of a share does on some platforms.
pub open spec fn begins_as_share(path: Seq<char>) -> bool {
    path.len() >= 2 && parts_path(path[0], true) && parts_path(path[1], true)
}

/// The path begins with two separators and a question mark: a form in which some platforms part the
/// components in another way.
pub open spec fn begins_verbatim(path: Seq<char>) -> bool {
    begins_as_share(path) && path.len() >= 3 && path[2] == '?'
}

/// The path begins with a letter and a colon, as a drive is named on some platforms.
pub open spec fn begins_as_drive(path: Seq<char>) -> bool {
    &&& path.len() >= 2
    &&& ('a' <= path[0] && path[0] <= 'z') || ('A' <= path[0] && path[0] <= 'Z')
    &&& path[1] == ':'
}

/// What follows the separators at the beginning of a path.
pub open spec fn after_separators(path: Seq<char>) -> Seq<char>
    decreases path.len(),
{
    if path.len() > 0 && parts_path(path[0], true) {
        after_separators(path.drop_first())
    } else {
        path
    }
}

/// What follows the component at the beginning of a path.
pub open spec fn after_component(path: Seq<char>) -> Seq<char>
    decreases path.len(),
{
    if path.len() > 0 && !parts_path(path[0], true) {
        after_component(path.drop_first())
    } else {
        path
    }
}

/// What is left of a path behind a drive, or behind the two components that name a share or a device.
pub open spec fn after_prefix(path: Seq<char>) -> Seq<char> {
    if begins_as_share(path) {
        after_component(after_separators(after_component(after_separators(path))))
    } else if begins_as_drive(path) {
        path.skip(2)
    } else {
        path
    }
}

/// Some platform finds this stem, or none, in the path: one that knows slashes alone, or one that
/// knows both separators and drives and shares. Where the two agree this fixes the stem. Of two
/// separators at the beginning it is left open whether they name a share, and of a path in verbatim
/// form nothing is said.
pub open spec fn is_stem_of_path(stem: Option<Seq<char>>, path: Seq<char>) -> bool {
    begins_verbatim(path) || {
        ||| stem == stem_in(path, false)
        ||| stem == stem_in(after_prefix(path), true)
        ||| begins_as_share(path) && stem == stem_in(path, true)
    }
}

/// The last position of a character lies within the text.
pub proof fn lemma_last_at(s: Seq<char>, c: char)
    ensures
        last_at(s, c) < s.len(),
    decreases s.len(),
{
    if s.len() > 0 {
        lemma_last_at(s.drop_last(), c);
    }
}

/// The last position of a separator lies within the path.
pub proof fn lemma_last_separator(path: Seq<char>, backslash: bool)
    ensures
        last_separator(path, backslash) < path.len(),
    decreases path.len(),
{
    if path.len() > 0 {
        lemma_last_separator(path.drop_last(), backslash);
    }
}

/// The file name at the end of a path has a stem that is not empty.
proof fn lemma_stem_is_not_empty(path: Seq<char>, backslash: bool)
    ensures
        stem_in(path, backslash) matches Some(stem) ==> stem.len() > 0,
    decreases path.len(),
{
    let at = last_separator(path, backslash);
    lemma_last_separator(path, backslash);
    if at >= 0 {
        lemma_stem_is_not_empty(path.take(at), backslash);
    }
    lemma_last_at(path.skip(at + 1), '.');
}

/// Without backslashes it makes no difference whether they part a path.
proof fn lemma_without_backslashes(path: Seq<char>)
    requires
        !path.contains('\\'),
    ensures
        last_separator(path, true) == last_separator(path, false),
        final_name(path, true) == final_name(path, false),
    decreases path.len(),
{
    if path.len() > 0 {
        let shorter = path.drop_last();
        assert forall|i: int| 0 <= i < shorter.len() implies shorter[i] != '\\' by {
            assert(shorter[i] == path[i]);
        }
        assert(path.last() == path[path.len() - 1]);
        lemma_without_backslashes(shorter);
        let at = last_separator(path, false);
        lemma_last_separator(path, false);
        if at >= 0 {
            let head = path.take(at);
            assert forall|i: int| 0 <= i < head.len() implies head[i] != '\\' by {
                assert(head[i] == path[i]);
            }
            lemma_without_backslashes(head);
        }
    }
}

/// A path without backslashes, without a drive and without two slashes at its beginning has one stem
/// on every platform.
pub proof fn plain_paths_have_one_stem(stem: Option<Seq<char>>, path: Seq<char>)
    requires
        !path.contains('\\'),
        !begins_as_share(path),
        !begins_as_drive(path),
        is_stem_of_path(stem, path),
    ensures
        stem == stem_in(path, false),
{
    lemma_without_backslashes(path);
}

/// `std::path::Path::file_stem` gives the part of the file name at the end of a path before its final
/// dot, or nothing where the path names no file. What parts the components of a path, and what may
/// stand before them, depends on the platform: it is stated that the stem is the one that the path has
/// with slashes alone, or the one that it has with both separators behind a drive or a share. Of a
/// path in verbatim form only that the stem is a piece of it.
#[verifier::external_body]
fn file_stem(path: &str) -> (stem: Option<String>)
    ensures
        stem matches Some(s) ==> has_text(path@, s@),
        is_stem_of_path(optional_text(stem), path@),
{
    std::path::Path::new(path).file_stem().map(|s| s.to_string_lossy().to_string())
}

/// The stem of the video that is looked for, if any is.
pub open spec fn stem_looked_for(search: Option<ThumbnailSearch>) -> Option<Seq<char>> {
    match search {
        Some(s) => Some(s.stem()),
        None => None,
    }
}

/// Begins to look for the picture of a video; `None` where the path names no file.
pub fn find_extracted_thumbnail(video_path: &str) -> (search: Option<ThumbnailSearch>)
    ensures
        search matches Some(s) ==> {
            &&& s.wf()
            &&& s.stem().len() > 0
            &&& has_text(video_path@, s.stem())
            &&& !s.listed()
            &&& s.remaining() == spots_in(Place::Own)
        },
        is_stem_of_path(stem_looked_for(search), video_path@),
{
    let stem = file_stem(video_path);
    proof {
        lemma_stem_is_not_empty(video_path@, false);
        lemma_stem_is_not_empty(video_path@, true);
        lemma_stem_is_not_empty(after_prefix(video_path@), true);
    }
    thumbnail_search(stem)
}

/// Begins to look for the picture of the video with a file stem; `None` where there is no stem.
pub fn thumbnail_search(stem: Option<String>) -> (search: Option<ThumbnailSearch>)
    ensures
        match stem {
            Some(text) if text@.len() > 0 => {
                &&& search matches Some(s)
                &&& s.wf()
                &&& s.stem() == text@
                &&& !s.listed()
                &&& s.remaining() == spots_in(Place::Own)
            },
            _ => search is None,
        },
{
    match stem {
        Some(text) => if text.as_str().is_empty() {
            None
        } else {
            Some(ThumbnailSearch::begin(text))
        },
        None => None,
    }
}

/// The name of the cached thumbnail of an asset; `None` where the asset has no content hash.
pub fn cache_file_name(content_hash: &str) -> (file_name: Option<String>)
    ensures
        match file_name {
            Some(name) => content_hash@.len() > 0 && name@ == content_hash@ + ".jpg"@,
            None => content_hash@.len() == 0,
        },
{
    if content_hash.is_empty() {
        None
    } else {
        let mut name = content_hash.to_owned();
        name.append(".jpg");
        Some(name)
    }
}

/// How a thumbnail is come by.
pub enum ThumbnailSource {
    /// It is in the cache, at this path.
    Cached(String),
    /// A picture has to be found, and copied into the cache.
    Extracted(ThumbnailSearch),
    /// There is none.
    Missing,
}

/// How the thumbnail of a video is come by, once it is known whether it is in the cache already.
pub fn resolve_thumbnail_path(cached_path: &str, present: bool, video_path: &str) -> (source:
    ThumbnailSource)
    ensures
        match source {
            ThumbnailSource::Cached(text) => present && text@ == slashed(cached_path@),
            ThumbnailSource::Extracted(search) => {
                &&& !present
                &&& search.wf()
                &&& search.stem().len() > 0
                &&& has_text(video_path@, search.stem())
                &&& !search.listed()
                &&& search.remaining() == spots_in(Place::Own)
                &&& is_stem_of_path(Some(search.stem()), video_path@)
            },
            ThumbnailSource::Missing => {
                &&& !present
                &&& is_stem_of_path(None, video_path@)
            },
        },
{
    match cached_thumbnail(cached_path, present) {
        Some(text) => ThumbnailSource::Cached(text),
        None => match find_extracted_thumbnail(video_path) {
            Some(search) => ThumbnailSource::Extracted(search),
            None => ThumbnailSource::Missing,
        },
    }
}

/// The path of the cached thumbnail, with forward slashes, if it is there.
pub fn cached_thumbnail(path: &str, present: bool) -> (found: Option<String>)
    ensures
        match found {
            Some(text) => present && text@ == slashed(path@),
            None => !present,
        },
{
    if present {
        Some(forward_slashes(path))
    } else {
        None
    }
}

/// The first spot that `exists`.
pub open spec fn first_existing(all: Seq<Spot>, exists_at: spec_fn(Spot) -> bool) -> Option<Spot>
    decreases all.len(),
{
    if all.len() == 0 {
        None
    } else if exists_at(all[0]) {
        Some(all[0])
    } else {
        first_existing(all.drop_first(), exists_at)
    }
}

/// Where a search ends whose steps are all answered: `chunks` is what the listing leads to.
pub open spec fn search_result(
    remaining: Seq<Spot>,
    listed: bool,
    chunks: Option<Seq<Spot>>,
    exists_at: spec_fn(Spot) -> bool,
) -> Option<Spot>
    decreases
        (if listed {
            0nat
        } else {
            1nat
        }),
        remaining.len(),
{
    if remaining.len() > 0 {
        if exists_at(remaining[0]) {
            Some(remaining[0])
        } else {
            search_result(remaining.drop_first(), listed, chunks, exists_at)
        }
    } else if listed {
        None
    } else {
        match chunks {
            Some(more) => search_result(more, true, chunks, exists_at),
            None => None,
        }
    }
}

/// A search that has listed the directory ends at the first file that exists.
proof fn lemma_listed_search(
    remaining: Seq<Spot>,
    chunks: Option<Seq<Spot>>,
    exists_at: spec_fn(Spot) -> bool,
)
    ensures
        search_result(remaining, true, chunks, exists_at) == first_existing(remaining, exists_at),
    decreases remaining.len(),
{
    if remaining.len() > 0 {
        lemma_listed_search(remaining.drop_first(), chunks, exists_at);
    }
}

/// Whatever is on disk, a search ends at the first file that exists: those in the video's own
/// directory come before those in the directories of its chunks.
pub proof fn search_finds_the_first(
    own: Seq<Spot>,
    chunks: Option<Seq<Spot>>,
    exists_at: spec_fn(Spot) -> bool,
)
    ensures
        search_result(own, false, chunks, exists_at) == first_existing(
            own + match chunks {
                Some(more) => more,
                None => Seq::empty(),
            },
            exists_at,
        ),
    decreases own.len(),
{
    let more = match chunks {
        Some(more) => more,
        None => Seq::empty(),
    };
    if own.len() > 0 {
        search_finds_the_first(own.drop_first(), chunks, exists_at);
        assert((own + more).drop_first() == own.drop_first() + more);
    } else {
        assert(own + more == more);
        if chunks is Some {
            lemma_listed_search(more, chunks, exists_at);
        }
    }
}

/// In the video's own directory the middle picture is preferred to the first, and that to the last.
pub proof fn middle_picture_is_preferred(
    chunks: Option<Seq<Spot>>,
    exists_at: spec_fn(Spot) -> bool,
)
    ensures
        search_result(spots_in(Place::Own), false, chunks, exists_at) == {
            let middle = Spot { place: Place::Own, file: "middle.jpg"@ };
            let start = Spot { place: Place::Own, file: "start.jpg"@ };
            let end = Spot { place: Place::Own, file: "end.jpg"@ };
            if exists_at(middle) {
                Some(middle)
            } else if exists_at(start) {
                Some(start)
            } else if exists_at(end) {
                Some(end)
            } else {
                match chunks {
                    Some(more) => first_existing(more, exists_at),
                    None => None,
                }
            }
        },
{
    let own = spots_in(Place::Own);
    let one = own.drop_first();
    let two = one.drop_first();
    assert(two.drop_first() =~= Seq::<Spot>::empty());
    search_finds_the_first(two.drop_first(), chunks, exists_at);
    reveal_with_fuel(search_result, 4);
    match chunks {
        Some(more) => {
            assert(Seq::<Spot>::empty() + more =~= more);
        },
        None => {
            assert(Seq::<Spot>::empty() + Seq::<Spot>::empty() =~= Seq::<Spot>::empty());
        },
    }
}

/// A listing leads to one order of directories only.
pub proof fn chunk_order_is_unique(
    entries: Seq<DirEntry>,
    stem: Seq<char>,
    one: Seq<usize>,
    two: Seq<usize>,
)
    requires
        entries.len() <= usize::MAX,
        is_chunk_order(entries, stem, one),
        is_chunk_order(entries, stem, two),
    ensures
        one == two,
{
    lemma_chunk_orders_agree(entries, stem, one, two, if one.len() < two.len() { one.len() } else { two.len() });
    if one.len() < two.len() {
        let extra = two[one.len() as int];
        assert(is_chunk_dir(entries[extra as int], stem));
        assert(one.contains(extra));
        let p = choose|p: int| 0 <= p < one.len() && one[p] == extra;
        assert(two[p] == two[one.len() as int]);
    } else if two.len() < one.len() {
        let extra = one[two.len() as int];
        assert(is_chunk_dir(entries[extra as int], stem));
        assert(two.contains(extra));
        let p = choose|p: int| 0 <= p < two.len() && two[p] == extra;
        assert(one[p] == one[two.len() as int]);
    }
    assert(one =~= two);
}

proof fn lemma_chunk_orders_agree(
    entries: Seq<DirEntry>,
    stem: Seq<char>,
    one: Seq<usize>,
    two: Seq<usize>,
    n: nat,
)
    requires
        is_chunk_order(entries, stem, one),
        is_chunk_order(entries, stem, two),
        n <= one.len(),
        n <= two.len(),
    ensures
        forall|p: int| 0 <= p < n ==> one[p] == two[p],
    decreases n,
{
    if n > 0 {
        lemma_chunk_orders_agree(entries, stem, one, two, (n - 1) as nat);
        let last = n - 1;
        let x = one[last];
        let y = two[last];
        if x != y {
            assert(is_chunk_dir(entries[x as int], stem));
            assert(is_chunk_dir(entries[y as int], stem));
            assert(two.contains(x) && one.contains(y));
            let q = choose|q: int| 0 <= q < one.len() && one[q] == y;
            let r = choose|r: int| 0 <= r < two.len() && two[r] == x;
            if q < last {
                assert(two[q] == two[last]);
            }
            if r < last {
                assert(one[r] == one[last]);
            }
            assert(one[last] == x && one[q] == y && two[last] == y && two[r] == x);
        }
    }
}

/// The directories that are looked in are those whose names begin with the video's name and `_chunk_`,
/// all of them and no others, in the order of their names.
pub proof fn chunk_directories_bear_the_name(
    entries: Seq<DirEntry>,
    stem: Seq<char>,
    dirs: Seq<usize>,
)
    requires
        is_chunk_order(entries, stem, dirs),
    ensures
        ({
            let prefix = stem + "_chunk_"@;
            let n = prefix.len() as int;
            &&& forall|p: int|
                0 <= p < dirs.len() ==> {
                    &&& #[trigger] dirs[p] < entries.len()
                    &&& entries[dirs[p] as int].is_dir
                    &&& entries[dirs[p] as int].name@.len() >= n
                    &&& entries[dirs[p] as int].name@.take(n) == prefix
                }
            &&& forall|i: usize|
                {
                    &&& 0 <= i < entries.len()
                    &&& (#[trigger] entries[i as int]).is_dir
                    &&& entries[i as int].name@.len() >= n
                    &&& entries[i as int].name@.take(n) == prefix
                } ==> dirs.contains(i)
            &&& forall|p: int, q: int|
                #![trigger dirs[p], dirs[q]]
                0 <= p < q < dirs.len() ==> {
                    let a = entries[dirs[p] as int].name@;
                    let b = entries[dirs[q] as int].name@;
                    &&& text_le(a, b)
                    &&& a == b ==> dirs[p] < dirs[q]
                    &&& dirs[p] != dirs[q]
                }
        }),
{
    let prefix = stem + "_chunk_"@;
    let n = prefix.len() as int;
    assert forall|p: int| 0 <= p < dirs.len() implies {
        &&& #[trigger] dirs[p] < entries.len()
        &&& entries[dirs[p] as int].is_dir
        &&& entries[dirs[p] as int].name@.len() >= n
        &&& entries[dirs[p] as int].name@.take(n) == prefix
    } by {
        let name = entries[dirs[p] as int].name@;
        assert(is_chunk_dir(entries[dirs[p] as int], stem));
        assert(name.subrange(0, n) =~= name.take(n));
    }
    assert forall|i: usize|
        {
            &&& 0 <= i < entries.len()
            &&& (#[trigger] entries[i as int]).is_dir
            &&& entries[i as int].name@.len() >= n
            &&& entries[i as int].name@.take(n) == prefix
        } implies dirs.contains(i) by {
        let name = entries[i as int].name@;
        assert(name.subrange(0, n) =~= name.take(n));
        assert(is_chunk_dir(entries[i as int], stem));
    }
    assert forall|p: int, q: int|
        #![trigger dirs[p], dirs[q]]
        0 <= p < q < dirs.len() implies {
        let a = entries[dirs[p] as int].name@;
        let b = entries[dirs[q] as int].name@;
        &&& text_le(a, b)
        &&& a == b ==> dirs[p] < dirs[q]
        &&& dirs[p] != dirs[q]
    } by {
        let a = entries[dirs[p] as int].name@;
        crate::sorting::text_le_total(a, a);
    }
}

/// In every directory the middle picture is looked for first, then the first, then the last.
pub proof fn three_pictures_are_looked_for(place: Place)
    ensures
        spots_in(place).len() == 3,
        spots_in(place)[0] == (Spot { place, file: "middle.jpg"@ }),
        spots_in(place)[1] == (Spot { place, file: "start.jpg"@ }),
        spots_in(place)[2] == (Spot { place, file: "end.jpg"@ }),
{
}

/// Directories are looked in one after the other, each for its three pictures, and none is left out.
pub proof fn directories_are_looked_in_one_by_one(dirs: Seq<usize>, p: int, k: int)
    requires
        0 <= p < dirs.len(),
        0 <= k < 3,
    ensures
        spots_in_all(dirs).len() == 3 * dirs.len(),
        spots_in_all(dirs)[3 * p + k] == spots_in(Place::Listed(dirs[p]))[k],
    decreases dirs.len(),
{
    lemma_spots_len(dirs);
    let before = dirs.drop_last();
    lemma_spots_len(before);
    if p < before.len() {
        directories_are_looked_in_one_by_one(before, p, k);
    }
}

proof fn lemma_spots_len(dirs: Seq<usize>)
    ensures
        spots_in_all(dirs).len() == 3 * dirs.len(),
    decreases dirs.len(),
{
    if dirs.len() > 0 {
        lemma_spots_len(dirs.drop_last());
    }
}

/// The stem of a file name with an extension is what stands before the last dot.
pub proof fn extension_is_left_off(stem: Seq<char>, extension: Seq<char>)
    requires
        stem.len() > 0,
        !extension.contains('.'),
    ensures
        stem_of(stem + seq!['.'] + extension) == stem,
    decreases extension.len(),
{
    let name = stem + seq!['.'] + extension;
    lemma_last_dot(stem, extension);
    assert(name.take(stem.len() as int) =~= stem);
}

proof fn lemma_last_dot(stem: Seq<char>, extension: Seq<char>)
    requires
        !extension.contains('.'),
    ensures
        last_at(stem + seq!['.'] + extension, '.') == stem.len(),
    decreases extension.len(),
{
    let name = stem + seq!['.'] + extension;
    if extension.len() > 0 {
        let shorter = extension.drop_last();
        assert(extension.last() == extension[extension.len() - 1]);
        assert forall|i: int| 0 <= i < shorter.len() implies shorter[i] != '.' by {
            assert(shorter[i] == extension[i]);
        }
        lemma_last_dot(stem, shorter);
        assert(name.drop_last() =~= stem + seq!['.'] + shorter);
    } else {
        assert(name.last() == '.');
    }
}

/// A path has a stem exactly where it has a file name, and it is the stem of that name.
pub proof fn stem_is_that_of_the_file_name(path: Seq<char>, backslash: bool)
    ensures
        final_name(path, backslash) matches Some(name) ==> stem_in(path, backslash) == Some(
            stem_of(name),
        ),
        final_name(path, backslash) is None ==> stem_in(path, backslash) is None,
{
}

/// A file name without a dot, or with none but at its beginning, is its own stem.
pub proof fn names_without_extension_are_kept(name: Seq<char>)
    requires
        forall|i: int| 0 < i < name.len() ==> name[i] != '.',
    ensures
        stem_of(name) == name,
{
    lemma_no_late_dot(name);
}

proof fn lemma_no_late_dot(name: Seq<char>)
    requires
        forall|i: int| 0 < i < name.len() ==> name[i] != '.',
    ensures
        last_at(name, '.') <= 0,
    decreases name.len(),
{
    if name.len() > 0 {
        lemma_no_late_dot(name.drop_last());
    }
}

/// The file name at the end of a path is what stands behind its last separator, where that is a name.
pub proof fn last_component_is_the_file_name(dir: Seq<char>, name: Seq<char>, backslash: bool)
    requires
        name.len() > 0,
        name != seq!['.'],
        name != seq!['.', '.'],
        !name.contains('/'),
        backslash ==> !name.contains('\\'),
    ensures
        final_name(name, backslash) == Some(name),
        final_name(dir + seq!['/'] + name, backslash) == Some(name),
        backslash ==> final_name(dir + seq!['\\'] + name, backslash) == Some(name),
{
    lemma_no_separator(name, backslash);
    assert(name.skip(0) =~= name);
    let one = dir + seq!['/'] + name;
    lemma_separator_before(dir, '/', name, backslash);
    assert(one.skip(dir.len() as int + 1) =~= name);
    if backslash {
        let two = dir + seq!['\\'] + name;
        lemma_separator_before(dir, '\\', name, backslash);
        assert(two.skip(dir.len() as int + 1) =~= name);
    }
}

proof fn lemma_no_separator(name: Seq<char>, backslash: bool)
    requires
        !name.contains('/'),
        backslash ==> !name.contains('\\'),
    ensures
        last_separator(name, backslash) == -1,
    decreases name.len(),
{
    if name.len() > 0 {
        let shorter = name.drop_last();
        assert(name.last() == name[name.len() - 1]);
        assert forall|i: int| 0 <= i < shorter.len() implies shorter[i] != '/' && (backslash
            ==> shorter[i] != '\\') by {
            assert(shorter[i] == name[i]);
        }
        lemma_no_separator(shorter, backslash);
    }
}

proof fn lemma_separator_before(dir: Seq<char>, c: char, name: Seq<char>, backslash: bool)
    requires
        c == '/' || (backslash && c == '\\'),
        !name.contains('/'),
        backslash ==> !name.contains('\\'),
    ensures
        last_separator(dir + seq![c] + name, backslash) == dir.len(),
    decreases name.len(),
{
    let path = dir + seq![c] + name;
    if name.len() > 0 {
        let shorter = name.drop_last();
        assert(name.last() == name[name.len() - 1]);
        assert forall|i: int| 0 <= i < shorter.len() implies shorter[i] != '/' && (backslash
            ==> shorter[i] != '\\') by {
            assert(shorter[i] == name[i]);
        }
        lemma_separator_before(dir, c, shorter, backslash);
        assert(path.drop_last() =~= dir + seq![c] + shorter);
    } else {
        assert(path.last() == c);
    }
}

/// A separator at the end of a path, or a component `.` there, changes nothing; one `..` there leaves
/// no file name, and neither does an empty path.
pub proof fn ends_of_paths_are_passed_over(path: Seq<char>, c: char, backslash: bool)
    requires
        c == '/' || (backslash && c == '\\'),
    ensures
        final_name(path.push(c), backslash) == final_name(path, backslash),
        final_name(path + seq![c, '.'], backslash) == final_name(path, backslash),
        final_name(path + seq![c, '.', '.'], backslash) is None,
        final_name(Seq::<char>::empty(), backslash) is None,
        final_name(seq!['.'], backslash) is None,
        final_name(seq!['.', '.'], backslash) is None,
{
    let nothing = Seq::<char>::empty();
    let dot = seq!['.'];
    let dots = seq!['.', '.'];
    assert(dot.len() != dots.len());
    lemma_separator_before(path, c, nothing, backslash);
    assert(path + seq![c] + nothing =~= path.push(c));
    assert(path.push(c).skip(path.len() as int + 1) =~= nothing);
    assert(path.push(c).take(path.len() as int) =~= path);
    lemma_separator_before(path, c, dot, backslash);
    let one = path + seq![c, '.'];
    assert(path + seq![c] + dot =~= one);
    assert(one.skip(path.len() as int + 1) =~= dot);
    assert(one.take(path.len() as int) =~= path);
    lemma_separator_before(path, c, dots, backslash);
    let two = path + seq![c, '.', '.'];
    assert(path + seq![c] + dots =~= two);
    assert(two.skip(path.len() as int + 1) =~= dots);
    lemma_no_separator(nothing, backslash);
    lemma_no_separator(dot, backslash);
    lemma_no_separator(dots, backslash);
    assert(nothing.skip(0) =~= nothing);
    assert(dot.skip(0) =~= dot);
    assert(dots.skip(0) =~= dots);
}

/// The video at a plain path is looked for by its file name without the extension: whatever platform
/// it is, the directories before it play no part.
pub proof fn video_is_looked_for_by_its_name(
    found: Option<Seq<char>>,
    dir: Seq<char>,
    stem: Seq<char>,
    extension: Seq<char>,
)
    requires
        stem.len() > 0,
        !extension.contains('.'),
        !(stem + seq!['.'] + extension).contains('/'),
        !(dir + seq!['/'] + (stem + seq!['.'] + extension)).contains('\\'),
        stem + seq!['.'] + extension != seq!['.', '.'],
        dir.len() > 0 ==> !(dir[0] == '/' && (dir.len() == 1 || dir[1] == '/')),
        dir.len() > 1 ==> dir[1] != ':',
        is_stem_of_path(found, dir + seq!['/'] + (stem + seq!['.'] + extension)),
    ensures
        found == Some(stem),
{
    let name = stem + seq!['.'] + extension;
    let path = dir + seq!['/'] + name;
    assert(name.len() >= 2);
    if dir.len() == 0 {
        assert(path[0] == '/');
        assert(path[1] == name[0]);
        assert(name.contains(name[0]));
        assert(path.contains(path[1]));
    } else {
        assert(path[0] == dir[0]);
        assert(path.contains(path[0]) && path.contains(path[1]));
        if dir.len() == 1 {
            assert(path[1] == '/');
        } else {
            assert(path[1] == dir[1]);
        }
    }
    plain_paths_have_one_stem(found, path);
    last_component_is_the_file_name(dir, name, false);
    extension_is_left_off(stem, extension);
}

proof fn lemma_after_component(component: Seq<char>, rest: Seq<char>)
    requires
        forall|i: int|
            0 <= i < component.len() ==> !parts_path(#[trigger] component[i], true),
        rest.len() > 0,
        parts_path(rest[0], true),
    ensures
        after_component(component + rest) == rest,
        component.len() > 0 ==> after_separators(component + rest) == component + rest,
    decreases component.len(),
{
    let path = component + rest;
    if component.len() > 0 {
        let shorter = component.drop_first();
        assert(path[0] == component[0]);
        assert forall|i: int| 0 <= i < shorter.len() implies !parts_path(
            #[trigger] shorter[i],
            true,
        ) by {
            assert(shorter[i] == component[i + 1]);
        }
        lemma_after_component(shorter, rest);
        assert(path.drop_first() =~= shorter + rest);
    } else {
        assert(path =~= rest);
    }
}

/// A video on a share is looked for by its file name without the extension, on a platform that knows
/// shares as on one that does not.
pub proof fn video_on_a_share_is_looked_for_by_its_name(
    found: Option<Seq<char>>,
    server: Seq<char>,
    share: Seq<char>,
    stem: Seq<char>,
    extension: Seq<char>,
)
    requires
        stem.len() > 0,
        !extension.contains('.'),
        server.len() > 0,
        server[0] != '?',
        share.len() > 0,
        forall|i: int|
            0 <= i < server.len() ==> #[trigger] server[i] != '/' && server[i] != '\\',
        forall|i: int| 0 <= i < share.len() ==> #[trigger] share[i] != '/' && share[i] != '\\',
        forall|i: int|
            0 <= i < (stem + seq!['.'] + extension).len() ==> #[trigger] (stem + seq!['.']
                + extension)[i] != '/' && (stem + seq!['.'] + extension)[i] != '\\',
        stem + seq!['.'] + extension != seq!['.', '.'],
        is_stem_of_path(
            found,
            seq!['/', '/'] + server + seq!['/'] + share + seq!['/'] + (stem + seq!['.'] + extension),
        ),
    ensures
        found == Some(stem),
{
    let name = stem + seq!['.'] + extension;
    let end = seq!['/'] + name;
    let middle = share + end;
    let path = seq!['/', '/'] + server + seq!['/'] + share + seq!['/'] + name;
    let start = server + (seq!['/'] + middle);
    assert(path =~= seq!['/', '/'] + start);
    assert(path[0] == '/' && path[1] == '/' && path[2] == server[0]);
    assert(path.drop_first().drop_first() =~= start);
    assert(path.drop_first()[0] == '/');
    assert(start[0] == server[0]);
    assert(after_separators(start) == start);
    assert(after_separators(path.drop_first()) == start);
    assert(after_separators(path) == start);
    lemma_after_component(server, seq!['/'] + middle);
    let second = seq!['/'] + middle;
    assert(second.drop_first() =~= middle);
    lemma_after_component(share, end);
    assert(after_separators(second) == middle);
    assert(after_prefix(path) == end);
    assert(!name.contains('/') && !name.contains('\\'));
    assert(name.len() >= 2);
    let dir = seq!['/', '/'] + server + seq!['/'] + share;
    assert(path =~= dir + seq!['/'] + name);
    last_component_is_the_file_name(dir, name, false);
    last_component_is_the_file_name(dir, name, true);
    last_component_is_the_file_name(Seq::empty(), name, true);
    assert(Seq::<char>::empty() + seq!['/'] + name =~= end);
    extension_is_left_off(stem, extension);
}

/// A candidate is the file that its fields name.
pub proof fn candidate_is_what_its_fields_name(candidates: Seq<Candidate>, i: int)
    requires
        0 <= i < candidates.len(),
    ensures
        spots(candidates).len() == candidates.len(),
        spots(candidates)[i].place == candidates[i].place,
        spots(candidates)[i].file == candidates[i].file@,
{
}

/// A path that begins with no two separators has the stem that slashes give it, or the one that both
/// separators give to what follows a drive.
pub proof fn other_paths_have_two_stems_at_most(found: Option<Seq<char>>, path: Seq<char>)
    requires
        is_stem_of_path(found, path),
        path.len() >= 2 ==> !((path[0] == '/' || path[0] == '\\') && (path[1] == '/' || path[1]
            == '\\')),
    ensures
        path.len() >= 2 && ('a' <= path[0] <= 'z' || 'A' <= path[0] <= 'Z') && path[1] == ':' ==> {
            ||| found == stem_in(path, false)
            ||| found == stem_in(path.skip(2), true)
        },
        !(path.len() >= 2 && ('a' <= path[0] <= 'z' || 'A' <= path[0] <= 'Z') && path[1] == ':')
            ==> {
            ||| found == stem_in(path, false)
            ||| found == stem_in(path, true)
        },
{
}

} // verus!
