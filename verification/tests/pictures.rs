//! Finding thumbnails.

use search_thing::thumbnails::{
    cache_file_name, cached_thumbnail, chunk_dirs, find_extracted_thumbnail,
    infer_extracted_thumbnails_dir, infer_thumbnails_dir, resolve_thumbnail_path, thumbnail_search,
    Candidate, DirChoice, DirEntry, Place, ProbeOutcome, ThumbnailSearch, ThumbnailSource,
    ThumbnailStep,
};

fn dir(name: &str) -> DirEntry {
    DirEntry { name: name.to_string(), is_dir: true }
}

fn file(name: &str) -> DirEntry {
    DirEntry { name: name.to_string(), is_dir: false }
}

/// Runs a search against a disk on which only `existing` is there, and tells what was asked about.
fn run(
    search: ThumbnailSearch,
    listing: Option<Vec<DirEntry>>,
    existing: Option<Candidate>,
) -> (Vec<Candidate>, Option<Candidate>) {
    let mut asked = Vec::new();
    let mut listing = Some(listing);
    let mut search = search;
    loop {
        match search.next_step() {
            ThumbnailStep::Probe(candidate) => {
                asked.push(candidate);
                match search.probed(existing == Some(candidate)) {
                    ProbeOutcome::Found(found) => return (asked, Some(found)),
                    ProbeOutcome::Continue(next) => search = next,
                }
            }
            ThumbnailStep::List => match search.with_listing(listing.take().unwrap()) {
                Some(next) => search = next,
                None => return (asked, None),
            },
            ThumbnailStep::Exhausted => return (asked, None),
        }
    }
}

fn begin() -> ThumbnailSearch {
    find_extracted_thumbnail("/videos/talk.v2.mp4").unwrap()
}

fn at(place: Place, file: &'static str) -> Candidate {
    Candidate { place, file }
}

#[test]
fn directories_are_inferred() {
    match infer_thumbnails_dir(Some("/t".to_string())) {
        DirChoice::Custom(path) => assert_eq!(path, "/t"),
        DirChoice::Under(_) => panic!("it is configured"),
    }
    match infer_thumbnails_dir(None) {
        DirChoice::Under(names) => {
            assert_eq!(names, vec!["videos", "output_indexer", "thumbnail_cache"]);
        }
        DirChoice::Custom(_) => panic!("it is not configured"),
    }
    match infer_extracted_thumbnails_dir(Some(String::new())) {
        DirChoice::Custom(path) => assert_eq!(path, ""),
        DirChoice::Under(_) => panic!("it is configured"),
    }
    match infer_extracted_thumbnails_dir(None) {
        DirChoice::Under(names) => {
            assert_eq!(names, vec!["videos", "output_indexer", "thumbnails"]);
        }
        DirChoice::Custom(_) => panic!("it is not configured"),
    }
}

#[test]
fn paths_without_a_file_name_have_no_picture() {
    assert!(find_extracted_thumbnail("").is_none());
    assert!(find_extracted_thumbnail("/").is_none());
    assert!(find_extracted_thumbnail("a/..").is_none());
    assert!(find_extracted_thumbnail("..").is_none());
    assert!(find_extracted_thumbnail("a/../").is_none());
    assert!(find_extracted_thumbnail("a/.././").is_none());
    assert!(find_extracted_thumbnail("C:/a/..").is_none());
    assert!(find_extracted_thumbnail(".").is_none());
    assert!(find_extracted_thumbnail("./").is_none());
    assert!(find_extracted_thumbnail("/.").is_none());
    assert!(thumbnail_search(None).is_none());
    assert!(thumbnail_search(Some(String::new())).is_none());
}

#[test]
fn stem_is_the_name_without_its_extension() {
    for (path, stem) in [
        ("/videos/talk.v2.mp4", "talk.v2"),
        ("talk", "talk"),
        ("a/.hidden", ".hidden"),
        ("a/..b", "."),
        ("a/b.", "b"),
        ("a/...", ".."),
        ("/v/Talk: part 1.mp4", "Talk: part 1"),
        ("Talk: part 1.mp4", "Talk: part 1"),
        ("C:/v/clip.mp4", "clip"),
        ("v\\w/clip.mp4", "clip"),
        ("a//clip.mp4", "clip"),
        ("a/clip.mp4/", "clip"),
        ("//v/w/x/clip.mp4", "clip"),
        ("a/clip.mp4//.//", "clip"),
    ] {
        assert_eq!(find_extracted_thumbnail(path).unwrap().video_name(), stem);
        let listing = vec![dir(&format!("{}_chunk_0", stem)), dir("other_chunk_0")];
        let wanted = at(Place::Listed(0), "end.jpg");
        let (_, found) = run(find_extracted_thumbnail(path).unwrap(), Some(listing), Some(wanted));
        assert_eq!(found, Some(wanted), "{}", path);
    }
}

#[test]
fn middle_picture_comes_first() {
    for (n, name) in ["middle.jpg", "start.jpg", "end.jpg"].into_iter().enumerate() {
        let (asked, found) = run(begin(), None, Some(at(Place::Own, name)));
        assert_eq!(found, Some(at(Place::Own, name)));
        assert_eq!(asked.len(), n + 1);
    }
}

#[test]
fn chunks_are_searched_by_name() {
    let listing = vec![
        dir("talk.v2_chunk_2"),
        file("talk.v2_chunk_0"),
        dir("talk.v2"),
        dir("talk.v2_chunk_10"),
        dir("other_chunk_1"),
        dir("talk.v2_chunk_1"),
    ];
    let (asked, found) = run(begin(), Some(listing), None);
    assert_eq!(found, None);
    let places: Vec<Place> = asked.iter().map(|c| c.place).collect();
    let mut expected = vec![Place::Own; 3];
    for position in [5usize, 3, 0] {
        expected.extend(vec![Place::Listed(position); 3]);
    }
    assert_eq!(places, expected);
    let files: Vec<&str> = asked.iter().map(|c| c.file).collect();
    assert_eq!(files, ["middle.jpg", "start.jpg", "end.jpg"].repeat(4));
}

#[test]
fn first_existing_picture_wins() {
    let listing = vec![dir("talk.v2_chunk_1"), dir("talk.v2_chunk_0")];
    let wanted = at(Place::Listed(0), "start.jpg");
    let (asked, found) = run(begin(), Some(listing), Some(wanted));
    assert_eq!(found, Some(wanted));
    assert_eq!(asked.len(), 8);
}

#[test]
fn unreadable_directory_ends_the_search() {
    let (asked, found) = run(begin(), None, None);
    assert_eq!(asked.len(), 3);
    assert_eq!(found, None);
}

#[test]
fn equal_names_keep_their_order() {
    let entries = vec![dir("s_chunk_"), dir("s_chunk_"), dir("s_chunk"), dir("s_chunk_\u{e4}")];
    assert_eq!(chunk_dirs(&entries, "s"), vec![0, 1, 3]);
    assert!(chunk_dirs(&Vec::new(), "s").is_empty());
}

#[test]
fn cache_files_are_named_by_hash() {
    assert_eq!(cache_file_name("abc"), Some("abc.jpg".to_string()));
    assert_eq!(cache_file_name(""), None);
    assert_eq!(cached_thumbnail("C:\\c\\abc.jpg", true), Some("C:/c/abc.jpg".to_string()));
    assert_eq!(cached_thumbnail("C:\\c\\abc.jpg", false), None);
}

#[test]
fn thumbnails_come_from_the_cache_first() {
    match resolve_thumbnail_path("C:\\c\\abc.jpg", true, "/v/talk.mp4") {
        ThumbnailSource::Cached(path) => assert_eq!(path, "C:/c/abc.jpg"),
        _ => panic!("it is in the cache"),
    }
    match resolve_thumbnail_path("C:\\c\\abc.jpg", false, "/v/talk.mp4") {
        ThumbnailSource::Extracted(search) => assert_eq!(search.video_name(), "talk"),
        _ => panic!("it has to be extracted"),
    }
    assert!(matches!(resolve_thumbnail_path("abc.jpg", false, "/"), ThumbnailSource::Missing));
}
