use fml9000::chunked::ChunkedIterator;
use fml9000::scan::{build_batch, hashset, select_candidates, DirEntry, MAX_VAL, TRANSACTION_SIZE};
use fml9000::track::{process_file, ProbedFile, TagBlock, TagFormat, Track};
use std::rc::Rc;

fn block(format: TagFormat, title: &str, album: &str) -> TagBlock {
    TagBlock {
        format,
        title: Some(title.to_string()),
        artist: Some("Artist".to_string()),
        album: Some(album.to_string()),
        album_artist: None,
        genre: Some("Rock".to_string()),
        track: Some(3),
    }
}

fn probed(primary: TagFormat, tags: Vec<TagBlock>) -> Option<ProbedFile> {
    Some(ProbedFile { primary_format: primary, tags })
}

fn file(path: &str) -> DirEntry {
    DirEntry { path: path.to_string(), is_file: true }
}

fn dir(path: &str) -> DirEntry {
    DirEntry { path: path.to_string(), is_file: false }
}

fn stored(filename: &str, title: &str) -> Rc<Track> {
    Rc::new(Track {
        filename: filename.to_string(),
        title: Some(title.to_string()),
        artist: None,
        album: None,
        album_artist: None,
        genre: None,
        track: None,
    })
}

/// Stands in for the store: one transaction per batch, refused whole when a
/// file name is already there or repeats inside the batch.
fn commit(store: &mut Vec<Rc<Track>>, batch: Vec<Track>) -> bool {
    for (i, t) in batch.iter().enumerate() {
        if store.iter().any(|s| s.filename == t.filename)
            || batch[..i].iter().any(|s| s.filename == t.filename)
        {
            return false;
        }
    }
    store.extend(batch.into_iter().map(Rc::new));
    true
}

fn probe_of(path: &str) -> Option<ProbedFile> {
    if path.ends_with(".txt") {
        None
    } else {
        probed(TagFormat::Id3v2, vec![block(TagFormat::Id3v2, path, "Album")])
    }
}

fn scan(entries: &[DirEntry], store: &mut Vec<Rc<Track>>, chunk: usize) -> usize {
    let known = hashset(store);
    let paths = select_candidates(entries, &known, MAX_VAL);
    let mut chunks = ChunkedIterator::new(paths, chunk).unwrap();
    let mut inserted = 0;
    while let Some(c) = chunks.next() {
        let files: Vec<(String, Option<ProbedFile>)> =
            c.into_iter().map(|p| (p.clone(), probe_of(&p))).collect();
        let batch = build_batch(&files);
        let n = batch.len();
        if commit(store, batch) {
            inserted += n;
        }
    }
    inserted
}

#[test]
fn primary_tag_is_preferred() {
    let p = probed(
        TagFormat::Id3v2,
        vec![block(TagFormat::Id3v1, "old", "A1"), block(TagFormat::Id3v2, "new", "A2")],
    );
    let r = process_file("/m/a.mp3", &p).unwrap();
    assert_eq!(r.filename, "/m/a.mp3");
    assert_eq!(r.title.as_deref(), Some("new"));
    assert_eq!(r.album.as_deref(), Some("A2"));
    assert_eq!(r.artist.as_deref(), Some("Artist"));
    assert_eq!(r.genre.as_deref(), Some("Rock"));
    assert_eq!(r.track, Some(3));
    assert_eq!(r.album_artist, None);
}

#[test]
fn non_primary_tag_is_the_fallback() {
    let p = probed(TagFormat::Id3v2, vec![block(TagFormat::Ape, "ape", "B")]);
    let r = process_file("/m/b.mp3", &p).unwrap();
    assert_eq!(r.title.as_deref(), Some("ape"));
    assert_eq!(r.album.as_deref(), Some("B"));
}

#[test]
fn first_block_is_the_fallback() {
    let p = probed(
        TagFormat::VorbisComments,
        vec![block(TagFormat::Ape, "first", "F"), block(TagFormat::Id3v1, "second", "S")],
    );
    assert_eq!(process_file("/m/c.flac", &p).unwrap().title.as_deref(), Some("first"));
}

#[test]
fn no_tag_block_gives_no_record() {
    assert!(process_file("/m/d.mp3", &probed(TagFormat::Id3v2, vec![])).is_none());
}

#[test]
fn failed_probe_gives_no_record() {
    assert!(process_file("/m/notes.txt", &None).is_none());
}

#[test]
fn known_names_are_found() {
    let rows = vec![stored("/m/a.mp3", "a"), stored("/m/b.mp3", "b")];
    let set = hashset(&rows);
    assert!(set.contains("/m/a.mp3"));
    assert!(set.contains("/m/b.mp3"));
    assert!(!set.contains("/m/c.mp3"));
}

#[test]
fn candidates_skip_directories_and_known_files() {
    let entries = vec![dir("/m"), file("/m/a.mp3"), dir("/m/sub"), file("/m/sub/b.mp3")];
    let known = hashset(&[stored("/m/a.mp3", "a")]);
    let picked = select_candidates(&entries, &known, MAX_VAL);
    assert_eq!(picked, vec!["/m/sub/b.mp3".to_string()]);
}

#[test]
fn cap_counts_known_files_too() {
    let entries = vec![file("/m/a.mp3"), dir("/m/d"), file("/m/b.mp3"), file("/m/c.mp3")];
    let known = hashset(&[stored("/m/a.mp3", "a")]);
    assert_eq!(select_candidates(&entries, &known, 2), vec!["/m/b.mp3".to_string()]);
    assert!(select_candidates(&entries, &known, 0).is_empty());
}

#[test]
fn skipped_files_never_reach_the_batch() {
    let files = vec![
        ("/m/a.mp3".to_string(), probed(TagFormat::Id3v2, vec![block(TagFormat::Id3v2, "a", "X")])),
        ("/m/notes.txt".to_string(), None),
        ("/m/e.mp3".to_string(), probed(TagFormat::Id3v2, vec![])),
    ];
    let batch = build_batch(&files);
    assert_eq!(batch.len(), 1);
    assert_eq!(batch[0].filename, "/m/a.mp3");
}

#[test]
fn rescan_inserts_nothing() {
    let entries = vec![dir("/m"), file("/m/a.mp3"), file("/m/b.mp3"), file("/m/c.ogg")];
    let mut store = Vec::new();
    assert_eq!(scan(&entries, &mut store, TRANSACTION_SIZE), 3);
    assert_eq!(scan(&entries, &mut store, TRANSACTION_SIZE), 0);
    assert_eq!(store.len(), 3);
}

#[test]
fn end_to_end_scan_with_a_known_file() {
    let entries = vec![file("/m/one.mp3"), file("/m/two.mp3"), file("/m/dup.mp3")];
    let mut store = vec![stored("/m/dup.mp3", "original")];
    assert_eq!(scan(&entries, &mut store, 2), 2);
    assert_eq!(store.len(), 3);
    let dup: Vec<_> = store.iter().filter(|t| t.filename == "/m/dup.mp3").collect();
    assert_eq!(dup.len(), 1);
    assert_eq!(dup[0].title.as_deref(), Some("original"));
}

#[test]
fn failed_chunk_is_rolled_back_whole() {
    let mut store = vec![stored("/m/05.mp3", "kept")];
    let files: Vec<(String, Option<ProbedFile>)> = (0..20)
        .map(|i| format!("/m/{:02}.mp3", i))
        .map(|p| (p.clone(), probe_of(&p)))
        .collect();
    let batch = build_batch(&files);
    assert_eq!(batch.len(), 20);
    assert!(!commit(&mut store, batch));
    assert_eq!(store.len(), 1);
    assert_eq!(store[0].title.as_deref(), Some("kept"));
}
