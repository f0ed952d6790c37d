use crate::order::{clone_opt, opt_view};
use vstd::prelude::*;

verus! {

/// A track's metadata record, keyed by its file name.
#[derive(Clone, Debug, PartialEq, Eq)]
pub struct Track {
    pub filename: String,
    pub title: Option<String>,
    pub artist: Option<String>,
    pub album: Option<String>,
    pub album_artist: Option<String>,
    pub genre: Option<String>,
    pub track: Option<u32>,
}

/// The kinds of tag block an audio file can carry.
#[derive(Clone, Copy, Debug, PartialEq, Eq, Structural)]
pub enum TagFormat {
    Ape,
    Id3v1,
    Id3v2,
    Mp4Ilst,
    VorbisComments,
    RiffInfo,
    AiffText,
    /// A kind this library does not name.
    Other,
}

/// The fields read from one tag block of a file.
#[derive(Clone, Debug, PartialEq, Eq)]
pub struct TagBlock {
    pub format: TagFormat,
    pub title: Option<String>,
    pub artist: Option<String>,
    pub album: Option<String>,
    pub album_artist: Option<String>,
    pub genre: Option<String>,
    pub track: Option<u32>,
}

/// What probing a file found: the tag kind its container prefers, and its tag
/// blocks in the order they were read.
#[derive(Clone, Debug, PartialEq, Eq)]
pub struct ProbedFile {
    pub primary_format: TagFormat,
    pub tags: Vec<TagBlock>,
}

/// The first block of the given kind.
pub open spec fn find_format(tags: Seq<TagBlock>, format: TagFormat) -> Option<TagBlock>
    decreases tags.len(),
{
    if tags.len() == 0 {
        None
    } else if tags[0].format == format {
        Some(tags[0])
    } else {
        find_format(tags.drop_first(), format)
    }
}

/// The block a record is read from: the first of the primary kind, else the
/// first of any kind, else none.
pub open spec fn selected_tag(tags: Seq<TagBlock>, primary: TagFormat) -> Option<TagBlock> {
    match find_format(tags, primary) {
        Some(t) => Some(t),
        None => if tags.len() > 0 {
            Some(tags[0])
        } else {
            None
        },
    }
}

/// `r` is the record of the file at `path` read from block `t`.
pub open spec fn record_from(r: Track, path: Seq<char>, t: TagBlock) -> bool {
    &&& r.filename@ == path
    &&& opt_view(r.title) == opt_view(t.title)
    &&& opt_view(r.artist) == opt_view(t.artist)
    &&& opt_view(r.album) == opt_view(t.album)
    &&& opt_view(r.album_artist) == opt_view(t.album_artist)
    &&& opt_view(r.genre) == opt_view(t.genre)
    &&& r.track == t.track
}

/// The position of the first block of the given kind.
fn position_of_format(tags: &Vec<TagBlock>, format: TagFormat) -> (r: Option<usize>)
    ensures
        match r {
            None => find_format(tags@, format) is None,
            Some(i) => i < tags@.len() && find_format(tags@, format) == Some(tags@[i as int]),
        },
{
    let mut i: usize = 0;
    assert(tags@.skip(0) =~= tags@);
    while i < tags.len()
        invariant
            i <= tags@.len(),
            find_format(tags@, format) == find_format(tags@.skip(i as int), format),
        decreases tags@.len() - i,
    {
        assert(tags@.skip(i as int).drop_first() =~= tags@.skip(i + 1));
        if tags[i].format == format {
            return Some(i);
        }
        i = i + 1;
    }
    None
}

/// Builds the record of the file at `path` from what probing it found: no
/// record when probing failed or the file holds no tag block; otherwise one
/// read from the primary block, or from the first block when there is none.
pub fn process_file(path: &str, probed: &Option<ProbedFile>) -> (r: Option<Track>)
    ensures
        match probed {
            None => r is None,
            Some(p) => match selected_tag(p.tags@, p.primary_format) {
                None => r is None,
                Some(t) => r matches Some(rec) && record_from(rec, path@, t),
            },
        },
{
    match probed {
        None => None,
        Some(p) => {
            let index = match position_of_format(&p.tags, p.primary_format) {
                Some(i) => i,
                None => {
                    if p.tags.len() == 0 {
                        return None;
                    }
                    0
                },
            };
            let t = &p.tags[index];
            Some(
                Track {
                    filename: path.to_owned(),
                    title: clone_opt(&t.title),
                    artist: clone_opt(&t.artist),
                    album: clone_opt(&t.album),
                    album_artist: clone_opt(&t.album_artist),
                    genre: clone_opt(&t.genre),
                    track: t.track,
                },
            )
        },
    }
}

} // verus!
