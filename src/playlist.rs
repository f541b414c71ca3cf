use vstd::prelude::*;

use crate::track::{copy_tracks, same_tracks, title_of, tracks_view, Track};

verus! {

/// What `std::path::Path::extension` gives for a path: the extension of its
/// final component, if it has one.
pub uninterp spec fn extension_of(path: Seq<char>) -> Option<Seq<char>>;

/// Relies on `std::path::Path::extension` for the extension of the path's
/// final component (`None` when it has none); a `&str` path is valid Unicode,
/// so the lossy conversion back to a string loses nothing.
#[verifier::external_body]
fn extension(path: &str) -> (r: Option<String>)
    ensures
        match r {
            Some(s) => extension_of(path@) == Some(s@),
            None => extension_of(path@) is None,
        },
{
    std::path::Path::new(path).extension().map(|s| s.to_string_lossy().to_string())
}

/// The one audio format a playlist holds.
pub open spec fn is_audio_file(path: Seq<char>) -> bool {
    extension_of(path) == Some(seq!['m', 'p', '3'])
}

/// Whether an extension, as `std::path::Path::extension` gives it, is the
/// audio format's.
pub fn is_audio_extension(ext: &Option<String>) -> (r: bool)
    ensures
        r == (ext matches Some(e) && e@ == seq!['m', 'p', '3']),
{
    match ext {
        Some(e) => {
            let audio = String::from_str("mp3");
            proof {
                reveal_strlit("mp3");
                assert(audio@ =~= seq!['m', 'p', '3']);
            }
            *e == audio
        },
        None => false,
    }
}

/// An entry found in a playlist's directory: its path, and whether it is a
/// regular file.
#[derive(Debug)]
pub struct DirEntry {
    pub path: String,
    pub is_file: bool,
}

/// The tracks that a directory listing yields: the regular audio files, in
/// listing order.
pub open spec fn tracks_of(entries: Seq<DirEntry>) -> Seq<(Seq<char>, Seq<char>)>
    decreases entries.len(),
{
    if entries.len() == 0 {
        Seq::empty()
    } else {
        let rest = tracks_of(entries.drop_last());
        let e = entries.last();
        if e.is_file && is_audio_file(e.path@) {
            rest.push((e.path@, title_of(e.path@)))
        } else {
            rest
        }
    }
}

/// A named playlist stored in a directory of its own.
#[derive(Debug)]
pub struct StoredPlaylist {
    root: String,
    name: String,
    tracks: Vec<Track>,
}

impl StoredPlaylist {
    pub closed spec fn name_view(&self) -> Seq<char> {
        self.name@
    }

    pub closed spec fn root_view(&self) -> Seq<char> {
        self.root@
    }

    /// The tracks, in order.
    pub closed spec fn tracks_view(&self) -> Seq<(Seq<char>, Seq<char>)> {
        tracks_view(self.tracks@)
    }

    /// A playlist with no tracks yet; `rescan` fills it.
    pub fn new(root: String, name: String) -> (r: StoredPlaylist)
        ensures
            r.root_view() == root@,
            r.name_view() == name@,
            r.tracks_view() == Seq::<(Seq<char>, Seq<char>)>::empty(),
    {
        let r = StoredPlaylist { root, name, tracks: Vec::new() };
        assert(r.tracks_view() =~= Seq::<(Seq<char>, Seq<char>)>::empty());
        r
    }

    /// Replaces the whole track list with the audio files of a fresh listing
    /// of the playlist's directory.
    pub fn rescan(&mut self, entries: &Vec<DirEntry>)
        ensures
            final(self).tracks_view() == tracks_of(entries@),
            final(self).name_view() == old(self).name_view(),
            final(self).root_view() == old(self).root_view(),
    {
        let mut tracks: Vec<Track> = Vec::new();
        let mut i: usize = 0;
        while i < entries.len()
            invariant
                0 <= i <= entries.len(),
                tracks_view(tracks@) == tracks_of(entries@.take(i as int)),
            decreases entries.len() - i,
        {
            let e = &entries[i];
            proof {
                assert(entries@.take(i as int + 1).drop_last() =~= entries@.take(i as int));
                assert(entries@.take(i as int + 1).last() == entries@[i as int]);
            }
            if e.is_file && is_audio_extension(&extension(e.path.as_str())) {
                let ghost before = tracks@;
                tracks.push(Track::new(e.path.as_str()));
                proof {
                    assert(tracks_view(tracks@) =~= tracks_view(before).push(tracks@.last()@));
                }
            }
            i = i + 1;
        }
        proof {
            assert(entries@.take(entries@.len() as int) =~= entries@);
        }
        self.tracks = tracks;
    }

    pub fn name(&self) -> (r: String)
        ensures
            r@ == self.name_view(),
    {
        self.name.clone()
    }

    pub fn tracks(&self) -> (r: Vec<Track>)
        ensures
            tracks_view(r@) == self.tracks_view(),
    {
        copy_tracks(&self.tracks)
    }

    /// Whether `tracks` is exactly this playlist's track list.
    pub fn equals(&self, tracks: &Vec<Track>) -> (r: bool)
        ensures
            r == (self.tracks_view() == tracks_view(tracks@)),
    {
        same_tracks(&self.tracks, tracks)
    }
}

} // verus!
