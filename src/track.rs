use vstd::prelude::*;

verus! {

/// What `std::path::Path::file_stem` gives for a path: the final component
/// without its extension, if there is a final component.
pub uninterp spec fn file_stem_of(path: Seq<char>) -> Option<Seq<char>>;

/// Relies on `std::path::Path::file_stem` for the stem of the path's final
/// component (`None` when there is no final component); a `&str` path is valid
/// Unicode, so the lossy conversion back to a string loses nothing.
#[verifier::external_body]
fn file_stem(path: &str) -> (r: Option<String>)
    ensures
        match r {
            Some(s) => file_stem_of(path@) == Some(s@),
            None => file_stem_of(path@) is None,
        },
{
    std::path::Path::new(path).file_stem().map(|s| s.to_string_lossy().to_string())
}

/// The title shown for a track at `path`: its file name without extension,
/// or the whole path when it has no file name.
pub open spec fn title_of(path: Seq<char>) -> Seq<char> {
    match file_stem_of(path) {
        Some(stem) => stem,
        None => path,
    }
}

/// An audio file in a playlist.
#[derive(Debug)]
pub struct Track {
    path: String,
    title: String,
}

impl View for Track {
    type V = (Seq<char>, Seq<char>);

    /// The path and the title.
    closed spec fn view(&self) -> (Seq<char>, Seq<char>) {
        (self.path@, self.title@)
    }
}

impl Track {
    pub fn new(path: &str) -> (r: Track)
        ensures
            r@ == (path@, title_of(path@)),
    {
        Track::with_stem(path, file_stem(path))
    }

    /// The track at `path`, given the stem of its file name: the stem is the
    /// title, or the whole path when there is no file name.
    pub fn with_stem(path: &str, stem: Option<String>) -> (r: Track)
        ensures
            r@ == (
                path@,
                match stem {
                    Some(s) => s@,
                    None => path@,
                },
            ),
    {
        let title = match stem {
            Some(s) => s,
            None => path.to_string(),
        };
        Track { path: path.to_string(), title }
    }

    pub fn path(&self) -> (r: String)
        ensures
            r@ == self@.0,
    {
        self.path.clone()
    }

    pub fn title(&self) -> (r: String)
        ensures
            r@ == self@.1,
    {
        self.title.clone()
    }
}

impl Clone for Track {
    fn clone(&self) -> (r: Self)
        ensures
            r@ == self@,
    {
        Track { path: self.path.clone(), title: self.title.clone() }
    }
}

impl PartialEq for Track {
    fn eq(&self, other: &Track) -> (r: bool) {
        self.path == other.path && self.title == other.title
    }
}

impl vstd::std_specs::cmp::PartialEqSpecImpl for Track {
    open spec fn obeys_eq_spec() -> bool {
        true
    }

    open spec fn eq_spec(&self, other: &Track) -> bool {
        self@ == other@
    }
}

impl Eq for Track {

}

/// The views of a list of tracks.
pub open spec fn tracks_view(tracks: Seq<Track>) -> Seq<(Seq<char>, Seq<char>)> {
    tracks.map_values(|t: Track| t@)
}

/// Whether two track lists hold the same tracks in the same order.
pub fn same_tracks(a: &Vec<Track>, b: &Vec<Track>) -> (r: bool)
    ensures
        r == (tracks_view(a@) == tracks_view(b@)),
{
    if a.len() != b.len() {
        proof {
            assert(tracks_view(a@).len() != tracks_view(b@).len());
        }
        return false;
    }
    let mut i: usize = 0;
    while i < a.len()
        invariant
            a.len() == b.len(),
            0 <= i <= a.len(),
            forall|j: int| 0 <= j < i ==> a@[j]@ == #[trigger] b@[j]@,
        decreases a.len() - i,
    {
        if a[i] != b[i] {
            proof {
                assert(tracks_view(a@)[i as int] != tracks_view(b@)[i as int]);
            }
            return false;
        }
        i = i + 1;
    }
    proof {
        assert(tracks_view(a@) =~= tracks_view(b@));
    }
    true
}

/// A copy of a track list, track by track.
pub fn copy_tracks(tracks: &Vec<Track>) -> (r: Vec<Track>)
    ensures
        tracks_view(r@) == tracks_view(tracks@),
{
    let mut r: Vec<Track> = Vec::new();
    let mut i: usize = 0;
    while i < tracks.len()
        invariant
            0 <= i <= tracks.len(),
            r@.len() == i,
            forall|j: int| 0 <= j < i ==> #[trigger] r@[j]@ == tracks@[j]@,
        decreases tracks.len() - i,
    {
        r.push(tracks[i].clone());
        i = i + 1;
    }
    proof {
        assert(tracks_view(r@) =~= tracks_view(tracks@));
    }
    r
}

} // verus!
