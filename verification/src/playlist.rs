//! One broadcast item of the source playlist, and the free-text query it
//! turns into on the destination side.

use vstd::prelude::*;

verus! {

/// One item of the fetched playlist: the performer and the track title,
/// in the order the station broadcast them.
#[derive(Debug)]
pub struct PlaylistEntry {
    pub artist: String,
    pub title: String,
}

/// The mathematical content of a `PlaylistEntry`.
pub ghost struct EntryView {
    pub artist: Seq<char>,
    pub title: Seq<char>,
}

impl View for PlaylistEntry {
    type V = EntryView;

    open spec fn view(&self) -> EntryView {
        EntryView { artist: self.artist@, title: self.title@ }
    }
}

/// The search query an entry yields: artist, one space, title, with no
/// escaping or normalization.
pub open spec fn query_str(e: EntryView) -> Seq<char> {
    e.artist + seq![' '] + e.title
}

impl PlaylistEntry {
    /// Builds the destination search query, `"{artist} {title}"`.
    pub fn track_query(&self) -> (r: String)
        ensures
            r@ == query_str(self@),
    {
        let mut q = self.artist.clone();
        q.append(" ");
        q.append(self.title.as_str());
        proof {
            reveal_strlit(" ");
            assert(" "@ =~= seq![' ']);
            assert(q@ =~= query_str(self@));
        }
        q
    }
}

/// The views of a sequence of entries.
pub open spec fn views_of(es: Seq<PlaylistEntry>) -> Seq<EntryView> {
    es.map_values(|e: PlaylistEntry| e@)
}

} // verus!
