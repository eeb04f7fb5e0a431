//! The library page: liked songs, library songs and playlists of the signed-in
//! account.

use vstd::prelude::*;

use crate::model;
use crate::model::Playlist;
use crate::text;

verus! {

/// Which part of the library is open.
#[derive(Clone, Copy, Debug, PartialEq, Eq, Structural)]
pub enum LibraryTab {
    Liked,
    Songs,
    Playlists,
}

/// What the library page keeps.
pub struct LibraryState {
    pub tab: LibraryTab,
    pub playlists: Vec<Playlist>,
    /// The browse id of the playlist that is open.
    pub open_playlist: Option<String>,
    pub loading_playlists: bool,
}

/// What fills the page.
#[derive(Clone, Copy, Debug, PartialEq, Eq, Structural)]
pub enum LibraryPage {
    /// An invitation to sign in.
    SignIn,
    /// The playlists, and an invitation to pick one.
    PickPlaylist,
    /// The playlists, and the open one's tracks.
    OpenPlaylist,
    /// Tracks alone.
    Tracks,
}

pub const SIGN_IN: &'static str =
    "Sign in (Settings) to see your liked songs, library, and playlists.";

pub const NO_PLAYLISTS: &'static str = "No playlists yet.";

impl LibraryState {
    /// What fills the page.
    pub fn page(&self, has_cookies: bool) -> (p: LibraryPage)
        ensures
            p == (if !has_cookies {
                LibraryPage::SignIn
            } else if self.tab != LibraryTab::Playlists {
                LibraryPage::Tracks
            } else if self.open_playlist is Some {
                LibraryPage::OpenPlaylist
            } else {
                LibraryPage::PickPlaylist
            }),
    {
        if !has_cookies {
            return LibraryPage::SignIn;
        }
        match self.tab {
            LibraryTab::Playlists => if self.open_playlist.is_some() {
                LibraryPage::OpenPlaylist
            } else {
                LibraryPage::PickPlaylist
            },
            _ => LibraryPage::Tracks,
        }
    }

    /// What the list says where it has nothing to list.
    pub fn empty_note(&self) -> (note: Option<String>)
        ensures
            model::text_view(note) == (if self.playlists@.len() == 0 && !self.loading_playlists {
                Some(NO_PLAYLISTS@)
            } else {
                None
            }),
    {
        if self.playlists.len() == 0 && !self.loading_playlists {
            Some(NO_PLAYLISTS.to_owned())
        } else {
            None
        }
    }

    /// Whether the playlist is the open one.
    pub fn is_open(&self, playlist: &Playlist) -> (yes: bool)
        ensures
            yes == (model::text_view(self.open_playlist) == Some(playlist.browse_id@)),
    {
        match &self.open_playlist {
            Some(id) => text::same(id.as_str(), playlist.browse_id.as_str()),
            None => false,
        }
    }
}

/// A playlist's line in the list: its title, and its subtitle under it.
pub open spec fn playlist_line(p: model::PlaylistView) -> Seq<char> {
    if p.subtitle.len() == 0 {
        p.title
    } else {
        p.title + "\n"@ + p.subtitle
    }
}

/// The title stands in the first line and the subtitle, where there is one, in
/// the second.
pub proof fn lemma_playlist_line(p: model::PlaylistView)
    ensures
        p.subtitle.len() == 0 ==> playlist_line(p) == p.title,
        p.subtitle.len() > 0 && !p.title.contains('\n') ==> text::split_once(playlist_line(p), '\n')
            == Some((p.title, p.subtitle)),
{
    reveal_strlit("\n");
    assert("\n"@ =~= seq!['\n']);
    if p.subtitle.len() > 0 && !p.title.contains('\n') {
        text::lemma_split_once(p.title, '\n', p.subtitle);
    }
}

/// A playlist's line in the list: its title, and its subtitle under it.
pub fn playlist_label(playlist: &Playlist) -> (label: String)
    ensures
        label@ == playlist_line(playlist@),
{
    let mut label = playlist.title.clone();
    if !playlist.subtitle.as_str().is_empty() {
        label.append("\n");
        label.append(playlist.subtitle.as_str());
    }
    label
}

} // verus!
