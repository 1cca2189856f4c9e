//! What is known of the page behind a bookmark.

use vstd::prelude::*;
use crate::chars::{slice_reads, to_chars};
use crate::text::{optional_text, text_or_empty};

verus! {

/// The kind of page, as the Open Graph protocol names it.
#[derive(Debug, Clone, Copy, PartialEq, Eq, Structural)]
pub enum SiteType {
    MusicSong,
    MusicAlbum,
    MusicPlaylist,
    MusicRadioStation,
    VideoMovie,
    VideoEpisode,
    VideoTvShow,
    VideoOther,
    Article,
    Book,
    Profile,
    Website,
}

/// The kind of page that `txt` names; `Website` for any text that names
/// none.
pub open spec fn site_type_of(txt: Seq<char>) -> SiteType {
    if txt == "music.song"@ {
        SiteType::MusicSong
    } else if txt == "music.album"@ {
        SiteType::MusicAlbum
    } else if txt == "music.playlist"@ {
        SiteType::MusicPlaylist
    } else if txt == "music.radio_station"@ {
        SiteType::MusicRadioStation
    } else if txt == "video.movie"@ {
        SiteType::VideoMovie
    } else if txt == "video.episode"@ {
        SiteType::VideoEpisode
    } else if txt == "video.tv_show"@ {
        SiteType::VideoTvShow
    } else if txt == "video.other"@ {
        SiteType::VideoOther
    } else if txt == "article"@ {
        SiteType::Article
    } else if txt == "book"@ {
        SiteType::Book
    } else if txt == "profile"@ {
        SiteType::Profile
    } else {
        SiteType::Website
    }
}

impl SiteType {
    /// The name of this kind of page.
    pub open spec fn name(self) -> Seq<char> {
        match self {
            SiteType::MusicSong => "music.song"@,
            SiteType::MusicAlbum => "music.album"@,
            SiteType::MusicPlaylist => "music.playlist"@,
            SiteType::MusicRadioStation => "music.radio_station"@,
            SiteType::VideoMovie => "video.movie"@,
            SiteType::VideoEpisode => "video.episode"@,
            SiteType::VideoTvShow => "video.tv_show"@,
            SiteType::VideoOther => "video.other"@,
            SiteType::Article => "article"@,
            SiteType::Book => "book"@,
            SiteType::Profile => "profile"@,
            SiteType::Website => "website"@,
        }
    }

    /// The kind of page that `txt` names; `Website` for any text that
    /// names none.
    pub fn from(txt: &str) -> (r: SiteType)
        ensures
            r == site_type_of(txt@),
    {
        let s = to_chars(txt);
        let n: usize = s.len();
        proof {
            assert(s@.subrange(0, n as int) =~= s@);
        }
        if slice_reads(s.as_slice(), 0, n, "music.song") {
            SiteType::MusicSong
        } else if slice_reads(s.as_slice(), 0, n, "music.album") {
            SiteType::MusicAlbum
        } else if slice_reads(s.as_slice(), 0, n, "music.playlist") {
            SiteType::MusicPlaylist
        } else if slice_reads(s.as_slice(), 0, n, "music.radio_station") {
            SiteType::MusicRadioStation
        } else if slice_reads(s.as_slice(), 0, n, "video.movie") {
            SiteType::VideoMovie
        } else if slice_reads(s.as_slice(), 0, n, "video.episode") {
            SiteType::VideoEpisode
        } else if slice_reads(s.as_slice(), 0, n, "video.tv_show") {
            SiteType::VideoTvShow
        } else if slice_reads(s.as_slice(), 0, n, "video.other") {
            SiteType::VideoOther
        } else if slice_reads(s.as_slice(), 0, n, "article") {
            SiteType::Article
        } else if slice_reads(s.as_slice(), 0, n, "book") {
            SiteType::Book
        } else if slice_reads(s.as_slice(), 0, n, "profile") {
            SiteType::Profile
        } else {
            SiteType::Website
        }
    }

    /// The name of this kind of page, as text.
    pub fn as_str(&self) -> (r: &'static str)
        ensures
            r@ == self.name(),
    {
        match self {
            SiteType::MusicSong => "music.song",
            SiteType::MusicAlbum => "music.album",
            SiteType::MusicPlaylist => "music.playlist",
            SiteType::MusicRadioStation => "music.radio_station",
            SiteType::VideoMovie => "video.movie",
            SiteType::VideoEpisode => "video.episode",
            SiteType::VideoTvShow => "video.tv_show",
            SiteType::VideoOther => "video.other",
            SiteType::Article => "article",
            SiteType::Book => "book",
            SiteType::Profile => "profile",
            SiteType::Website => "website",
        }
    }

    /// The name of this kind of page, as a string of its own.
    #[allow(clippy::inherent_to_string)]
    pub fn to_string(&self) -> (r: String)
        ensures
            r@ == self.name(),
    {
        self.as_str().to_owned()
    }
}

impl Default for SiteType {
    fn default() -> (r: SiteType)
        ensures
            r == SiteType::Website,
    {
        SiteType::Website
    }
}

/// Reading the name of a kind of page gives that kind back.
pub proof fn lemma_site_type_round_trip(t: SiteType)
    ensures
        site_type_of(t.name()) == t,
{
    reveal_strlit("music.song");
    reveal_strlit("music.album");
    reveal_strlit("music.playlist");
    reveal_strlit("music.radio_station");
    reveal_strlit("video.movie");
    reveal_strlit("video.episode");
    reveal_strlit("video.tv_show");
    reveal_strlit("video.other");
    reveal_strlit("article");
    reveal_strlit("book");
    reveal_strlit("profile");
    reveal_strlit("website");
    assert("music.song"@.len() == 10);
    assert("music.song"@[0] == 'm');
    assert("music.song"@[6] == 's');
    assert("music.album"@.len() == 11);
    assert("music.album"@[0] == 'm');
    assert("music.album"@[6] == 'a');
    assert("music.playlist"@.len() == 14);
    assert("music.playlist"@[0] == 'm');
    assert("music.playlist"@[6] == 'p');
    assert("music.radio_station"@.len() == 19);
    assert("music.radio_station"@[0] == 'm');
    assert("music.radio_station"@[6] == 'r');
    assert("video.movie"@.len() == 11);
    assert("video.movie"@[0] == 'v');
    assert("video.movie"@[6] == 'm');
    assert("video.episode"@.len() == 13);
    assert("video.episode"@[0] == 'v');
    assert("video.episode"@[6] == 'e');
    assert("video.tv_show"@.len() == 13);
    assert("video.tv_show"@[0] == 'v');
    assert("video.tv_show"@[6] == 't');
    assert("video.other"@.len() == 11);
    assert("video.other"@[0] == 'v');
    assert("video.other"@[6] == 'o');
    assert("article"@.len() == 7);
    assert("article"@[0] == 'a');
    assert("article"@[6] == 'e');
    assert("book"@.len() == 4);
    assert("book"@[0] == 'b');
    assert("profile"@.len() == 7);
    assert("profile"@[0] == 'p');
    assert("profile"@[6] == 'e');
    assert("website"@.len() == 7);
    assert("website"@[0] == 'w');
    assert("website"@[6] == 'e');
}

/// What a page says of itself.
pub struct SiteMetadataView {
    pub title: Seq<char>,
    pub description: Option<Seq<char>>,
    pub image_url: Option<Seq<char>>,
    pub site_type: SiteType,
}

/// What a page says of itself.
#[derive(Debug, Clone)]
pub struct SiteMetadata {
    pub title: String,
    pub description: Option<String>,
    pub image_url: Option<String>,
    pub site_type: SiteType,
}

impl View for SiteMetadata {
    type V = SiteMetadataView;

    open spec fn view(&self) -> SiteMetadataView {
        SiteMetadataView {
            title: self.title@,
            description: optional_text(self.description),
            image_url: optional_text(self.image_url),
            site_type: self.site_type,
        }
    }
}

impl SiteMetadata {
    /// What is kept of a page that was fetched: its title, empty where it
    /// has none; its description; the address of the first of its images;
    /// and the kind that it says it is of.
    pub fn from_page(
        title: Option<String>,
        description: Option<String>,
        og_type: &str,
        image_urls: Vec<String>,
    ) -> (r: SiteMetadata)
        ensures
            r@ == (SiteMetadataView {
                title: text_or_empty(optional_text(title)),
                description: optional_text(description),
                image_url: if image_urls@.len() > 0 {
                    Some(image_urls@[0]@)
                } else {
                    None
                },
                site_type: site_type_of(og_type@),
            }),
    {
        let title = match title {
            Some(t) => t,
            None => String::new(),
        };
        let image_url = if image_urls.len() > 0 {
            Some(image_urls[0].clone())
        } else {
            None
        };
        SiteMetadata { title, description, image_url, site_type: SiteType::from(og_type) }
    }
}

impl Default for SiteMetadata {
    fn default() -> (r: SiteMetadata)
        ensures
            r@ == (SiteMetadataView {
                title: Seq::empty(),
                description: None,
                image_url: None,
                site_type: SiteType::Website,
            }),
    {
        SiteMetadata {
            title: String::new(),
            description: None,
            image_url: None,
            site_type: SiteType::Website,
        }
    }
}

} // verus!
