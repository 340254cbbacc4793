//! Typed shapes of the metadata resources that a pull can return.
//!
//! Timestamps are carried as milliseconds since the Unix epoch.

use vstd::prelude::*;

verus! {

/// Aspect of a catalog entry's poster image.
#[derive(PartialEq, Eq, Structural, Clone, Copy, Debug)]
pub enum PosterShape {
    Poster,
    Square,
    Landscape,
    Unspecified,
}

impl Default for PosterShape {
    fn default() -> (r: Self)
        ensures
            r == PosterShape::Unspecified,
    {
        PosterShape::Unspecified
    }
}

impl PosterShape {
    pub fn is_unspecified(&self) -> (r: bool)
        ensures
            r == (*self == PosterShape::Unspecified),
    {
        *self == PosterShape::Unspecified
    }

    pub fn to_str(&self) -> (r: &'static str)
        ensures
            *self == PosterShape::Square ==> r@ == "square"@,
            *self == PosterShape::Landscape ==> r@ == "landscape"@,
            *self == PosterShape::Poster || *self == PosterShape::Unspecified ==> r@ == "poster"@,
    {
        match self {
            PosterShape::Poster => "poster",
            PosterShape::Square => "square",
            PosterShape::Landscape => "landscape",
            PosterShape::Unspecified => "poster",
        }
    }
}

/// Season and episode numbers of an episodic video.
#[derive(Clone, Debug)]
pub struct SeriesInfo {
    pub season: u32,
    pub episode: u32,
}

/// One video belonging to a detailed metadata item.
#[derive(Clone, Debug)]
pub struct Video {
    pub id: String,
    pub title: String,
    /// Release instant, in milliseconds since the Unix epoch.
    pub released: i64,
    pub overview: Option<String>,
    pub thumbnail: Option<String>,
    pub series_info: Option<SeriesInfo>,
}

/// Compact metadata entry, as listed in a catalog.
#[derive(Clone, Debug)]
pub struct MetaPreview {
    pub id: String,
    pub item_type: String,
    pub name: String,
    pub poster: Option<String>,
    pub logo: Option<String>,
    pub description: Option<String>,
    pub release_info: Option<String>,
    pub runtime: Option<String>,
    /// Release instant, in milliseconds since the Unix epoch.
    pub released: Option<i64>,
    pub genres: Vec<String>,
    pub directors: Vec<String>,
    pub poster_shape: PosterShape,
}

/// Full metadata record of one item.
#[derive(Clone, Debug)]
pub struct MetaDetail {
    pub id: String,
    pub item_type: String,
    pub name: String,
    pub poster: Option<String>,
    pub background: Option<String>,
    pub logo: Option<String>,
    pub description: Option<String>,
    pub release_info: Option<String>,
    pub runtime: Option<String>,
    /// Release instant, in milliseconds since the Unix epoch.
    pub released: Option<i64>,
    pub genres: Vec<String>,
    pub directors: Vec<String>,
    pub writers: Vec<String>,
    pub cast: Vec<String>,
    pub imdb_rating: Option<String>,
    pub imdb_id: Option<String>,
    pub poster_shape: PosterShape,
    pub videos: Vec<Video>,
    pub featured_vid: Option<String>,
    pub external_urls: Vec<(String, String)>,
}

} // verus!
