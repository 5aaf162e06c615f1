//! Fetching what a user has played or marked as favorite, page by page.

use vstd::prelude::*;
use crate::model::MediaItem;
use crate::model::MediaModel;
use crate::text::push_decimal;

verus! {

/// How many items a page holds at most.
pub const PAGE_LIMIT: usize = 500;

/// What is listed of a user.
#[derive(Clone, Copy, Debug, PartialEq, Eq, Structural)]
pub enum Listing {
    Played,
    Favorites,
}

/// A listing on its way.
#[derive(Debug)]
pub struct Fetch {
    listing: Listing,
    base_url: String,
    user_id: String,
    start: usize,
    items: Vec<MediaItem>,
    complete: bool,
}

/// The mathematical view of a `Fetch`: what is listed of whom, where the next page
/// starts, what has arrived, and whether that is all.
#[verifier::ext_equal]
pub struct FetchModel {
    pub listing: Listing,
    pub base_url: Seq<char>,
    pub user_id: Seq<char>,
    pub start: nat,
    pub items: Seq<MediaModel>,
    pub complete: bool,
}

impl FetchModel {
    /// A listing of which nothing has arrived.
    pub open spec fn at_start(listing: Listing, base_url: Seq<char>, user_id: Seq<char>) -> FetchModel {
        FetchModel { listing, base_url, user_id, start: 0, items: Seq::empty(), complete: false }
    }

    /// Where the next page is.
    pub open spec fn url(self) -> Seq<char> {
        self.base_url + "/Items?userId="@ + self.user_id + (match self.listing {
            Listing::Played =>
                "&IsPlayed=true&Recursive=true&Fields=Path,MediaSources,UserData,Size"@,
            Listing::Favorites => "&IsFavorite=true&Recursive=true"@,
        }) + "&startIndex="@ + crate::text::decimal(self.start) + "&limit="@ + crate::text::decimal(
            PAGE_LIMIT as nat,
        )
    }

    /// The listing once `page` has arrived. A page that is not full is the last.
    pub open spec fn received(self, page: Seq<MediaModel>) -> FetchModel {
        FetchModel {
            items: self.items + page,
            complete: page.len() < PAGE_LIMIT,
            start: if page.len() < PAGE_LIMIT {
                self.start
            } else {
                self.start + PAGE_LIMIT as nat
            },
            ..self
        }
    }

    /// What is tried when a page is fetched.
    pub open spec fn context(self) -> Seq<char> {
        match self.listing {
            Listing::Played => "Failed to fetch played items"@,
            Listing::Favorites => "Failed to fetch favorite items"@,
        }
    }
}

impl Fetch {
    pub closed spec fn model(self) -> FetchModel {
        FetchModel {
            listing: self.listing,
            base_url: self.base_url@,
            user_id: self.user_id@,
            start: self.start as nat,
            items: self.items.deep_view(),
            complete: self.complete,
        }
    }

    pub closed spec fn wf(self) -> bool {
        self.start <= self.items.len()
    }

    /// Begins a listing.
    pub fn new(listing: Listing, base_url: &str, user_id: &str) -> (fetch: Fetch)
        ensures
            fetch.wf(),
            fetch.model() == FetchModel::at_start(listing, base_url@, user_id@),
    {
        let fetch = Fetch {
            listing,
            base_url: base_url.to_owned(),
            user_id: user_id.to_owned(),
            start: 0,
            items: Vec::new(),
            complete: false,
        };
        assert(fetch.items.deep_view() =~= Seq::empty());
        fetch
    }

    /// Where the next page is.
    pub fn url(&self) -> (url: String)
        ensures
            url@ == self.model().url(),
    {
        let mut url = self.base_url.clone();
        url.append("/Items?userId=");
        url.append(self.user_id.as_str());
        match self.listing {
            Listing::Played => {
                url.append("&IsPlayed=true&Recursive=true&Fields=Path,MediaSources,UserData,Size");
            },
            Listing::Favorites => {
                url.append("&IsFavorite=true&Recursive=true");
            },
        }
        url.append("&startIndex=");
        push_decimal(&mut url, self.start as u128);
        url.append("&limit=");
        push_decimal(&mut url, PAGE_LIMIT as u128);
        url
    }

    /// What is tried when a page is fetched.
    pub fn context(&self) -> (context: String)
        ensures
            context@ == self.model().context(),
    {
        match self.listing {
            Listing::Played => "Failed to fetch played items".to_owned(),
            Listing::Favorites => "Failed to fetch favorite items".to_owned(),
        }
    }

    /// Takes in a page.
    pub fn receive(&mut self, page: Vec<MediaItem>)
        requires
            old(self).wf(),
        ensures
            final(self).wf(),
            final(self).model() == old(self).model().received(page.deep_view()),
    {
        let ghost before = self.items.deep_view();
        let ghost added = page.deep_view();
        let count: usize = page.len();
        let mut page = page;
        self.items.append(&mut page);
        assert(self.items.deep_view() =~= before + added);
        if count < PAGE_LIMIT {
            self.complete = true;
        } else {
            self.complete = false;
            assert(self.items.len() == before.len() + added.len());
            self.start = self.start + PAGE_LIMIT;
        }
    }

    /// Whether everything has arrived.
    pub fn is_complete(&self) -> (answer: bool)
        ensures
            answer == self.model().complete,
    {
        self.complete
    }

    /// What has arrived.
    pub fn into_items(self) -> (items: Vec<MediaItem>)
        ensures
            items.deep_view() == self.model().items,
    {
        self.items
    }
}

} // verus!
