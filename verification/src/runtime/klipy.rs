//! When the search for animated images begins anew, and which of its previews is shown.

use crate::geometry::Rect;
use crate::text::{decimal, decimal_string, str_eq};
use vstd::prelude::*;
use vstd::string::*;

verus! {

/// How long typing must rest before a search is made.
pub const SEARCH_DELAY_MILLIS: u64 = 350;

/// The preview of a result: the search it belongs to, its address, and the size it is made for.
#[derive(Debug, PartialEq, Eq)]
pub struct PreviewKey {
    pub generation: u64,
    pub url: String,
    pub width: u16,
    pub height: u16,
}

pub struct PreviewKeyView {
    pub generation: u64,
    pub url: Seq<char>,
    pub width: u16,
    pub height: u16,
}

impl View for PreviewKey {
    type V = PreviewKeyView;

    open spec fn view(&self) -> PreviewKeyView {
        PreviewKeyView { generation: self.generation, url: self.url@, width: self.width, height: self.height }
    }
}

pub open spec fn key_view(k: Option<PreviewKey>) -> Option<PreviewKeyView> {
    match k {
        Some(k) => Some(k@),
        None => None,
    }
}

fn same_key(a: &PreviewKey, b: &PreviewKey) -> (r: bool)
    ensures
        r == (a@ == b@),
{
    a.generation == b.generation && a.width == b.width && a.height == b.height && str_eq(a.url.as_str(), b.url.as_str())
}

fn same_optional_key(a: &Option<PreviewKey>, b: &Option<PreviewKey>) -> (r: bool)
    ensures
        r == (key_view(*a) == key_view(*b)),
{
    match (a, b) {
        (Some(a), Some(b)) => same_key(a, b),
        (None, None) => true,
        _ => false,
    }
}

fn clone_key(k: &PreviewKey) -> (r: PreviewKey)
    ensures
        r@ == k@,
{
    PreviewKey { generation: k.generation, url: k.url.clone(), width: k.width, height: k.height }
}

/// The open picker: its search, and the address of the selected result where it has a preview.
pub struct GifPickerView {
    pub generation: u64,
    pub query: String,
    pub page: u32,
    pub selected_preview_url: Option<String>,
}

/// A search that is to be made.
#[derive(Debug, PartialEq, Eq)]
pub struct KlipySearch {
    pub generation: u64,
    pub query: String,
    pub page: u32,
}

/// What is to be done about the running work.
#[derive(Debug, PartialEq, Eq)]
pub struct KlipyActions {
    pub cancel_search: bool,
    pub start_search: Option<KlipySearch>,
    pub cancel_preview: bool,
    pub start_preview: Option<PreviewKey>,
}

/// The running search and the preview, which holds a `P` once it is loaded.
pub struct KlipyRuntime<P> {
    pub search_generation: Option<u64>,
    pub preview_key: Option<PreviewKey>,
    pub preview: Option<Result<P, String>>,
}

/// The preview that the picker wants.
pub open spec fn wanted_key(view: GifPickerView, show_images: bool, area: Rect) -> Option<PreviewKeyView> {
    match view.selected_preview_url {
        Some(url) => if show_images && !area.empty() {
            Some(PreviewKeyView { generation: view.generation, url: url@, width: area.width, height: area.height })
        } else {
            None
        },
        None => None,
    }
}

impl<P> KlipyRuntime<P> {
    pub fn new() -> (r: KlipyRuntime<P>)
        ensures
            r.search_generation is None,
            r.preview_key is None,
            r.preview is None,
    {
        KlipyRuntime { search_generation: None, preview_key: None, preview: None }
    }

    /// Brings the work in line with the picker: a new search for each generation, a new preview where
    /// another one is wanted, and nothing where the picker is closed.
    pub fn sync(&mut self, view: Option<GifPickerView>, show_images: bool, preview_area: Rect) -> (actions: KlipyActions)
        ensures
            view is None ==> {
                &&& final(self).search_generation is None
                &&& final(self).preview_key is None
                &&& final(self).preview is None
                &&& actions.cancel_search && actions.cancel_preview
                &&& actions.start_search is None && actions.start_preview is None
            },
            view matches Some(v) ==> {
                let new_search = old(self).search_generation != Some(v.generation);
                let wanted = wanted_key(v, show_images, preview_area);
                let new_preview = key_view(old(self).preview_key) != wanted;
                &&& final(self).search_generation == Some(v.generation)
                &&& key_view(final(self).preview_key) == wanted
                &&& final(self).preview == (if new_preview { None } else { old(self).preview })
                &&& actions.cancel_search == new_search
                &&& actions.start_search == (if new_search {
                    Some(KlipySearch { generation: v.generation, query: v.query, page: v.page })
                } else {
                    None
                })
                &&& actions.cancel_preview == new_preview
                &&& key_view(actions.start_preview) == (if new_preview { wanted } else { None })
            },
    {
        let view = match view {
            Some(view) => view,
            None => {
                self.search_generation = None;
                self.preview_key = None;
                self.preview = None;
                return KlipyActions {
                    cancel_search: true,
                    start_search: None,
                    cancel_preview: true,
                    start_preview: None,
                };
            },
        };
        let generation = view.generation;
        let same_search = match self.search_generation {
            Some(running) => running == generation,
            None => false,
        };
        let wanted = match view.selected_preview_url {
            Some(url) => {
                if show_images && !preview_area.is_empty() {
                    Some(PreviewKey { generation, url, width: preview_area.width, height: preview_area.height })
                } else {
                    None
                }
            },
            None => None,
        };
        let mut start_search: Option<KlipySearch> = None;
        if !same_search {
            self.search_generation = Some(generation);
            start_search = Some(KlipySearch { generation, query: view.query, page: view.page });
        }
        let same_preview = same_optional_key(&self.preview_key, &wanted);
        let mut start_preview: Option<PreviewKey> = None;
        if !same_preview {
            self.preview = None;
            if let Some(key) = &wanted {
                start_preview = Some(clone_key(key));
            }
            self.preview_key = wanted;
        }
        KlipyActions { cancel_search: !same_search, start_search, cancel_preview: !same_preview, start_preview }
    }

    /// Takes a loaded preview, if it is the one that is wanted.
    pub fn store_preview(&mut self, key: &PreviewKey, result: Result<P, String>) -> (stored: bool)
        ensures
            stored == (key_view(old(self).preview_key) == Some(key@)),
            final(self).search_generation == old(self).search_generation,
            final(self).preview_key == old(self).preview_key,
            final(self).preview == (if stored { Some(result) } else { old(self).preview }),
    {
        let wanted = match &self.preview_key {
            Some(current) => same_key(current, key),
            None => false,
        };
        if wanted {
            self.preview = Some(result);
        }
        wanted
    }

    /// The name of the preview that is drawn, by which it is found to have moved.
    pub fn placement(&self) -> (r: Option<String>)
        ensures
            r is Some == (self.preview_key is Some && self.preview matches Some(Ok(_))),
            r matches Some(name) ==> name@ == decimal(self.preview_key->0.generation as nat) + ":"@
                + self.preview_key->0.url@,
    {
        match (&self.preview_key, &self.preview) {
            (Some(key), Some(Ok(_))) => {
                let mut name = decimal_string(key.generation);
                name.append(":");
                name.append(key.url.as_str());
                Some(name)
            },
            _ => None,
        }
    }
}

} // verus!
