//! Incremental construction of a magnet record.
//!
//! Every operation sets exactly one field or appends trackers and returns
//! the builder for chaining; none can fail, and no text is validated.

use vstd::prelude::*;
use crate::model::{empty_record, Magnet, MagnetView};

verus! {

/// Builder for creating magnet records field by field.
pub struct MagnetBuilder {
    magnet: Magnet,
}

impl View for MagnetBuilder {
    type V = MagnetView;

    closed spec fn view(&self) -> MagnetView {
        self.magnet@
    }
}

impl MagnetBuilder {
    /// A builder holding the all-default record.
    pub fn new() -> (r: Self)
        ensures
            r@ == empty_record(),
    {
        let b = MagnetBuilder {
            magnet: Magnet {
                display_name: None,
                hash_type: None,
                hash: None,
                length: None,
                source: None,
                trackers: Vec::new(),
                search_keywords: None,
                web_seed: None,
                acceptable_source: None,
                manifest: None,
            },
        };
        proof {
            assert(b@ =~= empty_record());
        }
        b
    }

    /// Set the display name of the torrent.
    pub fn display_name(self, name: &str) -> (r: Self)
        ensures
            r@ == (MagnetView { display_name: Some(name@), ..self@ }),
    {
        let mut b = self;
        b.magnet.display_name = Some(name.to_owned());
        proof {
            assert(b@ =~= (MagnetView { display_name: Some(name@), ..self@ }));
        }
        b
    }

    /// Set the hash type used in the exact topic.
    pub fn hash_type(self, hash_type: &str) -> (r: Self)
        ensures
            r@ == (MagnetView { hash_type: Some(hash_type@), ..self@ }),
    {
        let mut b = self;
        b.magnet.hash_type = Some(hash_type.to_owned());
        proof {
            assert(b@ =~= (MagnetView { hash_type: Some(hash_type@), ..self@ }));
        }
        b
    }

    /// Set the torrent hash.
    pub fn hash(self, hash: &str) -> (r: Self)
        ensures
            r@ == (MagnetView { hash: Some(hash@), ..self@ }),
    {
        let mut b = self;
        b.magnet.hash = Some(hash.to_owned());
        proof {
            assert(b@ =~= (MagnetView { hash: Some(hash@), ..self@ }));
        }
        b
    }

    /// Set the size in bytes of the content.
    pub fn length(self, length: u64) -> (r: Self)
        ensures
            r@ == (MagnetView { length: Some(length), ..self@ }),
    {
        let mut b = self;
        b.magnet.length = Some(length);
        proof {
            assert(b@ =~= (MagnetView { length: Some(length), ..self@ }));
        }
        b
    }

    /// Set the download source for the file.
    pub fn source(self, source: &str) -> (r: Self)
        ensures
            r@ == (MagnetView { source: Some(source@), ..self@ }),
    {
        let mut b = self;
        b.magnet.source = Some(source.to_owned());
        proof {
            assert(b@ =~= (MagnetView { source: Some(source@), ..self@ }));
        }
        b
    }

    /// Append one tracker URL.
    pub fn add_tracker(self, tracker: &str) -> (r: Self)
        ensures
            r@ == (MagnetView { trackers: self@.trackers.push(tracker@), ..self@ }),
    {
        let mut b = self;
        b.magnet.trackers.push(tracker.to_owned());
        proof {
            assert(b.magnet.trackers.deep_view() =~= self@.trackers.push(tracker@));
            assert(b@ =~= (MagnetView { trackers: self@.trackers.push(tracker@), ..self@ }));
        }
        b
    }

    /// Append several tracker URLs, keeping their order.
    pub fn add_trackers(self, trackers: &[&str]) -> (r: Self)
        ensures
            r@ == (MagnetView { trackers: self@.trackers + trackers.deep_view(), ..self@ }),
    {
        let ghost orig = self@;
        let mut b = self;
        let n = trackers.len();
        let mut i: usize = 0;
        while i < n
            invariant
                0 <= i <= n,
                n == trackers@.len(),
                b@ == (MagnetView { trackers: orig.trackers + trackers.deep_view().take(i as int), ..orig }),
            decreases n - i,
        {
            let t = trackers[i];
            b.magnet.trackers.push(t.to_owned());
            proof {
                assert(trackers.deep_view()[i as int] == trackers@[i as int]@);
                assert(trackers.deep_view().take(i + 1) =~= trackers.deep_view().take(
                    i as int,
                ).push(trackers.deep_view()[i as int]));
                assert(orig.trackers + trackers.deep_view().take(i + 1) =~= (orig.trackers
                    + trackers.deep_view().take(i as int)).push(trackers@[i as int]@));
                assert(b.magnet.trackers.deep_view() =~= orig.trackers + trackers.deep_view().take(
                    i + 1,
                ));
                assert(b@ =~= (MagnetView {
                    trackers: orig.trackers + trackers.deep_view().take(i + 1),
                    ..orig
                }));
            }
            i = i + 1;
        }
        proof {
            assert(trackers.deep_view().take(n as int) =~= trackers.deep_view());
        }
        b
    }

    /// Set the search keywords.
    pub fn search_keywords(self, keywords: &str) -> (r: Self)
        ensures
            r@ == (MagnetView { search_keywords: Some(keywords@), ..self@ }),
    {
        let mut b = self;
        b.magnet.search_keywords = Some(keywords.to_owned());
        proof {
            assert(b@ =~= (MagnetView { search_keywords: Some(keywords@), ..self@ }));
        }
        b
    }

    /// Set the web seed URL.
    pub fn web_seed(self, web_seed: &str) -> (r: Self)
        ensures
            r@ == (MagnetView { web_seed: Some(web_seed@), ..self@ }),
    {
        let mut b = self;
        b.magnet.web_seed = Some(web_seed.to_owned());
        proof {
            assert(b@ =~= (MagnetView { web_seed: Some(web_seed@), ..self@ }));
        }
        b
    }

    /// Set the acceptable source.
    pub fn acceptable_source(self, source: &str) -> (r: Self)
        ensures
            r@ == (MagnetView { acceptable_source: Some(source@), ..self@ }),
    {
        let mut b = self;
        b.magnet.acceptable_source = Some(source.to_owned());
        proof {
            assert(b@ =~= (MagnetView { acceptable_source: Some(source@), ..self@ }));
        }
        b
    }

    /// Set the manifest link.
    pub fn manifest(self, manifest: &str) -> (r: Self)
        ensures
            r@ == (MagnetView { manifest: Some(manifest@), ..self@ }),
    {
        let mut b = self;
        b.magnet.manifest = Some(manifest.to_owned());
        proof {
            assert(b@ =~= (MagnetView { manifest: Some(manifest@), ..self@ }));
        }
        b
    }

    /// Finish building and hand out the record.
    pub fn build(self) -> (r: Magnet)
        ensures
            r@ == self@,
    {
        self.magnet
    }
}

impl Default for MagnetBuilder {
    /// The same all-default builder `new` yields.
    fn default() -> (r: Self)
        ensures
            r@ == empty_record(),
    {
        Self::new()
    }
}

} // verus!
