//! The magnet record: the fields a magnet URI can carry, their mathematical
//! model, and equality over that model.

use vstd::prelude::*;
use crate::text::str_eq;

verus! {

/// The ways magnet parsing can fail.
#[derive(Debug, Clone, Hash, PartialEq, Eq, Structural)]
pub enum MagnetError {
    /// The provided string is not a valid magnet URL.
    NotAMagnetURL,
}

impl MagnetError {
    /// A human-readable description of the error.
    pub fn to_string(&self) -> (s: String)
        ensures
            s@ == "provided link is not a valid magnet URL"@,
    {
        match self {
            MagnetError::NotAMagnetURL => "provided link is not a valid magnet URL".to_owned(),
        }
    }
}

/// The mathematical model of a magnet record: each singular field as an
/// optional character sequence (or number), and the trackers as an ordered
/// sequence.
#[verifier::ext_equal]
pub ghost struct MagnetView {
    pub display_name: Option<Seq<char>>,
    pub hash_type: Option<Seq<char>>,
    pub hash: Option<Seq<char>>,
    pub length: Option<u64>,
    pub source: Option<Seq<char>>,
    pub trackers: Seq<Seq<char>>,
    pub search_keywords: Option<Seq<char>>,
    pub web_seed: Option<Seq<char>>,
    pub acceptable_source: Option<Seq<char>>,
    pub manifest: Option<Seq<char>>,
}

/// The record with every field absent and no trackers.
pub open spec fn empty_record() -> MagnetView {
    MagnetView {
        display_name: None,
        hash_type: None,
        hash: None,
        length: None,
        source: None,
        trackers: Seq::empty(),
        search_keywords: None,
        web_seed: None,
        acceptable_source: None,
        manifest: None,
    }
}

/// A parsed magnet URL with all its components.
#[derive(Debug, Clone, Hash)]
pub struct Magnet {
    /// Display name of the torrent (`dn`).
    pub display_name: Option<String>,
    /// Type of hash used in the exact topic.
    pub hash_type: Option<String>,
    /// Torrent hash from the exact topic (`xt`).
    pub hash: Option<String>,
    /// The size in bytes of the content (`xl`).
    pub length: Option<u64>,
    /// Download source for the file or the address of a P2P source (`xs`).
    pub source: Option<String>,
    /// Tracker URLs (`tr`), in the order they were added.
    pub trackers: Vec<String>,
    /// Search keywords for P2P networks (`kt`).
    pub search_keywords: Option<String>,
    /// The payload data served over HTTP(S) (`ws`).
    pub web_seed: Option<String>,
    /// Direct download from a web server as a fall-back source (`as`).
    pub acceptable_source: Option<String>,
    /// Link to a metafile holding a list of magnets (`mt`).
    pub manifest: Option<String>,
}

impl View for Magnet {
    type V = MagnetView;

    open spec fn view(&self) -> MagnetView {
        MagnetView {
            display_name: self.display_name.deep_view(),
            hash_type: self.hash_type.deep_view(),
            hash: self.hash.deep_view(),
            length: self.length,
            source: self.source.deep_view(),
            trackers: self.trackers.deep_view(),
            search_keywords: self.search_keywords.deep_view(),
            web_seed: self.web_seed.deep_view(),
            acceptable_source: self.acceptable_source.deep_view(),
            manifest: self.manifest.deep_view(),
        }
    }
}

/// Compares two optional strings by their contents.
fn opt_string_eq(a: &Option<String>, b: &Option<String>) -> (r: bool)
    ensures
        r == (a.deep_view() == b.deep_view()),
{
    match (a, b) {
        (Some(x), Some(y)) => str_eq(x.as_str(), y.as_str()),
        (None, None) => true,
        _ => false,
    }
}

/// Compares two tracker lists element by element, in order.
fn vec_string_eq(a: &Vec<String>, b: &Vec<String>) -> (r: bool)
    ensures
        r == (a.deep_view() == b.deep_view()),
{
    if a.len() != b.len() {
        proof {
            assert(a.deep_view().len() == a@.len());
            assert(b.deep_view().len() == b@.len());
        }
        return false;
    }
    let n = a.len();
    let mut i: usize = 0;
    while i < n
        invariant
            0 <= i <= n,
            n == a.len() == b.len(),
            forall|j: int| 0 <= j < i ==> a.deep_view()[j] == b.deep_view()[j],
        decreases n - i,
    {
        if !str_eq(a[i].as_str(), b[i].as_str()) {
            proof {
                assert(a.deep_view()[i as int] == a@[i as int]@);
                assert(b.deep_view()[i as int] == b@[i as int]@);
            }
            return false;
        }
        i = i + 1;
    }
    proof {
        assert(a.deep_view() =~= b.deep_view());
    }
    true
}

impl PartialEq for Magnet {
    /// Two records are equal exactly when all ten fields are equal, the
    /// trackers compared as an ordered sequence.
    fn eq(&self, other: &Self) -> (r: bool) {
        let dn = opt_string_eq(&self.display_name, &other.display_name);
        let ht = opt_string_eq(&self.hash_type, &other.hash_type);
        let h = opt_string_eq(&self.hash, &other.hash);
        let xl = match (self.length, other.length) {
            (Some(x), Some(y)) => x == y,
            (None, None) => true,
            _ => false,
        };
        let xs = opt_string_eq(&self.source, &other.source);
        let tr = vec_string_eq(&self.trackers, &other.trackers);
        let kt = opt_string_eq(&self.search_keywords, &other.search_keywords);
        let ws = opt_string_eq(&self.web_seed, &other.web_seed);
        let acc = opt_string_eq(&self.acceptable_source, &other.acceptable_source);
        let mt = opt_string_eq(&self.manifest, &other.manifest);
        let r = dn && ht && h && xl && xs && tr && kt && ws && acc && mt;
        proof {
            if r {
                assert(self@ =~= other@);
            }
        }
        r
    }
}

impl vstd::std_specs::cmp::PartialEqSpecImpl for Magnet {
    open spec fn obeys_eq_spec() -> bool {
        true
    }

    open spec fn eq_spec(&self, other: &Self) -> bool {
        self@ == other@
    }
}

impl Magnet {
    /// Get the display name of the torrent.
    pub fn display_name(&self) -> (r: Option<&str>)
        ensures
            r.deep_view() == self@.display_name,
    {
        match &self.display_name {
            Some(s) => Some(s.as_str()),
            None => None,
        }
    }

    /// Get the hash type used in the exact topic.
    pub fn hash_type(&self) -> (r: Option<&str>)
        ensures
            r.deep_view() == self@.hash_type,
    {
        match &self.hash_type {
            Some(s) => Some(s.as_str()),
            None => None,
        }
    }

    /// Get the torrent hash.
    pub fn hash(&self) -> (r: Option<&str>)
        ensures
            r.deep_view() == self@.hash,
    {
        match &self.hash {
            Some(s) => Some(s.as_str()),
            None => None,
        }
    }

    /// Get the size in bytes of the content.
    pub fn length(&self) -> (r: Option<u64>)
        ensures
            r == self@.length,
    {
        self.length
    }

    /// Get the download source for the file.
    pub fn source(&self) -> (r: Option<&str>)
        ensures
            r.deep_view() == self@.source,
    {
        match &self.source {
            Some(s) => Some(s.as_str()),
            None => None,
        }
    }

    /// Get the tracker URLs, in order.
    pub fn trackers(&self) -> (r: &[String])
        ensures
            r.deep_view() == self@.trackers,
    {
        self.trackers.as_slice()
    }

    /// Get the search keywords.
    pub fn search_keywords(&self) -> (r: Option<&str>)
        ensures
            r.deep_view() == self@.search_keywords,
    {
        match &self.search_keywords {
            Some(s) => Some(s.as_str()),
            None => None,
        }
    }

    /// Get the web seed URL.
    pub fn web_seed(&self) -> (r: Option<&str>)
        ensures
            r.deep_view() == self@.web_seed,
    {
        match &self.web_seed {
            Some(s) => Some(s.as_str()),
            None => None,
        }
    }

    /// Get the acceptable source.
    pub fn acceptable_source(&self) -> (r: Option<&str>)
        ensures
            r.deep_view() == self@.acceptable_source,
    {
        match &self.acceptable_source {
            Some(s) => Some(s.as_str()),
            None => None,
        }
    }

    /// Get the manifest link.
    pub fn manifest(&self) -> (r: Option<&str>)
        ensures
            r.deep_view() == self@.manifest,
    {
        match &self.manifest {
            Some(s) => Some(s.as_str()),
            None => None,
        }
    }
}

} // verus!
