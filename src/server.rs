//! The routing table of a tile server: which source serves which URL prefix.

use vstd::prelude::*;
use vstd::string::{StrSliceExecFns, StringExecFns};

verus! {

/// A source that a tile server can serve from.
pub trait ServerSource {
    /// A name for the source, e.g. its file name.
    fn get_name(&self) -> String;
}

/// `p` as a URL prefix: with a leading and a trailing slash.
pub open spec fn normalized_prefix(p: Seq<char>) -> Seq<char> {
    let a = if p.len() > 0 && p[0] == '/' {
        p
    } else {
        seq!['/'] + p
    };
    if a.last() == '/' {
        a
    } else {
        a.push('/')
    }
}

/// `a` is a prefix of `b`.
pub open spec fn is_prefix(a: Seq<char>, b: Seq<char>) -> bool {
    a.len() <= b.len() && b.subrange(0, a.len() as int) == a
}

/// Two URL prefixes overlap: one of them starts with the other.
pub open spec fn prefixes_overlap(a: Seq<char>, b: Seq<char>) -> bool {
    is_prefix(a, b) || is_prefix(b, a)
}

fn starts_with(b: &str, a: &str) -> (r: bool)
    ensures
        r == is_prefix(a@, b@),
{
    let la = a.unicode_len();
    let lb = b.unicode_len();
    if la > lb {
        return false;
    }
    let mut i: usize = 0;
    while i < la
        invariant
            la == a@.len(),
            lb == b@.len(),
            la <= lb,
            0 <= i <= la,
            b@.subrange(0, i as int) == a@.subrange(0, i as int),
        decreases la - i,
    {
        if a.get_char(i) != b.get_char(i) {
            proof {
                assert(b@.subrange(0, la as int)[i as int] != a@[i as int]);
            }
            return false;
        }
        proof {
            assert(b@.subrange(0, i + 1) =~= b@.subrange(0, i as int).push(b@[i as int]));
            assert(a@.subrange(0, i + 1) =~= a@.subrange(0, i as int).push(a@[i as int]));
        }
        i += 1;
    }
    proof {
        assert(a@.subrange(0, la as int) =~= a@);
    }
    true
}

/// `url_prefix` with a leading and a trailing slash.
pub fn normalize_prefix(url_prefix: String) -> (r: String)
    ensures
        r@ == normalized_prefix(url_prefix@),
{
    let n = url_prefix.as_str().unicode_len();
    let mut prefix = if n > 0 && url_prefix.as_str().get_char(0) == '/' {
        url_prefix
    } else {
        String::from_str("/").concat(url_prefix.as_str())
    };
    proof {
        reveal_strlit("/");
    }
    let m = prefix.as_str().unicode_len();
    if prefix.as_str().get_char(m - 1) != '/' {
        prefix.append("/");
    }
    prefix
}

/// The routing table of a tile server.
pub struct TileServer<S> {
    ip: String,
    port: u16,
    sources: Vec<(String, S)>,
    static_source: Option<S>,
}

impl<S: ServerSource> TileServer<S> {
    /// The URL prefixes of the sources, in the order they were added.
    pub closed spec fn prefixes(&self) -> Seq<Seq<char>> {
        self.sources@.map_values(|e: (String, S)| e.0@)
    }

    /// The address that the server listens on.
    pub closed spec fn address(&self) -> (Seq<char>, u16) {
        (self.ip@, self.port)
    }

    /// Whether a source serves the requests that no prefix matches.
    pub closed spec fn has_static(&self) -> bool {
        self.static_source is Some
    }

    /// A server that listens on `ip` and `port` and serves no source yet.
    pub fn new(ip: &str, port: u16) -> (r: TileServer<S>)
        ensures
            r.address() == (ip@, port),
            r.prefixes() == Seq::<Seq<char>>::empty(),
            !r.has_static(),
    {
        let r = TileServer { ip: String::from_str(ip), port, sources: Vec::new(), static_source: None };
        proof {
            assert(r.prefixes() =~= Seq::<Seq<char>>::empty());
        }
        r
    }

    /// Whether a source under `url_prefix` would overlap a source already added.
    pub fn conflicts(&self, url_prefix: &String) -> (r: bool)
        ensures
            r == exists|i: int|
                0 <= i < self.prefixes().len() && prefixes_overlap(
                    normalized_prefix(url_prefix@),
                    #[trigger] self.prefixes()[i],
                ),
    {
        let prefix = normalize_prefix(url_prefix.clone());
        let mut i: usize = 0;
        while i < self.sources.len()
            invariant
                0 <= i <= self.sources@.len(),
                prefix@ == normalized_prefix(url_prefix@),
                forall|j: int|
                    0 <= j < i ==> !prefixes_overlap(prefix@, #[trigger] self.prefixes()[j]),
            decreases self.sources@.len() - i,
        {
            let other = &self.sources[i].0;
            assert(self.prefixes()[i as int] == other@);
            if starts_with(other.as_str(), prefix.as_str()) || starts_with(prefix.as_str(), other.as_str()) {
                return true;
            }
            i += 1;
        }
        false
    }

    /// Serves `source` under `url_prefix`, given a leading and a trailing slash where it
    /// lacks them. No two prefixes may overlap.
    pub fn add_source(&mut self, url_prefix: String, source: S)
        requires
            forall|i: int|
                0 <= i < old(self).prefixes().len() ==> !prefixes_overlap(
                    normalized_prefix(url_prefix@),
                    #[trigger] old(self).prefixes()[i],
                ),
        ensures
            final(self).prefixes() == old(self).prefixes().push(normalized_prefix(url_prefix@)),
            final(self).has_static() == old(self).has_static(),
            final(self).address() == old(self).address(),
    {
        let prefix = normalize_prefix(url_prefix);
        self.sources.push((prefix, source));
        proof {
            assert(self.prefixes() =~= old(self).prefixes().push(prefix@));
        }
    }

    /// Serves `source` for the requests that no prefix matches.
    pub fn set_static(&mut self, source: S)
        ensures
            final(self).prefixes() == old(self).prefixes(),
            final(self).has_static(),
            final(self).address() == old(self).address(),
    {
        self.static_source = Some(source);
    }

    /// Each URL prefix with the name of its source, in the order they were added.
    pub fn iter_url_mapping(&self) -> (r: Vec<(String, String)>)
        ensures
            r@.len() == self.prefixes().len(),
            forall|i: int|
                0 <= i < r@.len() ==> (#[trigger] r@[i]).0@ == self.prefixes()[i],
    {
        let mut r: Vec<(String, String)> = Vec::new();
        let mut i: usize = 0;
        while i < self.sources.len()
            invariant
                0 <= i <= self.sources@.len(),
                r@.len() == i,
                forall|j: int|
                    0 <= j < i ==> (#[trigger] r@[j]).0@ == self.prefixes()[j],
            decreases self.sources@.len() - i,
        {
            let e = &self.sources[i];
            r.push((e.0.clone(), e.1.get_name()));
            i += 1;
        }
        r
    }
}

} // verus!
