//! Server configuration.

use vstd::prelude::*;
use crate::text::{
    chars_of, decimal, ends_with, find_chars, find_from, lemma_trim_end, lemma_trim_end_concat,
    push_decimal, push_str,
    slice_chars, string_of_chars, trim_end, trim_end_chars,
};

verus! {

/// Configuration for the Calibre OPDS server.
///
/// The library path is held as text (a Unix path).
#[derive(Debug, Clone)]
pub struct Config {
    /// Path to the Calibre library directory.
    pub library_path: String,
    /// Server host address.
    pub host: String,
    /// Server port.
    pub port: u16,
    /// Base URL for the server (used in OPDS links).
    pub base_url: Option<String>,
}

/// Host used when none is configured.
pub fn default_host() -> (r: String)
    ensures
        r@ == "127.0.0.1"@,
{
    String::from_str("127.0.0.1")
}

/// Port used when none is configured.
pub fn default_port() -> (r: u16)
    ensures
        r == 8080,
{
    8080
}

/// `base` joined with the relative or absolute path `comp`, as
/// `Path::join` does on Unix: an absolute `comp` replaces `base`; otherwise a
/// `/` is put between them unless `base` is empty or already ends in one.
pub open spec fn joined_path(base: Seq<char>, comp: Seq<char>) -> Seq<char> {
    if comp.len() > 0 && comp[0] == '/' {
        comp
    } else if base.len() == 0 || base.last() == '/' {
        base + comp
    } else {
        base + "/"@ + comp
    }
}

/// Joins two path texts as `Path::join` does on Unix.
pub fn join_path(base: &str, comp: &str) -> (r: String)
    ensures
        r@ == joined_path(base@, comp@),
{
    let c = chars_of(comp);
    if c.len() > 0 && c[0] == '/' {
        return String::from_str(comp);
    }
    let b = chars_of(base);
    let mut out = String::from_str(base);
    if !(b.len() == 0 || b[b.len() - 1] == '/') {
        push_str(&mut out, "/");
    }
    push_str(&mut out, comp);
    out
}

/// `http://HOST:PORT`.
pub open spec fn host_url(host: Seq<char>, port: u16) -> Seq<char> {
    "http://"@ + host + ":"@ + decimal(port as nat)
}

/// The path part of a base URL: what follows the host after `://`, up to
/// the end, without trailing slashes; empty when there is none.
pub open spec fn url_path_prefix(base_url: Option<String>) -> Seq<char> {
    match base_url {
        None => Seq::empty(),
        Some(url) => match find_from(url@, "://"@, 0) {
            None => Seq::empty(),
            Some(pos) => {
                let after = url@.subrange(pos + 3, url@.len() as int);
                match find_from(after, "/"@, 0) {
                    None => Seq::empty(),
                    Some(slash) => trim_end(after.subrange(slash, after.len() as int), '/'),
                }
            },
        },
    }
}

/// The base URL of a configuration: the configured one, or
/// `http://HOST:PORT` when there is none.
pub open spec fn base_url_of(cfg: Config) -> Seq<char> {
    match cfg.base_url {
        Some(u) => u@,
        None => host_url(cfg.host@, cfg.port),
    }
}

impl Config {
    /// Path of the database: `metadata.db` inside the library directory.
    pub fn db_path(&self) -> (r: String)
        ensures
            r@ == joined_path(self.library_path@, "metadata.db"@),
    {
        join_path(self.library_path.as_str(), "metadata.db")
    }

    /// The configured base URL, or `http://HOST:PORT` when there is none.
    pub fn base_url(&self) -> (r: String)
        ensures
            r@ == base_url_of(*self),
    {
        match &self.base_url {
            Some(u) => u.clone(),
            None => {
                let mut out = String::from_str("http://");
                push_str(&mut out, self.host.as_str());
                push_str(&mut out, ":");
                push_decimal(&mut out, self.port as u64);
                assert(out@ =~= host_url(self.host@, self.port));
                out
            },
        }
    }

    /// The URL prefix path (e.g. `/cops` from `https://host:9080/cops`).
    pub fn url_prefix(&self) -> (r: String)
        ensures
            r@ == url_path_prefix(self.base_url),
    {
        match &self.base_url {
            None => String::new(),
            Some(url) => {
                let u = chars_of(url.as_str());
                let ulen = u.len();
                let sep = chars_of("://");
                match find_chars(&u, &sep, 0) {
                    None => String::new(),
                    Some(pos) => {
                        proof {
                            crate::text::lemma_find_from(u@, sep@, 0);
                            reveal_strlit("://");
                            assert(sep@.len() == 3);
                            assert(crate::text::occurs_at(u@, sep@, pos as int));
                            assert(pos + 3 <= u@.len());
                        }
                        let after = slice_chars(&u, pos + 3, ulen);
                        let slash = chars_of("/");
                        match find_chars(&after, &slash, 0) {
                            None => String::new(),
                            Some(p) => {
                                proof {
                                    crate::text::lemma_find_from(after@, slash@, 0);
                                }
                                let tail = slice_chars(&after, p, after.len());
                                let trimmed = trim_end_chars(&tail, '/');
                                string_of_chars(&trimmed)
                            },
                        }
                    },
                }
            },
        }
    }
}

/// The URL prefix is empty or a path that starts with `/` and does not end
/// with `/`.
pub proof fn lemma_url_prefix_shape(base_url: Option<String>)
    ensures
        url_path_prefix(base_url).len() == 0 || (url_path_prefix(base_url)[0] == '/'
            && url_path_prefix(base_url).last() != '/'),
{
    match base_url {
        None => {},
        Some(url) => match find_from(url@, "://"@, 0) {
            None => {},
            Some(pos) => {
                crate::text::lemma_find_from(url@, "://"@, 0);
                let after = url@.subrange(pos + 3, url@.len() as int);
                match find_from(after, "/"@, 0) {
                    None => {},
                    Some(slash) => {
                        crate::text::lemma_find_from(after, "/"@, 0);
                        let tail = after.subrange(slash, after.len() as int);
                        lemma_trim_end(tail, '/');
                        reveal_strlit("/");
                        assert(after.subrange(slash, slash + 1) == "/"@);
                        assert(tail[0] == after[slash]);
                        let t = trim_end(tail, '/');
                        if t.len() > 0 {
                            assert(t[0] == tail[0]);
                        }
                    },
                }
            },
        },
    }
}

/// The URL prefix is the path at the end of the base URL: the base URL,
/// without its trailing slashes, ends with the prefix, and without a
/// configured base URL the prefix is empty.
pub proof fn lemma_base_url_ends_with_prefix(cfg: Config)
    ensures
        ends_with(trim_end(base_url_of(cfg), '/'), url_path_prefix(cfg.base_url)),
        cfg.base_url is None ==> url_path_prefix(cfg.base_url) == Seq::<char>::empty(),
{
    let prefix = url_path_prefix(cfg.base_url);
    let t = trim_end(base_url_of(cfg), '/');
    lemma_trim_end(base_url_of(cfg), '/');
    if prefix.len() == 0 {
        assert(t.subrange(t.len() as int, t.len() as int) =~= prefix);
    } else {
        reveal_strlit("://");
        reveal_strlit("/");
        let url = cfg.base_url.unwrap();
        let pos = find_from(url@, "://"@, 0).unwrap();
        crate::text::lemma_find_from(url@, "://"@, 0);
        let after = url@.subrange(pos + 3, url@.len() as int);
        let slash = find_from(after, "/"@, 0).unwrap();
        crate::text::lemma_find_from(after, "/"@, 0);
        let k = pos + 3 + slash;
        let tail = after.subrange(slash, after.len() as int);
        assert(tail =~= url@.subrange(k, url@.len() as int));
        assert(url@ =~= url@.subrange(0, k) + tail);
        lemma_trim_end_concat(url@.subrange(0, k), tail, '/');
        assert(t == url@.subrange(0, k) + prefix);
        assert(t.subrange(t.len() - prefix.len(), t.len() as int) =~= prefix);
    }
}

} // verus!
