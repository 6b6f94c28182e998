//! What the serving side decides without touching the network: where things
//! are, and which requests are hits on a private link.

use crate::staticfile::join_one;
use crate::text::{chars_of, split, split_on, string_of, views};
use crate::token::Token;
use crate::watcher::push_segment;
use vstd::prelude::*;

verus! {

/// The prefix of the paths under which private resources are served.
pub const PRIVATE_PATH_PREFIX: &'static str = "/private";

/// The address that is listened on unless another one is given.
pub const DEFAULT_ADDRESS: &'static str = "localhost:8000";

/// The root of the public source unless another one is given.
pub const DEFAULT_SOURCE: &'static str = "./source";

/// The root of the private source unless another one is given.
pub const DEFAULT_PRIVATE_SOURCE: &'static str = "./private";

/// The path of the link store unless another one is given.
pub const DEFAULT_CONFIG: &'static str = "config.json";

/// Where everything is: made once at startup and handed to each part.
pub struct Settings {
    /// The address to listen on.
    pub address: String,
    /// The root of the public source.
    pub serve_path_root: String,
    /// The root of the mirrored tree: the public root with the private
    /// prefix.
    pub private_serve_path: String,
    /// The root of the private source.
    pub private_path_root: String,
    /// The path of the link store.
    pub config_file: String,
}

/// The text of an option, or of the default where it is not given.
pub open spec fn given_or(option: Option<String>, default: &str) -> Seq<char> {
    match option {
        Some(text) => text@,
        None => default@,
    }
}

/// The option, or the default where it is not given.
fn or_default(option: Option<String>, default: &str) -> (r: String)
    ensures
        r@ == given_or(option, default),
{
    match option {
        Some(text) => text,
        None => String::from_str(default),
    }
}

impl Settings {
    /// The settings for the options that were given; each one that was not
    /// has its default.
    pub fn from_options(
        address: Option<String>,
        source: Option<String>,
        private_source: Option<String>,
        config: Option<String>,
    ) -> (r: Settings)
        ensures
            r.address@ == given_or(address, DEFAULT_ADDRESS),
            r.serve_path_root@ == given_or(source, DEFAULT_SOURCE),
            r.private_serve_path@ == given_or(source, DEFAULT_SOURCE) + PRIVATE_PATH_PREFIX@,
            r.private_path_root@ == given_or(private_source, DEFAULT_PRIVATE_SOURCE),
            r.config_file@ == given_or(config, DEFAULT_CONFIG),
    {
        let serve_path_root = or_default(source, DEFAULT_SOURCE);
        let mut mirrored = chars_of(serve_path_root.as_str());
        crate::text::append_str(&mut mirrored, PRIVATE_PATH_PREFIX);
        Settings {
            address: or_default(address, DEFAULT_ADDRESS),
            private_serve_path: string_of(&mirrored),
            serve_path_root,
            private_path_root: or_default(private_source, DEFAULT_PRIVATE_SOURCE),
            config_file: or_default(config, DEFAULT_CONFIG),
        }
    }

    /// The path of the custom body for a 404, under the public root.
    pub fn path_4xx(&self) -> (r: String)
        ensures
            r@ == join_one(self.serve_path_root@, "4xx.html"@),
    {
        push_segment(self.serve_path_root.as_str(), "4xx.html")
    }

    /// The path of the custom body for a 500, under the public root.
    pub fn path_5xx(&self) -> (r: String)
        ensures
            r@ == join_one(self.serve_path_root@, "5xx.html"@),
    {
        push_segment(self.serve_path_root.as_str(), "5xx.html")
    }
}

/// The two pieces of a request path that may stand for a hit: for a path
/// that begins with the private prefix and has at least four pieces between
/// slashes, the third and the fourth.
pub open spec fn access_pieces(path: Seq<char>) -> Option<(Seq<char>, Seq<char>)> {
    let pieces = split_on(path, '/');
    if PRIVATE_PATH_PREFIX@.is_prefix_of(path) && pieces.len() >= 4 {
        Some((pieces[2], pieces[3]))
    } else {
        None
    }
}

/// The hit that a request path stands for: the first of its two pieces must
/// denote a token, and the second is the name of the resource.
pub open spec fn access_of(path: Seq<char>) -> Option<(Token, Seq<char>)> {
    match access_pieces(path) {
        Some((candidate, name)) => match Token::parsed(candidate) {
            Some(token) => Some((token, name)),
            None => None,
        },
        None => None,
    }
}

/// Whether `v` begins with the characters of `prefix`.
pub fn starts_with(v: &Vec<char>, prefix: &Vec<char>) -> (r: bool)
    ensures
        r == prefix@.is_prefix_of(v@),
{
    if prefix.len() > v.len() {
        return false;
    }
    let mut i: usize = 0;
    while i < prefix.len()
        invariant
            i <= prefix.len() <= v.len(),
            forall|j: int| 0 <= j < i ==> v@[j] == prefix@[j],
        decreases prefix.len() - i,
    {
        if v[i] != prefix[i] {
            assert(v@.subrange(0, prefix@.len() as int)[i as int] != prefix@[i as int]);
            return false;
        }
        i += 1;
    }
    assert(v@.subrange(0, prefix@.len() as int) =~= prefix@);
    true
}

/// The two pieces of a request path that may stand for a hit, if it has
/// them.
pub fn private_pieces(path: &str) -> (r: Option<(String, String)>)
    ensures
        match r {
            Some((candidate, name)) => access_pieces(path@) == Some((candidate@, name@)),
            None => access_pieces(path@) is None,
        },
{
    let chars = chars_of(path);
    let prefix = chars_of(PRIVATE_PATH_PREFIX);
    if !starts_with(&chars, &prefix) {
        return None;
    }
    let pieces = split(&chars, '/');
    if pieces.len() < 4 {
        return None;
    }
    proof {
        assert(views(pieces@)[2] == pieces@[2]@);
        assert(views(pieces@)[3] == pieces@[3]@);
    }
    Some((string_of(&pieces[2]), string_of(&pieces[3])))
}

/// The hit that a request path stands for, if it stands for one.
pub fn private_access(path: &str) -> (r: Option<(Token, String)>)
    ensures
        match r {
            Some((token, name)) => access_of(path@) == Some((token, name@)),
            None => access_of(path@) is None,
        },
{
    match private_pieces(path) {
        Some((candidate, name)) => match Token::parse(candidate.as_str()) {
            Some(token) => Some((token, name)),
            None => None,
        },
        None => None,
    }
}

} // verus!
