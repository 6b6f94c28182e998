//! The handler's state and the resolution of a request path against its root.

use crate::text::{append_chars, chars_of, split, split_on, string_of, views};
use vstd::prelude::*;
use vstd::string::StrSliceExecFns;
use vstd::string::StringSliceAdditionalSpecFns;

verus! {

/// The body served with a 404 until another one is configured.
pub const DEFAULT_4XX_BODY: &'static str = "Oops! I can't find what you're looking for...";

/// The body served with a 500 until another one is configured.
pub const DEFAULT_5XX_BODY: &'static str = "I'm broken, apparently.";

/// What percent-decoding makes of a text: every `%` followed by two
/// hexadecimal digits becomes the byte they denote, and the bytes are then
/// read as UTF-8, ill-formed sequences giving U+FFFD.
pub uninterp spec fn percent_decoded(s: Seq<char>) -> Seq<char>;

/// `percent_encoding::percent_decode` on the bytes of `s`, followed by
/// `PercentDecode::decode_utf8_lossy`. The result depends on `s` alone and is
/// what `percent_decoded` names; nothing more is claimed of it.
#[verifier::external_body]
fn percent_decode(s: &str) -> (r: String)
    ensures
        r@ == percent_decoded(s@),
{
    percent_encoding::percent_decode(s.as_bytes()).decode_utf8_lossy().into_owned()
}

/// The text `.`.
pub open spec fn dot() -> Seq<char> {
    seq!['.']
}

/// The text `..`.
pub open spec fn dot_dot() -> Seq<char> {
    seq!['.', '.']
}

/// A segment that names an entry of a directory: not empty, neither `.` nor
/// `..`, and without a separator.
pub open spec fn is_plain_segment(s: Seq<char>) -> bool {
    s.len() > 0 && s != dot() && s != dot_dot() && !s.contains('/')
}

/// The segments accumulated so far, after one more part of the path: an
/// empty part and `.` change nothing, `..` drops the last segment if there is
/// one, anything else is appended.
pub open spec fn apply_part(acc: Seq<Seq<char>>, part: Seq<char>) -> Seq<Seq<char>> {
    if part.len() == 0 || part == dot() {
        acc
    } else if part == dot_dot() {
        if acc.len() > 0 {
            acc.drop_last()
        } else {
            acc
        }
    } else {
        acc.push(part)
    }
}

/// `apply_part` over all of `parts`, from the first to the last.
pub open spec fn apply_parts(acc: Seq<Seq<char>>, parts: Seq<Seq<char>>) -> Seq<Seq<char>>
    decreases parts.len(),
{
    if parts.len() == 0 {
        acc
    } else {
        apply_part(apply_parts(acc, parts.drop_last()), parts.last())
    }
}

/// The segments after a decoded request segment: a decoded segment may itself
/// hold separators, so its parts are applied one by one.
pub open spec fn apply_decoded(acc: Seq<Seq<char>>, decoded: Seq<char>) -> Seq<Seq<char>> {
    apply_parts(acc, split_on(decoded, '/'))
}

/// The segments after each of the raw request segments has been decoded and
/// applied, from the first to the last.
pub open spec fn apply_raw(acc: Seq<Seq<char>>, raw: Seq<Seq<char>>) -> Seq<Seq<char>>
    decreases raw.len(),
{
    if raw.len() == 0 {
        acc
    } else {
        apply_decoded(apply_raw(acc, raw.drop_last()), percent_decoded(raw.last()))
    }
}

/// The sanitized relative path of a request path, as its segments.
pub open spec fn normalized(path: Seq<char>) -> Seq<Seq<char>> {
    apply_raw(Seq::empty(), split_on(path, '/'))
}

/// `base` with one more segment: a separator is put in between unless `base`
/// is empty or already ends in one.
pub open spec fn join_one(base: Seq<char>, segment: Seq<char>) -> Seq<char> {
    if base.len() == 0 || base.last() == '/' {
        base + segment
    } else {
        base.push('/') + segment
    }
}

/// `base` with all of `segments` joined on, from the first to the last.
pub open spec fn joined(base: Seq<char>, segments: Seq<Seq<char>>) -> Seq<char>
    decreases segments.len(),
{
    if segments.len() == 0 {
        base
    } else {
        join_one(joined(base, segments.drop_last()), segments.last())
    }
}

/// The file-system path that a request path stands for under `root`.
pub open spec fn resolved(path: Seq<char>, root: Seq<char>) -> Seq<char> {
    joined(root, normalized(path))
}

/// Whether every one of `segments` is plain.
pub open spec fn all_plain(segments: Seq<Seq<char>>) -> bool {
    forall|i: int| 0 <= i < segments.len() ==> is_plain_segment(#[trigger] segments[i])
}

/// Applying parts that hold no separator to plain segments leaves plain
/// segments.
pub proof fn apply_parts_keeps_plain(acc: Seq<Seq<char>>, parts: Seq<Seq<char>>)
    requires
        all_plain(acc),
        forall|k: int| 0 <= k < parts.len() ==> !(#[trigger] parts[k]).contains('/'),
    ensures
        all_plain(apply_parts(acc, parts)),
    decreases parts.len(),
{
    if parts.len() > 0 {
        apply_parts_keeps_plain(acc, parts.drop_last());
        assert(!parts[parts.len() - 1].contains('/'));
    }
}

/// Applying raw request segments to plain segments leaves plain segments,
/// whatever they decode to.
pub proof fn apply_raw_keeps_plain(acc: Seq<Seq<char>>, raw: Seq<Seq<char>>)
    requires
        all_plain(acc),
    ensures
        all_plain(apply_raw(acc, raw)),
    decreases raw.len(),
{
    if raw.len() > 0 {
        apply_raw_keeps_plain(acc, raw.drop_last());
        let decoded = percent_decoded(raw.last());
        let parts = split_on(decoded, '/');
        crate::text::split_on_pieces(decoded, '/');
        assert forall|k: int| 0 <= k < parts.len() implies !(#[trigger] parts[k]).contains(
            '/',
        ) by {
            if parts[k].contains('/') {
                let i = choose|i: int| 0 <= i < parts[k].len() && parts[k][i] == '/';
                assert(parts[k][i] != '/');
            }
        }
        apply_parts_keeps_plain(apply_raw(acc, raw.drop_last()), parts);
    }
}

/// Joining segments onto a base leaves the base in front.
pub proof fn joined_starts_with_base(base: Seq<char>, segments: Seq<Seq<char>>)
    ensures
        base.is_prefix_of(joined(base, segments)),
    decreases segments.len(),
{
    if segments.len() > 0 {
        joined_starts_with_base(base, segments.drop_last());
    }
}

/// Path safety: whatever the request path holds, the resolved path is the
/// root followed by plain segments only. No segment is `..`, none is empty and
/// none holds a separator, so the path names the root or something inside it,
/// never anything above it.
pub proof fn resolved_stays_under_root(path: Seq<char>, root: Seq<char>)
    ensures
        all_plain(normalized(path)),
        resolved(path, root) == joined(root, normalized(path)),
        root.is_prefix_of(resolved(path, root)),
{
    apply_raw_keeps_plain(Seq::empty(), split_on(path, '/'));
    joined_starts_with_base(root, normalized(path));
}

/// Simple static file handler: the root that is served and the bodies that go
/// out with a 404 and a 500.
pub struct StaticFile {
    pub body_4xx: Vec<u8>,
    pub body_5xx: Vec<u8>,
    pub root: String,
}

impl Clone for StaticFile {
    fn clone(&self) -> (r: Self)
        ensures
            r.root@ == self.root@,
            r.body_4xx@ == self.body_4xx@,
            r.body_5xx@ == self.body_5xx@,
    {
        StaticFile {
            body_4xx: self.body_4xx.clone(),
            body_5xx: self.body_5xx.clone(),
            root: self.root.clone(),
        }
    }
}

impl StaticFile {
    /// Creates a new instance of this handler, with the default bodies.
    pub fn new(root: &str) -> (state: Self)
        ensures
            state.root@ == root@,
            state.body_4xx@ == DEFAULT_4XX_BODY.spec_bytes(),
            state.body_5xx@ == DEFAULT_5XX_BODY.spec_bytes(),
    {
        StaticFile {
            root: String::from_str(root),
            body_4xx: DEFAULT_4XX_BODY.as_bytes_vec(),
            body_5xx: DEFAULT_5XX_BODY.as_bytes_vec(),
        }
    }

    /// Percent-decodes and normalizes the segments of `path` and returns the
    /// result joined onto the root.
    pub fn get_path(&self, path: &str) -> (r: String)
        ensures
            r@ == resolved(path@, self.root@),
    {
        let chars = chars_of(path);
        let raw = split(&chars, '/');
        let mut acc: Vec<Vec<char>> = Vec::new();
        let mut i: usize = 0;
        assert(views(raw@).take(0) == Seq::<Seq<char>>::empty());
        assert(views(acc@) == Seq::<Seq<char>>::empty());
        while i < raw.len()
            invariant
                i <= raw.len(),
                views(acc@) == apply_raw(Seq::empty(), views(raw@).take(i as int)),
            decreases raw.len() - i,
        {
            let segment = string_of(&raw[i]);
            let decoded = percent_decode(segment.as_str());
            proof {
                let all = views(raw@);
                assert(all.take(i + 1).drop_last() == all.take(i as int));
                assert(all.take(i + 1).last() == raw@[i as int]@);
            }
            push_decoded(&mut acc, decoded.as_str());
            i += 1;
        }
        assert(views(raw@).take(raw.len() as int) == views(raw@));
        let root = chars_of(self.root.as_str());
        let out = join(root, &acc);
        string_of(&out)
    }
}

/// Applies one part of a path to the segments accumulated so far.
pub fn push_part(acc: &mut Vec<Vec<char>>, part: Vec<char>)
    ensures
        views(final(acc)@) == apply_part(views(old(acc)@), part@),
{
    let ghost before = views(acc@);
    if part.len() == 0 || (part.len() == 1 && part[0] == '.') {
        assert(part.len() == 1 && part[0] == '.' ==> part@ == dot());
    } else if part.len() == 2 && part[0] == '.' && part[1] == '.' {
        assert(part@ == dot_dot());
        if acc.len() > 0 {
            acc.pop();
            assert(views(acc@) == before.drop_last());
        }
    } else {
        assert(part@ != dot()) by {
            if part@ == dot() {
                assert(part@.len() == 1 && part@[0] == '.');
            }
        }
        assert(part@ != dot_dot()) by {
            if part@ == dot_dot() {
                assert(part@.len() == 2 && part@[0] == '.' && part@[1] == '.');
            }
        }
        acc.push(part);
        assert(views(acc@) == before.push(part@));
    }
}

/// Applies a decoded request segment to the segments accumulated so far.
pub fn push_decoded(acc: &mut Vec<Vec<char>>, decoded: &str)
    ensures
        views(final(acc)@) == apply_decoded(views(old(acc)@), decoded@),
{
    let chars = chars_of(decoded);
    let parts = split(&chars, '/');
    let ghost all = views(parts@);
    let n = parts.len();
    let mut i: usize = 0;
    assert(all.take(0) == Seq::<Seq<char>>::empty());
    while i < n
        invariant
            i <= n,
            n == parts.len(),
            all == views(parts@),
            views(acc@) == apply_parts(views(old(acc)@), all.take(i as int)),
        decreases n - i,
    {
        let part = parts[i].clone();
        assert(part@ == parts@[i as int]@);
        proof {
            assert(all.take(i + 1).drop_last() == all.take(i as int));
            assert(all.take(i + 1).last() == part@);
        }
        push_part(acc, part);
        i += 1;
    }
    assert(all.take(n as int) == all);
}

/// `base` with all of `segments` joined on.
pub fn join(base: Vec<char>, segments: &Vec<Vec<char>>) -> (r: Vec<char>)
    ensures
        r@ == joined(base@, views(segments@)),
{
    let mut out = base;
    let mut i: usize = 0;
    let ghost all = views(segments@);
    assert(all.take(0) == Seq::<Seq<char>>::empty());
    while i < segments.len()
        invariant
            i <= segments.len(),
            all == views(segments@),
            out@ == joined(base@, all.take(i as int)),
        decreases segments.len() - i,
    {
        proof {
            assert(all.take(i + 1).drop_last() == all.take(i as int));
            assert(all.take(i + 1).last() == segments@[i as int]@);
        }
        if out.len() > 0 && out[out.len() - 1] != '/' {
            out.push('/');
        }
        append_chars(&mut out, &segments[i]);
        i += 1;
    }
    assert(all.take(segments.len() as int) == all);
    out
}

} // verus!
