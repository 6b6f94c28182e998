//! The watcher of the private source: it keeps the link store, plans the
//! replicas in the mirrored tree, and reflects each change of the source.

use crate::consistency::{check_consistency, reconciled, Verdict};
use crate::link::PrivateLink;
use crate::mirror::{listing, texts, MirrorEntry};
use crate::rotation::{Instant, MAX_LIFETIME};
use crate::staticfile::{
    all_plain, apply_decoded, apply_parts_keeps_plain, dot, dot_dot, is_plain_segment, join,
    join_one, joined, push_decoded,
};
use crate::store::LinkStore;
use crate::text::{chars_of, same_chars, split, split_on, split_on_pieces, string_of, views};
use crate::token::Token;
use vstd::prelude::*;

verus! {

/// One thing to be done to the mirrored tree.
pub enum MirrorTask {
    /// Delete `dir` with all it holds if it is there, and create it empty.
    Reset { dir: String },
    /// Create the directory `dir`, and those above it, unless it is there.
    EnsureDir { dir: String },
    /// Copy `from` with all it holds to `to`.
    CopyTree { from: String, to: String },
    /// Copy the contents of the file `from` over `to`.
    CopyFile { from: String, to: String },
    /// Delete `path`, with all it holds, if it is there.
    Remove { path: String },
}

/// A task, as a value of the model.
pub enum MirrorTaskView {
    Reset { dir: Seq<char> },
    EnsureDir { dir: Seq<char> },
    CopyTree { from: Seq<char>, to: Seq<char> },
    CopyFile { from: Seq<char>, to: Seq<char> },
    Remove { path: Seq<char> },
}

impl View for MirrorTask {
    type V = MirrorTaskView;

    open spec fn view(&self) -> MirrorTaskView {
        match self {
            MirrorTask::Reset { dir } => MirrorTaskView::Reset { dir: dir@ },
            MirrorTask::EnsureDir { dir } => MirrorTaskView::EnsureDir { dir: dir@ },
            MirrorTask::CopyTree { from, to } => MirrorTaskView::CopyTree {
                from: from@,
                to: to@,
            },
            MirrorTask::CopyFile { from, to } => MirrorTaskView::CopyFile {
                from: from@,
                to: to@,
            },
            MirrorTask::Remove { path } => MirrorTaskView::Remove { path: path@ },
        }
    }
}

/// The tasks of a plan, as values of the model.
pub open spec fn plan_view(tasks: Seq<MirrorTask>) -> Seq<MirrorTaskView> {
    tasks.map_values(|t: MirrorTask| t@)
}

/// What is found at a path of the source that has changed.
#[derive(Clone, Copy, Debug, PartialEq, Eq, Structural)]
pub enum PathState {
    /// Nothing is there any more.
    Missing,
    /// A directory.
    Directory,
    /// Anything else: a file.
    File,
}

/// A change of the source, as the notification reports it.
pub enum WatchEvent {
    Create(String),
    Remove(String),
    Write(String),
    Rename(String, String),
    /// Any other notice; it asks for nothing.
    Other,
}

/// The paths that an event asks to reflect, in order: the one path of a
/// creation, a removal or a write, and both paths of a renaming, the old one
/// first.
pub open spec fn paths_of(event: WatchEvent) -> Seq<Seq<char>> {
    match event {
        WatchEvent::Create(p) => seq![p@],
        WatchEvent::Remove(p) => seq![p@],
        WatchEvent::Write(p) => seq![p@],
        WatchEvent::Rename(old_path, new_path) => seq![old_path@, new_path@],
        WatchEvent::Other => Seq::empty(),
    }
}

impl WatchEvent {
    /// The paths that this event asks to reflect, in order.
    pub fn paths(&self) -> (r: Vec<String>)
        ensures
            texts(r@) == paths_of(*self),
    {
        let mut r: Vec<String> = Vec::new();
        match self {
            WatchEvent::Create(p) => {
                r.push(p.clone());
            },
            WatchEvent::Remove(p) => {
                r.push(p.clone());
            },
            WatchEvent::Write(p) => {
                r.push(p.clone());
            },
            WatchEvent::Rename(old_path, new_path) => {
                r.push(old_path.clone());
                r.push(new_path.clone());
            },
            WatchEvent::Other => {},
        }
        assert(texts(r@) =~= paths_of(*self));
        r
    }
}

/// The first segment of a path that names something: not empty, not `.` and
/// not `..`.
pub open spec fn first_named(pieces: Seq<Seq<char>>) -> Option<Seq<char>>
    decreases pieces.len(),
{
    if pieces.len() == 0 {
        None
    } else if pieces[0].len() > 0 && pieces[0] != dot() && pieces[0] != dot_dot() {
        Some(pieces[0])
    } else {
        first_named(pieces.skip(1))
    }
}

/// The head of a relative path: its first segment that names something.
pub open spec fn head_of(relative_path: Seq<char>) -> Option<Seq<char>> {
    first_named(split_on(relative_path, '/'))
}

/// The segments of a path, with empty ones and `.` left out and `..`
/// resolved against what stands before it.
pub open spec fn components(path: Seq<char>) -> Seq<Seq<char>> {
    apply_decoded(Seq::empty(), path)
}

/// Whether a path starts at the root of the file system.
pub open spec fn is_absolute(path: Seq<char>) -> bool {
    path.len() > 0 && path[0] == '/'
}

/// The segments that lead from `root` to `path`, where `path` lies strictly
/// below `root`: both are absolute or both are not, and the components of
/// `root` open those of `path`.
pub open spec fn relative_to(path: Seq<char>, root: Seq<char>) -> Option<Seq<Seq<char>>> {
    let p = components(path);
    let r = components(root);
    if is_absolute(path) == is_absolute(root) && r.len() < p.len() && p.take(r.len() as int)
        == r {
        Some(p.skip(r.len() as int))
    } else {
        None
    }
}

/// The store with a link for `name`: the one it has or, where it has none, a
/// link first seen at `now` under the token `fresh`.
pub open spec fn obtained(
    store: Map<Seq<char>, PrivateLink>,
    name: Seq<char>,
    fresh: Token,
    now: Instant,
) -> Map<Seq<char>, PrivateLink> {
    if store.contains_key(name) {
        store
    } else {
        store.insert(name, PrivateLink::first_seen(fresh, now))
    }
}

/// The directory of the mirror that stands for a link.
pub open spec fn token_dir(reflect: Seq<char>, link: PrivateLink) -> Seq<char> {
    join_one(reflect, link.id.text())
}

/// What is to be done to the mirror for a path below the source root that
/// has changed, given the segments `rel` that lead to it and the link of the
/// resource it belongs to. A directory is made sure of. A file has the
/// directory above it made sure of and is copied over. For a path that is
/// gone, its mirrored place is deleted.
pub open spec fn reflection(
    reflect: Seq<char>,
    link: PrivateLink,
    path: Seq<char>,
    rel: Seq<Seq<char>>,
    state: PathState,
) -> Seq<MirrorTaskView> {
    let target = joined(token_dir(reflect, link), rel);
    match state {
        PathState::Directory => seq![MirrorTaskView::EnsureDir { dir: target }],
        PathState::File => seq![
            MirrorTaskView::EnsureDir { dir: joined(token_dir(reflect, link), rel.drop_last()) },
            MirrorTaskView::CopyFile { from: path, to: target },
        ],
        PathState::Missing => seq![MirrorTaskView::Remove { path: target }],
    }
}

/// The segments that lead from a root to a path below it are plain: none is
/// empty, `.` or `..`, and none holds a separator; and there is at least one.
pub proof fn relative_is_plain(path: Seq<char>, root: Seq<char>)
    ensures
        relative_to(path, root) matches Some(rel) ==> rel.len() > 0 && all_plain(rel),
{
    if let Some(rel) = relative_to(path, root) {
        let parts = split_on(path, '/');
        split_on_pieces(path, '/');
        assert forall|k: int| 0 <= k < parts.len() implies !(#[trigger] parts[k]).contains(
            '/',
        ) by {
            if parts[k].contains('/') {
                let i = choose|i: int| 0 <= i < parts[k].len() && parts[k][i] == '/';
                assert(parts[k][i] != '/');
            }
        }
        apply_parts_keeps_plain(Seq::empty(), parts);
        let p = components(path);
        assert forall|j: int| 0 <= j < rel.len() implies is_plain_segment(#[trigger] rel[j]) by {
            assert(rel[j] == p[j + components(root).len()]);
        }
    }
}

/// Every task of a reflection works below the root of the mirror: its
/// target is the root of the mirror followed by the text of a token and by
/// segments of the path.
pub proof fn reflection_stays_in_mirror(
    reflect: Seq<char>,
    link: PrivateLink,
    path: Seq<char>,
    rel: Seq<Seq<char>>,
    state: PathState,
)
    ensures
        forall|k: int|
            0 <= k < reflection(reflect, link, path, rel, state).len() ==> match (
            #[trigger] reflection(reflect, link, path, rel, state)[k]) {
                MirrorTaskView::EnsureDir { dir } => reflect.is_prefix_of(dir),
                MirrorTaskView::CopyFile { from, to } => from == path && reflect.is_prefix_of(to),
                MirrorTaskView::Remove { path: target } => reflect.is_prefix_of(target),
                _ => false,
            },
{
    let base = token_dir(reflect, link);
    assert(reflect.is_prefix_of(base)) by {
        if reflect.len() > 0 {
            assert(base.subrange(0, reflect.len() as int) =~= reflect);
        }
    }
    crate::staticfile::joined_starts_with_base(base, rel);
    crate::staticfile::joined_starts_with_base(base, rel.drop_last());
    let whole = joined(base, rel);
    let above = joined(base, rel.drop_last());
    assert(reflect.is_prefix_of(whole)) by {
        assert(whole.subrange(0, reflect.len() as int) =~= base.subrange(
            0,
            reflect.len() as int,
        ));
    }
    assert(reflect.is_prefix_of(above)) by {
        assert(above.subrange(0, reflect.len() as int) =~= base.subrange(
            0,
            reflect.len() as int,
        ));
    }
}

/// Whether `store` and `tasks` are what reflecting a change at `path` leaves
/// and asks for, from the store `before`, for a clock that reads `now` and a
/// draw that gives `fresh`. A path that does not lie below the root asks for
/// nothing and changes nothing.
pub open spec fn reflected(
    before: Map<Seq<char>, PrivateLink>,
    root: Seq<char>,
    reflect: Seq<char>,
    path: Seq<char>,
    state: PathState,
    now: Instant,
    fresh: Token,
    store: Map<Seq<char>, PrivateLink>,
    tasks: Seq<MirrorTaskView>,
) -> bool {
    match relative_to(path, root) {
        Some(rel) => {
            &&& store == obtained(before, rel[0], fresh, now)
            &&& tasks == reflection(reflect, store[rel[0]], path, rel, state)
        },
        None => store == before && tasks.len() == 0,
    }
}

/// The store after the children of the source have each got a link, from
/// the first to the last, where `tokens[k]` is the token drawn for child `k`.
pub open spec fn obtained_all(
    store: Map<Seq<char>, PrivateLink>,
    children: Seq<Seq<char>>,
    tokens: Seq<Token>,
    now: Instant,
) -> Map<Seq<char>, PrivateLink>
    decreases children.len(),
{
    if children.len() == 0 {
        store
    } else {
        obtained(
            obtained_all(store, children.drop_last(), tokens, now),
            children.last(),
            tokens[children.len() - 1],
            now,
        )
    }
}

/// The two tasks that replicate one child of the source: its token
/// directory is made sure of, and the child is copied into it.
pub open spec fn replica(
    root: Seq<char>,
    reflect: Seq<char>,
    link: PrivateLink,
    child: Seq<char>,
) -> Seq<MirrorTaskView> {
    seq![
        MirrorTaskView::EnsureDir { dir: token_dir(reflect, link) },
        MirrorTaskView::CopyTree {
            from: join_one(root, child),
            to: join_one(token_dir(reflect, link), child),
        },
    ]
}

/// The replicas of all the children, from the first to the last.
pub open spec fn replicas(
    root: Seq<char>,
    reflect: Seq<char>,
    store: Map<Seq<char>, PrivateLink>,
    children: Seq<Seq<char>>,
) -> Seq<MirrorTaskView>
    decreases children.len(),
{
    if children.len() == 0 {
        Seq::empty()
    } else {
        replicas(root, reflect, store, children.drop_last()) + replica(
            root,
            reflect,
            store[children.last()],
            children.last(),
        )
    }
}

/// The plan of the first full mirror: the mirrored tree is reset, and every
/// child of the source is replicated under the token of its link.
pub open spec fn full_mirror(
    root: Seq<char>,
    reflect: Seq<char>,
    store: Map<Seq<char>, PrivateLink>,
    children: Seq<Seq<char>>,
) -> Seq<MirrorTaskView> {
    seq![MirrorTaskView::Reset { dir: reflect }] + replicas(root, reflect, store, children)
}

/// Giving links to children reads no token beyond theirs.
pub proof fn obtained_all_reads_own_tokens(
    store: Map<Seq<char>, PrivateLink>,
    children: Seq<Seq<char>>,
    tokens: Seq<Token>,
    more: Seq<Token>,
    now: Instant,
)
    requires
        children.len() <= tokens.len(),
    ensures
        obtained_all(store, children, tokens + more, now) == obtained_all(
            store,
            children,
            tokens,
            now,
        ),
    decreases children.len(),
{
    if children.len() > 0 {
        obtained_all_reads_own_tokens(store, children.drop_last(), tokens, more, now);
    }
}

/// Giving links to children leaves every link that the store had as it was,
/// and leaves every child with a link.
pub proof fn obtained_all_keeps_links(
    store: Map<Seq<char>, PrivateLink>,
    children: Seq<Seq<char>>,
    tokens: Seq<Token>,
    now: Instant,
)
    ensures
        forall|name: Seq<char>|
            store.contains_key(name) ==> #[trigger] obtained_all(
                store,
                children,
                tokens,
                now,
            ).contains_key(name) && obtained_all(store, children, tokens, now)[name]
                == store[name],
        forall|k: int|
            0 <= k < children.len() ==> obtained_all(store, children, tokens, now).contains_key(
                #[trigger] children[k],
            ),
    decreases children.len(),
{
    if children.len() > 0 {
        obtained_all_keeps_links(store, children.drop_last(), tokens, now);
        let before = obtained_all(store, children.drop_last(), tokens, now);
        assert forall|k: int| 0 <= k < children.len() implies obtained_all(
            store,
            children,
            tokens,
            now,
        ).contains_key(#[trigger] children[k]) by {
            if k < children.len() - 1 {
                assert(children.drop_last()[k] == children[k]);
            }
        }
    }
}

/// The replicas of children depend only on the links of those children.
pub proof fn replicas_read_own_links(
    root: Seq<char>,
    reflect: Seq<char>,
    one: Map<Seq<char>, PrivateLink>,
    other: Map<Seq<char>, PrivateLink>,
    children: Seq<Seq<char>>,
)
    requires
        forall|k: int| 0 <= k < children.len() ==> one[#[trigger] children[k]] == other[children[k]],
    ensures
        replicas(root, reflect, one, children) == replicas(root, reflect, other, children),
    decreases children.len(),
{
    if children.len() > 0 {
        assert forall|k: int| 0 <= k < children.drop_last().len() implies one[
            #[trigger] children.drop_last()[k]] == other[children.drop_last()[k]] by {
            assert(children.drop_last()[k] == children[k]);
        }
        replicas_read_own_links(root, reflect, one, other, children.drop_last());
        assert(one[children[children.len() - 1]] == other[children[children.len() - 1]]);
    }
}

/// `base` with one more segment.
pub fn push_segment(base: &str, segment: &str) -> (r: String)
    ensures
        r@ == join_one(base@, segment@),
{
    let mut out = chars_of(base);
    if out.len() > 0 && out[out.len() - 1] != '/' {
        out.push('/');
    }
    crate::text::append_str(&mut out, segment);
    string_of(&out)
}

/// The segments of `path`, normalized.
pub fn components_of(path: &str) -> (r: Vec<Vec<char>>)
    ensures
        views(r@) == components(path@),
        all_plain(views(r@)),
{
    let mut acc: Vec<Vec<char>> = Vec::new();
    assert(views(acc@) == Seq::<Seq<char>>::empty());
    push_decoded(&mut acc, path);
    proof {
        split_on_pieces(path@, '/');
        let parts = split_on(path@, '/');
        assert forall|k: int| 0 <= k < parts.len() implies !(#[trigger] parts[k]).contains(
            '/',
        ) by {
            if parts[k].contains('/') {
                let i = choose|i: int| 0 <= i < parts[k].len() && parts[k][i] == '/';
                assert(parts[k][i] != '/');
            }
        }
        apply_parts_keeps_plain(Seq::empty(), parts);
    }
    acc
}

/// The segments that lead from `root` to `path`, where `path` lies strictly
/// below `root`.
pub fn relative(path: &str, root: &str) -> (r: Option<Vec<Vec<char>>>)
    ensures
        match r {
            Some(rel) => relative_to(path@, root@) == Some(views(rel@)) && rel.len() > 0
                && all_plain(views(rel@)),
            None => relative_to(path@, root@) is None,
        },
{
    let p_chars = chars_of(path);
    let r_chars = chars_of(root);
    let p_abs = p_chars.len() > 0 && p_chars[0] == '/';
    let r_abs = r_chars.len() > 0 && r_chars[0] == '/';
    if p_abs != r_abs {
        return None;
    }
    let p = components_of(path);
    let r = components_of(root);
    if r.len() >= p.len() {
        return None;
    }
    let mut i: usize = 0;
    while i < r.len()
        invariant
            i <= r.len() < p.len(),
            views(p@) == components(path@),
            views(r@) == components(root@),
            views(p@).take(i as int) == views(r@).take(i as int),
        decreases r.len() - i,
    {
        if !same_chars(&p[i], &r[i]) {
            proof {
                assert(views(p@).take(r.len() as int)[i as int] == p@[i as int]@);
                assert(views(r@)[i as int] == r@[i as int]@);
                assert(views(p@).take(r.len() as int) != views(r@));
            }
            return None;
        }
        proof {
            assert(views(p@).take(i + 1) =~= views(p@).take(i as int).push(p@[i as int]@));
            assert(views(r@).take(i + 1) =~= views(r@).take(i as int).push(r@[i as int]@));
        }
        i += 1;
    }
    assert(views(r@).take(r.len() as int) =~= views(r@));
    let mut rel: Vec<Vec<char>> = Vec::new();
    let mut k: usize = r.len();
    while k < p.len()
        invariant
            r.len() <= k <= p.len(),
            views(rel@) == views(p@).subrange(r.len() as int, k as int),
        decreases p.len() - k,
    {
        let piece = p[k].clone();
        assert(piece@ == p@[k as int]@);
        let ghost had = views(rel@);
        rel.push(piece);
        proof {
            assert(views(rel@) =~= had.push(piece@));
            assert(views(rel@) =~= views(p@).subrange(r.len() as int, k + 1));
        }
        k += 1;
    }
    proof {
        assert(views(rel@) =~= views(p@).skip(r.len() as int));
        assert forall|j: int| 0 <= j < views(rel@).len() implies is_plain_segment(
            #[trigger] views(rel@)[j],
        ) by {
            assert(views(rel@)[j] == views(p@)[j + r.len()]);
        }
    }
    Some(rel)
}

/// The store that the watcher takes over from what was read: the store
/// itself, or an empty one where none could be read.
pub open spec fn store_read(loaded: Option<LinkStore>) -> Map<Seq<char>, PrivateLink> {
    match loaded {
        Some(store) => store@,
        None => Map::empty(),
    }
}

/// Wrapper around the link store to watch a directory of private resources
/// and to keep their replicas in the serving directory.
pub struct PrivateWatcher {
    pub root_path: String,
    pub reflect_path: String,
    pub config_path: String,
    pub config: LinkStore,
}

impl PrivateWatcher {
    /// Whether `other` has the paths of this watcher.
    pub open spec fn same_paths(&self, other: &PrivateWatcher) -> bool {
        &&& self.root_path@ == other.root_path@
        &&& self.reflect_path@ == other.reflect_path@
        &&& self.config_path@ == other.config_path@
    }

    /// Initialize this watcher with the path of the store, the root of the
    /// private source and the root of the mirrored tree.
    pub fn new(config_path: &str, root_path: &str, reflect_path: &str) -> (r: Self)
        ensures
            r.root_path@ == root_path@,
            r.reflect_path@ == reflect_path@,
            r.config_path@ == config_path@,
            r.config.wf(),
            r.config@ == Map::<Seq<char>, PrivateLink>::empty(),
    {
        PrivateWatcher {
            root_path: String::from_str(root_path),
            reflect_path: String::from_str(reflect_path),
            config_path: String::from_str(config_path),
            config: LinkStore::new(),
        }
    }

    /// Takes over the store that was read from the configured path; where
    /// none could be read, or what was read did not parse, the store is
    /// empty.
    pub fn load_config(&mut self, loaded: Option<LinkStore>)
        requires
            loaded matches Some(store) ==> store.wf(),
        ensures
            final(self).same_paths(old(self)),
            final(self).config.wf(),
            final(self).config@ == store_read(loaded),
    {
        self.config = match loaded {
            Some(store) => store,
            None => LinkStore::new(),
        };
    }

    /// Find the head component (file or dir) of the given relative path, if
    /// it has one.
    pub fn find_head(relative_path: &str) -> (r: Option<String>)
        ensures
            match r {
                Some(head) => head_of(relative_path@) == Some(head@),
                None => head_of(relative_path@) is None,
            },
    {
        let chars = chars_of(relative_path);
        let pieces = split(&chars, '/');
        let ghost all = views(pieces@);
        let mut i: usize = 0;
        assert(all.skip(0) =~= all);
        while i < pieces.len()
            invariant
                i <= pieces.len(),
                all == views(pieces@),
                all == split_on(relative_path@, '/'),
                first_named(all) == first_named(all.skip(i as int)),
            decreases pieces.len() - i,
        {
            let piece = &pieces[i];
            proof {
                assert(all.skip(i as int)[0] == piece@);
                assert(all.skip(i as int).skip(1) =~= all.skip(i + 1));
            }
            let is_dot = piece.len() == 1 && piece[0] == '.';
            let is_dot_dot = piece.len() == 2 && piece[0] == '.' && piece[1] == '.';
            proof {
                if piece@ == dot() {
                    assert(piece@.len() == 1 && piece@[0] == '.');
                }
                if piece@ == dot_dot() {
                    assert(piece@.len() == 2 && piece@[0] == '.' && piece@[1] == '.');
                }
                if is_dot {
                    assert(piece@ =~= dot());
                }
                if is_dot_dot {
                    assert(piece@ =~= dot_dot());
                }
            }
            if piece.len() > 0 && !is_dot && !is_dot_dot {
                return Some(string_of(piece));
            }
            i += 1;
        }
        assert(all.skip(pieces.len() as int) =~= Seq::<Seq<char>>::empty());
        None
    }

    /// Makes sure that the store has a link for `name`, and hands it out.
    /// Where the store has none, the link is first seen at `now` under the
    /// token `fresh`.
    pub fn obtain_link(&mut self, name: &str, fresh: Token, now: Instant) -> (link: PrivateLink)
        requires
            old(self).config.wf(),
            now.secs + MAX_LIFETIME <= i64::MAX,
        ensures
            final(self).same_paths(old(self)),
            final(self).config.wf(),
            final(self).config@ == obtained(old(self).config@, name@, fresh, now),
            link == final(self).config@[name@],
    {
        match self.config.get(name) {
            Some(link) => link,
            None => {
                let link = PrivateLink::issued(fresh, now);
                self.config.insert(name, link);
                link
            },
        }
    }

    /// Reflects a change at `path`, which should lie below the root of the
    /// source: the resource it belongs to gets a link if it has none, first
    /// seen at `now` under the token `fresh`, and the tasks that bring the
    /// mirror up to date are returned. A path that does not lie below the root
    /// asks for nothing and changes nothing.
    pub fn reflect_source_at(
        &mut self,
        path: &str,
        state: PathState,
        now: Instant,
        fresh: Token,
    ) -> (tasks: Vec<MirrorTask>)
        requires
            old(self).config.wf(),
            now.secs + MAX_LIFETIME <= i64::MAX,
        ensures
            final(self).same_paths(old(self)),
            final(self).config.wf(),
            reflected(
                old(self).config@,
                old(self).root_path@,
                old(self).reflect_path@,
                path@,
                state,
                now,
                fresh,
                final(self).config@,
                plan_view(tasks@),
            ),
    {
        let mut tasks: Vec<MirrorTask> = Vec::new();
        let rel = match relative(path, self.root_path.as_str()) {
            Some(rel) => rel,
            None => {
                return tasks;
            },
        };
        let head = string_of(&rel[0]);
        assert(head@ == views(rel@)[0]);
        let link = self.obtain_link(head.as_str(), fresh, now);
        let id = link.get_token();
        let dir = push_segment(self.reflect_path.as_str(), id.as_str());
        let target = string_of(&join(chars_of(dir.as_str()), &rel));
        let ghost wanted = reflection(self.reflect_path@, link, path@, views(rel@), state);
        match state {
            PathState::Directory => {
                tasks.push(MirrorTask::EnsureDir { dir: target });
            },
            PathState::File => {
                let mut above = rel;
                let ghost whole = views(above@);
                above.pop();
                assert(views(above@) =~= whole.drop_last());
                let parent = string_of(&join(chars_of(dir.as_str()), &above));
                tasks.push(MirrorTask::EnsureDir { dir: parent });
                tasks.push(MirrorTask::CopyFile { from: String::from_str(path), to: target });
            },
            PathState::Missing => {
                tasks.push(MirrorTask::Remove { path: target });
            },
        }
        assert(plan_view(tasks@) =~= wanted);
        tasks
    }

    /// Reflects a change at `path` at this moment; see `reflect_source_at`.
    /// Whatever the clock and the draw give, the links that the store had stay
    /// as they were, and at most the resource that the path belongs to gets a
    /// new one.
    pub fn reflect_source(&mut self, path: &str, state: PathState) -> (tasks: Vec<MirrorTask>)
        requires
            old(self).config.wf(),
        ensures
            final(self).same_paths(old(self)),
            final(self).config.wf(),
            exists|now: Instant, fresh: Token|
                #[trigger] reflected(
                    old(self).config@,
                    old(self).root_path@,
                    old(self).reflect_path@,
                    path@,
                    state,
                    now,
                    fresh,
                    final(self).config@,
                    plan_view(tasks@),
                ),
    {
        let now = Instant::now();
        let fresh = Token::fresh();
        self.reflect_source_at(path, state, now, fresh)
    }

    /// Plans the replica of one child of the source: the child gets a link if
    /// it has none, first seen at `now` under the token `fresh`, and the two
    /// tasks that replicate it under the token of its link are appended to
    /// the plan.
    pub fn replicate(&mut self, plan: &mut Vec<MirrorTask>, child: &str, now: Instant, fresh: Token)
        requires
            old(self).config.wf(),
            now.secs + MAX_LIFETIME <= i64::MAX,
        ensures
            final(self).same_paths(old(self)),
            final(self).config.wf(),
            final(self).config@ == obtained(old(self).config@, child@, fresh, now),
            plan_view(final(plan)@) == plan_view(old(plan)@) + replica(
                old(self).root_path@,
                old(self).reflect_path@,
                final(self).config@[child@],
                child@,
            ),
    {
        let link = self.obtain_link(child, fresh, now);
        let id = link.get_token();
        let dir = push_segment(self.reflect_path.as_str(), id.as_str());
        let from = push_segment(self.root_path.as_str(), child);
        let to = push_segment(dir.as_str(), child);
        let ghost had = plan_view(plan@);
        plan.push(MirrorTask::EnsureDir { dir });
        plan.push(MirrorTask::CopyTree { from, to });
        assert(plan_view(plan@) =~= had + replica(
            self.root_path@,
            self.reflect_path@,
            link,
            child@,
        ));
    }

    /// Plans the first full mirror at `now`. The store that was read is taken
    /// over, every child of the source gets a link if it has none, and the
    /// plan resets the mirrored tree and replicates every child under the
    /// token of its link. A token is drawn for each child without a link;
    /// whatever the draws give, the store is that of `obtained_all` for the
    /// tokens drawn, and the plan is `full_mirror` for that store.
    pub fn initialize_at(
        &mut self,
        loaded: Option<LinkStore>,
        children: &Vec<String>,
        now: Instant,
    ) -> (plan: Vec<MirrorTask>)
        requires
            loaded matches Some(store) ==> store.wf(),
            now.secs + MAX_LIFETIME <= i64::MAX,
        ensures
            final(self).same_paths(old(self)),
            final(self).config.wf(),
            exists|tokens: Seq<Token>|
                tokens.len() == children.len() && final(self).config@ == #[trigger] obtained_all(
                    store_read(loaded),
                    texts(children@),
                    tokens,
                    now,
                ),
            plan_view(plan@) == full_mirror(
                old(self).root_path@,
                old(self).reflect_path@,
                final(self).config@,
                texts(children@),
            ),
    {
        self.load_config(loaded);
        let ghost start = self.config@;
        let ghost root = self.root_path@;
        let ghost reflect = self.reflect_path@;
        let ghost names = texts(children@);
        let ghost mut tokens: Seq<Token> = Seq::empty();
        let mut plan: Vec<MirrorTask> = Vec::new();
        plan.push(MirrorTask::Reset { dir: self.reflect_path.clone() });
        let mut i: usize = 0;
        proof {
            assert(names.take(0) =~= Seq::<Seq<char>>::empty());
            assert(plan_view(plan@) =~= full_mirror(root, reflect, start, names.take(0)));
        }
        while i < children.len()
            invariant
                i <= children.len(),
                self.config.wf(),
                self.root_path@ == root,
                self.reflect_path@ == reflect,
                self.config_path@ == old(self).config_path@,
                now.secs + MAX_LIFETIME <= i64::MAX,
                names == texts(children@),
                tokens.len() == i,
                self.config@ == obtained_all(start, names.take(i as int), tokens, now),
                plan_view(plan@) == full_mirror(root, reflect, self.config@, names.take(i as int)),
            decreases children.len() - i,
        {
            let child = children[i].as_str();
            let fresh = if self.config.contains(child) {
                Token { bits: 0 }
            } else {
                Token::fresh()
            };
            let ghost before = self.config@;
            self.replicate(&mut plan, child, now, fresh);
            proof {
                let longer = tokens.push(fresh);
                assert(longer =~= tokens + seq![fresh]);
                obtained_all_reads_own_tokens(start, names.take(i as int), tokens, seq![fresh], now);
                assert(names.take(i + 1).drop_last() =~= names.take(i as int));
                assert(names.take(i + 1).last() == child@);
                assert(self.config@ == obtained_all(start, names.take(i + 1), longer, now));
                obtained_all_keeps_links(start, names.take(i as int), tokens, now);
                assert forall|k: int| 0 <= k < names.take(i as int).len() implies before[
                    #[trigger] names.take(i as int)[k]] == self.config@[names.take(i as int)[k]] by {
                    assert(before.contains_key(names.take(i as int)[k]));
                }
                replicas_read_own_links(root, reflect, before, self.config@, names.take(i as int));
                assert(plan_view(plan@) =~= full_mirror(
                    root,
                    reflect,
                    self.config@,
                    names.take(i + 1),
                ));
                tokens = longer;
            }
            i += 1;
        }
        proof {
            assert(names.take(children.len() as int) =~= names);
        }
        plan
    }

    /// Plans the first full mirror at this moment; see `initialize_at`.
    pub fn initialize(&mut self, loaded: Option<LinkStore>, children: &Vec<String>) -> (plan: Vec<
        MirrorTask,
    >)
        requires
            loaded matches Some(store) ==> store.wf(),
        ensures
            final(self).same_paths(old(self)),
            final(self).config.wf(),
            exists|now: Instant, tokens: Seq<Token>|
                tokens.len() == children.len() && final(self).config@ == #[trigger] obtained_all(
                    store_read(loaded),
                    texts(children@),
                    tokens,
                    now,
                ),
            plan_view(plan@) == full_mirror(
                old(self).root_path@,
                old(self).reflect_path@,
                final(self).config@,
                texts(children@),
            ),
    {
        self.initialize_at(loaded, children, Instant::now())
    }

    /// The consistency check at `now`; see `check_consistency`.
    pub fn check_config_at(
        &mut self,
        source: &Vec<String>,
        mirror: &Vec<MirrorEntry>,
        now: Instant,
    ) -> (verdicts: Vec<Verdict>)
        requires
            old(self).config.wf(),
            now.secs + MAX_LIFETIME <= i64::MAX,
        ensures
            final(self).same_paths(old(self)),
            final(self).config.wf(),
            verdicts.len() == mirror.len(),
            exists|tokens: Seq<Token>|
                {
                    let r = #[trigger] reconciled(
                        old(self).config@,
                        texts(source@),
                        listing(mirror@),
                        now,
                        tokens,
                    );
                    tokens.len() == mirror.len() && final(self).config@ == r.store && verdicts@
                        == r.verdicts
                },
    {
        check_consistency(&mut self.config, source, mirror, now)
    }

    /// The consistency check at this moment: the listing of the mirror is
    /// held against the names in the source and the store, the verdicts are
    /// returned for the caller to carry out, and the store is pruned. The
    /// outcome is that of `reconciled` for the reading of the clock and the
    /// tokens drawn, whatever they are.
    pub fn check_config(&mut self, source: &Vec<String>, mirror: &Vec<MirrorEntry>) -> (verdicts:
        Vec<Verdict>)
        requires
            old(self).config.wf(),
        ensures
            final(self).same_paths(old(self)),
            final(self).config.wf(),
            verdicts.len() == mirror.len(),
            exists|now: Instant, tokens: Seq<Token>|
                {
                    let r = #[trigger] reconciled(
                        old(self).config@,
                        texts(source@),
                        listing(mirror@),
                        now,
                        tokens,
                    );
                    tokens.len() == mirror.len() && final(self).config@ == r.store && verdicts@
                        == r.verdicts
                },
    {
        let now = Instant::now();
        let ghost before = self.config@;
        let verdicts = self.check_config_at(source, mirror, now);
        proof {
            let tokens = choose|tokens: Seq<Token>|
                {
                    let r = #[trigger] reconciled(
                        before,
                        texts(source@),
                        listing(mirror@),
                        now,
                        tokens,
                    );
                    tokens.len() == mirror.len() && self.config@ == r.store && verdicts@
                        == r.verdicts
                };
            assert(reconciled(before, texts(source@), listing(mirror@), now, tokens).store
                == self.config@);
        }
        verdicts
    }
}

} // verus!
