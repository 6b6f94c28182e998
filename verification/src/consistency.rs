//! The consistency check: the mirrored tree is held against the private
//! source and the link store, entry by entry, and the store is pruned to
//! what the mirror still holds.

use crate::link::PrivateLink;
use crate::mirror::{contains_text, listing, texts, MirrorEntry, MirrorEntryView, Shape, shape_of};
use crate::rotation::{Instant, MAX_LIFETIME};
use crate::store::{marked, LinkStore};
use crate::token::Token;
use vstd::prelude::*;

verus! {

/// What the check decides for one entry of the mirrored tree, and so what is
/// to be done about it.
#[derive(Clone, Copy, Debug, PartialEq, Eq, Structural)]
pub enum Verdict {
    /// Not a directory: it is left alone.
    Ignored,
    /// Its name is no token: the directory is to be deleted.
    Orphan,
    /// It holds nothing: the directory is to be deleted.
    Empty,
    /// It holds more than one entry: an error is to be reported, and the
    /// directory is left for the operator.
    Ambiguous,
    /// The resource it holds is gone from the source: the directory is to be
    /// deleted.
    Gone,
    /// The link has not expired: nothing is to be done.
    Kept,
    /// The link has expired and got this token: the directory is to be
    /// renamed to the text of the token.
    Rotated(Token),
    /// The link has expired under a policy of removal: the resource is to be
    /// deleted from the source.
    Retired,
}

/// Where a pass over the mirrored tree stands: the store as it is by now, the
/// names of the resources retired so far, and the verdicts given so far.
pub struct Pass {
    pub store: Map<Seq<char>, PrivateLink>,
    pub retired: Set<Seq<char>>,
    pub verdicts: Seq<Verdict>,
}

/// The link that the check works on for a resource: the one the store holds,
/// or, where it holds none, a link first seen now under the token that the
/// mirror shows.
pub open spec fn link_for(
    store: Map<Seq<char>, PrivateLink>,
    name: Seq<char>,
    observed: Token,
    now: Instant,
) -> PrivateLink {
    if store.contains_key(name) {
        store[name]
    } else {
        PrivateLink::first_seen(observed, now)
    }
}

/// The verdict on a link that is checked at `now`, where `fresh` is the
/// token drawn for it.
pub open spec fn expiry_verdict(link: PrivateLink, now: Instant, fresh: Token) -> Verdict {
    if link.expired(now) {
        if link.rotation.remove_on_expiry {
            Verdict::Retired
        } else {
            Verdict::Rotated(fresh)
        }
    } else {
        Verdict::Kept
    }
}

/// The pass after one more entry. Only a token directory with a single
/// entry whose resource is still in the source, and was not retired earlier
/// in this pass, has its link checked; the checked link is stored.
pub open spec fn judged(
    p: Pass,
    source: Seq<Seq<char>>,
    entry: MirrorEntryView,
    now: Instant,
    fresh: Token,
) -> Pass {
    match shape_of(entry) {
        Shape::NotADirectory => Pass { verdicts: p.verdicts.push(Verdict::Ignored), ..p },
        Shape::Orphan => Pass { verdicts: p.verdicts.push(Verdict::Orphan), ..p },
        Shape::Empty => Pass { verdicts: p.verdicts.push(Verdict::Empty), ..p },
        Shape::Ambiguous => Pass { verdicts: p.verdicts.push(Verdict::Ambiguous), ..p },
        Shape::Link(observed) => {
            let name = entry.children[0];
            if !source.contains(name) || p.retired.contains(name) {
                Pass { verdicts: p.verdicts.push(Verdict::Gone), ..p }
            } else {
                let link = link_for(p.store, name, observed, now);
                let verdict = expiry_verdict(link, now, fresh);
                Pass {
                    store: p.store.insert(name, link.checked(now, fresh)),
                    retired: if verdict == Verdict::Retired {
                        p.retired.insert(name)
                    } else {
                        p.retired
                    },
                    verdicts: p.verdicts.push(verdict),
                }
            }
        },
    }
}

/// The pass over all of `mirror`, from the first entry to the last, where
/// `tokens[k]` is the token drawn for entry `k`.
pub open spec fn pass_over(
    store: Map<Seq<char>, PrivateLink>,
    source: Seq<Seq<char>>,
    mirror: Seq<MirrorEntryView>,
    now: Instant,
    tokens: Seq<Token>,
) -> Pass
    decreases mirror.len(),
{
    if mirror.len() == 0 {
        Pass { store, retired: Set::empty(), verdicts: Seq::empty() }
    } else {
        judged(
            pass_over(store, source, mirror.drop_last(), now, tokens),
            source,
            mirror.last(),
            now,
            tokens[mirror.len() - 1],
        )
    }
}

/// The name under which an entry is found in the mirror once its verdict has
/// been carried out, if it is still there as a directory.
pub open spec fn surviving(entry: MirrorEntryView, verdict: Verdict) -> Option<Seq<char>> {
    match verdict {
        Verdict::Orphan | Verdict::Empty | Verdict::Gone => None,
        Verdict::Rotated(token) => Some(token.text()),
        _ => if entry.is_dir {
            Some(entry.name)
        } else {
            None
        },
    }
}

/// Whether, once the verdicts have been carried out, the mirror holds the
/// resource `name` in a directory named by the token of `link`.
pub open spec fn mirrored(
    mirror: Seq<MirrorEntryView>,
    verdicts: Seq<Verdict>,
    link: PrivateLink,
    name: Seq<char>,
) -> bool {
    exists|k: int|
        0 <= k < mirror.len() && #[trigger] surviving(mirror[k], verdicts[k]) == Some(
            link.id.text(),
        ) && mirror[k].children.contains(name)
}

/// The names of the store whose links the mirror still holds.
pub open spec fn mirrored_names(
    store: Map<Seq<char>, PrivateLink>,
    mirror: Seq<MirrorEntryView>,
    verdicts: Seq<Verdict>,
) -> Set<Seq<char>> {
    Set::new(|n: Seq<char>| store.contains_key(n) && mirrored(mirror, verdicts, store[n], n))
}

/// The whole check: the pass over the mirror, and then the store pruned to
/// the links that the mirror still holds.
pub open spec fn reconciled(
    store: Map<Seq<char>, PrivateLink>,
    source: Seq<Seq<char>>,
    mirror: Seq<MirrorEntryView>,
    now: Instant,
    tokens: Seq<Token>,
) -> Pass {
    let p = pass_over(store, source, mirror, now, tokens);
    Pass { store: p.store.restrict(mirrored_names(p.store, mirror, p.verdicts)), ..p }
}

/// A pass gives one verdict for each entry.
pub proof fn pass_gives_one_verdict_each(
    store: Map<Seq<char>, PrivateLink>,
    source: Seq<Seq<char>>,
    mirror: Seq<MirrorEntryView>,
    now: Instant,
    tokens: Seq<Token>,
)
    ensures
        pass_over(store, source, mirror, now, tokens).verdicts.len() == mirror.len(),
    decreases mirror.len(),
{
    if mirror.len() > 0 {
        pass_gives_one_verdict_each(store, source, mirror.drop_last(), now, tokens);
    }
}

/// A pass reads no token beyond those of its entries.
pub proof fn pass_reads_own_tokens(
    store: Map<Seq<char>, PrivateLink>,
    source: Seq<Seq<char>>,
    mirror: Seq<MirrorEntryView>,
    now: Instant,
    tokens: Seq<Token>,
    more: Seq<Token>,
)
    requires
        mirror.len() <= tokens.len(),
    ensures
        pass_over(store, source, mirror, now, tokens + more) == pass_over(
            store,
            source,
            mirror,
            now,
            tokens,
        ),
    decreases mirror.len(),
{
    if mirror.len() > 0 {
        pass_reads_own_tokens(store, source, mirror.drop_last(), now, tokens, more);
    }
}

/// The set of the texts of `names`.
pub open spec fn name_set(names: Seq<String>) -> Set<Seq<char>> {
    Set::new(|n: Seq<char>| texts(names).contains(n))
}

/// Checks the link of one resource found in the mirror under the token
/// `observed`: a link that the store lacks is made up from that token, and
/// the link is then checked for expiry at `now`, with `fresh` for its new
/// token where it rotates.
pub fn check_expiry(
    store: &mut LinkStore,
    observed: Token,
    name: &str,
    now: Instant,
    fresh: Token,
) -> (verdict: Verdict)
    requires
        old(store).wf(),
        now.secs + MAX_LIFETIME <= i64::MAX,
    ensures
        final(store).wf(),
        verdict == expiry_verdict(link_for(old(store)@, name@, observed, now), now, fresh),
        final(store)@ == old(store)@.insert(
            name@,
            link_for(old(store)@, name@, observed, now).checked(now, fresh),
        ),
{
    let mut link = match store.get(name) {
        Some(link) => link,
        // The store was lost or is new: the token that the mirror shows is
        // taken over, so that the mirror is not orphaned.
        None => PrivateLink::issued(observed, now),
    };
    proof {
        crate::rotation::lifetime_bounds(link.rotation);
    }
    let retire = link.rotation.remove_on_expiry;
    let has_expired = link.change_if_expired_at(now, fresh);
    store.insert(name, link);
    if has_expired {
        if retire {
            Verdict::Retired
        } else {
            Verdict::Rotated(fresh)
        }
    } else {
        Verdict::Kept
    }
}

/// Whether the check of the resource `name` at `now` will draw a token: its
/// link, stored or made up, has expired under a policy that rotates.
pub fn will_rotate(store: &LinkStore, name: &str, now: Instant) -> (r: bool)
    requires
        store.wf(),
    ensures
        r == (store@.contains_key(name@) && store@[name@].expired(now)
            && !store@[name@].rotation.remove_on_expiry),
{
    match store.get(name) {
        Some(link) => link.is_expired_at(now) && !link.rotation.remove_on_expiry,
        None => false,
    }
}

/// Judges one entry of the mirror, given the pass so far: the store and the
/// names retired in this pass.
pub fn check_entry(
    store: &mut LinkStore,
    retired: &mut Vec<String>,
    source: &Vec<String>,
    entry: &MirrorEntry,
    now: Instant,
    fresh: Token,
) -> (verdict: Verdict)
    requires
        old(store).wf(),
        now.secs + MAX_LIFETIME <= i64::MAX,
    ensures
        final(store).wf(),
        ({
            let before = Pass {
                store: old(store)@,
                retired: name_set(old(retired)@),
                verdicts: Seq::empty(),
            };
            let after = judged(before, texts(source@), entry@, now, fresh);
            &&& final(store)@ == after.store
            &&& name_set(final(retired)@) == after.retired
            &&& seq![verdict] == after.verdicts
        }),
{
    let ghost before = Pass {
        store: store@,
        retired: name_set(retired@),
        verdicts: Seq::<Verdict>::empty(),
    };
    let ghost after = judged(before, texts(source@), entry@, now, fresh);
    let verdict = match entry.shape() {
        Shape::NotADirectory => Verdict::Ignored,
        Shape::Orphan => Verdict::Orphan,
        Shape::Empty => Verdict::Empty,
        Shape::Ambiguous => Verdict::Ambiguous,
        Shape::Link(observed) => {
            let name = entry.children[0].as_str();
            assert(name@ == entry@.children[0]);
            if !contains_text(source, name) || contains_text(retired, name) {
                Verdict::Gone
            } else {
                let verdict = check_expiry(store, observed, name, now, fresh);
                if verdict == Verdict::Retired {
                    let ghost had = retired@;
                    retired.push(String::from_str(name));
                    proof {
                        assert(texts(retired@) == texts(had).push(name@));
                        assert forall|n: Seq<char>|
                            name_set(retired@).contains(n) <==> name_set(had).insert(
                                name@,
                            ).contains(n) by {
                            if texts(had).contains(n) {
                                let j = choose|j: int| 0 <= j < texts(had).len() && texts(had)[j] == n;
                                assert(texts(retired@)[j] == n);
                            }
                            if n == name@ {
                                assert(texts(retired@)[had.len() as int] == n);
                            }
                        }
                        assert(name_set(retired@) =~= name_set(had).insert(name@));
                    }
                }
                verdict
            }
        },
    };
    assert(seq![verdict] =~= after.verdicts);
    verdict
}

/// Whether the check of `entry` at `now` will draw a token: it is a token
/// directory with a single entry whose stored link has expired under a policy
/// that rotates.
pub fn draws_token(store: &LinkStore, entry: &MirrorEntry, now: Instant) -> (r: bool)
    requires
        store.wf(),
    ensures
        r == (shape_of(entry@) is Link && store@.contains_key(entry@.children[0])
            && store@[entry@.children[0]].expired(now)
            && !store@[entry@.children[0]].rotation.remove_on_expiry),
{
    match entry.shape() {
        Shape::Link(_) => {
            assert(entry.children[0]@ == entry@.children[0]);
            will_rotate(store, entry.children[0].as_str(), now)
        },
        _ => false,
    }
}

/// Validates the mirrored tree against the source, entry by entry in the
/// order of the listing, and gives the verdict on each. A token is drawn for
/// each link that rotates; whatever the draws give, the outcome is that of
/// `pass_over` for the tokens drawn.
pub fn check_private_paths(
    store: &mut LinkStore,
    source: &Vec<String>,
    mirror: &Vec<MirrorEntry>,
    now: Instant,
) -> (verdicts: Vec<Verdict>)
    requires
        old(store).wf(),
        now.secs + MAX_LIFETIME <= i64::MAX,
    ensures
        final(store).wf(),
        verdicts.len() == mirror.len(),
        exists|tokens: Seq<Token>|
            {
                let p = #[trigger] pass_over(
                    old(store)@,
                    texts(source@),
                    listing(mirror@),
                    now,
                    tokens,
                );
                tokens.len() == mirror.len() && final(store)@ == p.store && verdicts@
                    == p.verdicts
            },
{
    let ghost start = store@;
    let ghost all = listing(mirror@);
    let ghost src = texts(source@);
    let ghost mut tokens: Seq<Token> = Seq::empty();
    let mut verdicts: Vec<Verdict> = Vec::new();
    let mut retired: Vec<String> = Vec::new();
    let mut i: usize = 0;
    proof {
        assert(all.take(0) =~= Seq::<MirrorEntryView>::empty());
        assert(name_set(retired@) =~= Set::<Seq<char>>::empty());
    }
    while i < mirror.len()
        invariant
            i <= mirror.len(),
            store.wf(),
            now.secs + MAX_LIFETIME <= i64::MAX,
            all == listing(mirror@),
            src == texts(source@),
            tokens.len() == i,
            verdicts.len() == i,
            store@ == pass_over(start, src, all.take(i as int), now, tokens).store,
            name_set(retired@) == pass_over(start, src, all.take(i as int), now, tokens).retired,
            verdicts@ == pass_over(start, src, all.take(i as int), now, tokens).verdicts,
        decreases mirror.len() - i,
    {
        let entry = &mirror[i];
        let fresh = if draws_token(store, entry, now) {
            Token::fresh()
        } else {
            Token { bits: 0 }
        };
        let ghost p = pass_over(start, src, all.take(i as int), now, tokens);
        let verdict = check_entry(store, &mut retired, source, entry, now, fresh);
        verdicts.push(verdict);
        proof {
            let longer = tokens.push(fresh);
            assert(longer =~= tokens + seq![fresh]);
            pass_reads_own_tokens(start, src, all.take(i as int), now, tokens, seq![fresh]);
            assert(all.take(i + 1).drop_last() =~= all.take(i as int));
            assert(all.take(i + 1).last() == entry@);
            let q = pass_over(start, src, all.take(i + 1), now, longer);
            assert(q == judged(p, src, entry@, now, fresh));
            let alone = Pass { store: p.store, retired: p.retired, verdicts: Seq::empty() };
            let after = judged(alone, src, entry@, now, fresh);
            assert(q.store == after.store);
            assert(q.retired == after.retired);
            assert(q.verdicts =~= p.verdicts + after.verdicts);
            assert(verdicts@ =~= q.verdicts);
            tokens = longer;
        }
        i += 1;
    }
    proof {
        assert(all.take(mirror.len() as int) =~= all);
    }
    verdicts
}

/// The text under which an entry is found once its verdict has been carried
/// out, if it is still there as a directory.
pub fn surviving_name(entry: &MirrorEntry, verdict: Verdict) -> (r: Option<String>)
    ensures
        match r {
            Some(name) => surviving(entry@, verdict) == Some(name@),
            None => surviving(entry@, verdict) is None,
        },
{
    match verdict {
        Verdict::Orphan => None,
        Verdict::Empty => None,
        Verdict::Gone => None,
        Verdict::Rotated(token) => Some(token.hyphenated()),
        _ => {
            if entry.is_dir {
                Some(entry.name.clone())
            } else {
                None
            }
        },
    }
}

/// Whether, once the verdicts have been carried out, the mirror holds the
/// resource `name` in a directory named by the token of `link`.
pub fn still_mirrored(
    mirror: &Vec<MirrorEntry>,
    verdicts: &Vec<Verdict>,
    link: &PrivateLink,
    name: &str,
) -> (r: bool)
    requires
        verdicts.len() == mirror.len(),
    ensures
        r == mirrored(listing(mirror@), verdicts@, *link, name@),
{
    let dir = link.get_token();
    let ghost all = listing(mirror@);
    let mut k: usize = 0;
    while k < mirror.len()
        invariant
            k <= mirror.len(),
            verdicts.len() == mirror.len(),
            all == listing(mirror@),
            dir@ == link.id.text(),
            forall|j: int|
                0 <= j < k ==> !(#[trigger] surviving(all[j], verdicts@[j]) == Some(
                    link.id.text(),
                ) && all[j].children.contains(name@)),
        decreases mirror.len() - k,
    {
        assert(all[k as int] == mirror@[k as int]@);
        match surviving_name(&mirror[k], verdicts[k]) {
            Some(found) => {
                if found == dir && contains_text(&mirror[k].children, name) {
                    return true;
                }
            },
            None => {},
        }
        k += 1;
    }
    false
}

/// Drops from the store every link that the mirror no longer holds once the
/// verdicts have been carried out.
pub fn prune_unmirrored(store: &mut LinkStore, mirror: &Vec<MirrorEntry>, verdicts: &Vec<Verdict>)
    requires
        old(store).wf(),
        verdicts.len() == mirror.len(),
    ensures
        final(store).wf(),
        final(store)@ == old(store)@.restrict(
            mirrored_names(old(store)@, listing(mirror@), verdicts@),
        ),
{
    let mut keep: Vec<bool> = Vec::new();
    let mut i: usize = 0;
    let n = store.len();
    while i < n
        invariant
            i <= n,
            n == store.names().len(),
            store.wf(),
            *store == *old(store),
            verdicts.len() == mirror.len(),
            keep.len() == i,
            forall|j: int|
                0 <= j < i ==> #[trigger] keep[j] == mirrored(
                    listing(mirror@),
                    verdicts@,
                    store@[store.names()[j]],
                    store.names()[j],
                ),
        decreases n - i,
    {
        let link = store.link_at(i);
        let held = still_mirrored(mirror, verdicts, &link, store.name_at(i));
        keep.push(held);
        i += 1;
    }
    proof {
        let names = store.names();
        let by_flag = marked(names, keep@);
        let by_mirror = mirrored_names(store@, listing(mirror@), verdicts@);
        assert forall|k: Seq<char>| #[trigger] store@.contains_key(k) implies (by_flag.contains(k)
            <==> by_mirror.contains(k)) by {
            let j = store.position(k);
            assert(names[j] == k);
            if by_flag.contains(k) {
                let m = choose|m: int| 0 <= m < names.len() && names[m] == k && keep@[m];
                assert(m == j);
            }
            if by_mirror.contains(k) {
                assert(keep@[j]);
            }
        }
        assert(store@.restrict(by_flag) =~= store@.restrict(by_mirror));
    }
    store.prune(&keep);
}

/// The consistency check at `now`: the pass over the mirror, then the
/// pruning of the store. Whatever tokens are drawn, the outcome is that of
/// `reconciled` for them.
pub fn check_consistency(
    store: &mut LinkStore,
    source: &Vec<String>,
    mirror: &Vec<MirrorEntry>,
    now: Instant,
) -> (verdicts: Vec<Verdict>)
    requires
        old(store).wf(),
        now.secs + MAX_LIFETIME <= i64::MAX,
    ensures
        final(store).wf(),
        verdicts.len() == mirror.len(),
        exists|tokens: Seq<Token>|
            {
                let r = #[trigger] reconciled(
                    old(store)@,
                    texts(source@),
                    listing(mirror@),
                    now,
                    tokens,
                );
                tokens.len() == mirror.len() && final(store)@ == r.store && verdicts@
                    == r.verdicts
            },
{
    let ghost start = store@;
    let verdicts = check_private_paths(store, source, mirror, now);
    let ghost tokens = choose|tokens: Seq<Token>|
        {
            let p = #[trigger] pass_over(start, texts(source@), listing(mirror@), now, tokens);
            tokens.len() == mirror.len() && store@ == p.store && verdicts@ == p.verdicts
        };
    prune_unmirrored(store, mirror, &verdicts);
    proof {
        let r = reconciled(start, texts(source@), listing(mirror@), now, tokens);
        assert(store@ == r.store);
        assert(verdicts@ == r.verdicts);
    }
    verdicts
}

/// The verdict on entry `k` is the one that judging it gives, from where the
/// pass stands after the entries before it.
pub proof fn verdict_at(
    store: Map<Seq<char>, PrivateLink>,
    source: Seq<Seq<char>>,
    mirror: Seq<MirrorEntryView>,
    now: Instant,
    tokens: Seq<Token>,
    k: int,
)
    requires
        0 <= k < mirror.len(),
    ensures
        pass_over(store, source, mirror, now, tokens).verdicts.len() == mirror.len(),
        pass_over(store, source, mirror.take(k), now, tokens).verdicts.len() == k,
        pass_over(store, source, mirror, now, tokens).verdicts[k] == judged(
            pass_over(store, source, mirror.take(k), now, tokens),
            source,
            mirror[k],
            now,
            tokens[k],
        ).verdicts[k],
    decreases mirror.len(),
{
    pass_gives_one_verdict_each(store, source, mirror, now, tokens);
    pass_gives_one_verdict_each(store, source, mirror.take(k), now, tokens);
    pass_gives_one_verdict_each(store, source, mirror.drop_last(), now, tokens);
    if k == mirror.len() - 1 {
        assert(mirror.take(k) =~= mirror.drop_last());
    } else {
        verdict_at(store, source, mirror.drop_last(), now, tokens, k);
        assert(mirror.drop_last().take(k) =~= mirror.take(k));
    }
}

/// Rotation in the mirror. Where the pass comes to a token directory whose
/// single entry is still in the source and whose stored link has expired
/// under a policy that rotates, the link takes the fresh token and an expiry
/// one lifetime after `now`, and the verdict asks for the directory to be
/// renamed to the text of that token: the name under which the mirror then
/// holds the resource is the one that the link has.
pub proof fn rotated_link_stays_mirrored(
    p: Pass,
    source: Seq<Seq<char>>,
    entry: MirrorEntryView,
    now: Instant,
    fresh: Token,
)
    requires
        shape_of(entry) is Link,
        source.contains(entry.children[0]),
        !p.retired.contains(entry.children[0]),
        p.store.contains_key(entry.children[0]),
        p.store[entry.children[0]].expired(now),
        !p.store[entry.children[0]].rotation.remove_on_expiry,
    ensures
        ({
            let name = entry.children[0];
            let q = judged(p, source, entry, now, fresh);
            &&& q.verdicts == p.verdicts.push(Verdict::Rotated(fresh))
            &&& q.store.contains_key(name)
            &&& q.store[name].id == fresh
            &&& q.store[name].expiry == Some(now.plus(p.store[name].rotation.lifetime()))
            &&& q.store[name].rotation == p.store[name].rotation
            &&& q.store[name].skip_sms == p.store[name].skip_sms
            &&& surviving(entry, Verdict::Rotated(fresh)) == Some(q.store[name].id.text())
            &&& q.retired == p.retired
        }),
{
}

/// Removal on expiry, first pass. Where the pass comes to a token directory
/// whose single entry is still in the source and whose stored link has
/// expired under a policy of removal, the verdict is that the resource is to
/// be deleted from the source; the link itself stays as it is, and the
/// resource counts as gone for the rest of the pass.
pub proof fn expired_resource_is_retired(
    p: Pass,
    source: Seq<Seq<char>>,
    entry: MirrorEntryView,
    now: Instant,
    fresh: Token,
)
    requires
        shape_of(entry) is Link,
        source.contains(entry.children[0]),
        !p.retired.contains(entry.children[0]),
        p.store.contains_key(entry.children[0]),
        p.store[entry.children[0]].expired(now),
        p.store[entry.children[0]].rotation.remove_on_expiry,
    ensures
        judged(p, source, entry, now, fresh).verdicts == p.verdicts.push(Verdict::Retired),
        judged(p, source, entry, now, fresh).store =~= p.store,
        judged(p, source, entry, now, fresh).retired.contains(entry.children[0]),
{
    let name = entry.children[0];
    assert(p.store.insert(name, p.store[name]) =~= p.store);
}

/// Removal on expiry, next pass. Once a resource is gone from the source,
/// every token directory that holds nothing but it gets the verdict that it
/// is to be deleted; and if no other directory of the mirror holds the
/// resource, the store has no link for it after the check.
pub proof fn gone_resource_is_dropped(
    store: Map<Seq<char>, PrivateLink>,
    source: Seq<Seq<char>>,
    mirror: Seq<MirrorEntryView>,
    now: Instant,
    tokens: Seq<Token>,
    name: Seq<char>,
)
    requires
        !source.contains(name),
        forall|k: int|
            0 <= k < mirror.len() && (#[trigger] mirror[k]).is_dir
                && mirror[k].children.contains(name) ==> shape_of(mirror[k]) is Link,
    ensures
        forall|k: int|
            0 <= k < mirror.len() && shape_of(#[trigger] mirror[k]) is Link
                && mirror[k].children[0] == name ==> reconciled(
                store,
                source,
                mirror,
                now,
                tokens,
            ).verdicts[k] == Verdict::Gone,
        !reconciled(store, source, mirror, now, tokens).store.contains_key(name),
{
    let p = pass_over(store, source, mirror, now, tokens);
    pass_gives_one_verdict_each(store, source, mirror, now, tokens);
    assert forall|k: int|
        0 <= k < mirror.len() && shape_of(#[trigger] mirror[k]) is Link && mirror[k].children[0]
            == name implies p.verdicts[k] == Verdict::Gone by {
        verdict_at(store, source, mirror, now, tokens, k);
    }
    if p.store.contains_key(name) && mirrored(mirror, p.verdicts, p.store[name], name) {
        let k = choose|k: int|
            0 <= k < mirror.len() && #[trigger] surviving(mirror[k], p.verdicts[k]) == Some(
                p.store[name].id.text(),
            ) && mirror[k].children.contains(name);
        verdict_at(store, source, mirror, now, tokens, k);
        if mirror[k].is_dir {
            assert(shape_of(mirror[k]) is Link);
            assert(mirror[k].children.len() == 1);
            let j = choose|j: int| 0 <= j < mirror[k].children.len() && mirror[k].children[j] == name;
            assert(mirror[k].children[0] == name);
            assert(p.verdicts[k] == Verdict::Gone);
        } else {
            assert(shape_of(mirror[k]) == Shape::NotADirectory);
            assert(p.verdicts[k] == Verdict::Ignored);
        }
        assert(false);
    }
}

/// After the check, every link that the store holds has its resource in a
/// directory of the mirror named by the text of its token, and the store
/// holds no link that it did not hold when the pass was over.
pub proof fn kept_links_are_mirrored(
    store: Map<Seq<char>, PrivateLink>,
    source: Seq<Seq<char>>,
    mirror: Seq<MirrorEntryView>,
    now: Instant,
    tokens: Seq<Token>,
)
    ensures
        ({
            let p = pass_over(store, source, mirror, now, tokens);
            let r = reconciled(store, source, mirror, now, tokens);
            forall|name: Seq<char>| #[trigger]
                r.store.contains_key(name) ==> p.store.contains_key(name) && r.store[name]
                    == p.store[name] && mirrored(mirror, r.verdicts, r.store[name], name)
        }),
{
}

/// A mirrored tree that is intact: every entry is a directory named by the
/// text of a token, `ids[k]` for entry `k`, and holds exactly one resource
/// that the source has; no resource is held twice.
pub open spec fn intact(
    mirror: Seq<MirrorEntryView>,
    source: Seq<Seq<char>>,
    ids: Seq<Token>,
) -> bool {
    &&& ids.len() == mirror.len()
    &&& forall|k: int|
        0 <= k < mirror.len() ==> {
            &&& (#[trigger] mirror[k]).is_dir
            &&& mirror[k].name == ids[k].text()
            &&& Token::parsed(mirror[k].name) == Some(ids[k])
            &&& mirror[k].children.len() == 1
            &&& source.contains(mirror[k].children[0])
        }
    &&& forall|j: int, k: int|
        0 <= j < k < mirror.len() ==> (#[trigger] mirror[j]).children[0] != (
        #[trigger] mirror[k]).children[0]
}

/// The pass over an intact mirror with an empty store keeps every entry and
/// makes up, for each resource, a link under the token of its directory.
proof fn pass_rebuilds(
    source: Seq<Seq<char>>,
    mirror: Seq<MirrorEntryView>,
    ids: Seq<Token>,
    now: Instant,
    tokens: Seq<Token>,
    n: int,
)
    requires
        intact(mirror, source, ids),
        now.secs + 86400 <= i64::MAX,
        0 <= n <= mirror.len(),
    ensures
        ({
            let p = pass_over(Map::empty(), source, mirror.take(n), now, tokens);
            &&& p.retired == Set::<Seq<char>>::empty()
            &&& p.verdicts.len() == n
            &&& forall|k: int| 0 <= k < n ==> #[trigger] p.verdicts[k] == Verdict::Kept
            &&& forall|k: int|
                0 <= k < n ==> p.store.contains_key((#[trigger] mirror[k]).children[0])
                    && p.store[mirror[k].children[0]] == PrivateLink::first_seen(ids[k], now)
            &&& forall|name: Seq<char>|
                p.store.contains_key(name) ==> exists|k: int|
                    0 <= k < n && (#[trigger] mirror[k]).children[0] == name
        }),
    decreases n,
{
    if n > 0 {
        pass_rebuilds(source, mirror, ids, now, tokens, n - 1);
        let before = pass_over(Map::empty(), source, mirror.take(n - 1), now, tokens);
        let entry = mirror[n - 1];
        let name = entry.children[0];
        assert(mirror.take(n).drop_last() =~= mirror.take(n - 1));
        assert(mirror.take(n).last() == entry);
        let p = pass_over(Map::empty(), source, mirror.take(n), now, tokens);
        assert(p == judged(before, source, entry, now, tokens[n - 1]));
        assert(shape_of(entry) == Shape::Link(ids[n - 1]));
        if before.store.contains_key(name) {
            let j = choose|j: int| 0 <= j < n - 1 && (#[trigger] mirror[j]).children[0] == name;
            assert(false);
        }
        let link = PrivateLink::first_seen(ids[n - 1], now);
        assert(link_for(before.store, name, ids[n - 1], now) == link);
        assert(!link.expired(now));
        assert(link.checked(now, tokens[n - 1]) == link);
        assert(p.store == before.store.insert(name, link));
        assert forall|k: int| 0 <= k < n implies p.store.contains_key(
            (#[trigger] mirror[k]).children[0],
        ) && p.store[mirror[k].children[0]] == PrivateLink::first_seen(ids[k], now) by {
            if k < n - 1 {
                assert(mirror[k].children[0] != mirror[n - 1].children[0]);
            }
        }
        assert forall|other: Seq<char>| p.store.contains_key(other) implies exists|k: int|
            0 <= k < n && (#[trigger] mirror[k]).children[0] == other by {
            if other == name {
                assert(mirror[n - 1].children[0] == other);
            } else {
                let k = choose|k: int| 0 <= k < n - 1 && (#[trigger] mirror[k]).children[0] == other;
                assert(mirror[k].children[0] == other);
            }
        }
    } else {
        assert(mirror.take(0) =~= Seq::<MirrorEntryView>::empty());
    }
}

/// Consistency after the loss of the store. With an empty store and an
/// intact mirror, the check asks for nothing to be deleted or renamed, and
/// leaves a store that holds, for each mirrored resource and for nothing
/// else, a link under the token that names its directory, with the initial
/// policy and an expiry one day after `now`. No token is minted.
pub proof fn lost_store_is_rebuilt(
    source: Seq<Seq<char>>,
    mirror: Seq<MirrorEntryView>,
    ids: Seq<Token>,
    now: Instant,
    tokens: Seq<Token>,
)
    requires
        intact(mirror, source, ids),
        now.secs + 86400 <= i64::MAX,
    ensures
        ({
            let r = reconciled(Map::empty(), source, mirror, now, tokens);
            &&& r.verdicts.len() == mirror.len()
            &&& forall|k: int| 0 <= k < mirror.len() ==> #[trigger] r.verdicts[k] == Verdict::Kept
            &&& forall|k: int|
                0 <= k < mirror.len() ==> r.store.contains_key((#[trigger] mirror[k]).children[0])
                    && r.store[mirror[k].children[0]] == PrivateLink::first_seen(ids[k], now)
            &&& forall|name: Seq<char>|
                r.store.contains_key(name) ==> exists|k: int|
                    0 <= k < mirror.len() && (#[trigger] mirror[k]).children[0] == name
        }),
{
    pass_rebuilds(source, mirror, ids, now, tokens, mirror.len() as int);
    assert(mirror.take(mirror.len() as int) =~= mirror);
    let p = pass_over(Map::empty(), source, mirror, now, tokens);
    let r = reconciled(Map::empty(), source, mirror, now, tokens);
    assert forall|k: int| 0 <= k < mirror.len() implies r.store.contains_key(
        (#[trigger] mirror[k]).children[0],
    ) && r.store[mirror[k].children[0]] == PrivateLink::first_seen(ids[k], now) by {
        let name = mirror[k].children[0];
        assert(p.store.contains_key(name));
        assert(p.verdicts[k] == Verdict::Kept);
        assert(surviving(mirror[k], p.verdicts[k]) == Some(p.store[name].id.text()));
        assert(mirror[k].children.contains(name));
        assert(mirrored(mirror, p.verdicts, p.store[name], name));
    }
}

} // verus!
