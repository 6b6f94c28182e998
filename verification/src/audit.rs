//! The access audit: the hits on private links within one window, and the
//! digest that reports them.

use crate::link::PrivateLink;
use crate::store::LinkStore;
use crate::text::{append_chars, append_str, chars_of, decimal_text, push_decimal, string_of};
use crate::token::Token;
use vstd::prelude::*;

verus! {

/// The length that a digest never exceeds, in characters.
pub const SMS_LIMIT: usize = 140;

/// What every digest starts with.
pub const PREAMBLE: &'static str = "Caution!";

/// What a digest ends with where not all lines fit.
pub const MARKER: &'static str = "\n...";

/// The time after which a digest is due, in nanoseconds: five minutes.
pub const WINDOW_NANOS: u128 = 300_000_000_000;

/// The hits on one resource under one token.
pub struct Access {
    pub token: Token,
    pub name: String,
    pub count: u64,
}

/// The hits on one resource under one token, as a value of the model.
pub struct AccessView {
    pub token: Token,
    pub name: Seq<char>,
    pub count: u64,
}

impl View for Access {
    type V = AccessView;

    open spec fn view(&self) -> AccessView {
        AccessView { token: self.token, name: self.name@, count: self.count }
    }
}

/// The hits of one window, one entry for each pair of token and resource, in
/// the order in which the pairs were first hit.
pub struct AccessWindow {
    pub entries: Vec<Access>,
}

/// The entries, as values of the model.
pub open spec fn tallies(entries: Seq<Access>) -> Seq<AccessView> {
    entries.map_values(|a: Access| a@)
}

/// Whether the window has an entry for the pair.
pub open spec fn holds(entries: Seq<AccessView>, token: Token, name: Seq<char>) -> bool {
    exists|i: int|
        0 <= i < entries.len() && (#[trigger] entries[i]).token == token && entries[i].name
            == name
}

/// The position of the entry for a pair that the window holds.
pub open spec fn slot(entries: Seq<AccessView>, token: Token, name: Seq<char>) -> int {
    choose|i: int|
        0 <= i < entries.len() && (#[trigger] entries[i]).token == token && entries[i].name
            == name
}

/// The number of hits counted for a pair; none where it has no entry.
pub open spec fn tally(entries: Seq<AccessView>, token: Token, name: Seq<char>) -> nat {
    if holds(entries, token, name) {
        entries[slot(entries, token, name)].count as nat
    } else {
        0
    }
}

/// No pair has two entries.
pub open spec fn distinct_pairs(entries: Seq<AccessView>) -> bool {
    forall|i: int, j: int|
        0 <= i < j < entries.len() ==> !((#[trigger] entries[i]).token == (
        #[trigger] entries[j]).token && entries[i].name == entries[j].name)
}

/// The entries after one more hit on a pair: its entry counts one more, or,
/// where it had none, a new entry with one hit goes to the end.
pub open spec fn bumped(entries: Seq<AccessView>, token: Token, name: Seq<char>) -> Seq<
    AccessView,
> {
    if holds(entries, token, name) {
        let i = slot(entries, token, name);
        entries.update(i, AccessView { count: (entries[i].count + 1) as u64, ..entries[i] })
    } else {
        entries.push(AccessView { token, name, count: 1 })
    }
}

/// Whether a hit counts: the store has a link for the resource, the link has
/// this very token, and it is not exempt from the audit.
pub open spec fn counts(store: Map<Seq<char>, PrivateLink>, token: Token, name: Seq<char>) -> bool {
    store.contains_key(name) && store[name].id == token && !store[name].skip_sms
}

/// One line of a digest: a line break, the resource, a colon, a blank and
/// the number of hits.
pub open spec fn line_of(entry: AccessView) -> Seq<char> {
    seq!['\n'] + entry.name + seq![':', ' '] + decimal_text(entry.count as nat)
}

/// The lines of the entries, in order.
pub open spec fn lines_of(entries: Seq<AccessView>) -> Seq<Seq<char>> {
    entries.map_values(|e: AccessView| line_of(e))
}

/// `sorted` with `entry` put in after every entry that has at least as many
/// hits.
pub open spec fn placed(sorted: Seq<AccessView>, entry: AccessView) -> Seq<AccessView>
    decreases sorted.len(),
{
    if sorted.len() == 0 {
        seq![entry]
    } else if sorted.last().count >= entry.count {
        sorted.push(entry)
    } else {
        placed(sorted.drop_last(), entry).push(sorted.last())
    }
}

/// The entries ranked by their hits, most first; entries with as many hits
/// keep their order.
pub open spec fn ranked(entries: Seq<AccessView>) -> Seq<AccessView>
    decreases entries.len(),
{
    if entries.len() == 0 {
        Seq::empty()
    } else {
        placed(ranked(entries.drop_last()), entries.last())
    }
}

/// The message that grows from `message` by `lines`: each line is added as
/// long as message and line together stay within the limit less the length
/// of the marker; at the first line that does not fit, the marker is added
/// and the rest is left out.
pub open spec fn composed(message: Seq<char>, lines: Seq<Seq<char>>) -> Seq<char>
    decreases lines.len(),
{
    if lines.len() == 0 {
        message
    } else if message.len() + lines[0].len() > SMS_LIMIT - 4 {
        message + MARKER@
    } else {
        composed(message + lines[0], lines.skip(1))
    }
}

/// The digest of a window: the preamble and then a line for each entry, most
/// hits first, as far as they fit.
pub open spec fn digest_text(entries: Seq<AccessView>) -> Seq<char> {
    composed(PREAMBLE@, lines_of(ranked(entries)))
}

/// The lengths of `lines`, added up.
pub open spec fn total_len(lines: Seq<Seq<char>>) -> nat
    decreases lines.len(),
{
    if lines.len() == 0 {
        0
    } else {
        lines[0].len() + total_len(lines.skip(1))
    }
}

/// All of `lines`, one after the other.
pub open spec fn concatenated(lines: Seq<Seq<char>>) -> Seq<char>
    decreases lines.len(),
{
    if lines.len() == 0 {
        Seq::empty()
    } else {
        lines[0] + concatenated(lines.skip(1))
    }
}

/// Digest truncation. A message that starts within the limit less the
/// length of the marker never grows beyond the limit. Where all lines fit it
/// is the start followed by all of them; where they do not, it ends in the
/// marker.
pub proof fn composed_within_limit(message: Seq<char>, lines: Seq<Seq<char>>)
    requires
        message.len() <= SMS_LIMIT - 4,
    ensures
        composed(message, lines).len() <= SMS_LIMIT,
        message.len() + total_len(lines) <= SMS_LIMIT - 4 ==> composed(message, lines) == message
            + concatenated(lines),
        message.len() + total_len(lines) > SMS_LIMIT - 4 ==> MARKER@.is_suffix_of(
            composed(message, lines),
        ),
    decreases lines.len(),
{
    reveal_strlit("\n...");
    if lines.len() == 0 {
        assert(message + concatenated(lines) =~= message);
    } else if message.len() + lines[0].len() > SMS_LIMIT - 4 {
        let out = message + MARKER@;
        assert(out.skip(out.len() - MARKER@.len()) =~= MARKER@);
    } else {
        composed_within_limit(message + lines[0], lines.skip(1));
        assert((message + lines[0]) + concatenated(lines.skip(1)) =~= message + concatenated(
            lines,
        ));
    }
}

/// Digest truncation, for the digest of a window: it never exceeds the
/// limit, and it ends in the marker as soon as the preamble and the lines of
/// all entries together would exceed the limit less the length of the marker.
pub proof fn digest_within_limit(entries: Seq<AccessView>)
    ensures
        digest_text(entries).len() <= SMS_LIMIT,
        PREAMBLE@.len() + total_len(lines_of(ranked(entries))) > SMS_LIMIT - 4
            ==> MARKER@.is_suffix_of(digest_text(entries)),
        PREAMBLE@.len() + total_len(lines_of(ranked(entries))) <= SMS_LIMIT - 4 ==> digest_text(
            entries,
        ) == PREAMBLE@ + concatenated(lines_of(ranked(entries))),
{
    reveal_strlit("Caution!");
    composed_within_limit(PREAMBLE@, lines_of(ranked(entries)));
}

/// Whether the hits do not rise from one entry to the next.
pub open spec fn descending(entries: Seq<AccessView>) -> bool {
    forall|i: int, j: int|
        0 <= i < j < entries.len() ==> (#[trigger] entries[i]).count >= (
        #[trigger] entries[j]).count
}

/// Putting an entry into descending entries leaves them descending, and
/// holding what they held and the entry.
proof fn placed_is_descending(sorted: Seq<AccessView>, entry: AccessView)
    requires
        descending(sorted),
    ensures
        descending(placed(sorted, entry)),
        placed(sorted, entry).len() == sorted.len() + 1,
        placed(sorted, entry).to_multiset() == sorted.to_multiset().insert(entry),
        forall|i: int|
            0 <= i < placed(sorted, entry).len() ==> (#[trigger] placed(sorted, entry)[i]).count
                >= entry.count || (sorted.len() > 0 && placed(sorted, entry)[i].count
                >= sorted.last().count),
    decreases sorted.len(),
{
    broadcast use vstd::seq_lib::group_to_multiset_ensures;

    if sorted.len() == 0 {
        assert(seq![entry] =~= Seq::<AccessView>::empty().push(entry));
    } else if sorted.last().count >= entry.count {
    } else {
        let front = sorted.drop_last();
        placed_is_descending(front, entry);
        let inner = placed(front, entry);
        let out = inner.push(sorted.last());
        assert forall|i: int, j: int| 0 <= i < j < out.len() implies (#[trigger] out[i]).count >= (
        #[trigger] out[j]).count by {
            if j == out.len() - 1 {
                assert(out[i] == inner[i]);
                if front.len() > 0 {
                    assert(front.last() == sorted[sorted.len() - 2]);
                }
            }
        }
        assert(sorted =~= front.push(sorted.last()));
        assert(out.to_multiset() =~= sorted.to_multiset().insert(entry));
    }
}

/// The ranked entries are the entries, in descending order of their hits.
pub proof fn ranked_is_descending(entries: Seq<AccessView>)
    ensures
        descending(ranked(entries)),
        ranked(entries).len() == entries.len(),
        ranked(entries).to_multiset() == entries.to_multiset(),
    decreases entries.len(),
{
    broadcast use vstd::seq_lib::group_to_multiset_ensures;

    if entries.len() > 0 {
        ranked_is_descending(entries.drop_last());
        placed_is_descending(ranked(entries.drop_last()), entries.last());
        assert(entries =~= entries.drop_last().push(entries.last()));
    } else {
        assert(entries =~= Seq::<AccessView>::empty());
    }
}

/// Whether a digest is due after this much time, in nanoseconds, since the
/// last one: after more than five minutes.
pub fn digest_due(elapsed_nanos: u128) -> (r: bool)
    ensures
        r == (elapsed_nanos > WINDOW_NANOS),
{
    elapsed_nanos > WINDOW_NANOS
}

/// Putting an entry in at `at` is `placed`, where `at` is the place behind
/// the last entry with at least as many hits.
proof fn placed_is_insert(sorted: Seq<AccessView>, entry: AccessView, at: int)
    requires
        0 <= at <= sorted.len(),
        forall|j: int| at <= j < sorted.len() ==> (#[trigger] sorted[j]).count < entry.count,
        at > 0 ==> sorted[at - 1].count >= entry.count,
    ensures
        placed(sorted, entry) == sorted.insert(at, entry),
    decreases sorted.len(),
{
    if sorted.len() == 0 {
        assert(sorted.insert(at, entry) =~= seq![entry]);
    } else if at == sorted.len() {
        assert(sorted.insert(at, entry) =~= sorted.push(entry));
    } else {
        let front = sorted.drop_last();
        assert(sorted.last().count < entry.count);
        assert forall|j: int| at <= j < front.len() implies (#[trigger] front[j]).count
            < entry.count by {
            assert(front[j] == sorted[j]);
        }
        placed_is_insert(front, entry, at);
        assert(front.insert(at, entry).push(sorted.last()) =~= sorted.insert(at, entry));
    }
}

/// A copy of an entry.
fn copy_of(a: &Access) -> (r: Access)
    ensures
        r@ == a@,
{
    Access { token: a.token, name: a.name.clone(), count: a.count }
}

/// The entries ranked by their hits, most first.
pub fn rank(entries: &Vec<Access>) -> (r: Vec<Access>)
    ensures
        tallies(r@) == ranked(tallies(entries@)),
{
    let mut out: Vec<Access> = Vec::new();
    let ghost all = tallies(entries@);
    let mut i: usize = 0;
    proof {
        assert(all.take(0) =~= Seq::<AccessView>::empty());
        assert(tallies(out@) =~= Seq::<AccessView>::empty());
    }
    while i < entries.len()
        invariant
            i <= entries.len(),
            all == tallies(entries@),
            out.len() == i,
            tallies(out@) == ranked(all.take(i as int)),
        decreases entries.len() - i,
    {
        let entry = copy_of(&entries[i]);
        let mut at: usize = out.len();
        while at > 0 && out[at - 1].count < entry.count
            invariant
                at <= out.len(),
                forall|j: int|
                    at <= j < out.len() ==> (#[trigger] tallies(out@)[j]).count < entry.count,
            decreases at,
        {
            at -= 1;
        }
        proof {
            let sorted = tallies(out@);
            if at > 0 {
                assert(sorted[at - 1].count >= entry.count);
            }
            placed_is_insert(sorted, entry@, at as int);
            assert(all.take(i + 1).drop_last() =~= all.take(i as int));
            assert(all.take(i + 1).last() == entry@);
        }
        let ghost before = tallies(out@);
        out.insert(at, entry);
        assert(tallies(out@) =~= before.insert(at as int, entry@));
        i += 1;
    }
    proof {
        assert(all.take(entries.len() as int) =~= all);
    }
    out
}

/// The line of a digest for one entry.
pub fn entry_line(entry: &Access) -> (r: Vec<char>)
    ensures
        r@ == line_of(entry@),
{
    let mut out: Vec<char> = Vec::new();
    out.push('\n');
    append_str(&mut out, entry.name.as_str());
    out.push(':');
    out.push(' ');
    push_decimal(&mut out, entry.count);
    assert(out@ =~= line_of(entry@));
    out
}

/// The message that grows from the preamble by the lines of `entries`, in
/// their order, as far as they fit.
pub fn compose(entries: &Vec<Access>) -> (r: String)
    ensures
        r@ == composed(PREAMBLE@, lines_of(tallies(entries@))),
        r@.len() <= SMS_LIMIT,
{
    let ghost lines = lines_of(tallies(entries@));
    let mut message = chars_of(PREAMBLE);
    proof {
        reveal_strlit("Caution!");
        reveal_strlit("\n...");
        composed_within_limit(PREAMBLE@, lines);
        assert(lines.skip(0) =~= lines);
    }
    let mut i: usize = 0;
    while i < entries.len()
        invariant
            i <= entries.len(),
            lines == lines_of(tallies(entries@)),
            message.len() <= SMS_LIMIT - 4,
            composed(PREAMBLE@, lines) == composed(message@, lines.skip(i as int)),
            composed(PREAMBLE@, lines).len() <= SMS_LIMIT,
        decreases entries.len() - i,
    {
        let next = entry_line(&entries[i]);
        proof {
            assert(lines.skip(i as int)[0] == next@);
            assert(lines.skip(i as int).skip(1) =~= lines.skip(i + 1));
        }
        if next.len() > SMS_LIMIT - 4 - message.len() {
            // trim after single message length
            append_str(&mut message, MARKER);
            return string_of(&message);
        }
        append_chars(&mut message, &next);
        i += 1;
    }
    assert(lines.skip(entries.len() as int) =~= Seq::<Seq<char>>::empty());
    string_of(&message)
}

impl AccessWindow {
    /// The entries of the window, as values of the model.
    pub open spec fn view(&self) -> Seq<AccessView> {
        tallies(self.entries@)
    }

    /// No pair has two entries.
    pub open spec fn wf(&self) -> bool {
        distinct_pairs(self@)
    }

    /// A window without hits.
    pub fn new() -> (r: Self)
        ensures
            r.wf(),
            r@ == Seq::<AccessView>::empty(),
    {
        let r = AccessWindow { entries: Vec::new() };
        assert(r@ =~= Seq::<AccessView>::empty());
        r
    }

    /// Whether the window has no hits.
    pub fn is_empty(&self) -> (r: bool)
        ensures
            r == (self@.len() == 0),
    {
        self.entries.len() == 0
    }

    /// The position of the entry for a pair, if the window has one.
    pub fn find(&self, token: Token, name: &str) -> (r: Option<usize>)
        requires
            self.wf(),
        ensures
            r is Some <==> holds(self@, token, name@),
            r matches Some(i) ==> i < self@.len() && slot(self@, token, name@) == i,
    {
        let key = String::from_str(name);
        let mut i: usize = 0;
        while i < self.entries.len()
            invariant
                i <= self.entries.len(),
                key@ == name@,
                self.wf(),
                forall|j: int|
                    0 <= j < i ==> !((#[trigger] self@[j]).token == token && self@[j].name
                        == name@),
            decreases self.entries.len() - i,
        {
            assert(self@[i as int] == self.entries@[i as int]@);
            if self.entries[i].token.bits == token.bits && self.entries[i].name == key {
                proof {
                    let found = slot(self@, token, name@);
                    assert(self@[i as int].token == token && self@[i as int].name == name@);
                    assert(self@[found].token == token && self@[found].name == name@);
                    assert(found == i);
                }
                return Some(i);
            }
            i += 1;
        }
        None
    }

    /// The number of hits counted for a pair.
    pub fn count(&self, token: Token, name: &str) -> (r: u64)
        requires
            self.wf(),
        ensures
            r == tally(self@, token, name@),
    {
        match self.find(token, name) {
            Some(i) => {
                assert(self@[i as int] == self.entries@[i as int]@);
                self.entries[i].count
            },
            None => 0,
        }
    }

    /// Takes in one hit, and tells whether it counts. A hit counts only if
    /// the store, as it is now, has a link for the resource with this very
    /// token and without exemption; any other hit is discarded and leaves the
    /// window as it is.
    pub fn record(&mut self, store: &LinkStore, token: Token, name: &str) -> (counted: bool)
        requires
            old(self).wf(),
            store.wf(),
            tally(old(self)@, token, name@) < u64::MAX,
        ensures
            final(self).wf(),
            counted == counts(store@, token, name@),
            final(self)@ == if counted {
                bumped(old(self)@, token, name@)
            } else {
                old(self)@
            },
            tally(final(self)@, token, name@) == tally(old(self)@, token, name@) + if counted {
                1nat
            } else {
                0nat
            },
    {
        let valid = match store.get(name) {
            Some(link) => link.id.bits == token.bits && !link.skip_sms,
            None => false,
        };
        if !valid {
            return false;
        }
        let ghost before = self@;
        match self.find(token, name) {
            Some(i) => {
                assert(before[i as int] == self.entries@[i as int]@);
                let entry = Access {
                    token,
                    name: String::from_str(name),
                    count: self.entries[i].count + 1,
                };
                self.entries.set(i, entry);
                proof {
                    assert(self@ =~= bumped(before, token, name@));
                    assert forall|a: int, b: int| 0 <= a < b < self@.len() implies !((
                    #[trigger] self@[a]).token == (#[trigger] self@[b]).token && self@[a].name
                        == self@[b].name) by {
                        assert(self@[a].token == before[a].token && self@[a].name
                            == before[a].name);
                        assert(self@[b].token == before[b].token && self@[b].name
                            == before[b].name);
                    }
                    assert(self@[i as int].token == token && self@[i as int].name == name@);
                    let found = slot(self@, token, name@);
                    assert(self@[found].token == token && self@[found].name == name@);
                    assert(found == i);
                }
            },
            None => {
                self.entries.push(Access { token, name: String::from_str(name), count: 1 });
                proof {
                    assert(self@ =~= bumped(before, token, name@));
                    let last = self@.len() - 1;
                    assert(self@[last].token == token && self@[last].name == name@);
                    assert forall|a: int, b: int| 0 <= a < b < self@.len() implies !((
                    #[trigger] self@[a]).token == (#[trigger] self@[b]).token && self@[a].name
                        == self@[b].name) by {
                        assert(self@[a] == before[a]);
                        if b < last {
                            assert(self@[b] == before[b]);
                        }
                    }
                    let found = slot(self@, token, name@);
                    assert(self@[found].token == token && self@[found].name == name@);
                    assert(found == last);
                }
            },
        }
        true
    }

    /// The digest of the window as it is.
    pub fn digest(&self) -> (r: String)
        ensures
            r@ == digest_text(self@),
            r@.len() <= SMS_LIMIT,
    {
        let sorted = rank(&self.entries);
        compose(&sorted)
    }

    /// Closes the window: where it has hits, their digest is handed out for
    /// dispatch and the window starts anew; an empty window gives nothing.
    pub fn take_digest(&mut self) -> (r: Option<String>)
        ensures
            final(self).wf(),
            final(self)@ == Seq::<AccessView>::empty(),
            match r {
                Some(message) => old(self)@.len() > 0 && message@ == digest_text(old(self)@)
                    && message@.len() <= SMS_LIMIT,
                None => old(self)@.len() == 0,
            },
    {
        if self.is_empty() {
            assert(self@ =~= Seq::<AccessView>::empty());
            return None;
        }
        let message = self.digest();
        self.entries = Vec::new();
        assert(self@ =~= Seq::<AccessView>::empty());
        Some(message)
    }
}

} // verus!
