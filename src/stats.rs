//! Recorded command statistics: entries, their ranking by count, and the
//! options that pick which of them a table shows.

use crate::column::{CmdKind, TableColumn};
use vstd::multiset::Multiset;
use vstd::prelude::*;
use vstd::seq_lib::{to_multiset_build, to_multiset_insert};

verus! {

broadcast use {vstd::seq_lib::group_to_multiset_ensures, vstd::multiset::group_multiset_axioms};

/// An entry as a value.
pub struct EntryView {
    pub command: Seq<char>,
    pub count: u32,
    pub kind: CmdKind,
    pub dirs: Seq<(Seq<char>, u32)>,
}

/// What was recorded of one command: its name, how often it ran, what kind
/// of command it is, and how often it ran in each directory.
#[derive(Debug)]
pub struct Entry {
    command: String,
    count: u32,
    kind: CmdKind,
    dirs: Vec<(String, u32)>,
}

impl View for Entry {
    type V = EntryView;

    closed spec fn view(&self) -> EntryView {
        EntryView {
            command: self.command@,
            count: self.count,
            kind: self.kind,
            dirs: self.dirs@.map_values(|d: (String, u32)| (d.0@, d.1)),
        }
    }
}

/// Whether no directory is listed twice.
pub open spec fn distinct_dirs(d: Seq<(Seq<char>, u32)>) -> bool {
    forall|i: int, j: int| 0 <= i < j < d.len() ==> (#[trigger] d[i]).0 != (#[trigger] d[j]).0
}

impl Entry {
    /// Each directory is listed once.
    #[verifier::type_invariant]
    spec fn dirs_listed_once(&self) -> bool {
        distinct_dirs(self.dirs@.map_values(|d: (String, u32)| (d.0@, d.1)))
    }

    /// An entry for `command`, run `count` times, of kind `kind`, with its
    /// runs per directory, each directory listed once.
    pub fn new(command: String, count: u32, kind: CmdKind, dirs: Vec<(String, u32)>) -> (r: Entry)
        requires
            distinct_dirs(dirs@.map_values(|d: (String, u32)| (d.0@, d.1))),
        ensures
            r@.command == command@,
            r@.count == count,
            r@.kind == kind,
            r@.dirs == dirs@.map_values(|d: (String, u32)| (d.0@, d.1)),
    {
        Entry { command, count, kind, dirs }
    }

    /// The command's name.
    pub fn command(&self) -> (r: &str)
        ensures
            r@ == self@.command,
    {
        self.command.as_str()
    }

    /// How often the command ran.
    pub fn count(&self) -> (r: u32)
        ensures
            r == self@.count,
    {
        self.count
    }

    /// The kind of command.
    pub fn kind(&self) -> (r: CmdKind)
        ensures
            r == self@.kind,
    {
        self.kind
    }

    /// The directories the command ran in most, most runs first: at most
    /// `TOP_DIRS` of them.
    #[verifier::rlimit(40)]
    pub fn top_dirs(&self) -> (r: Vec<(String, u32)>)
        ensures
            exists|s: Seq<(Seq<char>, u32)>|
                s.to_multiset() == self@.dirs.to_multiset() && dirs_descending(s) && #[trigger] dirs_view(r@)
                    == s.take(
                    if s.len() < TOP_DIRS {
                        s.len() as int
                    } else {
                        TOP_DIRS as int
                    },
                ),
    {
        let ghost orig = dirs_view(self.dirs@);
        assert(orig == self@.dirs);
        let mut sorted: Vec<(String, u32)> = Vec::new();
        let mut k: usize = 0;
        assert(dirs_view(sorted@) =~= Seq::<(Seq<char>, u32)>::empty());
        assert(orig.take(0) =~= Seq::<(Seq<char>, u32)>::empty());
        while k < self.dirs.len()
            invariant
                orig == dirs_view(self.dirs@),
                k <= orig.len(),
                dirs_view(sorted@).to_multiset() == orig.take(k as int).to_multiset(),
                dirs_descending(dirs_view(sorted@)),
            decreases orig.len() - k,
        {
            let name = self.dirs[k].0.clone();
            let runs = self.dirs[k].1;
            let ghost item = (name@, runs);
            assert(item == orig[k as int]);
            let ghost sv = dirs_view(sorted@);
            let mut j: usize = 0;
            while j < sorted.len() && sorted[j].1 >= runs
                invariant
                    j <= sorted@.len(),
                    sv == dirs_view(sorted@),
                    forall|i: int| 0 <= i < j ==> (#[trigger] sv[i]).1 >= runs,
                decreases sorted.len() - j,
            {
                j = j + 1;
            }
            sorted.insert(j, (name, runs));
            proof {
                let nv = dirs_view(sorted@);
                assert(nv =~= sv.insert(j as int, item));
                to_multiset_insert(sv, j as int, item);
                assert(orig.take(k + 1) =~= orig.take(k as int).push(item));
                to_multiset_build(orig.take(k as int), item);
                assert forall|i: int| 0 <= i < nv.len() - 1 implies (#[trigger] nv[i]).1 >= nv[i + 1].1 by {
                    if i + 1 < j {
                        assert(sv[i].1 >= sv[i + 1].1);
                    } else if i + 1 == j {
                    } else if i == j {
                    } else {
                        assert(sv[i - 1].1 >= sv[i].1);
                    }
                }
            }
            k = k + 1;
        }
        assert(orig.take(k as int) =~= orig);
        let ghost s = dirs_view(sorted@);
        sorted.truncate(TOP_DIRS);
        assert(dirs_view(sorted@) =~= s.take(
            if s.len() < TOP_DIRS {
                s.len() as int
            } else {
                TOP_DIRS as int
            },
        ));
        sorted
    }

    /// How often the command ran in each directory; each is listed once.
    pub fn dirs(&self) -> (r: &Vec<(String, u32)>)
        ensures
            r@.map_values(|d: (String, u32)| (d.0@, d.1)) == self@.dirs,
            distinct_dirs(self@.dirs),
    {
        proof {
            use_type_invariant(self);
        }
        &self.dirs
    }
}

/// Where an entry run `count` times goes among entries already ranked by
/// count, looking from position `j` on: before the first that ran no more
/// often, else at the end.
pub open spec fn slot_from(t: Seq<EntryView>, count: u32, j: int) -> int
    decreases t.len() - j,
{
    if j >= t.len() {
        t.len() as int
    } else if t[j].count <= count {
        j
    } else {
        slot_from(t, count, j + 1)
    }
}

/// The entries of `s` ranked by count, most used first, entries of equal
/// count in the order `s` gives them: each entry goes before the later ones
/// of `s`, once ranked, that ran no more often than it.
pub open spec fn ranked_by_count(s: Seq<EntryView>) -> Seq<EntryView>
    decreases s.len(),
{
    if s.len() == 0 {
        s
    } else {
        let rest = ranked_by_count(s.drop_first());
        rest.insert(slot_from(rest, s[0].count, 0), s[0])
    }
}

/// The slot of an entry run `count` times lies after every entry that ran
/// more often and, if it is not the end, at one that ran no more often.
proof fn lemma_slot_from(t: Seq<EntryView>, count: u32, j: int)
    requires
        0 <= j <= t.len(),
        forall|i: int| 0 <= i < j ==> (#[trigger] t[i]).count > count,
    ensures
        j <= slot_from(t, count, j) <= t.len(),
        forall|i: int| 0 <= i < slot_from(t, count, j) ==> (#[trigger] t[i]).count > count,
        slot_from(t, count, j) < t.len() ==> t[slot_from(t, count, j)].count <= count,
    decreases t.len() - j,
{
    if j < t.len() && t[j].count > count {
        lemma_slot_from(t, count, j + 1);
    }
}

/// Ranking by count keeps the same entries.
pub proof fn lemma_ranked_by_count_permutes(s: Seq<EntryView>)
    ensures
        ranked_by_count(s).to_multiset() == s.to_multiset(),
        ranked_by_count(s).len() == s.len(),
    decreases s.len(),
{
    if s.len() > 0 {
        let rest = ranked_by_count(s.drop_first());
        lemma_ranked_by_count_permutes(s.drop_first());
        lemma_slot_from(rest, s[0].count, 0);
        to_multiset_insert(rest, slot_from(rest, s[0].count, 0), s[0]);
        assert(s =~= s.drop_first().insert(0, s[0]));
        to_multiset_insert(s.drop_first(), 0, s[0]);
    }
}

/// Ranking by count leaves each entry run at least as often as the next.
#[verifier::rlimit(40)]
pub proof fn lemma_ranked_by_count_descending(s: Seq<EntryView>)
    ensures
        by_count_descending(ranked_by_count(s)),
    decreases s.len(),
{
    if s.len() > 0 {
        let rest = ranked_by_count(s.drop_first());
        lemma_ranked_by_count_descending(s.drop_first());
        let k = slot_from(rest, s[0].count, 0);
        lemma_slot_from(rest, s[0].count, 0);
        let e = s[0];
        let nv = rest.insert(k, e);
        assert forall|i: int| 0 <= i < nv.len() - 1 implies (#[trigger] nv[i]).count >= nv[i + 1].count by {
            if i + 1 < k {
                assert(nv[i] == rest[i] && nv[i + 1] == rest[i + 1]);
                assert(rest[i].count >= rest[i + 1].count);
            } else if i + 1 == k {
                assert(nv[i] == rest[i] && nv[i + 1] == e);
            } else if i == k {
                assert(nv[i] == e && nv[i + 1] == rest[i]);
            } else {
                assert(nv[i] == rest[i - 1] && nv[i + 1] == rest[i]);
                assert(rest[i - 1].count >= rest[i].count);
            }
        }
    }
}

/// The entries of `s` run exactly `count` times, in their order.
pub open spec fn with_count(s: Seq<EntryView>, count: u32) -> Seq<EntryView>
    decreases s.len(),
{
    if s.len() == 0 {
        s
    } else if s[0].count == count {
        seq![s[0]] + with_count(s.drop_first(), count)
    } else {
        with_count(s.drop_first(), count)
    }
}

/// Picking the entries of one count from joined sequences joins the picks.
proof fn lemma_with_count_add(a: Seq<EntryView>, b: Seq<EntryView>, count: u32)
    ensures
        with_count(a + b, count) == with_count(a, count) + with_count(b, count),
    decreases a.len(),
{
    if a.len() == 0 {
        assert(a + b =~= b);
    } else {
        lemma_with_count_add(a.drop_first(), b, count);
        assert((a + b).drop_first() =~= a.drop_first() + b);
        assert((a + b)[0] == a[0]);
        if a[0].count == count {
            assert(seq![a[0]] + with_count(a.drop_first(), count) + with_count(b, count) =~= seq![a[0]] + (
            with_count(a.drop_first(), count) + with_count(b, count)));
        }
    }
}

/// No entry of a count is picked where every entry ran more often.
proof fn lemma_with_count_none(a: Seq<EntryView>, count: u32)
    requires
        forall|i: int| 0 <= i < a.len() ==> (#[trigger] a[i]).count > count,
    ensures
        with_count(a, count) == Seq::<EntryView>::empty(),
    decreases a.len(),
{
    if a.len() > 0 {
        assert forall|i: int| 0 <= i < a.drop_first().len() implies (#[trigger] a.drop_first()[i]).count > count by {
            assert(a.drop_first()[i] == a[i + 1]);
        }
        lemma_with_count_none(a.drop_first(), count);
    }
}

/// Ranking by count is stable: for every count, the entries run that often
/// come out in the order they went in.
pub proof fn lemma_ranked_by_count_stable(s: Seq<EntryView>, count: u32)
    ensures
        with_count(ranked_by_count(s), count) == with_count(s, count),
    decreases s.len(),
{
    if s.len() > 0 {
        let e = s[0];
        let rest = ranked_by_count(s.drop_first());
        lemma_ranked_by_count_stable(s.drop_first(), count);
        lemma_slot_from(rest, e.count, 0);
        let k = slot_from(rest, e.count, 0);
        assert(rest.insert(k, e) =~= rest.take(k) + (seq![e] + rest.skip(k)));
        assert(rest =~= rest.take(k) + rest.skip(k));
        lemma_with_count_add(rest.take(k), seq![e] + rest.skip(k), count);
        lemma_with_count_add(rest.take(k), rest.skip(k), count);
        lemma_with_count_add(seq![e], rest.skip(k), count);
        assert(seq![e].drop_first() =~= Seq::<EntryView>::empty());
        assert(seq![e][0] == e);
        assert(with_count(seq![e].drop_first(), count) == Seq::<EntryView>::empty());
        assert(ranked_by_count(s) == rest.insert(k, e));
        if e.count == count {
            assert(with_count(seq![e], count) =~= seq![e]);
            assert forall|i: int| 0 <= i < rest.take(k).len() implies (#[trigger] rest.take(k)[i]).count > count by {
                assert(rest.take(k)[i] == rest[i]);
            }
            lemma_with_count_none(rest.take(k), count);
            assert(with_count(rest.take(k), count) + with_count(rest.skip(k), count) =~= with_count(rest.skip(k), count));
            assert(Seq::<EntryView>::empty() + (seq![e] + with_count(rest.skip(k), count)) =~= seq![e] + with_count(rest.skip(k), count));
            assert(with_count(s, count) == seq![e] + with_count(s.drop_first(), count));
        } else {
            assert(with_count(seq![e], count) =~= Seq::<EntryView>::empty());
            assert(Seq::<EntryView>::empty() + with_count(rest.skip(k), count) =~= with_count(rest.skip(k), count));
            assert(with_count(seq![e], count) + with_count(rest.skip(k), count) =~= with_count(rest.skip(k), count));
            assert(with_count(s, count) == with_count(s.drop_first(), count));
        }
    }
}

/// Whether each entry ran at least as often as the next.
pub open spec fn by_count_descending(s: Seq<EntryView>) -> bool {
    forall|i: int| 0 <= i < s.len() - 1 ==> (#[trigger] s[i]).count >= s[i + 1].count
}

/// Whether each directory saw at least as many runs as the next.
pub open spec fn dirs_descending(s: Seq<(Seq<char>, u32)>) -> bool {
    forall|i: int| 0 <= i < s.len() - 1 ==> (#[trigger] s[i]).1 >= s[i + 1].1
}

/// The directories as text values.
pub open spec fn dirs_view(d: Seq<(String, u32)>) -> Seq<(Seq<char>, u32)> {
    d.map_values(|x: (String, u32)| (x.0@, x.1))
}

/// The most directories the detail view lists.
pub const TOP_DIRS: usize = 10;

/// The items of the first `n` of `s` that `keep` marks, in their order.
pub open spec fn kept_by<A>(s: Seq<A>, keep: Seq<bool>, n: nat) -> Seq<A>
    decreases n,
{
    if n == 0 {
        Seq::empty()
    } else {
        let rest = kept_by(s, keep, (n - 1) as nat);
        if keep[n - 1] {
            rest.push(s[n - 1])
        } else {
            rest
        }
    }
}

/// Marks after the first `n` items do not change which of them are kept.
proof fn lemma_kept_by_prefix<A>(s: Seq<A>, keep: Seq<bool>, n: nat)
    requires
        n < keep.len(),
    ensures
        kept_by(s, keep, n) == kept_by(s, keep.drop_last(), n),
    decreases n,
{
    if n > 0 {
        lemma_kept_by_prefix(s, keep, (n - 1) as nat);
    }
}

/// Keeping marked items commutes with viewing them.
proof fn lemma_kept_by_view(s: Seq<Entry>, keep: Seq<bool>, n: nat)
    requires
        n <= s.len(),
    ensures
        kept_by(s, keep, n).map_values(|e: Entry| e@) == kept_by(s.map_values(|e: Entry| e@), keep, n),
    decreases n,
{
    if n > 0 {
        lemma_kept_by_view(s, keep, (n - 1) as nat);
        let rest = kept_by(s, keep, (n - 1) as nat);
        if keep[n - 1] {
            assert(rest.push(s[n - 1]).map_values(|e: Entry| e@) =~= rest.map_values(|e: Entry| e@).push(s[n - 1]@));
        }
    }
}

/// The recorded entries, in order.
#[derive(Debug)]
pub struct Entries(Vec<Entry>);

impl View for Entries {
    type V = Seq<EntryView>;

    closed spec fn view(&self) -> Seq<EntryView> {
        self.0@.map_values(|e: Entry| e@)
    }
}

impl Entries {
    /// The entries `entries`, in their order.
    pub fn new(entries: Vec<Entry>) -> (r: Entries)
        ensures
            r@ == entries@.map_values(|e: Entry| e@),
    {
        Entries(entries)
    }

    /// The number of entries.
    pub fn len(&self) -> (r: usize)
        ensures
            r == self@.len(),
    {
        self.0.len()
    }

    /// The entry at `i`.
    pub fn get(&self, i: usize) -> (r: &Entry)
        requires
            i < self@.len(),
        ensures
            r@ == self@[i as int],
    {
        &self.0[i]
    }

    /// The entries, in their order.
    pub fn into_vec(self) -> (r: Vec<Entry>)
        ensures
            r@.map_values(|e: Entry| e@) == self@,
    {
        self.0
    }

    /// Ranks the entries by count, most used first; entries of equal count
    /// keep their order.
    pub fn sort_entries(&mut self)
        ensures
            final(self)@ == ranked_by_count(old(self)@),
            final(self)@.to_multiset() == old(self)@.to_multiset(),
            forall|c: u32| #[trigger] with_count(final(self)@, c) == with_count(old(self)@, c),
            by_count_descending(final(self)@),
    {
        let ghost orig = self@;
        let mut pending: Vec<Entry> = Vec::new();
        std::mem::swap(&mut pending, &mut self.0);
        let mut sorted: Vec<Entry> = Vec::new();
        assert(pending@.map_values(|e: Entry| e@) =~= orig);
        assert(orig.take(orig.len() as int) =~= orig);
        assert(orig.skip(orig.len() as int) =~= Seq::<EntryView>::empty());
        assert(sorted@.map_values(|e: Entry| e@) =~= Seq::<EntryView>::empty());
        while pending.len() > 0
            invariant
                pending@.len() <= orig.len(),
                pending@.map_values(|e: Entry| e@) == orig.take(pending@.len() as int),
                sorted@.map_values(|e: Entry| e@) == ranked_by_count(orig.skip(pending@.len() as int)),
            decreases pending.len(),
        {
            let ghost pv = pending@.map_values(|e: Entry| e@);
            let ghost sv = sorted@.map_values(|e: Entry| e@);
            let entry = pending.pop().unwrap();
            let ghost p = pending@.len() as int;
            proof {
                assert(pv =~= pending@.map_values(|e: Entry| e@).push(entry@));
                assert(pv[p] == entry@);
                assert(orig.skip(p).drop_first() =~= orig.skip(p + 1));
                assert(orig.skip(p)[0] == orig[p]);
                assert(pending@.map_values(|e: Entry| e@) =~= orig.take(p));
            }
            let mut j: usize = 0;
            while j < sorted.len() && sorted[j].count > entry.count
                invariant
                    j <= sorted@.len(),
                    sv == sorted@.map_values(|e: Entry| e@),
                    slot_from(sv, entry@.count, 0) == slot_from(sv, entry@.count, j as int),
                decreases sorted.len() - j,
            {
                j = j + 1;
            }
            assert(slot_from(sv, entry@.count, j as int) == j);
            sorted.insert(j, entry);
            assert(sorted@.map_values(|e: Entry| e@) =~= sv.insert(j as int, entry@));
        }
        assert(pending@.map_values(|e: Entry| e@) =~= Seq::<EntryView>::empty());
        assert(orig.skip(0) =~= orig);
        self.0 = sorted;
        proof {
            lemma_ranked_by_count_permutes(orig);
            lemma_ranked_by_count_descending(orig);
            assert forall|c: u32| #[trigger] with_count(ranked_by_count(orig), c) == with_count(orig, c) by {
                lemma_ranked_by_count_stable(orig, c);
            }
        }
    }

    /// Keeps the first `num` entries.
    pub fn prune_entries(&mut self, num: usize)
        ensures
            final(self)@ == old(self)@.take(
                if num < old(self)@.len() {
                    num as int
                } else {
                    old(self)@.len() as int
                },
            ),
    {
        let ghost before = self@;
        self.0.truncate(num);
        assert(self@ =~= before.take(
            if num < before.len() {
                num as int
            } else {
                before.len() as int
            },
        ));
    }

    /// The entries, as values of their own.
    pub closed spec fn items(&self) -> Seq<Entry> {
        self.0@
    }

    /// Keeps the entries that `predicate` accepts, in their order.
    pub fn retain_entries<F: Fn(&Entry) -> bool>(&mut self, predicate: F)
        requires
            forall|e: &Entry| #[trigger] predicate.requires((e,)),
        ensures
            exists|keep: Seq<bool>|
                keep.len() == old(self)@.len() && (forall|i: int|
                    0 <= i < keep.len() ==> #[trigger] predicate.ensures((&old(self).items()[i],), keep[i]))
                    && final(self)@ == #[trigger] kept_by(old(self)@, keep, keep.len()),
    {
        let ghost orig = self.0@;
        let ghost mut keep: Seq<bool> = Seq::empty();
        let mut i: usize = 0;
        assert(orig.skip(0) =~= orig);
        while i < self.0.len()
            invariant
                forall|e: &Entry| #[trigger] predicate.requires((e,)),
                keep.len() <= orig.len(),
                self.0@ == kept_by(orig, keep, keep.len()) + orig.skip(keep.len() as int),
                i as int == kept_by(orig, keep, keep.len()).len(),
                i <= self.0@.len(),
                self.0@.len() - i == orig.len() - keep.len(),
                forall|k: int| 0 <= k < keep.len() ==> #[trigger] predicate.ensures((&orig[k],), keep[k]),
            decreases self.0@.len() - i,
        {
            let ghost c = keep.len() as int;
            assert(self.0@[i as int] == orig[c]);
            let ghost before = self.0@;
            let b = predicate(&self.0[i]);
            proof {
                let ghost prior = keep;
                keep = keep.push(b);
                lemma_kept_by_prefix(orig, keep, c as nat);
                assert(keep.drop_last() =~= prior);
                assert(kept_by(orig, keep, c as nat) == kept_by(orig, prior, c as nat));
                assert(keep[c] == b);
                assert(orig.skip(c) =~= seq![orig[c]] + orig.skip(c + 1));
            }
            if b {
                i = i + 1;
                assert(self.0@ =~= kept_by(orig, keep, keep.len()) + orig.skip(keep.len() as int));
            } else {
                self.0.remove(i);
                assert(self.0@ =~= before.remove(i as int));
                assert(self.0@ =~= kept_by(orig, keep, keep.len()) + orig.skip(keep.len() as int));
            }
        }
        assert(orig.skip(keep.len() as int) =~= Seq::<Entry>::empty());
        assert(self.0@ =~= kept_by(orig, keep, keep.len()));
        proof {
            lemma_kept_by_view(orig, keep, keep.len());
            assert(old(self)@ == orig.map_values(|e: Entry| e@));
            assert(old(self).items() == orig);
            assert(self@ == kept_by(old(self)@, keep, keep.len()));
            assert(forall|k: int| 0 <= k < keep.len() ==> #[trigger] predicate.ensures((&old(self).items()[k],), keep[k]));
        }
    }

}

} // verus!
