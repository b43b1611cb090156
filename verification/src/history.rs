use crate::args::{Rabbit, RabbitView};
use crate::path::{final_segment, final_segment_of, join, join_of};
use crate::text::{contains, has_substring, starts_with};
use vstd::prelude::*;
use vstd::string::*;

verus! {

/// How many visits the history keeps: the newest ones.
pub const HISTORY_LIMIT: usize = 100;

/// A visit to a path.
#[derive(Debug, PartialEq, Eq)]
pub struct HistoryEntry {
    pub path: String,
    /// Orders the visits of one history: a later visit has a greater number.
    pub seq: u64,
}

/// What a `HistoryEntry` holds.
pub struct HistoryEntryView {
    pub path: Seq<char>,
    pub seq: u64,
}

impl View for HistoryEntry {
    type V = HistoryEntryView;

    open spec fn view(&self) -> HistoryEntryView {
        HistoryEntryView { path: self.path@, seq: self.seq }
    }
}

impl Clone for HistoryEntry {
    fn clone(&self) -> (r: Self)
        ensures
            r == *self,
    {
        HistoryEntry { path: self.path.clone(), seq: self.seq }
    }
}

/// What each visit of a list holds.
pub open spec fn entry_views(list: Seq<HistoryEntry>) -> Seq<HistoryEntryView> {
    list.map_values(|e: HistoryEntry| e@)
}

/// Each visit of `s` has a greater number than those before it.
pub open spec fn numbers_increase(s: Seq<HistoryEntryView>) -> bool {
    forall|i: int, j: int| 0 <= i < j < s.len() ==> s[i].seq < s[j].seq
}

/// Whether a query asks for a visited path. A query by path, which may be
/// given as seen from `cwd`, asks for the paths that start with it. A query by
/// name asks for the paths whose final segment holds the name.
pub open spec fn is_match(path: Seq<char>, query: RabbitView, cwd: Seq<char>) -> bool {
    match query {
        RabbitView::RequestPath(prefix) => join_of(cwd, prefix).is_prefix_of(path),
        RabbitView::RequestName(name) => is_named_like(path, name),
        RabbitView::Dir(name, _) => is_named_like(path, name),
        RabbitView::File(name, _) => is_named_like(path, name),
    }
}

/// The final segment of `path` holds `name`.
pub open spec fn is_named_like(path: Seq<char>, name: Seq<char>) -> bool {
    match final_segment_of(path) {
        Some(segment) => has_substring(segment, name),
        None => false,
    }
}

/// The visits of `s` that the query asks for, the newest first.
pub open spec fn recent_matches(s: Seq<HistoryEntryView>, query: RabbitView, cwd: Seq<char>) -> Seq<
    HistoryEntryView,
>
    decreases s.len(),
{
    if s.len() == 0 {
        s
    } else {
        let older = recent_matches(s.drop_last(), query, cwd);
        if is_match(s.last().path, query, cwd) {
            seq![s.last()] + older
        } else {
            older
        }
    }
}

/// The visits of `s` under the numbers 0, 1, 2 and so on.
pub open spec fn renumbered(s: Seq<HistoryEntryView>) -> Seq<HistoryEntryView> {
    Seq::new(s.len(), |i: int| HistoryEntryView { path: s[i].path, seq: i as u64 })
}

/// The visits that stay when one more comes in: all of them while there are
/// fewer than the limit, else all but the oldest. They are numbered anew
/// where no greater number is left for the next visit.
pub open spec fn retained(s: Seq<HistoryEntryView>) -> Seq<HistoryEntryView> {
    let room = if s.len() >= HISTORY_LIMIT {
        s.drop_first()
    } else {
        s
    };
    if room.len() > 0 && room.last().seq == u64::MAX {
        renumbered(room)
    } else {
        room
    }
}

/// The history `s` after a visit to `path`.
pub open spec fn recorded(s: Seq<HistoryEntryView>, path: Seq<char>) -> Seq<HistoryEntryView> {
    let kept = retained(s);
    let seq: u64 = if kept.len() == 0 {
        0
    } else {
        (kept.last().seq + 1) as u64
    };
    kept.push(HistoryEntryView { path, seq })
}

/// What a search gives: visits of the history that the query asks for, all of
/// them, and the later visit before the earlier one.
pub proof fn lemma_recent_matches(s: Seq<HistoryEntryView>, query: RabbitView, cwd: Seq<char>)
    ensures
        recent_matches(s, query, cwd).len() <= s.len(),
        forall|k: int|
            0 <= k < recent_matches(s, query, cwd).len() ==> s.contains(
                #[trigger] recent_matches(s, query, cwd)[k],
            ) && is_match(recent_matches(s, query, cwd)[k].path, query, cwd),
        forall|i: int|
            0 <= i < s.len() && is_match(s[i].path, query, cwd) ==> recent_matches(
                s,
                query,
                cwd,
            ).contains(#[trigger] s[i]),
        numbers_increase(s) ==> forall|a: int, b: int|
            0 <= a < b < recent_matches(s, query, cwd).len() ==> recent_matches(s, query, cwd)[a].seq
                > recent_matches(s, query, cwd)[b].seq,
    decreases s.len(),
{
    if s.len() > 0 {
        let q = s.drop_last();
        let older = recent_matches(q, query, cwd);
        let out = recent_matches(s, query, cwd);
        let hit = is_match(s.last().path, query, cwd);
        let shift: int = if hit {
            1
        } else {
            0
        };
        lemma_recent_matches(q, query, cwd);
        assert forall|k: int| 0 <= k < out.len() implies s.contains(#[trigger] out[k]) && is_match(
            out[k].path,
            query,
            cwd,
        ) by {
            if k >= shift {
                assert(out[k] == older[k - shift]);
                assert(q.contains(older[k - shift]));
                let j = choose|j: int| 0 <= j < q.len() && q[j] == older[k - shift];
                assert(s[j] == out[k]);
            } else {
                assert(s[s.len() - 1] == out[k]);
            }
        }
        assert forall|i: int| 0 <= i < s.len() && is_match(s[i].path, query, cwd) implies out.contains(
            #[trigger] s[i],
        ) by {
            if i < q.len() {
                assert(q[i] == s[i]);
                assert(older.contains(q[i]));
                let k = choose|k: int| 0 <= k < older.len() && older[k] == q[i];
                assert(out[k + shift] == s[i]);
            } else {
                assert(out[0] == s[i]);
            }
        }
        if numbers_increase(s) {
            assert(numbers_increase(q)) by {
                assert forall|i: int, j: int| 0 <= i < j < q.len() implies q[i].seq
                    < q[j].seq by {
                    assert(q[i] == s[i] && q[j] == s[j]);
                }
            }
            assert forall|a: int, b: int| 0 <= a < b < out.len() implies out[a].seq
                > out[b].seq by {
                assert(out[b] == older[b - shift]);
                if a >= shift {
                    assert(out[a] == older[a - shift]);
                } else {
                    assert(q.contains(older[b - shift]));
                    let j = choose|j: int| 0 <= j < q.len() && q[j] == older[b - shift];
                    assert(s[j] == out[b]);
                }
            }
        }
    }
}

/// A visit leaves the history within its limit and its numbers increasing.
pub proof fn lemma_recorded(s: Seq<HistoryEntryView>, path: Seq<char>)
    requires
        s.len() <= HISTORY_LIMIT,
        numbers_increase(s),
    ensures
        recorded(s, path).len() <= HISTORY_LIMIT,
        recorded(s, path).len() > 0,
        recorded(s, path).last().path == path,
        numbers_increase(recorded(s, path)),
{
    let room = if s.len() >= HISTORY_LIMIT {
        s.drop_first()
    } else {
        s
    };
    assert(numbers_increase(room)) by {
        assert forall|i: int, j: int| 0 <= i < j < room.len() implies room[i].seq
            < room[j].seq by {
            if s.len() >= HISTORY_LIMIT {
                assert(room[i] == s[i + 1] && room[j] == s[j + 1]);
            }
        }
    }
    let kept = retained(s);
    assert(numbers_increase(kept));
    assert(kept.len() > 0 ==> kept.last().seq < u64::MAX);
}

/// The paths that were visited, the oldest first. At most `HISTORY_LIMIT`
/// visits are kept, the newest ones, and their numbers increase.
pub struct HistoryLog {
    entries: Vec<HistoryEntry>,
}

impl View for HistoryLog {
    type V = Seq<HistoryEntryView>;

    closed spec fn view(&self) -> Seq<HistoryEntryView> {
        entry_views(self.entries@)
    }
}

/// The visits of `entries` under the numbers 0, 1, 2 and so on.
fn renumber(entries: &Vec<HistoryEntry>) -> (r: Vec<HistoryEntry>)
    ensures
        entry_views(r@) == renumbered(entry_views(entries@)),
{
    let mut out: Vec<HistoryEntry> = Vec::new();
    let mut at: usize = 0;
    while at < entries.len()
        invariant
            at <= entries.len(),
            out.len() == at,
            forall|k: int|
                0 <= k < at ==> (#[trigger] out@[k])@ == (HistoryEntryView {
                    path: entries@[k].path@,
                    seq: k as u64,
                }),
        decreases entries.len() - at,
    {
        out.push(HistoryEntry { path: entries[at].path.clone(), seq: at as u64 });
        at += 1;
    }
    assert(entry_views(out@) =~= renumbered(entry_views(entries@)));
    out
}

impl HistoryLog {
    #[verifier::type_invariant]
    spec fn is_bounded_and_ordered(&self) -> bool {
        &&& self.entries@.len() <= HISTORY_LIMIT
        &&& numbers_increase(entry_views(self.entries@))
    }

    /// A history without visits.
    pub fn new() -> (r: Self)
        ensures
            r@ == Seq::<HistoryEntryView>::empty(),
    {
        let r = HistoryLog { entries: Vec::new() };
        assert(r@ =~= Seq::<HistoryEntryView>::empty());
        r
    }

    /// A history of the given visits, the oldest first, where they are no
    /// more than the limit and their numbers increase.
    pub fn restore(entries: Vec<HistoryEntry>) -> (r: Option<Self>)
        ensures
            r is Some <==> entries@.len() <= HISTORY_LIMIT && numbers_increase(
                entry_views(entries@),
            ),
            r matches Some(log) ==> log@ == entry_views(entries@),
    {
        if entries.len() > HISTORY_LIMIT {
            return None;
        }
        let mut at: usize = 0;
        while at < entries.len()
            invariant
                at <= entries.len(),
                numbers_increase(entry_views(entries@).take(at as int)),
            decreases entries.len() - at,
        {
            if at > 0 && entries[at - 1].seq >= entries[at].seq {
                proof {
                    let s = entry_views(entries@);
                    assert(s[at - 1].seq >= s[at as int].seq);
                }
                return None;
            }
            proof {
                let s = entry_views(entries@);
                let t = s.take(at + 1);
                assert forall|i: int, j: int| 0 <= i < j < t.len() implies t[i].seq
                    < t[j].seq by {
                    assert(s.take(at as int)[i] == s[i]);
                    if j < at {
                        assert(s.take(at as int)[j] == s[j]);
                    } else if i < at - 1 {
                        assert(s.take(at as int)[at - 1] == s[at - 1]);
                    }
                    assert(t[i] == s[i] && t[j] == s[j]);
                }
            }
            at += 1;
        }
        proof {
            let s = entry_views(entries@);
            assert(s.take(at as int) =~= s);
        }
        Some(HistoryLog { entries })
    }

    /// How many visits are kept.
    pub fn len(&self) -> (r: usize)
        ensures
            r == self@.len(),
            r <= HISTORY_LIMIT,
    {
        proof {
            use_type_invariant(self);
        }
        self.entries.len()
    }

    /// The visits that are kept, the oldest first.
    pub fn entries(&self) -> (r: &Vec<HistoryEntry>)
        ensures
            entry_views(r@) == self@,
            self@.len() <= HISTORY_LIMIT,
            numbers_increase(self@),
    {
        proof {
            use_type_invariant(self);
        }
        &self.entries
    }

    /// Notes a visit to `path` as the newest one, also where the newest visit
    /// went to the same path. The oldest visit leaves where the history is
    /// full.
    pub fn record(&mut self, path: String)
        ensures
            final(self)@ == recorded(old(self)@, path@),
            final(self)@.len() <= HISTORY_LIMIT,
            numbers_increase(final(self)@),
    {
        proof {
            use_type_invariant(&*self);
            lemma_recorded(self@, path@);
        }
        let ghost before = self@;
        let mut entries: Vec<HistoryEntry> = Vec::new();
        core::mem::swap(&mut self.entries, &mut entries);
        if entries.len() >= HISTORY_LIMIT {
            entries.remove(0);
            assert(entry_views(entries@) =~= before.drop_first());
        }
        if entries.len() > 0 && entries[entries.len() - 1].seq == u64::MAX {
            entries = renumber(&entries);
        }
        assert(entry_views(entries@) == retained(before));
        let seq: u64 = if entries.len() == 0 {
            0
        } else {
            entries[entries.len() - 1].seq + 1
        };
        let entry = HistoryEntry { path, seq };
        assert(entry_views(entries@.push(entry)) =~= recorded(before, path@));
        entries.push(entry);
        self.entries = entries;
    }

    /// The visits that the query asks for, the newest first. A query by path
    /// may give the path as seen from `cwd`.
    pub fn search(&self, query: &Rabbit, cwd: &str) -> (r: Vec<HistoryEntry>)
        ensures
            entry_views(r@) == recent_matches(self@, query@, cwd@),
    {
        let (by_path, key) = match query {
            Rabbit::RequestPath(path) => (true, join(cwd, path.as_str())),
            Rabbit::RequestName(name) => (false, name.clone()),
            Rabbit::Dir(name, _) => (false, name.clone()),
            Rabbit::File(name, _) => (false, name.clone()),
        };
        let mut out: Vec<HistoryEntry> = Vec::new();
        let mut at: usize = self.entries.len();
        assert(self@.take(at as int) =~= self@);
        assert(entry_views(out@) + recent_matches(self@.take(at as int), query@, cwd@)
            =~= recent_matches(self@, query@, cwd@));
        while at > 0
            invariant
                at <= self.entries.len(),
                forall|path: Seq<char>| #[trigger]
                    is_match(path, query@, cwd@) == (if by_path {
                        key@.is_prefix_of(path)
                    } else {
                        is_named_like(path, key@)
                    }),
                entry_views(out@) + recent_matches(self@.take(at as int), query@, cwd@)
                    == recent_matches(self@, query@, cwd@),
            decreases at,
        {
            at -= 1;
            let entry = &self.entries[at];
            let hit = if by_path {
                starts_with(entry.path.as_str(), key.as_str())
            } else {
                match final_segment(entry.path.as_str()) {
                    Some(segment) => contains(segment.as_str(), key.as_str()),
                    None => false,
                }
            };
            proof {
                assert(self@.take(at + 1).drop_last() =~= self@.take(at as int));
                assert(self@.take(at + 1).last() == self@[at as int]);
                assert(hit == is_match(entry@.path, query@, cwd@));
            }
            if hit {
                let ghost found = entry_views(out@);
                out.push(entry.clone());
                assert(entry_views(out@) + recent_matches(self@.take(at as int), query@, cwd@)
                    =~= found + recent_matches(self@.take(at + 1), query@, cwd@));
            }
        }
        assert(entry_views(out@) + recent_matches(self@.take(0), query@, cwd@) =~= entry_views(
            out@,
        ));
        out
    }

    /// All visits that are kept, the newest first.
    pub fn show_all(&self) -> (r: Vec<HistoryEntry>)
        ensures
            entry_views(r@) == self@.reverse(),
    {
        let mut out: Vec<HistoryEntry> = Vec::new();
        let mut at: usize = self.entries.len();
        while at > 0
            invariant
                at <= self.entries.len(),
                out.len() == self.entries.len() - at,
                forall|k: int|
                    0 <= k < out.len() ==> (#[trigger] out@[k])@ == self@[self@.len() - 1 - k],
            decreases at,
        {
            at -= 1;
            out.push(self.entries[at].clone());
        }
        assert(entry_views(out@) =~= self@.reverse());
        out
    }
}

/// A path that was just visited comes first in every search that asks for it.
pub proof fn lemma_newest_match_first(
    s: Seq<HistoryEntryView>,
    path: Seq<char>,
    query: RabbitView,
    cwd: Seq<char>,
)
    requires
        is_match(path, query, cwd),
    ensures
        recent_matches(recorded(s, path), query, cwd).len() > 0,
        recent_matches(recorded(s, path), query, cwd)[0].path == path,
{
    let after = recorded(s, path);
    assert(after.last().path == path);
}

} // verus!
