use crate::args::{name_for, Rabbit, RabbitView};
use crate::error::HopError;
use crate::path::{final_segment, join, join_of};
use crate::text::text_of;
use vstd::prelude::*;
use vstd::string::*;

verus! {

/// What a shortcut leads to.
#[derive(Clone, Copy, Debug, PartialEq, Eq, Structural)]
pub enum Kind {
    Dir,
    File,
}

/// A name for a place.
#[derive(Debug, PartialEq, Eq)]
pub struct Shortcut {
    pub name: String,
    pub target: String,
    pub kind: Kind,
}

/// What a `Shortcut` holds.
pub struct ShortcutView {
    pub name: Seq<char>,
    pub target: Seq<char>,
    pub kind: Kind,
}

impl View for Shortcut {
    type V = ShortcutView;

    open spec fn view(&self) -> ShortcutView {
        ShortcutView { name: self.name@, target: self.target@, kind: self.kind }
    }
}

impl Clone for Shortcut {
    fn clone(&self) -> (r: Self)
        ensures
            r == *self,
    {
        Shortcut { name: self.name.clone(), target: self.target.clone(), kind: self.kind }
    }
}

/// What each shortcut of a list holds.
pub open spec fn shortcut_views(list: Seq<Shortcut>) -> Seq<ShortcutView> {
    list.map_values(|e: Shortcut| e@)
}

/// What an optional shortcut holds.
pub open spec fn shortcut_view_of(o: Option<Shortcut>) -> Option<ShortcutView> {
    match o {
        Some(e) => Some(e@),
        None => None,
    }
}

/// No two shortcuts of `s` have the same name.
pub open spec fn names_distinct(s: Seq<ShortcutView>) -> bool {
    forall|i: int, j: int| 0 <= i < j < s.len() ==> s[i].name != s[j].name
}

/// The first position of `s` that holds a shortcut called `name`, or the
/// length of `s` where none does.
pub open spec fn slot_of(s: Seq<ShortcutView>, name: Seq<char>) -> int
    decreases s.len(),
{
    if s.len() == 0 {
        0
    } else {
        let before = slot_of(s.drop_last(), name);
        if before < s.len() - 1 || s.last().name == name {
            before
        } else {
            s.len() as int
        }
    }
}

/// The shortcut of `s` called `name`, if there is one.
pub open spec fn find(s: Seq<ShortcutView>, name: Seq<char>) -> Option<ShortcutView> {
    if slot_of(s, name) < s.len() {
        Some(s[slot_of(s, name)])
    } else {
        None
    }
}

/// `s` with the shortcut `e`: in the place of the one that had its name, or
/// else at the end.
pub open spec fn put(s: Seq<ShortcutView>, e: ShortcutView) -> Seq<ShortcutView> {
    if slot_of(s, e.name) < s.len() {
        s.update(slot_of(s, e.name), e)
    } else {
        s.push(e)
    }
}

/// Whether a request to remove speaks of the shortcut `e`: by its name, or by
/// the path that it leads to, which the request may give as seen from `cwd`.
pub open spec fn is_hit(e: ShortcutView, request: RabbitView, cwd: Seq<char>) -> bool {
    match request {
        RabbitView::RequestPath(path) => e.target == join_of(cwd, path),
        RabbitView::RequestName(name) => e.name == name,
        RabbitView::Dir(name, _) => e.name == name,
        RabbitView::File(name, _) => e.name == name,
    }
}

/// The shortcuts of `s` that the request does not speak of, in their order.
pub open spec fn without(s: Seq<ShortcutView>, request: RabbitView, cwd: Seq<char>) -> Seq<
    ShortcutView,
>
    decreases s.len(),
{
    if s.len() == 0 {
        s
    } else {
        let rest = without(s.drop_last(), request, cwd);
        if is_hit(s.last(), request, cwd) {
            rest
        } else {
            rest.push(s.last())
        }
    }
}

/// Where `slot_of` points: at a shortcut of that name with none before it.
pub proof fn lemma_slot_of(s: Seq<ShortcutView>, name: Seq<char>)
    ensures
        0 <= slot_of(s, name) <= s.len(),
        slot_of(s, name) < s.len() ==> s[slot_of(s, name)].name == name,
        forall|j: int| 0 <= j < slot_of(s, name) ==> s[j].name != name,
    decreases s.len(),
{
    if s.len() > 0 {
        let q = s.drop_last();
        lemma_slot_of(q, name);
        assert forall|j: int| 0 <= j < slot_of(s, name) implies s[j].name != name by {
            if j < q.len() {
                assert(s[j] == q[j]);
            }
        }
    }
}

/// A position with a shortcut of that name (or the length) and none before
/// it is where `slot_of` points.
pub proof fn lemma_slot_is(s: Seq<ShortcutView>, name: Seq<char>, at: int)
    requires
        0 <= at <= s.len(),
        at < s.len() ==> s[at].name == name,
        forall|j: int| 0 <= j < at ==> s[j].name != name,
    ensures
        slot_of(s, name) == at,
{
    lemma_slot_of(s, name);
}

/// Putting a shortcut keeps the names distinct, changes no other shortcut,
/// and leaves the new one to be found under its name.
pub proof fn lemma_put(s: Seq<ShortcutView>, e: ShortcutView)
    ensures
        names_distinct(s) ==> names_distinct(put(s, e)),
        find(put(s, e), e.name) == Some(e),
        forall|name: Seq<char>| name != e.name ==> find(put(s, e), name) == find(s, name),
{
    lemma_slot_of(s, e.name);
    let at = slot_of(s, e.name);
    let t = put(s, e);
    lemma_slot_is(t, e.name, at);
    assert forall|name: Seq<char>| name != e.name implies find(t, name) == find(s, name) by {
        lemma_slot_of(s, name);
        let k = slot_of(s, name);
        if k < s.len() {
            lemma_slot_is(t, name, k);
        } else {
            lemma_slot_is(t, name, t.len() as int);
        }
    }
}

/// What is left after a removal: shortcuts of the old list that the request
/// does not speak of, with distinct names where the old names were distinct;
/// and all of the old list where the request speaks of none.
pub proof fn lemma_without(s: Seq<ShortcutView>, request: RabbitView, cwd: Seq<char>)
    ensures
        without(s, request, cwd).len() <= s.len(),
        forall|k: int|
            0 <= k < without(s, request, cwd).len() ==> s.contains(
                #[trigger] without(s, request, cwd)[k],
            ) && !is_hit(without(s, request, cwd)[k], request, cwd),
        names_distinct(s) ==> names_distinct(without(s, request, cwd)),
        (forall|i: int| 0 <= i < s.len() ==> !is_hit(s[i], request, cwd)) <==> without(
            s,
            request,
            cwd,
        ).len() == s.len(),
        without(s, request, cwd).len() == s.len() ==> without(s, request, cwd) == s,
    decreases s.len(),
{
    if s.len() > 0 {
        let q = s.drop_last();
        let rest = without(q, request, cwd);
        let out = without(s, request, cwd);
        lemma_without(q, request, cwd);
        assert forall|k: int| 0 <= k < out.len() implies s.contains(#[trigger] out[k]) && !is_hit(
            out[k],
            request,
            cwd,
        ) by {
            if k < rest.len() {
                assert(q.contains(rest[k]));
                let j = choose|j: int| 0 <= j < q.len() && q[j] == rest[k];
                assert(s[j] == rest[k]);
            } else {
                assert(s[s.len() - 1] == out[k]);
            }
        }
        if names_distinct(s) {
            assert(names_distinct(q)) by {
                assert forall|i: int, j: int| 0 <= i < j < q.len() implies q[i].name
                    != q[j].name by {
                    assert(q[i] == s[i] && q[j] == s[j]);
                }
            }
            assert forall|i: int, j: int| 0 <= i < j < out.len() implies out[i].name
                != out[j].name by {
                if j >= rest.len() {
                    assert(q.contains(rest[i]));
                    let k = choose|k: int| 0 <= k < q.len() && q[k] == rest[i];
                    assert(s[k] == rest[i]);
                }
            }
        }
        if forall|i: int| 0 <= i < s.len() ==> !is_hit(s[i], request, cwd) {
            assert forall|i: int| 0 <= i < q.len() implies !is_hit(q[i], request, cwd) by {
                assert(q[i] == s[i]);
            }
        }
        if out.len() == s.len() {
            assert(rest.len() == q.len());
            assert(out =~= s);
            assert forall|i: int| 0 <= i < s.len() implies !is_hit(s[i], request, cwd) by {
                if i < q.len() {
                    assert(q[i] == s[i]);
                }
            }
        }
    }
}

/// The shortcuts that a user has made, in the order in which their names
/// first came in. No two of them have the same name.
pub struct ShortcutStore {
    entries: Vec<Shortcut>,
}

impl View for ShortcutStore {
    type V = Seq<ShortcutView>;

    closed spec fn view(&self) -> Seq<ShortcutView> {
        shortcut_views(self.entries@)
    }
}

impl ShortcutStore {
    #[verifier::type_invariant]
    spec fn names_are_distinct(&self) -> bool {
        names_distinct(shortcut_views(self.entries@))
    }

    /// A store without shortcuts.
    pub fn new() -> (r: Self)
        ensures
            r@ == Seq::<ShortcutView>::empty(),
    {
        let r = ShortcutStore { entries: Vec::new() };
        assert(r@ =~= Seq::<ShortcutView>::empty());
        r
    }

    /// A store of the given shortcuts, in their order, where no two of them
    /// have the same name.
    pub fn restore(entries: Vec<Shortcut>) -> (r: Option<Self>)
        ensures
            r is Some <==> names_distinct(shortcut_views(entries@)),
            r matches Some(store) ==> store@ == shortcut_views(entries@),
    {
        let mut at: usize = 0;
        while at < entries.len()
            invariant
                at <= entries.len(),
                names_distinct(shortcut_views(entries@).take(at as int)),
            decreases entries.len() - at,
        {
            let mut before: usize = 0;
            while before < at
                invariant
                    before <= at < entries.len(),
                    forall|j: int| 0 <= j < before ==> entries@[j].name@ != entries@[at as int].name@,
                decreases at - before,
            {
                if entries[before].name == entries[at].name {
                    proof {
                        let s = shortcut_views(entries@);
                        assert(s[before as int].name == s[at as int].name);
                    }
                    return None;
                }
                before += 1;
            }
            at += 1;
        }
        assert(shortcut_views(entries@).take(at as int) =~= shortcut_views(entries@));
        Some(ShortcutStore { entries })
    }

    /// How many shortcuts there are.
    pub fn len(&self) -> (r: usize)
        ensures
            r == self@.len(),
    {
        self.entries.len()
    }

    /// The shortcuts as they are kept, in the order in which their names
    /// first came in.
    pub fn entries(&self) -> (r: &Vec<Shortcut>)
        ensures
            shortcut_views(r@) == self@,
            names_distinct(self@),
    {
        proof {
            use_type_invariant(self);
        }
        &self.entries
    }

    /// The shortcuts, in the order in which their names first came in.
    pub fn list(&self) -> (r: Vec<Shortcut>)
        ensures
            shortcut_views(r@) == self@,
    {
        let mut out: Vec<Shortcut> = Vec::new();
        let mut at: usize = 0;
        while at < self.entries.len()
            invariant
                at <= self.entries.len(),
                out.len() == at,
                forall|k: int| 0 <= k < at ==> (#[trigger] out@[k])@ == self@[k],
            decreases self.entries.len() - at,
        {
            out.push(self.entries[at].clone());
            at += 1;
        }
        assert(shortcut_views(out@) =~= self@);
        out
    }

    /// The first position that holds a shortcut called `name`, or the number
    /// of shortcuts where none does.
    fn position(&self, name: &String) -> (r: usize)
        ensures
            r == slot_of(self@, name@),
            r <= self.entries.len(),
    {
        let mut at: usize = 0;
        while at < self.entries.len()
            invariant
                at <= self.entries.len(),
                forall|j: int| 0 <= j < at ==> self@[j].name != name@,
            decreases self.entries.len() - at,
        {
            if self.entries[at].name == *name {
                proof {
                    lemma_slot_is(self@, name@, at as int);
                }
                return at;
            }
            at += 1;
        }
        proof {
            lemma_slot_is(self@, name@, at as int);
        }
        at
    }

    /// The shortcut called `name`, if there is one. Only the whole name matches.
    pub fn lookup(&self, name: &str) -> (r: Option<Shortcut>)
        ensures
            shortcut_view_of(r) == find(self@, name@),
    {
        let name = name.to_owned();
        let at = self.position(&name);
        if at < self.entries.len() {
            Some(self.entries[at].clone())
        } else {
            None
        }
    }

    /// Makes a shortcut to `target`, under the name given or else under the
    /// final segment of `target`. A shortcut that had the name gives way to
    /// the new one, which takes its place; a new name goes to the end.
    /// Without a name of either kind nothing changes.
    pub fn add(&mut self, name: Option<String>, target: String, kind: Kind) -> (r: Result<
        Shortcut,
        HopError,
    >)
        ensures
            names_distinct(final(self)@),
            match name_for(target@, text_of(name)) {
                Some(n) => {
                    &&& r matches Ok(e)
                    &&& e@ == (ShortcutView { name: n, target: target@, kind })
                    &&& final(self)@ == put(old(self)@, e@)
                },
                None => {
                    &&& r matches Err(e)
                    &&& e == HopError::Name
                    &&& final(self)@ == old(self)@
                },
            },
    {
        proof {
            use_type_invariant(&*self);
        }
        let name = match name {
            Some(given) => given,
            None => match final_segment(target.as_str()) {
                Some(segment) => segment,
                None => {
                    return Err(HopError::Name);
                },
            },
        };
        let entry = Shortcut { name, target, kind };
        let kept = entry.clone();
        let at = self.position(&entry.name);
        let ghost before = self@;
        let mut entries: Vec<Shortcut> = Vec::new();
        core::mem::swap(&mut self.entries, &mut entries);
        proof {
            lemma_put(before, entry@);
            if at < entries.len() {
                assert(shortcut_views(entries@.update(at as int, entry)) =~= put(before, entry@));
            } else {
                assert(shortcut_views(entries@.push(entry)) =~= put(before, entry@));
            }
        }
        if at < entries.len() {
            entries.set(at, entry);
        } else {
            entries.push(entry);
        }
        self.entries = entries;
        Ok(kept)
    }

    /// Removes the shortcuts that the request speaks of: the one of that
    /// name, or those that lead to that path, which may be given as seen from
    /// `cwd`. Where it speaks of none, nothing changes.
    pub fn remove(&mut self, request: &Rabbit, cwd: &str) -> (r: Result<(), HopError>)
        ensures
            names_distinct(final(self)@),
            final(self)@ == without(old(self)@, request@, cwd@),
            r is Ok <==> exists|i: int|
                0 <= i < old(self)@.len() && is_hit(#[trigger] old(self)@[i], request@, cwd@),
            r matches Err(e) ==> e == HopError::NotFound && final(self)@ == old(self)@,
    {
        proof {
            use_type_invariant(&*self);
        }
        let (by_path, key) = match request {
            Rabbit::RequestPath(path) => (true, join(cwd, path.as_str())),
            Rabbit::RequestName(name) => (false, name.clone()),
            Rabbit::Dir(name, _) => (false, name.clone()),
            Rabbit::File(name, _) => (false, name.clone()),
        };
        let mut kept: Vec<Shortcut> = Vec::new();
        let mut at: usize = 0;
        while at < self.entries.len()
            invariant
                at <= self.entries.len(),
                forall|i: int|
                    0 <= i < self@.len() ==> is_hit(#[trigger] self@[i], request@, cwd@) == (
                    if by_path {
                        self@[i].target == key@
                    } else {
                        self@[i].name == key@
                    }),
                shortcut_views(kept@) == without(self@.take(at as int), request@, cwd@),
            decreases self.entries.len() - at,
        {
            let entry = &self.entries[at];
            let hit = if by_path {
                entry.target == key
            } else {
                entry.name == key
            };
            proof {
                assert(self@.take(at + 1).drop_last() =~= self@.take(at as int));
                assert(self@.take(at + 1).last() == self@[at as int]);
            }
            if !hit {
                let ghost before = kept@;
                kept.push(entry.clone());
                assert(shortcut_views(kept@) =~= shortcut_views(before).push(entry@));
            }
            at += 1;
        }
        proof {
            assert(self@.take(at as int) =~= self@);
            lemma_without(self@, request@, cwd@);
        }
        if kept.len() == self.entries.len() {
            Err(HopError::NotFound)
        } else {
            self.entries = kept;
            Ok(())
        }
    }
}

/// Of two shortcuts made under one name, the second is the one found.
pub proof fn lemma_last_write_wins(
    s: Seq<ShortcutView>,
    name: Seq<char>,
    first: Seq<char>,
    first_kind: Kind,
    second: Seq<char>,
    second_kind: Kind,
)
    ensures
        find(
            put(
                put(s, ShortcutView { name, target: first, kind: first_kind }),
                ShortcutView { name, target: second, kind: second_kind },
            ),
            name,
        ) == Some(ShortcutView { name, target: second, kind: second_kind }),
{
    lemma_put(
        put(s, ShortcutView { name, target: first, kind: first_kind }),
        ShortcutView { name, target: second, kind: second_kind },
    );
}

/// A name that was removed is not found, whatever the store held.
pub proof fn lemma_removed_is_absent(s: Seq<ShortcutView>, name: Seq<char>, cwd: Seq<char>)
    ensures
        find(without(s, RabbitView::RequestName(name), cwd), name) is None,
{
    let left = without(s, RabbitView::RequestName(name), cwd);
    lemma_without(s, RabbitView::RequestName(name), cwd);
    lemma_slot_is(left, name, left.len() as int);
}

} // verus!
