use crate::bookmark::BackBookmark;
use crate::error::HopError;
use crate::history::{
    entry_views, numbers_increase, HistoryEntry, HistoryEntryView, HistoryLog, HISTORY_LIMIT,
};
use crate::hopper::{Hopper, HopperView};
use crate::shortcut::{
    names_distinct, shortcut_views, Kind, Shortcut, ShortcutStore, ShortcutView,
};
use crate::text::{chars_of, occurs_at, text_of};
use vstd::prelude::*;
use vstd::string::*;

verus! {

/// The character that ends a number.
pub const NUMBER_END: char = ':';

/// The character for the digit `d`.
pub open spec fn digit_char(d: int) -> char {
    (48 + d) as char
}

/// Whether `c` is one of the ten digits.
pub open spec fn is_digit(c: char) -> bool {
    48 <= c as int <= 57
}

/// The decimal digits of `n`, without leading zeros.
pub open spec fn digits_of(n: nat) -> Seq<char>
    decreases n,
{
    if n < 10 {
        seq![digit_char(n as int)]
    } else {
        digits_of(n / 10).push(digit_char((n % 10) as int))
    }
}

/// The number that the decimal digits `d` stand for.
pub open spec fn value_of(d: Seq<char>) -> nat
    decreases d.len(),
{
    if d.len() == 0 {
        0
    } else {
        (value_of(d.drop_last()) * 10 + (d.last() as int - 48)) as nat
    }
}

/// Where the run of digits that starts at `pos` ends.
pub open spec fn digits_end(s: Seq<char>, pos: int) -> int
    decreases s.len() - pos,
{
    if 0 <= pos < s.len() && is_digit(s[pos]) {
        digits_end(s, pos + 1)
    } else {
        pos
    }
}

/// A number as it is written: its decimal digits, then a colon.
pub open spec fn written_number(n: nat) -> Seq<char> {
    digits_of(n).push(NUMBER_END)
}

/// The number written at `pos`, and where the text goes on behind it. A
/// number is one digit or more, then a colon, and is no greater than
/// `u64::MAX`.
pub open spec fn read_number(s: Seq<char>, pos: int) -> Option<(u64, int)> {
    let end = digits_end(s, pos);
    if 0 <= pos < end < s.len() && s[end] == NUMBER_END && value_of(s.subrange(pos, end))
        <= u64::MAX {
        Some((value_of(s.subrange(pos, end)) as u64, end + 1))
    } else {
        None
    }
}

/// A text as it is written: its length as a number, then its characters.
pub open spec fn written_text(t: Seq<char>) -> Seq<char> {
    written_number(t.len()) + t
}

/// The text written at `pos`, and where the text around it goes on.
pub open spec fn read_text(s: Seq<char>, pos: int) -> Option<(Seq<char>, int)> {
    match read_number(s, pos) {
        Some((n, start)) => if start + n <= s.len() {
            Some((s.subrange(start, start + n), start + n))
        } else {
            None
        },
        None => None,
    }
}

/// A piece that lies at `pos` brings its parts: the first lies at `pos`, the
/// second behind it.
pub proof fn lemma_occurs_parts(s: Seq<char>, a: Seq<char>, b: Seq<char>, pos: int)
    requires
        occurs_at(s, a + b, pos),
    ensures
        occurs_at(s, a, pos),
        occurs_at(s, b, pos + a.len()),
{
    let whole = s.subrange(pos, pos + (a + b).len());
    assert(s.subrange(pos, pos + a.len()) =~= whole.subrange(0, a.len() as int));
    assert(whole.subrange(0, a.len() as int) =~= a);
    assert(s.subrange(pos + a.len(), pos + a.len() + b.len()) =~= whole.subrange(
        a.len() as int,
        (a + b).len() as int,
    ));
    assert(whole.subrange(a.len() as int, (a + b).len() as int) =~= b);
}

proof fn lemma_digits_of(n: nat)
    ensures
        digits_of(n).len() >= 1,
        forall|i: int| 0 <= i < digits_of(n).len() ==> is_digit(#[trigger] digits_of(n)[i]),
        value_of(digits_of(n)) == n,
    decreases n,
{
    if n < 10 {
        let d = digits_of(n);
        assert(d.drop_last() =~= Seq::<char>::empty());
        assert(value_of(d.drop_last()) == 0);
    } else {
        lemma_digits_of(n / 10);
        let d = digits_of(n);
        assert(d.drop_last() =~= digits_of(n / 10));
    }
}

proof fn lemma_digits_end(s: Seq<char>, pos: int, end: int)
    requires
        0 <= pos <= end <= s.len(),
        forall|j: int| pos <= j < end ==> is_digit(s[j]),
        end < s.len() ==> !is_digit(s[end]),
    ensures
        digits_end(s, pos) == end,
    decreases end - pos,
{
    if pos < end {
        lemma_digits_end(s, pos + 1, end);
    }
}

proof fn lemma_value_grows(d: Seq<char>, k: int)
    requires
        0 <= k <= d.len(),
        forall|i: int| 0 <= i < d.len() ==> is_digit(d[i]),
    ensures
        value_of(d.take(k)) <= value_of(d),
    decreases d.len() - k,
{
    if k < d.len() {
        lemma_value_grows(d, k + 1);
        assert(d.take(k + 1).drop_last() =~= d.take(k));
    } else {
        assert(d.take(k) =~= d);
    }
}

/// A number that was written is read back, up to the end of what was written.
pub proof fn lemma_read_written_number(s: Seq<char>, pos: int, n: u64)
    requires
        occurs_at(s, written_number(n as nat), pos),
    ensures
        read_number(s, pos) == Some((n, pos + written_number(n as nat).len())),
{
    let d = digits_of(n as nat);
    lemma_digits_of(n as nat);
    assert(written_number(n as nat) =~= d + seq![NUMBER_END]);
    lemma_occurs_parts(s, d, seq![NUMBER_END], pos);
    let end = pos + d.len();
    assert forall|j: int| pos <= j < end implies is_digit(s[j]) by {
        assert(s[j] == s.subrange(pos, end)[j - pos]);
    }
    assert(s[end] == s.subrange(end, end + 1)[0]);
    lemma_digits_end(s, pos, end);
}

/// A text that was written is read back, up to the end of what was written.
pub proof fn lemma_read_written_text(s: Seq<char>, pos: int, t: Seq<char>)
    requires
        occurs_at(s, written_text(t), pos),
        t.len() <= u64::MAX,
    ensures
        read_text(s, pos) == Some((t, pos + written_text(t).len())),
{
    lemma_occurs_parts(s, written_number(t.len()), t, pos);
    lemma_read_written_number(s, pos, t.len() as u64);
}

/// The text of one digit.
fn digit_text(d: u64) -> (r: &'static str)
    requires
        d < 10,
    ensures
        r@ == seq![digit_char(d as int)],
{
    proof {
        reveal_strlit("0123456789");
    }
    let r = "0123456789".substring_char(d as usize, d as usize + 1);
    assert(r@ =~= seq![digit_char(d as int)]);
    r
}

/// Appends the decimal digits of `n`.
fn push_digits(out: &mut String, n: u64)
    ensures
        final(out)@ == old(out)@ + digits_of(n as nat),
    decreases n,
{
    if n >= 10 {
        push_digits(out, n / 10);
    }
    out.append(digit_text(n % 10));
    proof {
        let before = old(out)@;
        if n >= 10 {
            assert(before + digits_of((n / 10) as nat) + seq![digit_char((n % 10) as int)]
                =~= before + digits_of(n as nat));
        }
    }
}

/// Appends `n` as it is written.
pub fn write_number(out: &mut String, n: u64)
    ensures
        final(out)@ == old(out)@ + written_number(n as nat),
{
    push_digits(out, n);
    proof {
        reveal_strlit(":");
    }
    out.append(":");
    assert(final(out)@ =~= old(out)@ + written_number(n as nat));
}

/// Appends `t` as it is written. A text is no longer than a machine can hold.
pub fn write_text(out: &mut String, t: &str)
    ensures
        final(out)@ == old(out)@ + written_text(t@),
        t@.len() <= usize::MAX,
{
    write_number(out, t.unicode_len() as u64);
    out.append(t);
    assert(final(out)@ =~= old(out)@ + written_text(t@));
}

/// Reads the number written at `pos`.
pub fn scan_number(s: &Vec<char>, pos: usize) -> (r: Option<(u64, usize)>)
    ensures
        match r {
            Some((n, next)) => read_number(s@, pos as int) == Some((n, next as int)),
            None => read_number(s@, pos as int) is None,
        },
{
    if pos >= s.len() {
        return None;
    }
    let mut at: usize = pos;
    let mut n: u64 = 0;
    assert(s@.subrange(pos as int, at as int) =~= Seq::<char>::empty());
    while at < s.len() && '0' <= s[at] && s[at] <= '9'
        invariant
            pos <= at <= s.len(),
            forall|j: int| pos <= j < at ==> is_digit(s@[j]),
            digits_end(s@, pos as int) == digits_end(s@, at as int),
            n == value_of(s@.subrange(pos as int, at as int)),
        decreases s.len() - at,
    {
        let d: u64 = (s[at] as u32 - 48) as u64;
        let ghost run = s@.subrange(pos as int, at + 1);
        proof {
            assert(run.drop_last() =~= s@.subrange(pos as int, at as int));
            assert(run.last() == s@[at as int]);
        }
        if n > (u64::MAX - d) / 10 {
            proof {
                let end = digits_end(s@, pos as int);
                lemma_digits_end_bounds(s@, at + 1);
                let all = s@.subrange(pos as int, end);
                assert forall|i: int| 0 <= i < all.len() implies is_digit(all[i]) by {
                    lemma_digits_end_holds(s@, pos as int, pos + i);
                }
                lemma_value_grows(all, at + 1 - pos);
                assert(all.take(at + 1 - pos) =~= run);
            }
            return None;
        }
        n = n * 10 + d;
        at += 1;
    }
    proof {
        lemma_digits_end(s@, at as int, at as int);
    }
    if at == pos || at >= s.len() || s[at] != NUMBER_END {
        return None;
    }
    Some((n, at + 1))
}

proof fn lemma_digits_end_bounds(s: Seq<char>, pos: int)
    ensures
        pos <= digits_end(s, pos),
        0 <= pos <= s.len() ==> digits_end(s, pos) <= s.len(),
    decreases s.len() - pos,
{
    if 0 <= pos < s.len() && is_digit(s[pos]) {
        lemma_digits_end_bounds(s, pos + 1);
    }
}

proof fn lemma_digits_end_holds(s: Seq<char>, pos: int, j: int)
    requires
        0 <= pos <= j < digits_end(s, pos),
    ensures
        is_digit(s[j]),
        j < s.len(),
    decreases s.len() - pos,
{
    if 0 <= pos < s.len() && is_digit(s[pos]) {
        if pos < j {
            lemma_digits_end_holds(s, pos + 1, j);
        }
    }
}

/// Reads the text written at `pos`: the place where it begins and the place
/// where it ends.
pub fn scan_text(s: &Vec<char>, pos: usize) -> (r: Option<(usize, usize)>)
    ensures
        match r {
            Some((start, end)) => start <= end <= s.len() && read_text(s@, pos as int) == Some(
                (s@.subrange(start as int, end as int), end as int),
            ),
            None => read_text(s@, pos as int) is None,
        },
{
    match scan_number(s, pos) {
        Some((n, start)) => {
            if start <= s.len() && n <= (s.len() - start) as u64 {
                Some((start, start + n as usize))
            } else {
                None
            }
        },
        None => None,
    }
}

/// The character that ends a line.
pub const LINE_END: char = '\n';

/// A count as it is written: the number, on a line of its own.
pub open spec fn written_count(n: nat) -> Seq<char> {
    written_number(n).push(LINE_END)
}

/// The count written at `pos`, and where the text goes on behind it.
pub open spec fn read_count(s: Seq<char>, pos: int) -> Option<(u64, int)> {
    match read_number(s, pos) {
        Some((n, end)) => if end < s.len() && s[end] == LINE_END {
            Some((n, end + 1))
        } else {
            None
        },
        None => None,
    }
}

/// The character that stands for a kind.
pub open spec fn kind_char(kind: Kind) -> char {
    match kind {
        Kind::Dir => 'd',
        Kind::File => 'f',
    }
}

/// A shortcut as it is written: name, target and kind, on one line.
pub open spec fn written_shortcut(e: ShortcutView) -> Seq<char> {
    written_text(e.name) + (written_text(e.target) + seq![kind_char(e.kind), LINE_END])
}

/// The shortcut written at `pos`, and where the text goes on behind it.
pub open spec fn read_shortcut(s: Seq<char>, pos: int) -> Option<(ShortcutView, int)> {
    match read_text(s, pos) {
        Some((name, behind_name)) => match read_text(s, behind_name) {
            Some((target, end)) => if end + 1 < s.len() && s[end + 1] == LINE_END && (s[end]
                == 'd' || s[end] == 'f') {
                let kind = if s[end] == 'd' {
                    Kind::Dir
                } else {
                    Kind::File
                };
                Some((ShortcutView { name, target, kind }, end + 2))
            } else {
                None
            },
            None => None,
        },
        None => None,
    }
}

/// A visit as it is written: number and path, on one line.
pub open spec fn written_visit(e: HistoryEntryView) -> Seq<char> {
    written_number(e.seq as nat) + (written_text(e.path) + seq![LINE_END])
}

/// The visit written at `pos`, and where the text goes on behind it.
pub open spec fn read_visit(s: Seq<char>, pos: int) -> Option<(HistoryEntryView, int)> {
    match read_number(s, pos) {
        Some((seq, behind_seq)) => match read_text(s, behind_seq) {
            Some((path, end)) => if end < s.len() && s[end] == LINE_END {
                Some((HistoryEntryView { path, seq }, end + 1))
            } else {
                None
            },
            None => None,
        },
        None => None,
    }
}

/// The place to come back to as it is written: `-` where there is none, else
/// `+` and the path; on one line.
pub open spec fn written_bookmark(place: Option<Seq<char>>) -> Seq<char> {
    match place {
        Some(path) => seq!['+'] + (written_text(path) + seq![LINE_END]),
        None => seq!['-', LINE_END],
    }
}

/// The place to come back to that is written at `pos`, and where the text
/// goes on behind it.
pub open spec fn read_bookmark(s: Seq<char>, pos: int) -> Option<(Option<Seq<char>>, int)> {
    if 0 <= pos < s.len() && s[pos] == '-' {
        if pos + 1 < s.len() && s[pos + 1] == LINE_END {
            Some((None, pos + 2))
        } else {
            None
        }
    } else if 0 <= pos < s.len() && s[pos] == '+' {
        match read_text(s, pos + 1) {
            Some((path, end)) => if end < s.len() && s[end] == LINE_END {
                Some((Some(path), end + 1))
            } else {
                None
            },
            None => None,
        }
    } else {
        None
    }
}

/// The items of a list as they are written, one behind the other.
pub open spec fn written_list<T>(list: Seq<T>, written: spec_fn(T) -> Seq<char>) -> Seq<char>
    decreases list.len(),
{
    if list.len() == 0 {
        Seq::<char>::empty()
    } else {
        written(list[0]) + written_list(list.drop_first(), written)
    }
}

/// The `count` items written from `pos` on, and where the text goes on
/// behind them.
pub open spec fn read_list<T>(
    s: Seq<char>,
    pos: int,
    count: nat,
    read: spec_fn(Seq<char>, int) -> Option<(T, int)>,
) -> Option<(Seq<T>, int)>
    decreases count,
{
    if count == 0 {
        Some((Seq::<T>::empty(), pos))
    } else {
        match read(s, pos) {
            Some((item, behind)) => match read_list(s, behind, (count - 1) as nat, read) {
                Some((rest, end)) => Some((seq![item] + rest, end)),
                None => None,
            },
            None => None,
        }
    }
}

/// How a shortcut is written.
pub open spec fn shortcut_writer() -> spec_fn(ShortcutView) -> Seq<char> {
    |e: ShortcutView| written_shortcut(e)
}

/// How a shortcut is read.
pub open spec fn shortcut_reader() -> spec_fn(Seq<char>, int) -> Option<(ShortcutView, int)> {
    |s: Seq<char>, pos: int| read_shortcut(s, pos)
}

/// How a visit is written.
pub open spec fn visit_writer() -> spec_fn(HistoryEntryView) -> Seq<char> {
    |e: HistoryEntryView| written_visit(e)
}

/// How a visit is read.
pub open spec fn visit_reader() -> spec_fn(Seq<char>, int) -> Option<(HistoryEntryView, int)> {
    |s: Seq<char>, pos: int| read_visit(s, pos)
}

/// What is kept as it is written: the shortcuts behind their count, the
/// visits behind theirs, the oldest first, and the place to come back to.
pub open spec fn written_state(state: HopperView) -> Seq<char> {
    written_count(state.shortcuts.len()) + (written_list(state.shortcuts, shortcut_writer()) + (
    written_count(state.history.len()) + (written_list(state.history, visit_writer())
        + written_bookmark(state.bookmark))))
}

/// What a text says is kept, if it says so from its first to its last
/// character and what it says can be: shortcuts with distinct names, and no
/// more visits than the limit, their numbers increasing. `config` is not
/// written; it is handed on.
pub open spec fn read_state(s: Seq<char>, config: Seq<char>) -> Option<HopperView> {
    match read_count(s, 0) {
        Some((shortcut_count, first_shortcut)) => match read_list(
            s,
            first_shortcut,
            shortcut_count as nat,
            shortcut_reader(),
        ) {
            Some((shortcuts, behind_shortcuts)) => match read_count(s, behind_shortcuts) {
                Some((visit_count, first_visit)) => match read_list(
                    s,
                    first_visit,
                    visit_count as nat,
                    visit_reader(),
                ) {
                    Some((history, behind_visits)) => match read_bookmark(s, behind_visits) {
                        Some((bookmark, end)) => if end == s.len() && names_distinct(shortcuts)
                            && history.len() <= HISTORY_LIMIT && numbers_increase(history) {
                            Some(HopperView { shortcuts, history, bookmark, config })
                        } else {
                            None
                        },
                        None => None,
                    },
                    None => None,
                },
                None => None,
            },
            None => None,
        },
        None => None,
    }
}

/// What can be kept: shortcuts with distinct names, no more visits than the
/// limit, their numbers increasing, and no text or list longer than a
/// machine can hold.
pub open spec fn is_keepable(state: HopperView) -> bool {
    &&& names_distinct(state.shortcuts)
    &&& state.shortcuts.len() <= usize::MAX
    &&& forall|i: int|
        0 <= i < state.shortcuts.len() ==> (#[trigger] state.shortcuts[i]).name.len() <= usize::MAX
            && state.shortcuts[i].target.len() <= usize::MAX
    &&& state.history.len() <= HISTORY_LIMIT
    &&& numbers_increase(state.history)
    &&& forall|i: int|
        0 <= i < state.history.len() ==> (#[trigger] state.history[i]).path.len() <= usize::MAX
    &&& state.bookmark matches Some(path) ==> path.len() <= usize::MAX
}

/// A count that was written is read back.
pub proof fn lemma_read_written_count(s: Seq<char>, pos: int, n: u64)
    requires
        occurs_at(s, written_count(n as nat), pos),
    ensures
        read_count(s, pos) == Some((n, pos + written_count(n as nat).len())),
{
    let number = written_number(n as nat);
    assert(written_count(n as nat) =~= number + seq![LINE_END]);
    lemma_occurs_parts(s, number, seq![LINE_END], pos);
    lemma_read_written_number(s, pos, n);
    let end = pos + number.len();
    assert(s[end] == s.subrange(end, end + 1)[0]);
}

/// A shortcut that was written is read back.
pub proof fn lemma_read_written_shortcut(s: Seq<char>, pos: int, e: ShortcutView)
    requires
        occurs_at(s, written_shortcut(e), pos),
        e.name.len() <= u64::MAX,
        e.target.len() <= u64::MAX,
    ensures
        read_shortcut(s, pos) == Some((e, pos + written_shortcut(e).len())),
{
    let name = written_text(e.name);
    let target = written_text(e.target);
    let tail = seq![kind_char(e.kind), LINE_END];
    lemma_occurs_parts(s, name, target + tail, pos);
    lemma_read_written_text(s, pos, e.name);
    lemma_occurs_parts(s, target, tail, pos + name.len());
    lemma_read_written_text(s, pos + name.len(), e.target);
    let end = pos + name.len() + target.len();
    assert(s[end] == s.subrange(end, end + 2)[0]);
    assert(s[end + 1] == s.subrange(end, end + 2)[1]);
}

/// A visit that was written is read back.
pub proof fn lemma_read_written_visit(s: Seq<char>, pos: int, e: HistoryEntryView)
    requires
        occurs_at(s, written_visit(e), pos),
        e.path.len() <= u64::MAX,
    ensures
        read_visit(s, pos) == Some((e, pos + written_visit(e).len())),
{
    let number = written_number(e.seq as nat);
    let path = written_text(e.path);
    lemma_occurs_parts(s, number, path + seq![LINE_END], pos);
    lemma_read_written_number(s, pos, e.seq);
    lemma_occurs_parts(s, path, seq![LINE_END], pos + number.len());
    lemma_read_written_text(s, pos + number.len(), e.path);
    let end = pos + number.len() + path.len();
    assert(s[end] == s.subrange(end, end + 1)[0]);
}

/// A place to come back to that was written is read back.
pub proof fn lemma_read_written_bookmark(s: Seq<char>, pos: int, place: Option<Seq<char>>)
    requires
        occurs_at(s, written_bookmark(place), pos),
        place matches Some(path) ==> path.len() <= u64::MAX,
    ensures
        read_bookmark(s, pos) == Some((place, pos + written_bookmark(place).len())),
{
    match place {
        Some(path) => {
            let body = written_text(path);
            lemma_occurs_parts(s, seq!['+'], body + seq![LINE_END], pos);
            assert(s[pos] == s.subrange(pos, pos + 1)[0]);
            lemma_occurs_parts(s, body, seq![LINE_END], pos + 1);
            lemma_read_written_text(s, pos + 1, path);
            let end = pos + 1 + body.len();
            assert(s[end] == s.subrange(end, end + 1)[0]);
        },
        None => {
            assert(s[pos] == s.subrange(pos, pos + 2)[0]);
            assert(s[pos + 1] == s.subrange(pos, pos + 2)[1]);
        },
    }
}

/// A list that was written is read back, where each of its items is.
pub proof fn lemma_read_written_list<T>(
    s: Seq<char>,
    pos: int,
    list: Seq<T>,
    written: spec_fn(T) -> Seq<char>,
    read: spec_fn(Seq<char>, int) -> Option<(T, int)>,
)
    requires
        occurs_at(s, written_list(list, written), pos),
        forall|i: int, at: int|
            0 <= i < list.len() && #[trigger] occurs_at(s, written(list[i]), at) ==> read(s, at)
                == Some((list[i], at + written(list[i]).len())),
    ensures
        read_list(s, pos, list.len(), read) == Some(
            (list, pos + written_list(list, written).len()),
        ),
    decreases list.len(),
{
    if list.len() > 0 {
        let rest = list.drop_first();
        let head = written(list[0]);
        lemma_occurs_parts(s, head, written_list(rest, written), pos);
        assert forall|i: int, at: int|
            0 <= i < rest.len() && #[trigger] occurs_at(s, written(rest[i]), at) implies read(s, at)
            == Some((rest[i], at + written(rest[i]).len())) by {
            assert(rest[i] == list[i + 1]);
        }
        lemma_read_written_list(s, pos + head.len(), rest, written, read);
        assert(seq![list[0]] + rest =~= list);
    }
}

/// Writing a list with one more item at its end adds what is written of
/// that item.
pub proof fn lemma_written_list_push<T>(list: Seq<T>, item: T, written: spec_fn(T) -> Seq<char>)
    ensures
        written_list(list.push(item), written) == written_list(list, written) + written(item),
    decreases list.len(),
{
    let longer = list.push(item);
    if list.len() == 0 {
        assert(longer.drop_first() =~= Seq::<T>::empty());
        assert(written_list(longer.drop_first(), written) =~= Seq::<char>::empty());
        assert(written_list(longer, written) =~= written(item));
        assert(written_list(list, written) + written(item) =~= written(item));
    } else {
        assert(longer.drop_first() =~= list.drop_first().push(item));
        lemma_written_list_push(list.drop_first(), item, written);
        assert(written_list(longer, written) =~= written_list(list, written) + written(item));
    }
}

/// What was written is read back: nothing that is kept gets lost or changed
/// on the way.
pub proof fn lemma_read_written_state(state: HopperView)
    requires
        is_keepable(state),
    ensures
        read_state(written_state(state), state.config) == Some(state),
{
    let a = written_count(state.shortcuts.len());
    let b = written_list(state.shortcuts, shortcut_writer());
    let c = written_count(state.history.len());
    let d = written_list(state.history, visit_writer());
    let e = written_bookmark(state.bookmark);
    let s = written_state(state);
    assert(s.subrange(0, s.len() as int) =~= s);
    lemma_occurs_parts(s, a, b + (c + (d + e)), 0);
    lemma_read_written_count(s, 0, state.shortcuts.len() as u64);
    let first_shortcut = a.len() as int;
    lemma_occurs_parts(s, b, c + (d + e), first_shortcut);
    assert forall|i: int, at: int|
        0 <= i < state.shortcuts.len() && #[trigger] occurs_at(
            s,
            shortcut_writer()(state.shortcuts[i]),
            at,
        ) implies shortcut_reader()(s, at) == Some(
        (state.shortcuts[i], at + shortcut_writer()(state.shortcuts[i]).len()),
    ) by {
        lemma_read_written_shortcut(s, at, state.shortcuts[i]);
    }
    lemma_read_written_list(s, first_shortcut, state.shortcuts, shortcut_writer(), shortcut_reader());
    let behind_shortcuts = first_shortcut + b.len();
    lemma_occurs_parts(s, c, d + e, behind_shortcuts);
    lemma_read_written_count(s, behind_shortcuts, state.history.len() as u64);
    let first_visit = behind_shortcuts + c.len();
    lemma_occurs_parts(s, d, e, first_visit);
    assert forall|i: int, at: int|
        0 <= i < state.history.len() && #[trigger] occurs_at(
            s,
            visit_writer()(state.history[i]),
            at,
        ) implies visit_reader()(s, at) == Some(
        (state.history[i], at + visit_writer()(state.history[i]).len()),
    ) by {
        lemma_read_written_visit(s, at, state.history[i]);
    }
    lemma_read_written_list(s, first_visit, state.history, visit_writer(), visit_reader());
    let behind_visits = first_visit + d.len();
    lemma_read_written_bookmark(s, behind_visits, state.bookmark);
}

/// Appends the shortcuts as they are written.
fn write_shortcuts(out: &mut String, list: &Vec<Shortcut>)
    ensures
        final(out)@ == old(out)@ + written_list(shortcut_views(list@), shortcut_writer()),
        forall|i: int|
            0 <= i < list@.len() ==> (#[trigger] shortcut_views(list@)[i]).name.len() <= usize::MAX
                && shortcut_views(list@)[i].target.len() <= usize::MAX,
{
    let ghost all = shortcut_views(list@);
    let mut at: usize = 0;
    assert(old(out)@ + written_list(all.take(0), shortcut_writer()) =~= old(out)@);
    while at < list.len()
        invariant
            at <= list.len(),
            all == shortcut_views(list@),
            out@ == old(out)@ + written_list(all.take(at as int), shortcut_writer()),
            forall|i: int|
                0 <= i < at ==> (#[trigger] all[i]).name.len() <= usize::MAX && all[i].target.len()
                    <= usize::MAX,
        decreases list.len() - at,
    {
        let e = &list[at];
        let ghost before = out@;
        write_text(out, e.name.as_str());
        write_text(out, e.target.as_str());
        match e.kind {
            Kind::Dir => {
                proof {
                    reveal_strlit("d\n");
                }
                out.append("d\n");
            },
            Kind::File => {
                proof {
                    reveal_strlit("f\n");
                }
                out.append("f\n");
            },
        }
        proof {
            assert(out@ =~= before + written_shortcut(e@));
            assert(all.take(at + 1) =~= all.take(at as int).push(e@));
            lemma_written_list_push(all.take(at as int), e@, shortcut_writer());
            assert(out@ =~= old(out)@ + written_list(all.take(at + 1), shortcut_writer()));
        }
        at += 1;
    }
    assert(all.take(at as int) =~= all);
}

/// Appends the visits as they are written.
fn write_visits(out: &mut String, list: &Vec<HistoryEntry>)
    ensures
        final(out)@ == old(out)@ + written_list(entry_views(list@), visit_writer()),
        forall|i: int|
            0 <= i < list@.len() ==> (#[trigger] entry_views(list@)[i]).path.len() <= usize::MAX,
{
    let ghost all = entry_views(list@);
    let mut at: usize = 0;
    assert(old(out)@ + written_list(all.take(0), visit_writer()) =~= old(out)@);
    while at < list.len()
        invariant
            at <= list.len(),
            all == entry_views(list@),
            out@ == old(out)@ + written_list(all.take(at as int), visit_writer()),
            forall|i: int| 0 <= i < at ==> (#[trigger] all[i]).path.len() <= usize::MAX,
        decreases list.len() - at,
    {
        let e = &list[at];
        let ghost before = out@;
        write_number(out, e.seq);
        write_text(out, e.path.as_str());
        proof {
            reveal_strlit("\n");
        }
        out.append("\n");
        proof {
            assert(out@ =~= before + written_visit(e@));
            assert(all.take(at + 1) =~= all.take(at as int).push(e@));
            lemma_written_list_push(all.take(at as int), e@, visit_writer());
            assert(out@ =~= old(out)@ + written_list(all.take(at + 1), visit_writer()));
        }
        at += 1;
    }
    assert(all.take(at as int) =~= all);
}

/// Appends a count as it is written.
fn write_count(out: &mut String, n: usize)
    ensures
        final(out)@ == old(out)@ + written_count(n as nat),
{
    write_number(out, n as u64);
    proof {
        reveal_strlit("\n");
    }
    out.append("\n");
    assert(final(out)@ =~= old(out)@ + written_count(n as nat));
}

/// Writes down what a hopper keeps, but for the path of its configuration.
/// What is written is read back as what the hopper keeps.
pub fn encode(hopper: &Hopper) -> (r: String)
    ensures
        r@ == written_state(hopper@),
        is_keepable(hopper@),
        read_state(r@, hopper@.config) == Some(hopper@),
{
    let shortcuts = hopper.shortcuts().entries();
    let history = hopper.history().entries();
    let mut out = String::new();
    write_count(&mut out, shortcuts.len());
    write_shortcuts(&mut out, shortcuts);
    write_count(&mut out, history.len());
    write_visits(&mut out, history);
    match hopper.bookmark().get() {
        Some(path) => {
            proof {
                reveal_strlit("+");
                reveal_strlit("\n");
            }
            out.append("+");
            write_text(&mut out, path.as_str());
            out.append("\n");
        },
        None => {
            proof {
                reveal_strlit("-\n");
            }
            out.append("-\n");
        },
    }
    assert(out@ =~= written_state(hopper@));
    proof {
        lemma_read_written_state(hopper@);
    }
    out
}

/// Reads the count written at `pos`.
fn scan_count(s: &Vec<char>, pos: usize) -> (r: Option<(u64, usize)>)
    ensures
        match r {
            Some((n, next)) => next <= s.len() && read_count(s@, pos as int) == Some(
                (n, next as int),
            ),
            None => read_count(s@, pos as int) is None,
        },
{
    match scan_number(s, pos) {
        Some((n, end)) => if end < s.len() && s[end] == LINE_END {
            Some((n, end + 1))
        } else {
            None
        },
        None => None,
    }
}

/// Reads the shortcut written at `pos`.
fn scan_shortcut(text: &str, s: &Vec<char>, pos: usize) -> (r: Option<(Shortcut, usize)>)
    requires
        s@ == text@,
    ensures
        match r {
            Some((e, next)) => next <= s.len() && read_shortcut(s@, pos as int) == Some(
                (e@, next as int),
            ),
            None => read_shortcut(s@, pos as int) is None,
        },
{
    let (name_start, name_end) = match scan_text(s, pos) {
        Some(found) => found,
        None => {
            return None;
        },
    };
    let (target_start, end) = match scan_text(s, name_end) {
        Some(found) => found,
        None => {
            return None;
        },
    };
    if end >= s.len() || end + 1 >= s.len() || s[end + 1] != LINE_END {
        return None;
    }
    let kind = if s[end] == 'd' {
        Kind::Dir
    } else if s[end] == 'f' {
        Kind::File
    } else {
        return None;
    };
    let name = text.substring_char(name_start, name_end).to_owned();
    let target = text.substring_char(target_start, end).to_owned();
    Some((Shortcut { name, target, kind }, end + 2))
}

/// Reads the visit written at `pos`.
fn scan_visit(text: &str, s: &Vec<char>, pos: usize) -> (r: Option<(HistoryEntry, usize)>)
    requires
        s@ == text@,
    ensures
        match r {
            Some((e, next)) => next <= s.len() && read_visit(s@, pos as int) == Some(
                (e@, next as int),
            ),
            None => read_visit(s@, pos as int) is None,
        },
{
    let (seq, behind_seq) = match scan_number(s, pos) {
        Some(found) => found,
        None => {
            return None;
        },
    };
    let (path_start, end) = match scan_text(s, behind_seq) {
        Some(found) => found,
        None => {
            return None;
        },
    };
    if end >= s.len() || s[end] != LINE_END {
        return None;
    }
    let path = text.substring_char(path_start, end).to_owned();
    Some((HistoryEntry { path, seq }, end + 1))
}

/// Reads the place to come back to that is written at `pos`.
fn scan_bookmark(text: &str, s: &Vec<char>, pos: usize) -> (r: Option<(Option<String>, usize)>)
    requires
        s@ == text@,
    ensures
        match r {
            Some((place, next)) => next <= s.len() && read_bookmark(s@, pos as int) == Some(
                (text_of(place), next as int),
            ),
            None => read_bookmark(s@, pos as int) is None,
        },
{
    if pos >= s.len() {
        return None;
    }
    if s[pos] == '-' {
        if pos + 1 < s.len() && s[pos + 1] == LINE_END {
            Some((None, pos + 2))
        } else {
            None
        }
    } else if s[pos] == '+' {
        match scan_text(s, pos + 1) {
            Some((start, end)) => if end < s.len() && s[end] == LINE_END {
                Some((Some(text.substring_char(start, end).to_owned()), end + 1))
            } else {
                None
            },
            None => None,
        }
    } else {
        None
    }
}

/// What was read so far, followed by what is read from there on.
pub open spec fn read_on<T>(head: Seq<T>, tail: Option<(Seq<T>, int)>) -> Option<(Seq<T>, int)> {
    match tail {
        Some((rest, end)) => Some((head + rest, end)),
        None => None,
    }
}

/// Reads the `count` shortcuts written from `pos` on.
fn scan_shortcuts(text: &str, s: &Vec<char>, pos: usize, count: u64) -> (r: Option<
    (Vec<Shortcut>, usize),
>)
    requires
        s@ == text@,
        pos <= s.len(),
    ensures
        match r {
            Some((list, next)) => next <= s.len() && read_list(
                s@,
                pos as int,
                count as nat,
                shortcut_reader(),
            ) == Some((shortcut_views(list@), next as int)),
            None => read_list(s@, pos as int, count as nat, shortcut_reader()) is None,
        },
{
    let mut list: Vec<Shortcut> = Vec::new();
    let mut at: usize = pos;
    let mut done: u64 = 0;
    let ghost whole = read_list(s@, pos as int, count as nat, shortcut_reader());
    assert(whole == read_on(
        shortcut_views(list@),
        read_list(s@, at as int, (count - done) as nat, shortcut_reader()),
    )) by {
        let tail = read_list(s@, at as int, (count - done) as nat, shortcut_reader());
        match tail {
            Some((rest, _)) => {
                assert(shortcut_views(list@) + rest =~= rest);
            },
            None => {},
        }
    }
    while done < count
        invariant
            done <= count,
            at <= s.len(),
            s@ == text@,
            whole == read_list(s@, pos as int, count as nat, shortcut_reader()),
            whole == read_on(
                shortcut_views(list@),
                read_list(s@, at as int, (count - done) as nat, shortcut_reader()),
            ),
        decreases count - done,
    {
        let ghost head = shortcut_views(list@);
        match scan_shortcut(text, s, at) {
            Some((e, next)) => {
                proof {
                    let tail = read_list(s@, next as int, (count - done - 1) as nat, shortcut_reader());
                    match tail {
                        Some((rest, _)) => {
                            assert(head.push(e@) + rest =~= head + (seq![e@] + rest));
                        },
                        None => {},
                    }
                    assert(shortcut_views(list@.push(e)) =~= head.push(e@));
                }
                list.push(e);
                at = next;
                done += 1;
            },
            None => {
                return None;
            },
        }
    }
    assert(shortcut_views(list@) + Seq::<ShortcutView>::empty() =~= shortcut_views(list@));
    Some((list, at))
}

/// Reads the `count` visits written from `pos` on.
fn scan_visits(text: &str, s: &Vec<char>, pos: usize, count: u64) -> (r: Option<
    (Vec<HistoryEntry>, usize),
>)
    requires
        s@ == text@,
        pos <= s.len(),
    ensures
        match r {
            Some((list, next)) => next <= s.len() && read_list(
                s@,
                pos as int,
                count as nat,
                visit_reader(),
            ) == Some((entry_views(list@), next as int)),
            None => read_list(s@, pos as int, count as nat, visit_reader()) is None,
        },
{
    let mut list: Vec<HistoryEntry> = Vec::new();
    let mut at: usize = pos;
    let mut done: u64 = 0;
    let ghost whole = read_list(s@, pos as int, count as nat, visit_reader());
    assert(whole == read_on(
        entry_views(list@),
        read_list(s@, at as int, (count - done) as nat, visit_reader()),
    )) by {
        let tail = read_list(s@, at as int, (count - done) as nat, visit_reader());
        match tail {
            Some((rest, _)) => {
                assert(entry_views(list@) + rest =~= rest);
            },
            None => {},
        }
    }
    while done < count
        invariant
            done <= count,
            at <= s.len(),
            s@ == text@,
            whole == read_list(s@, pos as int, count as nat, visit_reader()),
            whole == read_on(
                entry_views(list@),
                read_list(s@, at as int, (count - done) as nat, visit_reader()),
            ),
        decreases count - done,
    {
        let ghost head = entry_views(list@);
        match scan_visit(text, s, at) {
            Some((e, next)) => {
                proof {
                    let tail = read_list(s@, next as int, (count - done - 1) as nat, visit_reader());
                    match tail {
                        Some((rest, _)) => {
                            assert(head.push(e@) + rest =~= head + (seq![e@] + rest));
                        },
                        None => {},
                    }
                    assert(entry_views(list@.push(e)) =~= head.push(e@));
                }
                list.push(e);
                at = next;
                done += 1;
            },
            None => {
                return None;
            },
        }
    }
    assert(entry_views(list@) + Seq::<HistoryEntryView>::empty() =~= entry_views(list@));
    Some((list, at))
}

/// Reads what a text says is kept. `config` is where the configuration
/// lies; the text does not say.
pub fn decode(config: &str, text: &str) -> (r: Result<Hopper, HopError>)
    ensures
        match read_state(text@, config@) {
            Some(state) => r matches Ok(hopper) && hopper@ == state,
            None => r matches Err(e) && e == HopError::Io,
        },
{
    let s = chars_of(text);
    let (shortcut_count, first_shortcut) = match scan_count(&s, 0) {
        Some(found) => found,
        None => {
            return Err(HopError::Io);
        },
    };
    let (shortcuts, behind_shortcuts) = match scan_shortcuts(text, &s, first_shortcut, shortcut_count) {
        Some(found) => found,
        None => {
            return Err(HopError::Io);
        },
    };
    let (visit_count, first_visit) = match scan_count(&s, behind_shortcuts) {
        Some(found) => found,
        None => {
            return Err(HopError::Io);
        },
    };
    let (visits, behind_visits) = match scan_visits(text, &s, first_visit, visit_count) {
        Some(found) => found,
        None => {
            return Err(HopError::Io);
        },
    };
    let (place, end) = match scan_bookmark(text, &s, behind_visits) {
        Some(found) => found,
        None => {
            return Err(HopError::Io);
        },
    };
    if end != s.len() {
        return Err(HopError::Io);
    }
    let store = match ShortcutStore::restore(shortcuts) {
        Some(store) => store,
        None => {
            return Err(HopError::Io);
        },
    };
    let log = match HistoryLog::restore(visits) {
        Some(log) => log,
        None => {
            return Err(HopError::Io);
        },
    };
    Ok(Hopper::from_parts(config.to_owned(), store, log, BackBookmark::restore(place)))
}

} // verus!
