//! What the answers of systemd are read as.

use crate::calendar;
use crate::number;
use crate::parts;
use crate::systemd;
use crate::systemd::EntryView;
use crate::text;
use crate::ui::health;
use crate::ui::health::HealthView;
use vstd::prelude::*;

verus! {

broadcast use vstd::string::group_string_axioms;

// ---------------------------------------------------------------------------
// Blocks of lines
// ---------------------------------------------------------------------------

/// Whether some lines make a block: at least one, and none of them empty.
pub open spec fn is_block(lines: Seq<Seq<char>>) -> bool {
    &&& lines.len() > 0
    &&& forall|i: int|
        0 <= i < lines.len() ==> (#[trigger] lines[i]).len() > 0 && parts::is_line(lines[i])
}

/// Blocks as `systemctl show` prints them: each line ended, and an empty line
/// between two blocks.
pub open spec fn printed_of(blocks: Seq<Seq<Seq<char>>>) -> Seq<char>
    decreases blocks.len(),
{
    if blocks.len() == 0 {
        seq![]
    } else if blocks.len() == 1 {
        parts::unlines_of(blocks[0])
    } else {
        parts::unlines_of(blocks[0]) + seq!['\n'] + printed_of(blocks.skip(1))
    }
}

/// Whether no newline follows another before `n`.
spec fn no_gap(s: Seq<char>, n: int) -> bool {
    forall|i: int| 0 <= i < n && i + 1 < s.len() ==> !(#[trigger] s[i] == '\n' && s[i + 1] == '\n')
}

proof fn lemma_before(s: Seq<char>, n: int)
    requires
        0 <= n <= s.len(),
        no_gap(s, n),
        n < s.len() ==> n + 1 < s.len() && s[n] == '\n' && s[n + 1] == '\n',
    ensures
        text::before_of(s, seq!['\n', '\n']).len() == n,
    decreases n,
{
    let p = seq!['\n', '\n'];
    if n == 0 {
        if s.len() > 0 {
            assert(p =~= s.take(2));
            assert(p.is_prefix_of(s));
        }
    } else {
        assert(!p.is_prefix_of(s)) by {
            if p.is_prefix_of(s) {
                assert(s[0] == p[0] && s[1] == p[1]);
            }
        }
        let t = s.skip(1);
        assert forall|i: int| 0 <= i < n - 1 && i + 1 < t.len() implies !(#[trigger] t[i] == '\n'
            && t[i + 1] == '\n') by {
            assert(t[i] == s[i + 1]);
        }
        lemma_before(t, n - 1);
    }
}

/// Ended lines, none of them empty: no gap, and one newline at the end.
proof fn lemma_no_gap(lines: Seq<Seq<char>>)
    requires
        is_block(lines),
    ensures
        ({
            let s = parts::unlines_of(lines);
            s.len() > 1 && s[0] != '\n' && s.last() == '\n' && s[s.len() - 2] != '\n' && no_gap(
                s,
                s.len() as int,
            )
        }),
    decreases lines.len(),
{
    let s = parts::unlines_of(lines);
    let l = lines.last();
    let before = parts::unlines_of(lines.drop_last());
    assert(s =~= before + l + seq!['\n']);
    assert forall|i: int| 0 <= i < l.len() implies #[trigger] l[i] != '\n' by {
        assert(l.contains(l[i]));
    }
    if lines.len() > 1 {
        assert forall|i: int| 0 <= i < lines.len() - 1 implies (#[trigger] lines.drop_last()[i]).len()
            > 0 && parts::is_line(lines.drop_last()[i]) by {
            assert(lines.drop_last()[i] == lines[i]);
        }
        lemma_no_gap(lines.drop_last());
    } else {
        assert(lines.drop_last() =~= seq![]);
        assert(before =~= seq![]);
    }
    let n = before.len() as int;
    assert(s[s.len() - 2] == l.last());
    assert forall|i: int| 0 <= i < s.len() && i + 1 < s.len() implies !(#[trigger] s[i] == '\n'
        && s[i + 1] == '\n') by {
        if i + 1 < n {
            assert(s[i] == before[i] && s[i + 1] == before[i + 1]);
        } else if i + 1 < n + l.len() {
            assert(s[i + 1] == l[i + 1 - n]);
        } else {
            assert(s[i] == l[i - n]);
        }
    }
}

/// What is printed falls apart into its blocks again.
pub proof fn law_blocks_are_told_apart(blocks: Seq<Seq<Seq<char>>>)
    requires
        blocks.len() > 0,
        forall|i: int| 0 <= i < blocks.len() ==> is_block(#[trigger] blocks[i]),
    ensures
        ({
            let pieces = parts::split_str_of(printed_of(blocks), seq!['\n', '\n']);
            &&& pieces.len() == blocks.len()
            &&& forall|i: int|
                0 <= i < blocks.len() ==> parts::lines_of(#[trigger] pieces[i]) == blocks[i]
        }),
    decreases blocks.len(),
{
    let p = seq!['\n', '\n'];
    let s = printed_of(blocks);
    let b = blocks[0];
    let x = parts::unlines_of(b);
    lemma_no_gap(b);
    let pieces = parts::split_str_of(s, p);
    if blocks.len() == 1 {
        lemma_before(s, s.len() as int);
        assert(!p.is_prefix_of(s.skip(s.len() as int)));
        assert(pieces =~= seq![s]);
        parts::lemma_lines_unlines(b, seq![]);
        assert(parts::unlines_of(b) + seq![] =~= s);
        assert(parts::lines_of(Seq::<char>::empty()) =~= seq![]);
        assert(parts::lines_of(s) =~= b);
    } else {
        let n = x.len() - 1;
        let rest = printed_of(blocks.skip(1));
        assert(s =~= x + seq!['\n'] + rest);
        assert forall|i: int| 0 <= i < n && i + 1 < s.len() implies !(#[trigger] s[i] == '\n' && s[i
            + 1] == '\n') by {
            assert(s[i] == x[i] && s[i + 1] == x[i + 1]);
        }
        assert(s[n] == '\n' && s[n + 1] == '\n');
        lemma_before(s, n);
        assert(p =~= s.skip(n).take(2));
        assert(p.is_prefix_of(s.skip(n)));
        assert(s.skip(n + 2) =~= rest);
        let head = s.take(n);
        assert(parts::split_once_str_of(s, p) == Some((head, rest)));
        assert forall|i: int| 0 <= i < blocks.skip(1).len() implies is_block(
            #[trigger] blocks.skip(1)[i],
        ) by {
            assert(blocks.skip(1)[i] == blocks[i + 1]);
        }
        law_blocks_are_told_apart(blocks.skip(1));
        let more = parts::split_str_of(rest, p);
        assert(pieces =~= seq![head] + more);
        assert(head =~= x.drop_last());
        lemma_unended(b, head);
        assert forall|i: int| 0 <= i < blocks.len() implies parts::lines_of(#[trigger] pieces[i])
            == blocks[i] by {
            if i > 0 {
                assert(pieces[i] == more[i - 1]);
                assert(blocks.skip(1)[i - 1] == blocks[i]);
            }
        }
    }
}

/// Lines of which the last is not ended.
proof fn lemma_unended(b: Seq<Seq<char>>, head: Seq<char>)
    requires
        is_block(b),
        head == parts::unlines_of(b).drop_last(),
    ensures
        parts::lines_of(head) == b,
{
    let l = b.last();
    let front = b.drop_last();
    assert(head =~= parts::unlines_of(front) + l);
    assert forall|i: int| 0 <= i < front.len() implies parts::is_line(#[trigger] front[i]) by {
        assert(front[i] == b[i]);
    }
    parts::lemma_lines_unlines(front, l);
    assert(!l.contains('\n'));
    text::lemma_first_index(l, '\n');
    assert(text::first_index(l, '\n') == l.len()) by {
        let k = text::first_index(l, '\n');
        if k < l.len() {
            assert(l.contains(l[k]));
        }
    }
    assert(parts::lines_of(l) == seq![l]);
    assert(front + seq![l] =~= b);
}

// ---------------------------------------------------------------------------
// Properties
// ---------------------------------------------------------------------------

/// Lines that give properties.
pub open spec fn given_lines(pairs: Seq<(Seq<char>, Seq<char>)>) -> Seq<Seq<char>> {
    Seq::new(pairs.len(), |i: int| pairs[i].0 + seq!['='] + pairs[i].1)
}

/// Whether a text can name a property.
pub open spec fn is_key(k: Seq<char>) -> bool {
    &&& k.len() > 0
    &&& forall|i: int|
        0 <= i < k.len() ==> #[trigger] k[i] != '=' && k[i] != '\n' && !text::is_white(k[i])
}

/// Whether all names differ.
pub open spec fn keys_differ(pairs: Seq<(Seq<char>, Seq<char>)>) -> bool {
    &&& forall|i: int| 0 <= i < pairs.len() ==> is_key((#[trigger] pairs[i]).0)
    &&& forall|i: int, j: int|
        0 <= i < j < pairs.len() ==> (#[trigger] pairs[i]).0 != (#[trigger] pairs[j]).0
}

proof fn lemma_given(k: Seq<char>, v: Seq<char>)
    requires
        is_key(k),
    ensures
        parts::split_once_of(k + seq!['='] + v, '=') == Some((k, v)),
        text::trim_of(k) == k,
{
    assert(!k.contains('='));
    calendar::lemma_split_once(k, v, '=');
    text::lemma_trim_tight(k);
}

/// Each property has the value that its line gives.
pub proof fn law_properties_are_read(pairs: Seq<(Seq<char>, Seq<char>)>, key: Seq<char>)
    requires
        keys_differ(pairs),
    ensures
        ({
            let p = health::props_of(given_lines(pairs));
            &&& forall|i: int|
                0 <= i < pairs.len() ==> p.dom().contains((#[trigger] pairs[i]).0) && p[pairs[i].0]
                    == pairs[i].1
            &&& (forall|i: int| 0 <= i < pairs.len() ==> (#[trigger] pairs[i]).0 != key)
                ==> !p.dom().contains(key)
        }),
    decreases pairs.len(),
{
    let lines = given_lines(pairs);
    if pairs.len() > 0 {
        let less = pairs.drop_last();
        assert(lines.drop_last() =~= given_lines(less));
        assert forall|i: int| 0 <= i < less.len() implies is_key((#[trigger] less[i]).0) by {
            assert(less[i] == pairs[i]);
        }
        assert forall|i: int, j: int| 0 <= i < j < less.len() implies (#[trigger] less[i]).0 != (
        #[trigger] less[j]).0 by {
            assert(less[i] == pairs[i] && less[j] == pairs[j]);
        }
        law_properties_are_read(less, key);
        let (k, v) = pairs.last();
        assert(pairs[pairs.len() - 1] == (k, v));
        assert(is_key(k));
        lemma_given(k, v);
        assert(lines.last() == k + seq!['='] + v);
        let p = health::props_of(lines);
        assert(p == health::props_of(given_lines(less)).insert(k, v));
        assert forall|i: int| 0 <= i < pairs.len() implies p.dom().contains((#[trigger] pairs[i]).0)
            && p[pairs[i].0] == pairs[i].1 by {
            if i < less.len() {
                assert(less[i] == pairs[i]);
                assert(pairs[i].0 != pairs[pairs.len() - 1].0);
            }
        }
        if forall|i: int| 0 <= i < pairs.len() ==> (#[trigger] pairs[i]).0 != key {
            assert forall|i: int| 0 <= i < less.len() implies (#[trigger] less[i]).0 != key by {
                assert(less[i] == pairs[i]);
            }
        }
    }
}

/// The properties of a unit, as `systemctl show` gives them.
pub open spec fn shown_pairs(
    id: Seq<char>,
    active: Seq<char>,
    sub: Seq<char>,
    result: Seq<char>,
    status: i32,
    stamp: Seq<char>,
) -> Seq<(Seq<char>, Seq<char>)> {
    seq![
        ("Id"@, id),
        ("ActiveState"@, active),
        ("SubState"@, sub),
        ("Result"@, result),
        ("ExecMainStatus"@, number::signed_decimal(status as int)),
        ("ExecMainExitTimestamp"@, stamp),
    ]
}

proof fn lemma_names()
    ensures
        "Id"@.len() == 2 && is_key("Id"@),
        "ActiveState"@.len() == 11 && is_key("ActiveState"@),
        "SubState"@.len() == 8 && is_key("SubState"@),
        "Result"@.len() == 6 && is_key("Result"@),
        "ExecMainStatus"@.len() == 14 && is_key("ExecMainStatus"@),
        "ExecMainExitTimestamp"@.len() == 21 && is_key("ExecMainExitTimestamp"@),
        "UnitFileState"@.len() == 13 && is_key("UnitFileState"@),
{
    reveal_strlit("Id");
    reveal_strlit("ActiveState");
    reveal_strlit("SubState");
    reveal_strlit("Result");
    reveal_strlit("ExecMainStatus");
    reveal_strlit("ExecMainExitTimestamp");
    reveal_strlit("UnitFileState");
}

/// A signed number in digits is read back.
pub proof fn lemma_signed(n: i32)
    ensures
        ({
            let s = number::signed_decimal(n as int);
            &&& text::trim_of(s) == s
            &&& number::parse_signed(s, 0x8000_0000, 0x7fff_ffff) == Some(n as int)
        }),
{
    let s = number::signed_decimal(n as int);
    let a = if n < 0 {
        (-n) as nat
    } else {
        n as nat
    };
    let d = number::decimal(a);
    calendar::lemma_decimal(a);
    assert(text::is_digit(d[0]) && text::is_digit(d[d.len() - 1]));
    assert(s.last() == d.last());
    text::lemma_trim_tight(s);
    if n < 0 {
        assert(s.skip(1) =~= d);
    } else {
        number::lemma_decimal_parses(a, 0x7fff_ffff);
    }
}

/// A unit's health is what its properties say; a unit that never ran has no
/// time of its last run.
pub proof fn law_health_is_what_is_shown(
    id: Seq<char>,
    active: Seq<char>,
    sub: Seq<char>,
    result: Seq<char>,
    status: i32,
    stamp: Seq<char>,
)
    ensures
        ({
            let p = health::props_of(
                given_lines(shown_pairs(id, active, sub, result, status, stamp)),
            );
            &&& health::prop_of(p, "Id"@) == id
            &&& health::health_of(p) == (HealthView {
                active,
                sub,
                result,
                exit_status: Some(status),
                next: None,
                last: None,
                last_stamp: if stamp == seq!['n', '/', 'a'] {
                    seq![]
                } else {
                    stamp
                },
            })
        }),
{
    let pairs = shown_pairs(id, active, sub, result, status, stamp);
    lemma_names();
    law_properties_are_read(pairs, id);
    lemma_signed(status);
    reveal_strlit("n/a");
    assert("n/a"@ =~= seq!['n', '/', 'a']);
    let p = health::props_of(given_lines(pairs));
    assert(p[pairs[0].0] == id);
    assert(p[pairs[1].0] == active);
    assert(p[pairs[2].0] == sub);
    assert(p[pairs[3].0] == result);
    assert(p[pairs[4].0] == number::signed_decimal(status as int));
    assert(p[pairs[5].0] == stamp);
}

/// The state that the list shows is the one that the unit's own block gives.
pub proof fn law_state_is_what_is_shown(
    e: EntryView,
    before: Seq<Seq<char>>,
    block: Seq<char>,
    active: Seq<char>,
    enabled: Seq<char>,
)
    requires
        parts::lines_of(block) == given_lines(
            seq![("Id"@, e.primary), ("ActiveState"@, active), ("UnitFileState"@, enabled)],
        ),
    ensures
        systemd::with_state(e, before.push(block)) == (EntryView { active, enabled, ..e }),
{
    let pairs = seq![("Id"@, e.primary), ("ActiveState"@, active), ("UnitFileState"@, enabled)];
    let l = given_lines(pairs);
    lemma_names();
    lemma_given("Id"@, e.primary);
    lemma_given("ActiveState"@, active);
    lemma_given("UnitFileState"@, enabled);
    let a = l.drop_last();
    let b = a.drop_last();
    let c = b.drop_last();
    assert(c.len() == 0);
    assert(l.last() == "UnitFileState"@ + seq!['='] + enabled);
    assert(a.last() == "ActiveState"@ + seq!['='] + active);
    assert(b.last() == "Id"@ + seq!['='] + e.primary);
    reveal_with_fuel(systemd::state_of, 5);
    let st = systemd::state_of(l);
    assert(st.id == Some(e.primary) && st.active == active && st.enabled == enabled);
    let all = before.push(block);
    assert(all.last() == block);
}

/// Another unit's block leaves the state of a unit as it was.
pub proof fn law_other_blocks_leave_the_state(e: EntryView, blocks: Seq<Seq<char>>, other: Seq<char>)
    requires
        systemd::state_of(parts::lines_of(other)).id != Some(e.primary),
    ensures
        systemd::with_state(e, blocks.push(other)) == systemd::with_state(e, blocks),
        systemd::with_state(e, seq![]) == e,
{
    let all = blocks.push(other);
    assert(all.last() == other);
    assert(all.drop_last() =~= blocks);
    assert(systemd::state_for(all, e.primary) == systemd::state_for(blocks, e.primary));
}

// ---------------------------------------------------------------------------
// Both answers together
// ---------------------------------------------------------------------------

/// The unit that a block speaks of.
pub open spec fn block_id(block: Seq<char>) -> Seq<char> {
    health::prop_of(health::props_of(parts::lines_of(block)), "Id"@)
}

/// A unit's properties are those of the last block that names it.
pub proof fn law_blocks_belong_to_their_units(blocks: Seq<Seq<char>>, i: int)
    requires
        0 <= i < blocks.len(),
        block_id(blocks[i]).len() > 0,
        forall|j: int| i < j < blocks.len() ==> block_id(#[trigger] blocks[j]) != block_id(blocks[i]),
    ensures
        ({
            let id = block_id(blocks[i]);
            let m = health::healths_of(health::show_of(blocks));
            m.dom().contains(id) && m[id] == health::health_of(
                health::props_of(parts::lines_of(blocks[i])),
            )
        }),
    decreases blocks.len(),
{
    let less = blocks.drop_last();
    if i < blocks.len() - 1 {
        assert(less[i] == blocks[i]);
        assert forall|j: int| i < j < less.len() implies block_id(#[trigger] less[j]) != block_id(
            less[i],
        ) by {
            assert(less[j] == blocks[j]);
        }
        law_blocks_belong_to_their_units(less, i);
        assert(block_id(blocks[blocks.len() - 1]) != block_id(blocks[i]));
        assert(health::healths_of(health::show_of(less)).dom().contains(block_id(blocks[i])));
        assert(health::show_of(less).dom().contains(block_id(blocks[i])));
    }
}

/// A timer's times are those of the last row that names it; what else is
/// known of it stays, and other units are left alone.
pub proof fn law_times_belong_to_their_timers(
    m: Map<Seq<char>, HealthView>,
    rows: Seq<health::RowView>,
    unit: Seq<char>,
)
    ensures
        ({
            let r = health::with_rows(m, rows);
            let h = if m.dom().contains(unit) {
                m[unit]
            } else {
                health::unknown()
            };
            &&& (forall|i: int| 0 <= i < rows.len() ==> (#[trigger] rows[i]).unit != unit) ==> (
            r.dom().contains(unit) == m.dom().contains(unit) && (m.dom().contains(unit) ==> r[unit]
                == h))
            &&& forall|i: int|
                0 <= i < rows.len() && (#[trigger] rows[i]).unit == unit && (forall|j: int|
                    i < j < rows.len() ==> (#[trigger] rows[j]).unit != unit) ==> r.dom().contains(
                    unit,
                ) && r[unit] == (HealthView { next: rows[i].next, last: rows[i].last, ..h })
        }),
    decreases rows.len(),
{
    if rows.len() > 0 {
        let less = rows.drop_last();
        law_times_belong_to_their_timers(m, less, unit);
        lemma_rest_stays(m, less, unit);
        let r = health::with_rows(m, rows);
        let h = if m.dom().contains(unit) {
            m[unit]
        } else {
            health::unknown()
        };
        if forall|i: int| 0 <= i < rows.len() ==> (#[trigger] rows[i]).unit != unit {
            assert forall|i: int| 0 <= i < less.len() implies (#[trigger] less[i]).unit != unit by {
                assert(less[i] == rows[i]);
            }
            assert(rows[rows.len() - 1].unit != unit);
        }
        assert forall|i: int|
            0 <= i < rows.len() && (#[trigger] rows[i]).unit == unit && (forall|j: int|
                i < j < rows.len() ==> (#[trigger] rows[j]).unit != unit) implies r.dom().contains(
            unit,
        ) && r[unit] == (HealthView { next: rows[i].next, last: rows[i].last, ..h }) by {
            if i < less.len() {
                assert(less[i] == rows[i]);
                assert forall|j: int| i < j < less.len() implies (#[trigger] less[j]).unit
                    != unit by {
                    assert(less[j] == rows[j]);
                }
                assert(rows[rows.len() - 1].unit != unit);
            }
        }
    }
}

proof fn lemma_rest_stays(
    m: Map<Seq<char>, HealthView>,
    rows: Seq<health::RowView>,
    unit: Seq<char>,
)
    ensures
        ({
            let r = health::with_rows(m, rows);
            let h = if m.dom().contains(unit) {
                m[unit]
            } else {
                health::unknown()
            };
            let x = if r.dom().contains(unit) {
                r[unit]
            } else {
                health::unknown()
            };
            x == (HealthView { next: x.next, last: x.last, ..h })
        }),
    decreases rows.len(),
{
    if rows.len() > 0 {
        lemma_rest_stays(m, rows.drop_last(), unit);
    }
}

// ---------------------------------------------------------------------------
// The timer listing
// ---------------------------------------------------------------------------

/// A member of an object: its name, its value, and whether the value is
/// quoted.
#[verifier::ext_equal]
pub struct Member {
    pub key: Seq<char>,
    pub value: Seq<char>,
    pub quoted: bool,
}

/// Whether a text stands in quotes as it is.
pub open spec fn is_plain(s: Seq<char>) -> bool {
    forall|i: int| 0 <= i < s.len() ==> #[trigger] s[i] != '"' && s[i] != '\\'
}

impl Member {
    /// Whether the name is plain and the value is a plain text or a number.
    pub open spec fn is_valid(self) -> bool {
        is_plain(self.key) && if self.quoted {
            is_plain(self.value)
        } else {
            self.value.len() > 0 && number::all_digits(self.value)
        }
    }

    /// The value as JSON writes it.
    pub open spec fn value_text(self) -> Seq<char> {
        if self.quoted {
            seq!['"'] + self.value + seq!['"']
        } else {
            self.value
        }
    }
}

/// Members as JSON writes them, up to the brace that ends the object.
pub open spec fn members_text(ms: Seq<Member>) -> Seq<char>
    decreases ms.len(),
{
    if ms.len() == 0 {
        seq!['}']
    } else {
        let head = seq!['"'] + ms[0].key + seq!['"', ':'] + ms[0].value_text();
        if ms.len() == 1 {
            head + seq!['}']
        } else {
            head + seq![','] + members_text(ms.skip(1))
        }
    }
}

/// The values of some members, added to those of others.
pub open spec fn members_map(m: Map<Seq<char>, Seq<char>>, ms: Seq<Member>) -> Map<
    Seq<char>,
    Seq<char>,
>
    decreases ms.len(),
{
    if ms.len() == 0 {
        m
    } else {
        members_map(m.insert(ms[0].key, ms[0].value), ms.skip(1))
    }
}

proof fn lemma_string(k: Seq<char>, rest: Seq<char>)
    requires
        is_plain(k),
    ensures
        health::string_of(k + seq!['"'] + rest) == (k, rest),
    decreases k.len(),
{
    let s = k + seq!['"'] + rest;
    if k.len() == 0 {
        assert(s.skip(1) =~= rest);
    } else {
        assert(s[0] == k[0]);
        let t = k.skip(1);
        assert forall|i: int| 0 <= i < t.len() implies #[trigger] t[i] != '"' && t[i] != '\\' by {
            assert(t[i] == k[i + 1]);
        }
        lemma_string(t, rest);
        assert(s.skip(1) =~= t + seq!['"'] + rest);
        assert(seq![k[0]] + t =~= k);
    }
}

proof fn lemma_bare(d: Seq<char>, rest: Seq<char>)
    requires
        number::all_digits(d),
        rest.len() > 0,
        rest[0] == ',' || rest[0] == '}',
    ensures
        health::bare_len(d + rest) == d.len(),
    decreases d.len(),
{
    let s = d + rest;
    if d.len() == 0 {
        assert(s =~= rest);
    } else {
        assert(text::is_digit(d[0]));
        let t = d.skip(1);
        assert forall|i: int| 0 <= i < t.len() implies text::is_digit(#[trigger] t[i]) by {
            assert(t[i] == d[i + 1]);
        }
        lemma_bare(t, rest);
        assert(s.skip(1) =~= t + rest);
    }
}

proof fn lemma_value(x: Member, rest: Seq<char>)
    requires
        x.is_valid(),
        rest.len() > 0,
        rest[0] == ',' || rest[0] == '}',
    ensures
        health::value_of(x.value_text() + rest) == (x.value, rest),
        text::trim_start_of(x.value_text() + rest) == x.value_text() + rest,
{
    let s = x.value_text() + rest;
    if x.quoted {
        lemma_string(x.value, rest);
        assert(s.skip(1) =~= x.value + seq!['"'] + rest);
    } else {
        lemma_bare(x.value, rest);
        assert(text::is_digit(x.value[0]));
        assert(text::is_digit(x.value[x.value.len() - 1]));
        assert(s.take(x.value.len() as int) =~= x.value);
        assert(s.skip(x.value.len() as int) =~= rest);
        text::lemma_trim_tight(x.value);
        assert(s[0] == x.value[0]);
    }
}

proof fn lemma_member(x: Member, rest: Seq<char>, m: Map<Seq<char>, Seq<char>>)
    requires
        x.is_valid(),
        rest.len() > 0,
        rest[0] == ',' || rest[0] == '}',
    ensures
        health::object_of(seq!['"'] + x.key + seq!['"', ':'] + x.value_text() + rest, m)
            == health::object_of(
            if rest[0] == ',' {
                rest.skip(1)
            } else {
                rest
            },
            m.insert(x.key, x.value),
        ),
{
    let s = seq!['"'] + x.key + seq!['"', ':'] + x.value_text() + rest;
    let v = x.value_text() + rest;
    assert(health::from_key(s) == s);
    assert(s.skip(1) =~= x.key + seq!['"'] + (seq![':'] + v));
    lemma_string(x.key, seq![':'] + v);
    assert((seq![':'] + v).skip(1) =~= v);
    assert(health::behind_colon(seq![':'] + v) == v);
    lemma_value(x, rest);
    assert(health::to_value(s.skip(1)) == v);
    assert(text::trim_start_of(rest) == rest);
}

/// An object holds the members that are written in it.
pub proof fn law_objects_are_read(ms: Seq<Member>, rest: Seq<char>, m: Map<Seq<char>, Seq<char>>)
    requires
        forall|i: int| 0 <= i < ms.len() ==> (#[trigger] ms[i]).is_valid(),
    ensures
        health::object_of(members_text(ms) + rest, m) == Some((members_map(m, ms), rest)),
    decreases ms.len(),
{
    let s = members_text(ms) + rest;
    if ms.len() == 0 {
        assert(health::from_key(s) == s);
        assert(s.skip(1) =~= rest);
    } else {
        let x = ms[0];
        let more = ms.skip(1);
        assert forall|i: int| 0 <= i < more.len() implies (#[trigger] more[i]).is_valid() by {
            assert(more[i] == ms[i + 1]);
        }
        law_objects_are_read(more, rest, m.insert(x.key, x.value));
        let head = seq!['"'] + x.key + seq!['"', ':'] + x.value_text();
        let tail = if ms.len() == 1 {
            seq!['}'] + rest
        } else {
            seq![','] + (members_text(more) + rest)
        };
        assert(s =~= head + tail);
        lemma_member(x, tail, m);
        if ms.len() == 1 {
            assert(members_text(more) + rest =~= tail);
        } else {
            assert(tail.skip(1) =~= members_text(more) + rest);
        }
    }
}

/// A timer as the listing gives it.
pub open spec fn listed_timer(
    next: nat,
    left: nat,
    last: nat,
    passed: nat,
    unit: Seq<char>,
    activates: Seq<char>,
) -> Seq<Member> {
    let num = |k: Seq<char>, n: nat|
        Member { key: k, value: number::decimal(n), quoted: false };
    let str = |k: Seq<char>, v: Seq<char>| Member { key: k, value: v, quoted: true };
    seq![
        num("next"@, next),
        num("left"@, left),
        num("last"@, last),
        num("passed"@, passed),
        str("unit"@, unit),
        str("activates"@, activates),
    ]
}

/// A moment in microseconds; none and the greatest number mean never.
pub open spec fn moment(n: nat) -> Option<u64> {
    if n == 0 || n == u64::MAX {
        None
    } else {
        Some(n as u64)
    }
}

/// A timer's row has the times that the listing gives for it.
pub proof fn law_listed_timer_is_read(
    next: nat,
    left: nat,
    last: nat,
    passed: nat,
    unit: Seq<char>,
    activates: Seq<char>,
)
    requires
        next <= u64::MAX,
        last <= u64::MAX,
        unit.len() > 0,
        is_plain(unit),
        is_plain(activates),
    ensures
        health::rows_of(
            health::objects_of(
                seq!['[', '{'] + members_text(
                    listed_timer(next, left, last, passed, unit, activates),
                ) + seq![']'],
            ),
        ) == seq![health::RowView { unit, next: moment(next), last: moment(last) }],
{
    let ms = listed_timer(next, left, last, passed, unit, activates);
    let end = seq![']'];
    let s = seq!['[', '{'] + members_text(ms) + end;
    reveal_strlit("next");
    reveal_strlit("left");
    reveal_strlit("last");
    reveal_strlit("passed");
    reveal_strlit("unit");
    reveal_strlit("activates");
    calendar::lemma_decimal(next);
    calendar::lemma_decimal(left);
    calendar::lemma_decimal(last);
    calendar::lemma_decimal(passed);
    let none = Map::<Seq<char>, Seq<char>>::empty();
    law_objects_are_read(ms, end, none);
    assert(s.skip(1)[0] == '{');
    assert(s.skip(1).skip(1) =~= members_text(ms) + end);
    let m = members_map(none, ms);
    reveal_with_fuel(health::objects_of, 4);
    assert(end.skip(1) =~= seq![]);
    assert(health::objects_of(end) =~= seq![]);
    assert(health::objects_of(s) =~= seq![m]);
    lemma_listed_map(ms, none);
    number::lemma_decimal_parses(next, u64::MAX as nat);
    number::lemma_decimal_parses(last, u64::MAX as nat);
    assert("next"@ != "last"@) by {
        assert("next"@[0] == 'n' && "last"@[0] == 'l');
    }
    assert("left"@ != "last"@) by {
        assert("left"@[1] == 'e' && "last"@[1] == 'a');
    }
    assert("unit"@ != "last"@ && "unit"@ != "next"@ && "unit"@ != "left"@) by {
        assert("unit"@[0] == 'u' && "last"@[0] == 'l' && "next"@[0] == 'n' && "left"@[0] == 'l');
    }
    assert("left"@ != "next"@) by {
        assert("left"@[0] == 'l' && "next"@[0] == 'n');
    }
    assert("passed"@.len() == 6 && "activates"@.len() == 9);
    assert("last"@.len() == 4 && "next"@.len() == 4 && "unit"@.len() == 4);
    assert(m["next"@] == number::decimal(next));
    assert(m["last"@] == number::decimal(last));
    assert(m["unit"@] == unit);
    assert(seq![m].drop_last() =~= seq![]);
    reveal_with_fuel(health::rows_of, 2);
    assert(health::rows_of(seq![m]) =~= seq![
        health::RowView { unit, next: moment(next), last: moment(last) },
    ]);
}

proof fn lemma_listed_map(ms: Seq<Member>, m: Map<Seq<char>, Seq<char>>)
    requires
        ms.len() == 6,
    ensures
        members_map(m, ms) == m.insert(ms[0].key, ms[0].value).insert(
            ms[1].key,
            ms[1].value,
        ).insert(ms[2].key, ms[2].value).insert(ms[3].key, ms[3].value).insert(
            ms[4].key,
            ms[4].value,
        ).insert(ms[5].key, ms[5].value),
{
    reveal_with_fuel(members_map, 7);
    assert(ms.skip(1).skip(1).skip(1).skip(1).skip(1).skip(1).len() == 0);
}

// ---------------------------------------------------------------------------
// `systemd-analyze calendar`
// ---------------------------------------------------------------------------

/// Whether a text is white space only.
pub open spec fn is_space(s: Seq<char>) -> bool {
    forall|i: int| 0 <= i < s.len() ==> text::is_white(#[trigger] s[i])
}

/// Whether a text has no white space at either end, and is not empty.
pub open spec fn is_tight(s: Seq<char>) -> bool {
    s.len() > 0 && !text::is_white(s[0]) && !text::is_white(s.last())
}

/// White space before a text is trimmed.
pub proof fn lemma_indented(lead: Seq<char>, t: Seq<char>)
    requires
        is_space(lead),
        is_tight(t),
    ensures
        text::trim_of(lead + t) == t,
    decreases lead.len(),
{
    let s = lead + t;
    if lead.len() == 0 {
        assert(s =~= t);
        text::lemma_trim_tight(t);
    } else {
        let l = lead.skip(1);
        assert(text::is_white(lead[0]));
        assert forall|i: int| 0 <= i < l.len() implies text::is_white(#[trigger] l[i]) by {
            assert(l[i] == lead[i + 1]);
        }
        assert(s.skip(1) =~= l + t);
        lemma_indented(l, t);
    }
}

/// A line that gives a value: `    Next elapse: Sat 2026-08-15 02:30:00 CEST`.
pub open spec fn value_line(
    lead: Seq<char>,
    key: Seq<char>,
    gap: Seq<char>,
    value: Seq<char>,
) -> Seq<char> {
    lead + (key + seq![':'] + (gap + value))
}

/// Whether the parts of such a line are what they should be.
pub open spec fn is_value_line(
    lead: Seq<char>,
    key: Seq<char>,
    gap: Seq<char>,
    value: Seq<char>,
) -> bool {
    is_space(lead) && is_space(gap) && is_tight(key) && !key.contains(':') && is_tight(value)
}

proof fn lemma_value_line(lead: Seq<char>, key: Seq<char>, gap: Seq<char>, value: Seq<char>)
    requires
        is_value_line(lead, key, gap, value),
    ensures
        text::trim_of(value_line(lead, key, gap, value)) == key + seq![':'] + (gap + value),
        parts::split_once_of(key + seq![':'] + (gap + value), ':') == Some((key, gap + value)),
        text::trim_of(key) == key,
        text::trim_of(gap + value) == value,
{
    let t = key + seq![':'] + (gap + value);
    assert(t[0] == key[0]);
    assert(t.last() == value.last());
    lemma_indented(lead, t);
    lemma_indented(gap, value);
    text::lemma_trim_tight(key);
    calendar::lemma_split_once(key, gap + value, ':');
}

/// The next elapse is the one that the first such line gives.
pub proof fn law_next_elapse_is_found(
    lines: Seq<Seq<char>>,
    i: int,
    lead: Seq<char>,
    gap: Seq<char>,
    when: Seq<char>,
)
    requires
        0 <= i < lines.len(),
        is_space(lead),
        is_space(gap),
        is_tight(when),
        lines[i] == value_line(lead, "Next elapse"@, gap, when),
        forall|j: int|
            0 <= j < i ==> !"Next elapse:"@.is_prefix_of(text::trim_of(#[trigger] lines[j])),
    ensures
        systemd::next_elapse_of(lines) == Some(when),
    decreases i,
{
    reveal_strlit("Next elapse");
    reveal_strlit("Next elapse:");
    let key = "Next elapse"@;
    if i == 0 {
        assert(is_tight(key));
        assert(!key.contains(':'));
        lemma_value_line(lead, key, gap, when);
        let t = key + seq![':'] + (gap + when);
        assert("Next elapse:"@ =~= key + seq![':']);
        assert(t.take(12) =~= "Next elapse:"@);
        assert(t.skip(12) =~= gap + when);
        assert("Next elapse:"@.is_prefix_of(t));
    } else {
        let rest = lines.skip(1);
        assert(!"Next elapse:"@.is_prefix_of(text::trim_of(lines[0])));
        assert(rest[i - 1] == lines[i]);
        assert forall|j: int| 0 <= j < i - 1 implies !"Next elapse:"@.is_prefix_of(
            text::trim_of(#[trigger] rest[j]),
        ) by {
            assert(rest[j] == lines[j + 1]);
        }
        law_next_elapse_is_found(rest, i - 1, lead, gap, when);
    }
}

/// Whether a line starts a run.
pub open spec fn starts_run(key: Seq<char>) -> bool {
    key == "Next elapse"@ || "Iteration #"@.is_prefix_of(key)
}

/// Three lines make a run: its local time, the time in UTC, and how far off
/// it is.
pub proof fn law_runs_are_read(
    before: Seq<Seq<char>>,
    key: Seq<char>,
    lead: Seq<char>,
    gap: Seq<char>,
    run: systemd::RunView,
)
    requires
        starts_run(key),
        is_value_line(lead, key, gap, run.local),
        is_tight(run.utc),
        is_tight(run.from_now),
        text::lower_text(run.local) != "never"@,
    ensures
        systemd::iterations_of(
            before + seq![
                value_line(lead, key, gap, run.local),
                value_line(lead, "(in UTC)"@, gap, run.utc),
                value_line(lead, "From now"@, gap, run.from_now),
            ],
        ) == systemd::iterations_of(before).push(run),
{
    let u = "(in UTC)"@;
    let f = "From now"@;
    reveal_strlit("(in UTC)");
    reveal_strlit("From now");
    reveal_strlit("Next elapse");
    reveal_strlit("Iteration #");
    assert(is_tight(u) && !u.contains(':'));
    assert(is_tight(f) && !f.contains(':'));
    lemma_value_line(lead, key, gap, run.local);
    lemma_value_line(lead, u, gap, run.utc);
    lemma_value_line(lead, f, gap, run.from_now);
    assert(!starts_run(u)) by {
        assert(u[0] == '(');
        assert("Next elapse"@[0] == 'N' && "Iteration #"@[0] == 'I');
    }
    assert(!starts_run(f) && f != u) by {
        assert(f[0] == 'F' && u[0] == '(');
        assert("Next elapse"@[0] == 'N' && "Iteration #"@[0] == 'I');
    }
    let a = value_line(lead, key, gap, run.local);
    let b = value_line(lead, u, gap, run.utc);
    let c = value_line(lead, f, gap, run.from_now);
    let all = before + seq![a, b, c];
    assert(all.last() == c);
    let two = all.drop_last();
    assert(two =~= before + seq![a, b]);
    let one = two.drop_last();
    assert(one =~= before + seq![a]);
    assert(one.drop_last() =~= before);
    let runs = systemd::iterations_of(before);
    let first = systemd::RunView { local: run.local, utc: seq![], from_now: seq![] };
    assert(systemd::iterations_of(one) == runs.push(first));
    let second = systemd::RunView { utc: run.utc, ..first };
    assert(systemd::iterations_of(two) =~= runs.push(second));
    assert(systemd::iterations_of(all) =~= runs.push(run));
}

/// A schedule that never fires again has no next run.
pub proof fn law_never_is_no_run(
    before: Seq<Seq<char>>,
    key: Seq<char>,
    lead: Seq<char>,
    gap: Seq<char>,
    value: Seq<char>,
)
    requires
        starts_run(key),
        is_value_line(lead, key, gap, value),
        text::lower_text(value) == seq!['n', 'e', 'v', 'e', 'r'],
    ensures
        systemd::iterations_of(before.push(value_line(lead, key, gap, value)))
            == systemd::iterations_of(before),
{
    reveal_strlit("never");
    assert("never"@ =~= seq!['n', 'e', 'v', 'e', 'r']);
    lemma_value_line(lead, key, gap, value);
    let all = before.push(value_line(lead, key, gap, value));
    assert(all.drop_last() =~= before);
}

} // verus!
