//! The task table that `list` shows: one row per task, sorted by name, with
//! its description and dependencies.

use vstd::prelude::*;
use vstd::string::*;

use crate::entries::keys_unique;
use crate::tasks::Task;
use crate::text::{push_char, views};

verus! {

/// `a` comes strictly before `b` in lexicographic order of characters,
/// which is the byte order of their UTF-8 encodings.
pub open spec fn lex_lt(a: Seq<char>, b: Seq<char>) -> bool
    decreases a.len(),
{
    if a.len() == 0 {
        b.len() > 0
    } else if b.len() == 0 {
        false
    } else if a[0] != b[0] {
        (a[0] as int) < (b[0] as int)
    } else {
        lex_lt(a.drop_first(), b.drop_first())
    }
}

pub proof fn lemma_lex_total(a: Seq<char>, b: Seq<char>)
    requires
        a != b,
    ensures
        lex_lt(a, b) || lex_lt(b, a),
    decreases a.len(),
{
    if a.len() > 0 && b.len() > 0 && a[0] == b[0] {
        if a.drop_first() == b.drop_first() {
            assert(a == seq![a[0]] + a.drop_first());
            assert(b == seq![b[0]] + b.drop_first());
        }
        lemma_lex_total(a.drop_first(), b.drop_first());
    } else if a.len() == 0 && b.len() == 0 {
        assert(a == b);
    }
}

pub proof fn lemma_lex_transitive(a: Seq<char>, b: Seq<char>, c: Seq<char>)
    requires
        lex_lt(a, b),
        lex_lt(b, c),
    ensures
        lex_lt(a, c),
    decreases a.len(),
{
    if a.len() > 0 && b.len() > 0 && c.len() > 0 && a[0] == b[0] && b[0] == c[0] {
        lemma_lex_transitive(a.drop_first(), b.drop_first(), c.drop_first());
    }
}

/// Whether `a` comes strictly before `b`.
fn less(a: &String, b: &String) -> (r: bool)
    ensures
        r == lex_lt(a@, b@),
{
    let x = crate::text::chars_of(a.as_str());
    let y = crate::text::chars_of(b.as_str());
    let mut i: usize = 0;
    assert(x@.skip(0) == x@ && y@.skip(0) == y@);
    while i < x.len() && i < y.len() && x[i] == y[i]
        invariant
            i <= x@.len(),
            i <= y@.len(),
            lex_lt(x@.skip(i as int), y@.skip(i as int)) == lex_lt(x@, y@),
        decreases x@.len() - i,
    {
        assert(x@.skip(i as int).drop_first() == x@.skip(i + 1));
        assert(y@.skip(i as int).drop_first() == y@.skip(i + 1));
        i += 1;
    }
    if i == x.len() {
        i < y.len()
    } else if i == y.len() {
        false
    } else {
        assert(x@.skip(i as int)[0] == x@[i as int] && y@.skip(i as int)[0] == y@[i as int]);
        x[i] < y[i]
    }
}

/// `n` copies of `c`.
pub open spec fn repeat(c: char, n: nat) -> Seq<char> {
    Seq::new(n, |i: int| c)
}

/// `s` followed by spaces up to width `w`.
pub open spec fn pad_right(s: Seq<char>, w: nat) -> Seq<char> {
    if s.len() < w {
        s + repeat(' ', (w - s.len()) as nat)
    } else {
        s
    }
}

/// `s` centred in width `w`, the odd space going to the right.
pub open spec fn centered(s: Seq<char>, w: nat) -> Seq<char> {
    if s.len() < w {
        let p = (w - s.len()) as nat;
        repeat(' ', p / 2) + s + repeat(' ', (p - p / 2) as nat)
    } else {
        s
    }
}

/// `parts` with `sep` between each two.
pub open spec fn joined(parts: Seq<Seq<char>>, sep: Seq<char>) -> Seq<char>
    decreases parts.len(),
{
    if parts.len() == 0 {
        seq![]
    } else if parts.len() == 1 {
        parts[0]
    } else {
        joined(parts.drop_last(), sep) + sep + parts.last()
    }
}

/// The description shown for a task.
pub open spec fn desc_cell(t: Task) -> Seq<char> {
    match t.desc {
        Some(d) => d@,
        None => "No description"@,
    }
}

/// The dependencies shown for a task.
pub open spec fn deps_cell(t: Task) -> Seq<char> {
    match t.depends_on {
        Some(d) => joined(views(d@), ", "@),
        None => "-"@,
    }
}

/// The width that a task's dependencies take: none for a task that
/// declares no list.
pub open spec fn deps_len(t: Task) -> nat {
    match t.depends_on {
        Some(d) => joined(views(d@), ", "@).len(),
        None => 0,
    }
}

pub open spec fn max(a: nat, b: nat) -> nat {
    if a < b {
        b
    } else {
        a
    }
}

/// The longest name, description and dependency list of the entries.
pub open spec fn widest(es: Seq<(String, Task)>) -> (nat, nat, nat)
    decreases es.len(),
{
    if es.len() == 0 {
        (0, 0, 0)
    } else {
        let w = widest(es.drop_last());
        let e = es.last();
        (
            max(w.0, e.0@.len()),
            max(w.1, desc_cell(e.1).len()),
            max(w.2, deps_len(e.1)),
        )
    }
}

/// The widths of the three columns, margins included.
pub open spec fn widths(es: Seq<(String, Task)>) -> (nat, nat, nat) {
    let w = widest(es);
    (max(w.0 + 2, 6), max(w.1 + 2, 13), max(w.2 + 2, 12))
}

/// A horizontal rule with corner or junction characters `l`, `m`, `r`.
pub open spec fn border(l: char, m: char, r: char, w: (nat, nat, nat)) -> Seq<char> {
    seq![l] + repeat('─', w.0) + seq![m] + repeat('─', w.1) + seq![m] + repeat('─', w.2) + seq![r]
}

/// A line of three cells.
pub open spec fn cells(a: Seq<char>, b: Seq<char>, c: Seq<char>) -> Seq<char> {
    "│ "@ + a + " │ "@ + b + " │ "@ + c + " │"@
}

/// The line of column titles.
pub open spec fn header(w: (nat, nat, nat)) -> Seq<char> {
    cells(
        centered("Task"@, (w.0 - 2) as nat),
        centered("Description"@, (w.1 - 2) as nat),
        centered("Dependencies"@, (w.2 - 2) as nat),
    )
}

/// The line of one task.
pub open spec fn row(e: (String, Task), w: (nat, nat, nat)) -> Seq<char> {
    cells(
        pad_right(e.0@, (w.0 - 2) as nat),
        pad_right(desc_cell(e.1), (w.1 - 2) as nat),
        pad_right(deps_cell(e.1), (w.2 - 2) as nat),
    )
}

/// `order` lists each entry once, by increasing name.
pub open spec fn by_name(es: Seq<(String, Task)>, order: Seq<int>) -> bool {
    &&& order.len() == es.len()
    &&& forall|i: int| 0 <= i < order.len() ==> 0 <= #[trigger] order[i] < es.len()
    &&& forall|i: int, j: int|
        0 <= i < j < order.len() ==> lex_lt(es[order[i]].0@, es[order[j]].0@)
}

/// The table of the entries, rows in the order `order`.
pub open spec fn table(es: Seq<(String, Task)>, order: Seq<int>) -> Seq<Seq<char>> {
    let w = widths(es);
    seq![border('┌', '┬', '┐', w), header(w), border('├', '┼', '┤', w)] + Seq::new(
        order.len(),
        |i: int| row(es[order[i]], w),
    ) + seq![border('└', '┴', '┘', w)]
}

/// What the listing shows when there are no tasks.
pub open spec fn no_tasks_line() -> Seq<char> {
    "No tasks found in Taskfile."@
}

fn push_repeat(out: &mut String, c: char, n: u128)
    ensures
        final(out)@ == old(out)@ + repeat(c, n as nat),
{
    let mut i: u128 = 0;
    while i < n
        invariant
            i <= n,
            out@ == old(out)@ + repeat(c, i as nat),
        decreases n - i,
    {
        push_char(out, c);
        i += 1;
        assert(repeat(c, i as nat) == repeat(c, (i - 1) as nat).push(c));
    }
}

fn push_padded(out: &mut String, s: &str, w: u128)
    ensures
        final(out)@ == old(out)@ + pad_right(s@, w as nat),
{
    let n = s.unicode_len() as u128;
    out.append(s);
    if n < w {
        push_repeat(out, ' ', w - n);
    }
}

fn push_centered(out: &mut String, s: &str, w: u128)
    ensures
        final(out)@ == old(out)@ + centered(s@, w as nat),
{
    let n = s.unicode_len() as u128;
    if n < w {
        let p = w - n;
        push_repeat(out, ' ', p / 2);
        out.append(s);
        push_repeat(out, ' ', p - p / 2);
    } else {
        out.append(s);
    }
}

/// The dependencies of a task, separated by commas.
fn join_deps(d: &Vec<String>) -> (r: String)
    ensures
        r@ == joined(views(d@), ", "@),
{
    let mut r = String::new();
    let mut i: usize = 0;
    while i < d.len()
        invariant
            i <= d@.len(),
            r@ == joined(views(d@).take(i as int), ", "@),
        decreases d@.len() - i,
    {
        let ghost before = views(d@).take(i as int);
        assert(views(d@).take(i + 1).drop_last() == before);
        if i > 0 {
            r.append(", ");
        } else {
            assert(views(d@).take(1) == seq![d@[0]@]);
        }
        r.append(d[i].as_str());
        i += 1;
    }
    assert(views(d@).take(i as int) == views(d@));
    r
}

fn desc_text(t: &Task) -> (r: String)
    ensures
        r@ == desc_cell(*t),
{
    match &t.desc {
        Some(d) => d.clone(),
        None => String::from_str("No description"),
    }
}

fn deps_text(t: &Task) -> (r: String)
    ensures
        r@ == deps_cell(*t),
        t.depends_on is Some ==> r@.len() == deps_len(*t),
{
    match &t.depends_on {
        Some(d) => join_deps(d),
        None => String::from_str("-"),
    }
}

/// The column widths of the table of `es`.
fn table_widths(es: &Vec<(String, Task)>) -> (r: (u128, u128, u128))
    ensures
        (r.0 as nat, r.1 as nat, r.2 as nat) == widths(es@),
{
    let mut a: u128 = 0;
    let mut b: u128 = 0;
    let mut c: u128 = 0;
    let mut i: usize = 0;
    while i < es.len()
        invariant
            i <= es@.len(),
            (a as nat, b as nat, c as nat) == widest(es@.take(i as int)),
            a <= usize::MAX && b <= usize::MAX && c <= usize::MAX,
        decreases es@.len() - i,
    {
        assert(es@.take(i + 1).drop_last() == es@.take(i as int));
        assert(es@.take(i + 1).last() == es@[i as int]);
        let e = &es[i];
        let n = e.0.unicode_len() as u128;
        let d = desc_text(&e.1).unicode_len() as u128;
        let p = match &e.1.depends_on {
            Some(_) => deps_text(&e.1).unicode_len() as u128,
            None => 0,
        };
        if a < n {
            a = n;
        }
        if b < d {
            b = d;
        }
        if c < p {
            c = p;
        }
        i += 1;
    }
    assert(es@.take(i as int) == es@);
    let wa = if a + 2 < 6 { 6 } else { a + 2 };
    let wb = if b + 2 < 13 { 13 } else { b + 2 };
    let wc = if c + 2 < 12 { 12 } else { c + 2 };
    (wa, wb, wc)
}

fn border_line(l: char, m: char, r: char, w: (u128, u128, u128)) -> (s: String)
    ensures
        s@ == border(l, m, r, (w.0 as nat, w.1 as nat, w.2 as nat)),
{
    let mut s = String::new();
    push_char(&mut s, l);
    push_repeat(&mut s, '─', w.0);
    push_char(&mut s, m);
    push_repeat(&mut s, '─', w.1);
    push_char(&mut s, m);
    push_repeat(&mut s, '─', w.2);
    push_char(&mut s, r);
    assert(s@ == border(l, m, r, (w.0 as nat, w.1 as nat, w.2 as nat)));
    s
}

fn header_line(w: (u128, u128, u128)) -> (s: String)
    requires
        w.0 >= 2 && w.1 >= 2 && w.2 >= 2,
    ensures
        s@ == header((w.0 as nat, w.1 as nat, w.2 as nat)),
{
    let mut s = String::from_str("│ ");
    push_centered(&mut s, "Task", w.0 - 2);
    s.append(" │ ");
    push_centered(&mut s, "Description", w.1 - 2);
    s.append(" │ ");
    push_centered(&mut s, "Dependencies", w.2 - 2);
    s.append(" │");
    s
}

fn row_line(e: &(String, Task), w: (u128, u128, u128)) -> (s: String)
    requires
        w.0 >= 2 && w.1 >= 2 && w.2 >= 2,
    ensures
        s@ == row(*e, (w.0 as nat, w.1 as nat, w.2 as nat)),
{
    let mut s = String::from_str("│ ");
    push_padded(&mut s, e.0.as_str(), w.0 - 2);
    s.append(" │ ");
    push_padded(&mut s, desc_text(&e.1).as_str(), w.1 - 2);
    s.append(" │ ");
    push_padded(&mut s, deps_text(&e.1).as_str(), w.2 - 2);
    s.append(" │");
    s
}

/// The indices of the entries, by increasing name.
fn name_order(es: &Vec<(String, Task)>) -> (order: Vec<usize>)
    requires
        keys_unique(es@),
    ensures
        by_name(es@, order@.map_values(|i: usize| i as int)),
{
    let n = es.len();
    let mut rest: Vec<usize> = Vec::new();
    let mut i: usize = 0;
    while i < n
        invariant
            n == es@.len(),
            i <= n,
            rest@.len() == i,
            forall|k: int| 0 <= k < i ==> rest@[k] == k,
        decreases n - i,
    {
        rest.push(i);
        i += 1;
    }
    let mut order: Vec<usize> = Vec::new();
    while rest.len() > 0
        invariant
            n == es@.len(),
            keys_unique(es@),
            order@.len() + rest@.len() == n,
            forall|k: int| 0 <= k < rest@.len() ==> #[trigger] rest@[k] < n,
            forall|k: int| 0 <= k < order@.len() ==> #[trigger] order@[k] < n,
            forall|a: int, b: int| 0 <= a < b < rest@.len() ==> rest@[a] != rest@[b],
            forall|a: int, b: int|
                0 <= a < b < order@.len() ==> lex_lt(
                    es@[order@[a] as int].0@,
                    es@[order@[b] as int].0@,
                ),
            forall|a: int, b: int|
                0 <= a < order@.len() && 0 <= b < rest@.len() ==> lex_lt(
                    es@[order@[a] as int].0@,
                    es@[rest@[b] as int].0@,
                ),
        decreases rest@.len(),
    {
        let mut best: usize = 0;
        let mut j: usize = 1;
        while j < rest.len()
            invariant
                n == es@.len(),
                keys_unique(es@),
                forall|k: int| 0 <= k < rest@.len() ==> #[trigger] rest@[k] < n,
                forall|a: int, b: int| 0 <= a < b < rest@.len() ==> rest@[a] != rest@[b],
                0 <= best < j <= rest@.len(),
                forall|k: int|
                    0 <= k < j && k != best ==> lex_lt(
                        es@[rest@[best as int] as int].0@,
                        es@[#[trigger] rest@[k] as int].0@,
                    ),
            decreases rest@.len() - j,
        {
            let cand = rest[j];
            let cur = rest[best];
            if less(&es[cand].0, &es[cur].0) {
                proof {
                    assert forall|k: int| 0 <= k < j + 1 && k != j implies lex_lt(
                        es@[cand as int].0@,
                        es@[#[trigger] rest@[k] as int].0@,
                    ) by {
                        if k != best {
                            lemma_lex_transitive(
                                es@[cand as int].0@,
                                es@[cur as int].0@,
                                es@[rest@[k] as int].0@,
                            );
                        }
                    }
                }
                best = j;
            } else {
                proof {
                    assert(es@[cand as int].0@ != es@[cur as int].0@) by {
                        if cand < cur {
                            assert(es@[cand as int].0@ != es@[cur as int].0@);
                        } else {
                            assert(cand != cur);
                        }
                    }
                    lemma_lex_total(es@[cand as int].0@, es@[cur as int].0@);
                }
            }
            j += 1;
        }
        let ghost old_rest = rest@;
        let ghost old_order = order@;
        proof {
            old_rest.remove_ensures(best as int);
        }
        let x = rest.remove(best);
        order.push(x);
        proof {
            assert forall|b: int| 0 <= b < rest@.len() implies lex_lt(
                es@[x as int].0@,
                es@[rest@[b] as int].0@,
            ) by {
                if b < best {
                    assert(rest@[b] == old_rest[b]);
                } else {
                    assert(rest@[b] == old_rest[b + 1]);
                }
            }
            assert forall|a: int, b: int| 0 <= a < b < rest@.len() implies rest@[a] != rest@[b] by {
                let a2 = if a < best { a } else { a + 1 };
                let b2 = if b < best { b } else { b + 1 };
                assert(rest@[a] == old_rest[a2] && rest@[b] == old_rest[b2]);
            }
            assert forall|a: int, b: int|
                0 <= a < order@.len() && 0 <= b < rest@.len() implies lex_lt(
                es@[order@[a] as int].0@,
                es@[rest@[b] as int].0@,
            ) by {
                let b2 = if b < best { b } else { b + 1 };
                assert(rest@[b] == old_rest[b2]);
                if a < old_order.len() {
                    assert(order@[a] == old_order[a]);
                }
            }
            assert forall|a: int, b: int| 0 <= a < b < order@.len() implies lex_lt(
                es@[order@[a] as int].0@,
                es@[order@[b] as int].0@,
            ) by {
                assert(order@[a] == old_order[a]);
                if b < old_order.len() {
                    assert(order@[b] == old_order[b]);
                } else {
                    assert(order@[b] == old_rest[best as int]);
                }
            }
        }
    }
    order
}

/// The lines of the task table of `es`: a message when there are no
/// tasks; else a framed table with a title row and one row per task, by
/// increasing name, each column as wide as its widest cell.
pub fn task_table(es: &Vec<(String, Task)>) -> (r: Vec<String>)
    requires
        keys_unique(es@),
    ensures
        es@.len() == 0 ==> views(r@) == seq![no_tasks_line()],
        es@.len() > 0 ==> exists|order: Seq<int>|
            by_name(es@, order) && views(r@) == #[trigger] table(es@, order),
{
    let mut r: Vec<String> = Vec::new();
    if es.len() == 0 {
        r.push(String::from_str("No tasks found in Taskfile."));
        assert(views(r@) == seq![no_tasks_line()]);
        return r;
    }
    let w = table_widths(es);
    let ghost wn = (w.0 as nat, w.1 as nat, w.2 as nat);
    let order = name_order(es);
    let ghost ord = order@.map_values(|i: usize| i as int);
    r.push(border_line('┌', '┬', '┐', w));
    r.push(header_line(w));
    r.push(border_line('├', '┼', '┤', w));
    let ghost top = views(r@);
    assert(top =~= seq![border('┌', '┬', '┐', wn), header(wn), border('├', '┼', '┤', wn)]);
    let mut i: usize = 0;
    while i < order.len()
        invariant
            by_name(es@, ord),
            ord == order@.map_values(|i: usize| i as int),
            wn == widths(es@),
            wn == (w.0 as nat, w.1 as nat, w.2 as nat),
            w.0 >= 2 && w.1 >= 2 && w.2 >= 2,
            i <= order@.len(),
            top == seq![border('┌', '┬', '┐', wn), header(wn), border('├', '┼', '┤', wn)],
            views(r@) == top + Seq::new(i as nat, |k: int| row(es@[ord[k]], wn)),
        decreases order@.len() - i,
    {
        assert(ord[i as int] == order@[i as int] as int);
        let line = row_line(&es[order[i]], w);
        assert(line@ == row(es@[ord[i as int]], wn));
        let ghost prev = views(r@);
        r.push(line);
        assert(views(r@) == prev.push(line@));
        i += 1;
        assert(views(r@) =~= top + Seq::new(i as nat, |k: int| row(es@[ord[k]], wn)));
    }
    let ghost body = views(r@);
    let last = border_line('└', '┴', '┘', w);
    r.push(last);
    assert(views(r@) == body.push(last@));
    assert(views(r@) =~= table(es@, ord));
    r
}

} // verus!
