//! What the change report shows: which records go in its table, how wide each
//! column is, and which names each summary line lists.
use vstd::prelude::*;
use vstd::string::StrSliceExecFns;
use crate::upgrade::{or_dash, short_text, Dep, Reason};

verus! {

/// Width of each column's header, `name`, `old req`, `locked`, `latest`,
/// `new req`; the reason column's header does not count.
pub open spec fn header_width(c: int) -> nat {
    if c == 0 {
        4
    } else if c == 1 {
        7
    } else if c == 2 {
        6
    } else if c == 3 {
        6
    } else if c == 4 {
        7
    } else {
        0
    }
}

/// The text of a record's cell in column `c`.
pub open spec fn cell(d: Dep, c: int) -> Seq<char> {
    if c == 0 {
        d.name@
    } else if c == 1 {
        d.old_version_req@
    } else if c == 2 {
        or_dash(d.locked_version)
    } else if c == 3 {
        or_dash(d.latest_version)
    } else if c == 4 {
        d.new_version_req@
    } else {
        match d.reason {
            Some(x) => short_text(x),
            None => ""@,
        }
    }
}

/// The widest cell of column `c` over the rows and the header.
pub open spec fn column_width(rows: Seq<Dep>, c: int) -> nat
    decreases rows.len(),
{
    if rows.len() == 0 {
        header_width(c)
    } else {
        let rest = column_width(rows.drop_last(), c);
        let here = cell(rows.last(), c).len();
        if here > rest {
            here
        } else {
            rest
        }
    }
}

fn cell_len(d: &Dep, c: usize) -> (r: usize)
    requires
        c < 6,
    ensures
        r == cell(*d, c as int).len(),
{
    if c == 0 {
        d.name.as_str().unicode_len()
    } else if c == 1 {
        d.old_version_req.as_str().unicode_len()
    } else if c == 2 {
        d.locked_version().unicode_len()
    } else if c == 3 {
        d.latest_version().unicode_len()
    } else if c == 4 {
        d.new_version_req.as_str().unicode_len()
    } else {
        d.short_reason().unicode_len()
    }
}

/// The width of each of the six columns of the report's table: the widest
/// cell of the column, in characters, header included.
pub fn column_widths(rows: &Vec<Dep>) -> (r: Vec<usize>)
    ensures
        r@.len() == 6,
        forall|c: int| 0 <= c < 6 ==> #[trigger] r@[c] == column_width(rows@, c),
{
    let mut widths: Vec<usize> = vec![4, 7, 6, 6, 7, 0];
    let n = rows.len();
    let mut i: usize = 0;
    assert(rows@.take(0) =~= Seq::<Dep>::empty());
    while i < n
        invariant
            n == rows@.len(),
            i <= n,
            widths@.len() == 6,
            forall|c: int|
                0 <= c < 6 ==> #[trigger] widths@[c] == column_width(rows@.take(i as int), c),
        decreases n - i,
    {
        let mut c: usize = 0;
        let ghost before = widths@;
        while c < 6
            invariant
                n == rows@.len(),
                i < n,
                c <= 6,
                widths@.len() == 6,
                forall|k: int| 0 <= k < c ==> #[trigger] widths@[k] == column_width(
                    rows@.take(i + 1),
                    k,
                ),
                forall|k: int| c <= k < 6 ==> #[trigger] widths@[k] == before[k],
                forall|k: int|
                    0 <= k < 6 ==> #[trigger] before[k] == column_width(rows@.take(i as int), k),
            decreases 6 - c,
        {
            let len = cell_len(&rows[i], c);
            proof {
                assert(rows@.take(i + 1).drop_last() =~= rows@.take(i as int));
                assert(rows@.take(i + 1).last() == rows@[i as int]);
                assert(column_width(rows@.take(i + 1), c as int) == if len > before[c as int] {
                    len as nat
                } else {
                    before[c as int] as nat
                });
            }
            if len > widths[c] {
                widths.set(c, len);
            }
            c = c + 1;
        }
        i = i + 1;
    }
    assert(rows@.take(n as int) =~= rows@);
    widths
}

/// Position `j` is among the listed ones.
pub open spec fn listed(rows: Seq<usize>, j: int) -> bool {
    exists|k: int| 0 <= k < rows.len() && rows[k] == j
}

/// Whether a record goes in the report's table.
pub open spec fn shown(d: Dep, verbose: bool) -> bool {
    verbose || d.interesting()
}

/// The records that go in the report's table, by position: all of them in
/// verbose mode, else the interesting ones.
pub fn table_rows(deps: &Vec<Dep>, verbose: bool) -> (r: Vec<usize>)
    ensures
        forall|k: int| 0 <= k < r@.len() ==> #[trigger] r@[k] < deps@.len(),
        forall|k: int, l: int| 0 <= k < l < r@.len() ==> r@[k] < r@[l],
        forall|i: int| 0 <= i < deps@.len() ==> (shown(deps@[i], verbose) <==> #[trigger] listed(r@, i)),
{
    let mut rows: Vec<usize> = Vec::new();
    let n = deps.len();
    let mut i: usize = 0;
    while i < n
        invariant
            n == deps@.len(),
            i <= n,
            forall|k: int| 0 <= k < rows@.len() ==> #[trigger] rows@[k] < i,
            forall|k: int, l: int| 0 <= k < l < rows@.len() ==> rows@[k] < rows@[l],
            forall|j: int| 0 <= j < i ==> (shown(deps@[j], verbose) <==> #[trigger] listed(rows@, j)),
        decreases n - i,
    {
        let ghost before = rows@;
        let show_row = verbose || deps[i].is_interesting();
        if show_row {
            rows.push(i);
        }
        assert forall|j: int| 0 <= j < i + 1 implies (shown(deps@[j], verbose) <==> #[trigger] listed(
            rows@,
            j,
        )) by {
            if j < i {
                if listed(rows@, j) {
                    let k = choose|k: int| 0 <= k < rows@.len() && rows@[k] == j;
                    if k == before.len() {
                        assert(rows@[k] == i);
                    } else {
                        assert(before[k] == j);
                    }
                    assert(listed(before, j));
                }
                if listed(before, j) {
                    let k = choose|k: int| 0 <= k < before.len() && before[k] == j;
                    assert(rows@[k] == j);
                }
            } else {
                if show_row {
                    assert(rows@[rows@.len() - 1] == j);
                } else {
                    assert(rows@ == before);
                    if listed(rows@, j) {
                        let k = choose|k: int| 0 <= k < rows@.len() && rows@[k] == j;
                        assert(before[k] < i);
                    }
                }
            }
        }
        i = i + 1;
    }
    rows
}

/// The names of the records left out of the table that carry this reason, in order.
pub open spec fn left_out_names(deps: Seq<Dep>, reason: Reason) -> Seq<Seq<char>>
    decreases deps.len(),
{
    if deps.len() == 0 {
        Seq::empty()
    } else {
        let rest = left_out_names(deps.drop_last(), reason);
        let d = deps.last();
        if !d.interesting() && d.reason == Some(reason) {
            rest.push(d.name@)
        } else {
            rest
        }
    }
}

/// The names of the records left out of the table that carry this reason,
/// sorted and each once; none in verbose mode, where the table shows every record.
pub fn summary_names(deps: &Vec<Dep>, verbose: bool, reason: Reason) -> (r: Vec<String>)
    ensures
        verbose ==> r@.len() == 0,
        !verbose ==> strictly_sorted(names_of_list(r@)),
        !verbose ==> forall|y: Seq<char>|
            names_of_list(r@).contains(y) <==> left_out_names(deps@, reason).contains(y),
{
    let mut names: Vec<String> = Vec::new();
    if verbose {
        return names;
    }
    let n = deps.len();
    let mut i: usize = 0;
    assert(deps@.take(0) =~= Seq::<Dep>::empty());
    assert(names_of_list(names@) =~= Seq::<Seq<char>>::empty());
    while i < n
        invariant
            n == deps@.len(),
            i <= n,
            strictly_sorted(names_of_list(names@)),
            forall|y: Seq<char>|
                names_of_list(names@).contains(y) <==> left_out_names(
                    deps@.take(i as int),
                    reason,
                ).contains(y),
        decreases n - i,
    {
        assert(deps@.take(i + 1).drop_last() =~= deps@.take(i as int));
        assert(deps@.take(i + 1).last() == deps@[i as int]);
        let ghost before = left_out_names(deps@.take(i as int), reason);
        if !deps[i].is_interesting() && deps[i].reason == Some(reason) {
            insert_sorted(&mut names, &deps[i].name);
            proof {
                let after = left_out_names(deps@.take(i + 1), reason);
                assert(after == before.push(deps@[i as int].name@));
                assert forall|y: Seq<char>| after.contains(y) <==> (before.contains(y) || y
                    == deps@[i as int].name@) by {
                    if after.contains(y) {
                        let k = choose|k: int| 0 <= k < after.len() && after[k] == y;
                        if k < before.len() {
                            assert(before[k] == y);
                        }
                    }
                    if before.contains(y) {
                        let k = choose|k: int| 0 <= k < before.len() && before[k] == y;
                        assert(after[k] == y);
                    }
                    if y == deps@[i as int].name@ {
                        assert(after[before.len() as int] == y);
                    }
                }
            }
        }
        i = i + 1;
    }
    assert(deps@.take(n as int) =~= deps@);
    names
}

/// Text order: character by character, a proper prefix first.
pub open spec fn lex_lt(a: Seq<char>, b: Seq<char>) -> bool
    decreases a.len(),
{
    if a.len() == 0 {
        b.len() > 0
    } else if b.len() == 0 {
        false
    } else if a[0] != b[0] {
        (a[0] as int) < (b[0] as int)
    } else {
        lex_lt(a.drop_first(), b.drop_first())
    }
}

/// Each text before every later one: sorted, without repeats.
pub open spec fn strictly_sorted(s: Seq<Seq<char>>) -> bool {
    forall|i: int, j: int| 0 <= i < j < s.len() ==> lex_lt(#[trigger] s[i], #[trigger] s[j])
}

pub proof fn lemma_lex_irreflexive(a: Seq<char>)
    ensures
        !lex_lt(a, a),
    decreases a.len(),
{
    if a.len() > 0 {
        lemma_lex_irreflexive(a.drop_first());
    }
}

pub proof fn lemma_lex_total(a: Seq<char>, b: Seq<char>)
    ensures
        a == b || lex_lt(a, b) || lex_lt(b, a),
    decreases a.len(),
{
    if a.len() > 0 && b.len() > 0 && a[0] == b[0] {
        lemma_lex_total(a.drop_first(), b.drop_first());
        if a.drop_first() == b.drop_first() {
            assert(a =~= seq![a[0]] + a.drop_first());
            assert(b =~= seq![b[0]] + b.drop_first());
        }
    } else if a.len() > 0 && b.len() > 0 {
        assert((a[0] as int) != (b[0] as int));
    } else if a.len() == 0 && b.len() == 0 {
        assert(a =~= b);
    }
}

pub proof fn lemma_lex_transitive(a: Seq<char>, b: Seq<char>, c: Seq<char>)
    requires
        lex_lt(a, b),
        lex_lt(b, c),
    ensures
        lex_lt(a, c),
    decreases a.len(),
{
    if a.len() > 0 && b.len() > 0 && c.len() > 0 && a[0] == b[0] && b[0] == c[0] {
        lemma_lex_transitive(a.drop_first(), b.drop_first(), c.drop_first());
    }
}

fn text_lt(a: &str, b: &str) -> (r: bool)
    ensures
        r == lex_lt(a@, b@),
{
    let n = a.unicode_len();
    let m = b.unicode_len();
    let mut i: usize = 0;
    assert(a@.skip(0) =~= a@);
    assert(b@.skip(0) =~= b@);
    while i < n && i < m
        invariant
            n == a@.len(),
            m == b@.len(),
            i <= n,
            i <= m,
            lex_lt(a@, b@) == lex_lt(a@.skip(i as int), b@.skip(i as int)),
        decreases n - i,
    {
        let x = a.get_char(i);
        let y = b.get_char(i);
        assert(a@.skip(i as int)[0] == x);
        assert(b@.skip(i as int)[0] == y);
        if x != y {
            return (x as u32) < (y as u32);
        }
        assert(a@.skip(i as int).drop_first() =~= a@.skip(i + 1));
        assert(b@.skip(i as int).drop_first() =~= b@.skip(i + 1));
        i = i + 1;
    }
    i < m
}

/// Puts `name` into the sorted list unless it is there already.
fn insert_sorted(names: &mut Vec<String>, name: &String)
    requires
        strictly_sorted(names_of_list(old(names)@)),
    ensures
        strictly_sorted(names_of_list(final(names)@)),
        forall|y: Seq<char>|
            names_of_list(final(names)@).contains(y) <==> (names_of_list(old(names)@).contains(y)
                || y == name@),
{
    let ghost s = names_of_list(names@);
    let n = names.len();
    let mut p: usize = 0;
    while p < n && text_lt(names[p].as_str(), name.as_str())
        invariant
            n == names@.len(),
            s == names_of_list(names@),
            p <= n,
            forall|q: int| 0 <= q < p ==> lex_lt(#[trigger] s[q], name@),
        decreases n - p,
    {
        p = p + 1;
    }
    if p < n && names[p] == *name {
        assert(s[p as int] == name@);
        return;
    }
    proof {
        if p < n {
            lemma_lex_total(s[p as int], name@);
            assert(!lex_lt(s[p as int], name@));
            assert(s[p as int] != name@);
            assert(lex_lt(name@, s[p as int]));
        }
        assert forall|q: int| p <= q < n implies lex_lt(name@, #[trigger] s[q]) by {
            if q > p {
                lemma_lex_transitive(name@, s[p as int], s[q]);
            }
        }
    }
    names.insert(p, name.clone());
    proof {
        let t = names_of_list(names@);
        assert(t =~= s.insert(p as int, name@));
        assert forall|i: int, j: int| 0 <= i < j < t.len() implies lex_lt(
            #[trigger] t[i],
            #[trigger] t[j],
        ) by {
            if j < p {
            } else if j == p {
            } else if i < p {
                assert(t[j] == s[j - 1]);
                lemma_lex_transitive(t[i], name@, t[j]);
            } else if i == p {
                assert(t[j] == s[j - 1]);
            } else {
                assert(t[i] == s[i - 1] && t[j] == s[j - 1]);
            }
        }
        assert forall|y: Seq<char>| t.contains(y) <==> (s.contains(y) || y == name@) by {
            if t.contains(y) {
                let k = choose|k: int| 0 <= k < t.len() && t[k] == y;
                if k < p {
                    assert(s[k] == y);
                } else if k > p {
                    assert(s[k - 1] == y);
                }
            }
            if s.contains(y) {
                let k = choose|k: int| 0 <= k < s.len() && s[k] == y;
                if k < p {
                    assert(t[k] == y);
                } else {
                    assert(t[k + 1] == y);
                }
            }
            if y == name@ {
                assert(t[p as int] == y);
            }
        }
    }
}

pub open spec fn names_of_list(v: Seq<String>) -> Seq<Seq<char>> {
    v.map_values(|s: String| s@)
}

} // verus!
