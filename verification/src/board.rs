//! The board view: partitioning issues by status name, ranking the status
//! columns by lifecycle category with lexicographic tie-breaks, and
//! rendering the board document deterministically.

use vstd::prelude::*;
use crate::issue::JiraIssue;
use crate::text::lex_lt;
use crate::text::lex_lt_from;
use crate::text::str_eq;
use crate::text::str_lex_lt;

verus! {

/// One board column: a status name and its display rank.
pub struct StatusColumn {
    pub name: String,
    pub rank: u8,
}

/// The display rank of a status category: the fixed table, with 3 for an
/// unrecognized or absent category.
pub open spec fn spec_category_rank(category: Option<String>) -> int {
    match category {
        Some(c) => if c@ == "new"@ {
            0
        } else if c@ == "indeterminate"@ {
            1
        } else if c@ == "done"@ {
            2
        } else {
            3
        },
        None => 3,
    }
}

/// The display rank of a status category.
pub fn category_rank(category: &Option<String>) -> (r: u8)
    ensures
        r as int == spec_category_rank(*category),
{
    match category {
        Some(c) => {
            if str_eq(c.as_str(), "new") {
                0
            } else if str_eq(c.as_str(), "indeterminate") {
                1
            } else if str_eq(c.as_str(), "done") {
                2
            } else {
                3
            }
        },
        None => 3,
    }
}

/// The distinct status names of `issues[0..i]`, in first-seen order.
pub open spec fn spec_statuses_upto(issues: Seq<JiraIssue>, i: int) -> Seq<Seq<char>>
    decreases i,
{
    if i <= 0 {
        Seq::empty()
    } else {
        let prev = spec_statuses_upto(issues, i - 1);
        if prev.contains(issues[i - 1].status@) {
            prev
        } else {
            prev.push(issues[i - 1].status@)
        }
    }
}

/// The distinct status names of `issues`, in first-seen order.
pub open spec fn spec_statuses(issues: Seq<JiraIssue>) -> Seq<Seq<char>> {
    spec_statuses_upto(issues, issues.len() as int)
}

/// The rank of status `name`, read from the first issue at or after `i`
/// that bears it.
pub open spec fn spec_rank_from(issues: Seq<JiraIssue>, name: Seq<char>, i: int) -> int
    decreases issues.len() - i,
{
    if i < 0 || i >= issues.len() {
        3
    } else if issues[i].status@ == name {
        spec_category_rank(issues[i].status_category)
    } else {
        spec_rank_from(issues, name, i + 1)
    }
}

/// The rank of status `name`: fixed by the first issue bearing it.
pub open spec fn spec_status_rank(issues: Seq<JiraIssue>, name: Seq<char>) -> int {
    spec_rank_from(issues, name, 0)
}

/// Display order of two status names: ascending rank, ties broken by
/// lexicographic comparison of the names.
pub open spec fn spec_status_before(issues: Seq<JiraIssue>, a: Seq<char>, b: Seq<char>) -> bool {
    ||| spec_status_rank(issues, a) < spec_status_rank(issues, b)
    ||| (spec_status_rank(issues, a) == spec_status_rank(issues, b) && lex_lt(a, b))
}

/// Insertion of `x` into a display-ordered list of status names.
pub open spec fn spec_insert_status(
    issues: Seq<JiraIssue>,
    sorted: Seq<Seq<char>>,
    x: Seq<char>,
) -> Seq<Seq<char>>
    decreases sorted.len(),
{
    if sorted.len() == 0 {
        seq![x]
    } else if spec_status_before(issues, x, sorted[0]) {
        seq![x] + sorted
    } else {
        seq![sorted[0]] + spec_insert_status(issues, sorted.drop_first(), x)
    }
}

/// Insertion sort of the first `i` of `names` into display order.
pub open spec fn spec_sorted_upto(issues: Seq<JiraIssue>, names: Seq<Seq<char>>, i: int) -> Seq<
    Seq<char>,
>
    decreases i,
{
    if i <= 0 {
        Seq::empty()
    } else {
        spec_insert_status(issues, spec_sorted_upto(issues, names, i - 1), names[i - 1])
    }
}

/// The board's status columns: the distinct status names in display order.
pub open spec fn spec_ordered_statuses(issues: Seq<JiraIssue>) -> Seq<Seq<char>> {
    spec_sorted_upto(issues, spec_statuses(issues), spec_statuses(issues).len() as int)
}

/// The names of a column list.
pub open spec fn col_names(cols: Seq<StatusColumn>) -> Seq<Seq<char>> {
    cols.map_values(|c: StatusColumn| c.name@)
}

/// Every stored rank agrees with the rank the issue list assigns the name.
pub open spec fn ranks_ok(issues: Seq<JiraIssue>, cols: Seq<StatusColumn>) -> bool {
    forall|j: int|
        0 <= j < cols.len() ==> #[trigger] cols[j].rank as int == spec_status_rank(
            issues,
            cols[j].name@,
        )
}

/// Every status of `issues[0..i]` appears among the names collected so far.
proof fn lemma_statuses_upto_complete(issues: Seq<JiraIssue>, i: int)
    requires
        0 <= i <= issues.len(),
    ensures
        forall|k: int| 0 <= k < i ==> spec_statuses_upto(issues, i).contains(issues[k].status@),
    decreases i,
{
    if i > 0 {
        lemma_statuses_upto_complete(issues, i - 1);
        let prev = spec_statuses_upto(issues, i - 1);
        let cur = spec_statuses_upto(issues, i);
        assert forall|k: int| 0 <= k < i implies cur.contains(issues[k].status@) by {
            if k < i - 1 {
                let w = choose|w: int|
                    0 <= w < prev.len() && prev[w] == issues[k].status@;
                assert(cur[w] == issues[k].status@);
            } else {
                if prev.contains(issues[i - 1].status@) {
                } else {
                    assert(cur[prev.len() as int] == issues[i - 1].status@);
                }
            }
        }
    }
}

/// A name borne by no issue before `i` takes its rank from `i` onward.
proof fn lemma_rank_skip_prefix(issues: Seq<JiraIssue>, name: Seq<char>, i: int)
    requires
        0 <= i <= issues.len(),
        forall|k: int| 0 <= k < i ==> issues[k].status@ != name,
    ensures
        spec_status_rank(issues, name) == spec_rank_from(issues, name, i),
    decreases i,
{
    if i > 0 {
        lemma_rank_skip_prefix(issues, name, i - 1);
    }
}

/// Collects the distinct statuses of `issues` in first-seen order, each
/// with the rank of the first issue bearing it.
fn status_columns(issues: &Vec<JiraIssue>) -> (r: Vec<StatusColumn>)
    ensures
        col_names(r@) == spec_statuses(issues@),
        ranks_ok(issues@, r@),
{
    let mut cols: Vec<StatusColumn> = Vec::new();
    let n = issues.len();
    let mut i: usize = 0;
    while i < n
        invariant
            n == issues@.len(),
            0 <= i <= n,
            col_names(cols@) == spec_statuses_upto(issues@, i as int),
            ranks_ok(issues@, cols@),
        decreases n - i,
    {
        let ghost seen = spec_statuses_upto(issues@, i as int);
        let ghost st = issues@[i as int].status@;
        let mut found: bool = false;
        let mut j: usize = 0;
        let m = cols.len();
        while j < m
            invariant
                m == cols@.len(),
                0 <= j <= m,
                found == exists|k: int| 0 <= k < j && #[trigger] cols@[k].name@ == st,
                st == issues@[i as int].status@,
                i < n,
                n == issues@.len(),
            decreases m - j,
        {
            if cols[j].name == issues[i].status {
                found = true;
                assert(cols@[j as int].name@ == st);
            }
            j += 1;
        }
        proof {
            if found {
                let k = choose|k: int| 0 <= k < cols@.len() && #[trigger] cols@[k].name@ == st;
                assert(seen[k] == st);
                assert(seen.contains(st));
            } else {
                assert forall|k: int| 0 <= k < seen.len() implies seen[k] != st by {
                    assert(seen[k] == cols@[k].name@);
                }
                assert(!seen.contains(st));
            }
        }
        if !found {
            proof {
                lemma_statuses_upto_complete(issues@, i as int);
                assert forall|k: int| 0 <= k < i implies issues@[k].status@ != st by {
                    if issues@[k].status@ == st {
                        assert(seen.contains(issues@[k].status@));
                    }
                }
                lemma_rank_skip_prefix(issues@, st, i as int);
            }
            let name = issues[i].status.clone();
            let rank = category_rank(&issues[i].status_category);
            cols.push(StatusColumn { name, rank });
            proof {
                assert(col_names(cols@) =~= spec_statuses_upto(issues@, i + 1));
            }
        } else {
            proof {
                assert(col_names(cols@) =~= spec_statuses_upto(issues@, i + 1));
            }
        }
        i += 1;
    }
    cols
}

/// Inserting at the first admissible position realizes `spec_insert_status`.
proof fn lemma_insert_status_at(
    issues: Seq<JiraIssue>,
    sorted: Seq<Seq<char>>,
    x: Seq<char>,
    p: int,
)
    requires
        0 <= p <= sorted.len(),
        forall|q: int| 0 <= q < p ==> !spec_status_before(issues, x, #[trigger] sorted[q]),
        p < sorted.len() ==> spec_status_before(issues, x, sorted[p]),
    ensures
        spec_insert_status(issues, sorted, x) == sorted.subrange(0, p) + seq![x] + sorted.subrange(
            p,
            sorted.len() as int,
        ),
    decreases sorted.len(),
{
    if sorted.len() == 0 {
        assert(spec_insert_status(issues, sorted, x) =~= sorted.subrange(0, p) + seq![x]
            + sorted.subrange(p, sorted.len() as int));
    } else if p == 0 {
        assert(spec_status_before(issues, x, sorted[0]));
        assert(spec_insert_status(issues, sorted, x) =~= sorted.subrange(0, p) + seq![x]
            + sorted.subrange(p, sorted.len() as int));
    } else {
        assert(!spec_status_before(issues, x, sorted[0]));
        let rest = sorted.drop_first();
        assert forall|q: int| 0 <= q < p - 1 implies !spec_status_before(
            issues,
            x,
            #[trigger] rest[q],
        ) by {
            assert(rest[q] == sorted[q + 1]);
        }
        assert(p - 1 < rest.len() ==> spec_status_before(issues, x, rest[p - 1]));
        lemma_insert_status_at(issues, rest, x, p - 1);
        assert(seq![sorted[0]] + (rest.subrange(0, p - 1) + seq![x] + rest.subrange(
            p - 1,
            rest.len() as int,
        )) =~= sorted.subrange(0, p) + seq![x] + sorted.subrange(p, sorted.len() as int));
    }
}

/// Whether `a` displays before `b`, judged by the stored ranks.
fn column_before(a: &StatusColumn, b: &StatusColumn) -> (r: bool)
    ensures
        r == (a.rank < b.rank || (a.rank == b.rank && lex_lt(a.name@, b.name@))),
{
    if a.rank < b.rank {
        true
    } else if a.rank > b.rank {
        false
    } else {
        str_lex_lt(a.name.as_str(), b.name.as_str())
    }
}

/// Sorts the collected columns into display order by insertion.
fn sort_columns(issues: &Vec<JiraIssue>, cols: &Vec<StatusColumn>) -> (r: Vec<StatusColumn>)
    requires
        ranks_ok(issues@, cols@),
    ensures
        col_names(r@) == spec_sorted_upto(issues@, col_names(cols@), cols@.len() as int),
        ranks_ok(issues@, r@),
{
    let mut sorted: Vec<StatusColumn> = Vec::new();
    let n = cols.len();
    let mut i: usize = 0;
    while i < n
        invariant
            n == cols@.len(),
            0 <= i <= n,
            ranks_ok(issues@, cols@),
            ranks_ok(issues@, sorted@),
            col_names(sorted@) == spec_sorted_upto(issues@, col_names(cols@), i as int),
        decreases n - i,
    {
        let x = StatusColumn { name: cols[i].name.clone(), rank: cols[i].rank };
        let ghost xn = x.name@;
        assert(x.rank as int == spec_status_rank(issues@, xn));
        let mut p: usize = 0;
        let m = sorted.len();
        while p < m && !column_before(&x, &sorted[p])
            invariant
                m == sorted@.len(),
                0 <= p <= m,
                ranks_ok(issues@, sorted@),
                x.rank as int == spec_status_rank(issues@, xn),
                xn == x.name@,
                forall|q: int|
                    0 <= q < p ==> !spec_status_before(issues@, xn, #[trigger] col_names(
                        sorted@,
                    )[q]),
        decreases m - p,
        {
            proof {
                assert(sorted@[p as int].rank as int == spec_status_rank(
                    issues@,
                    sorted@[p as int].name@,
                ));
            }
            p += 1;
        }
        let ghost old_names = col_names(sorted@);
        proof {
            if p < m {
                assert(sorted@[p as int].rank as int == spec_status_rank(
                    issues@,
                    sorted@[p as int].name@,
                ));
                assert(spec_status_before(issues@, xn, old_names[p as int]));
            }
            lemma_insert_status_at(issues@, old_names, xn, p as int);
        }
        sorted.insert(p, x);
        proof {
            assert(col_names(sorted@) =~= old_names.subrange(0, p as int) + seq![xn]
                + old_names.subrange(p as int, old_names.len() as int));
            assert(col_names(cols@)[i as int] == xn);
            assert(col_names(sorted@) == spec_sorted_upto(issues@, col_names(cols@), i + 1));
        }
        i += 1;
    }
    sorted
}

/// The board line for one issue in its status section.
pub open spec fn spec_item_line(key: Seq<char>) -> Seq<char> {
    "- [ ] [[Jira Tickets/"@ + key + "]]\n"@
}

/// The item lines of the issues from `i` on whose status is `name`, in
/// input order.
pub open spec fn spec_items_from(issues: Seq<JiraIssue>, name: Seq<char>, i: int) -> Seq<char>
    decreases issues.len() - i,
{
    if i < 0 || i >= issues.len() {
        Seq::empty()
    } else {
        (if issues[i].status@ == name {
            spec_item_line(issues[i].key@)
        } else {
            Seq::empty()
        }) + spec_items_from(issues, name, i + 1)
    }
}

/// The board sections for the columns of `names` from `j` on.
pub open spec fn spec_sections_from(issues: Seq<JiraIssue>, names: Seq<Seq<char>>, j: int) -> Seq<
    char,
>
    decreases names.len() - j,
{
    if j < 0 || j >= names.len() {
        Seq::empty()
    } else {
        "## "@ + names[j] + "\n\n"@ + spec_items_from(issues, names[j], 0) + "\n"@
            + spec_sections_from(issues, names, j + 1)
    }
}

/// The per-column collapsed flags of the board metadata block, all false,
/// from column `j` on.
pub open spec fn spec_collapse_flags(n: int, j: int) -> Seq<char>
    decreases n - j,
{
    if j < 0 || j >= n {
        Seq::empty()
    } else {
        (if j > 0 {
            ","@
        } else {
            Seq::empty()
        }) + "false"@ + spec_collapse_flags(n, j + 1)
    }
}

/// The whole board document for an issue list.
pub open spec fn spec_board(issues: Seq<JiraIssue>) -> Seq<char> {
    let names = spec_ordered_statuses(issues);
    "---\nkanban-plugin: basic\n---\n\n"@ + spec_sections_from(issues, names, 0)
        + "%% kanban:settings\n{\"kanban-plugin\":\"basic\",\"list-collapse\":["@
        + spec_collapse_flags(names.len() as int, 0) + "]}\n%%\n"@
}

/// Renders the board document: one section per distinct status in display
/// order, each listing its member issues in input order, then the board
/// metadata block.
pub fn generate_kanban_board(issues: &Vec<JiraIssue>) -> (r: String)
    ensures
        r@ == spec_board(issues@),
{
    let cols = status_columns(issues);
    let sorted = sort_columns(issues, &cols);
    let ghost names = col_names(sorted@);
    proof {
        assert(names == spec_ordered_statuses(issues@));
    }
    let mut out = String::from_str("---\nkanban-plugin: basic\n---\n\n");
    let ghost header_done = out@;
    let sections = sorted.len();
    let mut j: usize = 0;
    while j < sections
        invariant
            sections == sorted@.len(),
            0 <= j <= sections,
            names == col_names(sorted@),
            out@ + spec_sections_from(issues@, names, j as int) == header_done
                + spec_sections_from(issues@, names, 0),
        decreases sections - j,
    {
        let ghost sections_rest = spec_sections_from(issues@, names, j as int);
        out.append("## ");
        out.append(sorted[j].name.as_str());
        out.append("\n\n");
        let ghost items_base = out@;
        let ghost name = names[j as int];
        assert(name == sorted@[j as int].name@);
        let count = issues.len();
        let mut t: usize = 0;
        while t < count
            invariant
                count == issues@.len(),
                0 <= t <= count,
                name == sorted@[j as int].name@,
                j < sections,
                sections == sorted@.len(),
                out@ + spec_items_from(issues@, name, t as int) == items_base + spec_items_from(
                    issues@,
                    name,
                    0,
                ),
            decreases count - t,
        {
            let ghost items_rest = spec_items_from(issues@, name, t as int);
            if issues[t].status == sorted[j].name {
                out.append("- [ ] [[Jira Tickets/");
                out.append(issues[t].key.as_str());
                out.append("]]\n");
                proof {
                    assert(items_rest == spec_item_line(issues@[t as int].key@)
                        + spec_items_from(issues@, name, t + 1));
                    assert(out@ + spec_items_from(issues@, name, t + 1) =~= items_base
                        + spec_items_from(issues@, name, 0));
                }
            } else {
                proof {
                    assert(items_rest == spec_items_from(issues@, name, t + 1));
                }
            }
            t += 1;
        }
        out.append("\n");
        proof {
            assert(spec_items_from(issues@, name, count as int) =~= Seq::<char>::empty());
            assert(out@ == items_base + spec_items_from(issues@, name, 0) + "\n"@);
            assert(sections_rest == "## "@ + name + "\n\n"@ + spec_items_from(issues@, name, 0)
                + "\n"@ + spec_sections_from(issues@, names, j + 1));
            assert(out@ + spec_sections_from(issues@, names, j + 1) =~= header_done
                + spec_sections_from(issues@, names, 0));
        }
        j += 1;
    }
    out.append("%% kanban:settings\n{\"kanban-plugin\":\"basic\",\"list-collapse\":[");
    let ghost flags_base = out@;
    let ghost ncols = names.len() as int;
    let mut q: usize = 0;
    while q < sections
        invariant
            sections == sorted@.len(),
            sections as int == ncols,
            0 <= q <= sections,
            names == col_names(sorted@),
            out@ + spec_collapse_flags(ncols, q as int) == flags_base + spec_collapse_flags(
                ncols,
                0,
            ),
        decreases sections - q,
    {
        let ghost flags_rest = spec_collapse_flags(ncols, q as int);
        if q > 0 {
            out.append(",");
            out.append("false");
            proof {
                assert(flags_rest == ","@ + "false"@ + spec_collapse_flags(ncols, q + 1));
                assert(out@ + spec_collapse_flags(ncols, q + 1) =~= flags_base
                    + spec_collapse_flags(ncols, 0));
            }
        } else {
            out.append("false");
            proof {
                assert(flags_rest == Seq::<char>::empty() + "false"@ + spec_collapse_flags(
                    ncols,
                    q + 1,
                ));
                assert(out@ + spec_collapse_flags(ncols, q + 1) =~= flags_base
                    + spec_collapse_flags(ncols, 0));
            }
        }
        q += 1;
    }
    out.append("]}\n%%\n");
    proof {
        assert(spec_sections_from(issues@, names, sections as int) =~= Seq::<char>::empty());
        assert(spec_collapse_flags(ncols, sections as int) =~= Seq::<char>::empty());
        assert(out@ =~= spec_board(issues@));
    }
    out
}

// ---------------------------------------------------------------------------
// Order laws of the column display order
// ---------------------------------------------------------------------------
proof fn lemma_lex_irrefl_from(a: Seq<char>, i: int)
    ensures
        !lex_lt_from(a, a, i),
    decreases a.len() - i,
{
    if 0 <= i && i < a.len() {
        lemma_lex_irrefl_from(a, i + 1);
    }
}

proof fn lemma_lex_trans_from(a: Seq<char>, b: Seq<char>, c: Seq<char>, i: int)
    requires
        0 <= i,
        lex_lt_from(a, b, i),
        lex_lt_from(b, c, i),
    ensures
        lex_lt_from(a, c, i),
    decreases a.len() - i,
{
    if i < a.len() && i < b.len() && a[i] == b[i] {
        if i < c.len() && b[i] == c[i] {
            lemma_lex_trans_from(a, b, c, i + 1);
        }
    }
}

proof fn lemma_lex_connected_from(a: Seq<char>, b: Seq<char>, i: int)
    requires
        0 <= i <= a.len(),
        i <= b.len(),
        a.subrange(0, i) == b.subrange(0, i),
    ensures
        a == b || lex_lt_from(a, b, i) || lex_lt_from(b, a, i),
    decreases a.len() - i,
{
    if i >= a.len() && i >= b.len() {
        assert forall|w: int| 0 <= w < a.len() implies a[w] == b[w] by {
            assert(a.subrange(0, i)[w] == a[w]);
            assert(b.subrange(0, i)[w] == b[w]);
        }
        assert(a =~= b);
    } else if i >= b.len() {
        assert(i < a.len());
        assert(lex_lt_from(b, a, i));
    } else if i >= a.len() {
        assert(lex_lt_from(a, b, i));
    } else {
        if a[i] == b[i] {
            assert(a.subrange(0, i + 1) =~= b.subrange(0, i + 1)) by {
                assert(forall|w: int|
                    0 <= w < i ==> a.subrange(0, i)[w] == b.subrange(0, i)[w]);
            }
            lemma_lex_connected_from(a, b, i + 1);
        } else if (a[i] as int) < (b[i] as int) {
            assert(lex_lt_from(a, b, i));
        } else {
            assert((a[i] as int) != (b[i] as int));
            assert((b[i] as int) < (a[i] as int));
            assert(lex_lt_from(b, a, i));
        }
    }
}

/// Irreflexivity of the display order.
pub proof fn lemma_status_before_irrefl(issues: Seq<JiraIssue>, a: Seq<char>)
    ensures
        !spec_status_before(issues, a, a),
{
    lemma_lex_irrefl_from(a, 0);
}

/// Transitivity of the display order.
pub proof fn lemma_status_before_trans(
    issues: Seq<JiraIssue>,
    a: Seq<char>,
    b: Seq<char>,
    c: Seq<char>,
)
    requires
        spec_status_before(issues, a, b),
        spec_status_before(issues, b, c),
    ensures
        spec_status_before(issues, a, c),
{
    if spec_status_rank(issues, a) == spec_status_rank(issues, b) && spec_status_rank(issues, b)
        == spec_status_rank(issues, c) {
        lemma_lex_trans_from(a, b, c, 0);
    }
}

/// Totality of the display order on distinct names.
pub proof fn lemma_status_before_connected(issues: Seq<JiraIssue>, a: Seq<char>, b: Seq<char>)
    requires
        a != b,
    ensures
        spec_status_before(issues, a, b) || spec_status_before(issues, b, a),
{
    if spec_status_rank(issues, a) == spec_status_rank(issues, b) {
        assert(a.subrange(0, 0) =~= b.subrange(0, 0));
        lemma_lex_connected_from(a, b, 0);
    }
}

/// No pair of columns stands in inverted display order.
pub open spec fn spec_columns_ordered(issues: Seq<JiraIssue>, names: Seq<Seq<char>>) -> bool {
    forall|j: int, k: int|
        0 <= j < k < names.len() ==> !spec_status_before(
            issues,
            #[trigger] names[k],
            #[trigger] names[j],
        )
}

proof fn lemma_insert_status_props(issues: Seq<JiraIssue>, sorted: Seq<Seq<char>>, x: Seq<char>)
    requires
        spec_columns_ordered(issues, sorted),
    ensures
        spec_columns_ordered(issues, spec_insert_status(issues, sorted, x)),
        forall|y: Seq<char>|
            #[trigger] spec_insert_status(issues, sorted, x).contains(y) <==> (sorted.contains(y)
                || y == x),
        spec_insert_status(issues, sorted, x).len() == sorted.len() + 1,
    decreases sorted.len(),
{
    let out = spec_insert_status(issues, sorted, x);
    if sorted.len() == 0 {
        assert forall|y: Seq<char>| #[trigger] out.contains(y) implies (sorted.contains(y) || y
            == x) by {
            let w = choose|w: int| 0 <= w < out.len() && out[w] == y;
            assert(out[0] == x);
        }
        assert(out[0] == x);
        assert(out.contains(x));
    } else if spec_status_before(issues, x, sorted[0]) {
        assert(out =~= seq![x] + sorted);
        assert forall|j: int, k: int| 0 <= j < k < out.len() implies !spec_status_before(
            issues,
            #[trigger] out[k],
            #[trigger] out[j],
        ) by {
            if j == 0 {
                assert(out[0] == x);
                assert(out[k] == sorted[k - 1]);
                if spec_status_before(issues, out[k], x) {
                    if k == 1 {
                        lemma_status_before_trans(issues, sorted[0], x, sorted[0]);
                        lemma_status_before_irrefl(issues, sorted[0]);
                    } else {
                        assert(!spec_status_before(issues, sorted[k - 1], sorted[0]));
                        lemma_status_before_trans(issues, sorted[k - 1], x, sorted[0]);
                    }
                }
            } else {
                assert(out[j] == sorted[j - 1]);
                assert(out[k] == sorted[k - 1]);
            }
        }
        assert forall|y: Seq<char>| #[trigger] out.contains(y) implies (sorted.contains(y) || y
            == x) by {
            let w = choose|w: int| 0 <= w < out.len() && out[w] == y;
            if w > 0 {
                assert(sorted[w - 1] == y);
            }
        }
        assert forall|y: Seq<char>| (sorted.contains(y) || y == x) implies #[trigger] out.contains(
            y,
        ) by {
            if sorted.contains(y) {
                let w = choose|w: int| 0 <= w < sorted.len() && sorted[w] == y;
                assert(out[w + 1] == y);
            } else {
                assert(out[0] == x);
            }
        }
    } else {
        let rest = sorted.drop_first();
        assert forall|j: int, k: int| 0 <= j < k < rest.len() implies !spec_status_before(
            issues,
            #[trigger] rest[k],
            #[trigger] rest[j],
        ) by {
            assert(rest[k] == sorted[k + 1]);
            assert(rest[j] == sorted[j + 1]);
        }
        lemma_insert_status_props(issues, rest, x);
        let sub = spec_insert_status(issues, rest, x);
        assert(out =~= seq![sorted[0]] + sub);
        assert forall|j: int, k: int| 0 <= j < k < out.len() implies !spec_status_before(
            issues,
            #[trigger] out[k],
            #[trigger] out[j],
        ) by {
            if j == 0 {
                assert(out[k] == sub[k - 1]);
                assert(sub.contains(sub[k - 1]));
                let y = sub[k - 1];
                assert(rest.contains(y) || y == x);
                if y == x {
                    assert(!spec_status_before(issues, x, sorted[0]));
                } else {
                    let w = choose|w: int| 0 <= w < rest.len() && rest[w] == y;
                    assert(rest[w] == sorted[w + 1]);
                    assert(!spec_status_before(issues, sorted[w + 1], sorted[0]));
                }
            } else {
                assert(out[j] == sub[j - 1]);
                assert(out[k] == sub[k - 1]);
            }
        }
        assert forall|y: Seq<char>| #[trigger] out.contains(y) implies (sorted.contains(y) || y
            == x) by {
            let w = choose|w: int| 0 <= w < out.len() && out[w] == y;
            if w == 0 {
                assert(sorted[0] == y);
            } else {
                assert(sub[w - 1] == y);
                assert(sub.contains(y));
                if rest.contains(y) {
                    let v = choose|v: int| 0 <= v < rest.len() && rest[v] == y;
                    assert(sorted[v + 1] == y);
                }
            }
        }
        assert forall|y: Seq<char>| (sorted.contains(y) || y == x) implies #[trigger] out.contains(
            y,
        ) by {
            if sorted.contains(y) {
                let w = choose|w: int| 0 <= w < sorted.len() && sorted[w] == y;
                if w == 0 {
                    assert(out[0] == y);
                } else {
                    assert(rest[w - 1] == y);
                    assert(rest.contains(y));
                    assert(sub.contains(y));
                    let v = choose|v: int| 0 <= v < sub.len() && sub[v] == y;
                    assert(out[v + 1] == y);
                }
            } else {
                assert(sub.contains(y));
                let v = choose|v: int| 0 <= v < sub.len() && sub[v] == y;
                assert(out[v + 1] == y);
            }
        }
    }
}

/// The sorted columns are exactly the collected statuses, in display order.
proof fn lemma_sorted_upto_props(issues: Seq<JiraIssue>, all_names: Seq<Seq<char>>, i: int)
    requires
        0 <= i <= all_names.len(),
    ensures
        spec_columns_ordered(issues, spec_sorted_upto(issues, all_names, i)),
        forall|y: Seq<char>|
            #[trigger] spec_sorted_upto(issues, all_names, i).contains(y) <==> (exists|k: int|
                0 <= k < i && all_names[k] == y),
        spec_sorted_upto(issues, all_names, i).len() == i,
    decreases i,
{
    if i > 0 {
        lemma_sorted_upto_props(issues, all_names, i - 1);
        lemma_insert_status_props(issues, spec_sorted_upto(issues, all_names, i - 1), all_names[i
            - 1]);
    }
}

/// The board law for column order: the rendered sections stand in
/// ascending (rank, name) order, and they are exactly the distinct
/// statuses of the input.
pub proof fn lemma_board_columns(issues: Seq<JiraIssue>)
    ensures
        spec_columns_ordered(issues, spec_ordered_statuses(issues)),
        forall|y: Seq<char>|
            #[trigger] spec_ordered_statuses(issues).contains(y) <==> spec_statuses(
                issues,
            ).contains(y),
        spec_ordered_statuses(issues).len() == spec_statuses(issues).len(),
{
    let names = spec_statuses(issues);
    lemma_sorted_upto_props(issues, names, names.len() as int);
}

/// The board law for determinism: the rendered board is a function of the
/// issue sequence alone, so two runs over the same input agree byte for
/// byte.
pub proof fn lemma_board_deterministic(issues: Seq<JiraIssue>, r1: Seq<char>, r2: Seq<char>)
    requires
        r1 == spec_board(issues),
        r2 == spec_board(issues),
    ensures
        r1 == r2,
{
}

} // verus!
