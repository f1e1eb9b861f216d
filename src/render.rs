use std::collections::HashMap;
use vstd::prelude::*;
use crate::order::{sort_ascending, sorted_pids};
use crate::process::{NodeView, ProcessNode};
use crate::tree::tree_view;

verus! {

broadcast use vstd::std_specs::hash::group_hash_axioms;

pub open spec fn digit_char(d: nat) -> char {
    seq!['0', '1', '2', '3', '4', '5', '6', '7', '8', '9'][d as int]
}

/// Decimal digits of `n`, most significant first, without leading zeros.
pub open spec fn digits_of(n: nat) -> Seq<char>
    decreases n,
{
    if n < 10 {
        seq![digit_char(n)]
    } else {
        digits_of(n / 10).push(digit_char(n % 10))
    }
}

/// Decimal text of `v`, with a leading `-` when it is negative.
pub open spec fn decimal_of(v: int) -> Seq<char> {
    if v < 0 {
        seq!['-'] + digits_of((-v) as nat)
    } else {
        digits_of(v as nat)
    }
}

fn digit_str(d: u32) -> (r: &'static str)
    requires
        d < 10,
    ensures
        r@ == seq![digit_char(d as nat)],
{
    proof {
        reveal_strlit("0");
        reveal_strlit("1");
        reveal_strlit("2");
        reveal_strlit("3");
        reveal_strlit("4");
        reveal_strlit("5");
        reveal_strlit("6");
        reveal_strlit("7");
        reveal_strlit("8");
        reveal_strlit("9");
    }
    let r = match d {
        0 => "0",
        1 => "1",
        2 => "2",
        3 => "3",
        4 => "4",
        5 => "5",
        6 => "6",
        7 => "7",
        8 => "8",
        _ => "9",
    };
    assert(r@ =~= seq![digit_char(d as nat)]);
    r
}

/// The decimal text of `v`.
pub fn decimal(v: i32) -> (r: String)
    ensures
        r@ == decimal_of(v as int),
{
    let ghost n: nat = if v < 0 { (-v) as nat } else { v as nat };
    let mut m: u32 = if v < 0 { (-(v as i64)) as u32 } else { v as u32 };
    assert(m == n);
    let mut acc = String::from_str(digit_str(m % 10));
    assert(n < 10 ==> digits_of(n) =~= seq![] + acc@);
    m = m / 10;
    while m > 0
        invariant
            digits_of(n) == (if m == 0 { Seq::<char>::empty() } else { digits_of(m as nat) })
                + acc@,
        decreases m,
    {
        let mut s = String::from_str(digit_str(m % 10));
        s.append(acc.as_str());
        proof {
            let prev = if m / 10 == 0 { Seq::<char>::empty() } else { digits_of((m / 10) as nat) };
            assert(digits_of(m as nat) =~= prev.push(digit_char((m % 10) as nat)));
            assert(prev.push(digit_char((m % 10) as nat)) + acc@ =~= prev + s@);
        }
        acc = s;
        m = m / 10;
    }
    assert(digits_of(n) =~= acc@);
    if v < 0 {
        let mut r = String::from_str("-");
        r.append(acc.as_str());
        proof {
            reveal_strlit("-");
        }
        assert(r@ =~= seq!['-'] + digits_of(n));
        r
    } else {
        acc
    }
}

/// The text shown for a node: its name, followed by `(pid)` when pids are shown.
pub open spec fn label(n: NodeView, show_pid: bool) -> Seq<char> {
    if show_pid {
        n.name + "("@ + decimal_of(n.pid as int) + ")"@
    } else {
        n.name
    }
}

/// The children of a node in the order they are visited.
pub open spec fn child_order(children: Seq<i32>, numeric_sort: bool) -> Seq<i32> {
    if numeric_sort {
        sort_ascending(children)
    } else {
        children
    }
}

/// The lines of the subtree at `pid`, depth first and in pre-order. `top`
/// marks the starting node, which is printed without a branch mark; `is_last`
/// says whether the node is the last child of its parent. At most `fuel`
/// levels are drawn; `render_tree` gives the number of nodes as fuel, which
/// keeps a cycle of parent links from recursing without end.
pub open spec fn render_lines(
    t: Map<i32, NodeView>,
    pid: i32,
    top: bool,
    prefix: Seq<char>,
    is_last: bool,
    show_pid: bool,
    numeric_sort: bool,
    fuel: nat,
) -> Seq<Seq<char>>
    decreases fuel, 0int, 0int,
{
    if fuel == 0 || !t.contains_key(pid) {
        seq![]
    } else {
        let n = t[pid];
        let line = if top {
            prefix + label(n, show_pid)
        } else {
            prefix + "+-"@ + label(n, show_pid)
        };
        let next = if top || is_last {
            prefix + "  "@
        } else {
            prefix + "| "@
        };
        seq![line] + render_children(
            t,
            child_order(n.children, numeric_sort),
            0,
            next,
            show_pid,
            numeric_sort,
            (fuel - 1) as nat,
        )
    }
}

/// The lines of the subtrees of `kids[i..]`, one after the other.
pub open spec fn render_children(
    t: Map<i32, NodeView>,
    kids: Seq<i32>,
    i: int,
    prefix: Seq<char>,
    show_pid: bool,
    numeric_sort: bool,
    fuel: nat,
) -> Seq<Seq<char>>
    decreases fuel, 1int, kids.len() - i,
{
    if i < 0 || i >= kids.len() {
        seq![]
    } else {
        render_lines(t, kids[i], false, prefix, i == kids.len() - 1, show_pid, numeric_sort, fuel)
            + render_children(t, kids, i + 1, prefix, show_pid, numeric_sort, fuel)
    }
}

/// A start pid that is not in the tree draws nothing, and nothing fails.
pub proof fn lemma_absent_root_renders_nothing(
    t: Map<i32, NodeView>,
    root: i32,
    top: bool,
    prefix: Seq<char>,
    is_last: bool,
    show_pid: bool,
    numeric_sort: bool,
    fuel: nat,
)
    requires
        !t.contains_key(root),
    ensures
        render_lines(t, root, top, prefix, is_last, show_pid, numeric_sort, fuel) == Seq::<
            Seq<char>,
        >::empty(),
{
}

/// A node without children draws exactly its own line and stops there, with
/// no further line after it.
pub proof fn lemma_leaf_renders_one_line(
    t: Map<i32, NodeView>,
    pid: i32,
    top: bool,
    prefix: Seq<char>,
    is_last: bool,
    show_pid: bool,
    numeric_sort: bool,
    fuel: nat,
)
    requires
        t.contains_key(pid),
        t[pid].children.len() == 0,
        fuel > 0,
    ensures
        render_lines(t, pid, top, prefix, is_last, show_pid, numeric_sort, fuel) == seq![
            if top {
                prefix + label(t[pid], show_pid)
            } else {
                prefix + "+-"@ + label(t[pid], show_pid)
            },
        ],
{
    let kids = child_order(t[pid].children, numeric_sort);
    assert(kids.len() == 0);
    let next = if top || is_last {
        prefix + "  "@
    } else {
        prefix + "| "@
    };
    assert(render_children(t, kids, 0, next, show_pid, numeric_sort, (fuel - 1) as nat) == Seq::<
        Seq<char>,
    >::empty());
    let line = if top {
        prefix + label(t[pid], show_pid)
    } else {
        prefix + "+-"@ + label(t[pid], show_pid)
    };
    assert(seq![line] + Seq::<Seq<char>>::empty() =~= seq![line]);
}

pub open spec fn lines_view(v: Seq<String>) -> Seq<Seq<char>> {
    v.map_values(|s: String| s@)
}

fn node_label(n: &ProcessNode, show_pid: bool) -> (r: String)
    ensures
        r@ == label(n@, show_pid),
{
    let mut r = n.name.clone();
    if show_pid {
        r.append("(");
        let d = decimal(n.pid);
        r.append(d.as_str());
        r.append(")");
    }
    r
}

fn append_lines(
    tree: &HashMap<i32, ProcessNode>,
    pid: i32,
    top: bool,
    prefix: &String,
    is_last: bool,
    show_pid: bool,
    numeric_sort: bool,
    fuel: usize,
    out: &mut Vec<String>,
)
    ensures
        lines_view(final(out)@) == lines_view(old(out)@) + render_lines(
            tree_view(tree@),
            pid,
            top,
            prefix@,
            is_last,
            show_pid,
            numeric_sort,
            fuel as nat,
        ),
    decreases fuel, 0int, 0int,
{
    let ghost t = tree_view(tree@);
    let ghost start = lines_view(out@);
    if fuel == 0 {
        assert(lines_view(out@) =~= start + Seq::<Seq<char>>::empty());
        return;
    }
    match tree.get(&pid) {
        None => {
            assert(!t.contains_key(pid));
            assert(lines_view(out@) =~= start + Seq::<Seq<char>>::empty());
        },
        Some(node) => {
            assert(t[pid] == node@);
            let mut line = prefix.clone();
            if !top {
                line.append("+-");
            }
            let l = node_label(node, show_pid);
            line.append(l.as_str());
            out.push(line);
            let mut next = prefix.clone();
            if top || is_last {
                next.append("  ");
            } else {
                next.append("| ");
            }
            let kids = if numeric_sort {
                sorted_pids(&node.children)
            } else {
                node.children.clone()
            };
            let ghost first = lines_view(out@);
            assert(first =~= start + seq![line@]);
            let ghost all = render_children(t, kids@, 0, next@, show_pid, numeric_sort, (fuel - 1) as nat);
            let mut i: usize = 0;
            while i < kids.len()
                invariant
                    t == tree_view(tree@),
                    0 <= i <= kids.len(),
                    0 < fuel,
                    lines_view(out@) + render_children(
                        t,
                        kids@,
                        i as int,
                        next@,
                        show_pid,
                        numeric_sort,
                        (fuel - 1) as nat,
                    ) == first + all,
                decreases kids.len() - i,
            {
                let ghost before = lines_view(out@);
                let ghost rest = render_children(t, kids@, i + 1, next@, show_pid, numeric_sort, (fuel - 1) as nat);
                let ghost here = render_lines(t, kids@[i as int], false, next@, i == kids.len() - 1, show_pid, numeric_sort, (fuel - 1) as nat);
                assert(render_children(t, kids@, i as int, next@, show_pid, numeric_sort, (fuel - 1) as nat) == here + rest);
                append_lines(tree, kids[i], false, &next, i == kids.len() - 1, show_pid, numeric_sort, fuel - 1, out);
                assert(before + (here + rest) =~= (before + here) + rest);
                i = i + 1;
            }
            assert(render_children(t, kids@, i as int, next@, show_pid, numeric_sort, (fuel - 1) as nat) =~= Seq::<Seq<char>>::empty());
            assert(lines_view(out@) =~= first + all);
            assert(first + all =~= start + (seq![line@] + all));
        },
    }
}

/// The lines that draw the tree from `root`: one line per visited node, in
/// depth-first pre-order. Nothing is drawn when `root` is not in the tree.
pub fn render_tree(
    tree: &HashMap<i32, ProcessNode>,
    root: i32,
    show_pid: bool,
    numeric_sort: bool,
) -> (r: Vec<String>)
    ensures
        lines_view(r@) == render_lines(
            tree_view(tree@),
            root,
            true,
            Seq::empty(),
            true,
            show_pid,
            numeric_sort,
            tree@.len(),
        ),
{
    let mut out: Vec<String> = Vec::new();
    let prefix = String::new();
    append_lines(tree, root, true, &prefix, true, show_pid, numeric_sort, tree.len(), &mut out);
    assert(lines_view(out@) =~= Seq::<Seq<char>>::empty() + render_lines(
        tree_view(tree@),
        root,
        true,
        Seq::empty(),
        true,
        show_pid,
        numeric_sort,
        tree@.len(),
    ));
    out
}

} // verus!
