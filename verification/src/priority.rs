//! The workload- and network-aware placement policy.
//!
//! Every cluster node has a bandwidth edge to the storage node; the
//! policy works over the list of all nodes sorted ascending by that
//! edge, ties broken by name so runs are repeatable.  A compute pod pins
//! to the candidate highest in that order (fastest path to storage); a
//! storage pod walks the order round-robin per group, so peers of one
//! group land on distinct paths.

use vstd::prelude::*;

verus! {

use vstd::multiset::Multiset;

/// One node's bandwidth edge to the storage node.
pub struct NodeBandwidth {
    /// The node's name.
    pub name: String,
    /// Bandwidth to the storage node; the storage node itself carries
    /// the maximum.
    pub bw: u64,
}

/// Lexicographic comparison of names from position `i` on: true when
/// `a` comes strictly before `b`.
pub open spec fn lex_lt_from(a: Seq<char>, b: Seq<char>, i: int) -> bool
    recommends
        0 <= i,
    decreases b.len() - i,
{
    if i >= b.len() {
        false
    } else if i >= a.len() {
        true
    } else if a[i] != b[i] {
        (a[i] as u32) < (b[i] as u32)
    } else {
        lex_lt_from(a, b, i + 1)
    }
}

/// Lexicographic order on names.
pub open spec fn lex_lt(a: Seq<char>, b: Seq<char>) -> bool {
    lex_lt_from(a, b, 0)
}

/// Any two names are ordered or equal from position `i` on.
pub proof fn lemma_lex_total_from(a: Seq<char>, b: Seq<char>, i: int)
    requires
        0 <= i <= a.len(),
        i <= b.len(),
    ensures
        lex_lt_from(a, b, i) || lex_lt_from(b, a, i) || (a.len() == b.len() && a.skip(i) == b.skip(
            i,
        )),
    decreases a.len() - i,
{
    if i < a.len() && i < b.len() && a[i] == b[i] {
        lemma_lex_total_from(a, b, i + 1);
        if !lex_lt_from(a, b, i) && !lex_lt_from(b, a, i) {
            assert forall|t: int| 0 <= t < a.skip(i).len() implies a.skip(i)[t] == b.skip(i)[t] by {
                if t > 0 {
                    assert(a.skip(i)[t] == a.skip(i + 1)[t - 1]);
                    assert(b.skip(i)[t] == b.skip(i + 1)[t - 1]);
                }
            }
            assert(a.skip(i) =~= b.skip(i));
        }
    } else if i < a.len() && i < b.len() {
        assert(a[i] != b[i]);
        vstd::utf8::char_u32_cast(a[i], a[i] as u32);
        vstd::utf8::char_u32_cast(b[i], b[i] as u32);
        assert((a[i] as u32) < (b[i] as u32) || (b[i] as u32) < (a[i] as u32));
    } else if i == a.len() && i == b.len() {
        assert(a.skip(i) =~= b.skip(i));
    }
}

/// Lexicographic comparison, executable form.
fn str_lex_lt_from(a: &str, b: &str, i: usize) -> (r: bool)
    requires
        i <= a@.len(),
        i <= b@.len(),
    ensures
        r == lex_lt_from(a@, b@, i as int),
    decreases b@.len() - i,
{
    let bn = b.unicode_len();
    if i >= bn {
        return false;
    }
    let an = a.unicode_len();
    if i >= an {
        return true;
    }
    let ca = a.get_char(i);
    let cb = b.get_char(i);
    if ca != cb {
        (ca as u32) < (cb as u32)
    } else {
        str_lex_lt_from(a, b, i + 1)
    }
}

/// Lexicographic comparison of two names.
pub fn str_lex_lt(a: &str, b: &str) -> (r: bool)
    ensures
        r == lex_lt(a@, b@),
{
    str_lex_lt_from(a, b, 0)
}

/// The sort order of the node list: ascending bandwidth, ties by name.
pub open spec fn bw_le(a: NodeBandwidth, b: NodeBandwidth) -> bool {
    a.bw < b.bw || (a.bw == b.bw && (a.name@ == b.name@ || lex_lt(a.name@, b.name@)))
}

/// Any two nodes are comparable under the sort order.
pub proof fn lemma_bw_le_total(a: NodeBandwidth, b: NodeBandwidth)
    ensures
        bw_le(a, b) || bw_le(b, a),
{
    if a.bw == b.bw {
        lemma_lex_total_from(a.name@, b.name@, 0);
        if !lex_lt(a.name@, b.name@) && !lex_lt(b.name@, a.name@) {
            assert(a.name@.skip(0) =~= a.name@);
            assert(b.name@.skip(0) =~= b.name@);
        }
    }
}

/// The sort order, executable form.
fn bw_le_exec(a: &NodeBandwidth, b: &NodeBandwidth) -> (r: bool)
    ensures
        r == bw_le(*a, *b),
{
    if a.bw < b.bw {
        true
    } else if a.bw == b.bw {
        if a.name == b.name {
            true
        } else {
            str_lex_lt(a.name.as_str(), b.name.as_str())
        }
    } else {
        false
    }
}

/// Sorts the nodes ascending by bandwidth to the storage node, ties
/// broken by name: the deterministic order the policy walks.
pub fn sort_nodes_by_bandwidth(nodes: Vec<NodeBandwidth>) -> (r: Vec<NodeBandwidth>)
    ensures
        r@.len() == nodes@.len(),
        r@.to_multiset() == nodes@.to_multiset(),
        forall|i: int, j: int| 0 <= i <= j < r@.len() ==> bw_le(#[trigger] r@[i], #[trigger] r@[j]),
{
    broadcast use vstd::seq_lib::group_to_multiset_ensures;

    let ghost orig = nodes@;
    let mut rest = nodes;
    let mut out: Vec<NodeBandwidth> = Vec::new();
    while rest.len() > 0
        invariant
            out@.len() + rest@.len() == orig.len(),
            out@.to_multiset().add(rest@.to_multiset()) =~= orig.to_multiset(),
            forall|i: int, j: int|
                0 <= i <= j < out@.len() ==> bw_le(#[trigger] out@[i], #[trigger] out@[j]),
            forall|i: int, j: int|
                0 <= i < out@.len() && 0 <= j < rest@.len() ==> bw_le(
                    #[trigger] out@[i],
                    #[trigger] rest@[j],
                ),
        decreases rest@.len(),
    {
        // Select the least remaining node.
        let mut mi: usize = 0;
        let mut j: usize = 1;
        while j < rest.len()
            invariant
                0 < rest@.len(),
                0 <= mi < j <= rest@.len(),
                forall|t: int| 0 <= t < j ==> bw_le(rest@[mi as int], #[trigger] rest@[t]),
            decreases rest@.len() - j,
        {
            proof {
                lemma_bw_le_total(rest@[mi as int], rest@[j as int]);
            }
            if !bw_le_exec(&rest[mi], &rest[j]) {
                proof {
                    assert forall|t: int| 0 <= t < j implies bw_le(
                        rest@[j as int],
                        #[trigger] rest@[t],
                    ) by {
                        lemma_bw_le_trans(rest@[j as int], rest@[mi as int], rest@[t]);
                    }
                }
                mi = j;
            }
            j = j + 1;
        }
        let ghost old_rest = rest@;
        let ghost old_out = out@;
        let m = rest.remove(mi);
        out.push(m);
        proof {
            old_rest.to_multiset_ensures();
            old_out.to_multiset_ensures();
            assert(old_rest.remove(mi as int).to_multiset() =~= old_rest.to_multiset().remove(
                old_rest[mi as int],
            ));
            assert(rest@ == old_rest.remove(mi as int));
            assert(old_out.push(m).to_multiset() =~= old_out.to_multiset().insert(m));
            assert(out@ == old_out.push(m));
            assert(old_rest.contains(old_rest[mi as int]));
            assert(old_rest.to_multiset().count(old_rest[mi as int]) > 0);
            assert(out@.to_multiset().add(rest@.to_multiset()) =~= orig.to_multiset());
        }
    }
    proof {
        assert(rest@.to_multiset() =~= Multiset::<NodeBandwidth>::empty());
        assert(out@.to_multiset().add(Multiset::<NodeBandwidth>::empty()) =~= out@.to_multiset());
    }
    out
}

/// The sort order is transitive.
pub proof fn lemma_bw_le_trans(a: NodeBandwidth, b: NodeBandwidth, c: NodeBandwidth)
    requires
        bw_le(a, b),
        bw_le(b, c),
    ensures
        bw_le(a, c),
{
    if a.bw == b.bw && b.bw == c.bw {
        if a.name@ != b.name@ && b.name@ != c.name@ && a.name@ != c.name@ {
            lemma_lex_trans(a.name@, b.name@, c.name@, 0);
        }
    }
}

/// Lexicographic order is transitive from any shared position.
proof fn lemma_lex_trans(a: Seq<char>, b: Seq<char>, c: Seq<char>, i: int)
    requires
        0 <= i,
        lex_lt_from(a, b, i),
        lex_lt_from(b, c, i),
    ensures
        lex_lt_from(a, c, i),
    decreases c.len() - i,
{
    if i < c.len() && i < b.len() && i < a.len() {
        if a[i] == b[i] && b[i] == c[i] {
            lemma_lex_trans(a, b, c, i + 1);
        }
    }
}

/// The names of a node list, in order.
pub fn node_names(nodes: &Vec<NodeBandwidth>) -> (r: Vec<String>)
    ensures
        r@.len() == nodes@.len(),
        forall|i: int| 0 <= i < nodes@.len() ==> (#[trigger] r@[i])@ == nodes@[i].name@,
{
    let mut names: Vec<String> = Vec::new();
    let mut i: usize = 0;
    while i < nodes.len()
        invariant
            0 <= i <= nodes@.len(),
            names@.len() == i,
            forall|j: int| 0 <= j < i ==> (#[trigger] names@[j])@ == nodes@[j].name@,
        decreases nodes@.len() - i,
    {
        names.push(nodes[i].name.clone());
        i = i + 1;
    }
    names
}

/// The cursor a group holds, scanning the map from position `k`;
/// a group without an entry is at the start of the order.
pub open spec fn cursor_from(m: Seq<(String, u32)>, k: int, g: Seq<char>) -> u32
    decreases m.len() - k,
{
    if k < 0 || k >= m.len() {
        0
    } else if m[k].0@ == g {
        m[k].1
    } else {
        cursor_from(m, k + 1, g)
    }
}

/// The cursor a group holds.
pub open spec fn spec_cursor(m: Seq<(String, u32)>, g: Seq<char>) -> u32 {
    cursor_from(m, 0, g)
}

/// Reads a group's round-robin cursor.
pub fn cursor_get(m: &Vec<(String, u32)>, g: &String) -> (r: u32)
    ensures
        r == spec_cursor(m@, g@),
{
    cursor_get_from(m, g, 0)
}

/// Reads a group's cursor scanning from position `k`.
fn cursor_get_from(m: &Vec<(String, u32)>, g: &String, k: usize) -> (r: u32)
    requires
        k <= m@.len(),
    ensures
        r == cursor_from(m@, k as int, g@),
    decreases m@.len() - k,
{
    if k >= m.len() {
        return 0;
    }
    if m[k].0 == *g {
        m[k].1
    } else {
        cursor_get_from(m, g, k + 1)
    }
}

/// Writes a group's cursor: the group now reads `v`, every other group
/// reads what it read before.
pub fn cursor_set(m: &mut Vec<(String, u32)>, g: &String, v: u32)
    ensures
        spec_cursor(final(m)@, g@) == v,
        forall|h: Seq<char>| h != g@ ==> spec_cursor(final(m)@, h) == spec_cursor(old(m)@, h),
{
    let mut k: usize = 0;
    let n = m.len();
    while k < n
        invariant
            0 <= k <= n == m@.len(),
            m@ == old(m)@,
            forall|t: int| 0 <= t < k ==> (#[trigger] m@[t]).0@ != g@,
        decreases n - k,
    {
        if m[k].0 == *g {
            let key = m[k].0.clone();
            let ghost pre = m@;
            m[k] = (key, v);
            proof {
                assert(m@ == pre.update(k as int, (pre[k as int].0, v)));
                lemma_cursor_scan_update(pre, k as int, v, g@, g@, 0);
                assert forall|h: Seq<char>| h != g@ implies spec_cursor(m@, h) == spec_cursor(
                    pre,
                    h,
                ) by {
                    lemma_cursor_scan_update(pre, k as int, v, g@, h, 0);
                }
            }
            return ;
        }
        k = k + 1;
    }
    let ghost pre = m@;
    let key = (*g).clone();
    let ghost gkey = key;
    m.push((key, v));
    proof {
        assert(m@ == pre.push((gkey, v)));
        assert(gkey@ == g@);
        lemma_cursor_scan_push(pre, gkey, v, g@, 0);
        assert forall|h: Seq<char>| h != g@ implies spec_cursor(m@, h) == spec_cursor(pre, h) by {
            lemma_cursor_scan_push(pre, gkey, v, h, 0);
        }
    }
}

/// Scanning for any key is unchanged below the updated entry, and for
/// the updated key reaches the new value.
proof fn lemma_cursor_scan_update(
    m: Seq<(String, u32)>,
    i: int,
    v: u32,
    g: Seq<char>,
    h: Seq<char>,
    k: int,
)
    requires
        0 <= i < m.len(),
        m[i].0@ == g,
        forall|t: int| 0 <= t < i ==> (#[trigger] m[t]).0@ != g,
        0 <= k <= m.len(),
    ensures
        h == g && k <= i ==> cursor_from(m.update(i, (m[i].0, v)), k, g) == v,
        h != g ==> cursor_from(m.update(i, (m[i].0, v)), k, h) == cursor_from(m, k, h),
    decreases m.len() - k,
{
    if k < m.len() {
        lemma_cursor_scan_update(m, i, v, g, h, k + 1);
    }
}

/// Scanning a map extended by one entry.
proof fn lemma_cursor_scan_push(m: Seq<(String, u32)>, key: String, v: u32, h: Seq<char>, k: int)
    requires
        forall|t: int| 0 <= t < m.len() ==> (#[trigger] m[t]).0@ != key@,
        0 <= k <= m.len(),
    ensures
        h == key@ ==> cursor_from(m.push((key, v)), k, h) == v,
        h != key@ ==> cursor_from(m.push((key, v)), k, h) == cursor_from(m, k, h),
    decreases m.len() - k,
{
    if k < m.len() {
        assert(m.push((key, v))[k] == m[k]);
        lemma_cursor_scan_push(m, key, v, h, k + 1);
    } else {
        assert(m.push((key, v))[k] == (key, v));
        assert(cursor_from(m.push((key, v)), k + 1, h) == 0);
    }
}

/// The position of `name` in `list` scanning from `k`; the list length
/// when absent.
pub open spec fn idx_from(list: Seq<String>, k: int, name: Seq<char>) -> int
    decreases list.len() - k,
{
    if k < 0 || k >= list.len() {
        list.len() as int
    } else if list[k]@ == name {
        k
    } else {
        idx_from(list, k + 1, name)
    }
}

/// The position of `name` in `list`; the list length when absent.
pub open spec fn index_in(list: Seq<String>, name: Seq<char>) -> int {
    idx_from(list, 0, name)
}

/// A found position names its entry.
pub proof fn lemma_idx_found(list: Seq<String>, k: int, name: Seq<char>)
    requires
        0 <= k <= list.len(),
        idx_from(list, k, name) < list.len(),
    ensures
        k <= idx_from(list, k, name),
        list[idx_from(list, k, name)]@ == name,
    decreases list.len() - k,
{
    if k < list.len() && list[k]@ != name {
        lemma_idx_found(list, k + 1, name);
    }
}

/// The position of a name in the node order, scanning from `k`.
fn position_from(list: &Vec<String>, name: &String, k: usize) -> (r: usize)
    requires
        k <= list@.len(),
    ensures
        r == idx_from(list@, k as int, name@),
        r <= list@.len(),
    decreases list@.len() - k,
{
    if k >= list.len() {
        return list.len();
    }
    if list[k] == *name {
        k
    } else {
        position_from(list, name, k + 1)
    }
}

/// The position of a name in the node order; the length when absent.
pub fn position_of(list: &Vec<String>, name: &String) -> (r: usize)
    ensures
        r == index_in(list@, name@),
        r <= list@.len(),
{
    position_from(list, name, 0)
}

/// The largest node-order position any candidate holds, considering the
/// first `j` candidates; at least the start of the order.
pub open spec fn max_idx_upto(cands: Seq<String>, all: Seq<String>, j: int) -> int
    decreases j,
{
    if j <= 0 {
        0
    } else {
        let prev = max_idx_upto(cands, all, j - 1);
        let x = index_in(all, cands[j - 1]@);
        if x > prev {
            x
        } else {
            prev
        }
    }
}

/// The smallest node-order position at or past the cursor any of the
/// first `j` candidates holds; the length of the order when none is.
pub open spec fn min_ge_upto(cands: Seq<String>, all: Seq<String>, c: int, j: int) -> int
    decreases j,
{
    if j <= 0 {
        all.len() as int
    } else {
        let prev = min_ge_upto(cands, all, c, j - 1);
        let x = index_in(all, cands[j - 1]@);
        if x >= c && x < prev {
            x
        } else {
            prev
        }
    }
}

/// The node-order position the policy scores: the top candidate for a
/// compute pod; for a storage pod the first candidate position at or
/// past the group's cursor, or the top candidate when the cursor has
/// passed them all.
pub open spec fn spec_chosen_idx(
    cands: Seq<String>,
    all: Seq<String>,
    workload_type: Seq<char>,
    c: int,
) -> int {
    if workload_type == "compute"@ {
        max_idx_upto(cands, all, cands.len() as int)
    } else {
        let lo = min_ge_upto(cands, all, c, cands.len() as int);
        if lo == all.len() {
            max_idx_upto(cands, all, cands.len() as int)
        } else {
            lo
        }
    }
}

/// Everything the policy promises of one scoring pass, as a relation
/// between the inputs, the cursor map before and after, and the scores.
pub open spec fn priority_ens(
    cands: Seq<String>,
    all: Seq<String>,
    workload_type: Seq<char>,
    g: Seq<char>,
    pre_choice: Seq<(String, u32)>,
    post_choice: Seq<(String, u32)>,
    scores: Seq<(String, u32)>,
) -> bool {
    let c = spec_cursor(pre_choice, g) as int;
    let ch = spec_chosen_idx(cands, all, workload_type, c);
    &&& scores.len() == cands.len()
    &&& forall|j: int| 0 <= j < cands.len() ==> (#[trigger] scores[j]).0@ == cands[j]@
    &&& forall|j: int|
        0 <= j < cands.len() ==> (#[trigger] scores[j]).1 == if cands[j]@ == all[ch]@ {
            100u32
        } else {
            0u32
        }
    &&& (workload_type == "compute"@ ==> post_choice == pre_choice)
    &&& (workload_type != "compute"@ ==> spec_cursor(post_choice, g) as int == (ch + 1) % (
    all.len() as int) && (forall|h: Seq<char>|
        h != g ==> #[trigger] spec_cursor(post_choice, h) == spec_cursor(pre_choice, h)))
}

/// The workload- and network-aware scorer.
pub struct WorkloadNetworkAwarePriority;

impl WorkloadNetworkAwarePriority {
    /// Scores the candidates: every candidate scores nothing except the
    /// chosen one, which scores one hundred.  A compute pod takes the
    /// candidate with the highest bandwidth position; a storage pod
    /// takes the first candidate at or past its group's cursor and
    /// advances the cursor past the choice, wrapping at the end of the
    /// node order.
    pub fn priority(
        candidates: &Vec<String>,
        group_id: &String,
        workload_type: &String,
        choice: &mut Vec<(String, u32)>,
        all_nodes_bw_asc: &Vec<String>,
    ) -> (scores: Vec<(String, u32)>)
        requires
            candidates@.len() > 0,
            0 < all_nodes_bw_asc@.len() <= u32::MAX,
            forall|j: int|
                0 <= j < candidates@.len() ==> index_in(
                    all_nodes_bw_asc@,
                    (#[trigger] candidates@[j])@,
                ) < all_nodes_bw_asc@.len(),
        ensures
            priority_ens(
                candidates@,
                all_nodes_bw_asc@,
                workload_type@,
                group_id@,
                old(choice)@,
                final(choice)@,
                scores@,
            ),
    {
        let n = candidates.len();
        let all_n = all_nodes_bw_asc.len();

        let is_compute = *workload_type == String::from_str("compute");

        let chosen: usize = if is_compute {
            let mut best: usize = 0;
            let mut j: usize = 0;
            while j < n
                invariant
                    0 <= j <= n == candidates@.len(),
                    best == max_idx_upto(candidates@, all_nodes_bw_asc@, j as int),
                    best < all_nodes_bw_asc@.len(),
                    forall|t: int|
                        0 <= t < candidates@.len() ==> index_in(
                            all_nodes_bw_asc@,
                            (#[trigger] candidates@[t])@,
                        ) < all_nodes_bw_asc@.len(),
                decreases n - j,
            {
                let x = position_of(all_nodes_bw_asc, &candidates[j]);
                if x > best {
                    best = x;
                }
                j = j + 1;
            }
            best
        } else {
            let c = cursor_get(choice, group_id);
            let mut lo: usize = all_n;
            let mut j: usize = 0;
            while j < n
                invariant
                    0 <= j <= n == candidates@.len(),
                    lo == min_ge_upto(
                        candidates@,
                        all_nodes_bw_asc@,
                        spec_cursor(old(choice)@, group_id@) as int,
                        j as int,
                    ),
                    lo <= all_nodes_bw_asc@.len() == all_n,
                    choice@ == old(choice)@,
                    c == spec_cursor(old(choice)@, group_id@),
                decreases n - j,
            {
                let x = position_of(all_nodes_bw_asc, &candidates[j]);
                if x >= c as usize && x < lo {
                    lo = x;
                }
                j = j + 1;
            }
            if lo == all_n {
                let mut best: usize = 0;
                let mut j: usize = 0;
                while j < n
                    invariant
                        0 <= j <= n == candidates@.len(),
                        best == max_idx_upto(candidates@, all_nodes_bw_asc@, j as int),
                        best < all_nodes_bw_asc@.len(),
                        choice@ == old(choice)@,
                        forall|t: int|
                            0 <= t < candidates@.len() ==> index_in(
                                all_nodes_bw_asc@,
                                (#[trigger] candidates@[t])@,
                            ) < all_nodes_bw_asc@.len(),
                    decreases n - j,
                {
                    let x = position_of(all_nodes_bw_asc, &candidates[j]);
                    if x > best {
                        best = x;
                    }
                    j = j + 1;
                }
                best
            } else {
                lo
            }
        };

        proof {
            assert(chosen as int == spec_chosen_idx(
                candidates@,
                all_nodes_bw_asc@,
                workload_type@,
                spec_cursor(old(choice)@, group_id@) as int,
            ));
            lemma_chosen_in_range(
                candidates@,
                all_nodes_bw_asc@,
                workload_type@,
                spec_cursor(old(choice)@, group_id@) as int,
            );
        }
        if !is_compute {
            let next = ((chosen + 1) % all_n) as u32;
            cursor_set(choice, group_id, next);
        }
        let chosen_name = all_nodes_bw_asc[chosen].clone();

        let mut scores: Vec<(String, u32)> = Vec::new();
        let mut j: usize = 0;
        while j < n
            invariant
                0 <= j <= n == candidates@.len(),
                scores@.len() == j,
                chosen_name@ == all_nodes_bw_asc@[chosen as int]@,
                forall|t: int| 0 <= t < j ==> (#[trigger] scores@[t]).0@ == candidates@[t]@,
                forall|t: int|
                    0 <= t < j ==> (#[trigger] scores@[t]).1 == if candidates@[t]@
                        == all_nodes_bw_asc@[chosen as int]@ {
                        100u32
                    } else {
                        0u32
                    },
            decreases n - j,
        {
            let score: u32 = if candidates[j] == chosen_name {
                100
            } else {
                0
            };
            scores.push((candidates[j].clone(), score));
            j = j + 1;
        }
        scores
    }
}

/// The position the policy chooses is a candidate's position in the
/// node order, hence in range.
pub proof fn lemma_chosen_in_range(
    cands: Seq<String>,
    all: Seq<String>,
    workload_type: Seq<char>,
    c: int,
)
    requires
        cands.len() > 0,
        all.len() > 0,
        0 <= c,
        forall|j: int| 0 <= j < cands.len() ==> index_in(all, (#[trigger] cands[j])@) < all.len(),
    ensures
        0 <= spec_chosen_idx(cands, all, workload_type, c) < all.len(),
{
    lemma_max_idx_is_position(cands, all, cands.len() as int);
    lemma_min_ge_bounds(cands, all, c, cands.len() as int);
}

/// The running maximum is always one of the candidate positions (or the
/// start of the order), hence within the order.
proof fn lemma_max_idx_is_position(cands: Seq<String>, all: Seq<String>, j: int)
    requires
        forall|t: int| 0 <= t < cands.len() ==> index_in(all, (#[trigger] cands[t])@) < all.len(),
        all.len() > 0,
        j <= cands.len(),
    ensures
        0 <= max_idx_upto(cands, all, j) < all.len(),
    decreases j,
{
    if j > 0 {
        lemma_max_idx_is_position(cands, all, j - 1);
    }
}

/// The running minimum stays between the cursor rule's bounds.
proof fn lemma_min_ge_bounds(cands: Seq<String>, all: Seq<String>, c: int, j: int)
    requires
        j <= cands.len(),
        0 <= c,
    ensures
        0 <= min_ge_upto(cands, all, c, j) <= all.len(),
    decreases j,
{
    if j > 0 {
        lemma_min_ge_bounds(cands, all, c, j - 1);
    }
}


/// Scan positions never come out negative.
proof fn lemma_idx_nonneg(list: Seq<String>, k: int, name: Seq<char>)
    requires
        0 <= k,
    ensures
        idx_from(list, k, name) >= 0,
    decreases list.len() - k,
{
    if k < list.len() && list[k]@ != name {
        lemma_idx_nonneg(list, k + 1, name);
    }
}

/// The running maximum is the position of one of the candidates seen.
proof fn lemma_max_is_cand(cands: Seq<String>, all: Seq<String>, j: int)
    requires
        1 <= j <= cands.len(),
    ensures
        exists|t: int|
            0 <= t < j && max_idx_upto(cands, all, j) == index_in(all, (#[trigger] cands[t])@),
    decreases j,
{
    lemma_idx_nonneg(all, 0, cands[j - 1]@);
    if j == 1 {
        assert(max_idx_upto(cands, all, 0) == 0);
        assert(max_idx_upto(cands, all, 1) == index_in(all, cands[0]@));
    } else {
        lemma_max_is_cand(cands, all, j - 1);
        let x = index_in(all, cands[j - 1]@);
        if x > max_idx_upto(cands, all, j - 1) {
            assert(max_idx_upto(cands, all, j) == index_in(all, cands[j - 1]@));
        }
    }
}

/// When the cursor scan finds a position, it is the position of one of
/// the candidates seen.
proof fn lemma_min_is_cand(cands: Seq<String>, all: Seq<String>, c: int, j: int)
    requires
        0 <= j <= cands.len(),
        min_ge_upto(cands, all, c, j) < all.len(),
    ensures
        exists|t: int|
            0 <= t < j && min_ge_upto(cands, all, c, j) == index_in(all, (#[trigger] cands[t])@),
    decreases j,
{
    let x = index_in(all, cands[j - 1]@);
    let prev = min_ge_upto(cands, all, c, j - 1);
    if x >= c && x < prev {
        assert(min_ge_upto(cands, all, c, j) == index_in(all, cands[j - 1]@));
    } else {
        lemma_min_is_cand(cands, all, c, j - 1);
    }
}

/// The position the policy scores belongs to one of the candidates: the
/// scored node is always a candidate.
pub proof fn lemma_chosen_is_candidate(
    cands: Seq<String>,
    all: Seq<String>,
    workload_type: Seq<char>,
    c: int,
)
    requires
        cands.len() > 0,
        all.len() > 0,
        0 <= c,
        forall|j: int| 0 <= j < cands.len() ==> index_in(all, (#[trigger] cands[j])@) < all.len(),
    ensures
        exists|j: int|
            0 <= j < cands.len() && (#[trigger] cands[j])@ == all[spec_chosen_idx(
                cands,
                all,
                workload_type,
                c,
            )]@,
{
    let ch = spec_chosen_idx(cands, all, workload_type, c);
    if workload_type == "compute"@ || min_ge_upto(cands, all, c, cands.len() as int) == all.len() {
        lemma_max_is_cand(cands, all, cands.len() as int);
        let t = choose|t: int|
            0 <= t < cands.len() && max_idx_upto(cands, all, cands.len() as int) == index_in(
                all,
                (#[trigger] cands[t])@,
            );
        lemma_idx_found(all, 0, cands[t]@);
    } else {
        lemma_min_ge_bounds(cands, all, c, cands.len() as int);
        lemma_min_is_cand(cands, all, c, cands.len() as int);
        let t = choose|t: int|
            0 <= t < cands.len() && min_ge_upto(cands, all, c, cands.len() as int) == index_in(
                all,
                (#[trigger] cands[t])@,
            );
        lemma_idx_found(all, 0, cands[t]@);
    }
}


/// Priority determinism: two scoring passes over identical inputs give
/// identical scores and identical cursor updates.
pub proof fn lemma_priority_deterministic(
    cands: Seq<String>,
    all: Seq<String>,
    workload_type: Seq<char>,
    g: Seq<char>,
    pre_choice: Seq<(String, u32)>,
    post1: Seq<(String, u32)>,
    post2: Seq<(String, u32)>,
    s1: Seq<(String, u32)>,
    s2: Seq<(String, u32)>,
)
    requires
        priority_ens(cands, all, workload_type, g, pre_choice, post1, s1),
        priority_ens(cands, all, workload_type, g, pre_choice, post2, s2),
    ensures
        s1.len() == s2.len(),
        forall|j: int|
            0 <= j < s1.len() ==> (#[trigger] s1[j]).0@ == s2[j].0@ && s1[j].1 == s2[j].1,
        spec_cursor(post1, g) == spec_cursor(post2, g),
{
}

/// Cursor monotonicity: after a storage-path pass, the group's cursor
/// stands one past the chosen position, wrapped at the end of the node
/// order.
pub proof fn lemma_cursor_advances(
    cands: Seq<String>,
    all: Seq<String>,
    workload_type: Seq<char>,
    g: Seq<char>,
    pre_choice: Seq<(String, u32)>,
    post_choice: Seq<(String, u32)>,
    scores: Seq<(String, u32)>,
)
    requires
        priority_ens(cands, all, workload_type, g, pre_choice, post_choice, scores),
        workload_type != "compute"@,
    ensures
        spec_cursor(post_choice, g) as int == (spec_chosen_idx(
            cands,
            all,
            workload_type,
            spec_cursor(pre_choice, g) as int,
        ) + 1) % (all.len() as int),
{
}

/// Compute pinning: over a node order sorted ascending by bandwidth,
/// the position a compute pod scores carries at least the bandwidth of
/// every candidate.
pub proof fn lemma_compute_pinning(
    nodes: Seq<NodeBandwidth>,
    all: Seq<String>,
    cands: Seq<String>,
    workload_type: Seq<char>,
    c: int,
    j: int,
)
    requires
        workload_type == "compute"@,
        all.len() == nodes.len(),
        forall|i: int| 0 <= i < nodes.len() ==> (#[trigger] all[i])@ == nodes[i].name@,
        forall|i: int, k: int|
            0 <= i <= k < nodes.len() ==> bw_le(#[trigger] nodes[i], #[trigger] nodes[k]),
        cands.len() > 0,
        forall|t: int| 0 <= t < cands.len() ==> index_in(all, (#[trigger] cands[t])@) < all.len(),
        0 <= j < cands.len(),
    ensures
        nodes[spec_chosen_idx(cands, all, workload_type, c)].bw >= nodes[index_in(
            all,
            cands[j]@,
        )].bw,
{
    lemma_idx_nonneg(all, 0, cands[j]@);
    lemma_max_idx_ge(cands, all, j, cands.len() as int);
    lemma_max_idx_is_position(cands, all, cands.len() as int);
    let ch = spec_chosen_idx(cands, all, workload_type, c);
    let ij = index_in(all, cands[j]@);
    assert(bw_le(nodes[ij], nodes[ch]));
}

/// The running maximum dominates every position seen.
proof fn lemma_max_idx_ge(cands: Seq<String>, all: Seq<String>, j: int, upto: int)
    requires
        0 <= j < upto <= cands.len(),
    ensures
        index_in(all, cands[j]@) <= max_idx_upto(cands, all, upto),
    decreases upto,
{
    if j < upto - 1 {
        lemma_max_idx_ge(cands, all, j, upto - 1);
    }
}

/// The fixed bandwidth map of the reference cluster: symmetric edges in
/// megabits, self-edges at the maximum, `xyji` the storage node.
pub fn hard_coded_network_bandwidth_map() -> (r: Vec<(String, String, u64)>)
    ensures
        r@.len() == 16,
        r@[0].0@ == "node1"@ && r@[0].1@ == "node02"@ && r@[0].2 == 100,
        r@[1].0@ == "node02"@ && r@[1].1@ == "node1"@ && r@[1].2 == 100,
        r@[2].0@ == "node1"@ && r@[2].1@ == "node03"@ && r@[2].2 == 100,
        r@[3].0@ == "node03"@ && r@[3].1@ == "node1"@ && r@[3].2 == 100,
        r@[4].0@ == "node1"@ && r@[4].1@ == "xyji"@ && r@[4].2 == 5,
        r@[5].0@ == "xyji"@ && r@[5].1@ == "node1"@ && r@[5].2 == 5,
        r@[6].0@ == "node02"@ && r@[6].1@ == "node03"@ && r@[6].2 == 100,
        r@[7].0@ == "node03"@ && r@[7].1@ == "node02"@ && r@[7].2 == 100,
        r@[8].0@ == "node02"@ && r@[8].1@ == "xyji"@ && r@[8].2 == 20,
        r@[9].0@ == "xyji"@ && r@[9].1@ == "node02"@ && r@[9].2 == 20,
        r@[10].0@ == "node03"@ && r@[10].1@ == "xyji"@ && r@[10].2 == 25,
        r@[11].0@ == "xyji"@ && r@[11].1@ == "node03"@ && r@[11].2 == 25,
        r@[12].0@ == "node1"@ && r@[12].1@ == "node1"@ && r@[12].2 == u64::MAX,
        r@[13].0@ == "node02"@ && r@[13].1@ == "node02"@ && r@[13].2 == u64::MAX,
        r@[14].0@ == "node03"@ && r@[14].1@ == "node03"@ && r@[14].2 == u64::MAX,
        r@[15].0@ == "xyji"@ && r@[15].1@ == "xyji"@ && r@[15].2 == u64::MAX
{
    let mut t: Vec<(String, String, u64)> = Vec::new();
    t.push(("node1".to_owned(), "node02".to_owned(), 100));
    t.push(("node02".to_owned(), "node1".to_owned(), 100));
    t.push(("node1".to_owned(), "node03".to_owned(), 100));
    t.push(("node03".to_owned(), "node1".to_owned(), 100));
    t.push(("node1".to_owned(), "xyji".to_owned(), 5));
    t.push(("xyji".to_owned(), "node1".to_owned(), 5));
    t.push(("node02".to_owned(), "node03".to_owned(), 100));
    t.push(("node03".to_owned(), "node02".to_owned(), 100));
    t.push(("node02".to_owned(), "xyji".to_owned(), 20));
    t.push(("xyji".to_owned(), "node02".to_owned(), 20));
    t.push(("node03".to_owned(), "xyji".to_owned(), 25));
    t.push(("xyji".to_owned(), "node03".to_owned(), 25));
    t.push(("node1".to_owned(), "node1".to_owned(), u64::MAX));
    t.push(("node02".to_owned(), "node02".to_owned(), u64::MAX));
    t.push(("node03".to_owned(), "node03".to_owned(), u64::MAX));
    t.push(("xyji".to_owned(), "xyji".to_owned(), u64::MAX));
    t
}

/// The bandwidth each node has towards `storage`, read off a pair map:
/// every edge that ends at the storage node, the storage node's own
/// self-edge included.
pub open spec fn spec_edges_to(map: Seq<(String, String, u64)>, storage: Seq<char>) -> Seq<
    NodeBandwidth,
>
    decreases map.len(),
{
    if map.len() == 0 {
        Seq::empty()
    } else {
        let rest = spec_edges_to(map.drop_last(), storage);
        if map.last().1@ == storage {
            rest.push(NodeBandwidth { name: map.last().0, bw: map.last().2 })
        } else {
            rest
        }
    }
}

/// Reads each node's bandwidth towards the storage node off a pair map.
pub fn edges_to_storage(map: &Vec<(String, String, u64)>, storage: &String) -> (r: Vec<
    NodeBandwidth,
>)
    ensures
        r@ == spec_edges_to(map@, storage@),
{
    let mut out: Vec<NodeBandwidth> = Vec::new();
    let mut i: usize = 0;
    while i < map.len()
        invariant
            0 <= i <= map@.len(),
            out@ == spec_edges_to(map@.take(i as int), storage@),
        decreases map@.len() - i,
    {
        proof {
            assert(map@.take(i + 1).drop_last() =~= map@.take(i as int));
            assert(map@.take(i + 1).last() == map@[i as int]);
        }
        if map[i].1 == *storage {
            out.push(NodeBandwidth { name: map[i].0.clone(), bw: map[i].2 });
            proof {
                assert(out@ =~= spec_edges_to(map@.take(i + 1), storage@));
            }
        } else {
            proof {
                assert(out@ =~= spec_edges_to(map@.take(i + 1), storage@));
            }
        }
        i = i + 1;
    }
    proof {
        assert(map@.take(map@.len() as int) =~= map@);
    }
    out
}

} // verus!
