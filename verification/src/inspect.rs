//! Decisions of the inspector panel: which parameters it shows for one
//! node, and which parameters several selected nodes have in common.
use vstd::prelude::*;

verus! {

/// Kind of a node parameter.
#[derive(Clone, Copy, Debug, PartialEq, Eq, Structural)]
pub enum ParamKind {
    Float,
    Int,
    Bool,
    Choice,
}

/// What identifies a parameter across nodes: its name and kind.
#[derive(Clone, Debug)]
pub struct ParamKey {
    pub name: String,
    pub kind: ParamKind,
}

/// Whether `list` holds a parameter with the name and kind of `k`.
pub open spec fn has_key(list: Seq<ParamKey>, k: ParamKey) -> bool {
    exists|j: int| 0 <= j < list.len() && (#[trigger] list[j]).name@ == k.name@ && list[j].kind == k.kind
}

/// Whether every list after the first holds `k`.
pub open spec fn shared_by_rest(lists: Seq<Vec<ParamKey>>, k: ParamKey) -> bool {
    forall|m: int| 1 <= m < lists.len() ==> has_key(#[trigger] lists[m]@, k)
}

/// Positions (in the first list) of its parameters that all lists share,
/// among its first `n` parameters.
pub open spec fn common_upto(lists: Seq<Vec<ParamKey>>, n: nat) -> Seq<usize>
    decreases n,
{
    if n == 0 {
        Seq::empty()
    } else {
        let prev = common_upto(lists, (n - 1) as nat);
        if shared_by_rest(lists, lists[0]@[n - 1]) {
            prev.push((n - 1) as usize)
        } else {
            prev
        }
    }
}

fn list_has_key(list: &Vec<ParamKey>, k: &ParamKey) -> (r: bool)
    ensures
        r == has_key(list@, *k),
{
    let mut j: usize = 0;
    while j < list.len()
        invariant
            j <= list.len(),
            forall|i: int| 0 <= i < j ==> !((#[trigger] list@[i]).name@ == k.name@ && list@[i].kind == k.kind),
        decreases list.len() - j,
    {
        if list[j].name == k.name && list[j].kind == k.kind {
            return true;
        }
        j += 1;
    }
    false
}

/// The parameters of the first node that every other selected node also
/// has (same name, same kind), as positions in the first node's list, in
/// order; none when no node is selected.
pub fn common_params(lists: &Vec<Vec<ParamKey>>) -> (r: Vec<usize>)
    ensures
        lists@.len() == 0 ==> r@.len() == 0,
        lists@.len() > 0 ==> r@ == common_upto(lists@, lists@[0]@.len()),
{
    let mut r: Vec<usize> = Vec::new();
    if lists.len() == 0 {
        return r;
    }
    let first = &lists[0];
    let mut i: usize = 0;
    while i < first.len()
        invariant
            lists@.len() > 0,
            *first == lists@[0],
            i <= first.len(),
            r@ == common_upto(lists@, i as nat),
        decreases first.len() - i,
    {
        let k = &first[i];
        let mut all = true;
        let mut m: usize = 1;
        while m < lists.len()
            invariant
                1 <= m <= lists.len(),
                all <==> forall|q: int| 1 <= q < m ==> has_key(#[trigger] lists@[q]@, *k),
            decreases lists.len() - m,
        {
            if !list_has_key(&lists[m], k) {
                all = false;
            }
            m += 1;
        }
        if all {
            r.push(i);
        }
        i += 1;
    }
    r
}

/// Parameters `0..count` that are not hidden, in order.
pub open spec fn visible_upto(hidden: Seq<usize>, count: nat) -> Seq<usize>
    decreases count,
{
    if count == 0 {
        Seq::empty()
    } else {
        let prev = visible_upto(hidden, (count - 1) as nat);
        if hidden.contains((count - 1) as usize) {
            prev
        } else {
            prev.push((count - 1) as usize)
        }
    }
}

/// The parameters the inspector lists for one node: all but those that a
/// wired input overrides.
pub fn visible_params(count: usize, hidden: &Vec<usize>) -> (r: Vec<usize>)
    ensures
        r@ == visible_upto(hidden@, count as nat),
{
    let mut r: Vec<usize> = Vec::new();
    let mut i: usize = 0;
    while i < count
        invariant
            i <= count,
            r@ == visible_upto(hidden@, i as nat),
        decreases count - i,
    {
        let mut found = false;
        let mut j: usize = 0;
        while j < hidden.len()
            invariant
                j <= hidden.len(),
                found <==> hidden@.take(j as int).contains(i),
            decreases hidden.len() - j,
        {
            let y = hidden[j];
            proof {
                let t = hidden@.take(j as int);
                let t1 = hidden@.take(j + 1);
                assert(t1 =~= t.push(y));
                if t.contains(i) {
                    let k = choose|k: int| 0 <= k < t.len() && t[k] == i;
                    assert(t1[k] == i);
                }
                if y == i {
                    assert(t1[j as int] == i);
                }
                if t1.contains(i) && y != i {
                    let k = choose|k: int| 0 <= k < t1.len() && t1[k] == i;
                    assert(t[k] == i);
                }
            }
            if y == i {
                found = true;
            }
            j += 1;
        }
        proof {
            assert(hidden@.take(hidden.len() as int) =~= hidden@);
        }
        if !found {
            r.push(i);
        }
        i += 1;
    }
    r
}

} // verus!
