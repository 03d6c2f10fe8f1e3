//! Output nodes that write to groups of objects, and the group-selection
//! logic they share with other group-driven nodes.
use vstd::prelude::*;
use crate::ports::{NodeId, PortType, PortDef, UiPortDef, PortView, plain_port, port_views, ui_ports_from_defs};
use crate::nodes::{ports2, ports3, ports4, grouped_port_views, grouped_defs};
use crate::text::{decimal_chars, decimal};

verus! {

/// `ids` after ticking (`selected`) or unticking a group in the inspector:
/// ticking appends the id, unticking removes every occurrence of it.
pub open spec fn toggled(ids: Seq<u32>, gid: u32, selected: bool) -> Seq<u32> {
    if selected {
        ids.push(gid)
    } else {
        ids.filter(other_than(gid))
    }
}

pub open spec fn other_than(gid: u32) -> spec_fn(u32) -> bool {
    |x: u32| x != gid
}

pub fn toggle_selection(ids: &mut Vec<u32>, gid: u32, selected: bool)
    ensures
        final(ids)@ == toggled(old(ids)@, gid, selected),
{
    if selected {
        ids.push(gid);
    } else {
        let mut kept: Vec<u32> = Vec::new();
        let mut i: usize = 0;
        while i < ids.len()
            invariant
                i <= ids.len(),
                kept@ == ids@.take(i as int).filter(other_than(gid)),
            decreases ids.len() - i,
        {
            let x = ids[i];
            proof {
                let ghost t = ids@.take(i as int);
                assert(ids@.take(i + 1) == t.push(x));
                t.lemma_filter_push(x, other_than(gid));
            }
            if x != gid {
                kept.push(x);
            }
            i += 1;
        }
        proof {
            assert(ids@.take(ids.len() as int) =~= ids@);
        }
        *ids = kept;
    }
}

/// What group-driven nodes read of a group: its id, name, objects, and the
/// object of each entry of its strip layout (in layout order; the entry's
/// span stays with the caller, found again by its position).
pub struct GroupSummary {
    pub id: u32,
    pub name: String,
    pub object_ids: Vec<u32>,
    pub strip_objects: Vec<u32>,
}

/// Position of the first group with id `gid`.
pub open spec fn group_at(groups: Seq<GroupSummary>, gid: u32) -> Option<int>
    decreases groups.len(),
{
    if groups.len() == 0 {
        None
    } else if groups.last().id == gid && group_at(groups.drop_last(), gid).is_none() {
        Some(groups.len() - 1)
    } else {
        group_at(groups.drop_last(), gid)
    }
}

/// Names of the selected groups that exist, in selection order.
pub open spec fn selected_names(groups: Seq<GroupSummary>, sel: Seq<u32>) -> Seq<Seq<char>>
    decreases sel.len(),
{
    if sel.len() == 0 {
        Seq::empty()
    } else {
        let prev = selected_names(groups, sel.drop_last());
        match group_at(groups, sel.last()) {
            Some(k) => prev.push(groups[k].name@),
            None => prev,
        }
    }
}

/// `acc` extended by each of `ids` that it does not hold yet, in order.
pub open spec fn add_unique(acc: Seq<u32>, ids: Seq<u32>) -> Seq<u32>
    decreases ids.len(),
{
    if ids.len() == 0 {
        acc
    } else {
        let prev = add_unique(acc, ids.drop_last());
        if prev.contains(ids.last()) {
            prev
        } else {
            prev.push(ids.last())
        }
    }
}

/// Objects of the selected groups, each once, in first-seen order.
pub open spec fn selected_objects(groups: Seq<GroupSummary>, sel: Seq<u32>) -> Seq<u32>
    decreases sel.len(),
{
    if sel.len() == 0 {
        Seq::empty()
    } else {
        let prev = selected_objects(groups, sel.drop_last());
        match group_at(groups, sel.last()) {
            Some(k) => add_unique(prev, groups[k].object_ids@),
            None => prev,
        }
    }
}

proof fn lemma_group_at_bounds(groups: Seq<GroupSummary>, gid: u32)
    ensures
        match group_at(groups, gid) {
            Some(k) => 0 <= k < groups.len() && groups[k].id == gid && forall|j: int|
                0 <= j < k ==> #[trigger] groups[j].id != gid,
            None => forall|j: int| 0 <= j < groups.len() ==> #[trigger] groups[j].id != gid,
        },
    decreases groups.len(),
{
    if groups.len() > 0 {
        lemma_group_at_bounds(groups.drop_last(), gid);
        match group_at(groups.drop_last(), gid) {
            Some(k) => {
                assert forall|j: int| 0 <= j < k implies #[trigger] groups[j].id != gid by {
                    assert(groups[j] == groups.drop_last()[j]);
                }
            },
            None => {
                assert forall|j: int| 0 <= j < groups.len() - 1 implies #[trigger] groups[j].id != gid by {
                    assert(groups[j] == groups.drop_last()[j]);
                }
            },
        }
    }
}

fn find_group(groups: &Vec<GroupSummary>, gid: u32) -> (r: Option<usize>)
    ensures
        match r {
            Some(k) => group_at(groups@, gid) == Some(k as int),
            None => group_at(groups@, gid).is_none(),
        },
{
    proof {
        lemma_group_at_bounds(groups@, gid);
    }
    let mut i: usize = 0;
    while i < groups.len()
        invariant
            i <= groups.len(),
            forall|j: int| 0 <= j < i ==> #[trigger] groups@[j].id != gid,
        decreases groups.len() - i,
    {
        if groups[i].id == gid {
            proof {
                lemma_group_at_unique(groups@, gid, i as int);
            }
            return Some(i);
        }
        i += 1;
    }
    proof {
        match group_at(groups@, gid) {
            Some(k) => {
                assert(groups@[k].id == gid);
            },
            None => {},
        }
    }
    None
}

proof fn lemma_group_at_unique(groups: Seq<GroupSummary>, gid: u32, i: int)
    requires
        0 <= i < groups.len(),
        groups[i].id == gid,
        forall|j: int| 0 <= j < i ==> #[trigger] groups[j].id != gid,
    ensures
        group_at(groups, gid) == Some(i),
    decreases groups.len(),
{
    if i < groups.len() - 1 {
        let g = groups.drop_last();
        assert(g[i] == groups[i]);
        assert forall|j: int| 0 <= j < i implies #[trigger] g[j].id != gid by {
            assert(g[j] == groups[j]);
        }
        lemma_group_at_unique(g, gid, i);
    } else {
        lemma_group_at_bounds(groups.drop_last(), gid);
        let g = groups.drop_last();
        assert forall|j: int| 0 <= j < g.len() implies #[trigger] g[j].id != gid by {
            assert(g[j] == groups[j]);
        }
    }
}

fn add_unique_exec(acc: &mut Vec<u32>, ids: &Vec<u32>)
    ensures
        final(acc)@ == add_unique(old(acc)@, ids@),
{
    let mut i: usize = 0;
    while i < ids.len()
        invariant
            i <= ids.len(),
            acc@ == add_unique(old(acc)@, ids@.take(i as int)),
        decreases ids.len() - i,
    {
        let x = ids[i];
        proof {
            assert(ids@.take(i + 1).drop_last() =~= ids@.take(i as int));
        }
        let mut present = false;
        let mut j: usize = 0;
        while j < acc.len()
            invariant
                j <= acc.len(),
                present <==> acc@.take(j as int).contains(x),
            decreases acc.len() - j,
        {
            let y = acc[j];
            proof {
                let t = acc@.take(j as int);
                let t1 = acc@.take(j + 1);
                assert(t1 =~= t.push(y));
                if t.contains(x) {
                    let k = choose|k: int| 0 <= k < t.len() && t[k] == x;
                    assert(t1[k] == x);
                }
                if y == x {
                    assert(t1[j as int] == x);
                }
                if t1.contains(x) && y != x {
                    let k = choose|k: int| 0 <= k < t1.len() && t1[k] == x;
                    assert(k < j);
                    assert(t[k] == x);
                }
            }
            if y == x {
                present = true;
            }
            j += 1;
        }
        proof {
            assert(acc@.take(acc.len() as int) =~= acc@);
        }
        if !present {
            acc.push(x);
        }
        i += 1;
    }
    proof {
        assert(ids@.take(ids.len() as int) =~= ids@);
    }
}

/// Names and objects of the selected groups, as pushed to the processing
/// side; ids with no group are skipped.
pub fn resolve_groups(groups: &Vec<GroupSummary>, selected: &Vec<u32>) -> (r: (Vec<String>, Vec<u32>))
    ensures
        r.0@.map_values(|s: String| s@) == selected_names(groups@, selected@),
        r.1@ == selected_objects(groups@, selected@),
{
    let mut names: Vec<String> = Vec::new();
    let mut objects: Vec<u32> = Vec::new();
    let mut i: usize = 0;
    while i < selected.len()
        invariant
            i <= selected.len(),
            names@.map_values(|s: String| s@) == selected_names(groups@, selected@.take(i as int)),
            objects@ == selected_objects(groups@, selected@.take(i as int)),
        decreases selected.len() - i,
    {
        let gid = selected[i];
        proof {
            assert(selected@.take(i + 1).drop_last() =~= selected@.take(i as int));
        }
        match find_group(groups, gid) {
            Some(k) => {
                proof {
                    lemma_group_at_bounds(groups@, gid);
                }
                let n = groups[k].name.clone();
                let ghost prev = names@;
                names.push(n);
                proof {
                    assert(names@.map_values(|s: String| s@) =~= prev.map_values(|s: String| s@).push(
                        n@));
                }
                add_unique_exec(&mut objects, &groups[k].object_ids);
            },
            None => {},
        }
        i += 1;
    }
    proof {
        assert(selected@.take(selected.len() as int) =~= selected@);
    }
    (names, objects)
}

/// What group-driven nodes read of an object: its id, whether one of its
/// channels is an LED strip, and whether one is a colour channel.
#[derive(Clone, Copy, Debug, PartialEq, Eq, Structural)]
pub struct ObjectSummary {
    pub id: u32,
    pub has_strip: bool,
    pub has_color: bool,
}

/// Position of the first object with id `oid`.
pub open spec fn object_at(objects: Seq<ObjectSummary>, oid: u32) -> Option<int>
    decreases objects.len(),
{
    if objects.len() == 0 {
        None
    } else if objects.last().id == oid && object_at(objects.drop_last(), oid).is_none() {
        Some(objects.len() - 1)
    } else {
        object_at(objects.drop_last(), oid)
    }
}

/// The object `oid` exists and drives an LED strip.
pub open spec fn is_strip_object(objects: Seq<ObjectSummary>, oid: u32) -> bool {
    match object_at(objects, oid) {
        Some(k) => objects[k].has_strip,
        None => false,
    }
}

/// The object `oid` exists, has a colour channel and no LED strip.
pub open spec fn is_plain_color_object(objects: Seq<ObjectSummary>, oid: u32) -> bool {
    match object_at(objects, oid) {
        Some(k) => objects[k].has_color && !objects[k].has_strip,
        None => false,
    }
}

/// A strip-layout entry: the group's position in the group list and the
/// entry's position in that group's layout.
#[derive(Clone, Copy, Debug, PartialEq, Eq, Structural)]
pub struct StripPick {
    pub group: usize,
    pub entry: usize,
}

/// The first `n` strip-layout entries of group `g` (at position `k`);
/// with `only_strips`, only those whose object drives an LED strip.
pub open spec fn strip_picks_upto(g: GroupSummary, k: int, objects: Seq<ObjectSummary>, only_strips: bool, n: int) -> Seq<
    StripPick,
>
    decreases n,
{
    if n <= 0 {
        Seq::empty()
    } else {
        let prev = strip_picks_upto(g, k, objects, only_strips, n - 1);
        if !only_strips || is_strip_object(objects, g.strip_objects@[n - 1]) {
            prev.push(StripPick { group: k as usize, entry: (n - 1) as usize })
        } else {
            prev
        }
    }
}

/// Strip-layout entries of the selected groups that exist, group after
/// group in selection order.
pub open spec fn selected_strips(groups: Seq<GroupSummary>, sel: Seq<u32>, objects: Seq<ObjectSummary>, only_strips: bool) -> Seq<
    StripPick,
>
    decreases sel.len(),
{
    if sel.len() == 0 {
        Seq::empty()
    } else {
        let prev = selected_strips(groups, sel.drop_last(), objects, only_strips);
        match group_at(groups, sel.last()) {
            Some(k) => prev + strip_picks_upto(groups[k], k, objects, only_strips, groups[k].strip_objects@.len() as int),
            None => prev,
        }
    }
}

/// Objects among `ids` that are plain colour fixtures, in order.
pub open spec fn plain_color_ids(ids: Seq<u32>, objects: Seq<ObjectSummary>) -> Seq<u32>
    decreases ids.len(),
{
    if ids.len() == 0 {
        Seq::empty()
    } else {
        let prev = plain_color_ids(ids.drop_last(), objects);
        if is_plain_color_object(objects, ids.last()) {
            prev.push(ids.last())
        } else {
            prev
        }
    }
}

/// Where an effect stack renders: a strip-layout entry, or a colour
/// fixture placed by its rank among the group's `count` colour fixtures
/// (at 0.5 when it is alone, else at rank / (count - 1) along the axis).
#[derive(Clone, Copy, Debug, PartialEq, Eq, Structural)]
pub enum StackTarget {
    Strip(StripPick),
    Fixture { object_id: u32, rank: usize, count: usize },
}

pub open spec fn fixture_targets(f: Seq<u32>) -> Seq<StackTarget> {
    Seq::new(f.len(), |i: int| StackTarget::Fixture { object_id: f[i], rank: i as usize, count: f.len() as usize })
}

pub open spec fn strip_targets(picks: Seq<StripPick>) -> Seq<StackTarget> {
    picks.map_values(|p: StripPick| StackTarget::Strip(p))
}

/// Render targets of an effect stack: for each selected group that exists,
/// its LED-strip entries, then its plain colour fixtures.
pub open spec fn stack_targets_spec(groups: Seq<GroupSummary>, sel: Seq<u32>, objects: Seq<ObjectSummary>) -> Seq<StackTarget>
    decreases sel.len(),
{
    if sel.len() == 0 {
        Seq::empty()
    } else {
        let prev = stack_targets_spec(groups, sel.drop_last(), objects);
        match group_at(groups, sel.last()) {
            Some(k) => prev + strip_targets(
                strip_picks_upto(groups[k], k, objects, true, groups[k].strip_objects@.len() as int),
            ) + fixture_targets(plain_color_ids(groups[k].object_ids@, objects)),
            None => prev,
        }
    }
}

proof fn lemma_object_at_bounds(objects: Seq<ObjectSummary>, oid: u32)
    ensures
        match object_at(objects, oid) {
            Some(k) => 0 <= k < objects.len() && objects[k].id == oid && forall|j: int|
                0 <= j < k ==> #[trigger] objects[j].id != oid,
            None => forall|j: int| 0 <= j < objects.len() ==> #[trigger] objects[j].id != oid,
        },
    decreases objects.len(),
{
    if objects.len() > 0 {
        lemma_object_at_bounds(objects.drop_last(), oid);
        match object_at(objects.drop_last(), oid) {
            Some(k) => {
                assert forall|j: int| 0 <= j < k implies #[trigger] objects[j].id != oid by {
                    assert(objects[j] == objects.drop_last()[j]);
                }
            },
            None => {
                assert forall|j: int| 0 <= j < objects.len() - 1 implies #[trigger] objects[j].id != oid by {
                    assert(objects[j] == objects.drop_last()[j]);
                }
            },
        }
    }
}

proof fn lemma_object_at_unique(objects: Seq<ObjectSummary>, oid: u32, i: int)
    requires
        0 <= i < objects.len(),
        objects[i].id == oid,
        forall|j: int| 0 <= j < i ==> #[trigger] objects[j].id != oid,
    ensures
        object_at(objects, oid) == Some(i),
    decreases objects.len(),
{
    if i < objects.len() - 1 {
        let o = objects.drop_last();
        assert(o[i] == objects[i]);
        assert forall|j: int| 0 <= j < i implies #[trigger] o[j].id != oid by {
            assert(o[j] == objects[j]);
        }
        lemma_object_at_unique(o, oid, i);
    } else {
        lemma_object_at_bounds(objects.drop_last(), oid);
        let o = objects.drop_last();
        assert forall|j: int| 0 <= j < o.len() implies #[trigger] o[j].id != oid by {
            assert(o[j] == objects[j]);
        }
    }
}

fn find_object(objects: &Vec<ObjectSummary>, oid: u32) -> (r: Option<usize>)
    ensures
        match r {
            Some(k) => object_at(objects@, oid) == Some(k as int) && k < objects@.len(),
            None => object_at(objects@, oid).is_none(),
        },
{
    proof {
        lemma_object_at_bounds(objects@, oid);
    }
    let mut i: usize = 0;
    while i < objects.len()
        invariant
            i <= objects.len(),
            forall|j: int| 0 <= j < i ==> #[trigger] objects@[j].id != oid,
        decreases objects.len() - i,
    {
        if objects[i].id == oid {
            proof {
                lemma_object_at_unique(objects@, oid, i as int);
            }
            return Some(i);
        }
        i += 1;
    }
    proof {
        match object_at(objects@, oid) {
            Some(k) => {
                assert(objects@[k].id == oid);
            },
            None => {},
        }
    }
    None
}

fn strip_object_exec(objects: &Vec<ObjectSummary>, oid: u32) -> (r: bool)
    ensures
        r == is_strip_object(objects@, oid),
{
    match find_object(objects, oid) {
        Some(k) => objects[k].has_strip,
        None => false,
    }
}

fn plain_color_exec(objects: &Vec<ObjectSummary>, oid: u32) -> (r: bool)
    ensures
        r == is_plain_color_object(objects@, oid),
{
    match find_object(objects, oid) {
        Some(k) => objects[k].has_color && !objects[k].has_strip,
        None => false,
    }
}

fn push_group_strips(out: &mut Vec<StripPick>, g: &GroupSummary, k: usize, objects: &Vec<ObjectSummary>, only_strips: bool)
    ensures
        final(out)@ == old(out)@ + strip_picks_upto(*g, k as int, objects@, only_strips, g.strip_objects@.len() as int),
{
    let mut e: usize = 0;
    while e < g.strip_objects.len()
        invariant
            e <= g.strip_objects.len(),
            out@ == old(out)@ + strip_picks_upto(*g, k as int, objects@, only_strips, e as int),
        decreases g.strip_objects.len() - e,
    {
        let keep = !only_strips || strip_object_exec(objects, g.strip_objects[e]);
        let ghost prev = out@;
        if keep {
            out.push(StripPick { group: k, entry: e });
            proof {
                assert(out@ =~= old(out)@ + strip_picks_upto(*g, k as int, objects@, only_strips, e + 1));
            }
        }
        e += 1;
    }
}

/// Strip-layout entries of the selected groups (the groups that exist),
/// group after group in selection order; with `objects`, only those whose
/// object drives an LED strip.
fn strips_for(groups: &Vec<GroupSummary>, selected: &Vec<u32>, objects: &Vec<ObjectSummary>, only_strips: bool) -> (r: Vec<
    StripPick,
>)
    ensures
        r@ == selected_strips(groups@, selected@, objects@, only_strips),
{
    let mut out: Vec<StripPick> = Vec::new();
    let mut i: usize = 0;
    while i < selected.len()
        invariant
            i <= selected.len(),
            out@ == selected_strips(groups@, selected@.take(i as int), objects@, only_strips),
        decreases selected.len() - i,
    {
        proof {
            assert(selected@.take(i + 1).drop_last() =~= selected@.take(i as int));
        }
        match find_group(groups, selected[i]) {
            Some(k) => {
                proof {
                    lemma_group_at_bounds(groups@, selected[i as int]);
                }
                push_group_strips(&mut out, &groups[k], k, objects, only_strips);
            },
            None => {},
        }
        i += 1;
    }
    proof {
        assert(selected@.take(selected.len() as int) =~= selected@);
    }
    out
}

/// Every strip-layout entry of the selected groups, as a Group Output
/// node pushes them.
pub fn group_strip_layouts(groups: &Vec<GroupSummary>, selected: &Vec<u32>) -> (r: Vec<StripPick>)
    ensures
        r@ == selected_strips(groups@, selected@, Seq::empty(), false),
{
    let none: Vec<ObjectSummary> = Vec::new();
    strips_for(groups, selected, &none, false)
}

/// The strip-layout entries of the selected groups whose object drives an
/// LED strip, as a Bar Pattern node pushes them.
pub fn bar_pattern_strips(groups: &Vec<GroupSummary>, selected: &Vec<u32>, objects: &Vec<ObjectSummary>) -> (r: Vec<
    StripPick,
>)
    ensures
        r@ == selected_strips(groups@, selected@, objects@, true),
{
    strips_for(groups, selected, objects, true)
}

fn plain_color_fixtures(ids: &Vec<u32>, objects: &Vec<ObjectSummary>) -> (r: Vec<u32>)
    ensures
        r@ == plain_color_ids(ids@, objects@),
{
    let mut f: Vec<u32> = Vec::new();
    let mut i: usize = 0;
    while i < ids.len()
        invariant
            i <= ids.len(),
            f@ == plain_color_ids(ids@.take(i as int), objects@),
        decreases ids.len() - i,
    {
        proof {
            assert(ids@.take(i + 1).drop_last() =~= ids@.take(i as int));
        }
        if plain_color_exec(objects, ids[i]) {
            f.push(ids[i]);
        }
        i += 1;
    }
    proof {
        assert(ids@.take(ids.len() as int) =~= ids@);
    }
    f
}

/// Render targets of an effect stack over the selected groups: each
/// group's LED-strip entries, then its plain colour fixtures ranked in
/// group order.
pub fn stack_targets(groups: &Vec<GroupSummary>, selected: &Vec<u32>, objects: &Vec<ObjectSummary>) -> (r: Vec<StackTarget>)
    ensures
        r@ == stack_targets_spec(groups@, selected@, objects@),
{
    let mut out: Vec<StackTarget> = Vec::new();
    let mut i: usize = 0;
    while i < selected.len()
        invariant
            i <= selected.len(),
            out@ == stack_targets_spec(groups@, selected@.take(i as int), objects@),
        decreases selected.len() - i,
    {
        proof {
            assert(selected@.take(i + 1).drop_last() =~= selected@.take(i as int));
        }
        match find_group(groups, selected[i]) {
            Some(k) => {
                proof {
                    lemma_group_at_bounds(groups@, selected[i as int]);
                }
                let g = &groups[k];
                let mut picks: Vec<StripPick> = Vec::new();
                push_group_strips(&mut picks, g, k, objects, true);
                let ghost base = out@;
                let mut j: usize = 0;
                while j < picks.len()
                    invariant
                        j <= picks.len(),
                        out@ == base + strip_targets(picks@.take(j as int)),
                    decreases picks.len() - j,
                {
                    out.push(StackTarget::Strip(picks[j]));
                    proof {
                        assert(picks@.take(j + 1) =~= picks@.take(j as int).push(picks@[j as int]));
                        assert(out@ =~= base + strip_targets(picks@.take(j + 1)));
                    }
                    j += 1;
                }
                proof {
                    assert(picks@.take(picks.len() as int) =~= picks@);
                }
                let f = plain_color_fixtures(&g.object_ids, objects);
                let ghost mid = out@;
                let mut r: usize = 0;
                while r < f.len()
                    invariant
                        r <= f.len(),
                        out@ == mid + fixture_targets(f@).take(r as int),
                    decreases f.len() - r,
                {
                    out.push(StackTarget::Fixture { object_id: f[r], rank: r, count: f.len() });
                    proof {
                        assert(fixture_targets(f@).take(r + 1) =~= fixture_targets(f@).take(r as int).push(
                            fixture_targets(f@)[r as int],
                        ));
                        assert(out@ =~= mid + fixture_targets(f@).take(r + 1));
                    }
                    r += 1;
                }
                proof {
                    assert(fixture_targets(f@).take(f.len() as int) =~= fixture_targets(f@));
                }
            },
            None => {},
        }
        i += 1;
    }
    proof {
        assert(selected@.take(selected.len() as int) =~= selected@);
    }
    out
}

/// "{a}{first}{b}{second}{c}" with both numbers in decimal.
fn two_counts(a: &str, first: usize, b: &str, second: usize, c: &str) -> (r: String)
    ensures
        r@ == a@ + decimal_chars(first as nat) + b@ + decimal_chars(second as nat) + c@,
{
    let mut s = String::from_str(a);
    s.append(decimal(first).as_str());
    s.append(b);
    s.append(decimal(second).as_str());
    s.append(c);
    s
}

/// Status line of a node over groups: "No groups" when none is selected,
/// else "{groups} groups, {strips} strips".
pub open spec fn groups_strips_chars(group_count: nat, strip_count: nat) -> Seq<char> {
    if group_count == 0 {
        "No groups"@
    } else {
        decimal_chars(group_count) + " groups, "@ + decimal_chars(strip_count) + " strips"@
    }
}

/// Status line of an effect stack: "No groups" when none is selected,
/// else "{layers} layers, {strips} strips".
pub open spec fn layers_strips_chars(group_count: nat, layer_count: nat, strip_count: nat) -> Seq<char> {
    if group_count == 0 {
        "No groups"@
    } else {
        decimal_chars(layer_count) + " layers, "@ + decimal_chars(strip_count) + " strips"@
    }
}

/// Status line of a Group Output node: the mode's label, then "No groups"
/// or "{groups} groups, {objects} obj".
pub open spec fn group_output_chars(mode_label: Seq<char>, group_count: nat, object_count: nat) -> Seq<char> {
    if group_count == 0 {
        mode_label + " — No groups"@
    } else {
        mode_label + " — "@ + decimal_chars(group_count) + " groups, "@ + decimal_chars(object_count) + " obj"@
    }
}

/// The groups and objects that group-driven nodes choose from. `G` and
/// `O` are the application's group and object records.
pub struct GroupOutputContext<G, O> {
    pub groups: Vec<G>,
    pub objects: Vec<O>,
}

impl<G, O> GroupOutputContext<G, O> {
    pub fn new() -> (r: Self)
        ensures
            r.groups@.len() == 0,
            r.objects@.len() == 0,
    {
        GroupOutputContext { groups: Vec::new(), objects: Vec::new() }
    }
}

/// How a Group Output node writes to its groups.
#[derive(Clone, Copy, Debug, PartialEq, Eq, Structural)]
pub enum GroupMode {
    /// A palette colour and dimmer every tick.
    Flood,
    /// A gradient across a sub-range on each rising trigger.
    Triggered,
}

pub const GROUP_DESCRIPTION: &'static str = "Writes to the objects of one or more groups. In Flood mode it broadcasts a palette color + dimmer every tick. In Triggered mode, a rising trigger writes a gradient across a sub-range of the group, using the gradient's per-stop alpha to softly blend with each object's current color.";

/// Writes to the objects of the selected groups. `C` is the shared group
/// context.
pub struct GroupWidget<C, S> {
    pub id: NodeId,
    pub shared: S,
    pub group_ctx: C,
    pub mode: GroupMode,
    pub selected_group_ids: Vec<u32>,
}

impl<C, S> GroupWidget<C, S> {
    pub fn new(id: NodeId, shared: S, group_ctx: C) -> (r: Self)
        ensures
            r.id == id,
            r.shared == shared,
            r.group_ctx == group_ctx,
            r.mode == GroupMode::Flood,
            r.selected_group_ids@.len() == 0,
    {
        GroupWidget { id, shared, group_ctx, mode: GroupMode::Flood, selected_group_ids: Vec::new() }
    }

    /// Sets the mode on project load, so the ports are right before the
    /// first stale-connection sweep.
    pub fn set_mode_from_load(&mut self, mode: GroupMode)
        ensures
            final(self).shared == old(self).shared,
            final(self).mode == mode,
            final(self).id == old(self).id,
            final(self).selected_group_ids@ == old(self).selected_group_ids@,
    {
        self.mode = mode;
    }

    pub fn node_id(&self) -> (r: NodeId)
        ensures
            r == self.id,
    {
        self.id
    }

    /// The node keeps its automatic size on the canvas.
    pub fn resizable(&self) -> (r: bool)
        ensures
            r == false,
    {
        false
    }

    pub fn type_label(&self) -> (r: &'static str)
        ensures
            r@ == "Group Output"@,
    {
        "Group Output"
    }

    pub fn title(&self) -> (r: &'static str)
        ensures
            r@ == "Group Output"@,
    {
        "Group Output"
    }

    pub fn description(&self) -> (r: &'static str)
        ensures
            r@ == GROUP_DESCRIPTION@,
    {
        GROUP_DESCRIPTION
    }

    /// Flood: palette and dimmer. Triggered: trigger, select, width, gradient.
    pub fn ui_inputs(&self) -> (r: Vec<UiPortDef>)
        ensures
            self.mode == GroupMode::Flood ==> port_views(r@) == seq![
                plain_port("palette"@, PortType::Palette),
                plain_port("dimmer"@, PortType::Untyped),
            ],
            self.mode == GroupMode::Triggered ==> port_views(r@) == seq![
                plain_port("trigger"@, PortType::Logic),
                plain_port("select"@, PortType::Untyped),
                plain_port("width"@, PortType::Untyped),
                plain_port("gradient"@, PortType::Gradient),
            ],
    {
        match self.mode {
            GroupMode::Flood => ports2(
                UiPortDef::plain("palette", PortType::Palette),
                UiPortDef::plain("dimmer", PortType::Untyped),
            ),
            GroupMode::Triggered => ports4(
                UiPortDef::plain("trigger", PortType::Logic),
                UiPortDef::plain("select", PortType::Untyped),
                UiPortDef::plain("width", PortType::Untyped),
                UiPortDef::plain("gradient", PortType::Gradient),
            ),
        }
    }

    pub fn ui_outputs(&self) -> (r: Vec<UiPortDef>)
        ensures
            r@.len() == 0,
    {
        Vec::new()
    }

    pub fn shared_state(&self) -> (r: &S)
        ensures
            *r == self.shared,
    {
        &self.shared
    }

    /// Takes over the mode reported by the processing side.
    pub fn sync_mode(&mut self, mode: GroupMode)
        ensures
            final(self).shared == old(self).shared,
            final(self).mode == mode,
            final(self).id == old(self).id,
            final(self).selected_group_ids@ == old(self).selected_group_ids@,
    {
        self.mode = mode;
    }

    /// A group's checkbox in the inspector changed.
    pub fn toggle_group(&mut self, gid: u32, selected: bool)
        ensures
            final(self).shared == old(self).shared,
            final(self).selected_group_ids@ == toggled(old(self).selected_group_ids@, gid, selected),
            final(self).mode == old(self).mode,
            final(self).id == old(self).id,
    {
        toggle_selection(&mut self.selected_group_ids, gid, selected);
    }
    /// The node's status line; `mode_label` names the current mode and
    /// `object_count` is what the processing side reports.
    pub fn status_text(&self, mode_label: &str, object_count: usize) -> (r: String)
        ensures
            r@ == group_output_chars(mode_label@, self.selected_group_ids@.len(), object_count as nat),
    {
        let mut s = String::from_str(mode_label);
        if self.selected_group_ids.len() == 0 {
            s.append(" — No groups");
        } else {
            let rest = two_counts(" — ", self.selected_group_ids.len(), " groups, ", object_count, " obj");
            s.append(rest.as_str());
        }
        s
    }
}

pub const BAR_DESCRIPTION: &'static str = "Renders a moving bar onto LED strips in the selected groups using the group's strip layout.";

/// A moving bar drawn onto the LED strips of the selected groups.
pub struct BarPatternWidget<C, S> {
    pub id: NodeId,
    pub shared: S,
    pub group_ctx: C,
    pub selected_group_ids: Vec<u32>,
}

impl<C, S> BarPatternWidget<C, S> {
    pub fn new(id: NodeId, shared: S, group_ctx: C) -> (r: Self)
        ensures
            r.id == id,
            r.shared == shared,
            r.group_ctx == group_ctx,
            r.selected_group_ids@.len() == 0,
    {
        BarPatternWidget { id, shared, group_ctx, selected_group_ids: Vec::new() }
    }

    pub fn node_id(&self) -> (r: NodeId)
        ensures
            r == self.id,
    {
        self.id
    }

    /// The node keeps its automatic size on the canvas.
    pub fn resizable(&self) -> (r: bool)
        ensures
            r == false,
    {
        false
    }

    pub fn type_label(&self) -> (r: &'static str)
        ensures
            r@ == "Bar"@,
    {
        "Bar"
    }

    pub fn title(&self) -> (r: &'static str)
        ensures
            r@ == "Bar"@,
    {
        "Bar"
    }

    pub fn description(&self) -> (r: &'static str)
        ensures
            r@ == BAR_DESCRIPTION@,
    {
        BAR_DESCRIPTION
    }

    pub fn ui_inputs(&self) -> (r: Vec<UiPortDef>)
        ensures
            port_views(r@) == seq![
                plain_port("position"@, PortType::Untyped),
                plain_port("width"@, PortType::Untyped),
                plain_port("color"@, PortType::Color),
            ],
    {
        ports3(
            UiPortDef::plain("position", PortType::Untyped),
            UiPortDef::plain("width", PortType::Untyped),
            UiPortDef::plain("color", PortType::Color),
        )
    }

    pub fn ui_outputs(&self) -> (r: Vec<UiPortDef>)
        ensures
            r@.len() == 0,
    {
        Vec::new()
    }

    pub fn shared_state(&self) -> (r: &S)
        ensures
            *r == self.shared,
    {
        &self.shared
    }

    pub fn toggle_group(&mut self, gid: u32, selected: bool)
        ensures
            final(self).shared == old(self).shared,
            final(self).selected_group_ids@ == toggled(old(self).selected_group_ids@, gid, selected),
            final(self).id == old(self).id,
    {
        toggle_selection(&mut self.selected_group_ids, gid, selected);
    }

    /// The node's status line; `strip_count` is what the processing side
    /// reports.
    pub fn status_text(&self, strip_count: usize) -> (r: String)
        ensures
            r@ == groups_strips_chars(self.selected_group_ids@.len(), strip_count as nat),
    {
        if self.selected_group_ids.len() == 0 {
            String::from_str("No groups")
        } else {
            let r = two_counts("", self.selected_group_ids.len(), " groups, ", strip_count, " strips");
            proof {
                reveal_strlit("");
                assert(r@ =~= decimal_chars(self.selected_group_ids@.len() as nat) + " groups, "@ + decimal_chars(strip_count as nat) + " strips"@);
            }
            r
        }
    }
}

/// How an effect layer combines with the layers below it.
#[derive(Clone, Copy, Debug, PartialEq, Eq, Structural)]
pub enum BlendMode {
    Override,
    Add,
    Max,
    Min,
    Multiply,
}

pub open spec fn blend_label_spec(b: BlendMode) -> Seq<char> {
    match b {
        BlendMode::Override => "Override"@,
        BlendMode::Add => "Add"@,
        BlendMode::Max => "Max"@,
        BlendMode::Min => "Min"@,
        BlendMode::Multiply => "Multiply"@,
    }
}

pub fn blend_label(b: BlendMode) -> (r: &'static str)
    ensures
        r@ == blend_label_spec(b),
{
    match b {
        BlendMode::Override => "Override",
        BlendMode::Add => "Add",
        BlendMode::Max => "Max",
        BlendMode::Min => "Min",
        BlendMode::Multiply => "Multiply",
    }
}

/// Sum of the first `n` port counts.
pub open spec fn ports_before(counts: Seq<usize>, n: int) -> int
    decreases n,
{
    if n <= 0 {
        0
    } else {
        ports_before(counts, n - 1) + counts[n - 1]
    }
}

/// The layer owning input `port`: the first whose block of ports reaches
/// past `port`, when the layers' inputs are laid out one block per layer.
pub open spec fn owning_layer(counts: Seq<usize>, port: int) -> Option<int> {
    if exists|l: int| 0 <= l < counts.len() && port < #[trigger] ports_before(counts, l + 1) {
        Some(choose|l: int| 0 <= l < counts.len() && port < #[trigger] ports_before(counts, l + 1) && forall|m: int|
            0 <= m < l ==> port >= #[trigger] ports_before(counts, m + 1))
    } else {
        None
    }
}

proof fn lemma_ports_before_monotone(counts: Seq<usize>, a: int, b: int)
    requires
        0 <= a <= b,
    ensures
        ports_before(counts, a) <= ports_before(counts, b),
    decreases b - a,
{
    if a < b {
        lemma_ports_before_monotone(counts, a, b - 1);
    }
}

/// Index of the layer whose inputs include input `port_idx`; `port_counts`
/// holds each layer's number of inputs, in layer order.
pub fn layer_for_input(port_counts: &Vec<usize>, port_idx: usize) -> (r: Option<usize>)
    ensures
        match r {
            Some(l) => owning_layer(port_counts@, port_idx as int) == Some(l as int),
            None => owning_layer(port_counts@, port_idx as int).is_none(),
        },
{
    let mut acc: usize = 0;
    let mut li: usize = 0;
    while li < port_counts.len()
        invariant
            li <= port_counts.len(),
            acc == ports_before(port_counts@, li as int),
            acc <= port_idx,
            forall|m: int| 0 <= m < li ==> port_idx >= #[trigger] ports_before(port_counts@, m + 1),
        decreases port_counts.len() - li,
    {
        let n = port_counts[li];
        if port_idx - acc < n {
            proof {
                let l = li as int;
                assert(port_idx < ports_before(port_counts@, l + 1));
                let c = choose|c: int| 0 <= c < port_counts@.len() && port_idx < #[trigger] ports_before(
                    port_counts@,
                    c + 1,
                ) && forall|m: int| 0 <= m < c ==> port_idx >= #[trigger] ports_before(port_counts@, m + 1);
                if c < l {
                    assert(port_idx >= ports_before(port_counts@, c + 1));
                }
                if c > l {
                    assert(port_idx >= ports_before(port_counts@, l + 1));
                }
            }
            return Some(li);
        }
        acc = acc + n;
        li += 1;
    }
    proof {
        if exists|l: int| 0 <= l < port_counts@.len() && port_idx < #[trigger] ports_before(port_counts@, l + 1) {
            let l = choose|l: int| 0 <= l < port_counts@.len() && port_idx < #[trigger] ports_before(port_counts@, l + 1);
            assert(port_idx >= ports_before(port_counts@, l + 1));
        }
    }
    None
}

/// Input names of an effect stack: each layer's inputs, prefixed with
/// "L{layer}." (1-based), layer after layer.
pub open spec fn layer_port_views(layers: Seq<Vec<PortDef>>) -> Seq<PortView> {
    grouped_port_views("L"@, 1, layers)
}

pub fn layer_ports(layers: &Vec<Vec<PortDef>>) -> (r: Vec<UiPortDef>)
    requires
        layers@.len() < usize::MAX,
    ensures
        port_views(r@) == layer_port_views(layers@),
{
    let defs = grouped_defs("L", 1, layers);
    ui_ports_from_defs(&defs)
}

pub const EFFECT_STACK_DESCRIPTION: &'static str = "Composes multiple LED-strip effects with blend modes onto the selected group(s).";

/// Effects layered onto the LED strips of the selected groups. `L` is a
/// layer's configuration, `C` the shared group context.
pub struct EffectStackWidget<L, C, S> {
    pub id: NodeId,
    pub shared: S,
    pub group_ctx: C,
    pub selected_group_ids: Vec<u32>,
    /// Bottom layer first.
    pub layers: Vec<L>,
}

impl<L, C, S> EffectStackWidget<L, C, S> {
    pub fn new(id: NodeId, shared: S, group_ctx: C) -> (r: Self)
        ensures
            r.id == id,
            r.shared == shared,
            r.group_ctx == group_ctx,
            r.selected_group_ids@.len() == 0,
            r.layers@.len() == 0,
    {
        EffectStackWidget { id, shared, group_ctx, selected_group_ids: Vec::new(), layers: Vec::new() }
    }

    pub fn node_id(&self) -> (r: NodeId)
        ensures
            r == self.id,
    {
        self.id
    }

    /// The node keeps its automatic size on the canvas.
    pub fn resizable(&self) -> (r: bool)
        ensures
            r == false,
    {
        false
    }

    pub fn type_label(&self) -> (r: &'static str)
        ensures
            r@ == "Effect Stack"@,
    {
        "Effect Stack"
    }

    pub fn title(&self) -> (r: &'static str)
        ensures
            r@ == "Effect Stack"@,
    {
        "Effect Stack"
    }

    pub fn description(&self) -> (r: &'static str)
        ensures
            r@ == EFFECT_STACK_DESCRIPTION@,
    {
        EFFECT_STACK_DESCRIPTION
    }

    pub fn ui_outputs(&self) -> (r: Vec<UiPortDef>)
        ensures
            r@.len() == 0,
    {
        Vec::new()
    }

    pub fn shared_state(&self) -> (r: &S)
        ensures
            *r == self.shared,
    {
        &self.shared
    }

    pub fn toggle_group(&mut self, gid: u32, selected: bool)
        ensures
            final(self).shared == old(self).shared,
            final(self).selected_group_ids@ == toggled(old(self).selected_group_ids@, gid, selected),
            final(self).layers@ == old(self).layers@,
    {
        toggle_selection(&mut self.selected_group_ids, gid, selected);
    }

    /// The node's status line; `strip_count` is what the processing side
    /// reports.
    pub fn status_text(&self, strip_count: usize) -> (r: String)
        ensures
            r@ == layers_strips_chars(self.selected_group_ids@.len(), self.layers@.len(), strip_count as nat),
    {
        if self.selected_group_ids.len() == 0 {
            String::from_str("No groups")
        } else {
            let r = two_counts("", self.layers.len(), " layers, ", strip_count, " strips");
            proof {
                reveal_strlit("");
                assert(r@ =~= decimal_chars(self.layers@.len() as nat) + " layers, "@ + decimal_chars(strip_count as nat) + " strips"@);
            }
            r
        }
    }

    /// "+ Add Layer": the new layer goes on top.
    pub fn add_layer(&mut self, layer: L)
        ensures
            final(self).shared == old(self).shared,
            final(self).layers@ == old(self).layers@.push(layer),
            final(self).selected_group_ids@ == old(self).selected_group_ids@,
    {
        self.layers.push(layer);
    }

    pub fn remove_layer(&mut self, i: usize)
        requires
            i < old(self).layers@.len(),
        ensures
            final(self).shared == old(self).shared,
            final(self).layers@ == old(self).layers@.remove(i as int),
            final(self).selected_group_ids@ == old(self).selected_group_ids@,
    {
        self.layers.remove(i);
    }

    /// Moves layer `i` one step up (towards the top); the top layer stays.
    pub fn move_layer_up(&mut self, i: usize)
        ensures
            final(self).shared == old(self).shared,
            (i > 0 && i < old(self).layers@.len()) ==> final(self).layers@ == old(self).layers@.update(
                i as int,
                old(self).layers@[i - 1],
            ).update(i - 1, old(self).layers@[i as int]),
            !(i > 0 && i < old(self).layers@.len()) ==> final(self).layers@ == old(self).layers@,
            final(self).selected_group_ids@ == old(self).selected_group_ids@,
    {
        if i > 0 && i < self.layers.len() {
            let ghost before = self.layers@;
            let x = self.layers.remove(i);
            self.layers.insert(i - 1, x);
            proof {
                assert(self.layers@ =~= before.update(i as int, before[i - 1]).update(i - 1, before[i as int]));
            }
        }
    }

    /// Moves layer `i` one step down; the bottom layer stays.
    pub fn move_layer_down(&mut self, i: usize)
        ensures
            final(self).shared == old(self).shared,
            (i + 1 < old(self).layers@.len()) ==> final(self).layers@ == old(self).layers@.update(
                i as int,
                old(self).layers@[i + 1],
            ).update(i + 1, old(self).layers@[i as int]),
            !(i + 1 < old(self).layers@.len()) ==> final(self).layers@ == old(self).layers@,
            final(self).selected_group_ids@ == old(self).selected_group_ids@,
    {
        if i < self.layers.len() && i + 1 < self.layers.len() {
            let ghost before = self.layers@;
            let x = self.layers.remove(i + 1);
            self.layers.insert(i, x);
            proof {
                assert(self.layers@ =~= before.update(i as int, before[i + 1]).update(i + 1, before[i as int]));
            }
        }
    }
}

} // verus!
