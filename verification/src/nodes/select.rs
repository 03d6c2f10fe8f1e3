//! Palette selection from an ordered list of palette groups, and the
//! shared gradient preset library.
use vstd::prelude::*;
use crate::ports::{NodeId, PortType, UiPortDef, plain_port, port_views};
use crate::nodes::{ports1, ports2};
use crate::text::{decimal_chars, decimal};

verus! {

/// No id occurs twice.
pub open spec fn no_duplicates(ids: Seq<u32>) -> bool {
    forall|i: int, j: int| 0 <= i < j < ids.len() ==> ids[i] != ids[j]
}

/// The palettes and palette groups a Palette Select node chooses from.
/// `P` and `G` are the application's palette and group records.
pub struct PaletteContext<P, G> {
    pub palettes: Vec<P>,
    pub groups: Vec<G>,
}

impl<P, G> PaletteContext<P, G> {
    pub fn new() -> (r: Self)
        ensures
            r.palettes@.len() == 0,
            r.groups@.len() == 0,
    {
        PaletteContext { palettes: Vec::new(), groups: Vec::new() }
    }
}

/// Groups (id and name) that are not selected yet, in their order.
pub open spec fn unselected(all: Seq<(u32, String)>, selected: Seq<u32>) -> Seq<(u32, String)> {
    all.filter(|e: (u32, String)| !selected.contains(e.0))
}

pub fn available_groups(all: &Vec<(u32, String)>, selected: &Vec<u32>) -> (r: Vec<(u32, String)>)
    ensures
        r@.len() <= all@.len(),
        forall|k: int| 0 <= k < r@.len() ==> !selected@.contains((#[trigger] r@[k]).0),
        forall|k: int| 0 <= k < all@.len() && !selected@.contains(all@[k].0) ==> exists|m: int|
            0 <= m < r@.len() && (#[trigger] r@[m]).0 == all@[k].0 && r@[m].1@ == all@[k].1@,
{
    let mut r: Vec<(u32, String)> = Vec::new();
    let mut i: usize = 0;
    while i < all.len()
        invariant
            i <= all.len(),
            r@.len() <= i,
            forall|k: int| 0 <= k < r@.len() ==> !selected@.contains((#[trigger] r@[k]).0),
            forall|k: int| 0 <= k < i && !selected@.contains(all@[k].0) ==> exists|m: int|
                0 <= m < r@.len() && (#[trigger] r@[m]).0 == all@[k].0 && r@[m].1@ == all@[k].1@,
        decreases all.len() - i,
    {
        let id = all[i].0;
        let mut found = false;
        let mut j: usize = 0;
        while j < selected.len()
            invariant
                j <= selected.len(),
                found <==> selected@.take(j as int).contains(id),
            decreases selected.len() - j,
        {
            let y = selected[j];
            proof {
                let t = selected@.take(j as int);
                let t1 = selected@.take(j + 1);
                assert(t1 =~= t.push(y));
                if t.contains(id) {
                    let k = choose|k: int| 0 <= k < t.len() && t[k] == id;
                    assert(t1[k] == id);
                }
                if y == id {
                    assert(t1[j as int] == id);
                }
                if t1.contains(id) && y != id {
                    let k = choose|k: int| 0 <= k < t1.len() && t1[k] == id;
                    assert(t[k] == id);
                }
            }
            if y == id {
                found = true;
            }
            j += 1;
        }
        proof {
            assert(selected@.take(selected.len() as int) =~= selected@);
        }
        if !found {
            let e = (id, all[i].1.clone());
            let ghost prev = r@;
            r.push(e);
            proof {
                assert forall|k: int| 0 <= k < i + 1 && !selected@.contains(all@[k].0) implies exists|m: int|
                    0 <= m < r@.len() && (#[trigger] r@[m]).0 == all@[k].0 && r@[m].1@ == all@[k].1@ by {
                    if k < i {
                        let m = choose|m: int| 0 <= m < prev.len() && (#[trigger] prev[m]).0 == all@[k].0
                            && prev[m].1@ == all@[k].1@;
                        assert(r@[m] == prev[m]);
                    } else {
                        assert(r@[prev.len() as int] == e);
                    }
                }
            }
        }
        i += 1;
    }
    r
}

/// What a Palette Select node reads of a palette group: its id, name and
/// the ids of its palettes in order.
pub struct PaletteGroupSummary {
    pub id: u32,
    pub name: String,
    pub palette_ids: Vec<u32>,
}

/// Position of the first `x` in `ids`.
pub open spec fn first_pos(ids: Seq<u32>, x: u32) -> Option<int>
    decreases ids.len(),
{
    if ids.len() == 0 {
        None
    } else if ids.last() == x && first_pos(ids.drop_last(), x).is_none() {
        Some(ids.len() - 1)
    } else {
        first_pos(ids.drop_last(), x)
    }
}

/// Positions in `ids` of the wanted ids that exist there, in wanted order.
pub open spec fn found_positions(wanted: Seq<u32>, ids: Seq<u32>) -> Seq<usize>
    decreases wanted.len(),
{
    if wanted.len() == 0 {
        Seq::empty()
    } else {
        let prev = found_positions(wanted.drop_last(), ids);
        match first_pos(ids, wanted.last()) {
            Some(k) => prev.push(k as usize),
            None => prev,
        }
    }
}

/// For each selected group that exists (first match by id), in selection
/// order: the group's position and the positions of its palettes that
/// exist.
pub open spec fn palette_picks(groups: Seq<PaletteGroupSummary>, sel: Seq<u32>, palette_ids: Seq<u32>) -> Seq<
    (usize, Seq<usize>),
>
    decreases sel.len(),
{
    if sel.len() == 0 {
        Seq::empty()
    } else {
        let prev = palette_picks(groups, sel.drop_last(), palette_ids);
        match first_pos(groups.map_values(|g: PaletteGroupSummary| g.id), sel.last()) {
            Some(k) => prev.push((k as usize, found_positions(groups[k].palette_ids@, palette_ids))),
            None => prev,
        }
    }
}

proof fn lemma_first_pos(ids: Seq<u32>, x: u32)
    ensures
        match first_pos(ids, x) {
            Some(k) => 0 <= k < ids.len() && ids[k] == x && forall|j: int| 0 <= j < k ==> #[trigger] ids[j] != x,
            None => forall|j: int| 0 <= j < ids.len() ==> #[trigger] ids[j] != x,
        },
    decreases ids.len(),
{
    if ids.len() > 0 {
        lemma_first_pos(ids.drop_last(), x);
        match first_pos(ids.drop_last(), x) {
            Some(k) => {
                assert forall|j: int| 0 <= j < k implies #[trigger] ids[j] != x by {
                    assert(ids[j] == ids.drop_last()[j]);
                }
            },
            None => {
                assert forall|j: int| 0 <= j < ids.len() - 1 implies #[trigger] ids[j] != x by {
                    assert(ids[j] == ids.drop_last()[j]);
                }
            },
        }
    }
}

proof fn lemma_first_pos_unique(ids: Seq<u32>, x: u32, i: int)
    requires
        0 <= i < ids.len(),
        ids[i] == x,
        forall|j: int| 0 <= j < i ==> #[trigger] ids[j] != x,
    ensures
        first_pos(ids, x) == Some(i),
    decreases ids.len(),
{
    let d = ids.drop_last();
    if i < ids.len() - 1 {
        assert(d[i] == ids[i]);
        assert forall|j: int| 0 <= j < i implies #[trigger] d[j] != x by {
            assert(d[j] == ids[j]);
        }
        lemma_first_pos_unique(d, x, i);
    } else {
        lemma_first_pos(d, x);
        assert forall|j: int| 0 <= j < d.len() implies #[trigger] d[j] != x by {
            assert(d[j] == ids[j]);
        }
    }
}

fn find_u32(ids: &Vec<u32>, x: u32) -> (r: Option<usize>)
    ensures
        match r {
            Some(k) => first_pos(ids@, x) == Some(k as int) && k < ids@.len(),
            None => first_pos(ids@, x).is_none(),
        },
{
    proof {
        lemma_first_pos(ids@, x);
    }
    let mut i: usize = 0;
    while i < ids.len()
        invariant
            i <= ids.len(),
            forall|j: int| 0 <= j < i ==> #[trigger] ids@[j] != x,
        decreases ids.len() - i,
    {
        if ids[i] == x {
            proof {
                lemma_first_pos_unique(ids@, x, i as int);
            }
            return Some(i);
        }
        i += 1;
    }
    proof {
        match first_pos(ids@, x) {
            Some(k) => {
                assert(ids@[k] == x);
            },
            None => {},
        }
    }
    None
}

fn positions_of(wanted: &Vec<u32>, ids: &Vec<u32>) -> (r: Vec<usize>)
    ensures
        r@ == found_positions(wanted@, ids@),
{
    let mut out: Vec<usize> = Vec::new();
    let mut i: usize = 0;
    while i < wanted.len()
        invariant
            i <= wanted.len(),
            out@ == found_positions(wanted@.take(i as int), ids@),
        decreases wanted.len() - i,
    {
        proof {
            assert(wanted@.take(i + 1).drop_last() =~= wanted@.take(i as int));
        }
        match find_u32(ids, wanted[i]) {
            Some(k) => out.push(k),
            None => {},
        }
        i += 1;
    }
    proof {
        assert(wanted@.take(wanted.len() as int) =~= wanted@);
    }
    out
}

/// The groups a Palette Select node pushes, as positions: for each
/// selected group that exists, the group and the palettes of it that
/// exist among `palette_ids`.
pub fn resolve_palette_groups(groups: &Vec<PaletteGroupSummary>, selected: &Vec<u32>, palette_ids: &Vec<u32>) -> (r: Vec<
    (usize, Vec<usize>),
>)
    ensures
        r@.map_values(|e: (usize, Vec<usize>)| (e.0, e.1@)) == palette_picks(groups@, selected@, palette_ids@),
{
    let mut gids: Vec<u32> = Vec::new();
    let mut j: usize = 0;
    while j < groups.len()
        invariant
            j <= groups.len(),
            gids@ == groups@.take(j as int).map_values(|g: PaletteGroupSummary| g.id),
        decreases groups.len() - j,
    {
        gids.push(groups[j].id);
        proof {
            assert(groups@.take(j + 1) =~= groups@.take(j as int).push(groups@[j as int]));
            assert(gids@ =~= groups@.take(j + 1).map_values(|g: PaletteGroupSummary| g.id));
        }
        j += 1;
    }
    proof {
        assert(groups@.take(groups.len() as int) =~= groups@);
    }
    let mut out: Vec<(usize, Vec<usize>)> = Vec::new();
    let mut i: usize = 0;
    while i < selected.len()
        invariant
            i <= selected.len(),
            gids@ == groups@.map_values(|g: PaletteGroupSummary| g.id),
            out@.map_values(|e: (usize, Vec<usize>)| (e.0, e.1@)) == palette_picks(
                groups@,
                selected@.take(i as int),
                palette_ids@,
            ),
        decreases selected.len() - i,
    {
        proof {
            assert(selected@.take(i + 1).drop_last() =~= selected@.take(i as int));
        }
        match find_u32(&gids, selected[i]) {
            Some(k) => {
                let pos = positions_of(&groups[k].palette_ids, palette_ids);
                let ghost prev = out@;
                out.push((k, pos));
                proof {
                    assert(out@.map_values(|e: (usize, Vec<usize>)| (e.0, e.1@)) =~= prev.map_values(
                        |e: (usize, Vec<usize>)| (e.0, e.1@),
                    ).push((k, pos@)));
                }
            },
            None => {},
        }
        i += 1;
    }
    proof {
        assert(selected@.take(selected.len() as int) =~= selected@);
    }
    out
}

/// The status line of a Palette Select node: "No groups" without groups,
/// else the 1-based group and palette positions with their counts, as
/// "G:{group}/{groups} P:{palette}/{palettes}".
pub open spec fn palette_status_chars(group_idx: nat, group_count: nat, palette_idx: nat, palette_count: nat) -> Seq<char> {
    if group_count == 0 {
        "No groups"@
    } else {
        "G:"@ + decimal_chars(group_idx + 1) + "/"@ + decimal_chars(group_count) + " P:"@ + decimal_chars(
            palette_idx + 1,
        ) + "/"@ + decimal_chars(palette_count)
    }
}

pub fn palette_status(group_idx: usize, group_count: usize, palette_idx: usize, palette_count: usize) -> (r: String)
    requires
        group_idx < usize::MAX,
        palette_idx < usize::MAX,
    ensures
        r@ == palette_status_chars(group_idx as nat, group_count as nat, palette_idx as nat, palette_count as nat),
{
    if group_count == 0 {
        return String::from_str("No groups");
    }
    let mut s = String::from_str("G:");
    s.append(decimal(group_idx + 1).as_str());
    s.append("/");
    s.append(decimal(group_count).as_str());
    s.append(" P:");
    s.append(decimal(palette_idx + 1).as_str());
    s.append("/");
    s.append(decimal(palette_count).as_str());
    s
}

pub const PALETTE_SELECT_DESCRIPTION: &'static str = "Picks a palette (a set of 4 colors) from a palette group, indexed by group and palette index.";

/// Picks a palette from an ordered list of palette groups. `C` is the
/// shared palette context.
pub struct PaletteSelectWidget<C, S> {
    pub id: NodeId,
    pub shared: S,
    pub palette_ctx: C,
    /// Ordered ids of the groups this node uses.
    pub selected_group_ids: Vec<u32>,
}

impl<C, S> PaletteSelectWidget<C, S> {
    pub fn new(id: NodeId, shared: S, palette_ctx: C) -> (r: Self)
        ensures
            r.id == id,
            r.shared == shared,
            r.palette_ctx == palette_ctx,
            r.selected_group_ids@.len() == 0,
    {
        PaletteSelectWidget { id, shared, palette_ctx, selected_group_ids: Vec::new() }
    }

    pub fn node_id(&self) -> (r: NodeId)
        ensures
            r == self.id,
    {
        self.id
    }

    /// The node can be resized on the canvas.
    pub fn resizable(&self) -> (r: bool)
        ensures
            r == true,
    {
        true
    }

    pub fn type_label(&self) -> (r: &'static str)
        ensures
            r@ == "Palette Select"@,
    {
        "Palette Select"
    }

    pub fn title(&self) -> (r: &'static str)
        ensures
            r@ == "Palette Select"@,
    {
        "Palette Select"
    }

    pub fn description(&self) -> (r: &'static str)
        ensures
            r@ == PALETTE_SELECT_DESCRIPTION@,
    {
        PALETTE_SELECT_DESCRIPTION
    }

    pub fn ui_inputs(&self) -> (r: Vec<UiPortDef>)
        ensures
            port_views(r@) == seq![
                plain_port("group"@, PortType::Untyped),
                plain_port("palette"@, PortType::Untyped),
            ],
    {
        ports2(UiPortDef::plain("group", PortType::Untyped), UiPortDef::plain("palette", PortType::Untyped))
    }

    pub fn ui_outputs(&self) -> (r: Vec<UiPortDef>)
        ensures
            port_views(r@) == seq![plain_port("palette"@, PortType::Palette)],
    {
        ports1(UiPortDef::plain("palette", PortType::Palette))
    }

    pub fn shared_state(&self) -> (r: &S)
        ensures
            *r == self.shared,
    {
        &self.shared
    }

    /// After a load, an empty selection takes over the ids the processing
    /// side reports; a non-empty one is kept.
    pub fn restore_selection(&mut self, ids: &Vec<u32>)
        ensures
            final(self).shared == old(self).shared,
            (old(self).selected_group_ids@.len() == 0 && ids@.len() > 0)
                ==> final(self).selected_group_ids@ == ids@,
            !(old(self).selected_group_ids@.len() == 0 && ids@.len() > 0)
                ==> final(self).selected_group_ids@ == old(self).selected_group_ids@,
            final(self).id == old(self).id,
    {
        if self.selected_group_ids.len() == 0 && ids.len() > 0 {
            self.selected_group_ids = ids.clone();
        }
    }

    /// Appends a group picked from the unselected ones.
    pub fn add_group(&mut self, gid: u32)
        ensures
            final(self).shared == old(self).shared,
            final(self).selected_group_ids@ == old(self).selected_group_ids@.push(gid),
            final(self).id == old(self).id,
    {
        self.selected_group_ids.push(gid);
    }

    /// Removes the group at position `i`.
    pub fn remove_group(&mut self, i: usize)
        requires
            i < old(self).selected_group_ids@.len(),
        ensures
            final(self).shared == old(self).shared,
            final(self).selected_group_ids@ == old(self).selected_group_ids@.remove(i as int),
            final(self).id == old(self).id,
    {
        self.selected_group_ids.remove(i);
    }

    /// Exchanges the groups at positions `a` and `b` (the up/down buttons).
    pub fn swap_groups(&mut self, a: usize, b: usize)
        requires
            a < old(self).selected_group_ids@.len(),
            b < old(self).selected_group_ids@.len(),
        ensures
            final(self).shared == old(self).shared,
            final(self).selected_group_ids@ == old(self).selected_group_ids@.update(
                a as int,
                old(self).selected_group_ids@[b as int],
            ).update(b as int, old(self).selected_group_ids@[a as int]),
            final(self).id == old(self).id,
    {
        let x = self.selected_group_ids[a];
        let y = self.selected_group_ids[b];
        self.selected_group_ids.set(a, y);
        self.selected_group_ids.set(b, x);
    }
}

/// Editing the ordered selection never lists a group twice: adding only
/// an unselected group, removing, and swapping all keep it duplicate-free.
pub proof fn lemma_selection_stays_unique(ids: Seq<u32>, gid: u32, i: int, a: int, b: int)
    requires
        no_duplicates(ids),
        0 <= i < ids.len(),
        0 <= a < ids.len(),
        0 <= b < ids.len(),
    ensures
        !ids.contains(gid) ==> no_duplicates(ids.push(gid)),
        no_duplicates(ids.remove(i)),
        no_duplicates(ids.update(a, ids[b]).update(b, ids[a])),
{
    if !ids.contains(gid) {
        let p = ids.push(gid);
        assert forall|x: int, y: int| 0 <= x < y < p.len() implies p[x] != p[y] by {
            if y == ids.len() {
                assert(ids[x] == p[x]);
            }
        }
    }
    let r = ids.remove(i);
    assert forall|x: int, y: int| 0 <= x < y < r.len() implies r[x] != r[y] by {
        let xi = if x < i { x } else { x + 1 };
        let yi = if y < i { y } else { y + 1 };
        assert(r[x] == ids[xi]);
        assert(r[y] == ids[yi]);
    }
    let s = ids.update(a, ids[b]).update(b, ids[a]);
    assert forall|x: int, y: int| 0 <= x < y < s.len() implies s[x] != s[y] by {
        let xi = if x == a { b } else if x == b { a } else { x };
        let yi = if y == a { b } else if y == b { a } else { y };
        assert(s[x] == ids[xi]);
        assert(s[y] == ids[yi]);
    }
}

/// A request to store the current stops as a new preset. `T` is the
/// application's gradient stop.
pub struct PendingPresetSave<T> {
    pub name: String,
    pub stops: Vec<T>,
}

impl<T> PendingPresetSave<T> {
    pub fn new(name: String, stops: Vec<T>) -> (r: Self)
        ensures
            r.name@ == name@,
            r.stops@ == stops@,
    {
        PendingPresetSave { name, stops }
    }
}

/// Mirror of the gradient preset library, plus the queue of save requests
/// from Gradient Source nodes. `P` is the preset record, `T` the stop.
pub struct GradientLibraryContext<P, T> {
    pub presets: Vec<P>,
    pub pending_saves: Vec<PendingPresetSave<T>>,
}

impl<P, T> GradientLibraryContext<P, T> {
    pub fn new() -> (r: Self)
        ensures
            r.presets@.len() == 0,
            r.pending_saves@.len() == 0,
    {
        GradientLibraryContext { presets: Vec::new(), pending_saves: Vec::new() }
    }

    /// Queues a save request; requests are handled in the order queued.
    pub fn request_save(&mut self, save: PendingPresetSave<T>)
        ensures
            final(self).pending_saves@ == old(self).pending_saves@.push(save),
            final(self).presets@ == old(self).presets@,
    {
        self.pending_saves.push(save);
    }

    /// Takes all queued requests, oldest first, leaving the queue empty.
    pub fn drain_saves(&mut self) -> (r: Vec<PendingPresetSave<T>>)
        ensures
            r@ == old(self).pending_saves@,
            final(self).pending_saves@.len() == 0,
            final(self).presets@ == old(self).presets@,
    {
        let mut out: Vec<PendingPresetSave<T>> = Vec::new();
        std::mem::swap(&mut out, &mut self.pending_saves);
        out
    }
}

} // verus!
