//! The managers behind the library windows (colour groups, palettes,
//! stacks, fixtures, gradient presets, groups, interfaces). Each keeps its
//! records and the id the next new record gets, which is always above
//! every id already in use.
use vstd::prelude::*;
use crate::text::{decimal_chars, decimal, with_number};

verus! {

/// Records that carry a numeric id.
pub trait Identified {
    spec fn id_spec(&self) -> u32;

    fn record_id(&self) -> (r: u32)
        ensures
            r == self.id_spec(),
    ;
}

/// A record of the application (a colour group, a palette, a fixture, ...)
/// together with its id, as the managers keep it.
pub struct Keyed<T> {
    pub id: u32,
    pub record: T,
}

impl<T> Keyed<T> {
    pub fn new(id: u32, record: T) -> (r: Self)
        ensures
            r.id == id,
            r.record == record,
    {
        Keyed { id, record }
    }
}

impl<T> Identified for Keyed<T> {
    open spec fn id_spec(&self) -> u32 {
        self.id
    }

    fn record_id(&self) -> (r: u32) {
        self.id
    }
}

/// The largest id among `items`, or 0 when there are none.
pub open spec fn max_id<T: Identified>(items: Seq<T>) -> nat
    decreases items.len(),
{
    if items.len() == 0 {
        0
    } else {
        let m = max_id(items.drop_last());
        let last = items.last().id_spec() as nat;
        if last > m { last } else { m }
    }
}

/// Every id is at most the maximum.
pub proof fn lemma_max_id_bounds<T: Identified>(items: Seq<T>)
    ensures
        forall|i: int| 0 <= i < items.len() ==> #[trigger] items[i].id_spec() <= max_id(items),
        max_id(items) <= u32::MAX,
    decreases items.len(),
{
    if items.len() > 0 {
        lemma_max_id_bounds(items.drop_last());
        assert forall|i: int| 0 <= i < items.len() implies #[trigger] items[i].id_spec() <= max_id(
            items,
        ) by {
            if i < items.len() - 1 {
                assert(items[i] == items.drop_last()[i]);
            }
        }
    }
}

/// One past the largest id among `items` (1 when empty).
pub fn next_free_id<T: Identified>(items: &Vec<T>) -> (r: u32)
    requires
        max_id(items@) < u32::MAX,
    ensures
        r == max_id(items@) + 1,
{
    let mut m: u32 = 0;
    let mut i: usize = 0;
    while i < items.len()
        invariant
            i <= items.len(),
            m == max_id(items@.take(i as int)),
            max_id(items@) < u32::MAX,
        decreases items.len() - i,
    {
        let id = items[i].record_id();
        proof {
            assert(items@.take(i + 1).drop_last() =~= items@.take(i as int));
        }
        if id > m {
            m = id;
        }
        i += 1;
    }
    proof {
        assert(items@.take(items.len() as int) =~= items@);
    }
    m + 1
}

/// A manager's id allocator is fresh: every id it holds is below it.
pub open spec fn fresh_above<T: Identified>(items: Seq<T>, next_id: u32) -> bool {
    forall|i: int| 0 <= i < items.len() ==> #[trigger] items[i].id_spec() < next_id
}

/// Right after loading, the next id is above every loaded id.
pub proof fn lemma_loaded_ids_fresh<T: Identified>(items: Seq<T>)
    requires
        max_id(items) < u32::MAX,
    ensures
        fresh_above(items, (max_id(items) + 1) as u32),
{
    lemma_max_id_bounds(items);
}

/// `items` without the records whose id is `id`, in order.
pub open spec fn without_id<T: Identified>(items: Seq<T>, id: u32) -> Seq<T> {
    items.filter(id_differs(id))
}

pub open spec fn id_differs<T: Identified>(id: u32) -> spec_fn(T) -> bool {
    |t: T| t.id_spec() != id
}

/// Removes every record with id `id`, keeping the others in order.
pub fn remove_with_id<T: Identified>(items: &mut Vec<T>, id: u32)
    ensures
        final(items)@ == without_id(old(items)@, id),
{
    let ghost start = items@;
    let mut rest: Vec<T> = Vec::new();
    std::mem::swap(&mut rest, items);
    let total = rest.len();
    let mut kept: Vec<T> = Vec::new();
    let mut n: usize = 0;
    proof {
        assert(start.skip(0) =~= start);
    }
    while rest.len() > 0
        invariant
            n + rest@.len() == start.len(),
            start.len() == total,
            rest@ == start.skip(n as int),
            kept@ == without_id(start.take(n as int), id),
        decreases rest@.len(),
    {
        let e = rest.remove(0);
        proof {
            assert(rest@ =~= start.skip(n + 1));
            assert(start.take(n + 1) =~= start.take(n as int).push(e));
            start.take(n as int).lemma_filter_push(e, id_differs(id));
        }
        if e.record_id() != id {
            kept.push(e);
        }
        n += 1;
    }
    proof {
        assert(start.take(n as int) =~= start);
    }
    *items = kept;
}

/// The default name of a new record: the kind's prefix and its id.
pub fn default_name(prefix: &str, id: u32) -> (r: String)
    ensures
        r@ == prefix@ + decimal_chars(id as nat),
{
    with_number(prefix, id as usize)
}

/// Reserving an id, adding a record with an id below the allocator, and
/// removing records all keep every held id below the allocator.
pub proof fn lemma_fresh_preserved<T: Identified>(items: Seq<T>, next_id: u32, t: T, id: u32)
    requires
        fresh_above(items, next_id),
        next_id < u32::MAX,
        t.id_spec() < next_id,
    ensures
        fresh_above(items, (next_id + 1) as u32),
        fresh_above(items.push(t), next_id),
        fresh_above(without_id(items, id), next_id),
{
    let p = items.push(t);
    assert forall|i: int| 0 <= i < p.len() implies #[trigger] p[i].id_spec() < next_id by {
        if i < items.len() {
            assert(p[i] == items[i]);
        }
    }
    let w = without_id(items, id);
    assert forall|i: int| 0 <= i < w.len() implies #[trigger] w[i].id_spec() < next_id by {
        assert(w.contains(w[i]));
        items.lemma_filter_contains_rev(id_differs(id), w[i]);
        let k = choose|k: int| 0 <= k < items.len() && items[k] == w[i];
        assert(items[k].id_spec() < next_id);
    }
}

/// Colour groups window. `G` is the application's colour group record.
pub struct ColorGroupManager<G> {
    pub groups: Vec<G>,
    pub next_id: u32,
}

impl<G: Identified> ColorGroupManager<G> {
    pub fn new() -> (r: Self)
        ensures
            r.groups@.len() == 0,
            r.next_id == 1,
    {
        ColorGroupManager { groups: Vec::new(), next_id: 1 }
    }

    pub fn from_groups(groups: Vec<G>) -> (r: Self)
        requires
            max_id(groups@) < u32::MAX,
        ensures
            r.groups@ == groups@,
            r.next_id == max_id(groups@) + 1,
            fresh_above(r.groups@, r.next_id),
    {
        let next_id = next_free_id(&groups);
        proof {
            lemma_loaded_ids_fresh(groups@);
        }
        ColorGroupManager { groups, next_id }
    }

    /// Reserves the id of a new record and its default name.
    pub fn reserve(&mut self) -> (r: (u32, String))
        requires
            old(self).next_id < u32::MAX,
        ensures
            r.0 == old(self).next_id,
            r.1@ == "Color Group "@ + decimal_chars(r.0 as nat),
            final(self).next_id == old(self).next_id + 1,
            final(self).groups@ == old(self).groups@,
    {
        let id = self.next_id;
        self.next_id = id + 1;
        (id, default_name("Color Group ", id))
    }

    /// Adds a record made with a reserved id.
    pub fn insert(&mut self, item: G)
        requires
            item.id_spec() < old(self).next_id,
        ensures
            final(self).groups@ == old(self).groups@.push(item),
            final(self).next_id == old(self).next_id,
    {
        self.groups.push(item);
    }

    /// Deletes the record(s) with id `id`.
    pub fn remove(&mut self, id: u32)
        ensures
            final(self).groups@ == without_id(old(self).groups@, id),
            final(self).next_id == old(self).next_id,
    {
        remove_with_id(&mut self.groups, id);
    }
}

/// Palette groups window.
pub struct ColorPaletteGroupManager<G> {
    pub groups: Vec<G>,
    pub next_id: u32,
}

impl<G: Identified> ColorPaletteGroupManager<G> {
    pub fn new() -> (r: Self)
        ensures
            r.groups@.len() == 0,
            r.next_id == 1,
    {
        ColorPaletteGroupManager { groups: Vec::new(), next_id: 1 }
    }

    pub fn from_groups(groups: Vec<G>) -> (r: Self)
        requires
            max_id(groups@) < u32::MAX,
        ensures
            r.groups@ == groups@,
            r.next_id == max_id(groups@) + 1,
            fresh_above(r.groups@, r.next_id),
    {
        let next_id = next_free_id(&groups);
        proof {
            lemma_loaded_ids_fresh(groups@);
        }
        ColorPaletteGroupManager { groups, next_id }
    }

    /// Reserves the id of a new record and its default name.
    pub fn reserve(&mut self) -> (r: (u32, String))
        requires
            old(self).next_id < u32::MAX,
        ensures
            r.0 == old(self).next_id,
            r.1@ == "Palette Group "@ + decimal_chars(r.0 as nat),
            final(self).next_id == old(self).next_id + 1,
            final(self).groups@ == old(self).groups@,
    {
        let id = self.next_id;
        self.next_id = id + 1;
        (id, default_name("Palette Group ", id))
    }

    /// Adds a record made with a reserved id.
    pub fn insert(&mut self, item: G)
        requires
            item.id_spec() < old(self).next_id,
        ensures
            final(self).groups@ == old(self).groups@.push(item),
            final(self).next_id == old(self).next_id,
    {
        self.groups.push(item);
    }

    /// Deletes the record(s) with id `id`.
    pub fn remove(&mut self, id: u32)
        ensures
            final(self).groups@ == without_id(old(self).groups@, id),
            final(self).next_id == old(self).next_id,
    {
        remove_with_id(&mut self.groups, id);
    }
}

/// Palettes window.
pub struct ColorPaletteManager<P> {
    pub palettes: Vec<P>,
    pub next_id: u32,
}

impl<P: Identified> ColorPaletteManager<P> {
    pub fn new() -> (r: Self)
        ensures
            r.palettes@.len() == 0,
            r.next_id == 1,
    {
        ColorPaletteManager { palettes: Vec::new(), next_id: 1 }
    }

    pub fn from_palettes(palettes: Vec<P>) -> (r: Self)
        requires
            max_id(palettes@) < u32::MAX,
        ensures
            r.palettes@ == palettes@,
            r.next_id == max_id(palettes@) + 1,
            fresh_above(r.palettes@, r.next_id),
    {
        let next_id = next_free_id(&palettes);
        proof {
            lemma_loaded_ids_fresh(palettes@);
        }
        ColorPaletteManager { palettes, next_id }
    }

    /// Reserves the id of a new record and its default name.
    pub fn reserve(&mut self) -> (r: (u32, String))
        requires
            old(self).next_id < u32::MAX,
        ensures
            r.0 == old(self).next_id,
            r.1@ == "Palette "@ + decimal_chars(r.0 as nat),
            final(self).next_id == old(self).next_id + 1,
            final(self).palettes@ == old(self).palettes@,
    {
        let id = self.next_id;
        self.next_id = id + 1;
        (id, default_name("Palette ", id))
    }

    /// Adds a record made with a reserved id.
    pub fn insert(&mut self, item: P)
        requires
            item.id_spec() < old(self).next_id,
        ensures
            final(self).palettes@ == old(self).palettes@.push(item),
            final(self).next_id == old(self).next_id,
    {
        self.palettes.push(item);
    }

    /// Deletes the record(s) with id `id`.
    pub fn remove(&mut self, id: u32)
        ensures
            final(self).palettes@ == without_id(old(self).palettes@, id),
            final(self).next_id == old(self).next_id,
    {
        remove_with_id(&mut self.palettes, id);
    }
}

/// Colour stacks window.
pub struct ColorStackManager<T> {
    pub stacks: Vec<T>,
    pub next_id: u32,
}

impl<T: Identified> ColorStackManager<T> {
    pub fn new() -> (r: Self)
        ensures
            r.stacks@.len() == 0,
            r.next_id == 1,
    {
        ColorStackManager { stacks: Vec::new(), next_id: 1 }
    }

    pub fn from_stacks(stacks: Vec<T>) -> (r: Self)
        requires
            max_id(stacks@) < u32::MAX,
        ensures
            r.stacks@ == stacks@,
            r.next_id == max_id(stacks@) + 1,
            fresh_above(r.stacks@, r.next_id),
    {
        let next_id = next_free_id(&stacks);
        proof {
            lemma_loaded_ids_fresh(stacks@);
        }
        ColorStackManager { stacks, next_id }
    }

    /// Reserves the id of a new record and its default name.
    pub fn reserve(&mut self) -> (r: (u32, String))
        requires
            old(self).next_id < u32::MAX,
        ensures
            r.0 == old(self).next_id,
            r.1@ == "Stack "@ + decimal_chars(r.0 as nat),
            final(self).next_id == old(self).next_id + 1,
            final(self).stacks@ == old(self).stacks@,
    {
        let id = self.next_id;
        self.next_id = id + 1;
        (id, default_name("Stack ", id))
    }

    /// Adds a record made with a reserved id.
    pub fn insert(&mut self, item: T)
        requires
            item.id_spec() < old(self).next_id,
        ensures
            final(self).stacks@ == old(self).stacks@.push(item),
            final(self).next_id == old(self).next_id,
    {
        self.stacks.push(item);
    }

    /// Deletes the record(s) with id `id`.
    pub fn remove(&mut self, id: u32)
        ensures
            final(self).stacks@ == without_id(old(self).stacks@, id),
            final(self).next_id == old(self).next_id,
    {
        remove_with_id(&mut self.stacks, id);
    }
}

/// Fixtures window.
pub struct FixtureManager<F> {
    pub fixtures: Vec<F>,
    pub next_id: u32,
}

impl<F: Identified> FixtureManager<F> {
    pub fn new() -> (r: Self)
        ensures
            r.fixtures@.len() == 0,
            r.next_id == 1,
    {
        FixtureManager { fixtures: Vec::new(), next_id: 1 }
    }

    pub fn from_fixtures(fixtures: Vec<F>) -> (r: Self)
        requires
            max_id(fixtures@) < u32::MAX,
        ensures
            r.fixtures@ == fixtures@,
            r.next_id == max_id(fixtures@) + 1,
            fresh_above(r.fixtures@, r.next_id),
    {
        let next_id = next_free_id(&fixtures);
        proof {
            lemma_loaded_ids_fresh(fixtures@);
        }
        FixtureManager { fixtures, next_id }
    }

    /// Reserves the id of a new record and its default name.
    pub fn reserve(&mut self) -> (r: (u32, String))
        requires
            old(self).next_id < u32::MAX,
        ensures
            r.0 == old(self).next_id,
            r.1@ == "Fixture "@ + decimal_chars(r.0 as nat),
            final(self).next_id == old(self).next_id + 1,
            final(self).fixtures@ == old(self).fixtures@,
    {
        let id = self.next_id;
        self.next_id = id + 1;
        (id, default_name("Fixture ", id))
    }

    /// Adds a record made with a reserved id.
    pub fn insert(&mut self, item: F)
        requires
            item.id_spec() < old(self).next_id,
        ensures
            final(self).fixtures@ == old(self).fixtures@.push(item),
            final(self).next_id == old(self).next_id,
    {
        self.fixtures.push(item);
    }

    /// Deletes the record(s) with id `id`.
    pub fn remove(&mut self, id: u32)
        ensures
            final(self).fixtures@ == without_id(old(self).fixtures@, id),
            final(self).next_id == old(self).next_id,
    {
        remove_with_id(&mut self.fixtures, id);
    }
}

/// Gradient presets window.
pub struct GradientPresetManager<P> {
    pub presets: Vec<P>,
    pub next_id: u32,
}

impl<P: Identified> GradientPresetManager<P> {
    pub fn new() -> (r: Self)
        ensures
            r.presets@.len() == 0,
            r.next_id == 1,
    {
        GradientPresetManager { presets: Vec::new(), next_id: 1 }
    }

    pub fn from_presets(presets: Vec<P>) -> (r: Self)
        requires
            max_id(presets@) < u32::MAX,
        ensures
            r.presets@ == presets@,
            r.next_id == max_id(presets@) + 1,
            fresh_above(r.presets@, r.next_id),
    {
        let next_id = next_free_id(&presets);
        proof {
            lemma_loaded_ids_fresh(presets@);
        }
        GradientPresetManager { presets, next_id }
    }

    /// Reserves a fresh id for a preset added from outside the window.
    pub fn next_id(&mut self) -> (r: u32)
        requires
            old(self).next_id < u32::MAX,
        ensures
            r == old(self).next_id,
            final(self).next_id == old(self).next_id + 1,
            final(self).presets@ == old(self).presets@,
    {
        let id = self.next_id;
        self.next_id = self.next_id + 1;
        id
    }

    /// Reserves the id of a new record and its default name.
    pub fn reserve(&mut self) -> (r: (u32, String))
        requires
            old(self).next_id < u32::MAX,
        ensures
            r.0 == old(self).next_id,
            r.1@ == "Gradient "@ + decimal_chars(r.0 as nat),
            final(self).next_id == old(self).next_id + 1,
            final(self).presets@ == old(self).presets@,
    {
        let id = self.next_id;
        self.next_id = id + 1;
        (id, default_name("Gradient ", id))
    }

    /// Adds a record made with a reserved id.
    pub fn insert(&mut self, item: P)
        requires
            item.id_spec() < old(self).next_id,
        ensures
            final(self).presets@ == old(self).presets@.push(item),
            final(self).next_id == old(self).next_id,
    {
        self.presets.push(item);
    }

    /// Deletes the record(s) with id `id`.
    pub fn remove(&mut self, id: u32)
        ensures
            final(self).presets@ == without_id(old(self).presets@, id),
            final(self).next_id == old(self).next_id,
    {
        remove_with_id(&mut self.presets, id);
    }
}

/// Ids handed out one after the other are all different and all above the
/// ids held when the first was handed out.
pub proof fn lemma_reserved_ids_fresh<P: Identified>(presets: Seq<P>, first: u32, second: u32)
    requires
        fresh_above(presets, first),
        second == first + 1,
    ensures
        first != second,
        forall|i: int| 0 <= i < presets.len() ==> #[trigger] presets[i].id_spec() != first
            && presets[i].id_spec() != second,
{
}

/// Groups window.
pub struct GroupManager<G> {
    pub groups: Vec<G>,
    pub next_id: u32,
    pub needs_refresh: bool,
}

impl<G: Identified> GroupManager<G> {
    pub fn new() -> (r: Self)
        ensures
            r.groups@.len() == 0,
            r.next_id == 1,
            !r.needs_refresh,
    {
        GroupManager { groups: Vec::new(), next_id: 1, needs_refresh: false }
    }

    /// Loaded groups must be pushed to the processing side once.
    pub fn from_groups(groups: Vec<G>) -> (r: Self)
        requires
            max_id(groups@) < u32::MAX,
        ensures
            r.groups@ == groups@,
            r.next_id == max_id(groups@) + 1,
            fresh_above(r.groups@, r.next_id),
            r.needs_refresh,
    {
        let next_id = next_free_id(&groups);
        proof {
            lemma_loaded_ids_fresh(groups@);
        }
        GroupManager { groups, next_id, needs_refresh: true }
    }

    /// Reserves the id of a new record and its default name.
    pub fn reserve(&mut self) -> (r: (u32, String))
        requires
            old(self).next_id < u32::MAX,
        ensures
            r.0 == old(self).next_id,
            r.1@ == "Group "@ + decimal_chars(r.0 as nat),
            final(self).next_id == old(self).next_id + 1,
            final(self).groups@ == old(self).groups@,
            final(self).needs_refresh == old(self).needs_refresh,
    {
        let id = self.next_id;
        self.next_id = id + 1;
        (id, default_name("Group ", id))
    }

    /// Adds a record made with a reserved id.
    pub fn insert(&mut self, item: G)
        requires
            item.id_spec() < old(self).next_id,
        ensures
            final(self).groups@ == old(self).groups@.push(item),
            final(self).next_id == old(self).next_id,
            final(self).needs_refresh,
    {
        self.groups.push(item);
        self.needs_refresh = true;
    }

    /// Deletes the record(s) with id `id`.
    pub fn remove(&mut self, id: u32)
        ensures
            final(self).groups@ == without_id(old(self).groups@, id),
            final(self).next_id == old(self).next_id,
            final(self).needs_refresh,
    {
        remove_with_id(&mut self.groups, id);
        self.needs_refresh = true;
    }
}

/// One configured DMX output interface. `C` is its output configuration.
pub struct InterfaceEntry<C> {
    pub id: u32,
    pub name: String,
    pub config: C,
    pub enabled: bool,
}

/// An interface as stored in a project file.
pub struct SavedInterface<C> {
    pub id: u32,
    pub name: String,
    pub config: C,
    pub enabled: bool,
}

impl<C> Identified for InterfaceEntry<C> {
    open spec fn id_spec(&self) -> u32 {
        self.id
    }

    fn record_id(&self) -> (r: u32) {
        self.id
    }
}

impl<C> Identified for SavedInterface<C> {
    open spec fn id_spec(&self) -> u32 {
        self.id
    }

    fn record_id(&self) -> (r: u32) {
        self.id
    }
}

/// Whether an entry holds the same fields as a stored interface; the
/// configuration is compared by `same_config`.
pub open spec fn entry_matches<C>(e: InterfaceEntry<C>, s: SavedInterface<C>) -> bool {
    &&& e.id == s.id
    &&& e.name@ == s.name@
    &&& e.enabled == s.enabled
}

/// Interfaces window: all DMX output configurations.
pub struct InterfaceManager<C> {
    pub interfaces: Vec<InterfaceEntry<C>>,
    pub next_id: u32,
    /// Set when interfaces were added, removed, enabled or disabled.
    pub needs_sync: bool,
}

impl<C> InterfaceManager<C> {
    pub fn new() -> (r: Self)
        ensures
            r.interfaces@.len() == 0,
            r.next_id == 1,
            !r.needs_sync,
    {
        InterfaceManager { interfaces: Vec::new(), next_id: 1, needs_sync: false }
    }

    /// Loads stored interfaces in order; they must then be synced once.
    pub fn from_saved(saved: Vec<SavedInterface<C>>) -> (r: Self)
        requires
            max_id(saved@) < u32::MAX,
        ensures
            r.interfaces@.len() == saved@.len(),
            forall|i: int| 0 <= i < saved@.len() ==> entry_matches(#[trigger] r.interfaces@[i], saved@[i])
                && r.interfaces@[i].config == saved@[i].config,
            r.next_id == max_id(saved@) + 1,
            fresh_above(r.interfaces@, r.next_id),
            r.needs_sync,
    {
        let next_id = next_free_id(&saved);
        let ghost s0 = saved@;
        let mut interfaces: Vec<InterfaceEntry<C>> = Vec::new();
        let mut rest = saved;
        proof {
            lemma_max_id_bounds(s0);
            assert(s0.skip(0) =~= s0);
        }
        while rest.len() > 0
            invariant
                interfaces@.len() + rest@.len() == s0.len(),
                rest@ == s0.skip(interfaces@.len() as int),
                forall|i: int| 0 <= i < interfaces@.len() ==> entry_matches(
                    #[trigger] interfaces@[i],
                    s0[i],
                ) && interfaces@[i].config == s0[i].config,
            decreases rest@.len(),
        {
            let s = rest.remove(0);
            proof {
                assert(rest@ =~= s0.skip(interfaces@.len() as int + 1));
            }
            interfaces.push(InterfaceEntry { id: s.id, name: s.name, config: s.config, enabled: s.enabled });
        }
        proof {
            assert forall|i: int| 0 <= i < interfaces@.len() implies #[trigger] interfaces@[i].id_spec()
                < next_id by {
                assert(s0[i].id_spec() <= max_id(s0));
            }
        }
        InterfaceManager { interfaces, next_id, needs_sync: true }
    }

    /// Adds an enabled interface named `label` and its new id (the "+ Art-Net"
    /// and "+ sACN" buttons); returns the id.
    pub fn add_interface(&mut self, label: &str, config: C) -> (r: u32)
        requires
            old(self).next_id < u32::MAX,
        ensures
            r == old(self).next_id,
            final(self).next_id == old(self).next_id + 1,
            final(self).interfaces@.len() == old(self).interfaces@.len() + 1,
            final(self).interfaces@.take(old(self).interfaces@.len() as int) == old(self).interfaces@,
            final(self).interfaces@.last().id == r,
            final(self).interfaces@.last().name@ == label@ + " "@ + decimal_chars(r as nat),
            final(self).interfaces@.last().config == config,
            final(self).interfaces@.last().enabled,
            final(self).needs_sync,
    {
        let id = self.next_id;
        self.next_id = id + 1;
        let mut name = String::from_str(label);
        name.append(" ");
        let n = decimal(id as usize);
        name.append(n.as_str());
        let ghost prev = self.interfaces@;
        self.interfaces.push(InterfaceEntry { id, name, config, enabled: true });
        proof {
            assert(self.interfaces@.take(prev.len() as int) =~= prev);
        }
        self.needs_sync = true;
        id
    }

    /// Deletes the interface(s) with id `id`; they must be synced.
    pub fn remove(&mut self, id: u32)
        ensures
            final(self).interfaces@ == without_id(old(self).interfaces@, id),
            final(self).next_id == old(self).next_id,
            final(self).needs_sync,
    {
        remove_with_id(&mut self.interfaces, id);
        self.needs_sync = true;
    }
}

impl<C: Clone> InterfaceManager<C> {
    /// The interfaces as stored in a project file, in order; configurations
    /// are cloned.
    pub fn to_saved(&self) -> (r: Vec<SavedInterface<C>>)
        ensures
            r@.len() == self.interfaces@.len(),
            forall|i: int| 0 <= i < r@.len() ==> entry_matches(self.interfaces@[i], #[trigger] r@[i])
                && cloned(self.interfaces@[i].config, r@[i].config),
    {
        let mut r: Vec<SavedInterface<C>> = Vec::new();
        let mut i: usize = 0;
        while i < self.interfaces.len()
            invariant
                i <= self.interfaces.len(),
                r@.len() == i,
                forall|k: int| 0 <= k < i ==> entry_matches(self.interfaces@[k], #[trigger] r@[k])
                    && cloned(self.interfaces@[k].config, r@[k].config),
            decreases self.interfaces.len() - i,
        {
            let e = &self.interfaces[i];
            r.push(SavedInterface {
                id: e.id,
                name: e.name.clone(),
                config: e.config.clone(),
                enabled: e.enabled,
            });
            i += 1;
        }
        r
    }
}

/// Loading stored interfaces (`from_saved`) and storing the manager again
/// (`to_saved`) gives back the same interfaces in the same order: equal
/// ids, names and enabled flags, and a clone of each configuration.
pub proof fn lemma_saved_roundtrip<C: Clone>(saved: Seq<SavedInterface<C>>, loaded: Seq<InterfaceEntry<C>>, back: Seq<SavedInterface<C>>)
    requires
        loaded.len() == saved.len(),
        forall|i: int| 0 <= i < saved.len() ==> entry_matches(#[trigger] loaded[i], saved[i]) && loaded[i].config
            == saved[i].config,
        back.len() == loaded.len(),
        forall|i: int| 0 <= i < back.len() ==> entry_matches(loaded[i], #[trigger] back[i]) && cloned(
            loaded[i].config,
            back[i].config,
        ),
    ensures
        back.len() == saved.len(),
        forall|i: int| 0 <= i < saved.len() ==> {
            &&& (#[trigger] back[i]).id == saved[i].id
            &&& back[i].name@ == saved[i].name@
            &&& back[i].enabled == saved[i].enabled
            &&& cloned(saved[i].config, back[i].config)
        },
{
    assert forall|i: int| 0 <= i < saved.len() implies {
        &&& (#[trigger] back[i]).id == saved[i].id
        &&& back[i].name@ == saved[i].name@
        &&& back[i].enabled == saved[i].enabled
        &&& cloned(saved[i].config, back[i].config)
    } by {
        assert(entry_matches(loaded[i], saved[i]));
        assert(entry_matches(loaded[i], back[i]));
    }
}

/// Where cloning a configuration gives an equal value (as a derived
/// `Clone` does), the round trip gives back stored interfaces equal field
/// by field, configurations included.
pub proof fn lemma_saved_roundtrip_exact<C: Clone>(saved: Seq<SavedInterface<C>>, loaded: Seq<InterfaceEntry<C>>, back: Seq<SavedInterface<C>>)
    requires
        forall|a: C, b: C| #[trigger] cloned(a, b) ==> a == b,
        loaded.len() == saved.len(),
        forall|i: int| 0 <= i < saved.len() ==> entry_matches(#[trigger] loaded[i], saved[i]) && loaded[i].config
            == saved[i].config,
        back.len() == loaded.len(),
        forall|i: int| 0 <= i < back.len() ==> entry_matches(loaded[i], #[trigger] back[i]) && cloned(
            loaded[i].config,
            back[i].config,
        ),
    ensures
        back.len() == saved.len(),
        forall|i: int| 0 <= i < saved.len() ==> {
            &&& (#[trigger] back[i]).id == saved[i].id
            &&& back[i].name@ == saved[i].name@
            &&& back[i].enabled == saved[i].enabled
            &&& back[i].config == saved[i].config
        },
{
    lemma_saved_roundtrip(saved, loaded, back);
    assert forall|i: int| 0 <= i < saved.len() implies (#[trigger] back[i]).config == saved[i].config by {
        assert(cloned(saved[i].config, back[i].config));
    }
}

} // verus!
