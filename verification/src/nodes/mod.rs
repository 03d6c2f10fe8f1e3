//! The node widgets: the UI-side description of every node kind (its
//! ports, labels and the small state machines that react to wiring).
//! Rendering lives outside this library; each widget carries an opaque
//! handle `S` to the state it shares with the processing side.
use vstd::prelude::*;
use vstd::string::StrSliceExecFns;
use crate::ports::{UiPortDef, PortDef, PortType, PortView, plain_port, port_views, def_views, is_wired};
use crate::text::{decimal_chars, with_number};

pub mod math;
pub mod color;
pub mod mux;
pub mod variadic;
pub mod display;
pub mod io;
pub mod meta;
pub mod portal;
pub mod output;
pub mod select;
pub mod lookup;
pub mod audio;

verus! {

/// The colour role of a node's title-bar accent; the theme maps each role
/// to its colour.
#[derive(Clone, Copy, Debug, PartialEq, Eq, Structural)]
pub enum Accent {
    /// Semantic warning colour (portals).
    Warning,
    /// Accent of an open subgraph.
    Subgraph,
    /// Accent of a locked macro instance.
    Macro,
}

/// The label shown in title bars: the user's title, or the type name when
/// no title is set.
pub open spec fn display_title_spec(title: Seq<char>, type_label: Seq<char>) -> Seq<char> {
    if title.len() == 0 { type_label } else { title }
}

pub fn display_title<'a>(title: &'a str, type_label: &'static str) -> (r: &'a str)
    ensures
        r@ == display_title_spec(title@, type_label@),
{
    if title.unicode_len() == 0 { type_label } else { title }
}

pub fn ports1(a: UiPortDef) -> (r: Vec<UiPortDef>)
    ensures
        port_views(r@) == seq![a@],
        r@.len() == 1,
{
    let mut v: Vec<UiPortDef> = Vec::new();
    v.push(a);
    proof { assert(port_views(v@) =~= seq![a@]); }
    v
}

pub fn ports2(a: UiPortDef, b: UiPortDef) -> (r: Vec<UiPortDef>)
    ensures
        port_views(r@) == seq![a@, b@],
        r@.len() == 2,
{
    let mut v: Vec<UiPortDef> = Vec::new();
    v.push(a);
    v.push(b);
    proof { assert(port_views(v@) =~= seq![a@, b@]); }
    v
}

pub fn ports3(a: UiPortDef, b: UiPortDef, c: UiPortDef) -> (r: Vec<UiPortDef>)
    ensures
        port_views(r@) == seq![a@, b@, c@],
        r@.len() == 3,
{
    let mut v: Vec<UiPortDef> = Vec::new();
    v.push(a);
    v.push(b);
    v.push(c);
    proof { assert(port_views(v@) =~= seq![a@, b@, c@]); }
    v
}

pub fn ports4(a: UiPortDef, b: UiPortDef, c: UiPortDef, d: UiPortDef) -> (r: Vec<UiPortDef>)
    ensures
        port_views(r@) == seq![a@, b@, c@, d@],
        r@.len() == 4,
{
    let mut v: Vec<UiPortDef> = Vec::new();
    v.push(a);
    v.push(b);
    v.push(c);
    v.push(d);
    proof { assert(port_views(v@) =~= seq![a@, b@, c@, d@]); }
    v
}

pub fn ports5(a: UiPortDef, b: UiPortDef, c: UiPortDef, d: UiPortDef, e: UiPortDef) -> (r: Vec<
    UiPortDef,
>)
    ensures
        port_views(r@) == seq![a@, b@, c@, d@, e@],
        r@.len() == 5,
{
    let mut v: Vec<UiPortDef> = Vec::new();
    v.push(a);
    v.push(b);
    v.push(c);
    v.push(d);
    v.push(e);
    proof { assert(port_views(v@) =~= seq![a@, b@, c@, d@, e@]); }
    v
}

/// Parameters `0..count` whose matching input (`first_port + i`) is wired.
/// A wired input supersedes its parameter, which the inspector then hides.
pub open spec fn overridden(conn: Seq<bool>, first_port: int, count: nat) -> Seq<usize>
    decreases count,
{
    if count == 0 {
        Seq::empty()
    } else {
        let prev = overridden(conn, first_port, (count - 1) as nat);
        if is_wired(conn, first_port + count - 1) {
            prev.push((count - 1) as usize)
        } else {
            prev
        }
    }
}

/// Parameter `p` is hidden exactly when `p < count` and its input is wired.
pub proof fn lemma_overridden_members(conn: Seq<bool>, first_port: int, count: nat, p: usize)
    requires
        count <= usize::MAX,
    ensures
        overridden(conn, first_port, count).contains(p)
            <==> (p < count && is_wired(conn, first_port + p)),
    decreases count,
{
    broadcast use vstd::seq_lib::group_seq_properties;
    if count > 0 {
        lemma_overridden_members(conn, first_port, (count - 1) as nat, p);
        lemma_overridden_bound(conn, first_port, (count - 1) as nat);
        let prev = overridden(conn, first_port, (count - 1) as nat);
        if prev.contains(p) {
            let k = choose|k: int| 0 <= k < prev.len() && #[trigger] prev[k] == p;
            assert(prev[k] < count - 1);
        }
        if is_wired(conn, first_port + count - 1) {
            let cur = prev.push((count - 1) as usize);
            if cur.contains(p) {
                let k = choose|k: int| 0 <= k < cur.len() && #[trigger] cur[k] == p;
                if k < prev.len() {
                    assert(prev[k] == p);
                }
            }
            if prev.contains(p) {
                let k = choose|k: int| 0 <= k < prev.len() && #[trigger] prev[k] == p;
                assert(cur[k] == p);
            }
            if p == count - 1 {
                assert(cur[prev.len() as int] == p);
            }
        }
    }
}

proof fn lemma_overridden_bound(conn: Seq<bool>, first_port: int, count: nat)
    requires
        count <= usize::MAX,
    ensures
        overridden(conn, first_port, count).len() <= count,
        forall|k: int| 0 <= k < overridden(conn, first_port, count).len()
            ==> overridden(conn, first_port, count)[k] < count,
    decreases count,
{
    if count > 0 {
        lemma_overridden_bound(conn, first_port, (count - 1) as nat);
    }
}

/// The parameters hidden by wired inputs, in increasing order.
pub fn overridden_params(inputs_connected: &[bool], first_port: usize, count: usize) -> (r: Vec<
    usize,
>)
    requires
        first_port + count <= usize::MAX,
    ensures
        r@ == overridden(inputs_connected@, first_port as int, count as nat),
{
    let mut hidden: Vec<usize> = Vec::new();
    let mut i: usize = 0;
    while i < count
        invariant
            i <= count,
            first_port + count <= usize::MAX,
            hidden@ == overridden(inputs_connected@, first_port as int, i as nat),
        decreases count - i,
    {
        let p = first_port + i;
        if p < inputs_connected.len() && inputs_connected[p] {
            hidden.push(i);
        }
        i += 1;
    }
    hidden
}

/// `n` ports of type `t` named `prefix` followed by `offset`, `offset + 1`, ...
pub open spec fn numbered_ports(prefix: Seq<char>, offset: nat, n: nat, t: PortType) -> Seq<PortView> {
    Seq::new(n, |i: int| plain_port(prefix + decimal_chars((i + offset) as nat), t))
}

pub fn numbered(prefix: &str, offset: usize, n: usize, t: PortType) -> (r: Vec<UiPortDef>)
    requires
        offset + n <= usize::MAX,
    ensures
        port_views(r@) == numbered_ports(prefix@, offset as nat, n as nat, t),
{
    let mut v: Vec<UiPortDef> = Vec::new();
    let mut i: usize = 0;
    while i < n
        invariant
            i <= n,
            offset + n <= usize::MAX,
            port_views(v@) == numbered_ports(prefix@, offset as nat, i as nat, t),
        decreases n - i,
    {
        let p = UiPortDef::plain_owned(with_number(prefix, i + offset), t);
        let ghost prev = v@;
        v.push(p);
        proof {
            assert(port_views(v@) =~= port_views(prev).push(p@));
            assert(numbered_ports(prefix@, offset as nat, (i + 1) as nat, t) =~= numbered_ports(
                prefix@, offset as nat, i as nat, t).push(p@));
        }
        i += 1;
    }
    v
}

/// The texts of a list of strings.
pub open spec fn names_view(names: Seq<String>) -> Seq<Seq<char>> {
    names.map_values(|s: String| s@)
}

/// Plain ports of type `t` with the given names.
pub open spec fn typed_names(names: Seq<Seq<char>>, t: PortType) -> Seq<PortView> {
    names.map_values(|n: Seq<char>| plain_port(n, t))
}

pub fn ports_from_names(names: &Vec<String>, t: PortType) -> (r: Vec<UiPortDef>)
    ensures
        port_views(r@) == typed_names(names_view(names@), t),
{
    let mut v: Vec<UiPortDef> = Vec::new();
    let mut i: usize = 0;
    while i < names.len()
        invariant
            i <= names.len(),
            port_views(v@) == typed_names(names_view(names@.take(i as int)), t),
        decreases names.len() - i,
    {
        let p = UiPortDef::plain_owned(names[i].clone(), t);
        let ghost prev = v@;
        v.push(p);
        proof {
            assert(names@.take(i + 1) == names@.take(i as int).push(names@[i as int]));
            assert(port_views(v@) =~= port_views(prev).push(p@));
            assert(typed_names(names_view(names@.take(i + 1)), t) =~= typed_names(
                names_view(names@.take(i as int)), t).push(p@));
        }
        i += 1;
    }
    proof {
        assert(names@.take(names.len() as int) =~= names@);
    }
    v
}

/// Each name with `prefix` in front of it.
pub fn prefixed_names(prefix: &str, names: &Vec<String>) -> (r: Vec<String>)
    ensures
        names_view(r@) == names_view(names@).map_values(|n: Seq<char>| prefix@ + n),
{
    let mut v: Vec<String> = Vec::new();
    let mut i: usize = 0;
    while i < names.len()
        invariant
            i <= names.len(),
            names_view(v@) == names_view(names@.take(i as int)).map_values(|n: Seq<char>| prefix@ + n),
        decreases names.len() - i,
    {
        let mut s = String::from_str(prefix);
        s.append(names[i].as_str());
        let ghost prev = v@;
        v.push(s);
        proof {
            assert(names@.take(i + 1) == names@.take(i as int).push(names@[i as int]));
            assert(names_view(v@) =~= names_view(prev).push(s@));
            assert(names_view(names@.take(i + 1)).map_values(|n: Seq<char>| prefix@ + n)
                =~= names_view(names@.take(i as int)).map_values(|n: Seq<char>| prefix@ + n).push(s@));
        }
        i += 1;
    }
    proof {
        assert(names@.take(names.len() as int) =~= names@);
    }
    v
}

/// The name paired with `id` in `list` (the first such entry), or
/// `fallback` when no entry has that id.
pub open spec fn lookup_name(list: Seq<(u32, Seq<char>)>, id: u32, fallback: Seq<char>) -> Seq<char>
    decreases list.len(),
{
    if list.len() == 0 {
        fallback
    } else if list[0].0 == id {
        list[0].1
    } else {
        lookup_name(list.drop_first(), id, fallback)
    }
}

pub open spec fn pairs_view(list: Seq<(u32, String)>) -> Seq<(u32, Seq<char>)> {
    list.map_values(|e: (u32, String)| (e.0, e.1@))
}

pub fn name_for_id(list: &Vec<(u32, String)>, id: u32, fallback: &str) -> (r: String)
    ensures
        r@ == lookup_name(pairs_view(list@), id, fallback@),
{
    let mut i: usize = 0;
    proof {
        assert(pairs_view(list@).skip(0) =~= pairs_view(list@));
    }
    while i < list.len()
        invariant
            i <= list.len(),
            lookup_name(pairs_view(list@), id, fallback@) == lookup_name(
                pairs_view(list@).skip(i as int),
                id,
                fallback@,
            ),
        decreases list.len() - i,
    {
        let ghost rest = pairs_view(list@).skip(i as int);
        if list[i].0 == id {
            return list[i].1.clone();
        }
        proof {
            assert(rest.drop_first() =~= pairs_view(list@).skip(i + 1));
        }
        i += 1;
    }
    String::from_str(fallback)
}

/// Ports of several groups laid out one group after the other; each name
/// gets `letter`, the group's number (the first group numbered `first`)
/// and a dot in front.
pub open spec fn grouped_port_views(letter: Seq<char>, first: nat, groups: Seq<Vec<PortDef>>) -> Seq<PortView>
    decreases groups.len(),
{
    if groups.len() == 0 {
        Seq::empty()
    } else {
        let i = groups.len() - 1;
        grouped_port_views(letter, first, groups.drop_last()) + groups[i]@.map_values(
            |d: PortDef| plain_port(letter + decimal_chars((first + i) as nat) + "."@ + d.name@, d.port_type),
        )
    }
}

pub fn grouped_defs(letter: &str, first: usize, groups: &Vec<Vec<PortDef>>) -> (r: Vec<PortDef>)
    requires
        first + groups@.len() <= usize::MAX,
    ensures
        def_views(r@) == grouped_port_views(letter@, first as nat, groups@),
{
    let mut v: Vec<PortDef> = Vec::new();
    let mut i: usize = 0;
    while i < groups.len()
        invariant
            i <= groups.len(),
            first + groups@.len() <= usize::MAX,
            def_views(v@) == grouped_port_views(letter@, first as nat, groups@.take(i as int)),
        decreases groups.len() - i,
    {
        let defs = &groups[i];
        let mut prefix = with_number(letter, first + i);
        prefix.append(".");
        let ghost start = v@;
        let mut k: usize = 0;
        while k < defs.len()
            invariant
                k <= defs.len(),
                prefix@ == letter@ + decimal_chars((first + i) as nat) + "."@,
                *defs == groups@[i as int],
                def_views(v@) == def_views(start) + defs@.take(k as int).map_values(
                    |d: PortDef| plain_port(prefix@ + d.name@, d.port_type),
                ),
            decreases defs.len() - k,
        {
            let mut name = prefix.clone();
            name.append(defs[k].name.as_str());
            let d = PortDef::from_string(name, defs[k].port_type);
            let ghost prev = v@;
            v.push(d);
            proof {
                assert(def_views(v@) =~= def_views(prev).push(plain_port(d.name@, d.port_type)));
                assert(defs@.take(k + 1) =~= defs@.take(k as int).push(defs@[k as int]));
                assert(defs@.take(k + 1).map_values(|d: PortDef| plain_port(prefix@ + d.name@, d.port_type))
                    =~= defs@.take(k as int).map_values(|d: PortDef| plain_port(prefix@ + d.name@, d.port_type)).push(
                    plain_port(d.name@, d.port_type)));
            }
            k += 1;
        }
        proof {
            assert(defs@.take(defs.len() as int) =~= defs@);
            assert(groups@.take(i + 1).drop_last() =~= groups@.take(i as int));
            assert(groups@.take(i + 1)[i as int] == groups@[i as int]);
        }
        i += 1;
    }
    proof {
        assert(groups@.take(groups.len() as int) =~= groups@);
    }
    v
}

} // verus!
