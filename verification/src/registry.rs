//! The catalogue of node types offered by the canvas context menu, and its
//! search filter.
use vstd::prelude::*;
use vstd::string::StrSliceExecFns;

verus! {

/// Lower-case form of a text, as `str::to_lowercase` computes it.
pub uninterp spec fn lowercase_of(s: Seq<char>) -> Seq<char>;

/// Calls `str::to_lowercase`: Unicode lower-casing, a function of the text
/// alone. Its result is named, not spelled out.
#[verifier::external_body]
fn lowercase(s: &str) -> (r: String)
    ensures
        r@ == lowercase_of(s@),
{
    s.to_lowercase()
}

/// The characters of a text, in order.
fn to_chars(s: &str) -> (r: Vec<char>)
    ensures
        r@ == s@,
{
    let n = s.unicode_len();
    let mut v: Vec<char> = Vec::new();
    let mut i: usize = 0;
    while i < n
        invariant
            n == s@.len(),
            i <= n,
            v@ == s@.take(i as int),
        decreases n - i,
    {
        let c = s.get_char(i);
        v.push(c);
        proof {
            assert(s@.take(i + 1) =~= s@.take(i as int).push(c));
        }
        i += 1;
    }
    proof {
        assert(s@.take(n as int) =~= s@);
    }
    v
}

/// Whether `needle` occurs in `hay` as a contiguous run.
pub open spec fn has_substring(hay: Seq<char>, needle: Seq<char>) -> bool {
    exists|i: int| 0 <= i <= hay.len() - needle.len() && #[trigger] hay.subrange(i, i + needle.len()) == needle
}

fn matches_at(hay: &Vec<char>, needle: &Vec<char>, i: usize) -> (r: bool)
    requires
        i + needle.len() <= hay.len(),
    ensures
        r == (hay@.subrange(i as int, i + needle.len()) == needle@),
{
    let mut k: usize = 0;
    while k < needle.len()
        invariant
            k <= needle.len(),
            i + needle.len() <= hay.len(),
            hay@.subrange(i as int, i + k) == needle@.take(k as int),
        decreases needle.len() - k,
    {
        if hay[i + k] != needle[k] {
            proof {
                assert(hay@.subrange(i as int, i + needle.len())[k as int] != needle@[k as int]);
            }
            return false;
        }
        proof {
            assert(hay@.subrange(i as int, i + k + 1) =~= hay@.subrange(i as int, i + k).push(hay@[i + k]));
            assert(needle@.take(k + 1) =~= needle@.take(k as int).push(needle@[k as int]));
        }
        k += 1;
    }
    proof {
        assert(needle@.take(k as int) =~= needle@);
    }
    true
}

/// Whether `needle` occurs in `hay`.
pub fn contains_text(hay: &str, needle: &str) -> (r: bool)
    ensures
        r == has_substring(hay@, needle@),
{
    let h = to_chars(hay);
    let n = to_chars(needle);
    if n.len() == 0 {
        proof {
            assert(hay@.subrange(0int, 0int + needle@.len()) =~= needle@);
        }
        return true;
    }
    if n.len() > h.len() {
        return false;
    }
    let last = h.len() - n.len();
    let mut i: usize = 0;
    while i <= last
        invariant
            last == h.len() - n.len(),
            n.len() >= 1,
            h@ == hay@,
            n@ == needle@,
            i <= last + 1,
            forall|j: int| 0 <= j < i ==> #[trigger] h@.subrange(j, j + n@.len()) != n@,
        decreases last + 1 - i,
    {
        if matches_at(&h, &n, i) {
            return true;
        }
        i += 1;
    }
    false
}

/// A node type offered by the context menu. `F` builds a node of the type.
pub struct NodeEntry<F> {
    pub label: String,
    pub category: String,
    pub description: &'static str,
    pub factory: F,
}

/// Categories starting with '_' are kept out of the menu.
pub open spec fn is_hidden(category: Seq<char>) -> bool {
    category.len() > 0 && category[0] == '_'
}

/// Whether an entry is listed for the search text `search`: visible, and
/// the search is empty or occurs in the lower-cased label or category.
pub open spec fn listed(label: Seq<char>, category: Seq<char>, search: Seq<char>) -> bool {
    &&& !is_hidden(category)
    &&& (lowercase_of(search).len() == 0 || has_substring(lowercase_of(label), lowercase_of(search))
        || has_substring(lowercase_of(category), lowercase_of(search)))
}

/// Positions of the listed entries, in catalogue order.
pub open spec fn listed_indices<F>(entries: Seq<NodeEntry<F>>, search: Seq<char>) -> Seq<usize>
    decreases entries.len(),
{
    if entries.len() == 0 {
        Seq::empty()
    } else {
        let prev = listed_indices(entries.drop_last(), search);
        let e = entries.last();
        if listed(e.label@, e.category@, search) {
            prev.push((entries.len() - 1) as usize)
        } else {
            prev
        }
    }
}

proof fn lemma_listed_indices_members<F>(entries: Seq<NodeEntry<F>>, search: Seq<char>)
    requires
        entries.len() <= usize::MAX,
    ensures
        forall|k: int| 0 <= k < listed_indices(entries, search).len() ==> {
            let i = #[trigger] listed_indices(entries, search)[k];
            &&& i < entries.len()
            &&& listed(entries[i as int].label@, entries[i as int].category@, search)
        },
        forall|k: int, l: int| 0 <= k < l < listed_indices(entries, search).len() ==>
            #[trigger] listed_indices(entries, search)[k] < #[trigger] listed_indices(entries, search)[l],
        forall|i: int| 0 <= i < entries.len() && #[trigger] listed(entries[i].label@, entries[i].category@, search)
            ==> listed_indices(entries, search).contains(i as usize),
    decreases entries.len(),
{
    if entries.len() > 0 {
        let rest = entries.drop_last();
        lemma_listed_indices_members(rest, search);
        let prev = listed_indices(rest, search);
        let r = listed_indices(entries, search);
        let e = entries.last();
        let top = (entries.len() - 1) as usize;
        assert(top as int == entries.len() - 1);
        if listed(e.label@, e.category@, search) {
            assert(r == prev.push(top));
        } else {
            assert(r == prev);
        }
        assert(entries[entries.len() - 1] == e);
        assert forall|k: int| 0 <= k < r.len() implies {
            let i = #[trigger] r[k];
            &&& i < entries.len()
            &&& listed(entries[i as int].label@, entries[i as int].category@, search)
        } by {
            if k < prev.len() {
                assert(r[k] == prev[k]);
                assert(entries[prev[k] as int] == rest[prev[k] as int]);
            } else {
                assert(r[k] == top);
            }
        }
        assert forall|k: int, l: int| 0 <= k < l < r.len() implies #[trigger] r[k] < #[trigger] r[l] by {
            if l < prev.len() {
                assert(r[k] == prev[k] && r[l] == prev[l]);
            } else {
                assert(r[k] == prev[k]);
                assert(r[l] == top);
            }
        }
        assert forall|i: int| 0 <= i < entries.len() && #[trigger] listed(entries[i].label@, entries[i].category@, search)
            implies r.contains(i as usize) by {
            if i < entries.len() - 1 {
                assert(entries[i] == rest[i]);
                assert(prev.contains(i as usize));
                let k = choose|k: int| 0 <= k < prev.len() && prev[k] == i as usize;
                assert(r[k] == prev[k]);
            } else {
                assert(r[r.len() - 1] == i as usize);
            }
        }
    }
}

/// The search lists, in catalogue order and without repeats, exactly the
/// entries of visible categories whose lower-cased label or category holds
/// the lower-cased search text anywhere (every visible entry when that
/// text is empty). Hidden categories are never listed.
pub proof fn lemma_filter_lists_matches<F>(entries: Seq<NodeEntry<F>>, search: Seq<char>)
    requires
        entries.len() <= usize::MAX,
    ensures
        forall|k: int, l: int| 0 <= k < l < listed_indices(entries, search).len() ==>
            #[trigger] listed_indices(entries, search)[k] < #[trigger] listed_indices(entries, search)[l],
        forall|i: int, a: int| 0 <= i < entries.len() && !is_hidden(entries[i].category@) && 0 <= a
            && a + lowercase_of(search).len() <= lowercase_of(entries[i].label@).len()
            && #[trigger] lowercase_of(entries[i].label@).subrange(a, a + lowercase_of(search).len()) == lowercase_of(search)
            ==> listed_indices(entries, search).contains(i as usize),
        forall|i: int, a: int| 0 <= i < entries.len() && !is_hidden(entries[i].category@) && 0 <= a
            && a + lowercase_of(search).len() <= lowercase_of(entries[i].category@).len()
            && #[trigger] lowercase_of(entries[i].category@).subrange(a, a + lowercase_of(search).len()) == lowercase_of(search)
            ==> listed_indices(entries, search).contains(i as usize),
        lowercase_of(search).len() == 0 ==> forall|i: int| 0 <= i < entries.len() && !is_hidden(#[trigger] entries[i].category@)
            ==> listed_indices(entries, search).contains(i as usize),
        forall|k: int| 0 <= k < listed_indices(entries, search).len() ==> {
            let i = #[trigger] listed_indices(entries, search)[k] as int;
            let lab = lowercase_of(entries[i].label@);
            let cat = lowercase_of(entries[i].category@);
            let n = lowercase_of(search);
            &&& i < entries.len()
            &&& !is_hidden(entries[i].category@)
            &&& (n.len() == 0
                || (exists|a: int| 0 <= a && a + n.len() <= lab.len() && #[trigger] lab.subrange(a, a + n.len()) == n)
                || (exists|a: int| 0 <= a && a + n.len() <= cat.len() && #[trigger] cat.subrange(a, a + n.len()) == n))
        },
{
    lemma_listed_indices_members(entries, search);
    let n = lowercase_of(search);
    assert forall|i: int, a: int| 0 <= i < entries.len() && !is_hidden(entries[i].category@) && 0 <= a
        && a + n.len() <= lowercase_of(entries[i].label@).len()
        && #[trigger] lowercase_of(entries[i].label@).subrange(a, a + n.len()) == n
        implies listed_indices(entries, search).contains(i as usize) by {
        assert(has_substring(lowercase_of(entries[i].label@), n));
        assert(listed(entries[i].label@, entries[i].category@, search));
    }
    assert forall|i: int, a: int| 0 <= i < entries.len() && !is_hidden(entries[i].category@) && 0 <= a
        && a + n.len() <= lowercase_of(entries[i].category@).len()
        && #[trigger] lowercase_of(entries[i].category@).subrange(a, a + n.len()) == n
        implies listed_indices(entries, search).contains(i as usize) by {
        assert(has_substring(lowercase_of(entries[i].category@), n));
        assert(listed(entries[i].label@, entries[i].category@, search));
    }
    if n.len() == 0 {
        assert forall|i: int| 0 <= i < entries.len() && !is_hidden(#[trigger] entries[i].category@)
            implies listed_indices(entries, search).contains(i as usize) by {
            assert(listed(entries[i].label@, entries[i].category@, search));
        }
    }
}

/// Removes the entries of category `category`, keeping the others in order.
pub open spec fn without_category<F>(entries: Seq<NodeEntry<F>>, category: Seq<char>) -> Seq<NodeEntry<F>> {
    entries.filter(|e: NodeEntry<F>| e.category@ != category)
}

/// Position of the first entry labelled `label`.
pub open spec fn label_position<F>(entries: Seq<NodeEntry<F>>, label: Seq<char>) -> Option<int> {
    if exists|i: int| 0 <= i < entries.len() && entries[i].label@ == label {
        Some(choose|i: int| 0 <= i < entries.len() && entries[i].label@ == label && forall|j: int|
            0 <= j < i ==> entries[j].label@ != label)
    } else {
        None
    }
}

/// The node catalogue.
pub struct NodeRegistry<F> {
    pub entries: Vec<NodeEntry<F>>,
}

impl<F> NodeRegistry<F> {
    pub fn new() -> (r: Self)
        ensures
            r.entries@.len() == 0,
    {
        NodeRegistry { entries: Vec::new() }
    }

    /// Adds a node type; `description` is the one its nodes report.
    pub fn register_node(&mut self, category: String, label: String, description: &'static str, factory: F)
        ensures
            final(self).entries@.len() == old(self).entries@.len() + 1,
            final(self).entries@.take(old(self).entries@.len() as int) == old(self).entries@,
            final(self).entries@.last().label@ == label@,
            final(self).entries@.last().category@ == category@,
            final(self).entries@.last().description == description,
            final(self).entries@.last().factory == factory,
    {
        let ghost prev = self.entries@;
        self.entries.push(NodeEntry { label, category, description, factory });
        proof {
            assert(self.entries@.take(prev.len() as int) =~= prev);
        }
    }

    /// Removes every entry of a category.
    pub fn clear_category(&mut self, category: &str)
        ensures
            final(self).entries@ == without_category(old(self).entries@, category@),
    {
        let cat = String::from_str(category);
        let mut kept: Vec<NodeEntry<F>> = Vec::new();
        let ghost start = self.entries@;
        let mut rest: Vec<NodeEntry<F>> = Vec::new();
        std::mem::swap(&mut rest, &mut self.entries);
        let mut n: usize = 0;
        let total = rest.len();
        proof {
            assert(start.skip(0) =~= start);
        }
        while rest.len() > 0
            invariant
                n + rest@.len() == start.len(),
                start.len() == total,
                rest@ == start.skip(n as int),
                kept@ == without_category(start.take(n as int), category@),
                cat@ == category@,
            decreases rest@.len(),
        {
            let e = rest.remove(0);
            proof {
                assert(rest@ =~= start.skip(n + 1));
                assert(start.take(n + 1) =~= start.take(n as int).push(e));
                start.take(n as int).lemma_filter_push(e, |x: NodeEntry<F>| x.category@ != category@);
            }
            if e.category != cat {
                kept.push(e);
            }
            n += 1;
        }
        proof {
            assert(start.take(n as int) =~= start);
        }
        self.entries = kept;
    }

    /// Position of the entry a node of type `label` is created from.
    pub fn find_label(&self, label: &str) -> (r: Option<usize>)
        ensures
            match r {
                Some(i) => label_position(self.entries@, label@) == Some(i as int),
                None => label_position(self.entries@, label@).is_none(),
            },
    {
        let l = String::from_str(label);
        let mut i: usize = 0;
        while i < self.entries.len()
            invariant
                i <= self.entries.len(),
                l@ == label@,
                forall|j: int| 0 <= j < i ==> #[trigger] self.entries@[j].label@ != label@,
            decreases self.entries.len() - i,
        {
            if self.entries[i].label == l {
                proof {
                    let c = choose|c: int| 0 <= c < self.entries@.len() && self.entries@[c].label@ == label@
                        && forall|j: int| 0 <= j < c ==> self.entries@[j].label@ != label@;
                    if c > i {
                        assert(self.entries@[i as int].label@ == label@);
                    }
                    assert(c == i);
                }
                return Some(i);
            }
            i += 1;
        }
        None
    }

    /// The entries the context menu lists for `search`, in catalogue order.
    pub fn filter(&self, search: &str) -> (r: Vec<usize>)
        ensures
            r@ == listed_indices(self.entries@, search@),
    {
        let needle = lowercase(search);
        let empty = needle.as_str().unicode_len() == 0;
        let mut r: Vec<usize> = Vec::new();
        let mut i: usize = 0;
        while i < self.entries.len()
            invariant
                i <= self.entries.len(),
                needle@ == lowercase_of(search@),
                empty == (lowercase_of(search@).len() == 0),
                r@ == listed_indices(self.entries@.take(i as int), search@),
            decreases self.entries.len() - i,
        {
            let e = &self.entries[i];
            proof {
                assert(self.entries@.take(i + 1).drop_last() =~= self.entries@.take(i as int));
            }
            let cat = e.category.as_str();
            let hidden = cat.unicode_len() > 0 && cat.get_char(0) == '_';
            if !hidden {
                let shown = if empty {
                    true
                } else {
                    let label_lc = lowercase(e.label.as_str());
                    let cat_lc = lowercase(cat);
                    contains_text(label_lc.as_str(), needle.as_str()) || contains_text(
                        cat_lc.as_str(),
                        needle.as_str(),
                    )
                };
                if shown {
                    r.push(i);
                }
            }
            i += 1;
        }
        proof {
            assert(self.entries@.take(self.entries.len() as int) =~= self.entries@);
        }
        r
    }
}

} // verus!
