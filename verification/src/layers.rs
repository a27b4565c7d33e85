//! Layer discovery data: a layer per directory entry, keyed by the entry's
//! base name with its extension stripped, and a set of layers with unique
//! names under an explicit duplicate policy.

use vstd::prelude::*;

verus! {

use vstd::string::StrSliceExecFns;
use vstd::string::StringExecFns;
use vstd::pervasive::VecAdditionalExecFns;
use crate::order::views_of;

/// A single discovered filesystem layer: a name, unique within a run, and
/// the path to the layer's contents.
pub struct Layer {
    pub name: String,
    pub source_path: String,
}

/// What to do when a second layer arrives under a name already taken.
#[derive(Clone, Copy)]
pub enum DuplicatePolicy {
    /// Refuse the new layer and report the collision.
    Reject,
    /// Keep the layer that was there first; drop the new one.
    KeepFirst,
    /// Replace the earlier layer with the new one.
    KeepLast,
}

/// A name collision reported under `DuplicatePolicy::Reject`.
pub struct DuplicateName {
    pub name: String,
}

/// The position, counted from the end, of the last dot that could separate
/// a base name from an extension: zero when there is none. A dot in first
/// position marks a hidden file, not an extension.
pub open spec fn last_dot_index(s: Seq<char>) -> int
    decreases s.len(),
{
    if s.len() <= 1 {
        0
    } else if s[s.len() - 1] == '.' {
        s.len() - 1
    } else {
        last_dot_index(s.drop_last())
    }
}

/// The base name of a directory entry with its extension stripped:
/// everything before the last dot, except that a dot in first position
/// (a hidden file) never counts as an extension separator.
pub open spec fn stem_spec(s: Seq<char>) -> Seq<char> {
    if last_dot_index(s) == 0 {
        s
    } else {
        s.take(last_dot_index(s))
    }
}

/// Strips the extension from a directory entry's name.
pub fn entry_stem(name: &str) -> (r: String)
    ensures
        r@ == stem_spec(name@),
{
    let n = name.unicode_len();
    let mut i: usize = n;
    proof {
        assert(name@.take(n as int) =~= name@);
    }
    while i > 1
        invariant
            i <= n,
            n == name@.len(),
            last_dot_index(name@) == last_dot_index(name@.take(i as int)),
        decreases i,
    {
        if name.get_char(i - 1) == '.' {
            let stem = name.substring_char(0, i - 1);
            return stem.to_owned();
        }
        proof {
            assert(name@.take(i as int).drop_last() =~= name@.take(i as int - 1));
        }
        i = i - 1;
    }
    name.to_owned()
}

/// The path of a directory entry: the directory, a separator, the entry's
/// name.
pub open spec fn path_join_spec(dir: Seq<char>, name: Seq<char>) -> Seq<char> {
    dir + "/"@ + name
}

/// Joins a directory path and an entry name with a separator.
pub fn path_join(dir: &str, name: &str) -> (r: String)
    ensures
        r@ == path_join_spec(dir@, name@),
{
    let mut r = dir.to_owned();
    r.append("/");
    r.append(name);
    r
}

/// The layer a directory entry under `layers_dir` becomes: named by the
/// entry's stripped base name, sourced from the entry's full path.
pub fn layer_from_entry(layers_dir: &str, entry_name: &str) -> (r: Layer)
    ensures
        r.name@ == stem_spec(entry_name@),
        r.source_path@ == path_join_spec(layers_dir@, entry_name@),
{
    Layer { name: entry_stem(entry_name), source_path: path_join(layers_dir, entry_name) }
}

/// Within a valid layer set a name stands at one position only.
proof fn lemma_unique_name_index(s: LayerSet, p: int, q: int)
    requires
        s.wf(),
        0 <= p < s.names().len(),
        0 <= q < s.names().len(),
        s.names()[p] == s.names()[q],
    ensures
        p == q,
{
    if p < q {
        assert(s.names()[p] != s.names()[q]);
    } else if q < p {
        assert(s.names()[q] != s.names()[p]);
    }
}

/// The layers of one generator run, with pairwise distinct names.
pub struct LayerSet {
    pub layers: Vec<Layer>,
}

impl LayerSet {
    /// The `(name, source path)` pairs held, in insertion order.
    pub open spec fn pairs(self) -> Seq<(Seq<char>, Seq<char>)> {
        self.layers@.map_values(|l: Layer| (l.name@, l.source_path@))
    }

    /// The names held, in insertion order.
    pub open spec fn names(self) -> Seq<Seq<char>> {
        self.layers@.map_values(|l: Layer| l.name@)
    }

    /// Whether a layer of this name is held.
    pub open spec fn contains_name(self, n: Seq<char>) -> bool {
        self.names().contains(n)
    }

    /// The position of the layer named `n`; meaningful only when the name
    /// is held and the names are distinct.
    pub open spec fn name_index(self, n: Seq<char>) -> int {
        choose|i: int| 0 <= i < self.names().len() && self.names()[i] == n
    }

    /// Validity: no two layers share a name.
    pub open spec fn wf(self) -> bool {
        forall|i: int, j: int|
            0 <= i < j < self.names().len() ==> self.names()[i] != self.names()[j]
    }

    /// An empty layer set.
    pub fn new() -> (r: LayerSet)
        ensures
            r.pairs() == Seq::<(Seq<char>, Seq<char>)>::empty(),
            r.wf(),
    {
        let r = LayerSet { layers: Vec::new() };
        proof {
            assert(r.pairs() =~= Seq::<(Seq<char>, Seq<char>)>::empty());
        }
        r
    }

    /// How many layers are held.
    pub fn len(&self) -> (r: usize)
        ensures
            r == self.pairs().len(),
    {
        self.layers.len()
    }

    /// Adds a layer. A fresh name is appended; a name already held is
    /// resolved by the policy: `Reject` reports the collision and leaves
    /// the set as it was, `KeepFirst` keeps the earlier layer, `KeepLast`
    /// replaces it. Only `Reject` on a held name reports an error.
    pub fn insert(&mut self, layer: Layer, policy: DuplicatePolicy) -> (r: Result<
        (),
        DuplicateName,
    >)
        requires
            old(self).wf(),
        ensures
            final(self).wf(),
            !old(self).contains_name(layer.name@) ==> final(self).pairs() == old(
                self,
            ).pairs().push((layer.name@, layer.source_path@)),
            old(self).contains_name(layer.name@) ==> match policy {
                DuplicatePolicy::Reject => *final(self) == *old(self),
                DuplicatePolicy::KeepFirst => *final(self) == *old(self),
                DuplicatePolicy::KeepLast => final(self).pairs() == old(self).pairs().update(
                    old(self).name_index(layer.name@),
                    (layer.name@, layer.source_path@),
                ),
            },
            r.is_err() <==> (old(self).contains_name(layer.name@) && policy
                matches DuplicatePolicy::Reject),
            (r matches Err(e) ==> e.name@ == layer.name@),
    {
        let n = self.layers.len();
        let mut i: usize = 0;
        while i < n
            invariant
                i <= n,
                *self == *old(self),
                old(self).wf(),
                n == self.layers.len(),
                forall|k: int| 0 <= k < i ==> self.names()[k] != layer.name@,
            decreases n - i,
        {
            if self.layers[i].name == layer.name {
                proof {
                    assert(self.names()[i as int] == layer.name@);
                    assert(self.contains_name(layer.name@));
                    let c = self.name_index(layer.name@);
                    assert(0 <= c < self.names().len() && self.names()[c] == layer.name@);
                    lemma_unique_name_index(*self, c, i as int);
                }
                match policy {
                    DuplicatePolicy::Reject => {
                        return Err(DuplicateName { name: layer.name });
                    },
                    DuplicatePolicy::KeepFirst => {
                        return Ok(());
                    },
                    DuplicatePolicy::KeepLast => {
                        let ghost old_set = *self;
                        self.layers.set(i, layer);
                        proof {
                            assert(old_set.wf());
                            assert(self.pairs() =~= old_set.pairs().update(
                                i as int,
                                (layer.name@, layer.source_path@),
                            ));
                            assert(self.names() =~= old_set.names());
                        }
                        return Ok(());
                    },
                }
            }
            i = i + 1;
        }
        proof {
            if self.contains_name(layer.name@) {
                let w = choose|k: int|
                    0 <= k < self.names().len() && self.names()[k] == layer.name@;
                assert(self.names()[w] == layer.name@);
                assert(false);
            }
        }
        let ghost old_set = *self;
        self.layers.push(layer);
        proof {
            assert(old_set.wf());
            assert(self.pairs() =~= old_set.pairs().push((layer.name@, layer.source_path@)));
            assert(self.names() =~= old_set.names().push(layer.name@));
            assert forall|p: int, q: int|
                0 <= p < q < self.names().len() implies self.names()[p] != self.names()[q] by {
                if q < old_set.names().len() {
                    assert(old_set.names()[p] != old_set.names()[q]);
                } else {
                    assert(self.names()[q] == layer.name@);
                    assert(old_set.names().contains(old_set.names()[p]));
                    assert(old_set.names()[p] != layer.name@);
                }
            }
        }
        Ok(())
    }

    /// The names held, as strings, in insertion order.
    pub fn name_strings(&self) -> (r: Vec<String>)
        ensures
            views_of(r@) == self.names(),
    {
        let mut r: Vec<String> = Vec::new();
        let n = self.layers.len();
        let mut i: usize = 0;
        while i < n
            invariant
                i <= n,
                n == self.layers.len(),
                views_of(r@) =~= self.names().take(i as int),
            decreases n - i,
        {
            let ghost old_r = r@;
            r.push(self.layers[i].name.clone());
            proof {
                let rv = views_of(r@);
                let tv = self.names().take(i as int + 1);
                assert(r@ == old_r.push(self.layers@[i as int].name));
                assert(views_of(old_r) =~= self.names().take(i as int));
                assert(views_of(old_r).len() == old_r.len());
                assert(self.names().take(i as int).len() == i);
                assert(old_r.len() == i);
                assert forall|k: int| 0 <= k < i + 1 implies rv[k] == tv[k] by {
                    if k < i {
                        assert(r@[k] == old_r[k]);
                        assert(rv[k] == views_of(old_r)[k]);
                        assert(views_of(old_r)[k] == self.names().take(i as int)[k]);
                    } else {
                        assert(r@[k] == self.layers@[i as int].name);
                    }
                }
                assert(rv =~= tv);
            }
            i = i + 1;
        }
        proof {
            assert(self.names().take(n as int) =~= self.names());
        }
        r
    }

    /// The source path of the layer named `name`, if one is held.
    pub fn source_of(&self, name: &str) -> (r: Option<String>)
        requires
            self.wf(),
        ensures
            match r {
                Some(s) => self.contains_name(name@) && s@ == self.pairs()[self.name_index(
                    name@,
                )].1,
                None => !self.contains_name(name@),
            },
    {
        let n = self.layers.len();
        let mut i: usize = 0;
        while i < n
            invariant
                i <= n,
                self.wf(),
                n == self.layers.len(),
                forall|k: int| 0 <= k < i ==> self.names()[k] != name@,
            decreases n - i,
        {
            if crate::order::str_eq(self.layers[i].name.as_str(), name) {
                proof {
                    assert(self.names()[i as int] == name@);
                    let c = self.name_index(name@);
                    assert(0 <= c < self.names().len() && self.names()[c] == name@);
                    lemma_unique_name_index(*self, c, i as int);
                }
                return Some(self.layers[i].source_path.clone());
            }
            i = i + 1;
        }
        proof {
            if self.contains_name(name@) {
                let w = choose|k: int| 0 <= k < self.names().len() && self.names()[k] == name@;
                assert(self.names()[w] == name@);
                assert(false);
            }
        }
        None
    }
}


/// Whether some pair carries the name.
pub open spec fn pairs_contain(ps: Seq<(Seq<char>, Seq<char>)>, n: Seq<char>) -> bool {
    exists|i: int| 0 <= i < ps.len() && ps[i].0 == n
}

/// The position of the pair carrying the name; meaningful only when one
/// does.
pub open spec fn pair_index(ps: Seq<(Seq<char>, Seq<char>)>, n: Seq<char>) -> int {
    choose|i: int| 0 <= i < ps.len() && ps[i].0 == n
}

/// One step of the discovery fold: what adding a named layer does to the
/// pairs held, under the policy.
pub open spec fn insert_pair_spec(
    ps: Seq<(Seq<char>, Seq<char>)>,
    n: Seq<char>,
    src: Seq<char>,
    policy: DuplicatePolicy,
) -> Result<Seq<(Seq<char>, Seq<char>)>, Seq<char>> {
    if !pairs_contain(ps, n) {
        Ok(ps.push((n, src)))
    } else {
        match policy {
            DuplicatePolicy::Reject => Err(n),
            DuplicatePolicy::KeepFirst => Ok(ps),
            DuplicatePolicy::KeepLast => Ok(ps.update(pair_index(ps, n), (n, src))),
        }
    }
}

/// The pairs that discovering the given entries in order produces on top
/// of `acc`: each entry contributes its stripped base name and its full
/// path, folded in with the policy; the first collision under `Reject`
/// stops the fold with the colliding name.
pub open spec fn collect_pairs_spec(
    layers_dir: Seq<char>,
    entries: Seq<Seq<char>>,
    policy: DuplicatePolicy,
    acc: Seq<(Seq<char>, Seq<char>)>,
) -> Result<Seq<(Seq<char>, Seq<char>)>, Seq<char>>
    decreases entries.len(),
{
    if entries.len() == 0 {
        Ok(acc)
    } else {
        match insert_pair_spec(
            acc,
            stem_spec(entries[0]),
            path_join_spec(layers_dir, entries[0]),
            policy,
        ) {
            Ok(ps) => collect_pairs_spec(layers_dir, entries.drop_first(), policy, ps),
            Err(n) => Err(n),
        }
    }
}

/// A name is carried by some pair exactly when the set holds it.
proof fn lemma_contains_iff(l: LayerSet, n: Seq<char>)
    ensures
        l.contains_name(n) <==> pairs_contain(l.pairs(), n),
{
    if l.contains_name(n) {
        let w = choose|i: int| 0 <= i < l.names().len() && l.names()[i] == n;
        assert(l.pairs()[w].0 == n);
        assert(pairs_contain(l.pairs(), n));
    }
    if pairs_contain(l.pairs(), n) {
        let w = choose|i: int| 0 <= i < l.pairs().len() && l.pairs()[i].0 == n;
        assert(l.names()[w] == n);
        assert(l.names().contains(n));
    }
}

/// Builds the layer set of one run from the names listed in the source
/// directory: each entry becomes a layer via `layer_from_entry`, folded in
/// under the policy. Fails exactly where the fold does: on the first
/// duplicate name under `Reject`, reporting that name.
pub fn collect_layers(layers_dir: &str, entry_names: &Vec<String>, policy: DuplicatePolicy) -> (r:
    Result<LayerSet, DuplicateName>)
    ensures
        (r matches Ok(l) ==> l.wf() && (collect_pairs_spec(
            layers_dir@,
            crate::order::views_of(entry_names@),
            policy,
            Seq::empty(),
        ) matches Ok(ps) && ps == l.pairs())),
        (r matches Err(e) ==> (collect_pairs_spec(
            layers_dir@,
            crate::order::views_of(entry_names@),
            policy,
            Seq::empty(),
        ) matches Err(n) && n == e.name@)),
{
    let ghost entries = crate::order::views_of(entry_names@);
    let mut set = LayerSet::new();
    let n = entry_names.len();
    let mut i: usize = 0;
    proof {
        assert(entries.skip(0) =~= entries);
    }
    while i < n
        invariant
            i <= n,
            n == entry_names.len(),
            entries == crate::order::views_of(entry_names@),
            set.wf(),
            collect_pairs_spec(layers_dir@, entries, policy, Seq::empty()) == collect_pairs_spec(
                layers_dir@,
                entries.skip(i as int),
                policy,
                set.pairs(),
            ),
        decreases n - i,
    {
        let layer = layer_from_entry(layers_dir, entry_names[i].as_str());
        let ghost lname = layer.name@;
        let ghost lsrc = layer.source_path@;
        let ghost old_set = set;
        proof {
            assert(entries.skip(i as int)[0] == entry_names@[i as int]@);
            assert(entries.skip(i as int).drop_first() =~= entries.skip(i as int + 1));
            lemma_contains_iff(old_set, lname);
        }
        match set.insert(layer, policy) {
            Ok(u) => {
                proof {
                    let step = insert_pair_spec(old_set.pairs(), lname, lsrc, policy);
                    if old_set.contains_name(lname) {
                        match policy {
                            DuplicatePolicy::Reject => {
                                assert(false);
                            },
                            DuplicatePolicy::KeepFirst => {
                                assert(step == Ok::<_, Seq<char>>(set.pairs()));
                            },
                            DuplicatePolicy::KeepLast => {
                                let c1 = old_set.name_index(lname);
                                let c2 = pair_index(old_set.pairs(), lname);
                                assert(old_set.names().contains(lname));
                                assert(0 <= c1 < old_set.names().len() && old_set.names()[c1]
                                    == lname);
                                assert(0 <= c2 < old_set.pairs().len() && old_set.pairs()[c2].0
                                    == lname);
                                assert(old_set.names()[c2] == lname);
                                lemma_unique_name_index(old_set, c1, c2);
                                assert(step == Ok::<_, Seq<char>>(set.pairs()));
                            },
                        }
                    } else {
                        assert(step == Ok::<_, Seq<char>>(set.pairs()));
                    }
                }
            },
            Err(e) => {
                proof {
                    let step = insert_pair_spec(old_set.pairs(), lname, lsrc, policy);
                    assert(step == Err::<Seq<(Seq<char>, Seq<char>)>, _>(lname));
                    assert(collect_pairs_spec(layers_dir@, entries.skip(i as int), policy,
                        old_set.pairs()) == Err::<Seq<(Seq<char>, Seq<char>)>, _>(e.name@));
                }
                return Err(e);
            },
        }
        i = i + 1;
    }
    proof {
        assert(entries.skip(n as int) =~= Seq::<Seq<char>>::empty());
    }
    Ok(set)
}

} // verus!
