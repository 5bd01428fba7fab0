//! The registry of pieces a graph may place, keyed by piece id.

use vstd::prelude::*;

use crate::collections::{SortedMap, SortedSet};
use crate::piece::{def_same, PieceDef};
use crate::text::{strictly_sorted, Name};
use crate::types::PieceSemanticKind;

verus! {

/// The piece definitions a graph can use, in id order.
#[derive(Debug)]
pub struct PieceRegistry {
    pieces: SortedMap<Name, PieceDef>,
}

/// The piece is shown to users of `namespace`: core pieces and tricks always,
/// others only in their own namespace.
pub open spec fn visible_in(d: PieceDef, namespace: Seq<char>) -> bool {
    d.namespace@ == "core"@ || d.namespace@ == namespace || d.semantic_kind == PieceSemanticKind::Trick
}

impl PieceRegistry {
    /// The registered definitions by piece id.
    pub closed spec fn defs(self) -> Map<Seq<char>, PieceDef> {
        self.pieces.as_map()
    }

    /// The registered definitions in id order.
    pub closed spec fn defs_in_order(self) -> Seq<PieceDef> {
        self.pieces.value_seq()
    }

    pub fn new() -> (r: Self)
        ensures
            r.defs() == Map::<Seq<char>, PieceDef>::empty(),
            r.defs_in_order().len() == 0,
    {
        PieceRegistry { pieces: SortedMap::new() }
    }

    /// Registers `def` under its id, replacing an earlier piece of that id.
    pub fn register(&mut self, def: PieceDef)
        ensures
            final(self).defs() == old(self).defs().insert(def.id@, def),
    {
        let id = Name(def.id.clone());
        self.pieces.insert(id, def);
    }

    /// The definition registered as `id`.
    pub fn get(&self, id: &str) -> (r: Option<&PieceDef>)
        ensures
            match r {
                Some(d) => self.defs().contains_key(id@) && *d == self.defs()[id@],
                None => !self.defs().contains_key(id@),
            },
    {
        let key = Name::new(id);
        self.pieces.get(&key)
    }

    /// Registers `def` under `id`, which need not be the definition's own
    /// id, replacing an earlier entry under `id`.
    pub fn register_arc(&mut self, id: String, def: PieceDef)
        ensures
            final(self).defs() == old(self).defs().insert(id@, def),
    {
        self.pieces.insert(Name(id), def);
    }

    /// The piece ids that more than one registered definition carries.
    pub open spec fn duplicate_ids(self) -> Set<Seq<char>> {
        Set::new(
            |d: Seq<char>|
                exists|i: int, j: int|
                    0 <= i < j < self.defs_in_order().len() && #[trigger] self.defs_in_order()[i].id@ == d
                        && #[trigger] self.defs_in_order()[j].id@ == d,
        )
    }

    /// The number of registered definitions.
    pub(crate) fn len(&self) -> (r: usize)
        ensures
            r == self.defs_in_order().len(),
    {
        self.pieces.len()
    }

    /// The `i`-th registered definition in id order.
    pub(crate) fn def_at(&self, i: usize) -> (r: &PieceDef)
        requires
            i < self.defs_in_order().len(),
        ensures
            *r == self.defs_in_order()[i as int],
    {
        let n = self.pieces.len();
        self.pieces.value_at(i)
    }

    /// The piece ids that more than one registered definition carries, each
    /// once, in increasing order.
    pub fn duplicate_piece_ids(&self) -> (r: Vec<String>)
        ensures
            strictly_sorted(r@.map_values(|s: String| s@)),
            r@.map_values(|s: String| s@).to_set() == self.duplicate_ids(),
    {
        let ghost defs = self.defs_in_order();
        let n = self.len();
        let mut seen: SortedSet<Name> = SortedSet::new();
        let mut dups: SortedSet<Name> = SortedSet::new();
        let mut i: usize = 0;
        while i < n
            invariant
                defs == self.defs_in_order(),
                n == defs.len(),
                i <= n,
                forall|d: Seq<char>|
                    #[trigger] seen.set_view().contains(d) == exists|k: int| 0 <= k < i && #[trigger] defs[k].id@ == d,
                forall|d: Seq<char>|
                    #[trigger] dups.set_view().contains(d) == exists|a: int, b: int|
                        0 <= a < b < i && #[trigger] defs[a].id@ == d && #[trigger] defs[b].id@ == d,
            decreases n - i,
        {
            let d = self.def_at(i);
            let name = Name::new(d.id.as_str());
            let ghost di = defs[i as int].id@;
            let already = seen.contains(&name);
            if already {
                dups.insert(name);
            } else {
                seen.insert(name);
            }
            proof {
                assert forall|x: Seq<char>|
                    #[trigger] seen.set_view().contains(x) == exists|k: int| 0 <= k < i + 1 && #[trigger] defs[k].id@ == x by {
                    if x == di {
                        assert(defs[i as int].id@ == x);
                    }
                }
                assert forall|x: Seq<char>|
                    #[trigger] dups.set_view().contains(x) == exists|a: int, b: int|
                        0 <= a < b < i + 1 && #[trigger] defs[a].id@ == x && #[trigger] defs[b].id@ == x by {
                    if exists|a: int, b: int| 0 <= a < b < i + 1 && #[trigger] defs[a].id@ == x && #[trigger] defs[b].id@ == x {
                        let (a, b) = choose|a: int, b: int|
                            0 <= a < b < i + 1 && #[trigger] defs[a].id@ == x && #[trigger] defs[b].id@ == x;
                        if b == i {
                            assert(x == di);
                            assert(defs[a].id@ == x);
                            assert(exists|k: int| 0 <= k < i && #[trigger] defs[k].id@ == x);
                        }
                    }
                    if x == di && already {
                        let k = choose|k: int| 0 <= k < i && #[trigger] defs[k].id@ == x;
                        assert(defs[k].id@ == x && defs[i as int].id@ == x);
                    }
                }
            }
            i = i + 1;
        }
        let m = dups.len();
        let ghost names = dups.elems();
        let mut out: Vec<String> = Vec::new();
        let mut t: usize = 0;
        while t < m
            invariant
                m == names.len(),
                names == dups.elems(),
                t <= m,
                out@.map_values(|s: String| s@) == names.take(t as int),
            decreases m - t,
        {
            let ghost before = out@;
            let name = dups.elem_at(t);
            let text = name.0.clone();
            proof {
                assert(text@ == names[t as int]);
            }
            out.push(text);
            proof {
                assert(out@.map_values(|s: String| s@) =~= before.map_values(|s: String| s@).push(text@));
                assert(names.take(t + 1) =~= names.take(t as int).push(names[t as int]));
            }
            t = t + 1;
        }
        proof {
            assert(names.take(m as int) =~= names);
            assert(names.to_set() =~= self.duplicate_ids()) by {
                assert forall|x: Seq<char>| #[trigger] names.to_set().contains(x) implies self.duplicate_ids().contains(x) by {
                    let k = choose|k: int| 0 <= k < names.len() && names[k] == x;
                    assert(dups.set_view().contains(names[k]));
                }
                assert forall|x: Seq<char>| #[trigger] self.duplicate_ids().contains(x) implies names.to_set().contains(x) by {
                    assert(dups.set_view().contains(x));
                    let k = choose|k: int| 0 <= k < names.len() && names[k] == x;
                    assert(names.contains(x));
                }
            }
        }
        out
    }

    /// Every registered definition, in id order.
    pub fn all_defs(&self) -> (r: Vec<PieceDef>)
        ensures
            r@.len() == self.defs_in_order().len(),
            forall|i: int| 0 <= i < r@.len() ==> def_same(#[trigger] r@[i], self.defs_in_order()[i]),
    {
        let n = self.pieces.len();
        let mut out: Vec<PieceDef> = Vec::new();
        let mut i: usize = 0;
        while i < n
            invariant
                n == self.defs_in_order().len(),
                n == self.pieces.key_seq().len(),
                i <= n,
                out@.len() == i,
                forall|j: int| 0 <= j < i ==> def_same(#[trigger] out@[j], self.defs_in_order()[j]),
            decreases n - i,
        {
            out.push(self.pieces.value_at(i).clone());
            i = i + 1;
        }
        out
    }

    /// The definitions visible in `namespace`, in id order.
    pub fn visible_defs(&self, namespace: &str) -> (r: Vec<PieceDef>)
        ensures
            r@.len() == self.defs_in_order().filter(|d: PieceDef| visible_in(d, namespace@)).len(),
            forall|i: int|
                0 <= i < r@.len() ==> def_same(
                    #[trigger] r@[i],
                    self.defs_in_order().filter(|d: PieceDef| visible_in(d, namespace@))[i],
                ),
    {
        let ghost all = self.defs_in_order();
        let ghost pred = |d: PieceDef| visible_in(d, namespace@);
        let n = self.pieces.len();
        let mut out: Vec<PieceDef> = Vec::new();
        let mut i: usize = 0;
        while i < n
            invariant
                all == self.defs_in_order(),
                pred == (|d: PieceDef| visible_in(d, namespace@)),
                n == all.len(),
                n == self.pieces.key_seq().len(),
                i <= n,
                out@.len() == all.take(i as int).filter(pred).len(),
                forall|j: int|
                    0 <= j < out@.len() ==> def_same(#[trigger] out@[j], all.take(i as int).filter(pred)[j]),
            decreases n - i,
        {
            proof {
                assert(all.take(i + 1).drop_last() =~= all.take(i as int));
                assert(all.take(i + 1).last() == all[i as int]);
                reveal_with_fuel(Seq::filter, 1);
            }
            let def = self.pieces.value_at(i);
            if def.is_visible_in_namespace(namespace) {
                out.push(def.clone());
            }
            i = i + 1;
        }
        proof {
            assert(all.take(n as int) =~= all);
        }
        out
    }
}

} // verus!
