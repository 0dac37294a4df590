//! Sequences of versioned elements: a length, then each element written for
//! the same root version under the same map.
use vstd::prelude::*;

use crate::primitives::{le_bytes, lemma_u64_round_trip, prefix_of, read_u64, write_u64, LEN_PREFIX, MAX_VEC_LEN};
use crate::version_map::VersionMap;
use crate::versionize::{pair_id, pair_identity, Versionize};
use crate::{VersionizeError, VersionizeResult};

verus! {

/// The identity that no type has, which marks a sequence's identity.
pub const SEQUENCE_MARK: u64 = 9;

/// A sequence of versioned elements.
#[derive(Debug, PartialEq, Eq, Clone)]
pub struct VersionedVec<T> {
    pub items: Vec<T>,
}

impl<T: View> View for VersionedVec<T> {
    type V = Seq<T::V>;

    open spec fn view(&self) -> Seq<T::V> {
        self.items@.map_values(|x: T| x@)
    }
}

/// The elements of `s`, each written for `root`, one after the other;
/// `None` where one cannot be written.
pub open spec fn elems_wire<T: Versionize>(s: Seq<T::V>, vm: VersionMap, root: u16) -> Option<
    Seq<u8>,
>
    decreases s.len(),
{
    if s.len() == 0 {
        Some(Seq::<u8>::empty())
    } else {
        match (elems_wire::<T>(s.drop_last(), vm, root), T::wire(s.last(), vm, root)) {
            (Some(x), Some(y)) => Some(x + y),
            _ => None,
        }
    }
}

/// The first `k` elements read one after the other from the start of `b`,
/// with the number of bytes they take; `None` where one cannot be read.
pub open spec fn elems_read<T: Versionize>(b: Seq<u8>, k: nat, vm: VersionMap, root: u16) -> Option<
    (Seq<T::V>, nat),
>
    decreases k,
{
    if k == 0 {
        Some((Seq::<T::V>::empty(), 0))
    } else {
        match elems_read::<T>(b, (k - 1) as nat, vm, root) {
            Some((s, n)) => match T::read(b.skip(n as int), vm, root) {
                Some((v, m)) => Some((s.push(v), n + m)),
                None => None,
            },
            None => None,
        }
    }
}

proof fn lemma_elems_read_within<T: Versionize>(b: Seq<u8>, k: nat, vm: VersionMap, root: u16)
    requires
        elems_read::<T>(b, k, vm, root) is Some,
    ensures
        elems_read::<T>(b, k, vm, root)->Some_0.1 <= b.len(),
    decreases k,
{
    if k > 0 {
        lemma_elems_read_within::<T>(b, (k - 1) as nat, vm, root);
        let n = elems_read::<T>(b, (k - 1) as nat, vm, root)->Some_0.1;
        T::lemma_read_within(b.skip(n as int), vm, root);
    }
}

proof fn lemma_elems_read_none<T: Versionize>(b: Seq<u8>, i: nat, k: nat, vm: VersionMap, root: u16)
    requires
        i <= k,
        elems_read::<T>(b, i, vm, root) is None,
    ensures
        elems_read::<T>(b, k, vm, root) is None,
    decreases k - i,
{
    if i < k {
        lemma_elems_read_none::<T>(b, i, (k - 1) as nat, vm, root);
    }
}

proof fn lemma_elems_round_trip<T: Versionize>(s: Seq<T::V>, vm: VersionMap, root: u16, rest: Seq<u8>)
    requires
        vm.wf(),
        root <= vm.latest_spec(),
        elems_wire::<T>(s, vm, root) is Some,
    ensures
        elems_read::<T>(elems_wire::<T>(s, vm, root)->Some_0 + rest, s.len(), vm, root) == Some(
            (
                s.map_values(|v: T::V| T::at_root(v, vm, root)),
                elems_wire::<T>(s, vm, root)->Some_0.len(),
            ),
        ),
    decreases s.len(),
{
    if s.len() == 0 {
        assert(s.map_values(|v: T::V| T::at_root(v, vm, root)) =~= Seq::<T::V>::empty());
    } else {
        let x = elems_wire::<T>(s.drop_last(), vm, root)->Some_0;
        let y = T::wire(s.last(), vm, root)->Some_0;
        lemma_elems_round_trip::<T>(s.drop_last(), vm, root, y + rest);
        T::lemma_round_trip(s.last(), vm, root, rest);
        assert(x + y + rest =~= x + (y + rest));
        assert((x + (y + rest)).skip(x.len() as int) =~= y + rest);
        assert(s.drop_last().map_values(|v: T::V| T::at_root(v, vm, root)).push(
            T::at_root(s.last(), vm, root),
        ) =~= s.map_values(|v: T::V| T::at_root(v, vm, root)));
    }
}

proof fn lemma_elems_wire_none<T: Versionize>(s: Seq<T::V>, j: int, k: int, vm: VersionMap, root: u16)
    requires
        0 <= j <= k <= s.len(),
        elems_wire::<T>(s.take(j), vm, root) is None,
    ensures
        elems_wire::<T>(s.take(k), vm, root) is None,
    decreases k - j,
{
    if j < k {
        lemma_elems_wire_none::<T>(s, j, k - 1, vm, root);
        assert(s.take(k).drop_last() =~= s.take(k - 1));
    }
}

proof fn lemma_elems_wire_step<T: Versionize>(s: Seq<T::V>, i: int, vm: VersionMap, root: u16)
    requires
        0 <= i < s.len(),
    ensures
        s.take(i + 1).drop_last() == s.take(i),
        s.take(i + 1).last() == s[i],
{
    assert(s.take(i + 1).drop_last() =~= s.take(i));
}

impl<T: Versionize> Versionize for VersionedVec<T> {
    open spec fn wire(v: Self::V, vm: VersionMap, root: u16) -> Option<Seq<u8>> {
        if v.len() <= MAX_VEC_LEN && elems_wire::<T>(v, vm, root) is Some {
            Some(le_bytes(v.len(), 8) + elems_wire::<T>(v, vm, root)->Some_0)
        } else {
            None
        }
    }

    open spec fn read(b: Seq<u8>, vm: VersionMap, root: u16) -> Option<(Self::V, nat)> {
        if b.len() >= LEN_PREFIX && prefix_of(b) <= MAX_VEC_LEN && elems_read::<T>(
            b.skip(LEN_PREFIX as int),
            prefix_of(b),
            vm,
            root,
        ) is Some {
            let p = elems_read::<T>(b.skip(LEN_PREFIX as int), prefix_of(b), vm, root)->Some_0;
            Some((p.0, (LEN_PREFIX + p.1) as nat))
        } else {
            None
        }
    }

    open spec fn failure(v: Self::V, vm: VersionMap, root: u16, e: VersionizeError, written: Seq<
        u8,
    >) -> bool {
        if v.len() > MAX_VEC_LEN {
            e == VersionizeError::VecLength(v.len() as usize) && written.len() == 0
        } else {
            exists|i: int|
                0 <= i < v.len() && #[trigger] elems_wire::<T>(v.take(i), vm, root) is Some
                    && T::wire(v[i], vm, root) is None && {
                    let w = le_bytes(v.len(), 8) + elems_wire::<T>(v.take(i), vm, root)->Some_0;
                    &&& written.len() >= w.len()
                    &&& written.take(w.len() as int) == w
                    &&& T::failure(v[i], vm, root, e, written.skip(w.len() as int))
                }
        }
    }

    open spec fn at_root(v: Self::V, vm: VersionMap, root: u16) -> Self::V {
        v.map_values(|x: T::V| T::at_root(x, vm, root))
    }

    fn serialize(&self, writer: &mut Vec<u8>, version_map: &VersionMap, target_version: u16) -> (r:
        VersionizeResult<()>) {
        let n = self.items.len();
        if n > MAX_VEC_LEN {
            proof {
                assert(writer@.skip(old(writer)@.len() as int) =~= Seq::<u8>::empty());
            }
            return Err(VersionizeError::VecLength(n));
        }
        let ghost start = writer@;
        write_u64(writer, n as u64);
        let ghost head = writer@;
        let mut i: usize = 0;
        assert(self@.take(0) =~= Seq::<T::V>::empty());
        assert(head =~= start + le_bytes(n as nat, 8) + elems_wire::<T>(self@.take(0), *version_map, target_version)->Some_0);
        while i < n
            invariant
                i <= n,
                n == self.items@.len(),
                n <= MAX_VEC_LEN,
                start == old(writer)@,
                version_map.wf(),
                target_version <= version_map.latest_spec(),
                elems_wire::<T>(self@.take(i as int), *version_map, target_version) is Some,
                writer@ == start + le_bytes(n as nat, 8) + elems_wire::<T>(
                    self@.take(i as int),
                    *version_map,
                    target_version,
                )->Some_0,
            decreases n - i,
        {
            let ghost before = writer@;
            proof {
                lemma_elems_wire_step::<T>(self@, i as int, *version_map, target_version);
                assert(self@[i as int] == self.items@[i as int]@);
            }
            match self.items[i].serialize(writer, version_map, target_version) {
                Ok(()) => {},
                Err(e) => {
                    proof {
                        let w = le_bytes(n as nat, 8) + elems_wire::<T>(
                            self@.take(i as int),
                            *version_map,
                            target_version,
                        )->Some_0;
                        let written = writer@.skip(start.len() as int);
                        assert(before.is_prefix_of(writer@));
                        assert(before == start + w);
                        assert forall|j: int| 0 <= j < w.len() implies written[j] == w[j] by {
                            assert(written[j] == writer@[start.len() + j]);
                            assert(writer@[start.len() + j] == before[start.len() + j]);
                        }
                        assert(written.take(w.len() as int) =~= w);
                        assert(written.skip(w.len() as int) =~= writer@.skip(before.len() as int));
                        assert(start.is_prefix_of(writer@)) by {
                            assert forall|j: int| 0 <= j < start.len() implies start[j]
                                == writer@[j] by {
                                assert(start[j] == before[j]);
                            }
                        }
                        assert(T::wire(self@[i as int], *version_map, target_version) is None);
                        lemma_elems_wire_none::<T>(
                            self@,
                            i + 1,
                            n as int,
                            *version_map,
                            target_version,
                        );
                        assert(self@.take(n as int) =~= self@);
                    }
                    return Err(e);
                },
            }
            proof {
                assert(writer@ =~= start + le_bytes(n as nat, 8) + elems_wire::<T>(
                    self@.take(i + 1),
                    *version_map,
                    target_version,
                )->Some_0);
            }
            i = i + 1;
        }
        assert(self@.take(n as int) =~= self@);
        Ok(())
    }

    fn deserialize(reader: &[u8], version_map: &VersionMap, source_version: u16) -> (r:
        VersionizeResult<(Self, usize)>) {
        let len = match read_u64(reader) {
            Some(n) => n,
            None => {
                return Err(VersionizeError::Deserialize(String::from_str("sequence length cut short")));
            },
        };
        if len > MAX_VEC_LEN as u64 {
            return Err(VersionizeError::VecLength(len as usize));
        }
        let body = &reader[LEN_PREFIX..reader.len()];
        assert(body@ =~= reader@.skip(LEN_PREFIX as int));
        let mut items: Vec<T> = Vec::new();
        let mut pos: usize = 0;
        let mut i: u64 = 0;
        assert(items@.map_values(|x: T| x@) =~= Seq::<T::V>::empty());
        while i < len
            invariant
                i <= len,
                len as nat == prefix_of(reader@),
                body@ == reader@.skip(LEN_PREFIX as int),
                version_map.wf(),
                source_version <= version_map.latest_spec(),
                elems_read::<T>(body@, i as nat, *version_map, source_version) is Some,
                items@.map_values(|x: T| x@) == elems_read::<T>(
                    body@,
                    i as nat,
                    *version_map,
                    source_version,
                )->Some_0.0,
                pos == elems_read::<T>(body@, i as nat, *version_map, source_version)->Some_0.1,
                pos <= body@.len(),
            decreases len - i,
        {
            let rest = &body[pos..body.len()];
            assert(rest@ =~= body@.skip(pos as int));
            match T::deserialize(rest, version_map, source_version) {
                Ok((v, m)) => {
                    let ghost old_items = items@;
                    items.push(v);
                    assert(items@.map_values(|x: T| x@) =~= old_items.map_values(|x: T| x@).push(
                        v@,
                    ));
                    pos = pos + m;
                },
                Err(e) => {
                    proof {
                        lemma_elems_read_none::<T>(
                            body@,
                            (i + 1) as nat,
                            len as nat,
                            *version_map,
                            source_version,
                        );
                    }
                    return Err(e);
                },
            }
            i = i + 1;
        }
        Ok((VersionedVec { items }, LEN_PREFIX + pos))
    }

    open spec fn identity() -> u64 {
        pair_identity(SEQUENCE_MARK, T::identity())
    }

    fn type_id() -> (r: u64) {
        pair_id(SEQUENCE_MARK, T::type_id())
    }

    open spec fn current_version() -> u16 {
        1
    }

    fn version() -> (r: u16) {
        1
    }

    proof fn lemma_read_within(b: Seq<u8>, vm: VersionMap, root: u16) {
        lemma_elems_read_within::<T>(b.skip(LEN_PREFIX as int), prefix_of(b), vm, root);
    }

    proof fn lemma_round_trip(v: Self::V, vm: VersionMap, root: u16, rest: Seq<u8>) {
        let x = elems_wire::<T>(v, vm, root)->Some_0;
        let b = le_bytes(v.len(), 8) + x + rest;
        assert(v.len() < 0x1_0000_0000_0000_0000) by {
            assert(MAX_VEC_LEN < 0x1_0000_0000_0000_0000);
        }
        lemma_u64_round_trip(v.len() as u64, x + rest);
        assert(le_bytes(v.len(), 8) + x + rest =~= le_bytes(v.len() as u64 as nat, 8) + (x + rest));
        assert(b.skip(LEN_PREFIX as int) =~= x + rest);
        lemma_elems_round_trip::<T>(v, vm, root, rest);
    }
}

} // verus!
