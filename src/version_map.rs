//! Maps a sequence of root versions to per-type versions, and keeps a
//! registry of named compatibility versions.
use vstd::prelude::*;

use crate::semver_codec::{semver_parse_of, semver_text, SemVersion, SemVersionModel};
use crate::{VersionizeError, VersionizeResult};

verus! {

/// An override as the map records it: the root version it was set at, the
/// type's identity and the type's version from that root on.
pub type TypeOverride = (u16, u64, u16);

/// The version of type `t` at root `root` under the overrides of `log`:
/// the latest override for `t` recorded at a root no later than `root`, or 1
/// where there is none.
pub open spec fn resolve_in(log: Seq<TypeOverride>, root: int, t: u64) -> u16
    decreases log.len(),
{
    if log.len() == 0 {
        1
    } else if log.last().0 as int <= root && log.last().1 == t {
        log.last().2
    } else {
        resolve_in(log.drop_last(), root, t)
    }
}

/// Whether `log` records an override for `t` at a root in `lo..=hi`.
pub open spec fn overridden_within(log: Seq<TypeOverride>, t: u64, lo: int, hi: int) -> bool {
    exists|i: int| 0 <= i < log.len() && log[i].1 == t && lo <= log[i].0 as int <= hi
}

/// Whether `text` parses to a release version: one without pre-release or
/// build metadata.
pub open spec fn parses_to_release(text: Seq<char>) -> bool {
    semver_parse_of(text) is Some && semver_parse_of(text)->Some_0.3.len() == 0
        && semver_parse_of(text)->Some_0.4.len() == 0
}

/// The version registered for `name` in `entries`: the latest entry for it.
pub open spec fn compat_lookup(entries: Seq<(Seq<char>, SemVersionModel)>, name: Seq<char>) -> Option<
    SemVersionModel,
>
    decreases entries.len(),
{
    if entries.len() == 0 {
        None
    } else if entries.last().0 == name {
        Some(entries.last().1)
    } else {
        compat_lookup(entries.drop_last(), name)
    }
}

/// Resolves root versions to the versions of individual types, and keeps the
/// versions registered for named components.
#[derive(Debug, Clone)]
pub struct VersionMap {
    latest: u16,
    overrides: Vec<TypeOverride>,
    crates: Vec<(String, SemVersion)>,
}

impl Default for VersionMap {
    fn default() -> (r: VersionMap)
        ensures
            r.wf(),
            r.latest_spec() == 1,
            r.log() == Seq::<TypeOverride>::empty(),
            r.crates_view() == Seq::<(Seq<char>, SemVersionModel)>::empty(),
    {
        VersionMap::new()
    }
}

impl VersionMap {
    /// The number of root versions created so far.
    pub closed spec fn latest_spec(&self) -> u16 {
        self.latest
    }

    /// Every override set so far, in the order they were set.
    pub closed spec fn log(&self) -> Seq<TypeOverride> {
        self.overrides@
    }

    /// Every registration so far, in the order it was made.
    pub closed spec fn crates_view(&self) -> Seq<(Seq<char>, SemVersionModel)> {
        self.crates@.map_values(|e: (String, SemVersion)| (e.0@, e.1@))
    }

    /// The map is well formed: there is a first root, and overrides stand at
    /// existing roots, in the order of their roots.
    pub closed spec fn wf(&self) -> bool {
        &&& self.latest >= 1
        &&& forall|i: int| 0 <= i < self.overrides@.len() ==> 1 <= #[trigger] self.overrides@[i].0 <= self.latest
        &&& forall|i: int, j: int|
            0 <= i < j < self.overrides@.len() ==> #[trigger] self.overrides@[i].0 <= #[trigger] self.overrides@[j].0
    }

    /// The version of type `t` at root `root`.
    pub open spec fn resolve(&self, root: int, t: u64) -> u16 {
        resolve_in(self.log(), root, t)
    }

    /// The version registered for `name`, if any.
    pub open spec fn compat(&self, name: Seq<char>) -> Option<SemVersionModel> {
        compat_lookup(self.crates_view(), name)
    }

    /// A new version map with a single root version and no overrides.
    pub fn new() -> (r: VersionMap)
        ensures
            r.wf(),
            r.latest_spec() == 1,
            r.log() == Seq::<TypeOverride>::empty(),
            r.crates_view() == Seq::<(Seq<char>, SemVersionModel)>::empty(),
    {
        let r = VersionMap { latest: 1, overrides: Vec::new(), crates: Vec::new() };
        assert(r.crates_view() =~= Seq::<(Seq<char>, SemVersionModel)>::empty());
        r
    }

    /// The latest root version.
    pub fn latest_version(&self) -> (r: u16)
        ensures
            r == self.latest_spec(),
    {
        self.latest
    }

    /// Starts a new root version, which inherits every type version of the
    /// previous one until overridden.
    pub fn new_version(&mut self)
        requires
            old(self).wf(),
            old(self).latest_spec() < u16::MAX,
        ensures
            final(self).wf(),
            final(self).latest_spec() == old(self).latest_spec() + 1,
            final(self).log() == old(self).log(),
            final(self).crates_view() == old(self).crates_view(),
            forall|t: u64|
                #![trigger final(self).resolve(final(self).latest_spec() as int, t)]
                final(self).resolve(final(self).latest_spec() as int, t) == old(self).resolve(
                    old(self).latest_spec() as int,
                    t,
                ),
    {
        self.latest = self.latest + 1;
        proof {
            let l = old(self).latest as int;
            assert forall|t: u64|
                #![trigger self.resolve(self.latest as int, t)]
                self.resolve(self.latest as int, t) == old(self).resolve(l, t) by {
                assert(!overridden_within(self.overrides@, t, l + 1, l + 1));
                lemma_resolve_unchanged(self.overrides@, t, l, l + 1);
            }
        }
    }

    /// Sets the version of type `type_id` from the latest root version on.
    pub fn set_type_version(&mut self, type_id: u64, version: u16)
        requires
            old(self).wf(),
        ensures
            final(self).wf(),
            final(self).latest_spec() == old(self).latest_spec(),
            final(self).log() == old(self).log().push((old(self).latest_spec(), type_id, version)),
            final(self).crates_view() == old(self).crates_view(),
            final(self).resolve(old(self).latest_spec() as int, type_id) == version,
            forall|root: int, t: u64|
                #![trigger final(self).resolve(root, t)]
                (root < old(self).latest_spec() || t != type_id) ==> final(self).resolve(root, t)
                    == old(self).resolve(root, t),
    {
        self.overrides.push((self.latest, type_id, version));
        proof {
            let e = (old(self).latest, type_id, version);
            assert(self.overrides@.drop_last() =~= old(self).overrides@);
            assert(self.overrides@.last() == e);
        }
    }

    /// The version of type `type_id` at root version `root`.
    pub fn get_type_version(&self, root: u16, type_id: u64) -> (r: u16)
        requires
            self.wf(),
            root <= self.latest_spec(),
        ensures
            r == self.resolve(root as int, type_id),
    {
        let mut i: usize = self.overrides.len();
        assert(self.overrides@.take(i as int) =~= self.overrides@);
        while i > 0
            invariant
                i <= self.overrides@.len(),
                resolve_in(self.overrides@.take(i as int), root as int, type_id) == self.resolve(
                    root as int,
                    type_id,
                ),
            decreases i,
        {
            let e = self.overrides[i - 1];
            assert(self.overrides@.take(i as int).drop_last() =~= self.overrides@.take(i - 1));
            if e.0 <= root && e.1 == type_id {
                return e.2;
            }
            i = i - 1;
        }
        1
    }

    /// The index of the latest registration of `name`.
    fn find_crate(&self, name: &str) -> (r: Option<usize>)
        ensures
            match r {
                Some(i) => i < self.crates@.len() && self.compat(name@) == Some(
                    self.crates_view()[i as int].1,
                ) && self.crates_view()[i as int].1 == self.crates@[i as int].1@,
                None => self.compat(name@) is None,
            },
    {
        let key = name.to_owned();
        let mut i: usize = self.crates.len();
        assert(self.crates_view().take(i as int) =~= self.crates_view());
        while i > 0
            invariant
                i <= self.crates@.len(),
                key@ == name@,
                compat_lookup(self.crates_view().take(i as int), name@) == self.compat(name@),
            decreases i,
        {
            assert(self.crates_view().take(i as int).drop_last() =~= self.crates_view().take(
                i - 1,
            ));
            if self.crates[i - 1].0 == key {
                return Some(i - 1);
            }
            i = i - 1;
        }
        None
    }

    /// The version registered for `name`; `NotFoundName` where there is none.
    pub fn get_crate_version(&self, name: &str) -> (r: VersionizeResult<SemVersion>)
        ensures
            match self.compat(name@) {
                Some(v) => r is Ok && r->Ok_0@ == v,
                None => (r matches Err(VersionizeError::NotFoundName(n)) && n@ == name@),
            },
    {
        match self.find_crate(name) {
            Some(i) => Ok(self.crates[i].1.duplicate()),
            None => Err(VersionizeError::NotFoundName(name.to_owned())),
        }
    }

    /// Parses `ver` and registers it for `name`. A name keeps the version it
    /// was first given: registering the same version again changes nothing,
    /// another one fails with `MultipleVersion`. A text that is not a release
    /// semantic version (one with pre-release or build metadata, or not a
    /// semantic version at all) fails with `ParseVersion`.
    pub fn set_crate_version(&mut self, name: &str, ver: &str) -> (r: VersionizeResult<SemVersion>)
        requires
            old(self).wf(),
        ensures
            final(self).wf(),
            final(self).latest_spec() == old(self).latest_spec(),
            final(self).log() == old(self).log(),
            !parses_to_release(ver@) ==> (r matches Err(VersionizeError::ParseVersion(t, _))
                && t@ == ver@),
            !parses_to_release(ver@) ==> final(self).crates_view() == old(self).crates_view(),
            parses_to_release(ver@) ==> match old(self).compat(name@) {
                None => r is Ok && r->Ok_0@ == semver_parse_of(ver@)->Some_0
                    && final(self).crates_view() == old(self).crates_view().push(
                    (name@, semver_parse_of(ver@)->Some_0),
                ),
                Some(e) => final(self).crates_view() == old(self).crates_view() && if e
                    == semver_parse_of(ver@)->Some_0 {
                    r is Ok && r->Ok_0@ == e
                } else {
                    (r matches Err(VersionizeError::MultipleVersion(n, t, given)) && n@ == name@
                        && t@ == semver_text(e) && given@ == ver@)
                },
            },
    {
        let sem_ver = match SemVersion::parse(ver) {
            Ok(v) => v,
            Err(e) => {
                return Err(e);
            },
        };
        if !sem_ver.pre.as_str().is_empty() || !sem_ver.build.as_str().is_empty() {
            return Err(
                VersionizeError::ParseVersion(
                    ver.to_owned(),
                    String::from_str("pre-release and build metadata are not accepted"),
                ),
            );
        }
        match self.find_crate(name) {
            Some(i) => {
                let exist = &self.crates[i].1;
                if !exist.same_as(&sem_ver) {
                    return Err(
                        VersionizeError::MultipleVersion(name.to_owned(), exist.text(), ver.to_owned()),
                    );
                }
                Ok(sem_ver)
            },
            None => {
                let kept = sem_ver.duplicate();
                self.crates.push((name.to_owned(), kept));
                assert(self.crates_view() =~= old(self).crates_view().push((name@, sem_ver@)));
                Ok(sem_ver)
            },
        }
    }
}

/// Under any log of overrides, a type resolves to the same version at root
/// `r1` and at a later root `r2` when no override for it stands at a root
/// after `r1`, up to and including `r2`.
pub proof fn lemma_resolve_unchanged(log: Seq<TypeOverride>, t: u64, r1: int, r2: int)
    requires
        r1 < r2,
        !overridden_within(log, t, r1 + 1, r2),
    ensures
        resolve_in(log, r1, t) == resolve_in(log, r2, t),
    decreases log.len(),
{
    if log.len() > 0 {
        let e = log.last();
        assert(log[log.len() - 1] == e);
        assert(!overridden_within(log.drop_last(), t, r1 + 1, r2)) by {
            if overridden_within(log.drop_last(), t, r1 + 1, r2) {
                let i = choose|i: int|
                    0 <= i < log.drop_last().len() && log.drop_last()[i].1 == t && r1 + 1
                        <= log.drop_last()[i].0 as int <= r2;
                assert(log[i] == log.drop_last()[i]);
            }
        }
        lemma_resolve_unchanged(log.drop_last(), t, r1, r2);
    }
}

/// Resolution is monotonic: between two roots of a map, a type keeps its
/// version unless it is overridden after the first root, up to and including
/// the second.
pub proof fn lemma_monotonic_resolution(m: VersionMap, t: u64, r1: int, r2: int)
    requires
        m.wf(),
        1 <= r1 < r2 <= m.latest_spec(),
        !overridden_within(m.log(), t, r1 + 1, r2),
    ensures
        m.resolve(r1, t) == m.resolve(r2, t),
{
    lemma_resolve_unchanged(m.log(), t, r1, r2);
}

/// Setting an override or starting a root never changes how an earlier root
/// resolves: the history of a map is append-only.
pub proof fn lemma_append_only(log: Seq<TypeOverride>, e: TypeOverride, root: int, t: u64)
    requires
        root < e.0,
    ensures
        resolve_in(log.push(e), root, t) == resolve_in(log, root, t),
{
    assert(log.push(e).drop_last() =~= log);
}

} // verus!
