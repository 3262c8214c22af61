//! The query dispatcher, the lookup orchestrator and the resolution
//! policy: how the answers of many sources become one verdict.

use vstd::prelude::*;

use crate::cache::{spec_cache_after_get, spec_cache_get, cache_key, Cache};
use crate::sources::{Ecosystem, SourceInfo};
use crate::version::{is_newer, version_newer};

verus! {

/// The verdict on one package.
#[derive(Clone, Copy, Debug, PartialEq, Eq, Structural)]
pub enum Status {
    UpToDate,
    Outdated,
    NotInstalled,
    NotFound,
}

/// A version one source reported.
pub struct VersionInfo {
    pub version: String,
    pub source: String,
    pub local: bool,
}

/// A successful query, together with where it came from.
pub struct SourceAnswer {
    pub version: String,
    pub source: String,
    pub local: bool,
    pub ecosystem: Ecosystem,
}

/// The outcome of one lookup.
pub struct PackageResult {
    pub package: String,
    pub status: Status,
    pub installed: Option<VersionInfo>,
    pub latest: Option<VersionInfo>,
    pub available: Vec<VersionInfo>,
    pub also_found_in: Vec<String>,
}

/// The populated fields of a result stay in lockstep with its status.
pub open spec fn result_wf(r: PackageResult) -> bool {
    &&& (r.status == Status::Outdated ==> r.installed is Some && r.latest is Some)
    &&& (r.status == Status::UpToDate ==> (r.installed is Some <==> r.latest is Some))
    &&& (r.status == Status::NotInstalled ==> r.installed is None && r.latest is Some
        && r.available@.len() > 0)
    &&& (r.status == Status::NotFound ==> r.installed is None && r.latest is None
        && r.available@.len() == 0)
}

/// `a` answers from the installed answer's ecosystem with a strictly
/// newer version: the only answers that can outdate an installed one.
pub open spec fn outdates(inst: SourceAnswer, a: SourceAnswer) -> bool {
    a.ecosystem == inst.ecosystem && version_newer(inst.version@, a.version@)
}

/// The index of the newest answer that outdates `inst`, scanning left to
/// right and keeping the earlier answer on ties.
pub open spec fn spec_newest(inst: SourceAnswer, reg: Seq<SourceAnswer>) -> Option<int>
    decreases reg.len(),
{
    if reg.len() == 0 {
        Option::<int>::None
    } else {
        let prev = spec_newest(inst, reg.drop_last());
        let j = reg.len() - 1;
        if !outdates(inst, reg[j]) {
            prev
        } else {
            match prev {
                Option::None => Option::Some(j),
                Option::Some(i) => if version_newer(reg[i].version@, reg[j].version@) {
                    Option::Some(j)
                } else {
                    Option::Some(i)
                },
            }
        }
    }
}

/// What the selection of `spec_newest` means: when it picks an answer,
/// that answer outdates the installed one, no other answer that does is
/// strictly newer than it, and every such answer before it is strictly
/// older -- the pick is the first of the newest.  When it picks none, no
/// answer outdates the installed one at all.
pub proof fn lemma_newest_is_maximal(inst: SourceAnswer, reg: Seq<SourceAnswer>)
    ensures
        match spec_newest(inst, reg) {
            Option::Some(b) => 0 <= b < reg.len() && outdates(inst, reg[b]) && (forall|j: int|
                0 <= j < reg.len() && #[trigger] outdates(inst, reg[j]) ==> !version_newer(
                    reg[b].version@,
                    reg[j].version@,
                )) && (forall|j: int|
                0 <= j < b && #[trigger] outdates(inst, reg[j]) ==> version_newer(
                    reg[j].version@,
                    reg[b].version@,
                )),
            Option::None => forall|j: int|
                0 <= j < reg.len() ==> !#[trigger] outdates(inst, reg[j]),
        },
    decreases reg.len(),
{
    if reg.len() > 0 {
        let t = reg.drop_last();
        lemma_newest_is_maximal(inst, t);
        let last = reg.len() - 1;
        assert(forall|k: int| 0 <= k < last ==> reg[k] == t[k]);
        match spec_newest(inst, reg) {
            Option::Some(b) => {
                assert forall|j: int|
                    0 <= j < reg.len() && #[trigger] outdates(inst, reg[j]) implies !version_newer(
                    reg[b].version@,
                    reg[j].version@,
                ) by {
                    if j == b {
                        crate::version::lemma_version_order_irreflexive(reg[b].version@);
                    } else if b == last {
                        // The last answer displaced the earlier pick (or
                        // was the first): anything newer than it would,
                        // by transitivity, have beaten that pick too.
                        match spec_newest(inst, t) {
                            Option::Some(i) => {
                                crate::version::lemma_version_order_transitive(
                                    reg[i].version@,
                                    reg[b].version@,
                                    reg[j].version@,
                                );
                            },
                            Option::None => {},
                        }
                    } else {
                        if j == last {
                            // The last answer did not displace the pick.
                        }
                    }
                }
                assert forall|j: int|
                    0 <= j < b && #[trigger] outdates(inst, reg[j]) implies version_newer(
                    reg[j].version@,
                    reg[b].version@,
                ) by {
                    if b == last {
                        match spec_newest(inst, t) {
                            Option::Some(i) => {
                                if j == i {
                                    // The displaced pick itself is older.
                                } else if j < i {
                                    crate::version::lemma_version_order_transitive(
                                        reg[j].version@,
                                        reg[i].version@,
                                        reg[b].version@,
                                    );
                                } else {
                                    // An answer the earlier pick was not
                                    // outdone by is, up to equivalence,
                                    // no newer than it; either way it is
                                    // older than what displaced the pick.
                                    crate::version::lemma_version_order_total(
                                        reg[i].version@,
                                        reg[j].version@,
                                    );
                                    if crate::version::version_newer(
                                        reg[j].version@,
                                        reg[i].version@,
                                    ) {
                                        crate::version::lemma_version_order_transitive(
                                            reg[j].version@,
                                            reg[i].version@,
                                            reg[b].version@,
                                        );
                                    } else {
                                        crate::version::lemma_version_equiv_congruent(
                                            reg[i].version@,
                                            reg[j].version@,
                                            reg[b].version@,
                                        );
                                    }
                                }
                            },
                            Option::None => {},
                        }
                    }
                }
            },
            Option::None => {},
        }
    }
}

/// The names of the answers that match the package in a different
/// ecosystem than the installed answer's, in order.
pub open spec fn other_eco_names(inst: SourceAnswer, reg: Seq<SourceAnswer>) -> Seq<Seq<char>>
    decreases reg.len(),
{
    if reg.len() == 0 {
        Seq::<Seq<char>>::empty()
    } else {
        other_eco_names(inst, reg.drop_last()) + (if reg.last().ecosystem != inst.ecosystem {
            seq![reg.last().source@]
        } else {
            Seq::<Seq<char>>::empty()
        })
    }
}

/// The resolution policy of the production path.  Given the installed
/// answer, if any, and every registry answer:
///
/// - an installed version outdone by a same-ecosystem registry answer is
///   `Outdated`, with the newest such answer as `latest`;
/// - an installed version no same-ecosystem answer outdoes is `UpToDate`;
///   either way, different-ecosystem answers are only named in
///   `also_found_in`;
/// - no installed version but registry answers means `NotInstalled`, the
///   first answer (precedence order) standing as `latest` and every
///   answer listed in `available`;
/// - nothing at all means `NotFound`.
pub fn resolve_default(
    package: &str,
    installed: &Option<SourceAnswer>,
    registry: &Vec<SourceAnswer>,
) -> (r: PackageResult)
    ensures
        result_wf(r),
        r.package@ == package@,
        match installed {
            Option::Some(inst) => {
                &&& r.installed matches Some(ii) && ii.version@ == inst.version@ && ii.source@
                    == inst.source@ && ii.local == true
                &&& match spec_newest(*inst, registry@) {
                    Option::Some(b) => {
                        &&& r.status == Status::Outdated
                        &&& r.latest matches Some(l) && l.version@ == registry@[b].version@
                            && l.source@ == registry@[b].source@ && l.local
                            == registry@[b].local
                    },
                    Option::None => {
                        &&& r.status == Status::UpToDate
                        &&& r.latest matches Some(l) && l.version@ == inst.version@ && l.source@
                            == inst.source@ && l.local == true
                    },
                }
                &&& r.available@.len() == 0
                &&& r.also_found_in@.map_values(|s: String| s@) == other_eco_names(
                    *inst,
                    registry@,
                )
            },
            Option::None => {
                &&& r.also_found_in@.len() == 0
                &&& if registry@.len() > 0 {
                    &&& r.status == Status::NotInstalled
                    &&& r.installed is None
                    &&& r.latest matches Some(l) && l.version@ == registry@[0].version@
                        && l.source@ == registry@[0].source@ && l.local == registry@[0].local
                    &&& r.available@.len() == registry@.len()
                    &&& forall|i: int|
                        0 <= i < registry@.len() ==> #[trigger] r.available@[i].version@
                            == registry@[i].version@ && r.available@[i].source@
                            == registry@[i].source@ && r.available@[i].local == registry@[i].local
                } else {
                    &&& r.status == Status::NotFound
                    &&& r.installed is None
                    &&& r.latest is None
                    &&& r.available@.len() == 0
                }
            },
        },
{
    match installed {
        Option::Some(inst) => {
            let mut best: Option<usize> = Option::None;
            let mut i: usize = 0;
            while i < registry.len()
                invariant
                    i <= registry@.len(),
                    match best {
                        Option::Some(b) => b < i && spec_newest(*inst, registry@.take(i as int))
                            == Option::Some(b as int),
                        Option::None => spec_newest(*inst, registry@.take(i as int)) is None,
                    },
                decreases registry@.len() - i,
            {
                proof {
                    assert(registry@.take(i + 1).drop_last() =~= registry@.take(i as int));
                    assert(registry@.take(i + 1).last() == registry@[i as int]);
                }
                let a = &registry[i];
                if a.ecosystem == inst.ecosystem && is_newer(
                    inst.version.as_str(),
                    a.version.as_str(),
                ) {
                    best = match best {
                        Option::None => Option::Some(i),
                        Option::Some(b) => {
                            if is_newer(registry[b].version.as_str(), a.version.as_str()) {
                                Option::Some(i)
                            } else {
                                Option::Some(b)
                            }
                        },
                    };
                }
                i += 1;
            }
            proof {
                assert(registry@.take(registry@.len() as int) =~= registry@);
            }
            let mut also: Vec<String> = Vec::new();
            let mut j: usize = 0;
            while j < registry.len()
                invariant
                    j <= registry@.len(),
                    also@.map_values(|s: String| s@) == other_eco_names(
                        *inst,
                        registry@.take(j as int),
                    ),
                decreases registry@.len() - j,
            {
                proof {
                    assert(registry@.take(j + 1).drop_last() =~= registry@.take(j as int));
                    assert(registry@.take(j + 1).last() == registry@[j as int]);
                }
                let ghost prev = also@.map_values(|s: String| s@);
                if !(registry[j].ecosystem == inst.ecosystem) {
                    also.push(registry[j].source.clone());
                    proof {
                        assert(also@.map_values(|s: String| s@) =~= prev.push(
                            registry@[j as int].source@,
                        ));
                        assert(prev.push(registry@[j as int].source@) =~= prev + seq![
                            registry@[j as int].source@,
                        ]);
                    }
                } else {
                    proof {
                        assert(prev + Seq::<Seq<char>>::empty() =~= prev);
                    }
                }
                j += 1;
            }
            proof {
                assert(registry@.take(registry@.len() as int) =~= registry@);
            }
            let installed_info = VersionInfo {
                version: inst.version.clone(),
                source: inst.source.clone(),
                local: true,
            };
            match best {
                Option::Some(b) => PackageResult {
                    package: package.to_owned(),
                    status: Status::Outdated,
                    installed: Option::Some(installed_info),
                    latest: Option::Some(
                        VersionInfo {
                            version: registry[b].version.clone(),
                            source: registry[b].source.clone(),
                            local: registry[b].local,
                        },
                    ),
                    available: Vec::new(),
                    also_found_in: also,
                },
                Option::None => PackageResult {
                    package: package.to_owned(),
                    status: Status::UpToDate,
                    installed: Option::Some(installed_info),
                    latest: Option::Some(
                        VersionInfo {
                            version: inst.version.clone(),
                            source: inst.source.clone(),
                            local: true,
                        },
                    ),
                    available: Vec::new(),
                    also_found_in: also,
                },
            }
        },
        Option::None => {
            if registry.len() > 0 {
                let mut available: Vec<VersionInfo> = Vec::new();
                let mut i: usize = 0;
                while i < registry.len()
                    invariant
                        i <= registry@.len(),
                        available@.len() == i,
                        forall|k: int|
                            0 <= k < i ==> #[trigger] available@[k] == (VersionInfo {
                                version: registry@[k].version,
                                source: registry@[k].source,
                                local: registry@[k].local,
                            }),
                    decreases registry@.len() - i,
                {
                    let ghost prev = available@;
                    available.push(
                        VersionInfo {
                            version: registry[i].version.clone(),
                            source: registry[i].source.clone(),
                            local: registry[i].local,
                        },
                    );
                    proof {
                        assert forall|k: int| 0 <= k < i + 1 implies #[trigger] available@[k]
                            == (VersionInfo {
                            version: registry@[k].version,
                            source: registry@[k].source,
                            local: registry@[k].local,
                        }) by {
                            if k < i {
                                assert(available@[k] == prev[k]);
                            }
                        }
                    }
                    i += 1;
                }
                PackageResult {
                    package: package.to_owned(),
                    status: Status::NotInstalled,
                    installed: Option::None,
                    latest: Option::Some(
                        VersionInfo {
                            version: registry[0].version.clone(),
                            source: registry[0].source.clone(),
                            local: registry[0].local,
                        },
                    ),
                    available,
                    also_found_in: Vec::new(),
                }
            } else {
                PackageResult {
                    package: package.to_owned(),
                    status: Status::NotFound,
                    installed: Option::None,
                    latest: Option::None,
                    available: Vec::new(),
                    also_found_in: Vec::new(),
                }
            }
        },
    }
}

/// Some configured source carries this name and locality: what a result
/// may truthfully report a version under.
pub open spec fn source_named<S>(
    sources: Seq<SourceEntry<S>>,
    name: Seq<char>,
    local: bool,
) -> bool {
    exists|k: int|
        0 <= k < sources.len() && #[trigger] sources[k].info.name@ == name
            && sources[k].info.local == local
}

/// Every answer of `reg` is a registry answer: marked non-local and
/// bearing the name of a configured non-local source.
pub open spec fn registry_answers_ok<S>(
    sources: Seq<SourceEntry<S>>,
    reg: Seq<SourceAnswer>,
) -> bool {
    forall|m: int|
        0 <= m < reg.len() ==> !(#[trigger] reg[m].local) && source_named(
            sources,
            reg[m].source@,
            false,
        )
}

/// Every answer of `ans` carries the name and locality of some
/// configured source.
pub open spec fn answers_named<S>(sources: Seq<SourceEntry<S>>, ans: Seq<SourceAnswer>) -> bool {
    forall|m: int|
        0 <= m < ans.len() ==> source_named(sources, #[trigger] ans[m].source@, ans[m].local)
}

/// A source of package versions: the one capability the orchestrator
/// needs beyond a source's descriptor.  Callers implement it for sources
/// that probe the machine or a registry.  `get_version` carries no
/// contract: every answer, and no answer, is handled.
pub trait Source {
    /// The latest version this source knows for `package`, absent on any
    /// failure.
    fn get_version(&self, package: &str) -> (r: Option<String>);
}

/// A configured source: its descriptor, which the contracts speak of,
/// paired with whatever adapter answers the queries.
pub struct SourceEntry<S> {
    pub info: SourceInfo,
    pub adapter: S,
}

/// A source answering from a fixed table of `(package, version)` pairs.
pub struct FixedSource {
    pub packages: Vec<(String, String)>,
}

/// The version paired with the first entry of `table` naming `package`.
pub open spec fn table_lookup(table: Seq<(String, String)>, package: Seq<char>) -> Option<
    Seq<char>,
>
    decreases table.len(),
{
    if table.len() == 0 {
        Option::<Seq<char>>::None
    } else if table[0].0@ == package {
        Option::Some(table[0].1@)
    } else {
        table_lookup(table.skip(1), package)
    }
}

impl FixedSource {
    /// The version paired with the first table entry naming `package`.
    pub fn lookup_version(&self, package: &str) -> (r: Option<String>)
        ensures
            match r {
                Option::Some(v) => table_lookup(self.packages@, package@) == Option::Some(v@),
                Option::None => table_lookup(self.packages@, package@) is None,
            },
    {
        let mut i: usize = 0;
        proof {
            assert(self.packages@.skip(0) =~= self.packages@);
        }
        while i < self.packages.len()
            invariant
                i <= self.packages@.len(),
                table_lookup(self.packages@, package@) == table_lookup(
                    self.packages@.skip(i as int),
                    package@,
                ),
            decreases self.packages@.len() - i,
        {
            proof {
                assert(self.packages@.skip(i as int)[0] == self.packages@[i as int]);
                assert(self.packages@.skip(i as int).skip(1) =~= self.packages@.skip(i + 1));
            }
            if crate::sources::str_eq(self.packages[i].0.as_str(), package) {
                return Option::Some(self.packages[i].1.clone());
            }
            i += 1;
        }
        Option::None
    }
}

impl Source for FixedSource {
    /// Answers from the table; `lookup_version` carries the contract.
    fn get_version(&self, package: &str) -> (r: Option<String>) {
        self.lookup_version(package)
    }
}

/// Query one source through the cache discipline:
///
/// - a local source is asked directly and the cache is never consulted
///   nor written;
/// - with the cache disabled it is left untouched;
/// - otherwise a fresh cached answer is returned as is, and on a miss the
///   source is asked and a successful answer is written through.
pub fn query_source<S: Source>(
    entry: &SourceEntry<S>,
    package: &str,
    cache: &mut Cache,
    use_cache: bool,
    now: u64,
) -> (r: Option<String>)
    requires
        old(cache).wf(),
    ensures
        final(cache).wf(),
        entry.info.local ==> final(cache)@ == old(cache)@,
        !use_cache ==> final(cache)@ == old(cache)@,
        (!entry.info.local && use_cache) ==> {
            let k = cache_key(entry.info.name@, package@);
            match spec_cache_get(old(cache)@, k, now) {
                Option::Some(v) => (r matches Some(rv) && rv@ == v) && final(cache)@ == old(
                    cache,
                )@,
                Option::None => match r {
                    Option::Some(rv) => final(cache)@ == spec_cache_after_get(
                        old(cache)@,
                        k,
                        now,
                    ).insert(k, (rv@, now)),
                    Option::None => final(cache)@ == spec_cache_after_get(old(cache)@, k, now),
                },
            }
        },
{
    if entry.info.local {
        return entry.adapter.get_version(package);
    }
    if use_cache {
        if let Option::Some(cached) = cache.get(entry.info.name.as_str(), package, now) {
            return Option::Some(cached);
        }
        match entry.adapter.get_version(package) {
            Option::Some(version) => {
                cache.set(entry.info.name.as_str(), package, version.as_str(), now);
                Option::Some(version)
            },
            Option::None => Option::None,
        }
    } else {
        entry.adapter.get_version(package)
    }
}

/// How a lookup chooses among sources.
#[derive(Clone, Copy, Debug, PartialEq, Eq, Structural)]
pub enum LookupMode {
    All,
    Explicit,
    Default,
}

/// The production path: ask local sources for an installed version in
/// precedence order, gather every registry answer through the dispatcher,
/// and resolve.
pub fn lookup_default<S: Source>(
    package: &str,
    sources: &Vec<SourceEntry<S>>,
    cache: &mut Cache,
    use_cache: bool,
    now: u64,
) -> (r: PackageResult)
    requires
        old(cache).wf(),
    ensures
        final(cache).wf(),
        result_wf(r),
        r.package@ == package@,
        sources@.len() == 0 ==> r.status == Status::NotFound,
        r.status != Status::NotInstalled ==> r.available@.len() == 0,
        r.installed matches Some(ii) ==> ii.local && source_named(sources@, ii.source@, true),
        r.latest matches Some(l) ==> source_named(sources@, l.source@, l.local),
        forall|m: int|
            0 <= m < r.available@.len() ==> !(#[trigger] r.available@[m].local) && source_named(
                sources@,
                r.available@[m].source@,
                false,
            ),
        !use_cache ==> final(cache)@ == old(cache)@,
        (forall|i: int| 0 <= i < sources@.len() ==> #[trigger] sources@[i].info.local)
            ==> final(cache)@ == old(cache)@,
{
    let mut installed: Option<SourceAnswer> = Option::None;
    let mut i: usize = 0;
    while i < sources.len() && installed.is_none()
        invariant
            i <= sources@.len(),
            sources@.len() == 0 ==> installed is None,
            installed matches Some(a) ==> a.local && source_named(sources@, a.source@, true),
        decreases sources@.len() - i,
    {
        let s = &sources[i];
        if s.info.local {
            match s.adapter.get_version(package) {
                Option::Some(version) => {
                    installed = Option::Some(
                        SourceAnswer {
                            version,
                            source: s.info.name.clone(),
                            local: true,
                            ecosystem: s.info.ecosystem,
                        },
                    );
                },
                Option::None => {},
            }
        }
        i += 1;
    }
    let mut registry: Vec<SourceAnswer> = Vec::new();
    let mut j: usize = 0;
    while j < sources.len()
        invariant
            old(cache).wf(),
            cache.wf(),
            j <= sources@.len(),
            sources@.len() == 0 ==> registry@.len() == 0,
            installed matches Some(a) ==> a.local && source_named(sources@, a.source@, true),
            registry_answers_ok(sources@, registry@),
            !use_cache ==> cache@ == old(cache)@,
            (forall|k: int| 0 <= k < sources@.len() ==> #[trigger] sources@[k].info.local)
                ==> cache@ == old(cache)@,
        decreases sources@.len() - j,
    {
        let s = &sources[j];
        if !s.info.local {
            match query_source(s, package, cache, use_cache, now) {
                Option::Some(version) => {
                    let ghost prev = registry@;
                    registry.push(
                        SourceAnswer {
                            version,
                            source: s.info.name.clone(),
                            local: false,
                            ecosystem: s.info.ecosystem,
                        },
                    );
                    proof {
                        assert(registry_answers_ok(sources@, registry@)) by {
                            assert forall|m: int|
                                0 <= m < registry@.len() implies !(#[trigger] registry@[m].local)
                                && source_named(sources@, registry@[m].source@, false) by {
                                if m < prev.len() {
                                    assert(registry@[m] == prev[m]);
                                } else {
                                    assert(sources@[j as int].info.name@ == registry@[m].source@);
                                }
                            }
                        }
                    }
                },
                Option::None => {},
            }
        }
        j += 1;
    }
    let r = resolve_default(package, &installed, &registry);
    proof {
        match installed {
            Option::Some(inst) => {
                lemma_newest_is_maximal(inst, registry@);
            },
            Option::None => {},
        }
        assert forall|m: int|
            0 <= m < r.available@.len() implies !(#[trigger] r.available@[m].local)
            && source_named(sources@, r.available@[m].source@, false) by {
            assert(r.available@[m].version@ == registry@[m].version@);
            assert(r.available@[m].source@ == registry@[m].source@);
            assert(r.available@[m].local == registry@[m].local);
        }
    }
    r
}

/// Build the verdict of an explicit-source lookup from its first
/// successful answer, if any.
pub fn explicit_result(package: &str, found: Option<SourceAnswer>) -> (r: PackageResult)
    ensures
        result_wf(r),
        r.package@ == package@,
        match found {
            Option::Some(a) => {
                &&& r.status == Status::UpToDate
                &&& r.installed matches Some(ii) && ii.version@ == a.version@ && ii.source@
                    == a.source@ && ii.local == a.local
                &&& r.latest matches Some(l) && l.version@ == a.version@ && l.source@
                    == a.source@ && l.local == a.local
            },
            Option::None => r.status == Status::NotFound,
        },
        r.available@.len() == 0,
        r.also_found_in@.len() == 0,
        found is None ==> r.installed is None && r.latest is None,
{
    match found {
        Option::Some(a) => {
            let info = VersionInfo {
                version: a.version.clone(),
                source: a.source.clone(),
                local: a.local,
            };
            let twin = VersionInfo { version: a.version, source: a.source, local: a.local };
            PackageResult {
                package: package.to_owned(),
                status: Status::UpToDate,
                installed: Option::Some(info),
                latest: Option::Some(twin),
                available: Vec::new(),
                also_found_in: Vec::new(),
            }
        },
        Option::None => PackageResult {
            package: package.to_owned(),
            status: Status::NotFound,
            installed: Option::None,
            latest: Option::None,
            available: Vec::new(),
            also_found_in: Vec::new(),
        },
    }
}

/// The pinned-source path: the first source to answer, in the order
/// given, stands as both installed and latest.
pub fn lookup_explicit<S: Source>(
    package: &str,
    sources: &Vec<SourceEntry<S>>,
    cache: &mut Cache,
    use_cache: bool,
    now: u64,
) -> (r: PackageResult)
    requires
        old(cache).wf(),
    ensures
        final(cache).wf(),
        result_wf(r),
        r.package@ == package@,
        r.status == Status::UpToDate || r.status == Status::NotFound,
        sources@.len() == 0 ==> r.status == Status::NotFound,
        r.installed matches Some(ii) ==> source_named(sources@, ii.source@, ii.local),
        r.latest matches Some(l) ==> source_named(sources@, l.source@, l.local),
        r.available@.len() == 0,
        !use_cache ==> final(cache)@ == old(cache)@,
        (forall|i: int| 0 <= i < sources@.len() ==> #[trigger] sources@[i].info.local)
            ==> final(cache)@ == old(cache)@,
{
    let mut i: usize = 0;
    while i < sources.len()
        invariant
            old(cache).wf(),
            cache.wf(),
            i <= sources@.len(),
            !use_cache ==> cache@ == old(cache)@,
            (forall|k: int| 0 <= k < sources@.len() ==> #[trigger] sources@[k].info.local)
                ==> cache@ == old(cache)@,
        decreases sources@.len() - i,
    {
        let s = &sources[i];
        match query_source(s, package, cache, use_cache, now) {
            Option::Some(version) => {
                return explicit_result(
                    package,
                    Option::Some(
                        SourceAnswer {
                            version,
                            source: s.info.name.clone(),
                            local: s.info.local,
                            ecosystem: s.info.ecosystem,
                        },
                    ),
                );
            },
            Option::None => {},
        }
        i += 1;
    }
    explicit_result(package, Option::None)
}

/// Build the verdict of an all-sources lookup: every answer becomes one
/// entry of `available`, in answer order, and the verdict is `NotFound`
/// exactly when there is none.
pub fn all_result(package: &str, answers: &Vec<SourceAnswer>) -> (r: PackageResult)
    ensures
        result_wf(r),
        r.package@ == package@,
        r.status == Status::UpToDate || r.status == Status::NotFound,
        (r.status == Status::NotFound <==> answers@.len() == 0),
        r.installed is None,
        r.latest is None,
        r.also_found_in@.len() == 0,
        r.available@.len() == answers@.len(),
        forall|i: int|
            0 <= i < answers@.len() ==> #[trigger] r.available@[i] == (VersionInfo {
                version: answers@[i].version,
                source: answers@[i].source,
                local: answers@[i].local,
            }),
{
    let mut available: Vec<VersionInfo> = Vec::new();
    let mut i: usize = 0;
    while i < answers.len()
        invariant
            i <= answers@.len(),
            available@.len() == i,
            forall|k: int|
                0 <= k < i ==> #[trigger] available@[k] == (VersionInfo {
                    version: answers@[k].version,
                    source: answers@[k].source,
                    local: answers@[k].local,
                }),
        decreases answers@.len() - i,
    {
        let ghost prev = available@;
        available.push(
            VersionInfo {
                version: answers[i].version.clone(),
                source: answers[i].source.clone(),
                local: answers[i].local,
            },
        );
        proof {
            assert forall|k: int| 0 <= k < i + 1 implies #[trigger] available@[k]
                == (VersionInfo {
                version: answers@[k].version,
                source: answers@[k].source,
                local: answers@[k].local,
            }) by {
                if k < i {
                    assert(available@[k] == prev[k]);
                }
            }
        }
        i += 1;
    }
    let status = if available.len() == 0 {
        Status::NotFound
    } else {
        Status::UpToDate
    };
    PackageResult {
        package: package.to_owned(),
        status,
        installed: Option::None,
        latest: Option::None,
        available,
        also_found_in: Vec::new(),
    }
}

/// The all-sources path: gather every answer, local or not, through the
/// dispatcher and let `all_result` list them.
pub fn lookup_all<S: Source>(
    package: &str,
    sources: &Vec<SourceEntry<S>>,
    cache: &mut Cache,
    use_cache: bool,
    now: u64,
) -> (r: PackageResult)
    requires
        old(cache).wf(),
    ensures
        final(cache).wf(),
        result_wf(r),
        r.package@ == package@,
        r.status == Status::UpToDate || r.status == Status::NotFound,
        (r.status == Status::NotFound <==> r.available@.len() == 0),
        r.installed is None && r.latest is None,
        r.also_found_in@.len() == 0,
        forall|m: int|
            0 <= m < r.available@.len() ==> source_named(
                sources@,
                #[trigger] r.available@[m].source@,
                r.available@[m].local,
            ),
        sources@.len() == 0 ==> r.status == Status::NotFound,
        !use_cache ==> final(cache)@ == old(cache)@,
        (forall|i: int| 0 <= i < sources@.len() ==> #[trigger] sources@[i].info.local)
            ==> final(cache)@ == old(cache)@,
{
    let mut answers: Vec<SourceAnswer> = Vec::new();
    let mut i: usize = 0;
    while i < sources.len()
        invariant
            old(cache).wf(),
            cache.wf(),
            i <= sources@.len(),
            i == 0 ==> answers@.len() == 0,
            answers_named(sources@, answers@),
            !use_cache ==> cache@ == old(cache)@,
            (forall|k: int| 0 <= k < sources@.len() ==> #[trigger] sources@[k].info.local)
                ==> cache@ == old(cache)@,
        decreases sources@.len() - i,
    {
        let s = &sources[i];
        match query_source(s, package, cache, use_cache, now) {
            Option::Some(version) => {
                let ghost prev = answers@;
                answers.push(
                    SourceAnswer {
                        version,
                        source: s.info.name.clone(),
                        local: s.info.local,
                        ecosystem: s.info.ecosystem,
                    },
                );
                proof {
                    assert(answers_named(sources@, answers@)) by {
                        assert forall|m: int|
                            0 <= m < answers@.len() implies source_named(
                            sources@,
                            #[trigger] answers@[m].source@,
                            answers@[m].local,
                        ) by {
                            if m < prev.len() {
                                assert(answers@[m] == prev[m]);
                            } else {
                                assert(sources@[i as int].info.name@ == answers@[m].source@);
                            }
                        }
                    }
                }
            },
            Option::None => {},
        }
        i += 1;
    }
    let r = all_result(package, &answers);
    proof {
        assert forall|m: int|
            0 <= m < r.available@.len() implies source_named(
            sources@,
            #[trigger] r.available@[m].source@,
            r.available@[m].local,
        ) by {
            assert(r.available@[m] == (VersionInfo {
                version: answers@[m].version,
                source: answers@[m].source,
                local: answers@[m].local,
            }));
            assert(source_named(sources@, answers@[m].source@, answers@[m].local));
        }
    }
    r
}

/// Look up one package across `sources` in the given mode.
pub fn lookup<S: Source>(
    package: &str,
    sources: &Vec<SourceEntry<S>>,
    mode: LookupMode,
    cache: &mut Cache,
    use_cache: bool,
    now: u64,
) -> (r: PackageResult)
    requires
        old(cache).wf(),
    ensures
        final(cache).wf(),
        result_wf(r),
        r.package@ == package@,
        sources@.len() == 0 ==> r.status == Status::NotFound,
        mode != LookupMode::All ==> (r.status != Status::NotInstalled ==> r.available@.len()
            == 0),
        mode == LookupMode::All ==> (r.installed is None && r.latest is None && (r.status
            == Status::NotFound <==> r.available@.len() == 0)),
        r.installed matches Some(ii) ==> source_named(sources@, ii.source@, ii.local),
        r.latest matches Some(l) ==> source_named(sources@, l.source@, l.local),
        forall|m: int|
            0 <= m < r.available@.len() ==> source_named(
                sources@,
                #[trigger] r.available@[m].source@,
                r.available@[m].local,
            ),
        !use_cache ==> final(cache)@ == old(cache)@,
        (forall|i: int| 0 <= i < sources@.len() ==> #[trigger] sources@[i].info.local)
            ==> final(cache)@ == old(cache)@,
{
    match mode {
        LookupMode::All => lookup_all(package, sources, cache, use_cache, now),
        LookupMode::Explicit => lookup_explicit(package, sources, cache, use_cache, now),
        LookupMode::Default => lookup_default(package, sources, cache, use_cache, now),
    }
}

} // verus!
