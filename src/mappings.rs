//! The shard directory: shard instances, migration overlays, and one
//! connection manager per referenced url; and the namespace router on top.

use crate::errors::MongoErr;
use crate::health::ConnectionManager;
use crate::text::{compare_str, lemma_lex_asymmetric, lemma_lex_irreflexive, lemma_lex_transitive, lex_le, lex_lt, str_eq};
use std::cmp::Ordering;
use vstd::prelude::*;

verus! {

/// A shard instance: owns the namespaces from `from` (inclusive) up to the
/// next instance's `from`; the highest instance owns the rest.
#[derive(Debug)]
pub struct Instance {
    pub id: u128,
    pub url: String,
    pub from: String,
}

/// A migration overlay: the closed range `[from, to]` is moving to the shard
/// at `url`.
#[derive(Debug)]
pub struct MigrationInstance {
    pub id: u128,
    pub url: String,
    pub from: String,
    pub to: String,
}

/// A migration record as the directory store holds it: `to` is absent while
/// the migration is not fully set up.
#[derive(Debug)]
pub struct MigrationRecord {
    pub id: u128,
    pub url: String,
    pub from: String,
    pub to: Option<String>,
}

/// The overlay of a record whose `to` is present.
pub open spec fn overlay_of(rec: MigrationRecord) -> MigrationInstance {
    MigrationInstance { id: rec.id, url: rec.url, from: rec.from, to: rec.to->0 }
}

/// Whether a record's migration range is complete.
pub open spec fn has_end() -> spec_fn(MigrationRecord) -> bool {
    |x: MigrationRecord| x.to is Some
}

/// The overlays of the records whose `to` is present, in record order.
pub open spec fn overlays_of(records: Seq<MigrationRecord>) -> Seq<MigrationInstance> {
    records.filter(has_end()).map_values(|x: MigrationRecord| overlay_of(x))
}

/// Turns migration records into overlays, leaving out those without `to`.
pub fn migrations_from_records(records: Vec<MigrationRecord>) -> (r: Vec<MigrationInstance>)
    ensures
        r@ == overlays_of(records@),
{
    let ghost all = records@;
    let mut rest = records;
    let mut out: Vec<MigrationInstance> = Vec::new();
    let ghost mut done: nat = 0;
    assert(all.take(0) =~= Seq::<MigrationRecord>::empty());
    assert(overlays_of(Seq::<MigrationRecord>::empty()) =~= Seq::<MigrationInstance>::empty());
    while rest.len() > 0
        invariant
            done <= all.len(),
            rest@ == all.skip(done as int),
            out@ == overlays_of(all.take(done as int)),
        decreases rest.len(),
    {
        let rec = rest.remove(0);
        let ghost prev = all.take(done as int);
        assert(all.take(done + 1 as int) =~= prev.push(rec));
        assert(rest@ =~= all.skip(done + 1 as int));
        let ghost kept = prev.filter(has_end());
        proof {
            prev.lemma_filter_push(rec, has_end());
        }
        match rec.to {
            Some(to) => {
                out.push(MigrationInstance { id: rec.id, url: rec.url, from: rec.from, to });
                assert(out@ =~= overlays_of(prev.push(rec)));
            },
            None => {
                assert(prev.push(rec).filter(has_end()) == kept);
            },
        }
        proof {
            done = done + 1;
        }
    }
    assert(all.take(done as int) =~= all);
    out
}

/// Whether an overlay's range holds the namespace `ns`.
pub open spec fn covers(m: MigrationInstance, ns: Seq<char>) -> bool {
    lex_le(m.from@, ns) && lex_le(ns, m.to@)
}

/// Some overlay holds `ns`.
pub open spec fn has_overlay(migs: Seq<MigrationInstance>, ns: Seq<char>) -> bool {
    exists|j: int| 0 <= j < migs.len() && covers(#[trigger] migs[j], ns)
}

/// `j` is the first overlay that holds `ns`.
pub open spec fn is_first_overlay(migs: Seq<MigrationInstance>, ns: Seq<char>, j: int) -> bool {
    &&& 0 <= j < migs.len()
    &&& covers(migs[j], ns)
    &&& forall|k: int| 0 <= k < j ==> !covers(#[trigger] migs[k], ns)
}

/// Some instance starts at or below `ns`.
pub open spec fn has_owner(insts: Seq<Instance>, ns: Seq<char>) -> bool {
    exists|i: int| 0 <= i < insts.len() && lex_le((#[trigger] insts[i]).from@, ns)
}

/// `i` owns `ns` in regular routing: its `from` is the greatest one not above
/// `ns` (the last such instance when several share it).
pub open spec fn is_owner(insts: Seq<Instance>, ns: Seq<char>, i: int) -> bool {
    &&& 0 <= i < insts.len()
    &&& lex_le(insts[i].from@, ns)
    &&& forall|j: int|
        0 <= j < insts.len() && lex_le((#[trigger] insts[j]).from@, ns) ==> lex_lt(
            insts[j].from@,
            insts[i].from@,
        ) || (insts[j].from@ == insts[i].from@ && j <= i)
}

/// At most one instance owns a namespace.
pub proof fn lemma_owner_unique(insts: Seq<Instance>, ns: Seq<char>, i: int, j: int)
    requires
        is_owner(insts, ns, i),
        is_owner(insts, ns, j),
    ensures
        i == j,
{
    assert(lex_le(insts[j].from@, ns));
    assert(lex_le(insts[i].from@, ns));
    lemma_lex_asymmetric(insts[i].from@, insts[j].from@);
    lemma_lex_irreflexive(insts[i].from@);
}

/// At most one overlay is the first to hold a namespace.
pub proof fn lemma_first_overlay_unique(migs: Seq<MigrationInstance>, ns: Seq<char>, i: int, j: int)
    requires
        is_first_overlay(migs, ns, i),
        is_first_overlay(migs, ns, j),
    ensures
        i == j,
{
    if i < j {
        assert(!covers(migs[i], ns));
    } else if j < i {
        assert(!covers(migs[j], ns));
    }
}

/// The first overlay that holds `ns`, if any.
fn find_overlay(migs: &Vec<MigrationInstance>, ns: &str) -> (r: Option<usize>)
    ensures
        r is None <==> !has_overlay(migs@, ns@),
        r matches Some(j) ==> is_first_overlay(migs@, ns@, j as int),
{
    let mut j: usize = 0;
    while j < migs.len()
        invariant
            j <= migs.len(),
            forall|k: int| 0 <= k < j ==> !covers(#[trigger] migs@[k], ns@),
        decreases migs.len() - j,
    {
        let lower = compare_str(migs[j].from.as_str(), ns);
        let upper = compare_str(ns, migs[j].to.as_str());
        let above_from = match lower {
            Ordering::Greater => false,
            _ => true,
        };
        let below_to = match upper {
            Ordering::Greater => false,
            _ => true,
        };
        if above_from && below_to {
            return Some(j);
        }
        j = j + 1;
    }
    None
}

/// The instance that owns `ns` in regular routing, if any.
fn find_owner(insts: &Vec<Instance>, ns: &str) -> (r: Option<usize>)
    ensures
        r is None <==> !has_owner(insts@, ns@),
        r matches Some(i) ==> is_owner(insts@, ns@, i as int),
{
    let mut best: Option<usize> = None;
    let mut i: usize = 0;
    while i < insts.len()
        invariant
            i <= insts.len(),
            best is None ==> forall|j: int| 0 <= j < i ==> !lex_le((#[trigger] insts@[j]).from@, ns@),
            best matches Some(b) ==> b < i && lex_le(insts@[b as int].from@, ns@) && forall|j: int|
                0 <= j < i && lex_le((#[trigger] insts@[j]).from@, ns@) ==> lex_lt(
                    insts@[j].from@,
                    insts@[b as int].from@,
                ) || (insts@[j].from@ == insts@[b as int].from@ && j <= b),
        decreases insts.len() - i,
    {
        let at_or_below = match compare_str(insts[i].from.as_str(), ns) {
            Ordering::Greater => false,
            _ => true,
        };
        if at_or_below {
            match best {
                None => {
                    best = Some(i);
                },
                Some(b) => {
                    let take = match compare_str(insts[b].from.as_str(), insts[i].from.as_str()) {
                        Ordering::Greater => false,
                        _ => true,
                    };
                    if take {
                        proof {
                            let fb = insts@[b as int].from@;
                            let fi = insts@[i as int].from@;
                            assert forall|j: int|
                                0 <= j < i && lex_le((#[trigger] insts@[j]).from@, ns@) implies lex_lt(
                                insts@[j].from@,
                                fi,
                            ) || (insts@[j].from@ == fi && j <= i) by {
                                let fj = insts@[j].from@;
                                if lex_lt(fj, fb) && lex_lt(fb, fi) {
                                    lemma_lex_transitive(fj, fb, fi);
                                }
                            }
                        }
                        best = Some(i);
                    }
                },
            }
        }
        i = i + 1;
    }
    best
}

/// Whether the instance or overlay lists name `url`.
pub open spec fn references(insts: Seq<Instance>, migs: Seq<MigrationInstance>, url: Seq<char>) -> bool {
    ||| exists|i: int| 0 <= i < insts.len() && (#[trigger] insts[i]).url@ == url
    ||| exists|j: int| 0 <= j < migs.len() && (#[trigger] migs[j]).url@ == url
}

/// Whether some manager in `ms` serves `url`.
pub open spec fn has_manager<H>(ms: Seq<ConnectionManager<H>>, url: Seq<char>) -> bool {
    exists|k: int| 0 <= k < ms.len() && (#[trigger] ms[k]).spec_url() == url
}

/// The managers of `ms` serve pairwise distinct urls.
pub open spec fn distinct_managers<H>(ms: Seq<ConnectionManager<H>>) -> bool {
    forall|a: int, b: int|
        0 <= a < ms.len() && 0 <= b < ms.len() && a != b ==> (#[trigger] ms[a]).spec_url() != (
        #[trigger] ms[b]).spec_url()
}

/// The position of the manager for `url` in `ms`, if any.
fn position_of<H>(ms: &Vec<ConnectionManager<H>>, url: &str) -> (r: Option<usize>)
    ensures
        r is None <==> !has_manager(ms@, url@),
        r matches Some(k) ==> k < ms@.len() && ms@[k as int].spec_url() == url@,
{
    let mut k: usize = 0;
    while k < ms.len()
        invariant
            k <= ms.len(),
            forall|a: int| 0 <= a < k ==> (#[trigger] ms@[a]).spec_url() != url@,
        decreases ms.len() - k,
    {
        if str_eq(ms[k].url(), url) {
            return Some(k);
        }
        k = k + 1;
    }
    None
}

/// Removing the manager at `k` keeps every other manager.
proof fn lemma_remove_manager<H>(s: Seq<ConnectionManager<H>>, k: int)
    requires
        0 <= k < s.len(),
    ensures
        forall|x: ConnectionManager<H>| s.remove(k).contains(x) ==> s.contains(x),
        forall|u: Seq<char>| u != s[k].spec_url() && has_manager(s, u) ==> #[trigger] has_manager(s.remove(k), u),
{
    assert forall|x: ConnectionManager<H>| s.remove(k).contains(x) implies s.contains(x) by {
        let i = choose|i: int| 0 <= i < s.remove(k).len() && s.remove(k)[i] == x;
        if i < k {
            assert(s[i] == x);
        } else {
            assert(s[i + 1] == x);
        }
    }
    assert forall|u: Seq<char>| u != s[k].spec_url() && has_manager(s, u) implies #[trigger] has_manager(s.remove(k), u) by {
        let i = choose|i: int| 0 <= i < s.len() && (#[trigger] s[i]).spec_url() == u;
        if i < k {
            assert(s.remove(k)[i] == s[i]);
        } else {
            assert(s.remove(k)[i - 1] == s[i]);
        }
    }
}

/// Where a manager of a refreshed directory comes from: the manager that
/// served its url before, else a manager opened for the refresh, else a fresh
/// manager without a handle.
pub open spec fn provenance<H>(
    x: ConnectionManager<H>,
    before: Seq<ConnectionManager<H>>,
    opened: Seq<ConnectionManager<H>>,
) -> bool {
    &&& has_manager(before, x.spec_url()) ==> before.contains(x)
    &&& !has_manager(before, x.spec_url()) && has_manager(opened, x.spec_url()) ==> opened.contains(x)
    &&& !has_manager(before, x.spec_url()) && !has_manager(opened, x.spec_url()) ==> x.spec_handle() is None
        && !x.spec_degraded()
}

/// What a refresh keeps true while it adopts one url after another.
spec fn adoption_inv<H>(
    out: Seq<ConnectionManager<H>>,
    olds: Seq<ConnectionManager<H>>,
    opened: Seq<ConnectionManager<H>>,
    before: Seq<ConnectionManager<H>>,
    offered: Seq<ConnectionManager<H>>,
) -> bool {
    &&& distinct_managers(out)
    &&& forall|k: int| 0 <= k < out.len() ==> provenance(#[trigger] out[k], before, offered)
    &&& forall|x: ConnectionManager<H>| olds.contains(x) ==> before.contains(x)
    &&& forall|x: ConnectionManager<H>| opened.contains(x) ==> offered.contains(x)
    &&& forall|u: Seq<char>|
        !has_manager(out, u) && has_manager(before, u) ==> #[trigger] has_manager(olds, u)
    &&& forall|u: Seq<char>|
        !has_manager(out, u) && has_manager(offered, u) ==> #[trigger] has_manager(opened, u)
}

/// Gives `url` a manager in `out`, unless it has one: the old one if any,
/// else an opened one, else a fresh one without a handle.
fn adopt<H>(
    out: &mut Vec<ConnectionManager<H>>,
    olds: &mut Vec<ConnectionManager<H>>,
    opened: &mut Vec<ConnectionManager<H>>,
    url: &String,
    before: Ghost<Seq<ConnectionManager<H>>>,
    offered: Ghost<Seq<ConnectionManager<H>>>,
)
    requires
        adoption_inv(old(out)@, old(olds)@, old(opened)@, before@, offered@),
    ensures
        adoption_inv(final(out)@, final(olds)@, final(opened)@, before@, offered@),
        forall|u: Seq<char>|
            #[trigger] has_manager(final(out)@, u) <==> (has_manager(old(out)@, u) || u == url@),
{
    if position_of(out, url.as_str()).is_some() {
        return;
    }
    let ghost out0 = out@;
    let m = match position_of(olds, url.as_str()) {
        Some(k) => {
            proof {
                lemma_remove_manager(olds@, k as int);
            }
            let m = olds.remove(k);
            proof {
                assert(before@.contains(m)) by {
                    assert(old(olds)@.contains(old(olds)@[k as int]));
                }
            }
            m
        },
        None => {
            match position_of(opened, url.as_str()) {
                Some(k) => {
                    proof {
                        lemma_remove_manager(opened@, k as int);
                    }
                    let m = opened.remove(k);
                    proof {
                        assert(offered@.contains(m)) by {
                            assert(old(opened)@.contains(old(opened)@[k as int]));
                        }
                        assert(!has_manager(before@, url@));
                        if has_manager(before@, m.spec_url()) {
                            let w = choose|w: int| 0 <= w < before@.len() && (#[trigger] before@[w]).spec_url() == url@;
                            assert(has_manager(before@, url@));
                        }
                    }
                    m
                },
                None => {
                    proof {
                        assert(!has_manager(before@, url@));
                        assert(!has_manager(offered@, url@));
                    }
                    ConnectionManager::new(url.clone(), None)
                },
            }
        },
    };
    out.push(m);
    proof {
        assert(out@ == out0.push(m));
        assert(out@[out0.len() as int] == m);
        assert forall|u: Seq<char>| #[trigger] has_manager(out@, u) <==> (has_manager(out0, u) || u == url@) by {
            if has_manager(out0, u) {
                let w = choose|w: int| 0 <= w < out0.len() && (#[trigger] out0[w]).spec_url() == u;
                assert(out@[w] == out0[w]);
            }
            if has_manager(out@, u) {
                let w = choose|w: int| 0 <= w < out@.len() && (#[trigger] out@[w]).spec_url() == u;
                if w < out0.len() {
                    assert(out0[w] == out@[w]);
                }
            }
        }
        assert forall|k: int| 0 <= k < out@.len() implies provenance(#[trigger] out@[k], before@, offered@) by {
            if k < out0.len() {
                assert(out@[k] == out0[k]);
            }
        }
        if has_manager(before@, url@) {
            assert(before@.contains(m));
        }
    }
}

/// Whether `v` holds the url `u`.
pub open spec fn lists_url(v: Seq<String>, u: Seq<char>) -> bool {
    exists|k: int| 0 <= k < v.len() && (#[trigger] v[k])@ == u
}

/// Appends `url` to `out` unless it is there already or a manager serves it.
fn note_url<H>(out: &mut Vec<String>, url: &String, managers: &Vec<ConnectionManager<H>>)
    requires
        forall|a: int, b: int|
            0 <= a < old(out)@.len() && 0 <= b < old(out)@.len() && a != b ==> (#[trigger] old(out)@[a])@ != (
            #[trigger] old(out)@[b])@,
    ensures
        forall|a: int, b: int|
            0 <= a < final(out)@.len() && 0 <= b < final(out)@.len() && a != b ==> (#[trigger] final(out)@[a])@ != (
            #[trigger] final(out)@[b])@,
        forall|u: Seq<char>|
            #[trigger] lists_url(final(out)@, u) <==> (lists_url(old(out)@, u) || (u == url@ && !has_manager(managers@, u))),
{
    if position_of(managers, url.as_str()).is_some() {
        return;
    }
    let mut k: usize = 0;
    while k < out.len()
        invariant
            k <= out.len(),
            out@ == old(out)@,
            forall|a: int, b: int|
                0 <= a < out@.len() && 0 <= b < out@.len() && a != b ==> (#[trigger] out@[a])@ != (
                #[trigger] out@[b])@,
            forall|a: int| 0 <= a < k ==> (#[trigger] out@[a])@ != url@,
        decreases out.len() - k,
    {
        if str_eq(out[k].as_str(), url.as_str()) {
            assert(lists_url(out@, url@));
            return;
        }
        k = k + 1;
    }
    let ghost out0 = out@;
    out.push(url.clone());
    proof {
        assert(out@[out0.len() as int]@ == url@);
        assert forall|u: Seq<char>| #[trigger] lists_url(out@, u) <==> (lists_url(out0, u) || u == url@) by {
            if lists_url(out0, u) {
                let w = choose|w: int| 0 <= w < out0.len() && (#[trigger] out0[w])@ == u;
                assert(out@[w] == out0[w]);
            }
            if lists_url(out@, u) {
                let w = choose|w: int| 0 <= w < out@.len() && (#[trigger] out@[w])@ == u;
                if w < out0.len() {
                    assert(out0[w] == out@[w]);
                }
            }
        }
    }
}

/// `ms` holds exactly one manager for each url that `insts` and `migs`
/// reference, and no other.
pub open spec fn table_wf<H>(
    insts: Seq<Instance>,
    migs: Seq<MigrationInstance>,
    ms: Seq<ConnectionManager<H>>,
) -> bool {
    &&& distinct_managers(ms)
    &&& forall|k: int| 0 <= k < ms.len() ==> references(insts, migs, (#[trigger] ms[k]).spec_url())
    &&& forall|u: Seq<char>| references(insts, migs, u) ==> #[trigger] has_manager(ms, u)
}

/// Replacing managers by managers of the same urls keeps a table well formed.
proof fn lemma_same_urls<H>(
    insts: Seq<Instance>,
    migs: Seq<MigrationInstance>,
    ms: Seq<ConnectionManager<H>>,
    ns: Seq<ConnectionManager<H>>,
)
    requires
        table_wf(insts, migs, ms),
        ms.len() == ns.len(),
        forall|k: int| 0 <= k < ms.len() ==> (#[trigger] ms[k]).spec_url() == ns[k].spec_url(),
    ensures
        table_wf(insts, migs, ns),
{
    assert forall|u: Seq<char>| references(insts, migs, u) implies #[trigger] has_manager(ns, u) by {
        assert(has_manager(ms, u));
        let w = choose|w: int| 0 <= w < ms.len() && (#[trigger] ms[w]).spec_url() == u;
        assert(ns[w].spec_url() == u);
    }
    assert forall|k: int| 0 <= k < ns.len() implies references(insts, migs, (#[trigger] ns[k]).spec_url()) by {
        assert(ms[k].spec_url() == ns[k].spec_url());
    }
    assert forall|a: int, b: int| 0 <= a < ns.len() && 0 <= b < ns.len() && a != b implies (#[trigger] ns[a]).spec_url() != (#[trigger] ns[b]).spec_url() by {
        assert(ms[a].spec_url() == ns[a].spec_url());
        assert(ms[b].spec_url() == ns[b].spec_url());
    }
}

/// The routing target of a read: the regular shard alone, or, while an
/// overlay holds the namespace, the regular shard and the migration shard.
pub enum ReadTarget<'a, H> {
    Single(&'a ConnectionManager<H>),
    Dual(&'a ConnectionManager<H>, &'a ConnectionManager<H>),
}

/// The directory: shard instances, migration overlays, and exactly one
/// connection manager for each url they reference.
pub struct Mappings<H> {
    instances: Vec<Instance>,
    migration_instances: Vec<MigrationInstance>,
    managers: Vec<ConnectionManager<H>>,
}

impl<H> Mappings<H> {
    pub closed spec fn spec_instances(&self) -> Seq<Instance> {
        self.instances@
    }

    pub closed spec fn spec_migrations(&self) -> Seq<MigrationInstance> {
        self.migration_instances@
    }

    pub closed spec fn spec_managers(&self) -> Seq<ConnectionManager<H>> {
        self.managers@
    }

    /// The managers are exactly those of the referenced urls, one per url.
    pub open spec fn wf(&self) -> bool {
        table_wf(self.spec_instances(), self.spec_migrations(), self.spec_managers())
    }

    #[verifier::type_invariant]
    closed spec fn inv(&self) -> bool {
        self.wf()
    }

    /// An empty directory: no shard is registered yet.
    pub fn new() -> (r: Self)
        ensures
            r.wf(),
            r.spec_instances().len() == 0,
            r.spec_migrations().len() == 0,
            r.spec_managers().len() == 0,
    {
        Mappings { instances: Vec::new(), migration_instances: Vec::new(), managers: Vec::new() }
    }

    /// The shard instances.
    pub fn instances(&self) -> (r: &Vec<Instance>)
        ensures
            r@ == self.spec_instances(),
    {
        &self.instances
    }

    /// The migration overlays.
    pub fn migration_instances(&self) -> (r: &Vec<MigrationInstance>)
        ensures
            r@ == self.spec_migrations(),
    {
        &self.migration_instances
    }

    /// The connection managers.
    pub fn managers(&self) -> (r: &Vec<ConnectionManager<H>>)
        ensures
            r@ == self.spec_managers(),
    {
        &self.managers
    }

    /// The position of the manager for `url`, if there is one.
    pub fn find_manager(&self, url: &str) -> (r: Option<usize>)
        ensures
            r is None <==> !has_manager(self.spec_managers(), url@),
            r matches Some(k) ==> k < self.spec_managers().len() && self.spec_managers()[k as int].spec_url() == url@,
    {
        position_of(&self.managers, url)
    }

    /// The manager of a url that the directory references.
    fn manager_for(&self, url: &str) -> (r: &ConnectionManager<H>)
        requires
            references(self.spec_instances(), self.spec_migrations(), url@),
        ensures
            r.spec_url() == url@,
            self.spec_managers().contains(*r),
    {
        proof {
            use_type_invariant(self);
        }
        assert(has_manager(self.spec_managers(), url@));
        let k = self.find_manager(url).unwrap();
        &self.managers[k]
    }

    /// The urls that `instances` and `migrations` reference and that no
    /// manager serves yet, each once: the connections a refresh must open.
    pub fn urls_to_open(&self, instances: &Vec<Instance>, migrations: &Vec<MigrationInstance>) -> (r: Vec<String>)
        ensures
            forall|u: Seq<char>|
                #[trigger] lists_url(r@, u) <==> (references(instances@, migrations@, u) && !has_manager(
                    self.spec_managers(),
                    u,
                )),
            forall|a: int, b: int|
                0 <= a < r@.len() && 0 <= b < r@.len() && a != b ==> (#[trigger] r@[a])@ != (#[trigger] r@[b])@,
    {
        let mut out: Vec<String> = Vec::new();
        let ghost none: Seq<MigrationInstance> = Seq::empty();
        let mut i: usize = 0;
        while i < instances.len()
            invariant
                i <= instances.len(),
                none.len() == 0,
                forall|u: Seq<char>|
                    #[trigger] lists_url(out@, u) <==> (references(instances@.take(i as int), none, u)
                        && !has_manager(self.managers@, u)),
                forall|a: int, b: int|
                    0 <= a < out@.len() && 0 <= b < out@.len() && a != b ==> (#[trigger] out@[a])@ != (
                    #[trigger] out@[b])@,
            decreases instances.len() - i,
        {
            note_url(&mut out, &instances[i].url, &self.managers);
            proof {
                let prev = instances@.take(i as int);
                let next = instances@.take(i + 1);
                assert(next =~= prev.push(instances@[i as int]));
                assert forall|u: Seq<char>| references(next, none, u) <==> (references(prev, none, u) || u == instances@[i as int].url@) by {
                    assert(!(exists|w: int| 0 <= w < none.len() && (#[trigger] none[w]).url@ == u));
                    if references(prev, none, u) {
                        let w = choose|w: int| 0 <= w < prev.len() && (#[trigger] prev[w]).url@ == u;
                        assert(next[w] == prev[w]);
                    }
                    if u == instances@[i as int].url@ {
                        assert(next[i as int] == instances@[i as int]);
                    }
                    if references(next, none, u) {
                        let w = choose|w: int| 0 <= w < next.len() && (#[trigger] next[w]).url@ == u;
                        if w < i {
                            assert(prev[w] == next[w]);
                        }
                    }
                }
            }
            i = i + 1;
        }
        assert(instances@.take(i as int) =~= instances@);
        let mut j: usize = 0;
        while j < migrations.len()
            invariant
                j <= migrations.len(),
                forall|u: Seq<char>|
                    #[trigger] lists_url(out@, u) <==> (references(instances@, migrations@.take(j as int), u)
                        && !has_manager(self.managers@, u)),
                forall|a: int, b: int|
                    0 <= a < out@.len() && 0 <= b < out@.len() && a != b ==> (#[trigger] out@[a])@ != (
                    #[trigger] out@[b])@,
            decreases migrations.len() - j,
        {
            note_url(&mut out, &migrations[j].url, &self.managers);
            proof {
                let prev = migrations@.take(j as int);
                let next = migrations@.take(j + 1);
                assert(next =~= prev.push(migrations@[j as int]));
                assert forall|u: Seq<char>| references(instances@, next, u) <==> (references(instances@, prev, u) || u == migrations@[j as int].url@) by {
                    if (exists|w: int| 0 <= w < prev.len() && (#[trigger] prev[w]).url@ == u) {
                        let w = choose|w: int| 0 <= w < prev.len() && (#[trigger] prev[w]).url@ == u;
                        assert(next[w] == prev[w]);
                    }
                    if u == migrations@[j as int].url@ {
                        assert(next[j as int] == migrations@[j as int]);
                    }
                    if (exists|w: int| 0 <= w < next.len() && (#[trigger] next[w]).url@ == u) {
                        let w = choose|w: int| 0 <= w < next.len() && (#[trigger] next[w]).url@ == u;
                        if w < j {
                            assert(prev[w] == next[w]);
                        }
                    }
                }
            }
            j = j + 1;
        }
        assert(migrations@.take(j as int) =~= migrations@);
        out
    }

    /// Replaces the instance and overlay lists wholesale and reconciles the
    /// managers: a url that keeps being referenced keeps its manager (and its
    /// health); a newly referenced url takes a manager from `opened` if one
    /// serves it, else a manager without a handle; managers of urls that are
    /// no longer referenced are dropped, which retires them.
    pub fn apply_refresh(
        &mut self,
        instances: Vec<Instance>,
        migrations: Vec<MigrationInstance>,
        opened: Vec<ConnectionManager<H>>,
    )
        ensures
            final(self).wf(),
            final(self).spec_instances() == instances@,
            final(self).spec_migrations() == migrations@,
            forall|k: int|
                0 <= k < final(self).spec_managers().len() ==> provenance(
                    #[trigger] final(self).spec_managers()[k],
                    old(self).spec_managers(),
                    opened@,
                ),
    {
        let ghost before = self.managers@;
        let ghost offered = opened@;
        let mut taken: Mappings<H> = Mappings::new();
        std::mem::swap(self, &mut taken);
        let Mappings { instances: _, migration_instances: _, managers: mut olds } = taken;
        let mut opened = opened;
        let mut out: Vec<ConnectionManager<H>> = Vec::new();
        let ghost none: Seq<MigrationInstance> = Seq::empty();
        let mut i: usize = 0;
        while i < instances.len()
            invariant
                i <= instances.len(),
                none.len() == 0,
                adoption_inv(out@, olds@, opened@, before, offered),
                forall|u: Seq<char>|
                    #[trigger] has_manager(out@, u) <==> references(instances@.take(i as int), none, u),
            decreases instances.len() - i,
        {
            let ghost out0 = out@;
            adopt(&mut out, &mut olds, &mut opened, &instances[i].url, Ghost(before), Ghost(offered));
            proof {
                let prev = instances@.take(i as int);
                let next = instances@.take(i + 1);
                assert(next =~= prev.push(instances@[i as int]));
                assert forall|u: Seq<char>| #[trigger] has_manager(out@, u) <==> references(next, none, u) by {
                    assert(!(exists|w: int| 0 <= w < none.len() && (#[trigger] none[w]).url@ == u));
                    if references(prev, none, u) {
                        let w = choose|w: int| 0 <= w < prev.len() && (#[trigger] prev[w]).url@ == u;
                        assert(next[w] == prev[w]);
                    }
                    if u == instances@[i as int].url@ {
                        assert(next[i as int] == instances@[i as int]);
                    }
                    if references(next, none, u) {
                        let w = choose|w: int| 0 <= w < next.len() && (#[trigger] next[w]).url@ == u;
                        if w < i {
                            assert(prev[w] == next[w]);
                        }
                    }
                }
            }
            i = i + 1;
        }
        assert(instances@.take(i as int) =~= instances@);
        let mut j: usize = 0;
        while j < migrations.len()
            invariant
                j <= migrations.len(),
                adoption_inv(out@, olds@, opened@, before, offered),
                forall|u: Seq<char>|
                    #[trigger] has_manager(out@, u) <==> references(instances@, migrations@.take(j as int), u),
            decreases migrations.len() - j,
        {
            adopt(&mut out, &mut olds, &mut opened, &migrations[j].url, Ghost(before), Ghost(offered));
            proof {
                let prev = migrations@.take(j as int);
                let next = migrations@.take(j + 1);
                assert(next =~= prev.push(migrations@[j as int]));
                assert forall|u: Seq<char>| #[trigger] has_manager(out@, u) <==> references(instances@, next, u) by {
                    if references(instances@, prev, u) && !(exists|w: int| 0 <= w < instances@.len() && (#[trigger] instances@[w]).url@ == u) {
                        let w = choose|w: int| 0 <= w < prev.len() && (#[trigger] prev[w]).url@ == u;
                        assert(next[w] == prev[w]);
                    }
                    if u == migrations@[j as int].url@ {
                        assert(next[j as int] == migrations@[j as int]);
                    }
                    if references(instances@, next, u) && !(exists|w: int| 0 <= w < instances@.len() && (#[trigger] instances@[w]).url@ == u) {
                        let w = choose|w: int| 0 <= w < next.len() && (#[trigger] next[w]).url@ == u;
                        if w < j {
                            assert(prev[w] == next[w]);
                        }
                    }
                }
            }
            j = j + 1;
        }
        assert(migrations@.take(j as int) =~= migrations@);
        proof {
            assert forall|k: int| 0 <= k < out@.len() implies references(
                instances@,
                migrations@,
                (#[trigger] out@[k]).spec_url(),
            ) by {
                assert(has_manager(out@, out@[k].spec_url()));
            }
        }
        *self = Mappings { instances, migration_instances: migrations, managers: out };
    }

    /// Reports a transport failure on the shard at `url`; see
    /// `ConnectionManager::report_failure`. `None` when no manager serves the
    /// url any more.
    pub fn report_failure(&mut self, url: &str) -> (r: Option<(MongoErr, bool)>)
        ensures
            final(self).wf(),
            final(self).spec_instances() == old(self).spec_instances(),
            final(self).spec_migrations() == old(self).spec_migrations(),
            !has_manager(old(self).spec_managers(), url@) ==> r is None && final(self).spec_managers()
                == old(self).spec_managers(),
            has_manager(old(self).spec_managers(), url@) ==> exists|k: int|
                0 <= k < old(self).spec_managers().len() && (#[trigger] old(self).spec_managers()[k]).spec_url()
                    == url@ && final(self).spec_managers() == old(self).spec_managers().update(
                    k,
                    old(self).spec_managers()[k].after_failure(),
                ) && (r matches Some((e, started)) && (old(self).spec_managers()[k].spec_handle() is Some
                    ==> (e matches MongoErr::Unreachable(u) && u@ == url@) && started
                    == !old(self).spec_managers()[k].spec_degraded()) && (
                old(self).spec_managers()[k].spec_handle() is None ==> (e matches MongoErr::InvalidUrl(
                    u,
                ) && u@ == url@) && !started)),
    {
        proof {
            use_type_invariant(&*self);
        }
        match self.find_manager(url) {
            None => None,
            Some(k) => {
                let mut taken: Mappings<H> = Mappings::new();
                std::mem::swap(self, &mut taken);
                proof {
                    use_type_invariant(&taken);
                }
                let Mappings { instances, migration_instances, mut managers } = taken;
                let ghost ms = managers@;
                let mut m = managers.remove(k);
                let outcome = m.report_failure();
                proof {
                    ms[k as int].lemma_transitions_keep_identity();
                }
                managers.insert(k, m);
                proof {
                    assert(managers@ =~= ms.update(k as int, ms[k as int].after_failure()));
                    lemma_same_urls(instances@, migration_instances@, ms, managers@);
                }
                *self = Mappings { instances, migration_instances, managers };
                Some(outcome)
            },
        }
    }

    /// Records that the probe of the shard at `url` succeeded. Returns
    /// whether a manager serves the url.
    pub fn mark_recovered(&mut self, url: &str) -> (r: bool)
        ensures
            final(self).wf(),
            final(self).spec_instances() == old(self).spec_instances(),
            final(self).spec_migrations() == old(self).spec_migrations(),
            r == has_manager(old(self).spec_managers(), url@),
            !r ==> final(self).spec_managers() == old(self).spec_managers(),
            r ==> exists|k: int|
                0 <= k < old(self).spec_managers().len() && (#[trigger] old(self).spec_managers()[k]).spec_url()
                    == url@ && final(self).spec_managers() == old(self).spec_managers().update(
                    k,
                    old(self).spec_managers()[k].after_recovery(),
                ),
    {
        proof {
            use_type_invariant(&*self);
        }
        match self.find_manager(url) {
            None => false,
            Some(k) => {
                let mut taken: Mappings<H> = Mappings::new();
                std::mem::swap(self, &mut taken);
                proof {
                    use_type_invariant(&taken);
                }
                let Mappings { instances, migration_instances, mut managers } = taken;
                let ghost ms = managers@;
                let mut m = managers.remove(k);
                m.mark_recovered();
                proof {
                    ms[k as int].lemma_transitions_keep_identity();
                }
                managers.insert(k, m);
                proof {
                    assert(managers@ =~= ms.update(k as int, ms[k as int].after_recovery()));
                    lemma_same_urls(instances@, migration_instances@, ms, managers@);
                }
                *self = Mappings { instances, migration_instances, managers };
                true
            },
        }
    }

    /// The manager that takes writes for `namespace`: the first overlay that
    /// holds it wins; otherwise the instance with the greatest `from` not
    /// above it. Fails when neither exists.
    pub fn resolve_for_write(&self, namespace: &str) -> (r: Result<&ConnectionManager<H>, MongoErr>)
        ensures
            has_overlay(self.spec_migrations(), namespace@) ==> exists|j: int|
                is_first_overlay(self.spec_migrations(), namespace@, j) && (r matches Ok(m)
                    && m.spec_url() == (#[trigger] self.spec_migrations()[j]).url@),
            !has_overlay(self.spec_migrations(), namespace@) && has_owner(self.spec_instances(), namespace@)
                ==> exists|i: int|
                is_owner(self.spec_instances(), namespace@, i) && (r matches Ok(m) && m.spec_url()
                    == (#[trigger] self.spec_instances()[i]).url@),
            !has_overlay(self.spec_migrations(), namespace@) && !has_owner(self.spec_instances(), namespace@)
                ==> (r matches Err(MongoErr::NoShardAvailable(s)) && s@ == namespace@),
            r matches Ok(m) ==> self.spec_managers().contains(*m),
    {
        if let Some(j) = find_overlay(&self.migration_instances, namespace) {
            assert(references(self.instances@, self.migration_instances@, self.migration_instances@[j as int].url@));
            let m = self.manager_for(self.migration_instances[j].url.as_str());
            return Ok(m);
        }
        match find_owner(&self.instances, namespace) {
            Some(i) => {
                assert(references(self.instances@, self.migration_instances@, self.instances@[i as int].url@));
                Ok(self.manager_for(self.instances[i].url.as_str()))
            },
            None => Err(MongoErr::NoShardAvailable(namespace.to_owned())),
        }
    }

    /// The managers that serve reads of `namespace`: the regular owner, and
    /// with it the first overlay that holds the namespace, if any. Fails when
    /// no instance owns the namespace.
    pub fn resolve_for_read(&self, namespace: &str) -> (r: Result<ReadTarget<'_, H>, MongoErr>)
        ensures
            !has_owner(self.spec_instances(), namespace@) ==> (r matches Err(
                MongoErr::NoShardAvailable(s),
            ) && s@ == namespace@),
            has_owner(self.spec_instances(), namespace@) && !has_overlay(self.spec_migrations(), namespace@)
                ==> exists|i: int|
                is_owner(self.spec_instances(), namespace@, i) && (r matches Ok(ReadTarget::Single(m))
                    && m.spec_url() == (#[trigger] self.spec_instances()[i]).url@),
            has_owner(self.spec_instances(), namespace@) && has_overlay(self.spec_migrations(), namespace@)
                ==> exists|i: int, j: int|
                is_owner(self.spec_instances(), namespace@, i) && is_first_overlay(
                    self.spec_migrations(),
                    namespace@,
                    j,
                ) && (r matches Ok(ReadTarget::Dual(a, b)) && a.spec_url() == (
                #[trigger] self.spec_instances()[i]).url@ && b.spec_url() == (
                #[trigger] self.spec_migrations()[j]).url@),
            r matches Ok(ReadTarget::Single(m)) ==> self.spec_managers().contains(*m),
            r matches Ok(ReadTarget::Dual(a, b)) ==> self.spec_managers().contains(*a)
                && self.spec_managers().contains(*b),
    {
        let owner = match find_owner(&self.instances, namespace) {
            Some(i) => i,
            None => {
                return Err(MongoErr::NoShardAvailable(namespace.to_owned()));
            },
        };
        assert(references(self.instances@, self.migration_instances@, self.instances@[owner as int].url@));
        let regular = self.manager_for(self.instances[owner].url.as_str());
        match find_overlay(&self.migration_instances, namespace) {
            Some(j) => {
                assert(references(self.instances@, self.migration_instances@, self.migration_instances@[j as int].url@));
                let migration = self.manager_for(self.migration_instances[j].url.as_str());
                Ok(ReadTarget::Dual(regular, migration))
            },
            None => Ok(ReadTarget::Single(regular)),
        }
    }
}

} // verus!
