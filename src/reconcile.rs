//! Reconciliation of a fresh scrape with the directory snapshot.
//!
//! A run goes in two steps. `geocode_queue` lists, in scrape order, the
//! addresses that need coordinates: those of new names and those of known
//! names whose address changed. Once the caller has resolved each of them,
//! `reconcile` classifies every scraped entry and every unseen record into
//! updates, creations and closures, giving new records the identifiers that
//! follow the largest one the store has issued.
use vstd::prelude::*;
use crate::extract::EntryModel;
use crate::record::{Arcade, ArcadeModel, Location, LocationModel, models, copy_arcade};
use crate::snapshot::{Snapshot, snapshot_wf, names_contain, index_of_name, lemma_index_of_name};

verus! {

/// Whether the scraped entry needs coordinates: its name is new, or its
/// address differs from the stored one.
pub open spec fn needs_geocode(existing: Seq<ArcadeModel>, e: EntryModel) -> bool {
    match index_of_name(existing, e.0) {
        None => true,
        Some(k) => existing[k].address != e.1,
    }
}

/// The addresses to geocode, in scrape order.
pub open spec fn geocode_addresses(existing: Seq<ArcadeModel>, scraped: Seq<EntryModel>) -> Seq<Seq<char>>
    decreases scraped.len(),
{
    if scraped.len() == 0 {
        seq![]
    } else {
        let prev = geocode_addresses(existing, scraped.drop_last());
        if needs_geocode(existing, scraped.last()) {
            prev.push(scraped.last().1)
        } else {
            prev
        }
    }
}

/// `r` moved to a new address with new coordinates; all else is kept.
pub open spec fn moved(r: ArcadeModel, address: Seq<char>, loc: LocationModel) -> ArcadeModel {
    ArcadeModel {
        id: r.id,
        name: r.name,
        address: address,
        dead: r.dead,
        cost: r.cost,
        count: r.count,
        lat: loc.lat,
        lng: loc.lng,
        created_at: r.created_at,
    }
}

/// A new, live record with no operator metadata.
pub open spec fn created(id: int, e: EntryModel, loc: LocationModel, now: i64) -> ArcadeModel {
    ArcadeModel {
        id: id as i32,
        name: e.0,
        address: e.1,
        dead: false,
        cost: None,
        count: None,
        lat: loc.lat,
        lng: loc.lng,
        created_at: now,
    }
}

/// `r` marked as closed; all else is kept.
pub open spec fn closed(r: ArcadeModel) -> ArcadeModel {
    ArcadeModel {
        id: r.id,
        name: r.name,
        address: r.address,
        dead: true,
        cost: r.cost,
        count: r.count,
        lat: r.lat,
        lng: r.lng,
        created_at: r.created_at,
    }
}

/// The updates and the creations that the scraped entries call for, in scrape
/// order. The entry that needs the `k`-th geocoding gets `locs[k]`; the `c`-th
/// creation gets the identifier `max_id + c + 1`.
pub open spec fn classify(
    existing: Seq<ArcadeModel>,
    scraped: Seq<EntryModel>,
    max_id: int,
    now: i64,
    locs: Seq<LocationModel>,
) -> (Seq<ArcadeModel>, Seq<ArcadeModel>)
    decreases scraped.len(),
{
    if scraped.len() == 0 {
        (seq![], seq![])
    } else {
        let prev = classify(existing, scraped.drop_last(), max_id, now, locs);
        let e = scraped.last();
        let k = (prev.0.len() + prev.1.len()) as int;
        match index_of_name(existing, e.0) {
            None => (prev.0, prev.1.push(created(max_id + prev.1.len() + 1, e, locs[k], now))),
            Some(j) => if existing[j].address == e.1 {
                prev
            } else {
                (prev.0.push(moved(existing[j], e.1, locs[k])), prev.1)
            },
        }
    }
}

/// Whether some scraped entry has the name `n`.
pub open spec fn scraped_has(scraped: Seq<EntryModel>, n: Seq<char>) -> bool {
    exists|i: int| 0 <= i < scraped.len() && (#[trigger] scraped[i]).0 == n
}

/// The closures: every live record whose name no scraped entry has, marked
/// dead, in snapshot order.
pub open spec fn closures(existing: Seq<ArcadeModel>, scraped: Seq<EntryModel>) -> Seq<ArcadeModel>
    decreases existing.len(),
{
    if existing.len() == 0 {
        seq![]
    } else {
        let prev = closures(existing.drop_last(), scraped);
        let r = existing.last();
        if !r.dead && !scraped_has(scraped, r.name) {
            prev.push(closed(r))
        } else {
            prev
        }
    }
}

/// The models of a sequence of locations.
pub open spec fn location_models(v: Seq<Location>) -> Seq<LocationModel> {
    v.map_values(|l: Location| l@)
}

/// The three batches of a run, in the order they are applied.
#[derive(Debug)]
pub struct ReconcilePlan {
    /// Known records whose address changed, with their new coordinates.
    pub to_update: Vec<Arcade>,
    /// Records for names the snapshot does not know.
    pub to_create: Vec<Arcade>,
    /// Live records no longer listed, marked dead.
    pub to_close: Vec<Arcade>,
}

impl ReconcilePlan {
    /// Whether the plan changes nothing.
    pub fn is_empty(&self) -> (r: bool)
        ensures
            r == (self.to_update@.len() == 0 && self.to_create@.len() == 0 && self.to_close@.len() == 0),
    {
        self.to_update.len() == 0 && self.to_create.len() == 0 && self.to_close.len() == 0
    }
}

proof fn lemma_geocode_prefix(existing: Seq<ArcadeModel>, scraped: Seq<EntryModel>, i: int)
    requires
        0 <= i <= scraped.len(),
    ensures
        geocode_addresses(existing, scraped.take(i)).len() <= geocode_addresses(existing, scraped).len(),
    decreases scraped.len() - i,
{
    if i == scraped.len() {
        assert(scraped.take(i) =~= scraped);
    } else {
        lemma_geocode_prefix(existing, scraped, i + 1);
        assert(scraped.take(i + 1).drop_last() =~= scraped.take(i));
    }
}

/// The addresses that need geocoding before the scrape can be reconciled, in
/// scrape order: that of each entry whose name the snapshot does not know, and
/// that of each entry whose address differs from the stored one.
pub fn geocode_queue(existing: &Snapshot, scraped: &Vec<(String, String)>) -> (r: Vec<String>)
    requires
        existing.wf(),
    ensures
        r.deep_view() == geocode_addresses(existing@, scraped.deep_view()),
{
    let ghost sv = scraped.deep_view();
    let records = existing.records();
    let mut out: Vec<String> = Vec::new();
    let mut i: usize = 0;
    assert(sv.take(0) =~= Seq::<EntryModel>::empty());
    assert(out.deep_view() =~= Seq::<Seq<char>>::empty());
    while i < scraped.len()
        invariant
            existing.wf(),
            models(records@) == existing@,
            sv == scraped.deep_view(),
            i <= scraped@.len(),
            out.deep_view() == geocode_addresses(existing@, sv.take(i as int)),
        decreases scraped@.len() - i,
    {
        let (name, address) = &scraped[i];
        assert(sv[i as int] == (name@, address@));
        assert(sv.take(i as int + 1).drop_last() =~= sv.take(i as int));
        assert(sv.take(i as int + 1).last() == sv[i as int]);
        let needs = match existing.find(name) {
            None => true,
            Some(k) => {
                assert(records@[k as int]@ == existing@[k as int]);
                records[k].arcade_address != *address
            },
        };
        if needs {
            let ghost prev = out.deep_view();
            out.push(address.clone());
            assert(out.deep_view() =~= prev.push(address@));
        }
        i = i + 1;
    }
    assert(sv.take(i as int) =~= sv);
    out
}

/// Reconciles the scraped entries with the snapshot.
///
/// `locations[k]` holds the coordinates of the `k`-th address of
/// `geocode_queue(existing, scraped)`, and `max_id` the largest identifier the
/// store has issued. In scrape order, an entry whose name is known and whose
/// address changed gives an update carrying the new address and coordinates;
/// an entry whose name is new gives a live record with the next identifier and
/// `now` as its creation time. Every live record whose name no entry has is
/// then closed.
pub fn reconcile(
    existing: &Snapshot,
    scraped: &Vec<(String, String)>,
    max_id: i32,
    now: i64,
    locations: &Vec<Location>,
) -> (plan: ReconcilePlan)
    requires
        existing.wf(),
        locations@.len() == geocode_addresses(existing@, scraped.deep_view()).len(),
        max_id + scraped@.len() <= i32::MAX,
    ensures
        models(plan.to_update@) == classify(
            existing@,
            scraped.deep_view(),
            max_id as int,
            now,
            location_models(locations@),
        ).0,
        models(plan.to_create@) == classify(
            existing@,
            scraped.deep_view(),
            max_id as int,
            now,
            location_models(locations@),
        ).1,
        models(plan.to_close@) == closures(existing@, scraped.deep_view()),
{
    let ghost sv = scraped.deep_view();
    let ghost em = existing@;
    let ghost lm = location_models(locations@);
    let records = existing.records();
    let n = records.len();
    let n_locations = locations.len();
    let mut seen: Vec<bool> = Vec::new();
    let mut s: usize = 0;
    while s < n
        invariant
            s <= n == records@.len(),
            seen@.len() == s,
            forall|j: int| 0 <= j < s ==> !(#[trigger] seen@[j]),
        decreases n - s,
    {
        seen.push(false);
        s = s + 1;
    }
    let mut to_update: Vec<Arcade> = Vec::new();
    let mut to_create: Vec<Arcade> = Vec::new();
    let mut k: usize = 0;
    let mut i: usize = 0;
    assert(sv.take(0) =~= Seq::<EntryModel>::empty());
    assert(models(to_update@) =~= Seq::<ArcadeModel>::empty());
    assert(models(to_create@) =~= Seq::<ArcadeModel>::empty());
    while i < scraped.len()
        invariant
            existing.wf(),
            em == existing@,
            models(records@) == em,
            n == records@.len(),
            sv == scraped.deep_view(),
            lm == location_models(locations@),
            n_locations == locations@.len(),
            locations@.len() == geocode_addresses(em, sv).len(),
            max_id + scraped@.len() <= i32::MAX,
            i <= scraped@.len(),
            seen@.len() == n,
            forall|j: int| 0 <= j < n ==> #[trigger] seen@[j] == scraped_has(sv.take(i as int), em[j].name),
            (models(to_update@), models(to_create@)) == classify(em, sv.take(i as int), max_id as int, now, lm),
            k == to_update@.len() + to_create@.len(),
            k == geocode_addresses(em, sv.take(i as int)).len(),
            to_create@.len() <= i,
        decreases scraped@.len() - i,
    {
        let (name, address) = &scraped[i];
        let ghost prefix = sv.take(i as int);
        let ghost next = sv.take(i as int + 1);
        assert(sv[i as int] == (name@, address@));
        assert(next.drop_last() =~= prefix);
        assert(next.last() == sv[i as int]);
        proof {
            lemma_geocode_prefix(em, sv, i as int + 1);
        }
        let ghost old_seen = seen@;
        match existing.find(name) {
            None => {
                assert(k < locations@.len());
                let loc = &locations[k];
                assert(lm[k as int] == loc@);
                let id = (max_id as i64 + to_create.len() as i64 + 1) as i32;
                let ghost prev = models(to_create@);
                to_create.push(
                    Arcade {
                        arcade_id: id,
                        arcade_name: name.clone(),
                        arcade_address: address.clone(),
                        arcade_dead: false,
                        arcade_cost: None,
                        arcade_count: None,
                        arcade_lat: loc.lat.clone(),
                        arcade_lng: loc.lng.clone(),
                        created_at: now,
                    },
                );
                assert(models(to_create@) =~= prev.push(
                    created(max_id + prev.len() + 1, sv[i as int], lm[k as int], now),
                ));
                k = k + 1;
                assert forall|j: int| 0 <= j < n implies #[trigger] seen@[j] == scraped_has(next, em[j].name) by {
                    if scraped_has(next, em[j].name) {
                        let x = choose|x: int| 0 <= x < next.len() && (#[trigger] next[x]).0 == em[j].name;
                        if x == i {
                            assert(names_contain(em, name@));
                        } else {
                            assert(prefix[x] == next[x]);
                        }
                    }
                    if scraped_has(prefix, em[j].name) {
                        let x = choose|x: int| 0 <= x < prefix.len() && (#[trigger] prefix[x]).0 == em[j].name;
                        assert(prefix[x] == next[x]);
                    }
                }
            },
            Some(j0) => {
                let r = &records[j0];
                assert(r@ == em[j0 as int]);
                seen.set(j0, true);
                assert forall|j: int| 0 <= j < n implies #[trigger] seen@[j] == scraped_has(next, em[j].name) by {
                    if j == j0 {
                        assert(next[i as int].0 == em[j].name);
                    } else {
                        assert(seen@[j] == old_seen[j]);
                        if scraped_has(next, em[j].name) {
                            let x = choose|x: int| 0 <= x < next.len() && (#[trigger] next[x]).0 == em[j].name;
                            if x == i {
                                lemma_index_of_name(em, j);
                            } else {
                                assert(prefix[x] == next[x]);
                            }
                        }
                        if scraped_has(prefix, em[j].name) {
                            let x = choose|x: int| 0 <= x < prefix.len() && (#[trigger] prefix[x]).0 == em[j].name;
                            assert(prefix[x] == next[x]);
                        }
                    }
                }
                if r.arcade_address != *address {
                    assert(k < locations@.len());
                    let loc = &locations[k];
                    assert(lm[k as int] == loc@);
                    let ghost prev = models(to_update@);
                    let mut u = copy_arcade(r);
                    u.arcade_address = address.clone();
                    u.arcade_lat = loc.lat.clone();
                    u.arcade_lng = loc.lng.clone();
                    to_update.push(u);
                    assert(models(to_update@) =~= prev.push(moved(em[j0 as int], address@, lm[k as int])));
                    k = k + 1;
                }
            },
        }
        i = i + 1;
    }
    assert(sv.take(i as int) =~= sv);
    let mut to_close: Vec<Arcade> = Vec::new();
    let mut j: usize = 0;
    assert(em.take(0) =~= Seq::<ArcadeModel>::empty());
    assert(models(to_close@) =~= Seq::<ArcadeModel>::empty());
    while j < n
        invariant
            em == existing@,
            models(records@) == em,
            n == records@.len(),
            sv == scraped.deep_view(),
            seen@.len() == n,
            forall|x: int| 0 <= x < n ==> #[trigger] seen@[x] == scraped_has(sv, em[x].name),
            j <= n,
            models(to_close@) == closures(em.take(j as int), sv),
        decreases n - j,
    {
        let r = &records[j];
        assert(r@ == em[j as int]);
        assert(em.take(j as int + 1).drop_last() =~= em.take(j as int));
        assert(em.take(j as int + 1).last() == em[j as int]);
        if !r.arcade_dead && !seen[j] {
            let ghost prev = models(to_close@);
            let mut c = copy_arcade(r);
            c.arcade_dead = true;
            to_close.push(c);
            assert(models(to_close@) =~= prev.push(closed(em[j as int])));
        }
        j = j + 1;
    }
    assert(em.take(n as int) =~= em);
    ReconcilePlan { to_update, to_create, to_close }
}

/// Every creation is for a name that no record of the snapshot has.
pub proof fn lemma_created_names_are_new(
    existing: Seq<ArcadeModel>,
    scraped: Seq<EntryModel>,
    max_id: int,
    now: i64,
    locs: Seq<LocationModel>,
)
    ensures
        forall|c: int|
            0 <= c < classify(existing, scraped, max_id, now, locs).1.len() ==> !names_contain(
                existing,
                (#[trigger] classify(existing, scraped, max_id, now, locs).1[c]).name,
            ),
    decreases scraped.len(),
{
    if scraped.len() > 0 {
        lemma_created_names_are_new(existing, scraped.drop_last(), max_id, now, locs);
    }
}

/// Creations, updates and geocodings go together: each creation or update
/// takes one geocoded location, and no more creations are made than entries
/// scraped.
pub proof fn lemma_classify_counts(
    existing: Seq<ArcadeModel>,
    scraped: Seq<EntryModel>,
    max_id: int,
    now: i64,
    locs: Seq<LocationModel>,
)
    ensures
        classify(existing, scraped, max_id, now, locs).0.len() + classify(
            existing,
            scraped,
            max_id,
            now,
            locs,
        ).1.len() == geocode_addresses(existing, scraped).len(),
        classify(existing, scraped, max_id, now, locs).1.len() <= scraped.len(),
    decreases scraped.len(),
{
    if scraped.len() > 0 {
        lemma_classify_counts(existing, scraped.drop_last(), max_id, now, locs);
    }
}

/// The records created in a run get the identifiers that follow `max_id`, one
/// after another: they increase strictly, and when `max_id` is at least every
/// identifier of the snapshot, none of them is already in use, dead records
/// included.
pub proof fn lemma_created_ids(
    existing: Seq<ArcadeModel>,
    scraped: Seq<EntryModel>,
    max_id: int,
    now: i64,
    locs: Seq<LocationModel>,
)
    requires
        i32::MIN <= max_id,
        max_id + scraped.len() <= i32::MAX,
    ensures
        ({
            let made = classify(existing, scraped, max_id, now, locs).1;
            &&& forall|c: int| 0 <= c < made.len() ==> (#[trigger] made[c]).id == max_id + c + 1
            &&& forall|c: int, d: int| 0 <= c < d < made.len() ==> (#[trigger] made[c]).id < (#[trigger] made[d]).id
            &&& (forall|k: int| 0 <= k < existing.len() ==> (#[trigger] existing[k]).id <= max_id) ==> forall|
                c: int,
                k: int,
            |
                0 <= c < made.len() && 0 <= k < existing.len() ==> (#[trigger] made[c]).id != (#[trigger] existing[k]).id
        }),
    decreases scraped.len(),
{
    lemma_classify_counts(existing, scraped, max_id, now, locs);
    if scraped.len() > 0 {
        lemma_created_ids(existing, scraped.drop_last(), max_id, now, locs);
        lemma_classify_counts(existing, scraped.drop_last(), max_id, now, locs);
    }
    let made = classify(existing, scraped, max_id, now, locs).1;
    assert forall|c: int, d: int| 0 <= c < d < made.len() implies (#[trigger] made[c]).id < (#[trigger] made[d]).id by {
        assert(made[c].id == max_id + c + 1);
        assert(made[d].id == max_id + d + 1);
    }
}

/// Across two runs, where the second starts from an identifier counter that
/// counts every record the first created, the second run's records get larger
/// identifiers than all of the first run's.
pub proof fn lemma_ids_increase_across_runs(
    existing1: Seq<ArcadeModel>,
    scraped1: Seq<EntryModel>,
    max_id1: int,
    now1: i64,
    locs1: Seq<LocationModel>,
    existing2: Seq<ArcadeModel>,
    scraped2: Seq<EntryModel>,
    max_id2: int,
    now2: i64,
    locs2: Seq<LocationModel>,
)
    requires
        i32::MIN <= max_id1,
        max_id1 + scraped1.len() <= i32::MAX,
        max_id2 + scraped2.len() <= i32::MAX,
        max_id2 >= max_id1 + classify(existing1, scraped1, max_id1, now1, locs1).1.len(),
    ensures
        forall|a: int, b: int|
            0 <= a < classify(existing1, scraped1, max_id1, now1, locs1).1.len() && 0 <= b < classify(
                existing2,
                scraped2,
                max_id2,
                now2,
                locs2,
            ).1.len() ==> (#[trigger] classify(existing1, scraped1, max_id1, now1, locs1).1[a]).id
                < (#[trigger] classify(existing2, scraped2, max_id2, now2, locs2).1[b]).id,
{
    lemma_created_ids(existing1, scraped1, max_id1, now1, locs1);
    lemma_created_ids(existing2, scraped2, max_id2, now2, locs2);
}

pub(crate) proof fn lemma_closures_come_from(existing: Seq<ArcadeModel>, scraped: Seq<EntryModel>)
    ensures
        forall|i: int|
            0 <= i < closures(existing, scraped).len() ==> exists|k: int|
                0 <= k < existing.len() && !existing[k].dead && !scraped_has(scraped, existing[k].name)
                    && #[trigger] closures(existing, scraped)[i] == closed(existing[k]),
    decreases existing.len(),
{
    if existing.len() > 0 {
        let p = existing.drop_last();
        lemma_closures_come_from(p, scraped);
        let cs = closures(existing, scraped);
        assert forall|i: int| 0 <= i < cs.len() implies exists|k: int|
            0 <= k < existing.len() && !existing[k].dead && !scraped_has(scraped, existing[k].name)
                && #[trigger] cs[i] == closed(existing[k]) by {
            if i < closures(p, scraped).len() {
                let k = choose|k: int|
                    0 <= k < p.len() && !p[k].dead && !scraped_has(scraped, p[k].name)
                        && #[trigger] closures(p, scraped)[i] == closed(p[k]);
                assert(existing[k] == p[k]);
            } else {
                assert(cs[i] == closed(existing[existing.len() - 1]));
            }
        }
    }
}

/// In a well-formed snapshot, each live record whose name the scrape lacks is
/// closed exactly once, and no record whose name the scrape has is closed.
pub proof fn lemma_closure_complete(existing: Seq<ArcadeModel>, scraped: Seq<EntryModel>)
    requires
        snapshot_wf(existing),
    ensures
        forall|k: int|
            0 <= k < existing.len() && !(#[trigger] existing[k]).dead && !scraped_has(scraped, existing[k].name)
                ==> exists|i: int|
                0 <= i < closures(existing, scraped).len() && closures(existing, scraped)[i] == closed(existing[k])
                    && forall|i2: int|
                    0 <= i2 < closures(existing, scraped).len() && (#[trigger] closures(existing, scraped)[i2]).name
                        == existing[k].name ==> i2 == i,
        forall|i: int|
            0 <= i < closures(existing, scraped).len() ==> !scraped_has(
                scraped,
                (#[trigger] closures(existing, scraped)[i]).name,
            ),
    decreases existing.len(),
{
    lemma_closures_come_from(existing, scraped);
    if existing.len() > 0 {
        let p = existing.drop_last();
        let last = existing.last();
        assert(snapshot_wf(p)) by {
            assert forall|i: int, j: int| 0 <= i < p.len() && 0 <= j < p.len() && i != j implies (#[trigger] p[i]).name
                != (#[trigger] p[j]).name by {
                assert(p[i] == existing[i] && p[j] == existing[j]);
            }
            assert forall|k: int| 0 <= k < p.len() implies crate::names::is_normalized(#[trigger] p[k].name) by {
                assert(p[k] == existing[k]);
            }
        }
        lemma_closure_complete(p, scraped);
        lemma_closures_come_from(p, scraped);
        let cp = closures(p, scraped);
        let cs = closures(existing, scraped);
        // no earlier closure carries the last record's name
        assert forall|i2: int| 0 <= i2 < cp.len() implies (#[trigger] cp[i2]).name != last.name by {
            let k = choose|k: int|
                0 <= k < p.len() && !p[k].dead && !scraped_has(scraped, p[k].name) && #[trigger] cp[i2] == closed(p[k]);
            assert(existing[k] == p[k]);
            assert(existing[existing.len() - 1] == last);
        }
        assert forall|k: int|
            0 <= k < existing.len() && !(#[trigger] existing[k]).dead && !scraped_has(scraped, existing[k].name)
                implies exists|i: int|
                0 <= i < cs.len() && cs[i] == closed(existing[k]) && forall|i2: int|
                    0 <= i2 < cs.len() && (#[trigger] cs[i2]).name == existing[k].name ==> i2 == i by {
            if k == existing.len() - 1 {
                let i = cp.len() as int;
                assert(cs[i] == closed(existing[k]));
                assert forall|i2: int| 0 <= i2 < cs.len() && (#[trigger] cs[i2]).name == existing[k].name implies i2
                    == i by {
                    if i2 < cp.len() {
                        assert(cs[i2] == cp[i2]);
                    }
                }
            } else {
                assert(p[k] == existing[k]);
                let i = choose|i: int|
                    0 <= i < cp.len() && cp[i] == closed(p[k]) && forall|i2: int|
                        0 <= i2 < cp.len() && (#[trigger] cp[i2]).name == p[k].name ==> i2 == i;
                assert(cs[i] == cp[i]);
                assert forall|i2: int| 0 <= i2 < cs.len() && (#[trigger] cs[i2]).name == existing[k].name implies i2
                    == i by {
                    if i2 < cp.len() {
                        assert(cs[i2] == cp[i2]);
                    } else {
                        assert(cs[i2] == closed(last));
                        assert(existing[existing.len() - 1] == last);
                    }
                }
            }
        }
    }
    let cs = closures(existing, scraped);
    assert forall|i: int| 0 <= i < cs.len() implies !scraped_has(scraped, (#[trigger] cs[i]).name) by {
        let k = choose|k: int|
            0 <= k < existing.len() && !existing[k].dead && !scraped_has(scraped, existing[k].name)
                && #[trigger] cs[i] == closed(existing[k]);
    }
}

/// Whether every scraped entry names a record of the snapshot with the same
/// address.
pub open spec fn all_unchanged(existing: Seq<ArcadeModel>, scraped: Seq<EntryModel>) -> bool {
    forall|i: int|
        0 <= i < scraped.len() ==> exists|k: int|
            0 <= k < existing.len() && (#[trigger] existing[k]).name == (#[trigger] scraped[i]).0
                && existing[k].address == scraped[i].1
}

/// When every scraped entry names a known record at its stored address, no
/// address needs geocoding, and nothing is updated or created.
pub proof fn lemma_unchanged_needs_no_geocoding(
    existing: Seq<ArcadeModel>,
    scraped: Seq<EntryModel>,
    max_id: int,
    now: i64,
    locs: Seq<LocationModel>,
)
    requires
        snapshot_wf(existing),
        all_unchanged(existing, scraped),
    ensures
        geocode_addresses(existing, scraped).len() == 0,
        classify(existing, scraped, max_id, now, locs).0.len() == 0,
        classify(existing, scraped, max_id, now, locs).1.len() == 0,
    decreases scraped.len(),
{
    if scraped.len() > 0 {
        let p = scraped.drop_last();
        assert(all_unchanged(existing, p)) by {
            assert forall|i: int| 0 <= i < p.len() implies exists|k: int|
                0 <= k < existing.len() && (#[trigger] existing[k]).name == (#[trigger] p[i]).0
                    && existing[k].address == p[i].1 by {
                assert(p[i] == scraped[i]);
            }
        }
        lemma_unchanged_needs_no_geocoding(existing, p, max_id, now, locs);
        let e = scraped.last();
        assert(e == scraped[scraped.len() - 1]);
        let k = choose|k: int|
            0 <= k < existing.len() && (#[trigger] existing[k]).name == e.0 && existing[k].address == e.1;
        lemma_index_of_name(existing, k);
    }
}

} // verus!
