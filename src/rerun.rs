//! What the store holds once a run's batches are applied, and why running the
//! pipeline again over the same scrape then changes nothing.
//!
//! Updates and closures replace the stored record with the same identifier,
//! in batch order; creations are inserted after the records already stored.
//! The next run loads the store back into a snapshot.
use vstd::prelude::*;
use crate::extract::EntryModel;
use crate::names::{is_normalized, lemma_normalize_characterized, normalize};
use crate::record::{ArcadeModel, LocationModel};
use crate::reconcile::{
    classify, closures, closed, geocode_addresses, scraped_has, all_unchanged, lemma_unchanged_needs_no_geocoding,
    lemma_closure_complete, lemma_closures_come_from,
};
use crate::snapshot::{load_snapshot, names_contain, index_of_name, snapshot_wf, renamed, lemma_index_of_name};

verus! {

/// `rs` with every record whose identifier is `rec`'s replaced by `rec`.
pub open spec fn replace_by_id(rs: Seq<ArcadeModel>, rec: ArcadeModel) -> Seq<ArcadeModel> {
    Seq::new(rs.len(), |k: int| if rs[k].id == rec.id { rec } else { rs[k] })
}

/// `rs` after replacing by identifier with each of `recs`, in order.
pub open spec fn replace_all(rs: Seq<ArcadeModel>, recs: Seq<ArcadeModel>) -> Seq<ArcadeModel>
    decreases recs.len(),
{
    if recs.len() == 0 {
        rs
    } else {
        replace_by_id(replace_all(rs, recs.drop_last()), recs.last())
    }
}

/// The stored records after a run over `scraped`, where the store held the
/// snapshot's records: the updates and then the closures replace records by
/// identifier, and the creations are inserted.
pub open spec fn persisted(
    existing: Seq<ArcadeModel>,
    scraped: Seq<EntryModel>,
    max_id: int,
    now: i64,
    locs: Seq<LocationModel>,
) -> Seq<ArcadeModel> {
    let made = classify(existing, scraped, max_id, now, locs);
    replace_all(replace_all(existing, made.0), closures(existing, scraped)) + made.1
}

/// The snapshot the next run loads.
pub open spec fn after_run(
    existing: Seq<ArcadeModel>,
    scraped: Seq<EntryModel>,
    max_id: int,
    now: i64,
    locs: Seq<LocationModel>,
) -> Seq<ArcadeModel> {
    load_snapshot(persisted(existing, scraped, max_id, now, locs)).0
}

/// No two records share an identifier.
pub open spec fn ids_unique(s: Seq<ArcadeModel>) -> bool {
    forall|i: int, j: int| 0 <= i < s.len() && 0 <= j < s.len() && i != j ==> (#[trigger] s[i]).id != (#[trigger] s[j]).id
}

/// Scraped names are canonical, and entries with the same name have the same
/// address.
pub open spec fn scrape_consistent(scraped: Seq<EntryModel>) -> bool {
    &&& forall|i: int| 0 <= i < scraped.len() ==> is_normalized(#[trigger] scraped[i].0)
    &&& forall|i: int, j: int|
        0 <= i < scraped.len() && 0 <= j < scraped.len() && (#[trigger] scraped[i]).0 == (#[trigger] scraped[j]).0
            ==> scraped[i].1 == scraped[j].1
}

proof fn lemma_replace_all(rs: Seq<ArcadeModel>, recs: Seq<ArcadeModel>, j: int)
    requires
        0 <= j < rs.len(),
    ensures
        replace_all(rs, recs).len() == rs.len(),
        replace_all(rs, recs)[j].id == rs[j].id,
        (forall|t: int| 0 <= t < recs.len() ==> (#[trigger] recs[t]).id != rs[j].id) ==> replace_all(rs, recs)[j]
            == rs[j],
        (exists|t: int| 0 <= t < recs.len() && (#[trigger] recs[t]).id == rs[j].id) ==> exists|t: int|
            0 <= t < recs.len() && (#[trigger] recs[t]).id == rs[j].id && replace_all(rs, recs)[j] == recs[t],
    decreases recs.len(),
{
    if recs.len() > 0 {
        let p = recs.drop_last();
        lemma_replace_all(rs, p, j);
        let last = recs.last();
        assert(recs[recs.len() - 1] == last);
        if (forall|t: int| 0 <= t < recs.len() ==> (#[trigger] recs[t]).id != rs[j].id) {
            assert forall|t: int| 0 <= t < p.len() implies (#[trigger] p[t]).id != rs[j].id by {
                assert(p[t] == recs[t]);
            }
        }
        if last.id != rs[j].id && (exists|t: int| 0 <= t < recs.len() && (#[trigger] recs[t]).id == rs[j].id) {
            let t = choose|t: int| 0 <= t < recs.len() && (#[trigger] recs[t]).id == rs[j].id;
            assert(p[t] == recs[t]);
            let t2 = choose|t2: int| 0 <= t2 < p.len() && (#[trigger] p[t2]).id == rs[j].id && replace_all(rs, p)[j] == p[t2];
            assert(p[t2] == recs[t2]);
        }
    }
}

/// The updates of a run.
pub open spec fn updates_of(
    existing: Seq<ArcadeModel>,
    scraped: Seq<EntryModel>,
    max_id: int,
    now: i64,
    locs: Seq<LocationModel>,
) -> Seq<ArcadeModel> {
    classify(existing, scraped, max_id, now, locs).0
}

/// The creations of a run.
pub open spec fn creations_of(
    existing: Seq<ArcadeModel>,
    scraped: Seq<EntryModel>,
    max_id: int,
    now: i64,
    locs: Seq<LocationModel>,
) -> Seq<ArcadeModel> {
    classify(existing, scraped, max_id, now, locs).1
}

/// `u` moves a known record to the address of an entry with its name.
pub open spec fn update_from_entry(existing: Seq<ArcadeModel>, scraped: Seq<EntryModel>, u: ArcadeModel) -> bool {
    exists|j: int, i: int|
        0 <= j < existing.len() && 0 <= i < scraped.len() && (#[trigger] existing[j]).name == (#[trigger] scraped[i]).0
            && u.id == existing[j].id && u.name == existing[j].name && u.address == scraped[i].1
}

/// `c` is made from an entry whose name the snapshot lacks.
pub open spec fn creation_from_entry(existing: Seq<ArcadeModel>, scraped: Seq<EntryModel>, c: ArcadeModel) -> bool {
    exists|i: int|
        0 <= i < scraped.len() && (#[trigger] scraped[i]).0 == c.name && c.address == scraped[i].1 && !names_contain(
            existing,
            scraped[i].0,
        )
}

proof fn lemma_run_shapes(
    existing: Seq<ArcadeModel>,
    scraped: Seq<EntryModel>,
    max_id: int,
    now: i64,
    locs: Seq<LocationModel>,
)
    requires
        snapshot_wf(existing),
    ensures
        forall|u: int|
            0 <= u < updates_of(existing, scraped, max_id, now, locs).len() ==> update_from_entry(
                existing,
                scraped,
                #[trigger] updates_of(existing, scraped, max_id, now, locs)[u],
            ),
        forall|i: int, j: int|
            0 <= i < scraped.len() && 0 <= j < existing.len() && (#[trigger] existing[j]).name == (
            #[trigger] scraped[i]).0 && existing[j].address != scraped[i].1 ==> exists|u: int|
                0 <= u < updates_of(existing, scraped, max_id, now, locs).len() && (#[trigger] updates_of(
                    existing,
                    scraped,
                    max_id,
                    now,
                    locs,
                )[u]).id == existing[j].id,
        forall|t: int|
            0 <= t < creations_of(existing, scraped, max_id, now, locs).len() ==> creation_from_entry(
                existing,
                scraped,
                #[trigger] creations_of(existing, scraped, max_id, now, locs)[t],
            ),
        forall|i: int|
            0 <= i < scraped.len() && !names_contain(existing, (#[trigger] scraped[i]).0) ==> exists|t: int|
                0 <= t < creations_of(existing, scraped, max_id, now, locs).len() && (#[trigger] creations_of(
                    existing,
                    scraped,
                    max_id,
                    now,
                    locs,
                )[t]).name == scraped[i].0 && creations_of(existing, scraped, max_id, now, locs)[t].address
                    == scraped[i].1,
    decreases scraped.len(),
{
    if scraped.len() > 0 {
        let p = scraped.drop_last();
        lemma_run_shapes(existing, p, max_id, now, locs);
        let e = scraped.last();
        let last = scraped.len() - 1;
        assert(scraped[last] == e);
        let ups = updates_of(existing, scraped, max_id, now, locs);
        let news = creations_of(existing, scraped, max_id, now, locs);
        let pups = updates_of(existing, p, max_id, now, locs);
        let pnews = creations_of(existing, p, max_id, now, locs);
        assert forall|x: int| 0 <= x < p.len() implies #[trigger] p[x] == scraped[x] by {}
        // the prefix's batches are prefixes of the whole's
        assert(pups.len() <= ups.len());
        assert(pnews.len() <= news.len());
        assert forall|u: int| 0 <= u < pups.len() implies #[trigger] ups[u] == pups[u] by {}
        assert forall|t: int| 0 <= t < pnews.len() implies #[trigger] news[t] == pnews[t] by {}
        assert forall|u: int| 0 <= u < ups.len() implies update_from_entry(existing, scraped, #[trigger] ups[u]) by {
            if u < pups.len() {
                assert(update_from_entry(existing, p, pups[u]));
                let (j, i) = choose|j: int, i: int|
                    0 <= j < existing.len() && 0 <= i < p.len() && (#[trigger] existing[j]).name == (
                    #[trigger] p[i]).0 && pups[u].id == existing[j].id && pups[u].name == existing[j].name
                        && pups[u].address == p[i].1;
                assert(scraped[i] == p[i]);
            } else {
                let j = index_of_name(existing, e.0)->Some_0;
                assert(existing[j].name == scraped[last].0);
            }
        }
        assert forall|i: int, j: int|
            0 <= i < scraped.len() && 0 <= j < existing.len() && (#[trigger] existing[j]).name == (
            #[trigger] scraped[i]).0 && existing[j].address != scraped[i].1 implies exists|u: int|
                0 <= u < ups.len() && (#[trigger] ups[u]).id == existing[j].id by {
            if i < last {
                assert(p[i] == scraped[i]);
                let u = choose|u: int| 0 <= u < pups.len() && (#[trigger] pups[u]).id == existing[j].id;
                assert(ups[u] == pups[u]);
            } else {
                lemma_index_of_name(existing, j);
                assert(ups[pups.len() as int].id == existing[j].id);
            }
        }
        assert forall|t: int| 0 <= t < news.len() implies creation_from_entry(existing, scraped, #[trigger] news[t]) by {
            if t < pnews.len() {
                assert(creation_from_entry(existing, p, pnews[t]));
                let i = choose|i: int|
                    0 <= i < p.len() && (#[trigger] p[i]).0 == pnews[t].name && pnews[t].address == p[i].1
                        && !names_contain(existing, p[i].0);
                assert(scraped[i] == p[i]);
            } else {
                assert(news[t].name == scraped[last].0);
                assert(scraped[last].0 == news[t].name);
            }
        }
        assert forall|i: int| 0 <= i < scraped.len() && !names_contain(existing, (#[trigger] scraped[i]).0) implies exists|
            t: int,
        |
            0 <= t < news.len() && (#[trigger] news[t]).name == scraped[i].0 && news[t].address == scraped[i].1 by {
            if i < last {
                assert(p[i] == scraped[i]);
                let t = choose|t: int|
                    0 <= t < pnews.len() && (#[trigger] pnews[t]).name == p[i].0 && pnews[t].address == p[i].1;
                assert(news[t] == pnews[t]);
            } else {
                assert(news[pnews.len() as int].name == e.0);
            }
        }
    }
}

/// The stored records of the snapshot after the run, before the creations:
/// each keeps its identifier and name; one whose name the scrape has carries
/// the scraped address; one whose name it lacks is dead.
proof fn lemma_replaced_records(
    existing: Seq<ArcadeModel>,
    scraped: Seq<EntryModel>,
    max_id: int,
    now: i64,
    locs: Seq<LocationModel>,
    j: int,
)
    requires
        snapshot_wf(existing),
        ids_unique(existing),
        scrape_consistent(scraped),
        0 <= j < existing.len(),
    ensures
        ({
            let c = replace_all(
                replace_all(existing, updates_of(existing, scraped, max_id, now, locs)),
                closures(existing, scraped),
            );
            &&& c.len() == existing.len()
            &&& c[j].name == existing[j].name
            &&& c[j].dead || scraped_has(scraped, c[j].name)
            &&& forall|i: int|
                0 <= i < scraped.len() && (#[trigger] scraped[i]).0 == existing[j].name ==> c[j].address
                    == scraped[i].1
        }),
{
    let ups = updates_of(existing, scraped, max_id, now, locs);
    let cls = closures(existing, scraped);
    let r1 = replace_all(existing, ups);
    let c = replace_all(r1, cls);
    lemma_run_shapes(existing, scraped, max_id, now, locs);
    lemma_closure_complete(existing, scraped);
    lemma_closures_come_from(existing, scraped);
    lemma_replace_all(existing, ups, j);
    lemma_replace_all(r1, cls, j);
    let rec = existing[j];
    // an update for this record's identifier is for this record, and moves it
    // to an address scraped under its name
    assert forall|u: int| 0 <= u < ups.len() && (#[trigger] ups[u]).id == rec.id implies ups[u].name == rec.name
        && scraped_has(scraped, rec.name) && forall|i: int|
        0 <= i < scraped.len() && (#[trigger] scraped[i]).0 == rec.name ==> ups[u].address == scraped[i].1 by {
        assert(update_from_entry(existing, scraped, ups[u]));
        let (j2, i2) = choose|j2: int, i2: int|
            0 <= j2 < existing.len() && 0 <= i2 < scraped.len() && (#[trigger] existing[j2]).name == (
            #[trigger] scraped[i2]).0 && ups[u].id == existing[j2].id && ups[u].name == existing[j2].name
                && ups[u].address == scraped[i2].1;
        assert(j2 == j);
        assert(scraped_has(scraped, rec.name)) by {
            assert(scraped[i2].0 == rec.name);
        }
    }
    // a closure for this record's identifier is this record, closed
    assert forall|x: int| 0 <= x < cls.len() && (#[trigger] cls[x]).id == rec.id implies cls[x] == closed(rec)
        && !scraped_has(scraped, rec.name) && !rec.dead by {
        let k = choose|k: int|
            0 <= k < existing.len() && !existing[k].dead && !scraped_has(scraped, existing[k].name)
                && #[trigger] cls[x] == closed(existing[k]);
        assert(k == j);
    }
    if scraped_has(scraped, rec.name) {
        assert(forall|x: int| 0 <= x < cls.len() ==> (#[trigger] cls[x]).id != r1[j].id);
        assert(c[j] == r1[j]);
        let i0 = choose|i0: int| 0 <= i0 < scraped.len() && (#[trigger] scraped[i0]).0 == rec.name;
        if rec.address == scraped[i0].1 {
        } else {
            assert(exists|u: int| 0 <= u < ups.len() && (#[trigger] ups[u]).id == existing[j].id);
        }
        assert forall|i: int| 0 <= i < scraped.len() && (#[trigger] scraped[i]).0 == existing[j].name implies c[j].address
            == scraped[i].1 by {
            assert(scraped[i].1 == scraped[i0].1);
        }
    } else {
        assert(forall|u: int| 0 <= u < ups.len() ==> (#[trigger] ups[u]).id != existing[j].id);
        assert(r1[j] == rec);
        if !rec.dead {
            let x = choose|x: int| 0 <= x < cls.len() && cls[x] == closed(existing[j]) && forall|i2: int|
                0 <= i2 < cls.len() && (#[trigger] cls[i2]).name == existing[j].name ==> i2 == x;
            assert(cls[x].id == r1[j].id);
        } else {
            assert(forall|x: int| 0 <= x < cls.len() ==> (#[trigger] cls[x]).id != r1[j].id);
        }
    }
}

/// Loading a sequence keeps records only under canonical, distinct names, each
/// one a loaded record under its canonical name.
proof fn lemma_load_wf(loaded: Seq<ArcadeModel>)
    ensures
        snapshot_wf(load_snapshot(loaded).0),
        forall|x: int|
            0 <= x < load_snapshot(loaded).0.len() ==> exists|y: int|
                0 <= y < loaded.len() && #[trigger] load_snapshot(loaded).0[x] == renamed(
                    loaded[y],
                    normalize(loaded[y].name),
                ),
    decreases loaded.len(),
{
    if loaded.len() > 0 {
        let p = loaded.drop_last();
        lemma_load_wf(p);
        let r = loaded.last();
        let n = normalize(r.name);
        lemma_normalize_characterized(r.name);
        let kp = load_snapshot(p).0;
        let k = load_snapshot(loaded).0;
        assert forall|x: int| 0 <= x < k.len() implies exists|y: int|
            0 <= y < loaded.len() && #[trigger] k[x] == renamed(loaded[y], normalize(loaded[y].name)) by {
            if x < kp.len() {
                let y = choose|y: int| 0 <= y < p.len() && #[trigger] kp[x] == renamed(p[y], normalize(p[y].name));
                assert(loaded[y] == p[y]);
            } else {
                assert(loaded[loaded.len() - 1] == r);
            }
        }
        if !names_contain(kp, n) {
            assert forall|a: int, b: int| 0 <= a < k.len() && 0 <= b < k.len() && a != b implies (#[trigger] k[a]).name
                != (#[trigger] k[b]).name by {
                if a < kp.len() && b < kp.len() {
                } else if a < kp.len() {
                    assert(kp[a] == k[a]);
                } else {
                    assert(kp[b] == k[b]);
                }
            }
            assert forall|a: int| 0 <= a < k.len() implies is_normalized(#[trigger] k[a].name) by {
                if a < kp.len() {
                    assert(kp[a] == k[a]);
                }
            }
        }
    }
}

/// Loading records that already have canonical, distinct names keeps them all,
/// as they are.
proof fn lemma_load_identity(s: Seq<ArcadeModel>)
    requires
        snapshot_wf(s),
    ensures
        load_snapshot(s).0 == s,
    decreases s.len(),
{
    if s.len() > 0 {
        let p = s.drop_last();
        assert(snapshot_wf(p)) by {
            assert forall|a: int, b: int| 0 <= a < p.len() && 0 <= b < p.len() && a != b implies (#[trigger] p[a]).name
                != (#[trigger] p[b]).name by {
                assert(p[a] == s[a] && p[b] == s[b]);
            }
            assert forall|a: int| 0 <= a < p.len() implies is_normalized(#[trigger] p[a].name) by {
                assert(p[a] == s[a]);
            }
        }
        lemma_load_identity(p);
        let r = s.last();
        assert(s[s.len() - 1] == r);
        lemma_normalize_characterized(r.name);
        assert(!names_contain(p, r.name)) by {
            if names_contain(p, r.name) {
                let k = choose|k: int| 0 <= k < p.len() && (#[trigger] p[k]).name == r.name;
                assert(s[k] == p[k]);
            }
        }
        assert(renamed(r, r.name) == r);
        assert(p.push(r) =~= s);
    }
}

/// What loading the stored records plus the creations gives: the stored
/// records first, then creations only; and for each creation a loaded record
/// with its name and address.
proof fn lemma_load_with_creations(
    c: Seq<ArcadeModel>,
    news: Seq<ArcadeModel>,
    existing: Seq<ArcadeModel>,
    scraped: Seq<EntryModel>,
    m: int,
)
    requires
        snapshot_wf(c),
        c.len() == existing.len(),
        forall|j: int| 0 <= j < c.len() ==> (#[trigger] c[j]).name == existing[j].name,
        scrape_consistent(scraped),
        forall|t: int| 0 <= t < news.len() ==> creation_from_entry(existing, scraped, #[trigger] news[t]),
        0 <= m <= news.len(),
    ensures
        ({
            let k = load_snapshot(c + news.take(m)).0;
            &&& c.len() <= k.len()
            &&& forall|j: int| 0 <= j < c.len() ==> #[trigger] k[j] == c[j]
            &&& forall|x: int| c.len() <= x < k.len() ==> exists|t: int| 0 <= t < m && #[trigger] k[x] == news[t]
            &&& forall|t: int|
                0 <= t < m ==> exists|x: int|
                    0 <= x < k.len() && (#[trigger] k[x]).name == (#[trigger] news[t]).name && k[x].address
                        == news[t].address
        }),
    decreases m,
{
    if m == 0 {
        assert(c + news.take(0) =~= c);
        lemma_load_identity(c);
    } else {
        lemma_load_with_creations(c, news, existing, scraped, m - 1);
        let s = c + news.take(m);
        let sp = c + news.take(m - 1);
        assert(s.drop_last() =~= sp);
        let r = news[m - 1];
        assert(s.last() == r);
        let kp = load_snapshot(sp).0;
        let k = load_snapshot(s).0;
        assert(creation_from_entry(existing, scraped, news[m - 1]));
        let i = choose|i: int|
            0 <= i < scraped.len() && (#[trigger] scraped[i]).0 == news[m - 1].name && news[m - 1].address
                == scraped[i].1 && !names_contain(existing, scraped[i].0);
        lemma_normalize_characterized(r.name);
        assert(normalize(r.name) == r.name);
        assert(renamed(r, r.name) == r);
        assert forall|x: int| c.len() <= x < k.len() implies exists|t: int| 0 <= t < m && #[trigger] k[x] == news[t] by {
            if x < kp.len() {
                let t = choose|t: int| 0 <= t < m - 1 && #[trigger] kp[x] == news[t];
            }
        }
        assert forall|t: int| 0 <= t < m implies exists|x: int|
            0 <= x < k.len() && (#[trigger] k[x]).name == (#[trigger] news[t]).name && k[x].address == news[t].address by {
            if t < m - 1 {
                let x = choose|x: int|
                    0 <= x < kp.len() && (#[trigger] kp[x]).name == (#[trigger] news[t]).name && kp[x].address
                        == news[t].address;
                assert(k[x] == kp[x]);
            } else if !names_contain(kp, r.name) {
                assert(k[kp.len() as int] == r);
            } else {
                let x = choose|x: int| 0 <= x < kp.len() && (#[trigger] kp[x]).name == r.name;
                if x < c.len() {
                    assert(kp[x] == c[x]);
                    assert(existing[x].name == r.name);
                    assert(names_contain(existing, scraped[i].0));
                } else {
                    let t2 = choose|t2: int| 0 <= t2 < m - 1 && #[trigger] kp[x] == news[t2];
                    assert(creation_from_entry(existing, scraped, news[t2]));
                    let i2 = choose|i2: int|
                        0 <= i2 < scraped.len() && (#[trigger] scraped[i2]).0 == news[t2].name && news[t2].address
                            == scraped[i2].1 && !names_contain(existing, scraped[i2].0);
                    assert(scraped[i].1 == scraped[i2].1);
                }
                assert(k[x] == kp[x]);
            }
        }
    }
}

proof fn lemma_nothing_to_close(e: Seq<ArcadeModel>, scraped: Seq<EntryModel>)
    requires
        forall|x: int| 0 <= x < e.len() ==> (#[trigger] e[x]).dead || scraped_has(scraped, e[x].name),
    ensures
        closures(e, scraped).len() == 0,
    decreases e.len(),
{
    if e.len() > 0 {
        let p = e.drop_last();
        assert forall|x: int| 0 <= x < p.len() implies (#[trigger] p[x]).dead || scraped_has(scraped, p[x].name) by {
            assert(p[x] == e[x]);
        }
        lemma_nothing_to_close(p, scraped);
        assert(e[e.len() - 1] == e.last());
    }
}

/// The stored records after the run, before the creations.
pub open spec fn replaced(
    existing: Seq<ArcadeModel>,
    scraped: Seq<EntryModel>,
    max_id: int,
    now: i64,
    locs: Seq<LocationModel>,
) -> Seq<ArcadeModel> {
    replace_all(replace_all(existing, updates_of(existing, scraped, max_id, now, locs)), closures(existing, scraped))
}

proof fn lemma_replaced_wf(
    existing: Seq<ArcadeModel>,
    scraped: Seq<EntryModel>,
    max_id: int,
    now: i64,
    locs: Seq<LocationModel>,
)
    requires
        snapshot_wf(existing),
        ids_unique(existing),
        scrape_consistent(scraped),
    ensures
        replaced(existing, scraped, max_id, now, locs).len() == existing.len(),
        forall|j: int|
            0 <= j < existing.len() ==> (#[trigger] replaced(existing, scraped, max_id, now, locs)[j]).name
                == existing[j].name,
        snapshot_wf(replaced(existing, scraped, max_id, now, locs)),
{
    let c = replaced(existing, scraped, max_id, now, locs);
    let ups = updates_of(existing, scraped, max_id, now, locs);
    lemma_replace_len(existing, ups);
    lemma_replace_len(replace_all(existing, ups), closures(existing, scraped));
    assert forall|j: int| 0 <= j < existing.len() implies (#[trigger] c[j]).name == existing[j].name by {
        lemma_replaced_records(existing, scraped, max_id, now, locs, j);
    }
    assert forall|a: int, b: int| 0 <= a < c.len() && 0 <= b < c.len() && a != b implies (#[trigger] c[a]).name
        != (#[trigger] c[b]).name by {
        assert(c[a].name == existing[a].name && c[b].name == existing[b].name);
    }
    assert forall|a: int| 0 <= a < c.len() implies is_normalized(#[trigger] c[a].name) by {
        assert(c[a].name == existing[a].name);
    }
}

proof fn lemma_after_run_shape(
    existing: Seq<ArcadeModel>,
    scraped: Seq<EntryModel>,
    max_id: int,
    now: i64,
    locs: Seq<LocationModel>,
)
    requires
        snapshot_wf(existing),
        ids_unique(existing),
        scrape_consistent(scraped),
    ensures
        ({
            let c = replaced(existing, scraped, max_id, now, locs);
            let news = creations_of(existing, scraped, max_id, now, locs);
            let k = after_run(existing, scraped, max_id, now, locs);
            &&& snapshot_wf(k)
            &&& c.len() <= k.len()
            &&& forall|j: int| 0 <= j < c.len() ==> #[trigger] k[j] == c[j]
            &&& forall|x: int| c.len() <= x < k.len() ==> exists|t: int| 0 <= t < news.len() && #[trigger] k[x] == news[t]
            &&& forall|t: int|
                0 <= t < news.len() ==> exists|x: int|
                    0 <= x < k.len() && (#[trigger] k[x]).name == (#[trigger] news[t]).name && k[x].address
                        == news[t].address
        }),
{
    let c = replaced(existing, scraped, max_id, now, locs);
    let news = creations_of(existing, scraped, max_id, now, locs);
    assert(forall|t: int| 0 <= t < news.len() ==> creation_from_entry(existing, scraped, #[trigger] news[t])) by {
        lemma_run_shapes(existing, scraped, max_id, now, locs);
    }
    assert(snapshot_wf(c) && c.len() == existing.len() && forall|j: int|
        0 <= j < c.len() ==> (#[trigger] c[j]).name == existing[j].name) by {
        lemma_replaced_wf(existing, scraped, max_id, now, locs);
    }
    assert(news.take(news.len() as int) =~= news);
    assert(persisted(existing, scraped, max_id, now, locs) == c + news.take(news.len() as int));
    lemma_load_with_creations(c, news, existing, scraped, news.len() as int);
    lemma_load_wf(c + news);
}

/// Once a run's batches are stored, a second run over the same scrape finds
/// nothing to do: no address to geocode, nothing to update, create or close.
///
/// This holds where the store held the snapshot's records, identifiers are
/// distinct, and the scrape is consistent: its names are canonical, as the
/// extractor makes them, and an entry repeated under one name repeats its
/// address (two addresses under one name would be written in turn, and the
/// next run would find the first differing again).
pub proof fn lemma_second_run_changes_nothing(
    existing: Seq<ArcadeModel>,
    scraped: Seq<EntryModel>,
    max_id: int,
    now: i64,
    locs: Seq<LocationModel>,
    max_id2: int,
    now2: i64,
    locs2: Seq<LocationModel>,
)
    requires
        snapshot_wf(existing),
        ids_unique(existing),
        scrape_consistent(scraped),
    ensures
        geocode_addresses(after_run(existing, scraped, max_id, now, locs), scraped).len() == 0,
        classify(after_run(existing, scraped, max_id, now, locs), scraped, max_id2, now2, locs2).0.len() == 0,
        classify(after_run(existing, scraped, max_id, now, locs), scraped, max_id2, now2, locs2).1.len() == 0,
        closures(after_run(existing, scraped, max_id, now, locs), scraped).len() == 0,
{
    let news = creations_of(existing, scraped, max_id, now, locs);
    let c = replaced(existing, scraped, max_id, now, locs);
    let e2 = after_run(existing, scraped, max_id, now, locs);
    lemma_run_shapes(existing, scraped, max_id, now, locs);
    lemma_replaced_wf(existing, scraped, max_id, now, locs);
    lemma_after_run_shape(existing, scraped, max_id, now, locs);
    assert(all_unchanged(e2, scraped)) by {
        assert forall|i: int| 0 <= i < scraped.len() implies exists|k: int|
            0 <= k < e2.len() && (#[trigger] e2[k]).name == (#[trigger] scraped[i]).0 && e2[k].address
                == scraped[i].1 by {
            if names_contain(existing, scraped[i].0) {
                let j = choose|j: int| 0 <= j < existing.len() && (#[trigger] existing[j]).name == scraped[i].0;
                lemma_replaced_records(existing, scraped, max_id, now, locs, j);
                assert(c[j] == replaced(existing, scraped, max_id, now, locs)[j]);
                assert(e2[j] == c[j]);
            } else {
                let t = choose|t: int|
                    0 <= t < news.len() && (#[trigger] news[t]).name == scraped[i].0 && news[t].address == scraped[i].1;
                let x = choose|x: int|
                    0 <= x < e2.len() && (#[trigger] e2[x]).name == (#[trigger] news[t]).name && e2[x].address
                        == news[t].address;
            }
        }
    }
    lemma_unchanged_needs_no_geocoding(e2, scraped, max_id2, now2, locs2);
    assert forall|x: int| 0 <= x < e2.len() implies (#[trigger] e2[x]).dead || scraped_has(scraped, e2[x].name) by {
        if x < c.len() {
            lemma_replaced_records(existing, scraped, max_id, now, locs, x);
            assert(c[x] == replaced(existing, scraped, max_id, now, locs)[x]);
            assert(e2[x] == c[x]);
        } else {
            let t = choose|t: int| 0 <= t < news.len() && #[trigger] e2[x] == news[t];
            assert(creation_from_entry(existing, scraped, news[t]));
            let i = choose|i: int|
                0 <= i < scraped.len() && (#[trigger] scraped[i]).0 == news[t].name && news[t].address == scraped[i].1
                    && !names_contain(existing, scraped[i].0);
            assert(scraped[i].0 == e2[x].name);
        }
    }
    lemma_nothing_to_close(e2, scraped);
}

proof fn lemma_replace_len(rs: Seq<ArcadeModel>, recs: Seq<ArcadeModel>)
    ensures
        replace_all(rs, recs).len() == rs.len(),
    decreases recs.len(),
{
    if recs.len() > 0 {
        lemma_replace_len(rs, recs.drop_last());
    }
}

} // verus!
