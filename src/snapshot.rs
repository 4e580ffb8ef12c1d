//! The snapshot of the directory taken at the start of a run.
//!
//! Records are keyed by their canonical name. Where two stored records share
//! a canonical name the first one loaded is kept and the others are handed
//! back, so that they can be reported without blocking the run.
use vstd::prelude::*;
use crate::names::{is_normalized, normalize, normalize_name};
use crate::record::{Arcade, ArcadeModel, models, copy_arcade};

verus! {

/// Whether some record of `s` has the name `n`.
pub open spec fn names_contain(s: Seq<ArcadeModel>, n: Seq<char>) -> bool {
    exists|k: int| 0 <= k < s.len() && (#[trigger] s[k]).name == n
}

/// The position of the record named `n`, if there is one.
pub open spec fn index_of_name(s: Seq<ArcadeModel>, n: Seq<char>) -> Option<int> {
    if names_contain(s, n) {
        Some(choose|k: int| 0 <= k < s.len() && (#[trigger] s[k]).name == n)
    } else {
        None
    }
}

/// Names are canonical and no two records share one.
pub open spec fn snapshot_wf(s: Seq<ArcadeModel>) -> bool {
    &&& forall|k: int| 0 <= k < s.len() ==> is_normalized(#[trigger] s[k].name)
    &&& forall|i: int, j: int|
        0 <= i < s.len() && 0 <= j < s.len() && i != j ==> (#[trigger] s[i]).name != (#[trigger] s[j]).name
}

/// `r` under another name.
pub open spec fn renamed(r: ArcadeModel, n: Seq<char>) -> ArcadeModel {
    ArcadeModel {
        id: r.id,
        name: n,
        address: r.address,
        dead: r.dead,
        cost: r.cost,
        count: r.count,
        lat: r.lat,
        lng: r.lng,
        created_at: r.created_at,
    }
}

/// The snapshot of the loaded records, and the records skipped as duplicates:
/// in load order, each record is kept under its canonical name unless a kept
/// record already has that name.
pub open spec fn load_snapshot(loaded: Seq<ArcadeModel>) -> (Seq<ArcadeModel>, Seq<ArcadeModel>)
    decreases loaded.len(),
{
    if loaded.len() == 0 {
        (seq![], seq![])
    } else {
        let prev = load_snapshot(loaded.drop_last());
        let r = loaded.last();
        let n = normalize(r.name);
        if names_contain(prev.0, n) {
            (prev.0, prev.1.push(r))
        } else {
            (prev.0.push(renamed(r, n)), prev.1)
        }
    }
}

/// In a well-formed snapshot the record found by name is the only one with
/// that name.
pub proof fn lemma_index_of_name(s: Seq<ArcadeModel>, k: int)
    requires
        snapshot_wf(s),
        0 <= k < s.len(),
    ensures
        index_of_name(s, s[k].name) == Some(k),
{
    assert(names_contain(s, s[k].name));
}

/// The records of the directory, keyed by canonical name.
pub struct Snapshot {
    records: Vec<Arcade>,
}

impl View for Snapshot {
    type V = Seq<ArcadeModel>;

    closed spec fn view(&self) -> Seq<ArcadeModel> {
        models(self.records@)
    }
}

/// The position of the record named `name` in `records`.
fn position_of_name(records: &Vec<Arcade>, name: &String) -> (r: Option<usize>)
    ensures
        match r {
            Some(k) => k < records@.len() && records@[k as int].arcade_name@ == name@,
            None => forall|k: int| 0 <= k < records@.len() ==> records@[k].arcade_name@ != name@,
        },
{
    let mut k: usize = 0;
    while k < records.len()
        invariant
            k <= records@.len(),
            forall|i: int| 0 <= i < k ==> records@[i].arcade_name@ != name@,
        decreases records@.len() - k,
    {
        if records[k].arcade_name == *name {
            return Some(k);
        }
        k = k + 1;
    }
    None
}

impl Snapshot {
    pub open spec fn wf(&self) -> bool {
        snapshot_wf(self@)
    }

    /// Builds the snapshot from the records as the store hands them over: each
    /// is keyed by its canonical name, and of records that share one the first
    /// is kept. The records skipped are returned beside the snapshot.
    pub fn build(loaded: Vec<Arcade>) -> (r: (Snapshot, Vec<Arcade>))
        ensures
            r.0.wf(),
            r.0@ == load_snapshot(models(loaded@)).0,
            models(r.1@) == load_snapshot(models(loaded@)).1,
    {
        let ghost lm = models(loaded@);
        let mut kept: Vec<Arcade> = Vec::new();
        let mut skipped: Vec<Arcade> = Vec::new();
        let mut i: usize = 0;
        assert(lm.take(0) =~= Seq::<ArcadeModel>::empty());
        assert(models(kept@) =~= Seq::<ArcadeModel>::empty());
        assert(models(skipped@) =~= Seq::<ArcadeModel>::empty());
        while i < loaded.len()
            invariant
                i <= loaded@.len(),
                lm == models(loaded@),
                (models(kept@), models(skipped@)) == load_snapshot(lm.take(i as int)),
                snapshot_wf(models(kept@)),
            decreases loaded@.len() - i,
        {
            let a = &loaded[i];
            assert(lm.take(i as int + 1).drop_last() =~= lm.take(i as int));
            assert(lm.take(i as int + 1).last() == a@);
            let name = normalize_name(a.arcade_name.as_str());
            let ghost km = models(kept@);
            match position_of_name(&kept, &name) {
                Some(k) => {
                    assert(km[k as int].name == name@);
                    assert(names_contain(km, name@));
                    let ghost sm = models(skipped@);
                    skipped.push(copy_arcade(a));
                    assert(models(skipped@) =~= sm.push(a@));
                },
                None => {
                    assert(!names_contain(km, name@)) by {
                        if names_contain(km, name@) {
                            let k = choose|k: int| 0 <= k < km.len() && (#[trigger] km[k]).name == name@;
                            assert(kept@[k].arcade_name@ == name@);
                        }
                    }
                    let mut c = copy_arcade(a);
                    c.arcade_name = name;
                    kept.push(c);
                    assert(models(kept@) =~= km.push(renamed(a@, normalize(a@.name))));
                    assert(snapshot_wf(models(kept@))) by {
                        let m = models(kept@);
                        assert forall|x: int, y: int|
                            0 <= x < m.len() && 0 <= y < m.len() && x != y implies (#[trigger] m[x]).name
                            != (#[trigger] m[y]).name by {
                            if x < km.len() && y < km.len() {
                                assert(m[x] == km[x] && m[y] == km[y]);
                            } else if x < km.len() {
                                assert(m[x] == km[x]);
                                assert(kept@[x].arcade_name@ != name@);
                            } else {
                                assert(m[y] == km[y]);
                                assert(kept@[y].arcade_name@ != name@);
                            }
                        }
                        assert forall|x: int| 0 <= x < m.len() implies is_normalized(#[trigger] m[x].name) by {
                            if x < km.len() {
                                assert(m[x] == km[x]);
                            }
                        }
                    }
                },
            }
            i = i + 1;
        }
        assert(lm.take(i as int) =~= lm);
        (Snapshot { records: kept }, skipped)
    }

    /// The records, in load order.
    pub fn records(&self) -> (r: &Vec<Arcade>)
        ensures
            models(r@) == self@,
    {
        &self.records
    }

    /// Number of records.
    pub fn len(&self) -> (r: usize)
        ensures
            r == self@.len(),
    {
        self.records.len()
    }

    /// The position of the record named `name`.
    pub fn find(&self, name: &String) -> (r: Option<usize>)
        requires
            self.wf(),
        ensures
            r matches Some(k) ==> index_of_name(self@, name@) == Some(k as int),
            r is None ==> index_of_name(self@, name@) is None,
    {
        let r = position_of_name(&self.records, name);
        proof {
            match r {
                Some(k) => {
                    lemma_index_of_name(self@, k as int);
                },
                None => {
                    assert(!names_contain(self@, name@)) by {
                        if names_contain(self@, name@) {
                            let k = choose|k: int| 0 <= k < self@.len() && (#[trigger] self@[k]).name == name@;
                            assert(self.records@[k].arcade_name@ == name@);
                        }
                    }
                },
            }
        }
        r
    }
}

} // verus!
