//! Collator: maps every discovered candidate to its destination under
//! `<destination>/<dependency-name>/<relative-path>` and plans the copies.
//!
//! Copying itself is the caller's work: it carries out the plan item by
//! item, and an item that fails on disk must not keep it from the rest.
//! [`flatten_copy_dir_result`] folds the outcome of one recursive copy,
//! possibly many errors, into a single outcome for its candidate.

use crate::locate::LicenseSet;
use crate::paths::{join_under, joined_under, relative_to, strip_path_prefix};
use vstd::prelude::*;

verus! {

/// One planned copy: an absolute source path and the destination it goes
/// to.
#[derive(Debug)]
pub struct CopyItem {
    pub source: String,
    pub destination: String,
}

/// The terminal artifact for one candidate: the destination its copy went
/// to, and whether the copy succeeded or failed with a message.  A failed
/// outcome never keeps other candidates from theirs.
#[derive(Debug)]
pub struct CopyOutcome {
    pub destination_path: String,
    pub result: Result<(), String>,
}

/// A ghost image of a [`CopyItem`], with each path as its text.
pub ghost struct PlannedCopy {
    pub source: Seq<char>,
    pub destination: Seq<char>,
}

/// What a [`CopyItem`] value states.
pub open spec fn copy_item_model(c: CopyItem) -> PlannedCopy {
    PlannedCopy { source: c.source@, destination: c.destination@ }
}

/// Every candidate of the set lies under the set's root.
pub open spec fn set_ok(s: LicenseSet) -> bool {
    forall|k: int|
        0 <= k < s.candidates@.len() ==> relative_to(s.root_path@, #[trigger] s.candidates@[k]@) is Some
}

/// Every candidate of every set lies under its set's root.
pub open spec fn sets_ok(sets: Seq<LicenseSet>) -> bool {
    forall|j: int| 0 <= j < sets.len() ==> set_ok(#[trigger] sets[j])
}

/// The planned copies of one set: each candidate goes to the destination
/// root, then the set's name, then the candidate's path relative to the
/// set's root.
pub open spec fn set_plan(destination: Seq<char>, s: LicenseSet) -> Seq<PlannedCopy> {
    Seq::new(
        s.candidates@.len(),
        |k: int|
            PlannedCopy {
                source: s.candidates@[k]@,
                destination: joined_under(
                    destination,
                    s.name@,
                    relative_to(s.root_path@, s.candidates@[k]@)->0,
                ),
            },
    )
}

/// The planned copies of all sets, in order.
pub open spec fn plan_of(destination: Seq<char>, sets: Seq<LicenseSet>) -> Seq<PlannedCopy>
    decreases sets.len(),
{
    if sets.len() == 0 {
        Seq::empty()
    } else {
        plan_of(destination, sets.drop_last()) + set_plan(destination, sets.last())
    }
}

/// The copy plan for every candidate of every set: one item per candidate,
/// in order.  An error names the first candidate that does not lie under
/// its set's root; no item is planned for a partial set.
pub fn plan_copies(destination: &str, licenses: &Vec<LicenseSet>) -> (r: Result<
    Vec<CopyItem>,
    String,
>)
    ensures
        r is Ok <==> sets_ok(licenses@),
        r matches Ok(plan) ==> plan@.map_values(|c: CopyItem| copy_item_model(c)) == plan_of(
            destination@,
            licenses@,
        ),
{
    let ghost m = |c: CopyItem| copy_item_model(c);
    let mut plan: Vec<CopyItem> = Vec::new();
    let mut j: usize = 0;
    while j < licenses.len()
        invariant
            j <= licenses@.len(),
            plan@.map_values(m) == plan_of(destination@, licenses@.take(j as int)),
            forall|j2: int| 0 <= j2 < j ==> set_ok(#[trigger] licenses@[j2]),
            m == (|c: CopyItem| copy_item_model(c)),
        decreases licenses@.len() - j,
    {
        let set = &licenses[j];
        let ghost set_g = licenses@[j as int];
        let mut k: usize = 0;
        while k < set.candidates.len()
            invariant
                k <= set_g.candidates@.len(),
                set == &licenses@[j as int],
                set_g == licenses@[j as int],
                0 <= j < licenses@.len(),
                plan@.map_values(m) == plan_of(destination@, licenses@.take(j as int)) + set_plan(
                    destination@,
                    set_g,
                ).take(k as int),
                forall|k2: int|
                    0 <= k2 < k ==> relative_to(
                        set_g.root_path@,
                        #[trigger] set_g.candidates@[k2]@,
                    ) is Some,
                forall|j2: int| 0 <= j2 < j ==> set_ok(#[trigger] licenses@[j2]),
                m == (|c: CopyItem| copy_item_model(c)),
            decreases set_g.candidates@.len() - k,
        {
            let cand = &set.candidates[k];
            match strip_path_prefix(set.root_path.as_str(), cand.as_str()) {
                Some(rel) => {
                    let dst = join_under(destination, set.name.as_str(), rel.as_str());
                    let item = CopyItem { source: cand.clone(), destination: dst };
                    proof {
                        assert(copy_item_model(item) == set_plan(destination@, set_g)[k as int]);
                        assert(plan@.push(item).map_values(m) =~= plan@.map_values(m).push(
                            copy_item_model(item),
                        ));
                        assert(set_plan(destination@, set_g).take(k as int).push(
                            set_plan(destination@, set_g)[k as int],
                        ) =~= set_plan(destination@, set_g).take(k as int + 1));
                        assert(plan_of(destination@, licenses@.take(j as int)) + set_plan(
                            destination@,
                            set_g,
                        ).take(k as int).push(set_plan(destination@, set_g)[k as int]) =~= plan_of(
                            destination@,
                            licenses@.take(j as int),
                        ) + set_plan(destination@, set_g).take(k as int + 1));
                    }
                    plan.push(item);
                },
                None => {
                    assert(!set_ok(set_g));
                    let mut msg = cand.clone();
                    msg.append(" is not under ");
                    msg.append(set.root_path.as_str());
                    return Err(msg);
                },
            }
            k += 1;
        }
        proof {
            assert(set_plan(destination@, set_g).take(set_g.candidates@.len() as int) =~= set_plan(
                destination@,
                set_g,
            ));
            assert(licenses@.take(j as int + 1).drop_last() =~= licenses@.take(j as int));
            assert(licenses@.take(j as int + 1).last() == licenses@[j as int]);
        }
        j += 1;
    }
    assert(licenses@.take(licenses@.len() as int) =~= licenses@);
    Ok(plan)
}

/// A destination path lies within the namespace of one dependency: it
/// begins with the destination root, the dependency's name and a
/// separator.
pub open spec fn within_namespace(p: Seq<char>, destination: Seq<char>, name: Seq<char>) -> bool {
    let ns = destination + seq!['/'] + name + seq!['/'];
    p.len() >= ns.len() && p.subrange(0, ns.len() as int) == ns
}

/// Destination containment: every planned destination lies under
/// `<destination>/<name>/` for the name of one of the collated sets, never
/// beside or above it.
pub proof fn lemma_plan_destinations_contained(destination: Seq<char>, sets: Seq<LicenseSet>)
    ensures
        forall|j: int|
            #![trigger plan_of(destination, sets)[j]]
            0 <= j < plan_of(destination, sets).len() ==> exists|i: int|
                #![trigger sets[i]]
                0 <= i < sets.len() && within_namespace(
                    plan_of(destination, sets)[j].destination,
                    destination,
                    sets[i].name@,
                ),
    decreases sets.len(),
{
    if sets.len() == 0 {
    } else {
        lemma_plan_destinations_contained(destination, sets.drop_last());
        let rest = plan_of(destination, sets.drop_last());
        let tail = set_plan(destination, sets.last());
        assert forall|j: int|
            #![trigger plan_of(destination, sets)[j]]
            0 <= j < plan_of(destination, sets).len() implies exists|i: int|
            #![trigger sets[i]]
            0 <= i < sets.len() && within_namespace(
                plan_of(destination, sets)[j].destination,
                destination,
                sets[i].name@,
            ) by {
            if j < rest.len() {
                assert(plan_of(destination, sets)[j] == rest[j]);
                let i = choose|i: int|
                    0 <= i < sets.drop_last().len() && within_namespace(
                        rest[j].destination,
                        destination,
                        sets.drop_last()[i].name@,
                    );
                assert(sets[i] == sets.drop_last()[i]);
            } else {
                let s = sets.last();
                let k = j - rest.len();
                assert(plan_of(destination, sets)[j] == tail[k]);
                let ns = destination + seq!['/'] + s.name@ + seq!['/'];
                let rel = relative_to(s.root_path@, s.candidates@[k]@)->0;
                assert(tail[k].destination =~= ns + rel);
                assert((ns + rel).subrange(0, ns.len() as int) =~= ns);
                assert(sets[sets.len() - 1] == sets.last());
                assert(within_namespace(plan_of(destination, sets)[j].destination, destination, sets.last().name@));
            }
        }
    }
}

/// The collation plan is a function of its inputs alone: planning the same
/// sets into the same destination a second time yields the same plan, so a
/// repeated run writes the same files to the same places.
pub proof fn lemma_plan_deterministic(
    destination1: Seq<char>,
    sets1: Seq<LicenseSet>,
    destination2: Seq<char>,
    sets2: Seq<LicenseSet>,
)
    requires
        destination1 == destination2,
        sets1 == sets2,
    ensures
        plan_of(destination1, sets1) == plan_of(destination2, sets2),
{
}

/// The messages of a recursive copy's inner errors, joined into one.
pub open spec fn joined_messages(ms: Seq<String>) -> Seq<char>
    decreases ms.len(),
{
    if ms.len() == 0 {
        Seq::empty()
    } else if ms.len() == 1 {
        ms[0]@
    } else {
        joined_messages(ms.drop_last()) + "; "@ + ms.last()@
    }
}

/// One outcome for one candidate, out of a recursive directory copy that
/// may have failed in several places: success exactly when the copy
/// reported neither a top-level error nor any inner one; otherwise one
/// error that carries the top-level message, or every inner message
/// joined.
pub fn flatten_copy_dir_result(result: Result<Vec<String>, String>) -> (r: Result<(), String>)
    ensures
        r is Ok <==> (result matches Ok(v) && v@.len() == 0),
        result matches Ok(v) ==> v@.len() > 0 ==> (r matches Err(m) && m@ == joined_messages(v@)),
        result matches Err(e) ==> (r matches Err(m) && m == e),
{
    match result {
        Ok(v) => {
            if v.len() == 0 {
                Ok(())
            } else {
                let mut m = v[0].clone();
                assert(v@.take(1)[0] == v@[0]);
                assert(m@ == joined_messages(v@.take(1)));
                let mut i: usize = 1;
                while i < v.len()
                    invariant
                        1 <= i <= v@.len(),
                        m@ == joined_messages(v@.take(i as int)),
                    decreases v@.len() - i,
                {
                    m.append("; ");
                    m.append(v[i].as_str());
                    proof {
                        assert(v@.take(i as int + 1).drop_last() =~= v@.take(i as int));
                        assert(v@.take(i as int + 1).last() == v@[i as int]);
                    }
                    i += 1;
                }
                assert(v@.take(v@.len() as int) =~= v@);
                Err(m)
            }
        },
        Err(e) => Err(e),
    }
}

} // verus!
