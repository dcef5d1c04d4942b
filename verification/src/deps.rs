//! Dependency filter: which packages of the resolved graph are external,
//! and therefore have their licenses collected.

use vstd::prelude::*;

verus! {

/// One resolved package of the build graph, as the engine sees it: an
/// identity, a display name, the path of its manifest, and the absolute
/// path of an explicitly declared license file, if the package declares
/// one.
#[derive(Debug)]
pub struct Package {
    pub id: String,
    pub name: String,
    pub manifest_path: String,
    pub license_file: Option<String>,
}

/// `id` is the identity of one of the workspace's own members.
pub open spec fn is_workspace_member(id: Seq<char>, members: Seq<String>) -> bool {
    exists|i: int| 0 <= i < members.len() && members[i]@ == id
}

/// The external subset of `packages`: those whose identity is not a
/// workspace member, in their original order.
pub open spec fn externals(packages: Seq<Package>, members: Seq<String>) -> Seq<Package>
    decreases packages.len(),
{
    if packages.len() == 0 {
        Seq::empty()
    } else {
        let rest = externals(packages.drop_last(), members);
        if !is_workspace_member(packages.last().id@, members) {
            rest.push(packages.last())
        } else {
            rest
        }
    }
}

/// Whether `id` names a workspace member.
pub fn id_is_member(id: &String, members: &Vec<String>) -> (b: bool)
    ensures
        b == is_workspace_member(id@, members@),
{
    let mut i: usize = 0;
    while i < members.len()
        invariant
            i <= members@.len(),
            forall|i2: int| 0 <= i2 < i ==> members@[i2]@ != id@,
        decreases members@.len() - i,
    {
        if members[i] == *id {
            return true;
        }
        i += 1;
    }
    false
}

fn clone_opt_string(o: &Option<String>) -> (r: Option<String>)
    ensures
        r == *o,
{
    match o {
        Some(s) => Some(s.clone()),
        None => None,
    }
}

/// The external subset of `packages`: the full set minus the workspace
/// members, in order.  An empty result is valid and yields an empty
/// collation.
pub fn external_packages(packages: &Vec<Package>, workspace_members: &Vec<String>) -> (r: Vec<
    Package,
>)
    ensures
        r@ == externals(packages@, workspace_members@),
{
    let mut r: Vec<Package> = Vec::new();
    let mut i: usize = 0;
    while i < packages.len()
        invariant
            i <= packages@.len(),
            r@ == externals(packages@.take(i as int), workspace_members@),
        decreases packages@.len() - i,
    {
        let p = &packages[i];
        proof {
            assert(packages@.take(i as int + 1).drop_last() =~= packages@.take(i as int));
            assert(packages@.take(i as int + 1).last() == packages@[i as int]);
        }
        if !id_is_member(&p.id, workspace_members) {
            let q = Package {
                id: p.id.clone(),
                name: p.name.clone(),
                manifest_path: p.manifest_path.clone(),
                license_file: clone_opt_string(&p.license_file),
            };
            assert(q == packages@[i as int]);
            r.push(q);
        }
        i += 1;
    }
    assert(packages@.take(packages@.len() as int) =~= packages@);
    r
}

/// Every package that the filter keeps is external: it stems from the input
/// set and its identity is no workspace member.
pub proof fn lemma_externals_sound(packages: Seq<Package>, members: Seq<String>)
    ensures
        forall|j: int|
            #![trigger externals(packages, members)[j]]
            0 <= j < externals(packages, members).len() ==> !is_workspace_member(
                externals(packages, members)[j].id@,
                members,
            ) && packages.contains(externals(packages, members)[j]),
    decreases packages.len(),
{
    if packages.len() == 0 {
    } else {
        lemma_externals_sound(packages.drop_last(), members);
        let rest = externals(packages.drop_last(), members);
        assert forall|j: int| 0 <= j < externals(packages, members).len() implies !is_workspace_member(
            externals(packages, members)[j].id@,
            members,
        ) && packages.contains(externals(packages, members)[j]) by {
            if j < rest.len() {
                assert(externals(packages, members)[j] == rest[j]);
                assert(!is_workspace_member(externals(packages.drop_last(), members)[j].id@, members)
                    && packages.drop_last().contains(externals(packages.drop_last(), members)[j]));
                let i = choose|i: int| 0 <= i < packages.drop_last().len() && packages.drop_last()[i]
                    == rest[j];
                assert(packages[i] == rest[j]);
            } else {
                assert(externals(packages, members)[j] == packages.last());
                assert(packages[packages.len() - 1] == packages.last());
            }
        }
    }
}

/// Every external package survives the filter: nothing but the workspace
/// members is dropped.
pub proof fn lemma_externals_complete(packages: Seq<Package>, members: Seq<String>, i: int)
    requires
        0 <= i < packages.len(),
        !is_workspace_member(packages[i].id@, members),
    ensures
        externals(packages, members).contains(packages[i]),
    decreases packages.len(),
{
    let r = externals(packages, members);
    if i == packages.len() - 1 {
        let rest = externals(packages.drop_last(), members);
        assert(r[rest.len() as int] == packages.last());
    } else {
        lemma_externals_complete(packages.drop_last(), members, i);
        let rest = externals(packages.drop_last(), members);
        let k = choose|k: int| 0 <= k < rest.len() && rest[k] == packages.drop_last()[i];
        assert(packages.drop_last()[i] == packages[i]);
        if !is_workspace_member(packages.last().id@, members) {
            assert(r[k] == rest[k]);
        } else {
            assert(r == rest);
        }
    }
}

} // verus!
