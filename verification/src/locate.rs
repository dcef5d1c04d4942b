//! License locator: per dependency, either trust its declared license file
//! or classify the entries found below its root directory.
//!
//! Directory walking and file reading happen outside: the caller hands in,
//! per package, the observed entries as [`ScanEntry`] values.  An entry's
//! `lines` field holds the file's lines where the caller read them, and
//! `None` where the file could not be opened or was never read; an entry
//! that the filename heuristic already selects needs no lines.

use crate::deps::{Package, is_workspace_member, id_is_member};
use crate::matcher::{
    any_line_indicates,
    content_eligible,
    filename_selected,
    is_content_candidate,
    is_license_path,
    matches_any_line,
};
use crate::paths::{parent_of, parent_path};
use vstd::prelude::*;

verus! {

/// One filesystem entry seen below a dependency's root: its full path as
/// text, whether it is a regular file or a symbolic link (anything else is
/// traversed but never selected), and its lines where they could be read.
#[derive(Debug)]
pub struct ScanEntry {
    pub path: String,
    pub is_file_or_symlink: bool,
    pub lines: Option<Vec<String>>,
}

/// One dependency together with the entries observed below its root.
#[derive(Debug)]
pub struct PackageScan {
    pub package: Package,
    pub entries: Vec<ScanEntry>,
}

/// The candidates of one dependency: its display name, its root directory,
/// and the license-related paths found for it.
#[derive(Debug)]
pub struct LicenseSet {
    pub name: String,
    pub root_path: String,
    pub candidates: Vec<String>,
}

/// An entry is selected when it is a file or symbolic link and either the
/// filename heuristic matches its path, or its path suggests prose whose
/// readable lines indicate a license.  An unreadable file (`lines` is
/// `None`) never matches by content.
pub open spec fn entry_selected(e: ScanEntry) -> bool {
    &&& e.is_file_or_symlink
    &&& (filename_selected(e.path@) || (content_eligible(e.path@) && e.lines is Some
        && any_line_indicates(e.lines->0.deep_view())))
}

/// The paths of the selected entries, in order.
pub open spec fn selected_paths(entries: Seq<ScanEntry>) -> Seq<String>
    decreases entries.len(),
{
    if entries.len() == 0 {
        Seq::empty()
    } else {
        let rest = selected_paths(entries.drop_last());
        if entry_selected(entries.last()) {
            rest.push(entries.last().path)
        } else {
            rest
        }
    }
}

/// Whether the heuristics select this entry.
pub fn select_entry(e: &ScanEntry) -> (b: bool)
    ensures
        b == entry_selected(*e),
{
    if !e.is_file_or_symlink {
        return false;
    }
    if is_license_path(e.path.as_str()) {
        return true;
    }
    if !is_content_candidate(e.path.as_str()) {
        return false;
    }
    match &e.lines {
        Some(ls) => matches_any_line(ls),
        None => false,
    }
}

/// The paths of the entries that the heuristics select, in order.
pub fn scan_candidates(entries: &Vec<ScanEntry>) -> (r: Vec<String>)
    ensures
        r@ == selected_paths(entries@),
{
    let mut r: Vec<String> = Vec::new();
    let mut i: usize = 0;
    while i < entries.len()
        invariant
            i <= entries@.len(),
            r@ == selected_paths(entries@.take(i as int)),
        decreases entries@.len() - i,
    {
        proof {
            assert(entries@.take(i as int + 1).drop_last() =~= entries@.take(i as int));
            assert(entries@.take(i as int + 1).last() == entries@[i as int]);
        }
        let e = &entries[i];
        if select_entry(e) {
            r.push(e.path.clone());
        }
        i += 1;
    }
    assert(entries@.take(entries@.len() as int) =~= entries@);
    r
}

/// The root directory of a package: the parent of its manifest path.
pub fn path(package: &Package) -> (r: Option<String>)
    ensures
        r is Some <==> parent_of(package.manifest_path@) is Some,
        r matches Some(s) ==> Some(s@) == parent_of(package.manifest_path@),
{
    parent_path(package.manifest_path.as_str())
}

/// The license candidates of one package: its root directory paired with
/// either the declared license file alone — the scan is then skipped and
/// the entries never looked at — or the paths that the heuristics select.
/// `None` when the package's root directory cannot be resolved; such a
/// package is deliberately skipped, not an error.
pub fn search_for_licenses(package: &Package, entries: &Vec<ScanEntry>) -> (r: Option<
    (String, Vec<String>),
>)
    ensures
        r is Some <==> parent_of(package.manifest_path@) is Some,
        r matches Some(p) ==> Some(p.0@) == parent_of(package.manifest_path@),
        r matches Some(p) ==> match package.license_file {
            Some(f) => p.1@ == seq![f],
            None => p.1@ == selected_paths(entries@),
        },
{
    let root = match path(package) {
        None => {
            return None;
        },
        Some(root) => root,
    };
    let cands: Vec<String> = match &package.license_file {
        Some(f) => {
            let mut v: Vec<String> = Vec::new();
            v.push(f.clone());
            assert(v@ =~= seq![*f]);
            v
        },
        None => scan_candidates(entries),
    };
    Some((root, cands))
}

/// A ghost image of a [`LicenseSet`], with every path as its text.
pub ghost struct LicenseSetModel {
    pub name: Seq<char>,
    pub root_path: Seq<char>,
    pub candidates: Seq<Seq<char>>,
}

/// The texts of a sequence of owned strings.
pub open spec fn views_of(ss: Seq<String>) -> Seq<Seq<char>> {
    ss.map_values(|s: String| s@)
}

/// What a [`LicenseSet`] value states.
pub open spec fn license_set_model(s: LicenseSet) -> LicenseSetModel {
    LicenseSetModel { name: s.name@, root_path: s.root_path@, candidates: views_of(s.candidates@) }
}

/// The candidate texts of one package: its declared license file alone, or
/// the selected entry paths.
pub open spec fn candidate_views(license_file: Option<String>, entries: Seq<ScanEntry>) -> Seq<
    Seq<char>,
> {
    match license_file {
        Some(f) => seq![f@],
        None => views_of(selected_paths(entries)),
    }
}

/// The license sets of a whole scan: one per external package whose root
/// resolves, in order; workspace members and unresolvable packages yield
/// none.
pub open spec fn all_license_sets(scans: Seq<PackageScan>, members: Seq<String>) -> Seq<
    LicenseSetModel,
>
    decreases scans.len(),
{
    if scans.len() == 0 {
        Seq::empty()
    } else {
        let rest = all_license_sets(scans.drop_last(), members);
        let sc = scans.last();
        if !is_workspace_member(sc.package.id@, members) && parent_of(sc.package.manifest_path@) is Some {
            rest.push(
                LicenseSetModel {
                    name: sc.package.name@,
                    root_path: parent_of(sc.package.manifest_path@)->0,
                    candidates: candidate_views(sc.package.license_file, sc.entries@),
                },
            )
        } else {
            rest
        }
    }
}

/// The license sets of every external package: the workspace members are
/// filtered out, and each remaining package with a resolvable root yields
/// its name, its root and its candidates.
pub fn search_for_all_licenses(scans: &Vec<PackageScan>, workspace_members: &Vec<String>) -> (r:
    Vec<LicenseSet>)
    ensures
        r@.map_values(|s: LicenseSet| license_set_model(s)) == all_license_sets(
            scans@,
            workspace_members@,
        ),
{
    let ghost m = |s: LicenseSet| license_set_model(s);
    let mut r: Vec<LicenseSet> = Vec::new();
    let mut i: usize = 0;
    while i < scans.len()
        invariant
            i <= scans@.len(),
            r@.map_values(m) == all_license_sets(scans@.take(i as int), workspace_members@),
            m == (|s: LicenseSet| license_set_model(s)),
        decreases scans@.len() - i,
    {
        proof {
            assert(scans@.take(i as int + 1).drop_last() =~= scans@.take(i as int));
            assert(scans@.take(i as int + 1).last() == scans@[i as int]);
        }
        let sc = &scans[i];
        if !id_is_member(&sc.package.id, workspace_members) {
            match search_for_licenses(&sc.package, &sc.entries) {
                Some((root, cands)) => {
                    let set = LicenseSet {
                        name: sc.package.name.clone(),
                        root_path: root,
                        candidates: cands,
                    };
                    proof {
                        let sc_g = scans@[i as int];
                        assert(license_set_model(set).candidates =~= candidate_views(
                            sc_g.package.license_file,
                            sc_g.entries@,
                        )) by {
                            match sc_g.package.license_file {
                                Some(f) => {
                                    assert(views_of(seq![f]) =~= seq![f@]);
                                },
                                None => {},
                            }
                        }
                        assert(license_set_model(set) == all_license_sets(
                            scans@.take(i as int + 1),
                            workspace_members@,
                        ).last());
                        assert(r@.push(set).map_values(m) =~= r@.map_values(m).push(
                            license_set_model(set),
                        ));
                    }
                    r.push(set);
                },
                None => {},
            }
        }
        i += 1;
    }
    assert(scans@.take(scans@.len() as int) =~= scans@);
    r
}

/// A file or link whose path the filename heuristic matches is selected,
/// whatever its contents.
pub proof fn lemma_filename_match_selected(e: ScanEntry)
    requires
        e.is_file_or_symlink,
        filename_selected(e.path@),
    ensures
        entry_selected(e),
{
}

/// A file or link the filename heuristic passes over, whose path suggests
/// prose and one of whose lines indicates a license, is selected.
pub proof fn lemma_content_match_selected(e: ScanEntry)
    requires
        e.is_file_or_symlink,
        !filename_selected(e.path@),
        content_eligible(e.path@),
        e.lines is Some,
        any_line_indicates(e.lines->0.deep_view()),
    ensures
        entry_selected(e),
{
}

/// An entry that neither heuristic matches is never selected.
pub proof fn lemma_unmatched_never_selected(e: ScanEntry)
    requires
        !filename_selected(e.path@),
        !(content_eligible(e.path@) && e.lines is Some && any_line_indicates(
            e.lines->0.deep_view(),
        )),
    ensures
        !entry_selected(e),
{
}

/// Every selected path stems from a selected entry.
pub proof fn lemma_selected_paths_sound(entries: Seq<ScanEntry>)
    ensures
        forall|p: String|
            #[trigger] selected_paths(entries).contains(p) ==> exists|i: int|
                0 <= i < entries.len() && entry_selected(entries[i]) && entries[i].path == p,
    decreases entries.len(),
{
    if entries.len() == 0 {
    } else {
        lemma_selected_paths_sound(entries.drop_last());
        let rest = selected_paths(entries.drop_last());
        assert forall|p: String| selected_paths(entries).contains(p) implies exists|i: int|
            0 <= i < entries.len() && entry_selected(entries[i]) && entries[i].path == p by {
            let j = choose|j: int| 0 <= j < selected_paths(entries).len() && selected_paths(
                entries,
            )[j] == p;
            if j < rest.len() {
                assert(rest.contains(p));
                let i = choose|i: int|
                    0 <= i < entries.drop_last().len() && entry_selected(
                        entries.drop_last()[i],
                    ) && entries.drop_last()[i].path == p;
                assert(entries[i] == entries.drop_last()[i]);
            } else {
                assert(entry_selected(entries.last()) && entries.last().path == p);
                assert(entries[entries.len() - 1] == entries.last());
            }
        }
    }
}

/// Every selected entry's path is among the selected paths.
pub proof fn lemma_selected_paths_complete(entries: Seq<ScanEntry>, i: int)
    requires
        0 <= i < entries.len(),
        entry_selected(entries[i]),
    ensures
        selected_paths(entries).contains(entries[i].path),
    decreases entries.len(),
{
    let r = selected_paths(entries);
    let rest = selected_paths(entries.drop_last());
    if i == entries.len() - 1 {
        assert(r[rest.len() as int] == entries.last().path);
    } else {
        assert(entries.drop_last()[i] == entries[i]);
        lemma_selected_paths_complete(entries.drop_last(), i);
        let k = choose|k: int| 0 <= k < rest.len() && rest[k] == entries.drop_last()[i].path;
        if entry_selected(entries.last()) {
            assert(r[k] == rest[k]);
        } else {
            assert(r == rest);
        }
    }
}

/// Every collated set stems from a package outside the workspace: a
/// workspace member is never present in the output, whatever files it
/// holds.
pub proof fn lemma_workspace_never_collated(scans: Seq<PackageScan>, members: Seq<String>)
    ensures
        forall|j: int|
            #![trigger all_license_sets(scans, members)[j]]
            0 <= j < all_license_sets(scans, members).len() ==> exists|i: int|
                #![trigger scans[i]]
                0 <= i < scans.len() && !is_workspace_member(scans[i].package.id@, members)
                    && all_license_sets(scans, members)[j].name == scans[i].package.name@,
    decreases scans.len(),
{
    if scans.len() == 0 {
    } else {
        lemma_workspace_never_collated(scans.drop_last(), members);
        let rest = all_license_sets(scans.drop_last(), members);
        assert forall|j: int|
            #![trigger all_license_sets(scans, members)[j]]
            0 <= j < all_license_sets(scans, members).len() implies exists|i: int|
            #![trigger scans[i]]
            0 <= i < scans.len() && !is_workspace_member(scans[i].package.id@, members)
                && all_license_sets(scans, members)[j].name == scans[i].package.name@ by {
            if j < rest.len() {
                assert(all_license_sets(scans, members)[j] == rest[j]);
                assert(0 <= j < all_license_sets(scans.drop_last(), members).len());
                let i = choose|i: int|
                    0 <= i < scans.drop_last().len() && !is_workspace_member(
                        scans.drop_last()[i].package.id@,
                        members,
                    ) && all_license_sets(scans.drop_last(), members)[j].name
                        == scans.drop_last()[i].package.name@;
                assert(scans[i] == scans.drop_last()[i]);
            } else {
                assert(all_license_sets(scans, members)[j].name == scans.last().package.name@);
                assert(scans[scans.len() - 1] == scans.last());
            }
        }
    }
}

} // verus!
