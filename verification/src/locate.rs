//! The asset locator over an in-memory picture of the directory tree: a
//! directory is an asset root when its marker file carries a valid identity;
//! a matched root is never searched further, and without a marker file the
//! search descends only in recursive mode, skipping version-control
//! directories.

use vstd::prelude::*;

use crate::kuid::{spec_config_kuid, spec_config_username, config_kuid, config_username};
use crate::textutil::push_char;

verus! {

/// A directory: the text of its marker file, when one is present and
/// readable, and its named subdirectories in enumeration order.
pub struct DirTree {
    pub config: Option<String>,
    pub subdirs: Vec<SubDir>,
}

/// One subdirectory with its name.
pub struct SubDir {
    pub name: String,
    pub tree: DirTree,
}

/// One buildable unit: its display name, its identity, and the path of its
/// root directory as components relative to the scan root.
pub struct Asset {
    pub name: String,
    pub kuid: String,
    pub path: Vec<String>,
}

/// The mathematical picture of an `Asset`.
pub ghost struct SpecAsset {
    pub name: Seq<char>,
    pub kuid: Seq<char>,
    pub path: Seq<Seq<char>>,
}

impl View for Asset {
    type V = SpecAsset;

    open spec fn view(&self) -> SpecAsset {
        SpecAsset { name: self.name@, kuid: self.kuid@, path: self.path.deep_view() }
    }
}

impl DeepView for Asset {
    type V = SpecAsset;

    open spec fn deep_view(&self) -> SpecAsset {
        self.view()
    }
}

/// Subdirectory names the search never descends into.
pub open spec fn spec_denied(name: Seq<char>) -> bool {
    name == ".git"@ || name == ".hg"@
}

/// The identity the directory's marker file carries, if both exist.
pub open spec fn spec_tree_kuid(t: DirTree) -> Option<Seq<char>> {
    match t.config {
        Some(text) => spec_config_kuid(text@),
        None => None,
    }
}

/// The display name of an asset: the marker file's non-empty quoted name, or
/// the identity in angle brackets.
pub open spec fn spec_asset_name(text: Seq<char>, kuid: Seq<char>) -> Seq<char> {
    match spec_config_username(text) {
        Some(n) => if n.len() == 0 {
            seq!['<'] + kuid + seq!['>']
        } else {
            n
        },
        None => seq!['<'] + kuid + seq!['>'],
    }
}

/// The assets found under `t`, whose own path is `prefix`: a matched marker
/// file makes `t` a leaf asset root; otherwise, in recursive mode only and
/// only without a marker file, the subdirectories are searched in order.
pub open spec fn spec_locate(t: DirTree, recursive: bool, prefix: Seq<Seq<char>>) -> Seq<
    SpecAsset,
>
    decreases t, 1int, 0int,
{
    match t.config {
        Some(text) => match spec_config_kuid(text@) {
            Some(k) => seq![
                SpecAsset { name: spec_asset_name(text@, k), kuid: k, path: prefix },
            ],
            None => Seq::empty(),
        },
        None => if recursive {
            spec_locate_from(t, 0, prefix)
        } else {
            Seq::empty()
        },
    }
}

/// The assets found under the subdirectories of `t` from index `i` on.
pub open spec fn spec_locate_from(t: DirTree, i: int, prefix: Seq<Seq<char>>) -> Seq<SpecAsset>
    decreases t, 0int, t.subdirs@.len() - i,
{
    if i < 0 || i >= t.subdirs@.len() {
        Seq::empty()
    } else {
        let sd = t.subdirs@[i];
        let first = if spec_denied(sd.name@) {
            Seq::empty()
        } else {
            spec_locate(sd.tree, true, prefix.push(sd.name@))
        };
        first + spec_locate_from(t, i + 1, prefix)
    }
}

/// Subdirectory names are unique at every level.
pub open spec fn wf_tree(t: DirTree) -> bool
    decreases t, 1int, 0int,
{
    &&& forall|i: int, j: int|
        0 <= i < j < t.subdirs@.len() ==> t.subdirs@[i].name@ != t.subdirs@[j].name@
    &&& wf_tree_from(t, 0)
}

/// Well-formedness of the subdirectories of `t` from index `i` on.
pub open spec fn wf_tree_from(t: DirTree, i: int) -> bool
    decreases t, 0int, t.subdirs@.len() - i,
{
    if i < 0 || i >= t.subdirs@.len() {
        true
    } else {
        wf_tree(t.subdirs@[i].tree) && wf_tree_from(t, i + 1)
    }
}

/// `p` is a strictly shorter leading run of `q`: the path `p` names an
/// ancestor directory of the one `q` names.
pub open spec fn is_strict_prefix(p: Seq<Seq<char>>, q: Seq<Seq<char>>) -> bool {
    p.len() < q.len() && p == q.subrange(0, p.len() as int)
}

/// No found asset root lies inside another found asset root.
pub open spec fn no_nested_paths(r: Seq<SpecAsset>) -> bool {
    forall|i: int, j: int|
        0 <= i < r.len() && 0 <= j < r.len() ==> !is_strict_prefix(r[i].path, r[j].path)
}

/// Every found path starts with the given prefix.
pub open spec fn all_extend(r: Seq<SpecAsset>, prefix: Seq<Seq<char>>) -> bool {
    forall|k: int|
        0 <= k < r.len() ==> r[k].path.len() >= prefix.len() && r[k].path.subrange(
            0,
            prefix.len() as int,
        ) == prefix
}

/// Each subdirectory of a well-formed tree roots a well-formed tree.
proof fn lemma_wf_child(t: DirTree, i: int, c: int)
    requires
        wf_tree_from(t, i),
        0 <= i <= c < t.subdirs@.len(),
    ensures
        wf_tree(t.subdirs@[c].tree),
    decreases c - i,
{
    if i < c {
        lemma_wf_child(t, i + 1, c);
    }
}

/// Discovery in a well-formed tree never yields one asset root inside
/// another: once a marker file is matched, its directory is not searched
/// further, so no two results stand in an ancestor relation. Every result's
/// path extends the path of the searched root.
pub proof fn lemma_locate_no_nesting(t: DirTree, recursive: bool, prefix: Seq<Seq<char>>)
    requires
        wf_tree(t),
    ensures
        no_nested_paths(spec_locate(t, recursive, prefix)),
        all_extend(spec_locate(t, recursive, prefix), prefix),
    decreases t, 1int, 0int,
{
    let r = spec_locate(t, recursive, prefix);
    match t.config {
        Some(text) => {
            match spec_config_kuid(text@) {
                Some(k) => {
                    assert(r.len() == 1 && r[0].path == prefix);
                    assert(prefix.subrange(0, prefix.len() as int) =~= prefix);
                },
                None => {},
            }
        },
        None => {
            if recursive {
                lemma_from_no_nesting(t, 0, prefix);
                assert forall|k: int| 0 <= k < r.len() implies r[k].path.len() >= prefix.len()
                    && r[k].path.subrange(0, prefix.len() as int) == prefix by {}
            }
        },
    }
}

/// As `lemma_locate_no_nesting`, over the subdirectories from `i` on; every
/// result's path is strictly longer than the prefix, and its next component
/// is the name of one of those subdirectories.
proof fn lemma_from_no_nesting(t: DirTree, i: int, prefix: Seq<Seq<char>>)
    requires
        wf_tree(t),
        0 <= i,
    ensures
        ({
            let r = spec_locate_from(t, i, prefix);
            &&& no_nested_paths(r)
            &&& forall|k: int|
                0 <= k < r.len() ==> r[k].path.len() > prefix.len() && r[k].path.subrange(
                    0,
                    prefix.len() as int,
                ) == prefix && (exists|c: int|
                    i <= c < t.subdirs@.len() && r[k].path[prefix.len() as int]
                        == t.subdirs@[c].name@)
        }),
    decreases t, 0int, t.subdirs@.len() - i,
{
    let r = spec_locate_from(t, i, prefix);
    if i >= t.subdirs@.len() {
        return ;
    }
    let sd = t.subdirs@[i];
    let p2 = prefix.push(sd.name@);
    let first = if spec_denied(sd.name@) {
        Seq::<SpecAsset>::empty()
    } else {
        spec_locate(sd.tree, true, p2)
    };
    let rest = spec_locate_from(t, i + 1, prefix);
    assert(r == first + rest);
    if !spec_denied(sd.name@) {
        lemma_wf_child(t, 0, i);
        lemma_locate_no_nesting(sd.tree, true, p2);
    }
    lemma_from_no_nesting(t, i + 1, prefix);
    assert forall|k: int| 0 <= k < r.len() implies r[k].path.len() > prefix.len()
        && r[k].path.subrange(0, prefix.len() as int) == prefix && (exists|c: int|
        i <= c < t.subdirs@.len() && r[k].path[prefix.len() as int] == t.subdirs@[c].name@) by {
        if k < first.len() {
            assert(r[k] == first[k]);
            assert(first[k].path.len() >= p2.len());
            assert(first[k].path.subrange(0, p2.len() as int) == p2);
            assert(r[k].path.subrange(0, prefix.len() as int) =~= p2.subrange(
                0,
                prefix.len() as int,
            ));
            assert(p2.subrange(0, prefix.len() as int) =~= prefix);
            assert(r[k].path[prefix.len() as int] == p2[prefix.len() as int]);
            assert(i <= i < t.subdirs@.len() && r[k].path[prefix.len() as int]
                == t.subdirs@[i].name@);
        } else {
            assert(r[k] == rest[k - first.len()]);
        }
    }
    assert forall|a: int, b: int| 0 <= a < r.len() && 0 <= b < r.len() implies !is_strict_prefix(
        r[a].path,
        r[b].path,
    ) by {
        if a < first.len() && b < first.len() {
            assert(r[a] == first[a] && r[b] == first[b]);
            assert(!is_strict_prefix(first[a].path, first[b].path));
        } else if a >= first.len() && b >= first.len() {
            assert(r[a] == rest[a - first.len()] && r[b] == rest[b - first.len()]);
            assert(!is_strict_prefix(r[a].path, r[b].path));
        } else {
            let x = if a < first.len() {
                a
            } else {
                b
            };
            let y = if a < first.len() {
                b
            } else {
                a
            };
            assert(r[x] == first[x]);
            assert(r[y] == rest[y - first.len()]);
            assert(!spec_denied(sd.name@));
            assert(all_extend(first, p2));
            assert(r[x].path.len() >= p2.len());
            assert(r[x].path.subrange(0, p2.len() as int) == p2);
            assert(r[x].path.subrange(0, p2.len() as int)[prefix.len() as int] == r[x].path[
                prefix.len() as int
            ]);
            assert(r[x].path[prefix.len() as int] == sd.name@);
            let c = choose|c: int|
                i + 1 <= c < t.subdirs@.len() && r[y].path[prefix.len() as int]
                    == t.subdirs@[c].name@;
            assert(t.subdirs@[c].name@ != sd.name@);
            assert(r[x].path[prefix.len() as int] != r[y].path[prefix.len() as int]);
            if is_strict_prefix(r[x].path, r[y].path) {
                assert(r[x].path[prefix.len() as int] == r[y].path.subrange(
                    0,
                    r[x].path.len() as int,
                )[prefix.len() as int]);
                assert(false);
            }
            if is_strict_prefix(r[y].path, r[x].path) {
                assert(r[y].path[prefix.len() as int] == r[x].path.subrange(
                    0,
                    r[y].path.len() as int,
                )[prefix.len() as int]);
                assert(false);
            }
        }
    }
}

/// Discovery without recursion over a root lacking a marker file finds
/// nothing.
pub proof fn lemma_nonrecursive_no_marker_empty(t: DirTree, prefix: Seq<Seq<char>>)
    requires
        t.config is None,
    ensures
        spec_locate(t, false, prefix) == Seq::<SpecAsset>::empty(),
{
}

fn is_denied(name: &String) -> (r: bool)
    ensures
        r == spec_denied(name@),
{
    let git = String::from_str(".git");
    let hg = String::from_str(".hg");
    name.eq(&git) || name.eq(&hg)
}

/// The display name, materialized.
fn asset_name(text: &str, kuid: &String) -> (r: String)
    requires
        spec_config_kuid(text@) is Some,
    ensures
        r@ == spec_asset_name(text@, kuid@),
{
    match config_username(text) {
        Some(n) => {
            if n.as_str().unicode_len() > 0 {
                return n;
            }
            bracketed(kuid)
        },
        None => bracketed(kuid),
    }
}

/// The identity in angle brackets.
fn bracketed(kuid: &String) -> (r: String)
    ensures
        r@ == seq!['<'] + kuid@ + seq!['>'],
{
    let mut r = String::new();
    push_char(&mut r, '<');
    r.append(kuid.as_str());
    push_char(&mut r, '>');
    proof {
        assert(r@ =~= seq!['<'] + kuid@ + seq!['>']);
    }
    r
}

/// Exec mirror of `spec_locate`, appending into `out`.
fn locate_rec(t: &DirTree, recursive: bool, prefix: &Vec<String>, out: &mut Vec<Asset>)
    ensures
        final(out).deep_view() == old(out).deep_view() + spec_locate(
            *t,
            recursive,
            prefix.deep_view(),
        ),
    decreases *t,
{
    match &t.config {
        Some(text) => {
            match config_kuid(text.as_str()) {
                Some(k) => {
                    let name = asset_name(text.as_str(), &k);
                    let ghost o0 = out.deep_view();
                    let a = Asset { name, kuid: k, path: prefix.clone() };
                    proof {
                        assert(a.path.deep_view() =~~= prefix.deep_view());
                    }
                    out.push(a);
                    proof {
                        assert(out.deep_view() =~~= o0 + spec_locate(
                            *t,
                            recursive,
                            prefix.deep_view(),
                        ));
                    }
                },
                None => {
                    proof {
                        assert(out.deep_view() =~~= out.deep_view() + spec_locate(
                            *t,
                            recursive,
                            prefix.deep_view(),
                        ));
                    }
                },
            }
        },
        None => {
            if !recursive {
                proof {
                    assert(out.deep_view() =~~= out.deep_view() + spec_locate(
                        *t,
                        recursive,
                        prefix.deep_view(),
                    ));
                }
                return ;
            }
            let ghost o0 = out.deep_view();
            let mut i: usize = 0;
            while i < t.subdirs.len()
                invariant
                    i <= t.subdirs@.len(),
                    out.deep_view() + spec_locate_from(*t, i as int, prefix.deep_view()) == o0
                        + spec_locate_from(*t, 0, prefix.deep_view()),
                decreases t.subdirs@.len() - i,
            {
                let sd = &t.subdirs[i];
                if !is_denied(&sd.name) {
                    let mut p2 = prefix.clone();
                    p2.push(sd.name.clone());
                    proof {
                        assert(p2.deep_view() =~~= prefix.deep_view().push(sd.name@));
                    }
                    locate_rec(&sd.tree, true, &p2, out);
                }
                proof {
                    assert(out.deep_view() + spec_locate_from(*t, i + 1, prefix.deep_view())
                        =~~= o0 + spec_locate_from(*t, 0, prefix.deep_view()));
                }
                i = i + 1;
            }
            proof {
                assert(spec_locate_from(*t, t.subdirs@.len() as int, prefix.deep_view())
                    =~= Seq::<SpecAsset>::empty());
                assert(out.deep_view() =~~= o0 + spec_locate(*t, recursive, prefix.deep_view()));
            }
        },
    }
}

/// The assets found under `tree`, in enumeration order.
pub fn locate_assets(tree: &DirTree, recursive: bool) -> (r: Vec<Asset>)
    ensures
        r.deep_view() == spec_locate(*tree, recursive, Seq::empty()),
{
    let prefix: Vec<String> = Vec::new();
    let mut out: Vec<Asset> = Vec::new();
    proof {
        assert(prefix.deep_view() =~~= Seq::<Seq<char>>::empty());
        assert(out.deep_view() =~~= Seq::<SpecAsset>::empty());
    }
    locate_rec(tree, recursive, &prefix, &mut out);
    proof {
        assert(out.deep_view() =~~= spec_locate(*tree, recursive, Seq::empty()));
    }
    out
}

} // verus!
