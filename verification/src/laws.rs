//! Properties of the scanner that hold for every input, proved from the
//! specifications that the functions' contracts use.
use vstd::prelude::*;

use crate::find::{
    descend_upto, descends_into, excluded_dirs, matched_names, matched_targets,
    plan_candidates, plan_kinds, present_in,
};
use crate::outside::json_section_keys;
use crate::tree::{clamp_u64, newest_in, newest_mtime, sum_bytes, total_bytes, FsNode};
use crate::text::joined;
use crate::find::clamp_threads;
use crate::utils::{
    dirs_for_keys, extend_unique, framework_map, framework_targets_of, framework_targets_spec,
    kinds_spec, npm_targets_spec, package_text, push_unique, rule_targets, section_dirs, DirSnapshot,
    TargetRule,
};

verus! {

/// A symbolic link or an unreadable entry in a directory adds no bytes and no
/// newer modification time to it: links are never followed.
pub proof fn lemma_skipped_entries_add_nothing(children: Seq<FsNode>, entry: FsNode)
    requires
        entry is Symlink || entry is Unreadable,
    ensures
        sum_bytes(children.push(entry)) == sum_bytes(children),
        newest_in(children.push(entry)) == newest_in(children),
{
    let s = children.push(entry);
    assert(s.drop_last() =~= children);
    assert(s.last() == entry);
    assert(crate::tree::total_bytes(entry) == 0);
    assert(crate::tree::newest_mtime(entry) == 0);
}

/// The bytes of two lists of entries taken together are the bytes of each
/// added up.
pub proof fn lemma_sum_bytes_concat(a: Seq<FsNode>, b: Seq<FsNode>)
    ensures
        sum_bytes(a + b) == sum_bytes(a) + sum_bytes(b),
        sum_bytes(Seq::<FsNode>::empty()) == 0,
        b.len() == 1 ==> sum_bytes(b) == total_bytes(b[0]),
    decreases b.len(),
{
    if b.len() == 1 {
        assert(b.drop_last() =~= Seq::<FsNode>::empty());
    }
    if b.len() == 0 {
        assert(a + b =~= a);
    } else {
        lemma_sum_bytes_concat(a, b.drop_last());
        assert((a + b).drop_last() =~= a + b.drop_last());
        assert((a + b).last() == b.last());
    }
}

/// Appending with `extend_unique` keeps exactly the members of both lists and
/// never repeats one that was not repeated before.
pub proof fn lemma_extend_unique_members(s: Seq<Seq<char>>, xs: Seq<Seq<char>>)
    ensures
        forall|x: Seq<char>| #[trigger] extend_unique(s, xs).contains(x) <==> (s.contains(x) || xs.contains(x)),
        s.no_duplicates() ==> extend_unique(s, xs).no_duplicates(),
    decreases xs.len(),
{
    if xs.len() > 0 {
        let prev = extend_unique(s, xs.drop_last());
        lemma_extend_unique_members(s, xs.drop_last());
        assert forall|x: Seq<char>| #[trigger] extend_unique(s, xs).contains(x) <==> (s.contains(x) || xs.contains(x)) by {
            if xs.contains(x) && !xs.drop_last().contains(x) {
                assert(x == xs.last()) by {
                    let k = choose|k: int| 0 <= k < xs.len() && xs[k] == x;
                    if k < xs.len() - 1 {
                        assert(xs.drop_last()[k] == x);
                    }
                }
            }
            if xs.drop_last().contains(x) {
                let k = choose|k: int| 0 <= k < xs.len() - 1 && xs.drop_last()[k] == x;
                assert(xs[k] == x);
            }
            if x == xs.last() {
                assert(xs[xs.len() - 1] == x);
            }
            if !prev.contains(xs.last()) {
                if prev.push(xs.last()).contains(x) && x != xs.last() {
                    let k = choose|k: int| 0 <= k < prev.len() + 1 && prev.push(xs.last())[k] == x;
                    assert(prev[k] == x);
                }
                if prev.contains(x) {
                    let k = choose|k: int| 0 <= k < prev.len() && prev[k] == x;
                    assert(prev.push(xs.last())[k] == x);
                }
                assert(prev.push(xs.last())[prev.len() as int] == xs.last());
            }
        }
        if s.no_duplicates() && !prev.contains(xs.last()) {
            let r = prev.push(xs.last());
            assert forall|i: int, j: int| 0 <= i < r.len() && 0 <= j < r.len() && i != j implies r[i] != r[j] by {
                if i < prev.len() && j < prev.len() {
                } else if i == prev.len() {
                    assert(prev[j] == r[j]);
                } else {
                    assert(prev[i] == r[i]);
                }
            }
        }
    }
}

/// The members of `present_in(s, dirs)` are exactly those of `s` that are
/// among `dirs`, and it repeats nothing that `s` does not repeat.
pub proof fn lemma_present_in_members(s: Seq<Seq<char>>, dirs: Seq<Seq<char>>)
    ensures
        forall|x: Seq<char>| #[trigger] present_in(s, dirs).contains(x) <==> (s.contains(x) && dirs.contains(x)),
        s.no_duplicates() ==> present_in(s, dirs).no_duplicates(),
    decreases s.len(),
{
    if s.len() > 0 {
        let init = s.drop_last();
        let prev = present_in(init, dirs);
        lemma_present_in_members(init, dirs);
        let tail = if dirs.contains(s.last()) { seq![s.last()] } else { Seq::<Seq<char>>::empty() };
        assert(present_in(s, dirs) == prev + tail);
        assert forall|x: Seq<char>| #[trigger] present_in(s, dirs).contains(x) <==> (s.contains(x) && dirs.contains(x)) by {
            if s.contains(x) {
                let k = choose|k: int| 0 <= k < s.len() && s[k] == x;
                if k < s.len() - 1 {
                    assert(init[k] == x);
                }
            }
            if init.contains(x) {
                let k = choose|k: int| 0 <= k < init.len() && init[k] == x;
                assert(s[k] == x);
            }
            if (prev + tail).contains(x) {
                let k = choose|k: int| 0 <= k < (prev + tail).len() && (prev + tail)[k] == x;
                if k < prev.len() {
                    assert(prev[k] == x);
                } else {
                    assert(x == s.last());
                    assert(s[s.len() - 1] == x);
                }
            }
            if prev.contains(x) {
                let k = choose|k: int| 0 <= k < prev.len() && prev[k] == x;
                assert((prev + tail)[k] == x);
            }
            if x == s.last() && dirs.contains(x) {
                assert((prev + tail)[prev.len() as int] == x);
            }
        }
        if s.no_duplicates() {
            assert(init.no_duplicates()) by {
                assert forall|i: int, j: int| 0 <= i < init.len() && 0 <= j < init.len() && i != j implies init[i] != init[j] by {
                    assert(init[i] == s[i] && init[j] == s[j]);
                }
            }
            if dirs.contains(s.last()) {
                assert(!init.contains(s.last())) by {
                    if init.contains(s.last()) {
                        let k = choose|k: int| 0 <= k < init.len() && init[k] == s.last();
                        assert(s[k] == s[s.len() - 1]);
                    }
                }
                assert(!prev.contains(s.last()));
                let r = prev + tail;
                assert forall|i: int, j: int| 0 <= i < r.len() && 0 <= j < r.len() && i != j implies r[i] != r[j] by {
                    if i < prev.len() && j < prev.len() {
                        assert(r[i] == prev[i] && r[j] == prev[j]);
                    } else if i == prev.len() {
                        assert(r[j] == prev[j]);
                    } else {
                        assert(r[i] == prev[i]);
                    }
                }
            } else {
                assert(prev + tail =~= prev);
            }
        }
    }
}

/// The positions that the scan continues into are ascending, lie below `n`,
/// and are exactly those whose name is neither excluded nor a candidate
/// target.
pub proof fn lemma_descend_upto_members(dirs: Seq<Seq<char>>, candidates: Seq<Seq<char>>, n: nat)
    requires
        n <= dirs.len(),
    ensures
        forall|k: int| 0 <= k < descend_upto(dirs, candidates, n).len() ==> {
            let i = #[trigger] descend_upto(dirs, candidates, n)[k];
            0 <= i < n && descends_into(dirs[i], candidates)
        },
        forall|k1: int, k2: int|
            0 <= k1 < k2 < descend_upto(dirs, candidates, n).len() ==> #[trigger] descend_upto(dirs, candidates, n)[k1]
                < #[trigger] descend_upto(dirs, candidates, n)[k2],
        forall|i: int| 0 <= i < n && descends_into(dirs[i], candidates) ==> #[trigger] descend_upto(dirs, candidates, n).contains(i),
    decreases n,
{
    if n > 0 {
        let m = (n - 1) as nat;
        lemma_descend_upto_members(dirs, candidates, m);
        let prev = descend_upto(dirs, candidates, m);
        let tail = if descends_into(dirs[m as int], candidates) { seq![m as int] } else { Seq::<int>::empty() };
        let r = descend_upto(dirs, candidates, n);
        assert(r == prev + tail);
        assert forall|k: int| 0 <= k < r.len() implies {
            let i = #[trigger] r[k];
            0 <= i < n && descends_into(dirs[i], candidates)
        } by {
            if k < prev.len() {
                assert(r[k] == prev[k]);
            }
        }
        assert forall|k1: int, k2: int| 0 <= k1 < k2 < r.len() implies #[trigger] r[k1] < #[trigger] r[k2] by {
            if k2 < prev.len() {
                assert(r[k1] == prev[k1] && r[k2] == prev[k2]);
            } else {
                assert(r[k1] == prev[k1]);
            }
        }
        assert forall|i: int| 0 <= i < n && descends_into(dirs[i], candidates) implies #[trigger] r.contains(i) by {
            if i < m {
                assert(prev.contains(i));
                let k = choose|k: int| 0 <= k < prev.len() && prev[k] == i;
                assert(r[k] == i);
            } else {
                assert(r[prev.len() as int] == i);
            }
        }
    }
}

/// Every directory of `dirs_for_keys(map, keys)` is one that some entry of
/// `map` produces.
pub proof fn lemma_dirs_for_keys_from_map(
    map: Seq<(Seq<char>, Seq<Seq<char>>)>,
    keys: Seq<Seq<char>>,
    x: Seq<char>,
)
    requires
        dirs_for_keys(map, keys).contains(x),
    ensures
        exists|i: int| 0 <= i < map.len() && #[trigger] map[i].1.contains(x),
    decreases map.len(),
{
    if map.len() > 0 {
        let prev = dirs_for_keys(map.drop_last(), keys);
        let tail = if keys.contains(map.last().0) { map.last().1 } else { Seq::empty() };
        let k = choose|k: int| 0 <= k < (prev + tail).len() && (prev + tail)[k] == x;
        if k < prev.len() {
            assert(prev[k] == x);
            lemma_dirs_for_keys_from_map(map.drop_last(), keys, x);
            let i = choose|i: int| 0 <= i < map.len() - 1 && #[trigger] map.drop_last()[i].1.contains(x);
            assert(map[i] == map.drop_last()[i]);
        } else {
            assert(tail[k - prev.len()] == x);
            assert(map[map.len() - 1].1.contains(x));
        }
    }
}

/// No framework cache directory is named `.git`.
pub proof fn lemma_framework_dirs_not_git(keys: Option<Seq<Seq<char>>>)
    ensures
        !section_dirs(keys).contains(".git"@),
{
    reveal_strlit(".git");
    reveal_strlit(".next");
    reveal_strlit(".nuxt");
    reveal_strlit(".output");
    reveal_strlit(".svelte-kit");
    if let Some(k) = keys {
        if dirs_for_keys(framework_map(), k).contains(".git"@) {
            lemma_dirs_for_keys_from_map(framework_map(), k, ".git"@);
            let i = choose|i: int| 0 <= i < framework_map().len() && #[trigger] framework_map()[i].1.contains(".git"@);
            let d = framework_map()[i].1;
            let j = choose|j: int| 0 <= j < d.len() && d[j] == ".git"@;
            assert(d[j].len() != 4);
        }
    }
}

/// The framework cache directories of a `package.json` are listed once each.
pub proof fn lemma_framework_targets_distinct(text: Seq<char>)
    ensures
        framework_targets_of(text).no_duplicates(),
{
    let first = section_dirs(json_section_keys(text, "dependencies"@));
    let second = section_dirs(json_section_keys(text, "devDependencies"@));
    lemma_extend_unique_members(Seq::empty(), first);
    lemma_extend_unique_members(extend_unique(Seq::empty(), first), second);
}

/// No kind's rule asks for `.git` as a target.
pub proof fn lemma_rule_targets_not_git(rule: TargetRule, root: DirSnapshot)
    ensures
        !rule_targets(rule, root).contains(".git"@),
{
    reveal_strlit(".git");
    reveal_strlit("target");
    reveal_strlit("node_modules");
    match rule {
        TargetRule::Cargo => {
            assert(!seq!["target"@].contains(".git"@)) by {
                if seq!["target"@].contains(".git"@) {
                    let k = choose|k: int| 0 <= k < 1 && seq!["target"@][k] == ".git"@;
                    assert(seq!["target"@][k] == "target"@);
                    assert("target"@.len() != ".git"@.len());
                }
            }
            assert(rule_targets(rule, root) == seq!["target"@]);
        },
        TargetRule::Npm => {
            let fw = match crate::utils::package_text(root) {
                Some(t) => framework_targets_of(t),
                None => Seq::empty(),
            };
            assert(!fw.contains(".git"@)) by {
                if let Some(t) = crate::utils::package_text(root) {
                    let first = section_dirs(json_section_keys(t, "dependencies"@));
                    let second = section_dirs(json_section_keys(t, "devDependencies"@));
                    lemma_framework_dirs_not_git(json_section_keys(t, "dependencies"@));
                    lemma_framework_dirs_not_git(json_section_keys(t, "devDependencies"@));
                    lemma_extend_unique_members(Seq::empty(), first);
                    lemma_extend_unique_members(extend_unique(Seq::empty(), first), second);
                }
            }
            let all = seq!["node_modules"@] + fw;
            if all.contains(".git"@) {
                let k = choose|k: int| 0 <= k < all.len() && all[k] == ".git"@;
                if k > 0 {
                    assert(fw[k - 1] == ".git"@);
                } else {
                    assert(all[0] == "node_modules"@);
                    assert("node_modules"@.len() != ".git"@.len());
                }
            }
            assert(rule_targets(rule, root) =~= all);
        },
    }
}

/// The targets of the kinds in `ks` that match never include `.git`, and
/// are listed once each.
pub proof fn lemma_matched_targets_facts(
    ks: Seq<(Seq<char>, Seq<char>, TargetRule)>,
    root: DirSnapshot,
)
    ensures
        !matched_targets(ks, root).contains(".git"@),
        matched_targets(ks, root).no_duplicates(),
    decreases ks.len(),
{
    if ks.len() > 0 {
        lemma_matched_targets_facts(ks.drop_last(), root);
        let prev = matched_targets(ks.drop_last(), root);
        if root.file_names.deep_view().contains(ks.last().1) {
            lemma_extend_unique_members(prev, rule_targets(ks.last().2, root));
            lemma_rule_targets_not_git(ks.last().2, root);
        }
    }
}

/// Every name that `matched_names(ks, files)` lists is the name of a kind of `ks`.
pub proof fn lemma_matched_names_from_kinds(
    ks: Seq<(Seq<char>, Seq<char>, TargetRule)>,
    files: Seq<Seq<char>>,
    x: Seq<char>,
)
    requires
        matched_names(ks, files).contains(x),
    ensures
        exists|i: int| 0 <= i < ks.len() && #[trigger] ks[i].0 == x,
    decreases ks.len(),
{
    let prev = matched_names(ks.drop_last(), files);
    let tail = if files.contains(ks.last().1) { seq![ks.last().0] } else { Seq::empty() };
    let k = choose|k: int| 0 <= k < (prev + tail).len() && (prev + tail)[k] == x;
    if k < prev.len() {
        assert(prev[k] == x);
        lemma_matched_names_from_kinds(ks.drop_last(), files, x);
        let i = choose|i: int| 0 <= i < ks.len() - 1 && #[trigger] ks.drop_last()[i].0 == x;
        assert(ks[i] == ks.drop_last()[i]);
    } else {
        assert(ks[ks.len() - 1].0 == x);
    }
}

/// Without `include_git`, a directory is never detected as "git" and `.git`
/// is never one of its targets, so it can never be reported for deletion.
pub proof fn lemma_git_only_when_requested(root: DirSnapshot)
    ensures
        !plan_kinds(root, false).contains("git"@),
        !plan_candidates(root, false).contains(".git"@),
{
    reveal_strlit("git");
    reveal_strlit("cargo");
    reveal_strlit("npm");
    reveal_strlit("Cargo.toml");
    reveal_strlit("package.json");
    lemma_matched_targets_facts(kinds_spec(), root);
    let files = root.file_names.deep_view();
    let ks = kinds_spec();
    assert(ks.drop_last().drop_last() =~= Seq::empty());
    let names = matched_names(ks, files);
    assert(plan_kinds(root, false) =~= names);
    if names.contains("git"@) {
        lemma_matched_names_from_kinds(ks, files, "git"@);
        let i = choose|i: int| 0 <= i < ks.len() && #[trigger] ks[i].0 == "git"@;
        assert(i == 0 || i == 1);
        assert("git"@[0] != "cargo"@[0]);
        assert("git"@[0] != "npm"@[0]);
    }
}

/// The candidate targets of a directory are listed once each, so no target is
/// measured twice.
pub proof fn lemma_candidates_distinct(root: DirSnapshot, include_git: bool)
    ensures
        plan_candidates(root, include_git).no_duplicates(),
{
    lemma_matched_targets_facts(kinds_spec(), root);
    let m = matched_targets(kinds_spec(), root);
    lemma_extend_unique_members(m, seq![".git"@]);
    assert(seq![".git"@].drop_last() =~= Seq::<Seq<char>>::empty());
    assert(seq![".git"@].last() == ".git"@);
    assert(extend_unique(m, Seq::<Seq<char>>::empty()) == m);
    assert(extend_unique(m, seq![".git"@]) == push_unique(m, ".git"@));
}

/// The targets found in a directory are exactly its candidate targets that
/// exist as subdirectories, each once.
pub proof fn lemma_found_targets_exist(root: DirSnapshot, include_git: bool)
    ensures
        forall|x: Seq<char>|
            #[trigger] present_in(plan_candidates(root, include_git), root.dir_names.deep_view()).contains(x)
                <==> (plan_candidates(root, include_git).contains(x) && root.dir_names.deep_view().contains(x)),
        present_in(plan_candidates(root, include_git), root.dir_names.deep_view()).no_duplicates(),
{
    lemma_candidates_distinct(root, include_git);
    lemma_present_in_members(plan_candidates(root, include_git), root.dir_names.deep_view());
}

/// The scan never continues into a directory that it measures as a target of
/// the project, nor into `.git`, `node_modules`, `.vscode` or `src`; it
/// continues into every other subdirectory.
pub proof fn lemma_plan_never_descends_into_targets(root: DirSnapshot, include_git: bool)
    ensures
        ({
            let dirs = root.dir_names.deep_view();
            let candidates = plan_candidates(root, include_git);
            let descend = descend_upto(dirs, candidates, dirs.len());
            &&& forall|k: int| 0 <= k < descend.len() ==> {
                let i = #[trigger] descend[k];
                &&& 0 <= i < dirs.len()
                &&& !present_in(candidates, dirs).contains(dirs[i])
                &&& !excluded_dirs().contains(dirs[i])
            }
            &&& forall|i: int| 0 <= i < dirs.len() && descends_into(dirs[i], candidates) ==> #[trigger] descend.contains(i)
        }),
{
    let dirs = root.dir_names.deep_view();
    let candidates = plan_candidates(root, include_git);
    lemma_descend_upto_members(dirs, candidates, dirs.len());
    lemma_present_in_members(candidates, dirs);
}

/// A regular file holds its own length, a symbolic link or an unreadable
/// entry holds nothing, and an empty directory holds nothing.
pub proof fn lemma_leaf_sizes(len: u64, modified: u128, empty: Vec<FsNode>)
    requires
        empty@.len() == 0,
    ensures
        total_bytes(FsNode::File { len, modified }) == len,
        newest_mtime(FsNode::File { len, modified }) == modified,
        total_bytes(FsNode::Symlink) == 0,
        total_bytes(FsNode::Unreadable) == 0,
        total_bytes(FsNode::Dir { children: empty }) == 0,
        newest_mtime(FsNode::Dir { children: empty }) == 0,
{
}

/// Adding an entry to a directory adds that entry's bytes, at whatever depth
/// they lie inside it, and keeps the newer of the two modification times.
/// Measured sizes follow: the measured size of the larger directory is the
/// saturating sum of the two measured sizes.
pub proof fn lemma_dir_size_adds_entry(smaller: Vec<FsNode>, larger: Vec<FsNode>, entry: FsNode)
    requires
        larger@ == smaller@.push(entry),
    ensures
        total_bytes(FsNode::Dir { children: larger }) == total_bytes(FsNode::Dir { children: smaller })
            + total_bytes(entry),
        newest_mtime(FsNode::Dir { children: larger }) == if newest_mtime(FsNode::Dir { children: smaller })
            < newest_mtime(entry) {
            newest_mtime(entry)
        } else {
            newest_mtime(FsNode::Dir { children: smaller })
        },
        clamp_u64(total_bytes(FsNode::Dir { children: larger })) as int == if clamp_u64(
            total_bytes(FsNode::Dir { children: smaller }),
        ) + clamp_u64(total_bytes(entry)) < u64::MAX {
            clamp_u64(total_bytes(FsNode::Dir { children: smaller })) + clamp_u64(total_bytes(entry))
        } else {
            u64::MAX as int
        },
{
    assert(larger@.drop_last() =~= smaller@);
    assert(larger@.last() == entry);
}

/// Wrapping a tree in a directory of its own changes neither its size nor
/// its newest modification time: files count at every depth.
pub proof fn lemma_dir_of_one_entry(wrapper: Vec<FsNode>, entry: FsNode)
    requires
        wrapper@ == seq![entry],
    ensures
        total_bytes(FsNode::Dir { children: wrapper }) == total_bytes(entry),
        newest_mtime(FsNode::Dir { children: wrapper }) == newest_mtime(entry),
{
    assert(wrapper@.drop_last() =~= Seq::<FsNode>::empty());
    assert(wrapper@.last() == entry);
    assert(sum_bytes(wrapper@.drop_last()) == 0);
    assert(newest_in(wrapper@.drop_last()) == 0);
    assert(sum_bytes(wrapper@) == total_bytes(entry));
}

/// The directory names that are never scanned are exactly `.git`,
/// `node_modules`, `.vscode` and `src`.
pub proof fn lemma_excluded_names(name: Seq<char>)
    ensures
        excluded_dirs().contains(name) <==> (name == ".git"@ || name == "node_modules"@ || name
            == ".vscode"@ || name == "src"@),
{
    if name == ".git"@ {
        assert(excluded_dirs()[0] == name);
    }
    if name == "node_modules"@ {
        assert(excluded_dirs()[1] == name);
    }
    if name == ".vscode"@ {
        assert(excluded_dirs()[2] == name);
    }
    if name == "src"@ {
        assert(excluded_dirs()[3] == name);
    }
}

/// The scan continues into a subdirectory exactly when its name is none of
/// `.git`, `node_modules`, `.vscode`, `src` and is not a candidate target.
pub proof fn lemma_descends_exactly(root: DirSnapshot, include_git: bool)
    ensures
        ({
            let dirs = root.dir_names.deep_view();
            let candidates = plan_candidates(root, include_git);
            forall|i: int| 0 <= i < dirs.len() ==> (#[trigger] descend_upto(dirs, candidates, dirs.len()).contains(i)
                <==> (!(dirs[i] == ".git"@ || dirs[i] == "node_modules"@ || dirs[i] == ".vscode"@
                    || dirs[i] == "src"@) && !candidates.contains(dirs[i])))
        }),
{
    let dirs = root.dir_names.deep_view();
    let candidates = plan_candidates(root, include_git);
    let d = descend_upto(dirs, candidates, dirs.len());
    lemma_descend_upto_members(dirs, candidates, dirs.len());
    assert forall|i: int| 0 <= i < dirs.len() implies (#[trigger] d.contains(i) <==> (!(dirs[i] == ".git"@
        || dirs[i] == "node_modules"@ || dirs[i] == ".vscode"@ || dirs[i] == "src"@)
        && !candidates.contains(dirs[i]))) by {
        lemma_excluded_names(dirs[i]);
        if d.contains(i) {
            let k = choose|k: int| 0 <= k < d.len() && d[k] == i;
            assert(descends_into(dirs[d[k]], candidates));
        }
    }
}

/// The total length of some texts.
pub open spec fn total_len(parts: Seq<Seq<char>>) -> nat
    decreases parts.len(),
{
    if parts.len() == 0 {
        0
    } else {
        total_len(parts.drop_last()) + parts.last().len()
    }
}

/// Joining two non-empty lists of texts is joining each and putting one
/// separator between them.
pub proof fn lemma_joined_concat(a: Seq<Seq<char>>, b: Seq<Seq<char>>, sep: Seq<char>)
    requires
        a.len() > 0,
        b.len() > 0,
    ensures
        joined(a + b, sep) == joined(a, sep) + sep + joined(b, sep),
    decreases b.len(),
{
    if b.len() == 1 {
        assert((a + b).drop_last() =~= a);
        assert((a + b).last() == b[0]);
    } else {
        lemma_joined_concat(a, b.drop_last(), sep);
        assert((a + b).drop_last() =~= a + b.drop_last());
        assert((a + b).last() == b.last());
        assert(joined(a, sep) + sep + joined(b.drop_last(), sep) + sep + b.last() =~= joined(a, sep) + sep
            + (joined(b.drop_last(), sep) + sep + b.last()));
    }
}

/// A joined text puts exactly one separator between each pair of
/// neighbours: its length is the parts' lengths plus one separator per gap.
pub proof fn lemma_joined_len(parts: Seq<Seq<char>>, sep: Seq<char>)
    requires
        parts.len() > 0,
    ensures
        joined(parts, sep).len() == total_len(parts) + (parts.len() - 1) * sep.len(),
    decreases parts.len(),
{
    if parts.len() == 1 {
        assert(parts.drop_last() =~= Seq::<Seq<char>>::empty());
    } else {
        lemma_joined_len(parts.drop_last(), sep);
        assert((parts.len() - 1) * sep.len() == (parts.len() - 2) * sep.len() + sep.len()) by (nonlinear_arith);
    }
}

/// The candidate targets of an npm project are `node_modules` followed by
/// every framework cache directory that `npm_framework_targets` gives for its
/// `package.json`, in the same order.
pub proof fn lemma_npm_targets_are_node_modules_then_frameworks(root: DirSnapshot)
    ensures
        ({
            let fw = framework_targets_spec(package_text(root));
            let t = npm_targets_spec(root);
            &&& t.len() == fw.len() + 1
            &&& t[0] == "node_modules"@
            &&& forall|i: int| 0 <= i < fw.len() ==> #[trigger] t[i + 1] == fw[i]
        }),
{
}

/// Every cache directory of a framework that a dependency section names is a
/// framework target of the `package.json`.
pub proof fn lemma_framework_targets_complete(text: Seq<char>, section: Seq<char>, i: int, dir: Seq<char>)
    requires
        section == "dependencies"@ || section == "devDependencies"@,
        0 <= i < framework_map().len(),
        json_section_keys(text, section) is Some,
        json_section_keys(text, section).unwrap().contains(framework_map()[i].0),
        framework_map()[i].1.contains(dir),
    ensures
        framework_targets_of(text).contains(dir),
{
    let keys = json_section_keys(text, section).unwrap();
    lemma_dirs_for_keys_complete(framework_map(), keys, i, dir);
    let first = section_dirs(json_section_keys(text, "dependencies"@));
    let second = section_dirs(json_section_keys(text, "devDependencies"@));
    lemma_extend_unique_members(Seq::empty(), first);
    lemma_extend_unique_members(extend_unique(Seq::empty(), first), second);
}

/// Every directory of an entry of `map` whose dependency is among `keys` is
/// in `dirs_for_keys(map, keys)`.
pub proof fn lemma_dirs_for_keys_complete(
    map: Seq<(Seq<char>, Seq<Seq<char>>)>,
    keys: Seq<Seq<char>>,
    i: int,
    dir: Seq<char>,
)
    requires
        0 <= i < map.len(),
        keys.contains(map[i].0),
        map[i].1.contains(dir),
    ensures
        dirs_for_keys(map, keys).contains(dir),
    decreases map.len(),
{
    let prev = dirs_for_keys(map.drop_last(), keys);
    let tail = if keys.contains(map.last().0) { map.last().1 } else { Seq::empty() };
    assert(dirs_for_keys(map, keys) == prev + tail);
    if i < map.len() - 1 {
        assert(map.drop_last()[i] == map[i]);
        lemma_dirs_for_keys_complete(map.drop_last(), keys, i, dir);
        let k = choose|k: int| 0 <= k < prev.len() && prev[k] == dir;
        assert((prev + tail)[k] == dir);
    } else {
        let k = choose|k: int| 0 <= k < map[i].1.len() && map[i].1[k] == dir;
        assert((prev + tail)[prev.len() + k] == dir);
    }
}

/// The number of worker threads is at least one, never more than the CPUs
/// available (or one), never more than requested (or one), and is one of
/// those two bounds.
pub proof fn lemma_thread_bounds(requested: nat, cpus: nat)
    ensures
        1 <= clamp_threads(requested, cpus),
        clamp_threads(requested, cpus) <= if cpus < 1 { 1 } else { cpus },
        clamp_threads(requested, cpus) <= if requested < 1 { 1 } else { requested },
        clamp_threads(requested, cpus) == (if requested < 1 { 1 } else { requested })
            || clamp_threads(requested, cpus) == (if cpus < 1 { 1 } else { cpus }),
{
}

/// The frameworks that a dependency section can name and their caches:
/// `next` gives `.next`; `nuxt` and `nuxt3` give `.nuxt` and `.output`;
/// `@sveltejs/kit` gives `.svelte-kit`. Nothing else is ever a framework target.
pub proof fn lemma_known_frameworks(text: Seq<char>, section: Seq<char>, dir: Seq<char>)
    requires
        section == "dependencies"@ || section == "devDependencies"@,
    ensures
        ({
            let t = framework_targets_of(text);
            let named = |dep: Seq<char>|
                json_section_keys(text, section) is Some && json_section_keys(
                    text,
                    section,
                ).unwrap().contains(dep);
            &&& named("next"@) ==> t.contains(".next"@)
            &&& (named("nuxt"@) || named("nuxt3"@)) ==> t.contains(".nuxt"@) && t.contains(".output"@)
            &&& named("@sveltejs/kit"@) ==> t.contains(".svelte-kit"@)
            &&& t.contains(dir) ==> (dir == ".next"@ || dir == ".nuxt"@ || dir == ".output"@ || dir
                == ".svelte-kit"@)
        }),
{
    let map = framework_map();
    assert(map[0].1[0] == ".next"@);
    assert(map[1].1[0] == ".nuxt"@ && map[1].1[1] == ".output"@);
    assert(map[2].1[0] == ".nuxt"@ && map[2].1[1] == ".output"@);
    assert(map[3].1[0] == ".svelte-kit"@);
    if let Some(keys) = json_section_keys(text, section) {
        if keys.contains("next"@) {
            lemma_framework_targets_complete(text, section, 0, ".next"@);
        }
        if keys.contains("nuxt"@) {
            lemma_framework_targets_complete(text, section, 1, ".nuxt"@);
            lemma_framework_targets_complete(text, section, 1, ".output"@);
        }
        if keys.contains("nuxt3"@) {
            lemma_framework_targets_complete(text, section, 2, ".nuxt"@);
            lemma_framework_targets_complete(text, section, 2, ".output"@);
        }
        if keys.contains("@sveltejs/kit"@) {
            lemma_framework_targets_complete(text, section, 3, ".svelte-kit"@);
        }
    }
    let first = section_dirs(json_section_keys(text, "dependencies"@));
    let second = section_dirs(json_section_keys(text, "devDependencies"@));
    lemma_extend_unique_members(Seq::empty(), first);
    lemma_extend_unique_members(extend_unique(Seq::empty(), first), second);
    if framework_targets_of(text).contains(dir) {
        let keys_opt = if first.contains(dir) {
            json_section_keys(text, "dependencies"@)
        } else {
            json_section_keys(text, "devDependencies"@)
        };
        let keys = keys_opt.unwrap();
        lemma_dirs_for_keys_from_map(map, keys, dir);
        let i = choose|i: int| 0 <= i < map.len() && #[trigger] map[i].1.contains(dir);
        let j = choose|j: int| 0 <= j < map[i].1.len() && map[i].1[j] == dir;
        assert(i == 0 || i == 1 || i == 2 || i == 3);
    }
}

} // verus!
