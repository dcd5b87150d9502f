//! The usage-detection engine: prefix extraction, matcher compilation and
//! the single-pass scan that decides, for every catalog key, whether it is
//! used exactly, used through its prefix, or unused.

use vstd::prelude::*;
use crate::matchers::{
    regex_compiles, regex_matches, exact_pattern, dynamic_pattern, ExactMatcher, DynamicMatcher,
};

verus! {

/// The position of the last `.` in `k`, if any.
pub open spec fn spec_last_dot(k: Seq<char>) -> Option<int>
    decreases k.len(),
{
    if k.len() == 0 {
        None
    } else if k.last() == '.' {
        Some(k.len() - 1)
    } else {
        spec_last_dot(k.drop_last())
    }
}

/// The text before the last `.` in `k`: the key's prefix. A key without a
/// `.` has no prefix.
pub open spec fn spec_key_prefix(k: Seq<char>) -> Option<Seq<char>> {
    match spec_last_dot(k) {
        Some(i) => Some(k.subrange(0, i)),
        None => None,
    }
}

/// The views of a list of strings.
pub open spec fn views(v: Seq<String>) -> Seq<Seq<char>> {
    v.map_values(|s: String| s@)
}

/// The prefix of `k`: the text before its last `.`, or `None` when `k`
/// holds no `.`.
pub fn key_prefix(k: &str) -> (r: Option<String>)
    ensures
        match r {
            Some(p) => spec_key_prefix(k@) == Some(p@),
            None => spec_key_prefix(k@) is None,
        },
{
    let n = k.unicode_len();
    let mut i: usize = n;
    proof {
        assert(k@.subrange(0, n as int) =~= k@);
    }
    while i > 0
        invariant
            i <= n,
            n == k@.len(),
            spec_last_dot(k@) == spec_last_dot(k@.subrange(0, i as int)),
        decreases i,
    {
        let c = k.get_char(i - 1);
        proof {
            assert(k@.subrange(0, i as int).last() == k@[i - 1]);
        }
        if c == '.' {
            let p = k.substring_char(0, i - 1);
            return Some(p.to_owned());
        }
        proof {
            assert(k@.subrange(0, i as int).drop_last() =~= k@.subrange(0, i - 1));
        }
        i = i - 1;
    }
    proof {
        assert(k@.subrange(0, 0) =~= Seq::<char>::empty());
    }
    None
}

pub(crate) fn find_string(v: &Vec<String>, s: &String) -> (r: Option<usize>)
    ensures
        match r {
            Some(j) => j < v@.len() && v@[j as int]@ == s@,
            None => forall|j: int| 0 <= j < v@.len() ==> v@[j]@ != s@,
        },
{
    let mut j: usize = 0;
    while j < v.len()
        invariant
            j <= v@.len(),
            forall|a: int| 0 <= a < j ==> v@[a]@ != s@,
        decreases v@.len() - j,
    {
        if v[j] == *s {
            return Some(j);
        }
        j = j + 1;
    }
    None
}

/// The mapping from each prefix to its group, derived once per scan from
/// the catalog key list. Prefixes and keys are addressed by index: entry
/// `j` of `groups` lists the positions, in the key list the map was built
/// from, of the keys whose prefix is prefix `j`; `prefix_of` maps each key
/// position to the position of its prefix, if it has one.
pub struct PrefixMap {
    prefixes: Vec<String>,
    groups: Vec<Vec<usize>>,
    prefix_of: Vec<Option<usize>>,
}

impl PrefixMap {
    /// The prefix texts, in first-encounter order.
    pub closed spec fn pview(&self) -> Seq<Seq<char>> {
        views(self.prefixes@)
    }

    /// The number of distinct prefixes.
    pub closed spec fn num_prefixes(&self) -> int {
        self.prefixes@.len() as int
    }

    /// The group members of prefix `j`, as key positions.
    pub closed spec fn group(&self, j: int) -> Seq<usize> {
        self.groups@[j]@
    }

    /// The prefix position of key `i`, if key `i` has a prefix.
    pub closed spec fn prefix_idx(&self, i: int) -> Option<usize> {
        self.prefix_of@[i]
    }

    /// The part of well-formedness that does not depend on the key list:
    /// one group per prefix, no prefix listed twice, no group member listed
    /// twice, no empty group.
    pub closed spec fn basic_inv(&self) -> bool {
        &&& self.groups@.len() == self.prefixes@.len()
        &&& forall|a: int, b: int|
            0 <= a < b < self.pview().len() ==> self.pview()[a] != self.pview()[b]
        &&& forall|j: int| 0 <= j < self.groups@.len() ==> (#[trigger] self.group(j)).len() > 0
        &&& forall|j: int| 0 <= j < self.groups@.len() ==> (#[trigger] self.group(j)).no_duplicates()
    }

    /// Well-formedness with respect to the key list the map was built from:
    /// each key's entry names its actual prefix, and groups hold exactly
    /// the keys sharing their prefix.
    pub closed spec fn wf(&self, keys: Seq<Seq<char>>) -> bool {
        &&& self.basic_inv()
        &&& self.prefix_of@.len() == keys.len()
        &&& forall|i: int|
            0 <= i < keys.len() ==> match #[trigger] self.prefix_of@[i] {
                Some(j) => j < self.prefixes@.len() && spec_key_prefix(keys[i]) == Some(
                    self.pview()[j as int],
                ),
                None => spec_key_prefix(keys[i]) is None,
            }
        &&& forall|j: int, e: int|
            0 <= j < self.groups@.len() && 0 <= e < self.group(j).len() ==> {
                &&& #[trigger] self.group(j)[e] < keys.len()
                &&& self.prefix_of@[self.group(j)[e] as int] == Some(j as usize)
            }
        &&& forall|i: int|
            0 <= i < keys.len() && self.prefix_of@[i] is Some ==> #[trigger] self.group(
                self.prefix_of@[i]->0 as int,
            ).contains(i as usize)
    }

    /// Whether `p` is one of the derived prefixes.
    pub fn contains_prefix(&self, p: &String) -> (r: bool)
        ensures
            r <==> exists|j: int| 0 <= j < self.pview().len() && self.pview()[j] == p@,
    {
        let r = find_string(&self.prefixes, p);
        match r {
            Some(j) => {
                proof {
                    assert(self.pview()[j as int] == p@);
                }
                true
            },
            None => {
                proof {
                    assert forall|j: int| 0 <= j < self.pview().len() implies self.pview()[j]
                        != p@ by {
                        assert(self.prefixes@[j]@ != p@);
                    }
                }
                false
            },
        }
    }

    /// How many keys share the prefix `p`: the size of its group, or zero
    /// when `p` is not a derived prefix.
    pub fn group_size(&self, p: &String) -> (r: usize)
        requires
            self.basic_inv(),
        ensures
            forall|j: int|
                0 <= j < self.pview().len() && self.pview()[j] == p@ ==> r == self.group(j).len(),
            (forall|j: int| 0 <= j < self.pview().len() ==> self.pview()[j] != p@) ==> r == 0,
    {
        let r = find_string(&self.prefixes, p);
        match r {
            Some(j) => {
                proof {
                    assert(self.pview()[j as int] == p@);
                    assert forall|a: int|
                        0 <= a < self.pview().len() && self.pview()[a] == p@ implies a
                        == j as int by {
                        if a < j as int {
                            assert(self.pview()[a] != self.pview()[j as int]);
                        } else if a > j as int {
                            assert(self.pview()[j as int] != self.pview()[a]);
                        }
                    }
                }
                self.groups[j].len()
            },
            None => {
                proof {
                    assert forall|j: int| 0 <= j < self.pview().len() implies self.pview()[j]
                        != p@ by {
                        assert(self.prefixes@[j]@ != p@);
                    }
                }
                0
            },
        }
    }
}

/// Derives the prefix map from the catalog key list: each key with a `.`
/// joins the group of the text before its last `.`; keys without a `.`
/// contribute nothing. Membership is determined by the keys alone.
pub fn extract_base_prefixes(keys: &Vec<String>) -> (pm: PrefixMap)
    ensures
        pm.wf(views(keys@)),
        pm.basic_inv(),
{
    let ghost kview = views(keys@);
    let mut prefixes: Vec<String> = Vec::new();
    let mut groups: Vec<Vec<usize>> = Vec::new();
    let mut prefix_of: Vec<Option<usize>> = Vec::new();
    let n = keys.len();
    let mut i: usize = 0;
    while i < n
        invariant
            n == keys@.len(),
            kview == views(keys@),
            i <= n,
            prefix_of@.len() == i,
            groups@.len() == prefixes@.len(),
            forall|a: int, b: int|
                0 <= a < b < prefixes@.len() ==> views(prefixes@)[a] != views(prefixes@)[b],
            forall|a: int|
                0 <= a < i ==> match #[trigger] prefix_of@[a] {
                    Some(j) => j < prefixes@.len() && spec_key_prefix(kview[a]) == Some(
                        views(prefixes@)[j as int],
                    ),
                    None => spec_key_prefix(kview[a]) is None,
                },
            forall|j: int, e: int|
                0 <= j < groups@.len() && 0 <= e < groups@[j]@.len() ==> {
                    &&& #[trigger] groups@[j]@[e] < i
                    &&& prefix_of@[groups@[j]@[e] as int] == Some(j as usize)
                },
            forall|a: int|
                0 <= a < i && prefix_of@[a] is Some ==> #[trigger] groups@[prefix_of@[a]->0 as int]@.contains(
                    a as usize,
                ),
            forall|j: int| 0 <= j < groups@.len() ==> (#[trigger] groups@[j]@).len() > 0,
            forall|j: int| 0 <= j < groups@.len() ==> (#[trigger] groups@[j]@).no_duplicates(),
        decreases n - i,
    {
        proof {
            assert(kview[i as int] == keys@[i as int]@);
        }
        match key_prefix(keys[i].as_str()) {
            Some(p) => {
                match find_string(&prefixes, &p) {
                    Some(j) => {
                        proof {
                            assert(views(prefixes@)[j as int] == p@);
                            if groups@[j as int]@.contains(i as usize) {
                                let e = choose|e: int|
                                    0 <= e < groups@[j as int]@.len() && groups@[j as int]@[e] == (
                                    i as usize);
                                assert(groups@[j as int]@[e] < i);
                            }
                        }
                        let ghost old_groups = groups@;
                        groups[j].push(i);
                        prefix_of.push(Some(j));
                        proof {
                            assert forall|a: int|
                                0 <= a < prefix_of@.len() && prefix_of@[a] is Some implies #[trigger] groups@[prefix_of@[a]->0 as int]@.contains(
                                a as usize,
                            ) by {
                                let jj = prefix_of@[a]->0 as int;
                                if a == i as int {
                                    assert(groups@[j as int]@[groups@[j as int]@.len() - 1] == (
                                    i as usize));
                                } else {
                                    assert(old_groups[jj]@.contains(a as usize));
                                    let e = choose|e: int|
                                        0 <= e < old_groups[jj]@.len() && old_groups[jj]@[e] == (
                                        a as usize);
                                    assert(groups@[jj]@[e] == a as usize);
                                }
                            }
                            assert forall|jj: int|
                                0 <= jj < groups@.len() implies (
                            #[trigger] groups@[jj]@).no_duplicates() by {
                                if jj == j as int {
                                    assert(old_groups[jj]@.no_duplicates());
                                    assert forall|a: int, b: int|
                                        0 <= a < b < groups@[jj]@.len() implies groups@[jj]@[a]
                                        != groups@[jj]@[b] by {
                                        if b < groups@[jj]@.len() - 1 {
                                            assert(old_groups[jj]@[a] != old_groups[jj]@[b]);
                                        } else {
                                            assert(groups@[jj]@[a] == old_groups[jj]@[a]);
                                            assert(old_groups[jj]@[a] < i);
                                            assert(groups@[jj]@[b] == i as usize);
                                        }
                                    }
                                }
                            }
                        }
                    },
                    None => {
                        let ghost old_prefixes = prefixes@;
                        let j = prefixes.len();
                        prefixes.push(p);
                        let mut g: Vec<usize> = Vec::new();
                        g.push(i);
                        groups.push(g);
                        prefix_of.push(Some(j));
                        proof {
                            assert forall|a: int, b: int|
                                0 <= a < b < prefixes@.len() implies views(prefixes@)[a] != views(
                                prefixes@,
                            )[b] by {
                                if b < j as int {
                                    assert(prefixes@[a] == old_prefixes[a]);
                                    assert(prefixes@[b] == old_prefixes[b]);
                                    assert(views(old_prefixes)[a] != views(old_prefixes)[b]);
                                } else {
                                    assert(prefixes@[b]@ == p@);
                                    assert(prefixes@[a] == old_prefixes[a]);
                                    assert(old_prefixes[a]@ != p@);
                                }
                            }
                            assert(groups@[j as int]@[0] == i as usize);
                        }
                    },
                }
            },
            None => {
                prefix_of.push(None);
            },
        }
        i = i + 1;
    }
    PrefixMap { prefixes, groups, prefix_of }
}

/// Some file of `files` matches the exact pattern of key `k`.
pub open spec fn exact_hit(k: Seq<char>, files: Seq<Seq<char>>) -> bool {
    exists|f: int|
        0 <= f < files.len() && #[trigger] regex_matches(exact_pattern(k), files[f])
}

/// Some file of `files` matches the dynamic pattern of prefix `p`.
pub open spec fn dyn_hit(p: Seq<char>, files: Seq<Seq<char>>) -> bool {
    exists|f: int|
        0 <= f < files.len() && #[trigger] regex_matches(dynamic_pattern(p), files[f])
}

/// Key `k` is used exactly: its matcher compiles and some file matches it.
pub open spec fn exact_used(k: Seq<char>, files: Seq<Seq<char>>) -> bool {
    regex_compiles(exact_pattern(k)) && exact_hit(k, files)
}

/// Key `k` is used dynamically: it has a prefix whose dynamic matcher
/// compiles, and some file matches that matcher.
pub open spec fn dynamic_used(k: Seq<char>, files: Seq<Seq<char>>) -> bool {
    match spec_key_prefix(k) {
        Some(p) => regex_compiles(dynamic_pattern(p)) && dyn_hit(p, files),
        None => false,
    }
}

/// The usage verdict for one key of the catalog: a key is in the usage
/// result exactly when some file uses it exactly, or some file uses its
/// prefix dynamically.
pub open spec fn key_used(keys: Seq<Seq<char>>, files: Seq<Seq<char>>, k: Seq<char>) -> bool {
    keys.contains(k) && (exact_used(k, files) || dynamic_used(k, files))
}

/// The usage result: the set of used keys determined by the catalog keys
/// and the file contents alone.
pub open spec fn spec_used_keys(keys: Seq<Seq<char>>, files: Seq<Seq<char>>) -> Set<Seq<char>> {
    Set::new(|k: Seq<char>| key_used(keys, files, k))
}

/// The usage result reports only catalog keys: whatever the files hold,
/// no key outside the catalog is ever reported used.
pub proof fn lemma_usage_within_catalog(keys: Seq<Seq<char>>, files: Seq<Seq<char>>)
    ensures
        forall|k: Seq<char>| spec_used_keys(keys, files).contains(k) ==> keys.contains(k),
{
}

/// Scanning the same catalog over the same contents twice yields the same
/// result: any two sets that satisfy the scan's contract for the same keys
/// and files are equal.
pub proof fn lemma_scan_deterministic(
    keys: Seq<Seq<char>>,
    files: Seq<Seq<char>>,
    r1: Set<Seq<char>>,
    r2: Set<Seq<char>>,
)
    requires
        forall|k: Seq<char>| r1.contains(k) <==> key_used(keys, files, k),
        forall|k: Seq<char>| r2.contains(k) <==> key_used(keys, files, k),
    ensures
        r1 == r2,
{
    assert(r1 =~= r2);
}

/// Adding files to the corpus can only grow the usage result, never
/// shrink it.
pub proof fn lemma_usage_monotonic(keys: Seq<Seq<char>>, files: Seq<Seq<char>>, more: Seq<Seq<char>>)
    ensures
        forall|k: Seq<char>|
            spec_used_keys(keys, files).contains(k) ==> spec_used_keys(keys, files + more).contains(
                k,
            ),
{
    assert forall|k: Seq<char>|
        spec_used_keys(keys, files).contains(k) implies spec_used_keys(keys, files + more).contains(
        k,
    ) by {
        if exact_used(k, files) {
            let f = choose|f: int|
                0 <= f < files.len() && #[trigger] regex_matches(exact_pattern(k), files[f]);
            assert((files + more)[f] == files[f]);
            assert(regex_matches(exact_pattern(k), (files + more)[f]));
        } else {
            let p = spec_key_prefix(k)->0;
            let f = choose|f: int|
                0 <= f < files.len() && #[trigger] regex_matches(dynamic_pattern(p), files[f]);
            assert((files + more)[f] == files[f]);
            assert(regex_matches(dynamic_pattern(p), (files + more)[f]));
        }
    }
}

/// A key whose exact matcher compiles and hits some file of the corpus is
/// in the usage result.
pub proof fn lemma_exact_hit_is_used(keys: Seq<Seq<char>>, files: Seq<Seq<char>>, k: Seq<char>, f: int)
    requires
        keys.contains(k),
        regex_compiles(exact_pattern(k)),
        0 <= f < files.len(),
        regex_matches(exact_pattern(k), files[f]),
    ensures
        spec_used_keys(keys, files).contains(k),
{
}

/// One dynamic hit for a prefix covers the prefix's whole group: every
/// catalog key under that prefix is in the usage result, whether or not it
/// appears literally anywhere.
pub proof fn lemma_dynamic_hit_covers_group(
    keys: Seq<Seq<char>>,
    files: Seq<Seq<char>>,
    k: Seq<char>,
    p: Seq<char>,
    f: int,
)
    requires
        keys.contains(k),
        spec_key_prefix(k) == Some(p),
        regex_compiles(dynamic_pattern(p)),
        0 <= f < files.len(),
        regex_matches(dynamic_pattern(p), files[f]),
    ensures
        spec_used_keys(keys, files).contains(k),
{
}

/// Some matcher of `r` detects exact use of key `k`.
pub open spec fn has_exact_matcher(r: Seq<ExactMatcher>, k: Seq<char>) -> bool {
    exists|a: int| 0 <= a < r.len() && (#[trigger] r[a]).key_view() == k
}

/// Some matcher of `r` detects dynamic use of prefix `p`.
pub open spec fn has_dynamic_matcher(r: Seq<DynamicMatcher>, p: Seq<char>) -> bool {
    exists|a: int| 0 <= a < r.len() && (#[trigger] r[a]).prefix_view() == p
}

/// Compiles one exact matcher per catalog key: the key, escaped, between
/// word boundaries. A key whose pattern the regex engine rejects is
/// skipped rather than aborting the compile; such a key is simply never
/// detected as exactly used. No key gets two matchers.
pub fn compile_regex_patterns(keys: &Vec<String>) -> (r: Vec<ExactMatcher>)
    requires
        forall|a: int, b: int|
            0 <= a < b < keys@.len() ==> views(keys@)[a] != views(keys@)[b],
    ensures
        r@.len() <= keys@.len(),
        forall|a: int, b: int| 0 <= a < b < r@.len() ==> r@[a].key_view() != r@[b].key_view(),
        forall|a: int|
            0 <= a < r@.len() ==> (#[trigger] r@[a]).wf() && views(keys@).contains(
                r@[a].key_view(),
            ),
        forall|i: int|
            0 <= i < keys@.len() && regex_compiles(exact_pattern(#[trigger] views(keys@)[i]))
                ==> has_exact_matcher(r@, views(keys@)[i]),
{
    let n = keys.len();
    let mut r: Vec<ExactMatcher> = Vec::new();
    let mut i: usize = 0;
    while i < n
        invariant
            n == keys@.len(),
            i <= n,
            r@.len() <= i,
            forall|a: int, b: int|
                0 <= a < b < keys@.len() ==> views(keys@)[a] != views(keys@)[b],
            forall|a: int, b: int| 0 <= a < b < r@.len() ==> r@[a].key_view() != r@[b].key_view(),
            forall|a: int|
                0 <= a < r@.len() ==> (#[trigger] r@[a]).wf() && views(keys@).subrange(
                    0,
                    i as int,
                ).contains(r@[a].key_view()),
            forall|ii: int|
                0 <= ii < i && regex_compiles(exact_pattern(#[trigger] views(keys@)[ii]))
                    ==> has_exact_matcher(r@, views(keys@)[ii]),
        decreases n - i,
    {
        proof {
            assert(views(keys@)[i as int] == keys@[i as int]@);
        }
        let ghost r_pre = r@;
        match ExactMatcher::compile(&keys[i]) {
            Some(m) => {
                r.push(m);
                proof {
                    assert(r@[r@.len() - 1].key_view() == views(keys@)[i as int]);
                    assert forall|a: int|
                        0 <= a < r@.len() implies (#[trigger] r@[a]).wf() && views(
                        keys@,
                    ).subrange(0, i + 1 as int).contains(r@[a].key_view()) by {
                        if a < r@.len() - 1 {
                            assert(r@[a] == r_pre[a]);
                            assert(r_pre[a].wf());
                            let w = choose|w: int|
                                0 <= w < i && views(keys@).subrange(0, i as int)[w] == r_pre[a].key_view();
                            assert(views(keys@).subrange(0, i + 1 as int)[w] == r@[a].key_view());
                        } else {
                            assert(views(keys@).subrange(0, i + 1 as int)[i as int] == r@[a].key_view());
                        }
                    }
                    assert forall|a: int, b: int|
                        0 <= a < b < r@.len() implies r@[a].key_view() != r@[b].key_view() by {
                        if b < r@.len() - 1 {
                            assert(r_pre[a].key_view() != r_pre[b].key_view());
                        } else {
                            let w = choose|w: int|
                                0 <= w < i && views(keys@).subrange(0, i as int)[w] == r_pre[a].key_view();
                            assert(views(keys@)[w] == r@[a].key_view());
                            assert(views(keys@)[w] != views(keys@)[i as int]);
                        }
                    }
                    assert forall|ii: int|
                        0 <= ii < i + 1 && regex_compiles(
                            exact_pattern(#[trigger] views(keys@)[ii]),
                        ) implies has_exact_matcher(r@, views(keys@)[ii]) by {
                        if ii < i as int {
                            let a = choose|a: int|
                                0 <= a < r_pre.len() && (#[trigger] r_pre[a]).key_view() == views(
                                keys@,
                                )[ii];
                            assert(r@[a].key_view() == views(keys@)[ii]);
                        } else {
                            assert(r@[r@.len() - 1].key_view() == views(keys@)[ii]);
                        }
                    }
                }
            },
            None => {},
        }
        i = i + 1;
    }
    proof {
        assert(views(keys@).subrange(0, n as int) =~= views(keys@));
    }
    r
}

/// Compiles one dynamic matcher per derived prefix: the prefix, escaped,
/// followed by `.${...}` with non-empty content. A prefix whose pattern
/// the regex engine rejects is skipped rather than aborting the compile.
/// No prefix gets two matchers.
pub fn compile_dynamic_patterns(pm: &PrefixMap) -> (r: Vec<DynamicMatcher>)
    requires
        pm.basic_inv(),
    ensures
        r@.len() <= pm.pview().len(),
        forall|a: int, b: int|
            0 <= a < b < r@.len() ==> r@[a].prefix_view() != r@[b].prefix_view(),
        forall|a: int|
            0 <= a < r@.len() ==> (#[trigger] r@[a]).wf() && pm.pview().contains(
                r@[a].prefix_view(),
            ),
        forall|j: int|
            0 <= j < pm.pview().len() && regex_compiles(dynamic_pattern(#[trigger] pm.pview()[j]))
                ==> has_dynamic_matcher(r@, pm.pview()[j]),
{
    let np = pm.prefixes.len();
    let mut r: Vec<DynamicMatcher> = Vec::new();
    let mut j: usize = 0;
    while j < np
        invariant
            np == pm.prefixes@.len(),
            j <= np,
            r@.len() <= j,
            forall|a: int, b: int|
                0 <= a < b < pm.pview().len() ==> pm.pview()[a] != pm.pview()[b],
            forall|a: int, b: int|
                0 <= a < b < r@.len() ==> r@[a].prefix_view() != r@[b].prefix_view(),
            forall|a: int|
                0 <= a < r@.len() ==> (#[trigger] r@[a]).wf() && pm.pview().subrange(
                    0,
                    j as int,
                ).contains(r@[a].prefix_view()),
            forall|jj: int|
                0 <= jj < j && regex_compiles(dynamic_pattern(#[trigger] pm.pview()[jj]))
                    ==> has_dynamic_matcher(r@, pm.pview()[jj]),
        decreases np - j,
    {
        proof {
            assert(pm.pview()[j as int] == pm.prefixes@[j as int]@);
        }
        let ghost r_pre = r@;
        match DynamicMatcher::compile(&pm.prefixes[j]) {
            Some(m) => {
                r.push(m);
                proof {
                    assert(r@[r@.len() - 1].prefix_view() == pm.pview()[j as int]);
                    assert forall|a: int|
                        0 <= a < r@.len() implies (#[trigger] r@[a]).wf() && pm.pview().subrange(
                        0,
                        j + 1 as int,
                    ).contains(r@[a].prefix_view()) by {
                        if a < r@.len() - 1 {
                            assert(r@[a] == r_pre[a]);
                            assert(r_pre[a].wf());
                            let w = choose|w: int|
                                0 <= w < j && pm.pview().subrange(0, j as int)[w] == r_pre[a].prefix_view();
                            assert(pm.pview().subrange(0, j + 1 as int)[w] == r@[a].prefix_view());
                        } else {
                            assert(pm.pview().subrange(0, j + 1 as int)[j as int] == r@[a].prefix_view());
                        }
                    }
                    assert forall|a: int, b: int|
                        0 <= a < b < r@.len() implies r@[a].prefix_view() != r@[b].prefix_view() by {
                        if b < r@.len() - 1 {
                            assert(r_pre[a].prefix_view() != r_pre[b].prefix_view());
                        } else {
                            let w = choose|w: int|
                                0 <= w < j && pm.pview().subrange(0, j as int)[w] == r_pre[a].prefix_view();
                            assert(pm.pview()[w] == r@[a].prefix_view());
                            assert(pm.pview()[w] != pm.pview()[j as int]);
                        }
                    }
                    assert forall|jj: int|
                        0 <= jj < j + 1 && regex_compiles(
                            dynamic_pattern(#[trigger] pm.pview()[jj]),
                        ) implies has_dynamic_matcher(r@, pm.pview()[jj]) by {
                        if jj < j as int {
                            let a = choose|a: int|
                                0 <= a < r_pre.len() && (#[trigger] r_pre[a]).prefix_view()
                                    == pm.pview()[jj];
                            assert(r@[a].prefix_view() == pm.pview()[jj]);
                        } else {
                            assert(r@[r@.len() - 1].prefix_view() == pm.pview()[jj]);
                        }
                    }
                }
            },
            None => {},
        }
        j = j + 1;
    }
    proof {
        assert(pm.pview().subrange(0, np as int) =~= pm.pview());
    }
    r
}

/// The scan engine's state: the catalog keys with their compiled matchers,
/// the prefix map, and the three monotonically growing result sets — keys
/// confirmed used, prefixes confirmed dynamically used, and prefixes whose
/// whole group is already covered ("complete", so later files skip them).
pub struct Scanner {
    keys: Vec<String>,
    exact: Vec<Option<ExactMatcher>>,
    pm: PrefixMap,
    dynamic: Vec<Option<DynamicMatcher>>,
    used: Vec<bool>,
    found_dyn: Vec<bool>,
    complete: Vec<bool>,
    exact_checks: u64,
    dynamic_checks: u64,
    scanned: Ghost<Seq<Seq<char>>>,
}

impl Scanner {
    /// The catalog keys the scanner was built from.
    pub closed spec fn kview(self) -> Seq<Seq<char>> {
        views(self.keys@)
    }

    /// The derived prefixes.
    pub closed spec fn pv(self) -> Seq<Seq<char>> {
        self.pm.pview()
    }

    /// The contents of the files scanned so far.
    pub closed spec fn scanned_files(self) -> Seq<Seq<char>> {
        self.scanned@
    }

    /// Key `i` has been confirmed used by an exact match.
    pub closed spec fn used_at(self, i: int) -> bool {
        self.used@[i]
    }

    /// Prefix `j` has been confirmed used dynamically.
    pub closed spec fn found_dyn_at(self, j: int) -> bool {
        self.found_dyn@[j]
    }

    /// Prefix `j` has been marked complete: every key of its group is used.
    pub closed spec fn complete_at(self, j: int) -> bool {
        self.complete@[j]
    }

    /// How many exact-matcher applications have run.
    pub closed spec fn spec_exact_checks(self) -> u64 {
        self.exact_checks
    }

    /// How many dynamic-matcher applications have run.
    pub closed spec fn spec_dynamic_checks(self) -> u64 {
        self.dynamic_checks
    }

    /// Key `i` has a prefix, and that prefix has been confirmed used
    /// dynamically (so key `i` needs no further exact-matcher work).
    pub closed spec fn prefix_found(self, i: int) -> bool {
        &&& self.pm.prefix_idx(i) is Some
        &&& self.found_dyn@[self.pm.prefix_idx(i)->0 as int]
    }

    /// Every key of prefix `j`'s group is confirmed used.
    spec fn group_used(self, j: int) -> bool {
        forall|i: int|
            0 <= i < self.keys@.len() && #[trigger] self.pm.prefix_idx(i) == Some(j as usize)
                ==> self.used@[i]
    }

    /// The scanner's shape: matcher lists parallel to the keys and the
    /// prefixes, a matcher present exactly when its pattern compiles, and
    /// a well-formed prefix map over distinct keys.
    pub closed spec fn wf(self) -> bool {
        &&& self.pm.wf(self.kview())
        &&& self.exact@.len() == self.keys@.len()
        &&& self.used@.len() == self.keys@.len()
        &&& self.dynamic@.len() == self.pm.num_prefixes()
        &&& self.found_dyn@.len() == self.pm.num_prefixes()
        &&& self.complete@.len() == self.pm.num_prefixes()
        &&& forall|a: int, b: int|
            0 <= a < b < self.kview().len() ==> self.kview()[a] != self.kview()[b]
        &&& forall|i: int|
            0 <= i < self.keys@.len() ==> ((#[trigger] self.exact@[i]) is Some <==> regex_compiles(
                exact_pattern(self.kview()[i]),
            ))
        &&& forall|i: int|
            0 <= i < self.keys@.len() && self.exact@[i] is Some ==> (#[trigger] self.exact@[i])->0.wf()
                && self.exact@[i]->0.key_view() == self.kview()[i]
        &&& forall|j: int|
            0 <= j < self.pm.num_prefixes() ==> ((#[trigger] self.dynamic@[j]) is Some
                <==> regex_compiles(dynamic_pattern(self.pv()[j])))
        &&& forall|j: int|
            0 <= j < self.pm.num_prefixes() && self.dynamic@[j] is Some ==> (
            #[trigger] self.dynamic@[j])->0.wf() && self.dynamic@[j]->0.prefix_view()
                == self.pv()[j]
    }

    /// Every confirmed entry is justified by a hit in `files`.
    spec fn state_ok(self, files: Seq<Seq<char>>) -> bool {
        &&& forall|i: int|
            0 <= i < self.keys@.len() && #[trigger] self.used@[i] ==> self.exact@[i] is Some
                && exact_hit(self.kview()[i], files)
        &&& forall|j: int|
            0 <= j < self.pm.num_prefixes() && #[trigger] self.found_dyn@[j] ==> self.dynamic@[j] is Some
                && dyn_hit(self.pv()[j], files)
        &&& forall|j: int|
            0 <= j < self.pm.num_prefixes() && #[trigger] self.complete@[j] ==> self.group_used(j)
    }

    /// Every hit in `files` has been recorded, directly or through the
    /// short-circuits: an exact hit for a key is recorded unless the key's
    /// prefix was found dynamically (the key is covered either way), and a
    /// dynamic hit for a prefix is recorded unless the prefix's whole group
    /// was already covered exactly.
    spec fn captured(self, files: Seq<Seq<char>>) -> bool {
        &&& forall|i: int, f: int|
            0 <= i < self.keys@.len() && 0 <= f < files.len() && self.exact@[i] is Some
                && #[trigger] regex_matches(exact_pattern(self.kview()[i]), files[f])
                ==> self.used@[i] || self.prefix_found(i)
        &&& forall|j: int, f: int|
            0 <= j < self.pm.num_prefixes() && 0 <= f < files.len() && self.dynamic@[j] is Some
                && #[trigger] regex_matches(dynamic_pattern(self.pv()[j]), files[f])
                ==> self.found_dyn@[j] || self.group_used(j)
    }

    /// The scanner's invariant between files.
    pub closed spec fn inv(self) -> bool {
        &&& self.wf()
        &&& self.state_ok(self.scanned@)
        &&& self.captured(self.scanned@)
    }

    /// Builds the scanner for a catalog key list: derives the prefix map
    /// and compiles one exact matcher per key and one dynamic matcher per
    /// prefix, skipping any pattern the regex engine rejects. No file has
    /// been scanned yet.
    pub fn new(keys: &Vec<String>) -> (s: Scanner)
        requires
            forall|a: int, b: int|
                0 <= a < b < keys@.len() ==> views(keys@)[a] != views(keys@)[b],
        ensures
            s.inv(),
            s.kview() == views(keys@),
            s.scanned_files() == Seq::<Seq<char>>::empty(),
            s.spec_exact_checks() == 0,
            s.spec_dynamic_checks() == 0,
    {
        let ghost kv = views(keys@);
        let pm = extract_base_prefixes(keys);
        let n = keys.len();
        let mut exact: Vec<Option<ExactMatcher>> = Vec::new();
        let mut used: Vec<bool> = Vec::new();
        let mut i: usize = 0;
        while i < n
            invariant
                n == keys@.len(),
                kv == views(keys@),
                i <= n,
                exact@.len() == i,
                used@.len() == i,
                forall|a: int| 0 <= a < i ==> !(#[trigger] used@[a]),
                forall|a: int|
                    0 <= a < i ==> ((#[trigger] exact@[a]) is Some <==> regex_compiles(
                        exact_pattern(kv[a]),
                    )),
                forall|a: int|
                    0 <= a < i && exact@[a] is Some ==> (#[trigger] exact@[a])->0.wf()
                        && exact@[a]->0.key_view() == kv[a],
            decreases n - i,
        {
            proof {
                assert(kv[i as int] == keys@[i as int]@);
            }
            exact.push(ExactMatcher::compile(&keys[i]));
            used.push(false);
            i = i + 1;
        }
        let np = pm.prefixes.len();
        let mut dynamic: Vec<Option<DynamicMatcher>> = Vec::new();
        let mut found_dyn: Vec<bool> = Vec::new();
        let mut complete: Vec<bool> = Vec::new();
        let mut j: usize = 0;
        while j < np
            invariant
                np == pm.prefixes@.len(),
                j <= np,
                dynamic@.len() == j,
                found_dyn@.len() == j,
                complete@.len() == j,
                forall|a: int| 0 <= a < j ==> !(#[trigger] found_dyn@[a]),
                forall|a: int| 0 <= a < j ==> !(#[trigger] complete@[a]),
                forall|a: int|
                    0 <= a < j ==> ((#[trigger] dynamic@[a]) is Some <==> regex_compiles(
                        dynamic_pattern(pm.pview()[a]),
                    )),
                forall|a: int|
                    0 <= a < j && dynamic@[a] is Some ==> (#[trigger] dynamic@[a])->0.wf()
                        && dynamic@[a]->0.prefix_view() == pm.pview()[a],
            decreases np - j,
        {
            proof {
                assert(pm.pview()[j as int] == pm.prefixes@[j as int]@);
            }
            dynamic.push(DynamicMatcher::compile(&pm.prefixes[j]));
            found_dyn.push(false);
            complete.push(false);
            j = j + 1;
        }
        Scanner {
            keys: keys.clone(),
            exact,
            pm,
            dynamic,
            used,
            found_dyn,
            complete,
            exact_checks: 0,
            dynamic_checks: 0,
            scanned: Ghost(Seq::empty()),
        }
    }

    /// Whether every key of prefix `j`'s group is confirmed used.
    fn group_all_used(&self, j: usize) -> (r: bool)
        requires
            self.wf(),
            j < self.pm.num_prefixes(),
        ensures
            r <==> self.group_used(j as int),
    {
        let g = &self.pm.groups[j];
        let mut e: usize = 0;
        while e < g.len()
            invariant
                self.wf(),
                j < self.pm.num_prefixes(),
                g == &self.pm.groups@[j as int],
                e <= g@.len(),
                forall|b: int| 0 <= b < e ==> self.used@[#[trigger] g@[b] as int],
            decreases g@.len() - e,
        {
            let idx = g[e];
            proof {
                assert(self.pm.group(j as int)[e as int] == idx);
            }
            if !self.used[idx] {
                proof {
                    assert(self.pm.prefix_idx(idx as int) == Some(j));
                }
                return false;
            }
            e = e + 1;
        }
        proof {
            assert(vstd::std_specs::vec::spec_vec_len(&self.keys) == self.keys@.len());
            assert forall|i: int|
                0 <= i < self.keys@.len() && #[trigger] self.pm.prefix_idx(i) == Some(j) implies self.used@[i] by {
                assert(self.pm.group(j as int).contains(i as usize));
                let b = choose|b: int|
                    0 <= b < self.pm.group(j as int).len() && self.pm.group(j as int)[b] == (
                    i as usize);
                assert(self.used@[g@[b] as int]);
                assert(g@[b] as int == i);
            }
        }
        true
    }

    /// Scans one file's content. Step one applies the exact matcher of
    /// every key not yet confirmed and whose prefix is not yet confirmed
    /// dynamically; a hit confirms the key, and completes its group when
    /// the hit was the last member missing. Step two applies the dynamic
    /// matcher of every prefix not yet confirmed and not yet complete; a
    /// hit confirms the prefix. Confirmed entries never revert, and once
    /// every key and prefix is resolved, a further file costs no matcher
    /// application at all, as the check counters witness.
    pub fn scan_file(&mut self, content: &str)
        requires
            old(self).inv(),
        ensures
            final(self).inv(),
            final(self).kview() == old(self).kview(),
            final(self).pv() == old(self).pv(),
            final(self).scanned_files() == old(self).scanned_files().push(content@),
            forall|i: int|
                0 <= i < old(self).kview().len() && old(self).used_at(i) ==> final(self).used_at(i),
            forall|j: int|
                0 <= j < old(self).pv().len() && old(self).found_dyn_at(j)
                    ==> final(self).found_dyn_at(j),
            forall|j: int|
                0 <= j < old(self).pv().len() && old(self).complete_at(j)
                    ==> final(self).complete_at(j),
            (forall|i: int|
                0 <= i < old(self).kview().len() ==> (#[trigger] old(self).used_at(i)) || old(
                    self,
                ).prefix_found(i)) ==> final(self).spec_exact_checks() == old(
                self,
            ).spec_exact_checks(),
            (forall|j: int|
                0 <= j < old(self).pv().len() ==> (#[trigger] old(self).found_dyn_at(j)) || old(
                    self,
                ).complete_at(j)) ==> final(self).spec_dynamic_checks() == old(
                self,
            ).spec_dynamic_checks(),
    {
        let ghost files = self.scanned@;
        let ghost gf = self.scanned@.push(content@);
        proof {
            assert forall|i: int|
                0 <= i < self.keys@.len() && #[trigger] self.used@[i] implies self.exact@[i] is Some
                && exact_hit(self.kview()[i], gf) by {
                let f = choose|f: int|
                    0 <= f < files.len() && #[trigger] regex_matches(
                        exact_pattern(self.kview()[i]),
                        files[f],
                    );
                assert(gf[f] == files[f]);
                assert(regex_matches(exact_pattern(self.kview()[i]), gf[f]));
            }
            assert forall|j: int|
                0 <= j < self.pm.num_prefixes() && #[trigger] self.found_dyn@[j] implies self.dynamic@[j] is Some
                && dyn_hit(self.pv()[j], gf) by {
                let f = choose|f: int|
                    0 <= f < files.len() && #[trigger] regex_matches(
                        dynamic_pattern(self.pv()[j]),
                        files[f],
                    );
                assert(gf[f] == files[f]);
                assert(regex_matches(dynamic_pattern(self.pv()[j]), gf[f]));
            }
        }
        let n = self.keys.len();
        let mut i: usize = 0;
        while i < n
            invariant
                n == self.keys@.len(),
                i <= n,
                self.wf(),
                self.keys == old(self).keys,
                self.pm == old(self).pm,
                self.exact == old(self).exact,
                self.dynamic == old(self).dynamic,
                self.found_dyn == old(self).found_dyn,
                self.scanned == old(self).scanned,
                files == self.scanned@,
                gf == files.push(content@),
                forall|a: int|
                    0 <= a < n && old(self).used@[a] ==> #[trigger] self.used@[a],
                forall|b: int|
                    0 <= b < self.pm.num_prefixes() && old(self).complete@[b]
                        ==> #[trigger] self.complete@[b],
                self.state_ok(gf),
                self.captured(files),
                forall|a: int|
                    0 <= a < i && self.exact@[a] is Some && #[trigger] regex_matches(
                        exact_pattern(self.kview()[a]),
                        content@,
                    ) ==> self.used@[a] || self.prefix_found(a),
                self.dynamic_checks == old(self).dynamic_checks,
                (forall|a: int|
                    0 <= a < n ==> (#[trigger] old(self).used_at(a)) || old(self).prefix_found(
                        a,
                    )) ==> self.exact_checks == old(self).exact_checks,
            decreases n - i,
        {
            let run = if self.used[i] {
                false
            } else {
                match self.pm.prefix_of[i] {
                    Some(j) => !self.found_dyn[j],
                    None => true,
                }
            };
            if run {
                proof {
                    if forall|a: int|
                        0 <= a < n ==> (#[trigger] old(self).used_at(a)) || old(self).prefix_found(
                            a,
                        ) {
                        assert(old(self).used_at(i as int) || old(self).prefix_found(i as int));
                    }
                }
                if self.exact[i].is_some() {
                    if self.exact_checks < u64::MAX {
                        self.exact_checks = self.exact_checks + 1;
                    }
                }
                let hit = match &self.exact[i] {
                    Some(m) => m.is_match(content),
                    None => false,
                };
                if hit {
                    let ghost pre = *self;
                    self.used[i] = true;
                    proof {
                        assert(regex_matches(exact_pattern(self.kview()[i as int]), gf[
                            gf.len() - 1]));
                        assert forall|jj: int|
                            0 <= jj < self.pm.num_prefixes() && pre.group_used(jj) implies self.group_used(
                            jj,
                        ) by {
                            assert forall|a: int|
                                0 <= a < self.keys@.len() && #[trigger] self.pm.prefix_idx(a)
                                    == Some(jj as usize) implies self.used@[a] by {
                                assert(pre.used@[a]);
                            }
                        }
                    }
                    if let Some(j) = self.pm.prefix_of[i] {
                        if !self.complete[j] {
                            if self.group_all_used(j) {
                                let ghost pre2 = *self;
                                self.complete[j] = true;
                                proof {
                                    assert forall|jj: int|
                                        0 <= jj < self.pm.num_prefixes()
                                            && #[trigger] self.complete@[jj] implies self.group_used(
                                        jj,
                                    ) by {
                                        if jj != j as int {
                                            assert(pre2.complete@[jj]);
                                        }
                                    }
                                }
                            }
                        }
                    }
                }
            }
            i = i + 1;
        }
        let np = self.pm.prefixes.len();
        let mut j: usize = 0;
        while j < np
            invariant
                n == self.keys@.len(),
                np == self.pm.num_prefixes(),
                j <= np,
                self.wf(),
                self.keys == old(self).keys,
                self.pm == old(self).pm,
                self.exact == old(self).exact,
                self.dynamic == old(self).dynamic,
                self.scanned == old(self).scanned,
                files == self.scanned@,
                gf == files.push(content@),
                forall|a: int|
                    0 <= a < n && old(self).used@[a] ==> #[trigger] self.used@[a],
                forall|b: int|
                    0 <= b < np && old(self).found_dyn@[b] ==> #[trigger] self.found_dyn@[b],
                forall|b: int|
                    0 <= b < np && old(self).complete@[b] ==> #[trigger] self.complete@[b],
                self.state_ok(gf),
                self.captured(files),
                forall|a: int|
                    0 <= a < n && self.exact@[a] is Some && #[trigger] regex_matches(
                        exact_pattern(self.kview()[a]),
                        content@,
                    ) ==> self.used@[a] || self.prefix_found(a),
                forall|b: int|
                    0 <= b < j && self.dynamic@[b] is Some && #[trigger] regex_matches(
                        dynamic_pattern(self.pv()[b]),
                        content@,
                    ) ==> self.found_dyn@[b] || self.group_used(b),
                (forall|a: int|
                    0 <= a < n ==> (#[trigger] old(self).used_at(a)) || old(self).prefix_found(
                        a,
                    )) ==> self.exact_checks == old(self).exact_checks,
                (forall|b: int|
                    0 <= b < np ==> (#[trigger] old(self).found_dyn_at(b)) || old(self).complete_at(
                        b,
                    )) ==> self.dynamic_checks == old(self).dynamic_checks,
            decreases np - j,
        {
            if !self.found_dyn[j] && !self.complete[j] {
                proof {
                    if forall|b: int|
                        0 <= b < np ==> (#[trigger] old(self).found_dyn_at(b)) || old(
                            self,
                        ).complete_at(b) {
                        assert(old(self).found_dyn_at(j as int) || old(self).complete_at(j as int));
                    }
                }
                let all = self.group_all_used(j);
                if all {
                    let ghost pre = *self;
                    self.complete[j] = true;
                    proof {
                        assert forall|jj: int|
                            0 <= jj < np && #[trigger] self.complete@[jj] implies self.group_used(
                            jj,
                        ) by {
                            if jj != j as int {
                                assert(pre.complete@[jj]);
                            }
                        }
                    }
                } else {
                    if self.dynamic[j].is_some() {
                        if self.dynamic_checks < u64::MAX {
                            self.dynamic_checks = self.dynamic_checks + 1;
                        }
                    }
                    let hit = match &self.dynamic[j] {
                        Some(m) => m.is_match(content),
                        None => false,
                    };
                    if hit {
                        self.found_dyn[j] = true;
                        proof {
                            assert(regex_matches(dynamic_pattern(self.pv()[j as int]), gf[
                                gf.len() - 1]));
                        }
                    }
                }
            }
            j = j + 1;
        }
        self.scanned = Ghost(gf);
        proof {
            assert forall|a: int, f: int|
                0 <= a < self.keys@.len() && 0 <= f < gf.len() && self.exact@[a] is Some
                    && #[trigger] regex_matches(exact_pattern(self.kview()[a]), gf[f]) implies self.used@[a]
                || self.prefix_found(a) by {
                if f < files.len() {
                    assert(gf[f] == files[f]);
                } else {
                    assert(gf[f] == content@);
                }
            }
            assert forall|b: int, f: int|
                0 <= b < self.pm.num_prefixes() && 0 <= f < gf.len() && self.dynamic@[b] is Some
                    && #[trigger] regex_matches(dynamic_pattern(self.pv()[b]), gf[f]) implies self.found_dyn@[b]
                || self.group_used(b) by {
                if f < files.len() {
                    assert(gf[f] == files[f]);
                } else {
                    assert(gf[f] == content@);
                }
            }
        }
    }

    /// Assembles the usage result from the confirmed sets: the keys
    /// confirmed by exact matches, together with every key whose prefix
    /// was confirmed dynamically. The result holds exactly the keys that
    /// the scanned files use, each once.
    pub fn used_keys(&self) -> (r: Vec<String>)
        requires
            self.inv(),
        ensures
            forall|k: Seq<char>|
                views(r@).contains(k) <==> key_used(self.kview(), self.scanned_files(), k),
            forall|a: int, b: int| 0 <= a < b < r@.len() ==> r@[a]@ != r@[b]@,
    {
        let n = self.keys.len();
        let np = self.pm.prefixes.len();
        let mut marked: Vec<bool> = Vec::new();
        let mut i: usize = 0;
        while i < n
            invariant
                self.inv(),
                n == self.keys@.len(),
                i <= n,
                marked@.len() == i,
                forall|a: int| 0 <= a < i ==> #[trigger] marked@[a] == self.used@[a],
            decreases n - i,
        {
            marked.push(self.used[i]);
            i = i + 1;
        }
        let mut j: usize = 0;
        while j < np
            invariant
                self.inv(),
                n == self.keys@.len(),
                np == self.pm.num_prefixes(),
                j <= np,
                marked@.len() == n,
                forall|a: int|
                    0 <= a < n && #[trigger] marked@[a] ==> self.used@[a] || self.prefix_found(a),
                forall|a: int| 0 <= a < n && self.used@[a] ==> #[trigger] marked@[a],
                forall|a: int|
                    0 <= a < n && #[trigger] self.prefix_found(a) && self.pm.prefix_idx(a)->0 < j
                        ==> marked@[a],
            decreases np - j,
        {
            if self.found_dyn[j] {
                let g = &self.pm.groups[j];
                let glen = g.len();
                let mut e: usize = 0;
                while e < glen
                    invariant
                        self.inv(),
                        n == self.keys@.len(),
                        np == self.pm.num_prefixes(),
                        j < np,
                        self.found_dyn@[j as int],
                        g == &self.pm.groups@[j as int],
                        glen == g@.len(),
                        e <= glen,
                        marked@.len() == n,
                        forall|a: int|
                            0 <= a < n && #[trigger] marked@[a] ==> self.used@[a]
                                || self.prefix_found(a),
                        forall|a: int| 0 <= a < n && self.used@[a] ==> #[trigger] marked@[a],
                        forall|a: int|
                            0 <= a < n && #[trigger] self.prefix_found(a) && self.pm.prefix_idx(
                                a,
                            )->0 < j ==> marked@[a],
                        forall|b: int| 0 <= b < e ==> marked@[#[trigger] g@[b] as int],
                    decreases glen - e,
                {
                    let idx = g[e];
                    proof {
                        assert(self.pm.group(j as int)[e as int] == idx);
                    }
                    marked[idx] = true;
                    e = e + 1;
                }
                proof {
                    assert(vstd::std_specs::vec::spec_vec_len(&self.keys) == self.keys@.len());
                    assert forall|a: int|
                        0 <= a < n && #[trigger] self.prefix_found(a) && self.pm.prefix_idx(a)->0
                            <= j implies marked@[a] by {
                        if self.pm.prefix_idx(a)->0 == j as usize {
                            assert(self.pm.group(j as int).contains(a as usize));
                            let b = choose|b: int|
                                0 <= b < self.pm.group(j as int).len() && self.pm.group(j as int)[b]
                                    == (a as usize);
                            assert(marked@[g@[b] as int]);
                            assert(g@[b] as int == a);
                        }
                    }
                }
            } else {
                proof {
                    assert forall|a: int|
                        0 <= a < n && #[trigger] self.prefix_found(a) && self.pm.prefix_idx(a)->0
                            <= j implies marked@[a] by {
                        if self.pm.prefix_idx(a)->0 == j as usize {
                            assert(self.found_dyn@[j as int]);
                        }
                    }
                }
            }
            j = j + 1;
        }
        let mut out: Vec<String> = Vec::new();
        let ghost mut idxs: Seq<int> = Seq::empty();
        let mut i2: usize = 0;
        while i2 < n
            invariant
                self.inv(),
                n == self.keys@.len(),
                i2 <= n,
                marked@.len() == n,
                forall|a: int|
                    0 <= a < n && #[trigger] marked@[a] <==> 0 <= a < n && (self.used@[a]
                        || self.prefix_found(a)),
                idxs.len() == out@.len(),
                forall|a: int|
                    0 <= a < idxs.len() ==> 0 <= #[trigger] idxs[a] < i2 && marked@[idxs[a]]
                        && out@[a]@ == self.kview()[idxs[a]],
                forall|a: int, b: int| 0 <= a < b < idxs.len() ==> idxs[a] < idxs[b],
                forall|a: int| 0 <= a < i2 && #[trigger] marked@[a] ==> views(out@).contains(
                    self.kview()[a],
                ),
            decreases n - i2,
        {
            let ghost out_pre = out@;
            if marked[i2] {
                out.push(self.keys[i2].clone());
                proof {
                    idxs = idxs.push(i2 as int);
                    assert(views(out@)[out@.len() - 1] == self.kview()[i2 as int]);
                    assert forall|a: int|
                        0 <= a < i2 + 1 && #[trigger] marked@[a] implies views(out@).contains(
                        self.kview()[a],
                    ) by {
                        if a < i2 as int {
                            let w = choose|w: int|
                                0 <= w < views(out_pre).len() && views(out_pre)[w]
                                    == self.kview()[a];
                            assert(views(out@)[w] == self.kview()[a]);
                        }
                    }
                }
            }
            i2 = i2 + 1;
        }
        proof {
            assert(vstd::std_specs::vec::spec_vec_len(&self.keys) == self.keys@.len());
            // Each collected key is used, and each used key is collected.
            assert forall|k: Seq<char>|
                views(out@).contains(k) implies key_used(self.kview(), self.scanned_files(), k) by {
                let w = choose|w: int| 0 <= w < views(out@).len() && views(out@)[w] == k;
                let a = idxs[w];
                assert(marked@[a] && self.kview()[a] == k);
                assert(self.kview().contains(k)) by {
                    assert(self.kview()[a] == k);
                }
                if self.used@[a] {
                    assert(exact_used(k, self.scanned_files()));
                } else {
                    assert(self.prefix_found(a));
                    let jj = self.pm.prefix_idx(a)->0 as int;
                    assert(self.found_dyn@[jj]);
                    assert(spec_key_prefix(k) == Some(self.pv()[jj]));
                    assert(self.dynamic@[jj] is Some);
                    assert(regex_compiles(dynamic_pattern(self.pv()[jj])));
                    assert(dyn_hit(self.pv()[jj], self.scanned_files()));
                    assert(dynamic_used(k, self.scanned_files()));
                }
            }
            assert forall|k: Seq<char>|
                key_used(self.kview(), self.scanned_files(), k) implies views(out@).contains(
                k,
            ) by {
                let a = choose|a: int| 0 <= a < self.kview().len() && self.kview()[a] == k;
                if exact_used(k, self.scanned_files()) {
                    assert(self.exact@[a] is Some);
                    let f = choose|f: int|
                        0 <= f < self.scanned_files().len() && #[trigger] regex_matches(
                            exact_pattern(k),
                            self.scanned_files()[f],
                        );
                    assert(self.used@[a] || self.prefix_found(a));
                    assert(marked@[a]);
                } else {
                    assert(dynamic_used(k, self.scanned_files()));
                    let p = spec_key_prefix(k)->0;
                    assert(self.pm.prefix_idx(a) is Some);
                    let jj = self.pm.prefix_idx(a)->0 as int;
                    assert(self.pv()[jj] == p);
                    assert(self.dynamic@[jj] is Some);
                    let f = choose|f: int|
                        0 <= f < self.scanned_files().len() && #[trigger] regex_matches(
                            dynamic_pattern(p),
                            self.scanned_files()[f],
                        );
                    assert(self.found_dyn@[jj] || self.group_used(jj));
                    if self.found_dyn@[jj] {
                        assert(self.prefix_found(a));
                    } else {
                        assert(self.used@[a]);
                    }
                    assert(marked@[a]);
                }
            }
            // Distinctness: collected positions are strictly increasing over
            // distinct keys.
            assert forall|a: int, b: int| 0 <= a < b < out@.len() implies out@[a]@ != out@[b]@ by {
                assert(idxs[a] < idxs[b]);
                assert(out@[a]@ == self.kview()[idxs[a]]);
                assert(out@[b]@ == self.kview()[idxs[b]]);
            }
        }
        out
    }

    /// How many exact-matcher applications have run so far.
    pub fn exact_check_count(&self) -> (r: u64)
        ensures
            r == self.spec_exact_checks(),
    {
        self.exact_checks
    }

    /// How many dynamic-matcher applications have run so far.
    pub fn dynamic_check_count(&self) -> (r: u64)
        ensures
            r == self.spec_dynamic_checks(),
    {
        self.dynamic_checks
    }
}

/// The unused keys: the catalog keys, in catalog order, that are not in
/// the used set.
pub open spec fn spec_unused_keys(keys: Seq<Seq<char>>, used: Seq<Seq<char>>) -> Seq<Seq<char>> {
    keys.filter(|k: Seq<char>| !used.contains(k))
}

/// The complement of the usage result: the catalog keys that the scan did
/// not report used, in catalog order.
pub fn unused_keys(keys: &Vec<String>, used: &Vec<String>) -> (r: Vec<String>)
    ensures
        views(r@) == spec_unused_keys(views(keys@), views(used@)),
{
    let mut r: Vec<String> = Vec::new();
    let n = keys.len();
    let mut i: usize = 0;
    while i < n
        invariant
            n == keys@.len(),
            i <= n,
            views(r@) == spec_unused_keys(views(keys@).subrange(0, i as int), views(used@)),
        decreases n - i,
    {
        let ghost pre = views(keys@).subrange(0, i as int);
        proof {
            reveal(Seq::filter);
            assert(views(keys@).subrange(0, i + 1 as int).drop_last() =~= pre);
            assert(views(keys@).subrange(0, i + 1 as int).last() == keys@[i as int]@);
        }
        match find_string(used, &keys[i]) {
            Some(j) => {
                proof {
                    assert(views(used@)[j as int] == keys@[i as int]@);
                }
            },
            None => {
                proof {
                    reveal(Seq::filter);
                    if views(used@).contains(keys@[i as int]@) {
                        let j = choose|j: int|
                            0 <= j < views(used@).len() && views(used@)[j] == keys@[i as int]@;
                        assert(used@[j]@ == keys@[i as int]@);
                    }
                }
                r.push(keys[i].clone());
                proof {
                    assert(views(r@) =~= pre.filter(|k: Seq<char>| !views(used@).contains(k)).push(
                        keys@[i as int]@,
                    ));
                }
            },
        }
        i = i + 1;
    }
    proof {
        assert(views(keys@).subrange(0, n as int) =~= views(keys@));
    }
    r
}

/// Scans every file content once and returns the set of used keys: the
/// catalog keys that some file uses exactly, word-bounded, together with
/// every key whose prefix some file uses dynamically. The result is
/// determined by the keys and the contents alone, holds only catalog keys,
/// and lists each used key once.
pub fn check_translation_usage(keys: &Vec<String>, contents: &Vec<String>) -> (r: Vec<String>)
    requires
        forall|a: int, b: int| 0 <= a < b < keys@.len() ==> views(keys@)[a] != views(keys@)[b],
    ensures
        forall|k: Seq<char>| views(r@).contains(k) <==> key_used(views(keys@), views(contents@), k),
        forall|a: int, b: int| 0 <= a < b < r@.len() ==> r@[a]@ != r@[b]@,
{
    let mut scanner = Scanner::new(keys);
    let n = contents.len();
    let mut i: usize = 0;
    while i < n
        invariant
            n == contents@.len(),
            i <= n,
            scanner.inv(),
            scanner.kview() == views(keys@),
            scanner.scanned_files() == views(contents@).subrange(0, i as int),
        decreases n - i,
    {
        proof {
            assert(views(contents@)[i as int] == contents@[i as int]@);
            assert(views(contents@).subrange(0, i as int).push(contents@[i as int]@) =~= views(
                contents@,
            ).subrange(0, i + 1 as int));
        }
        scanner.scan_file(contents[i].as_str());
        i = i + 1;
    }
    proof {
        assert(views(contents@).subrange(0, n as int) =~= views(contents@));
    }
    scanner.used_keys()
}

} // verus!
