//! Ignore-pattern filtering: which paths the directory walk skips. Plain
//! patterns match a whole path segment; `*` patterns become regexes tried
//! against the file name and the full path.

use vstd::prelude::*;
use crate::matchers::{regex_compiles, regex_matches, CompiledRegex};
use crate::search::views;

verus! {

/// The built-in ignore patterns: dependency and build directories, editor
/// droppings, and test files.
pub open spec fn spec_default_patterns() -> Seq<Seq<char>> {
    seq![
        "node_modules"@,
        ".git"@,
        "dist"@,
        "build"@,
        "target"@,
        ".next"@,
        ".nuxt"@,
        ".cache"@,
        "coverage"@,
        ".idea"@,
        ".vscode"@,
        ".DS_Store"@,
        "*.log"@,
        "__tests__"@,
        "tests"@,
        "test"@,
        "*.test.js"@,
        "*.test.jsx"@,
        "*.test.ts"@,
        "*.test.tsx"@,
        "*.spec.js"@,
        "*.spec.jsx"@,
        "*.spec.ts"@,
        "*.spec.tsx"@,
        "*.snap"@,
    ]
}

/// A pattern with a `*` is a glob; the others match a segment exactly.
pub open spec fn spec_is_glob(p: Seq<char>) -> bool {
    exists|i: int| 0 <= i < p.len() && p[i] == '*'
}

/// The regex text for a glob: each `.` escaped, each `*` widened to `.*`,
/// every other character kept.
pub open spec fn spec_glob_regex(p: Seq<char>) -> Seq<char>
    decreases p.len(),
{
    if p.len() == 0 {
        Seq::empty()
    } else {
        spec_glob_regex(p.drop_last()) + if p.last() == '.' {
            seq!['\\', '.']
        } else if p.last() == '*' {
            seq!['.', '*']
        } else {
            seq![p.last()]
        }
    }
}

/// The position of the last `/` in `s`, if any.
pub open spec fn spec_last_slash(s: Seq<char>) -> Option<int>
    decreases s.len(),
{
    if s.len() == 0 {
        None
    } else if s.last() == '/' {
        Some(s.len() - 1)
    } else {
        spec_last_slash(s.drop_last())
    }
}

/// The path split at every `/`: the segments, in order, empty ones kept.
pub open spec fn spec_segments(s: Seq<char>) -> Seq<Seq<char>>
    decreases s.len(),
{
    match spec_last_slash(s) {
        Some(i) => if 0 <= i < s.len() {
            spec_segments(s.subrange(0, i)).push(s.subrange(i + 1, s.len() as int))
        } else {
            seq![s]
        },
        None => seq![s],
    }
}

/// A segment that names a real directory or file: not empty, and neither
/// the current- nor the parent-directory marker.
pub open spec fn spec_normal_segment(seg: Seq<char>) -> bool {
    seg.len() > 0 && seg != seq!['.'] && seg != seq!['.', '.']
}

/// The path's file name: its last segment that names a real directory or
/// file.
pub open spec fn spec_file_name(segs: Seq<Seq<char>>) -> Option<Seq<char>>
    decreases segs.len(),
{
    if segs.len() == 0 {
        None
    } else if spec_normal_segment(segs.last()) {
        Some(segs.last())
    } else {
        spec_file_name(segs.drop_last())
    }
}

/// Some segment of the path is matched exactly by a plain pattern.
pub open spec fn spec_matches_exact(segs: Seq<Seq<char>>, exacts: Seq<Seq<char>>) -> bool {
    exists|i: int|
        0 <= i < segs.len() && spec_normal_segment(#[trigger] segs[i]) && exacts.contains(segs[i])
}

/// Some glob regex matches the file name or the full path.
pub open spec fn spec_matches_glob(path: Seq<char>, globs: Seq<Seq<char>>) -> bool {
    exists|i: int|
        0 <= i < globs.len() && (regex_matches(#[trigger] globs[i], path) || match spec_file_name(
            spec_segments(path),
        ) {
            Some(f) => regex_matches(globs[i], f),
            None => false,
        })
}

/// The path is skipped when a plain pattern matches one of its segments,
/// or a glob regex matches its file name or its full text.
pub open spec fn spec_should_ignore(
    path: Seq<char>,
    exacts: Seq<Seq<char>>,
    globs: Seq<Seq<char>>,
) -> bool {
    spec_matches_exact(spec_segments(path), exacts) || spec_matches_glob(path, globs)
}

fn rfind_slash(s: &str) -> (r: Option<usize>)
    ensures
        match r {
            Some(i) => i < s@.len() && spec_last_slash(s@) == Some(i as int),
            None => spec_last_slash(s@) is None,
        },
{
    let n = s.unicode_len();
    let mut i: usize = n;
    proof {
        assert(s@.subrange(0, n as int) =~= s@);
    }
    while i > 0
        invariant
            i <= n,
            n == s@.len(),
            spec_last_slash(s@) == spec_last_slash(s@.subrange(0, i as int)),
        decreases i,
    {
        let c = s.get_char(i - 1);
        proof {
            assert(s@.subrange(0, i as int).last() == s@[i - 1]);
        }
        if c == '/' {
            return Some(i - 1);
        }
        proof {
            assert(s@.subrange(0, i as int).drop_last() =~= s@.subrange(0, i - 1));
        }
        i = i - 1;
    }
    proof {
        assert(s@.subrange(0, 0) =~= Seq::<char>::empty());
    }
    None
}

/// Splits a path at every `/`, keeping empty segments.
fn split_slash(s: &str) -> (r: Vec<String>)
    ensures
        views(r@) == spec_segments(s@),
    decreases s@.len(),
{
    match rfind_slash(s) {
        Some(i) => {
            let n = s.unicode_len();
            let head = s.substring_char(0, i);
            let tail = s.substring_char(i + 1, n);
            let mut r = split_slash(head);
            r.push(tail.to_owned());
            proof {
                assert(views(r@) =~= spec_segments(head@).push(tail@));
            }
            r
        },
        None => {
            let mut r: Vec<String> = Vec::new();
            r.push(s.to_owned());
            proof {
                assert(views(r@) =~= seq![s@]);
            }
            r
        },
    }
}

fn is_normal_segment(seg: &String) -> (r: bool)
    ensures
        r == spec_normal_segment(seg@),
{
    let n = seg.as_str().unicode_len();
    if n == 0 {
        return false;
    }
    if n == 1 && seg.as_str().get_char(0) == '.' {
        proof {
            assert(seg@ =~= seq!['.']);
        }
        return false;
    }
    if n == 2 && seg.as_str().get_char(0) == '.' && seg.as_str().get_char(1) == '.' {
        proof {
            assert(seg@ =~= seq!['.', '.']);
        }
        return false;
    }
    proof {
        if seg@ == seq!['.'] {
            assert(n == 1 && seg@[0] == '.');
        }
        if seg@ == seq!['.', '.'] {
            assert(n == 2 && seg@[0] == '.' && seg@[1] == '.');
        }
    }
    true
}

fn has_star(p: &str) -> (r: bool)
    ensures
        r == spec_is_glob(p@),
{
    let n = p.unicode_len();
    let mut i: usize = 0;
    while i < n
        invariant
            i <= n,
            n == p@.len(),
            forall|a: int| 0 <= a < i ==> p@[a] != '*',
        decreases n - i,
    {
        if p.get_char(i) == '*' {
            return true;
        }
        i = i + 1;
    }
    false
}

/// Builds the regex text for a glob pattern.
fn glob_regex(p: &str) -> (r: Vec<char>)
    ensures
        r@ == spec_glob_regex(p@),
{
    let n = p.unicode_len();
    let mut r: Vec<char> = Vec::new();
    let mut i: usize = 0;
    while i < n
        invariant
            i <= n,
            n == p@.len(),
            r@ == spec_glob_regex(p@.subrange(0, i as int)),
        decreases n - i,
    {
        let c = p.get_char(i);
        if c == '.' {
            r.push('\\');
            r.push('.');
        } else if c == '*' {
            r.push('.');
            r.push('*');
        } else {
            r.push(c);
        }
        proof {
            assert(p@.subrange(0, i + 1 as int).drop_last() =~= p@.subrange(0, i as int));
            assert(p@.subrange(0, i + 1 as int).last() == c);
        }
        i = i + 1;
    }
    proof {
        assert(p@.subrange(0, n as int) =~= p@);
    }
    r
}

/// Compiled ignore patterns: the plain segment names, and the compiled
/// glob regexes.
pub struct IgnorePatterns {
    exact_matches: Vec<String>,
    glob_regexes: Vec<CompiledRegex>,
}

/// Some compiled glob of `globs` has the pattern text `pat`.
pub open spec fn has_glob(globs: Seq<Seq<char>>, pat: Seq<char>) -> bool {
    exists|a: int| 0 <= a < globs.len() && #[trigger] globs[a] == pat
}

/// `pat` is the regex text of one of the built-in glob patterns.
pub open spec fn glob_from_defaults(pat: Seq<char>) -> bool {
    exists|i: int|
        0 <= i < spec_default_patterns().len() && spec_is_glob(
            #[trigger] spec_default_patterns()[i],
        ) && pat == spec_glob_regex(spec_default_patterns()[i])
}

impl IgnorePatterns {
    /// The plain patterns, each matched against whole path segments.
    pub closed spec fn exacts(&self) -> Seq<Seq<char>> {
        views(self.exact_matches@)
    }

    /// The texts of the compiled glob regexes.
    pub closed spec fn globs(&self) -> Seq<Seq<char>> {
        self.glob_regexes@.map_values(|c: CompiledRegex| c.pattern_view())
    }

    /// Check if a file path should be ignored
    pub fn should_ignore(&self, file_path: &str) -> (r: bool)
        ensures
            r == spec_should_ignore(file_path@, self.exacts(), self.globs()),
    {
        let segs = split_slash(file_path);
        let ns = segs.len();
        let mut i: usize = 0;
        while i < ns
            invariant
                ns == segs@.len(),
                views(segs@) == spec_segments(file_path@),
                i <= ns,
                forall|a: int|
                    0 <= a < i ==> !(spec_normal_segment(#[trigger] views(segs@)[a])
                        && self.exacts().contains(views(segs@)[a])),
            decreases ns - i,
        {
            proof {
                assert(views(segs@)[i as int] == segs@[i as int]@);
            }
            if is_normal_segment(&segs[i]) {
                if crate::search::find_string(&self.exact_matches, &segs[i]).is_some() {
                    proof {
                        let j = choose|j: int|
                            0 <= j < self.exact_matches@.len() && self.exact_matches@[j]@
                                == segs@[i as int]@;
                        assert(self.exacts()[j] == segs@[i as int]@);
                    }
                    return true;
                }
                proof {
                    if self.exacts().contains(views(segs@)[i as int]) {
                        let j = choose|j: int|
                            0 <= j < self.exacts().len() && self.exacts()[j] == views(segs@)[
                            i as int];
                        assert(self.exact_matches@[j]@ == segs@[i as int]@);
                    }
                }
            }
            i = i + 1;
        }
        let file_name = self.last_normal_segment(&segs);
        let ng = self.glob_regexes.len();
        let mut g: usize = 0;
        while g < ng
            invariant
                ng == self.glob_regexes@.len(),
                views(segs@) == spec_segments(file_path@),
                match &file_name {
                    Some(f) => spec_file_name(spec_segments(file_path@)) == Some(f@),
                    None => spec_file_name(spec_segments(file_path@)) is None,
                },
                g <= ng,
                forall|a: int|
                    0 <= a < g ==> !(regex_matches(#[trigger] self.globs()[a], file_path@) || match
                        spec_file_name(spec_segments(file_path@)) {
                        Some(f) => regex_matches(self.globs()[a], f),
                        None => false,
                    }),
                forall|a: int|
                    0 <= a < segs@.len() ==> !(spec_normal_segment(#[trigger] views(segs@)[a])
                        && self.exacts().contains(views(segs@)[a])),
            decreases ng - g,
        {
            proof {
                assert(self.globs()[g as int] == self.glob_regexes@[g as int].pattern_view());
            }
            // Check filename first (most common case)
            if let Some(f) = &file_name {
                if self.glob_regexes[g].is_match(f.as_str()) {
                    return true;
                }
            }
            // Check full path as fallback
            if self.glob_regexes[g].is_match(file_path) {
                return true;
            }
            g = g + 1;
        }
        false
    }

    fn last_normal_segment(&self, segs: &Vec<String>) -> (r: Option<String>)
        ensures
            match r {
                Some(f) => spec_file_name(views(segs@)) == Some(f@),
                None => spec_file_name(views(segs@)) is None,
            },
    {
        let n = segs.len();
        let mut i: usize = n;
        proof {
            assert(views(segs@).subrange(0, n as int) =~= views(segs@));
        }
        while i > 0
            invariant
                i <= n,
                n == segs@.len(),
                spec_file_name(views(segs@)) == spec_file_name(views(segs@).subrange(0, i as int)),
            decreases i,
        {
            proof {
                assert(views(segs@).subrange(0, i as int).last() == segs@[i - 1]@);
            }
            if is_normal_segment(&segs[i - 1]) {
                return Some(segs[i - 1].clone());
            }
            proof {
                assert(views(segs@).subrange(0, i as int).drop_last() =~= views(segs@).subrange(
                    0,
                    i - 1,
                ));
            }
            i = i - 1;
        }
        proof {
            assert(views(segs@).subrange(0, 0) =~= Seq::<Seq<char>>::empty());
        }
        None
    }
}

/// Load default ignore patterns
pub fn load_ignore_patterns() -> (r: IgnorePatterns)
    ensures
        r.exacts() == spec_default_patterns().filter(|p: Seq<char>| !spec_is_glob(p)),
        forall|a: int| 0 <= a < r.globs().len() ==> glob_from_defaults(#[trigger] r.globs()[a]),
        forall|i: int|
            0 <= i < spec_default_patterns().len() && spec_is_glob(
                #[trigger] spec_default_patterns()[i],
            ) && regex_compiles(spec_glob_regex(spec_default_patterns()[i])) ==> has_glob(
                r.globs(),
                spec_glob_regex(spec_default_patterns()[i]),
            ),
{
    let mut pats: Vec<String> = Vec::new();
    pats.push(String::from_str("node_modules"));
    pats.push(String::from_str(".git"));
    pats.push(String::from_str("dist"));
    pats.push(String::from_str("build"));
    pats.push(String::from_str("target"));
    pats.push(String::from_str(".next"));
    pats.push(String::from_str(".nuxt"));
    pats.push(String::from_str(".cache"));
    pats.push(String::from_str("coverage"));
    pats.push(String::from_str(".idea"));
    pats.push(String::from_str(".vscode"));
    pats.push(String::from_str(".DS_Store"));
    pats.push(String::from_str("*.log"));
    pats.push(String::from_str("__tests__"));
    pats.push(String::from_str("tests"));
    pats.push(String::from_str("test"));
    pats.push(String::from_str("*.test.js"));
    pats.push(String::from_str("*.test.jsx"));
    pats.push(String::from_str("*.test.ts"));
    pats.push(String::from_str("*.test.tsx"));
    pats.push(String::from_str("*.spec.js"));
    pats.push(String::from_str("*.spec.jsx"));
    pats.push(String::from_str("*.spec.ts"));
    pats.push(String::from_str("*.spec.tsx"));
    pats.push(String::from_str("*.snap"));
    proof {
        assert(views(pats@) =~= spec_default_patterns());
    }
    let ghost dft = spec_default_patterns();
    let mut exact_matches: Vec<String> = Vec::new();
    let mut glob_regexes: Vec<CompiledRegex> = Vec::new();
    let n = pats.len();
    let mut i: usize = 0;
    while i < n
        invariant
            n == pats@.len(),
            i <= n,
            views(pats@) == dft,
            dft == spec_default_patterns(),
            views(exact_matches@) == dft.subrange(0, i as int).filter(
                |p: Seq<char>| !spec_is_glob(p),
            ),
            forall|a: int|
                0 <= a < glob_regexes@.len() ==> glob_from_defaults(
                    (#[trigger] glob_regexes@[a]).pattern_view(),
                ),
            forall|ii: int|
                0 <= ii < i && spec_is_glob(#[trigger] dft[ii]) && regex_compiles(
                    spec_glob_regex(dft[ii]),
                ) ==> has_glob(
                    glob_regexes@.map_values(|c: CompiledRegex| c.pattern_view()),
                    spec_glob_regex(dft[ii]),
                ),
        decreases n - i,
    {
        let ghost pre = dft.subrange(0, i as int);
        proof {
            reveal(Seq::filter);
            assert(dft.subrange(0, i + 1 as int).drop_last() =~= pre);
            assert(dft.subrange(0, i + 1 as int).last() == pats@[i as int]@);
        }
        if has_star(pats[i].as_str()) {
            let chars = glob_regex(pats[i].as_str());
            let ghost g_pre = glob_regexes@;
            match CompiledRegex::compile(chars) {
                Some(re) => {
                    glob_regexes.push(re);
                    proof {
                        assert(glob_regexes@[glob_regexes@.len() - 1].pattern_view()
                            == spec_glob_regex(dft[i as int]));
                        assert(glob_from_defaults(
                            glob_regexes@[glob_regexes@.len() - 1].pattern_view(),
                        ));
                        assert forall|ii: int|
                            0 <= ii < i + 1 && spec_is_glob(#[trigger] dft[ii]) && regex_compiles(
                                spec_glob_regex(dft[ii]),
                            ) implies has_glob(
                            glob_regexes@.map_values(|c: CompiledRegex| c.pattern_view()),
                            spec_glob_regex(dft[ii]),
                        ) by {
                            if ii < i as int {
                                let gv = g_pre.map_values(
                                    |c: CompiledRegex| c.pattern_view(),
                                );
                                let a = choose|a: int|
                                    0 <= a < gv.len() && #[trigger] gv[a] == spec_glob_regex(
                                        dft[ii],
                                    );
                                assert(glob_regexes@.map_values(
                                    |c: CompiledRegex| c.pattern_view(),
                                )[a] == spec_glob_regex(dft[ii]));
                            } else {
                                assert(glob_regexes@.map_values(
                                    |c: CompiledRegex| c.pattern_view(),
                                )[glob_regexes@.len() - 1] == spec_glob_regex(dft[ii]));
                            }
                        }
                    }
                },
                None => {},
            }
        } else {
            exact_matches.push(pats[i].clone());
            proof {
                assert(views(exact_matches@) =~= pre.filter(|p: Seq<char>| !spec_is_glob(p)).push(
                    pats@[i as int]@,
                ));
            }
        }
        i = i + 1;
    }
    proof {
        assert(dft.subrange(0, n as int) =~= dft);
    }
    IgnorePatterns { exact_matches, glob_regexes }
}

} // verus!
