//! The run's options, and the defaulting rule for the source directories.

use vstd::prelude::*;
use crate::search::views;

verus! {

/// The options of one run: where the catalog lives, which directories to
/// search, and the output and removal switches.
pub struct Cli {
    pub translation_path: String,
    pub source_dirs: Vec<String>,
    pub show_stats: bool,
    pub clear_unused: bool,
    pub validate: bool,
    pub show_keys: bool,
}

/// The given directories with empty entries dropped.
pub open spec fn spec_valid_dirs(dirs: Seq<Seq<char>>) -> Seq<Seq<char>> {
    dirs.filter(|d: Seq<char>| d.len() != 0)
}

impl Cli {
    /// The source directories to search: the given ones with empty entries
    /// dropped, or the current directory alone when none remain.
    pub fn validate_source_dirs(&self) -> (r: Vec<String>)
        ensures
            spec_valid_dirs(views(self.source_dirs@)).len() == 0 ==> r@.len() == 1 && r@[0]@
                == "."@,
            spec_valid_dirs(views(self.source_dirs@)).len() != 0 ==> views(r@) == spec_valid_dirs(
                views(self.source_dirs@),
            ),
    {
        let mut valid: Vec<String> = Vec::new();
        let n = self.source_dirs.len();
        let mut i: usize = 0;
        while i < n
            invariant
                n == self.source_dirs@.len(),
                i <= n,
                views(valid@) == spec_valid_dirs(views(self.source_dirs@).subrange(0, i as int)),
            decreases n - i,
        {
            let ghost pre = views(self.source_dirs@).subrange(0, i as int);
            proof {
                reveal(Seq::filter);
                assert(views(self.source_dirs@).subrange(0, i + 1 as int).drop_last() =~= pre);
                assert(views(self.source_dirs@).subrange(0, i + 1 as int).last()
                    == self.source_dirs@[i as int]@);
            }
            if !self.source_dirs[i].as_str().is_empty() {
                valid.push(self.source_dirs[i].clone());
                proof {
                    reveal(Seq::filter);
                    assert(views(valid@) =~= pre.filter(|d: Seq<char>| d.len() != 0).push(
                        self.source_dirs@[i as int]@,
                    ));
                }
            }
            i = i + 1;
        }
        proof {
            assert(views(self.source_dirs@).subrange(0, n as int) =~= views(self.source_dirs@));
        }
        if valid.len() == 0 {
            let mut fallback: Vec<String> = Vec::new();
            fallback.push(String::from_str("."));
            fallback
        } else {
            valid
        }
    }
}

} // verus!
