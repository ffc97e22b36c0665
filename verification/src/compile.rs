//! The include paths that descriptor files are compiled with, as the
//! compiler options tab edits them.
use vstd::prelude::*;

use crate::text::push_str;

verus! {

/// The saved compiler options: the include paths, in order.
#[derive(Debug, Clone, Default)]
pub struct CompileOptions {
    pub includes: Vec<String>,
}

impl CompileOptions {
    /// A copy of the options.
    pub fn duplicate(&self) -> (res: CompileOptions)
        ensures
            res.includes@ == self.includes@,
    {
        let mut includes: Vec<String> = Vec::new();
        let mut i: usize = 0;
        while i < self.includes.len()
            invariant
                i <= self.includes@.len(),
                includes@ == self.includes@.take(i as int),
            decreases self.includes@.len() - i,
        {
            includes.push(self.includes[i].clone());
            proof {
                assert(includes@ =~= self.includes@.take(i + 1));
            }
            i = i + 1;
        }
        proof {
            assert(self.includes@.take(self.includes@.len() as int) =~= self.includes@);
        }
        CompileOptions { includes }
    }
}

/// An include path as typed, whether it is marked for deletion, and what
/// checking it gave: the path, or why it is not a usable directory.
#[derive(Debug)]
pub struct PathEntry {
    pub path: String,
    pub deleted: bool,
    pub result: Result<String, String>,
}

/// The compiler options tab.
#[derive(Debug)]
pub struct CompileTabState {
    pub includes: Vec<PathEntry>,
}

/// What an include path stands for, given what reading its metadata gave:
/// whether it is a directory, or the text of the error.
pub open spec fn spec_validate_include(path: Seq<char>, metadata: Result<bool, Seq<char>>) -> Result<Seq<char>, Seq<char>> {
    match metadata {
        Ok(true) => Ok(path),
        Ok(false) => Err("not a directory"@),
        Err(e) => Err("failed to read metadata: "@ + e),
    }
}

/// Checks an include path from what reading its metadata gave.
pub fn validate_include(path: &str, metadata: Result<bool, String>) -> (res: Result<String, String>)
    ensures
        match res {
            Ok(p) => spec_validate_include(path@, match metadata {
                Ok(d) => Ok(d),
                Err(e) => Err(e@),
            }) == Ok::<Seq<char>, Seq<char>>(p@),
            Err(e) => spec_validate_include(path@, match metadata {
                Ok(d) => Ok(d),
                Err(e) => Err(e@),
            }) == Err::<Seq<char>, Seq<char>>(e@),
        },
{
    match metadata {
        Ok(true) => Ok(path.to_owned()),
        Ok(false) => Err("not a directory".to_owned()),
        Err(e) => {
            let mut text = "failed to read metadata: ".to_owned();
            push_str(&mut text, e.as_str());
            proof {
                reveal_strlit("failed to read metadata: ");
            }
            Err(text)
        },
    }
}

/// An entry of the tab is the checked form of a path.
pub open spec fn entry_checked(e: PathEntry, path: Seq<char>, metadata: Result<bool, String>) -> bool {
    &&& e.path@ == path
    &&& !e.deleted
    &&& match e.result {
        Ok(p) => spec_validate_include(path, match metadata {
            Ok(d) => Ok(d),
            Err(m) => Err(m@),
        }) == Ok::<Seq<char>, Seq<char>>(p@),
        Err(m) => spec_validate_include(path, match metadata {
            Ok(d) => Ok(d),
            Err(x) => Err(x@),
        }) == Err::<Seq<char>, Seq<char>>(m@),
    }
}

impl CompileTabState {
    /// A tab holding `paths`, each with what reading its metadata gave, in
    /// order.
    pub fn new(paths: Vec<(String, Result<bool, String>)>) -> (res: CompileTabState)
        ensures
            res.includes@.len() == paths@.len(),
            forall|i: int|
                0 <= i < paths@.len() ==> entry_checked(#[trigger] res.includes@[i], paths@[i].0@, paths@[i].1),
    {
        let mut tab = CompileTabState { includes: Vec::new() };
        let ghost all = paths@;
        tab.add_paths(paths);
        assert forall|i: int| 0 <= i < all.len() implies entry_checked(
            #[trigger] tab.includes@[i],
            all[i].0@,
            all[i].1,
        ) by {
            assert(tab.includes@[0 + i] == tab.includes@[i]);
        }
        tab
    }

    /// Adds paths after the others, each checked from what reading its
    /// metadata gave.
    pub fn add_paths(&mut self, paths: Vec<(String, Result<bool, String>)>)
        ensures
            final(self).includes@.len() == old(self).includes@.len() + paths@.len(),
            final(self).includes@.take(old(self).includes@.len() as int) == old(self).includes@,
            forall|i: int|
                0 <= i < paths@.len() ==> entry_checked(
                    #[trigger] final(self).includes@[old(self).includes@.len() + i],
                    paths@[i].0@,
                    paths@[i].1,
                ),
    {
        let ghost start = self.includes@;
        let ghost all = paths@;
        let n = paths.len();
        let mut rest = paths;
        let mut i: usize = 0;
        while i < n
            invariant
                n == all.len(),
                i <= n,
                rest@ == all.skip(i as int),
                self.includes@.len() == start.len() + i,
                self.includes@.take(start.len() as int) == start,
                forall|k: int|
                    0 <= k < i ==> entry_checked(#[trigger] self.includes@[start.len() + k], all[k].0@, all[k].1),
            decreases n - i,
        {
            let (path, metadata) = rest.remove(0);
            proof {
                assert((path, metadata) == all[i as int]);
                assert(rest@ =~= all.skip(i + 1));
            }
            let result = validate_include(path.as_str(), metadata);
            let ghost before = self.includes@;
            self.includes.push(PathEntry { path, deleted: false, result });
            proof {
                assert(self.includes@.take(start.len() as int) =~= before.take(start.len() as int));
            }
            i = i + 1;
        }
    }

    /// Drops the paths marked for deletion, keeping the others in order.
    pub fn remove_deleted(&mut self)
        ensures
            final(self).includes@ == old(self).includes@.filter(|e: PathEntry| !e.deleted),
    {
        let mut kept: Vec<PathEntry> = Vec::new();
        let mut i: usize = 0;
        while i < self.includes.len()
            invariant
                i <= self.includes@.len(),
                kept@ == self.includes@.subrange(0, i as int).filter(|e: PathEntry| !e.deleted),
            decreases self.includes@.len() - i,
        {
            proof {
                reveal_with_fuel(Seq::filter, 1);
                assert(self.includes@.subrange(0, i + 1).drop_last() =~= self.includes@.subrange(0, i as int));
            }
            if !self.includes[i].deleted {
                let e = &self.includes[i];
                let result = match &e.result {
                    Ok(p) => Ok(p.clone()),
                    Err(m) => Err(m.clone()),
                };
                kept.push(PathEntry { path: e.path.clone(), deleted: e.deleted, result });
            }
            i = i + 1;
        }
        proof {
            assert(self.includes@.subrange(0, self.includes@.len() as int) =~= self.includes@);
        }
        self.includes = kept;
    }

    /// The options the tab stands for: every path typed, in order.
    pub fn compile_options(&self) -> (res: CompileOptions)
        ensures
            res.includes@.len() == self.includes@.len(),
            forall|i: int| 0 <= i < self.includes@.len() ==> #[trigger] res.includes@[i] == self.includes@[i].path,
    {
        let mut includes: Vec<String> = Vec::new();
        let mut i: usize = 0;
        while i < self.includes.len()
            invariant
                i <= self.includes@.len(),
                includes@.len() == i,
                forall|k: int| 0 <= k < i ==> #[trigger] includes@[k] == self.includes@[k].path,
            decreases self.includes@.len() - i,
        {
            includes.push(self.includes[i].path.clone());
            i = i + 1;
        }
        CompileOptions { includes }
    }
}

} // verus!
