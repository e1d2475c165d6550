//! A model of the engine's directory tree: one directory per token path
//! under a configured root, holding the uploaded blobs. The engine decides
//! every creation and removal against this model; the caller mirrors those
//! operations onto the real filesystem.
//!
//! Every removal tolerates "already gone", so cleanup stays safe to re-run
//! after partial completion.

use vstd::prelude::*;

verus! {

/// Some string in `ss` reads `s`.
pub open spec fn contains_str(ss: Seq<String>, s: Seq<char>) -> bool {
    exists|i: int| 0 <= i < ss.len() && (#[trigger] ss[i])@ == s
}

/// Some entry in `es` is the file `name` under `dir`.
pub open spec fn contains_entry(es: Seq<(String, String)>, dir: Seq<char>, name: Seq<char>) -> bool {
    exists|i: int| 0 <= i < es.len() && (#[trigger] es[i]).0@ == dir && es[i].1@ == name
}

/// Pushing a string extends membership by exactly that string.
proof fn lemma_contains_str_push(ss: Seq<String>, x: String, s: Seq<char>)
    ensures
        contains_str(ss.push(x), s) <==> (contains_str(ss, s) || x@ == s),
{
    if contains_str(ss.push(x), s) {
        let i = choose|i: int| 0 <= i < ss.push(x).len() && (#[trigger] ss.push(x)[i])@ == s;
        if i < ss.len() {
            assert(ss[i]@ == s);
        } else {
            assert(x@ == s);
        }
    }
    if contains_str(ss, s) {
        let i = choose|i: int| 0 <= i < ss.len() && (#[trigger] ss[i])@ == s;
        assert(ss.push(x)[i]@ == s);
    }
    if x@ == s {
        assert(ss.push(x)[ss.len() as int]@ == s);
    }
}

/// Pushing an entry extends membership by exactly that entry.
proof fn lemma_contains_entry_push(
    es: Seq<(String, String)>,
    x: (String, String),
    dir: Seq<char>,
    name: Seq<char>,
)
    ensures
        contains_entry(es.push(x), dir, name) <==> (contains_entry(es, dir, name) || (x.0@ == dir
            && x.1@ == name)),
{
    if contains_entry(es.push(x), dir, name) {
        let i = choose|i: int|
            0 <= i < es.push(x).len() && (#[trigger] es.push(x)[i]).0@ == dir && es.push(x)[i].1@
                == name;
        if i < es.len() {
            assert(es[i].0@ == dir && es[i].1@ == name);
        }
    }
    if contains_entry(es, dir, name) {
        let i = choose|i: int|
            0 <= i < es.len() && (#[trigger] es[i]).0@ == dir && es[i].1@ == name;
        assert(es.push(x)[i].0@ == dir && es.push(x)[i].1@ == name);
    }
    if x.0@ == dir && x.1@ == name {
        assert(es.push(x)[es.len() as int].0@ == dir && es.push(x)[es.len() as int].1@ == name);
    }
}

/// The directory tree under the storage root: which token directories
/// exist, and which named files exist inside them.
pub struct Disk {
    dirs: Vec<String>,
    entries: Vec<(String, String)>,
}

impl Disk {
    /// The directories present.
    pub closed spec fn dirs(self) -> Seq<String> {
        self.dirs@
    }

    /// The files present, as (directory, file name) pairs.
    pub closed spec fn entries(self) -> Seq<(String, String)> {
        self.entries@
    }

    /// A directory named `dir` exists.
    pub open spec fn has_dir(self, dir: Seq<char>) -> bool {
        contains_str(self.dirs(), dir)
    }

    /// A file `name` exists under directory `dir`.
    pub open spec fn has_file(self, dir: Seq<char>, name: Seq<char>) -> bool {
        contains_entry(self.entries(), dir, name)
    }

    /// An empty tree.
    pub fn new() -> (r: Disk)
        ensures
            forall|d: Seq<char>| !r.has_dir(d),
            forall|d: Seq<char>, n: Seq<char>| !r.has_file(d, n),
    {
        Disk { dirs: Vec::new(), entries: Vec::new() }
    }

    /// Decides whether directory `dir` exists.
    pub fn dir_exists(&self, dir: &String) -> (r: bool)
        ensures
            r == self.has_dir(dir@),
    {
        let n = self.dirs.len();
        let mut i: usize = 0;
        while i < n
            invariant
                0 <= i <= n,
                n == self.dirs().len(),
                forall|j: int| 0 <= j < i ==> (#[trigger] self.dirs()[j])@ != dir@,
            decreases n - i,
        {
            if self.dirs[i] == *dir {
                assert(self.dirs()[i as int]@ == dir@);
                return true;
            }
            i += 1;
        }
        false
    }

    /// Decides whether file `name` exists under `dir`.
    pub fn file_exists(&self, dir: &String, name: &String) -> (r: bool)
        ensures
            r == self.has_file(dir@, name@),
    {
        let n = self.entries.len();
        let mut i: usize = 0;
        while i < n
            invariant
                0 <= i <= n,
                n == self.entries().len(),
                forall|j: int|
                    0 <= j < i ==> !((#[trigger] self.entries()[j]).0@ == dir@
                        && self.entries()[j].1@ == name@),
            decreases n - i,
        {
            if self.entries[i].0 == *dir && self.entries[i].1 == *name {
                assert(self.entries()[i as int].0@ == dir@ && self.entries()[i as int].1@
                    == name@);
                return true;
            }
            i += 1;
        }
        false
    }

    /// Creates directory `dir` if absent; creating an existing directory is
    /// a no-op.
    pub fn create_dir_all(&mut self, dir: &String)
        ensures
            forall|d: Seq<char>|
                #[trigger] final(self).has_dir(d) <==> (old(self).has_dir(d) || d == dir@),
            forall|d: Seq<char>, n: Seq<char>|
                #[trigger] final(self).has_file(d, n) == old(self).has_file(d, n),
    {
        if !self.dir_exists(dir) {
            let ghost ds0 = self.dirs();
            self.dirs.push(dir.clone());
            proof {
                assert forall|d: Seq<char>| #[trigger]
                    self.has_dir(d) <==> (contains_str(ds0, d) || d == dir@) by {
                    lemma_contains_str_push(ds0, self.dirs().last(), d);
                }
            }
        }
    }

    /// Opens `name` under `dir` for truncate-create-write: afterwards the
    /// file exists (empty or not, the model only tracks presence).
    pub fn write_file(&mut self, dir: &String, name: &String)
        requires
            old(self).has_dir(dir@),
        ensures
            forall|d: Seq<char>, n: Seq<char>|
                #[trigger] final(self).has_file(d, n) <==> (old(self).has_file(d, n) || (d == dir@
                    && n == name@)),
            forall|d: Seq<char>| #[trigger] final(self).has_dir(d) == old(self).has_dir(d),
    {
        if !self.file_exists(dir, name) {
            let ghost es0 = self.entries();
            self.entries.push((dir.clone(), name.clone()));
            proof {
                assert forall|d: Seq<char>, n: Seq<char>| #[trigger]
                    self.has_file(d, n) <==> (contains_entry(es0, d, n) || (d == dir@ && n
                        == name@)) by {
                    lemma_contains_entry_push(es0, self.entries().last(), d, n);
                }
            }
        }
    }

    /// Removes file `name` under `dir`, reporting whether it was there; a
    /// missing file is tolerated (and reported), not an error.
    #[verifier::loop_isolation(false)]
    pub fn remove_file(&mut self, dir: &String, name: &String) -> (r: bool)
        ensures
            r == old(self).has_file(dir@, name@),
            forall|d: Seq<char>, n: Seq<char>|
                #[trigger] final(self).has_file(d, n) <==> (old(self).has_file(d, n) && !(d == dir@
                    && n == name@)),
            forall|d: Seq<char>| #[trigger] final(self).has_dir(d) == old(self).has_dir(d),
    {
        let found = self.file_exists(dir, name);
        let n = self.entries.len();
        let mut kept: Vec<(String, String)> = Vec::new();
        let mut i: usize = 0;
        while i < n
            invariant
                0 <= i <= n,
                n == self.entries().len(),
                *self == *old(self),
                forall|d: Seq<char>, nm: Seq<char>|
                    #[trigger] contains_entry(kept@, d, nm) <==> (contains_entry(
                        self.entries().take(i as int),
                        d,
                        nm,
                    ) && !(d == dir@ && nm == name@)),
            decreases n - i,
        {
            proof {
                assert(self.entries().take(i + 1).drop_last() =~= self.entries().take(i as int));
                assert(self.entries().take(i + 1).last() == self.entries()[i as int]);
            }
            let ghost kept0 = kept@;
            let e = &self.entries[i];
            let matches_target = e.0 == *dir && e.1 == *name;
            if !matches_target {
                kept.push((e.0.clone(), e.1.clone()));
                proof {
                    assert forall|d: Seq<char>, nm: Seq<char>| #[trigger]
                        contains_entry(kept@, d, nm) <==> (contains_entry(
                            self.entries().take(i + 1),
                            d,
                            nm,
                        ) && !(d == dir@ && nm == name@)) by {
                        lemma_contains_entry_push(kept0, kept@.last(), d, nm);
                        lemma_contains_entry_push(
                            self.entries().take(i as int),
                            self.entries()[i as int],
                            d,
                            nm,
                        );
                        assert(self.entries().take(i + 1) =~= self.entries().take(i as int).push(
                            self.entries()[i as int],
                        ));
                    }
                }
            } else {
                proof {
                    assert forall|d: Seq<char>, nm: Seq<char>| #[trigger]
                        contains_entry(kept@, d, nm) <==> (contains_entry(
                            self.entries().take(i + 1),
                            d,
                            nm,
                        ) && !(d == dir@ && nm == name@)) by {
                        lemma_contains_entry_push(
                            self.entries().take(i as int),
                            self.entries()[i as int],
                            d,
                            nm,
                        );
                        assert(self.entries().take(i + 1) =~= self.entries().take(i as int).push(
                            self.entries()[i as int],
                        ));
                    }
                }
            }
            i += 1;
        }
        proof {
            assert(self.entries().take(n as int) =~= self.entries());
        }
        self.entries = kept;
        found
    }

    /// Removes directory `dir` recursively: the directory and every file
    /// under it. A missing directory is not an error.
    #[verifier::loop_isolation(false)]
    pub fn remove_dir_all(&mut self, dir: &String)
        ensures
            forall|d: Seq<char>|
                #[trigger] final(self).has_dir(d) <==> (old(self).has_dir(d) && d != dir@),
            forall|d: Seq<char>, n: Seq<char>|
                #[trigger] final(self).has_file(d, n) <==> (old(self).has_file(d, n) && d != dir@),
    {
        let nd = self.dirs.len();
        let mut kept_dirs: Vec<String> = Vec::new();
        let mut i: usize = 0;
        while i < nd
            invariant
                0 <= i <= nd,
                nd == self.dirs().len(),
                *self == *old(self),
                forall|d: Seq<char>|
                    #[trigger] contains_str(kept_dirs@, d) <==> (contains_str(
                        self.dirs().take(i as int),
                        d,
                    ) && d != dir@),
            decreases nd - i,
        {
            proof {
                assert(self.dirs().take(i + 1).drop_last() =~= self.dirs().take(i as int));
                assert(self.dirs().take(i + 1).last() == self.dirs()[i as int]);
            }
            let ghost kept0 = kept_dirs@;
            if !(self.dirs[i] == *dir) {
                kept_dirs.push(self.dirs[i].clone());
                proof {
                    assert forall|d: Seq<char>| #[trigger]
                        contains_str(kept_dirs@, d) <==> (contains_str(self.dirs().take(i + 1), d)
                            && d != dir@) by {
                        lemma_contains_str_push(kept0, kept_dirs@.last(), d);
                        lemma_contains_str_push(
                            self.dirs().take(i as int),
                            self.dirs()[i as int],
                            d,
                        );
                        assert(self.dirs().take(i + 1) =~= self.dirs().take(i as int).push(
                            self.dirs()[i as int],
                        ));
                    }
                }
            } else {
                proof {
                    assert forall|d: Seq<char>| #[trigger]
                        contains_str(kept_dirs@, d) <==> (contains_str(self.dirs().take(i + 1), d)
                            && d != dir@) by {
                        lemma_contains_str_push(
                            self.dirs().take(i as int),
                            self.dirs()[i as int],
                            d,
                        );
                        assert(self.dirs().take(i + 1) =~= self.dirs().take(i as int).push(
                            self.dirs()[i as int],
                        ));
                    }
                }
            }
            i += 1;
        }
        proof {
            assert(self.dirs().take(nd as int) =~= self.dirs());
        }
        let ne = self.entries.len();
        let mut kept_entries: Vec<(String, String)> = Vec::new();
        let mut j: usize = 0;
        while j < ne
            invariant
                0 <= j <= ne,
                ne == self.entries().len(),
                *self == *old(self),
                forall|d: Seq<char>, nm: Seq<char>|
                    #[trigger] contains_entry(kept_entries@, d, nm) <==> (contains_entry(
                        self.entries().take(j as int),
                        d,
                        nm,
                    ) && d != dir@),
            decreases ne - j,
        {
            proof {
                assert(self.entries().take(j + 1).drop_last() =~= self.entries().take(j as int));
                assert(self.entries().take(j + 1).last() == self.entries()[j as int]);
            }
            let ghost kept0 = kept_entries@;
            let e = &self.entries[j];
            if !(e.0 == *dir) {
                kept_entries.push((e.0.clone(), e.1.clone()));
                proof {
                    assert forall|d: Seq<char>, nm: Seq<char>| #[trigger]
                        contains_entry(kept_entries@, d, nm) <==> (contains_entry(
                            self.entries().take(j + 1),
                            d,
                            nm,
                        ) && d != dir@) by {
                        lemma_contains_entry_push(kept0, kept_entries@.last(), d, nm);
                        lemma_contains_entry_push(
                            self.entries().take(j as int),
                            self.entries()[j as int],
                            d,
                            nm,
                        );
                        assert(self.entries().take(j + 1) =~= self.entries().take(j as int).push(
                            self.entries()[j as int],
                        ));
                    }
                }
            } else {
                proof {
                    assert forall|d: Seq<char>, nm: Seq<char>| #[trigger]
                        contains_entry(kept_entries@, d, nm) <==> (contains_entry(
                            self.entries().take(j + 1),
                            d,
                            nm,
                        ) && d != dir@) by {
                        lemma_contains_entry_push(
                            self.entries().take(j as int),
                            self.entries()[j as int],
                            d,
                            nm,
                        );
                        assert(self.entries().take(j + 1) =~= self.entries().take(j as int).push(
                            self.entries()[j as int],
                        ));
                    }
                }
            }
            j += 1;
        }
        proof {
            assert(self.entries().take(ne as int) =~= self.entries());
        }
        self.dirs = kept_dirs;
        self.entries = kept_entries;
    }
}

} // verus!
