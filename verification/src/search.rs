//! Which files of a directory tree are images to look at: the decisions of
//! the search, made on paths and on what kind of entry each is. Listing
//! the directories is left to the caller.

use vstd::prelude::*;
use vstd::string::*;
use crate::error::Error;
use crate::text::{owned, push_char};

verus! {

/// The lower-case form of an ASCII letter; any other character as it is.
pub open spec fn lower(c: char) -> char {
    if 'A' <= c && c <= 'Z' {
        (((c as u32) + 32) as u8) as char
    } else {
        c
    }
}

/// The two texts are the same but for the case of ASCII letters.
pub open spec fn same_ignoring_case(a: Seq<char>, b: Seq<char>) -> bool {
    &&& a.len() == b.len()
    &&& forall|i: int| 0 <= i < a.len() ==> lower(a[i]) == lower(b[i])
}

/// The position of the last dot in the file name that ends before position
/// `end`: the search goes backwards and stops at a slash.
pub open spec fn last_dot(path: Seq<char>, end: int) -> Option<int>
    decreases end,
{
    if end <= 0 {
        None
    } else if path[end - 1] == '/' {
        None
    } else if path[end - 1] == '.' {
        Some(end - 1)
    } else {
        last_dot(path, end - 1)
    }
}

/// Where the extension of `path` begins: behind the last dot of the file
/// name, unless the name begins with that dot or has none.
pub open spec fn extension_start(path: Seq<char>) -> Option<int> {
    match last_dot(path, path.len() as int) {
        Some(dot) => if dot > 0 && path[dot - 1] != '/' {
            Some(dot + 1)
        } else {
            None
        },
        None => None,
    }
}

/// The extension of `path`, if it has one.
pub open spec fn spec_extension(path: Seq<char>) -> Option<Seq<char>> {
    match extension_start(path) {
        Some(start) => Some(path.skip(start)),
        None => None,
    }
}

/// Whether `path` has an extension that is one of `exts`, whatever the case
/// of its letters.
pub open spec fn spec_check_ext(path: Seq<char>, exts: Seq<String>) -> bool {
    match spec_extension(path) {
        Some(ext) => exists|i: int| 0 <= i < exts.len() && same_ignoring_case(ext, #[trigger] exts[i]@),
        None => false,
    }
}

fn to_lower(c: char) -> (l: char)
    ensures
        l == lower(c),
{
    if 'A' <= c && c <= 'Z' {
        (((c as u32) + 32) as u8) as char
    } else {
        c
    }
}

/// Where the extension of `path` begins.
pub fn find_extension(path: &str) -> (start: Option<usize>)
    ensures
        start is Some <==> extension_start(path@) is Some,
        start is Some ==> start->0 == extension_start(path@)->0 && start->0 <= path@.len(),
{
    let n: usize = path.unicode_len();
    let mut i: usize = n;
    while i > 0
        invariant
            i <= n,
            n == path@.len(),
            last_dot(path@, n as int) == last_dot(path@, i as int),
        decreases i,
    {
        let c: char = path.get_char(i - 1);
        if c == '/' {
            return None;
        }
        if c == '.' {
            if i - 1 > 0 {
                let before: char = path.get_char(i - 2);
                if before != '/' {
                    return Some(i);
                }
            }
            return None;
        }
        i = i - 1;
    }
    None
}

/// Whether the part of `path` from `from` on is `ext` but for the case of
/// ASCII letters.
fn tail_matches(path: &str, from: usize, ext: &str) -> (same: bool)
    requires
        from <= path@.len(),
    ensures
        same == same_ignoring_case(path@.skip(from as int), ext@),
{
    let n: usize = path.unicode_len();
    let m: usize = ext.unicode_len();
    if n - from != m {
        return false;
    }
    let ghost tail = path@.skip(from as int);
    let mut i: usize = 0;
    while i < m
        invariant
            i <= m,
            m == ext@.len(),
            n == path@.len(),
            from + m == n,
            tail == path@.skip(from as int),
            forall|j: int| 0 <= j < i ==> lower(tail[j]) == lower(ext@[j]),
        decreases m - i,
    {
        let a: char = path.get_char(from + i);
        let b: char = ext.get_char(i);
        proof {
            assert(tail[i as int] == path@[from + i]);
        }
        if to_lower(a) != to_lower(b) {
            return false;
        }
        i = i + 1;
    }
    true
}

/// Whether `file` has an extension that is one of `exts`, whatever the case
/// of its letters. A file without an extension has none of them.
pub fn check_ext(file: &str, exts: &Vec<String>) -> (found: bool)
    ensures
        found == spec_check_ext(file@, exts@),
{
    match find_extension(file) {
        None => false,
        Some(start) => {
            let ghost ext = file@.skip(start as int);
            let mut i: usize = 0;
            while i < exts.len()
                invariant
                    i <= exts@.len(),
                    start <= file@.len(),
                    extension_start(file@) == Some(start as int),
                    ext == file@.skip(start as int),
                    forall|j: int| 0 <= j < i ==> !same_ignoring_case(ext, #[trigger] exts@[j]@),
                decreases exts@.len() - i,
            {
                if tail_matches(file, start, exts[i].as_str()) {
                    proof {
                        assert(same_ignoring_case(ext, exts@[i as int]@));
                    }
                    return true;
                }
                i = i + 1;
            }
            false
        },
    }
}

/// What the search comes upon.
#[derive(Debug)]
pub enum WalkEvent {
    /// A file whose extension is looked for.
    File(String),
    /// A directory that the search is about to enter.
    Dir(String),
    /// A directory or entry that could not be read.
    Error(Error),
}

/// What an entry of a directory is.
#[derive(Debug, Clone, Copy, PartialEq, Eq, Structural)]
pub enum EntryKind {
    File,
    Dir,
    /// A symbolic link to a regular file.
    LinkToFile,
    /// A symbolic link to a directory.
    LinkToDir,
    /// Anything else.
    Other,
}

/// What the search does with an entry.
#[derive(Debug, Clone, Copy, PartialEq, Eq, Structural)]
pub enum WalkStep {
    /// Report the file.
    Yield,
    /// Report the directory and, unless the visitor objects, go into it.
    Descend,
    /// Pass it by.
    Skip,
}

/// The extensions looked for where none are given.
pub fn default_exts() -> (exts: Vec<String>)
    ensures
        exts@.len() == 3,
        exts@[0]@ == "jpg"@,
        exts@[1]@ == "png"@,
        exts@[2]@ == "gif"@,
{
    let mut exts: Vec<String> = Vec::new();
    exts.push(owned("jpg"));
    exts.push(owned("png"));
    exts.push(owned("gif"));
    exts
}

/// Those of `files` that have one of the extensions `exts`, in their
/// order.
pub open spec fn matching(files: Seq<String>, exts: Seq<String>) -> Seq<String>
    decreases files.len(),
{
    if files.len() == 0 {
        Seq::empty()
    } else if spec_check_ext(files.last()@, exts) {
        matching(files.drop_last(), exts).push(files.last())
    } else {
        matching(files.drop_last(), exts)
    }
}

/// Picks from `files` those that have one of the extensions `exts`.
fn filter_files(files: Vec<String>, exts: &Vec<String>) -> (found: Vec<String>)
    ensures
        found@ == matching(files@, exts@),
{
    let mut files = files;
    let ghost all = files@;
    let mut kept: Vec<String> = Vec::new();
    let mut back: Vec<String> = Vec::new();
    // from the end, so that each file is moved, not copied
    while files.len() > 0
        invariant
            files@.len() <= all.len(),
            files@ == all.take(files@.len() as int),
            matching(all, exts@) == matching(files@, exts@) + back@.reverse(),
        decreases files@.len(),
    {
        let ghost before = files@;
        let ghost was = back@;
        match files.pop() {
            Some(file) => {
                proof {
                    assert(files@ =~= before.drop_last());
                    assert(files@ =~= all.take(files@.len() as int));
                }
                if check_ext(file.as_str(), exts) {
                    back.push(file);
                    proof {
                        assert(back@.reverse() =~= seq![file] + was.reverse());
                        assert(matching(before, exts@) + was.reverse() =~= matching(files@, exts@)
                            + back@.reverse());
                    }
                }
            },
            None => {},
        }
    }
    // turn the picked files round again
    proof {
        assert(matching(files@, exts@) =~= Seq::<String>::empty());
        assert(matching(all, exts@) =~= back@.reverse());
    }
    let ghost picked = back@;
    while back.len() > 0
        invariant
            back@.len() <= picked.len(),
            back@ == picked.take(back@.len() as int),
            kept@.len() + back@.len() == picked.len(),
            forall|i: int| 0 <= i < kept@.len() ==> kept@[i] == picked[picked.len() - 1 - i],
        decreases back@.len(),
    {
        match back.pop() {
            Some(file) => {
                kept.push(file);
                proof {
                    assert(back@ =~= picked.take(back@.len() as int));
                }
            },
            None => {},
        }
    }
    proof {
        assert(kept@ =~= picked.reverse());
    }
    kept
}

/// Where to search and what for.
#[derive(Debug)]
pub struct SearchSettings {
    /// The directory to search.
    pub dir: String,
    /// Whether the search visits subdirectories.
    pub recursive: bool,
    /// The extensions to match, without the dot.
    pub exts: Vec<String>,
}

impl Default for SearchSettings {
    fn default() -> (s: SearchSettings)
        ensures
            s.dir@ == "./"@,
            !s.recursive,
            s.exts@.len() == 3,
            s.exts@[0]@ == "jpg"@,
            s.exts@[1]@ == "png"@,
            s.exts@[2]@ == "gif"@,
    {
        SearchSettings { dir: owned("./"), recursive: false, exts: default_exts() }
    }
}

impl SearchSettings {
    /// What the search does with the entry `path` of kind `kind`.
    pub open spec fn spec_step(&self, path: Seq<char>, kind: EntryKind) -> WalkStep {
        match kind {
            EntryKind::Dir => if self.recursive {
                WalkStep::Descend
            } else {
                WalkStep::Skip
            },
            EntryKind::File | EntryKind::LinkToFile => if spec_check_ext(path, self.exts@) {
                WalkStep::Yield
            } else {
                WalkStep::Skip
            },
            EntryKind::LinkToDir | EntryKind::Other => WalkStep::Skip,
        }
    }

    /// Decides what the search does with the entry `path` of kind `kind`:
    /// a directory is entered only in a recursive search, and never through
    /// a symbolic link; a file, or a link to one, is reported when it has
    /// one of the extensions.
    pub fn step(&self, path: &str, kind: EntryKind) -> (todo: WalkStep)
        ensures
            todo == self.spec_step(path@, kind),
    {
        match kind {
            EntryKind::Dir => {
                if self.recursive {
                    WalkStep::Descend
                } else {
                    WalkStep::Skip
                }
            },
            EntryKind::File | EntryKind::LinkToFile => {
                if check_ext(path, &self.exts) {
                    WalkStep::Yield
                } else {
                    WalkStep::Skip
                }
            },
            EntryKind::LinkToDir | EntryKind::Other => WalkStep::Skip,
        }
    }

    /// Of the files `files` that a listing gave, those that the search is
    /// for: the ones with one of the extensions, in their order.
    pub fn search(&self, files: Vec<String>) -> (found: Vec<String>)
        ensures
            found@ == matching(files@, self.exts@),
    {
        filter_files(files, &self.exts)
    }
}

/// A search for image files in one directory, put together step by step.
#[derive(Debug)]
pub struct ImageSearch {
    /// The directory to search.
    pub dir: String,
    /// Whether the search visits subdirectories.
    pub recursive: bool,
    /// The extensions to match.
    pub exts: Vec<String>,
}

impl ImageSearch {
    /// A search of `dir` for the default extensions, not recursive.
    pub fn with_dir(dir: &str) -> (s: ImageSearch)
        ensures
            s.dir@ == dir@,
            !s.recursive,
            s.exts@.len() == 3,
            s.exts@[0]@ == "jpg"@,
            s.exts@[1]@ == "png"@,
            s.exts@[2]@ == "gif"@,
    {
        ImageSearch { dir: owned(dir), recursive: false, exts: default_exts() }
    }

    /// Sets whether the search visits subdirectories.
    pub fn recursive(self, recursive: bool) -> (s: ImageSearch)
        ensures
            s.recursive == recursive,
            s.dir == self.dir,
            s.exts == self.exts,
    {
        ImageSearch { dir: self.dir, recursive, exts: self.exts }
    }

    /// Adds an extension to those looked for.
    pub fn ext(self, ext: &str) -> (s: ImageSearch)
        ensures
            s.exts@.len() == self.exts@.len() + 1,
            s.exts@.last()@ == ext@,
            s.exts@.drop_last() == self.exts@,
            s.recursive == self.recursive,
            s.dir == self.dir,
    {
        let mut exts = self.exts;
        exts.push(owned(ext));
        proof {
            assert(exts@.drop_last() =~= self.exts@);
        }
        ImageSearch { dir: self.dir, recursive: self.recursive, exts }
    }

    /// Adds all of `more` to the extensions looked for.
    pub fn exts(self, more: &Vec<String>) -> (s: ImageSearch)
        ensures
            s.exts@.len() == self.exts@.len() + more@.len(),
            s.exts@.take(self.exts@.len() as int) == self.exts@,
            forall|i: int| 0 <= i < more@.len() ==> s.exts@[self.exts@.len() + i]@ == more@[i]@,
            s.recursive == self.recursive,
            s.dir == self.dir,
    {
        let mut exts = self.exts;
        let ghost start = exts@;
        let mut i: usize = 0;
        while i < more.len()
            invariant
                i <= more@.len(),
                exts@.len() == start.len() + i,
                exts@.take(start.len() as int) == start,
                forall|j: int| 0 <= j < i ==> exts@[start.len() + j]@ == more@[j]@,
            decreases more@.len() - i,
        {
            let ghost was = exts@;
            exts.push(owned(more[i].as_str()));
            proof {
                assert(exts@.take(start.len() as int) =~= was.take(start.len() as int));
            }
            i = i + 1;
        }
        ImageSearch { dir: self.dir, recursive: self.recursive, exts }
    }

    /// Of the files `files` that a listing of the directory gave, those
    /// with one of the extensions, in their order.
    pub fn search(self, files: Vec<String>) -> (found: Vec<String>)
        ensures
            found@ == matching(files@, self.exts@),
    {
        filter_files(files, &self.exts)
    }
}

/// How the search goes on after the visitor has seen an event.
#[derive(Debug, Clone, Copy, PartialEq, Eq, Structural)]
pub enum WalkNext {
    /// On to the next entry of the directory.
    Continue,
    /// Into the directory that was reported.
    Enter,
    /// No further entry of this directory.
    Stop,
}

/// How the search goes on after the step `step`, where the visitor said
/// `go_on` to what was reported: a file that the visitor turns down ends
/// the directory, a directory that it turns down is passed by.
pub open spec fn spec_after_visit(step: WalkStep, go_on: bool) -> WalkNext {
    match step {
        WalkStep::Yield => if go_on {
            WalkNext::Continue
        } else {
            WalkNext::Stop
        },
        WalkStep::Descend => if go_on {
            WalkNext::Enter
        } else {
            WalkNext::Continue
        },
        WalkStep::Skip => WalkNext::Continue,
    }
}

/// How the search goes on after the step `step`, where the visitor said
/// `go_on` to what was reported.
pub fn after_visit(step: WalkStep, go_on: bool) -> (next: WalkNext)
    ensures
        next == spec_after_visit(step, go_on),
{
    match step {
        WalkStep::Yield => {
            if go_on {
                WalkNext::Continue
            } else {
                WalkNext::Stop
            }
        },
        WalkStep::Descend => {
            if go_on {
                WalkNext::Enter
            } else {
                WalkNext::Continue
            }
        },
        WalkStep::Skip => WalkNext::Continue,
    }
}

/// How the search goes on after an entry could not be read and the visitor
/// said `go_on` to the error.
pub fn after_error(go_on: bool) -> (next: WalkNext)
    ensures
        next == if go_on {
            WalkNext::Continue
        } else {
            WalkNext::Stop
        },
{
    if go_on {
        WalkNext::Continue
    } else {
        WalkNext::Stop
    }
}

/// What the visitor is shown for the entry `path` at the step `step`:
/// the file, the directory, or nothing for an entry that is passed by.
pub fn event_for(step: WalkStep, path: String) -> (event: Option<WalkEvent>)
    ensures
        step == WalkStep::Yield ==> event == Some(WalkEvent::File(path)),
        step == WalkStep::Descend ==> event == Some(WalkEvent::Dir(path)),
        step == WalkStep::Skip ==> event is None,
{
    match step {
        WalkStep::Yield => Some(WalkEvent::File(path)),
        WalkStep::Descend => Some(WalkEvent::Dir(path)),
        WalkStep::Skip => None,
    }
}

/// The text `s` with its ASCII letters in lower case.
pub fn lowercase(s: &str) -> (low: String)
    ensures
        low@.len() == s@.len(),
        forall|i: int| 0 <= i < s@.len() ==> low@[i] == lower(s@[i]),
{
    let n: usize = s.unicode_len();
    let mut out: String = String::new();
    let mut i: usize = 0;
    while i < n
        invariant
            i <= n,
            n == s@.len(),
            out@.len() == i,
            forall|j: int| 0 <= j < i ==> out@[j] == lower(s@[j]),
        decreases n - i,
    {
        push_char(&mut out, to_lower(s.get_char(i)));
        i = i + 1;
    }
    out
}

} // verus!
