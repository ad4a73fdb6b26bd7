//! Keeping secret files out of version control: the entries of an ignore
//! file, and the search for the repository that it belongs to.

use crate::text::{chars_of, lines, split_lines, string_of, trim, trimmed};
use vstd::prelude::*;
use vstd::string::StringExecFns;

verus! {

/// The entries of an ignore file: its lines, each without the whitespace
/// around it.
pub open spec fn entries(content: Seq<char>) -> Seq<Seq<char>> {
    lines(content).map_values(|line: Seq<char>| trimmed(line))
}

/// The characters of each string in `strings`.
pub open spec fn line_views(strings: Seq<String>) -> Seq<Seq<char>> {
    Seq::new(strings.len(), |i: int| strings[i]@)
}

/// The characters of each name in `files`.
pub open spec fn names(files: Seq<&str>) -> Seq<Seq<char>> {
    Seq::new(files.len(), |i: int| files[i]@)
}

/// `existing` with `file` at its end, unless it holds `file` already.
pub open spec fn with_file(existing: Seq<Seq<char>>, file: Seq<char>) -> Seq<Seq<char>> {
    if existing.contains(file) {
        existing
    } else {
        existing.push(file)
    }
}

/// `existing` with each of `files` added in turn, unless it is there by
/// then.
pub open spec fn with_files(existing: Seq<Seq<char>>, files: Seq<Seq<char>>) -> Seq<Seq<char>>
    decreases files.len(),
{
    if files.len() == 0 {
        existing
    } else {
        with_file(with_files(existing, files.drop_last()), files.last())
    }
}

/// `entries` with a line feed between each two.
pub open spec fn joined(entries: Seq<Seq<char>>) -> Seq<char>
    decreases entries.len(),
{
    if entries.len() == 0 {
        Seq::empty()
    } else if entries.len() == 1 {
        entries[0]
    } else {
        joined(entries.drop_last()) + seq!['\n'] + entries.last()
    }
}

/// The content of an ignore file that holds `entries`: they are joined
/// by line feeds, and one more line feed ends the file.
pub open spec fn rendered(entries: Seq<Seq<char>>) -> Seq<char> {
    joined(entries) + seq!['\n']
}

/// The first index at which `flags` is true.
pub open spec fn first_set(flags: Seq<bool>, i: int) -> bool {
    &&& 0 <= i < flags.len()
    &&& flags[i]
    &&& forall|j: int| 0 <= j < i ==> !#[trigger] flags[j]
}

/// Whether `existing` holds an entry equal to `file`.
fn holds(existing: &Vec<String>, file: &String) -> (found: bool)
    ensures
        found == line_views(existing@).contains(file@),
{
    let ghost views = line_views(existing@);
    let mut i: usize = 0;
    while i < existing.len()
        invariant
            i <= existing@.len(),
            views == line_views(existing@),
            forall|j: int| 0 <= j < i ==> #[trigger] views[j] != file@,
        decreases existing@.len() - i,
    {
        if existing[i] == *file {
            assert(views[i as int] == file@);
            return true;
        }
        i += 1;
    }
    false
}

/// The content of an ignore file after `files` were added to it.
///
/// The lines of `content` stay, in their order and without the
/// whitespace around them. Each of `files` that is no entry yet is
/// added at the end. The result ends with a line feed.
pub fn add_files_to_gitignore(content: &str, files: &[&str]) -> (out: String)
    ensures
        out@ == rendered(with_files(entries(content@), names(files@))),
{
    let chars = chars_of(content);
    let raw = split_lines(chars.as_slice());
    let mut existing: Vec<String> = Vec::new();
    let mut i: usize = 0;
    while i < raw.len()
        invariant
            i <= raw@.len(),
            raw@.len() == lines(content@).len(),
            forall|k: int| 0 <= k < raw@.len() ==> (#[trigger] raw@[k])@ == lines(content@)[k],
            existing@.len() == i,
            forall|k: int| 0 <= k < i ==> (#[trigger] existing@[k])@ == trimmed(lines(content@)[k]),
        decreases raw@.len() - i,
    {
        let kept = trim(raw[i].as_slice());
        existing.push(string_of(kept));
        i += 1;
    }
    assert(line_views(existing@) == entries(content@));
    let mut k: usize = 0;
    assert(names(files@).take(0) == Seq::<Seq<char>>::empty());
    while k < files.len()
        invariant
            k <= files@.len(),
            line_views(existing@) == with_files(entries(content@), names(files@).take(k as int)),
        decreases files@.len() - k,
    {
        let file = files[k].to_owned();
        proof {
            let done = names(files@).take(k as int);
            let next = names(files@).take(k + 1);
            assert(next.drop_last() == done);
            assert(next.last() == file@);
        }
        if !holds(&existing, &file) {
            let ghost before = existing@;
            existing.push(file);
            assert(line_views(existing@) == line_views(before).push(file@));
        }
        k += 1;
    }
    assert(names(files@).take(files@.len() as int) == names(files@));
    let ghost all = line_views(existing@);
    let mut out = String::new();
    let mut j: usize = 0;
    while j < existing.len()
        invariant
            j <= existing@.len(),
            all == line_views(existing@),
            out@ == joined(all.take(j as int)),
        decreases existing@.len() - j,
    {
        proof {
            let next = all.take(j + 1);
            assert(next.drop_last() == all.take(j as int));
            assert(next.last() == existing@[j as int]@);
            assert(next.len() == 1 ==> next[0] == next.last());
        }
        if j > 0 {
            out.push('\n');
        }
        out.append(existing[j].as_str());
        proof {
            if j == 0 {
                assert(Seq::<char>::empty() + existing@[0]@ == existing@[0]@);
            } else {
                assert(joined(all.take(j as int)).push('\n') == joined(all.take(j as int))
                    + seq!['\n']);
            }
        }
        j += 1;
    }
    assert(all.take(existing@.len() as int) == all);
    out.push('\n');
    assert(joined(all).push('\n') == joined(all) + seq!['\n']);
    out
}

/// The content of the ignore file after `files` and the editor's
/// settings directory `.idea` were added to it.
pub fn gitignore(content: &str, files: &[&str]) -> (out: String)
    ensures
        out@ == rendered(with_files(entries(content@), names(files@).push(".idea"@))),
{
    let mut all: Vec<&str> = Vec::new();
    let mut i: usize = 0;
    while i < files.len()
        invariant
            i <= files@.len(),
            all@ == files@.take(i as int),
        decreases files@.len() - i,
    {
        all.push(files[i]);
        assert(files@.take(i + 1) == files@.take(i as int).push(files@[i as int]));
        i += 1;
    }
    assert(files@.take(files@.len() as int) == files@);
    all.push(".idea");
    assert(names(all@) == names(files@).push(".idea"@));
    add_files_to_gitignore(content, all.as_slice())
}

/// The nearest directory that holds a repository.
///
/// `git_dir_in[i]` says whether the `i`-th directory on the way from the
/// current directory up to the root holds a `.git` directory; the
/// current directory is the first. The result is the index of the first
/// that does.
pub fn find_repo(git_dir_in: &[bool]) -> (found: Option<usize>)
    ensures
        match found {
            Some(i) => first_set(git_dir_in@, i as int),
            None => forall|j: int| 0 <= j < git_dir_in@.len() ==> !#[trigger] git_dir_in@[j],
        },
{
    let mut i: usize = 0;
    while i < git_dir_in.len()
        invariant
            i <= git_dir_in@.len(),
            forall|j: int| 0 <= j < i ==> !#[trigger] git_dir_in@[j],
        decreases git_dir_in@.len() - i,
    {
        if git_dir_in[i] {
            return Some(i);
        }
        i += 1;
    }
    None
}

} // verus!
