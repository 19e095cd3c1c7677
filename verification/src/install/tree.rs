//! The plugin's tree of files, and the permissions each of them should have.
//!
//! Shared by the installer, which applies these modes, and the diagnostic,
//! which verifies them. Neither follows symlinks: a link could point anywhere.

use vstd::prelude::*;

use crate::text;

verus! {

/// The permission bits of a mode.
pub fn mode_of(mode: u32) -> (r: u32)
    ensures
        r == mode & 0o7777,
{
    mode & 0o7777
}

/// The permissions a file under the plugin's tree is expected to have.
pub open spec fn wanted_mode(p: Seq<char>) -> u32 {
    if ".service"@.is_suffix_of(p) {
        0o644
    } else if text::occurs(p, "/user/"@) || text::occurs(p, "/admin/"@) || text::occurs(
        p,
        "/reseller/"@,
    ) {
        0o755
    } else if (text::occurs(p, "/scripts/"@) && ".sh"@.is_suffix_of(p)) || text::occurs(
        p,
        "/hooks/"@,
    ) {
        0o755
    } else {
        0o644
    }
}

/// The permissions a file under the plugin's tree is expected to have.
///
/// DirectAdmin executes everything under the access-level directories as a CGI
/// script, so the rule there is the directory and not the extension: the pages
/// carry none.
pub fn expected_mode(p: &str) -> (r: u32)
    ensures
        r == wanted_mode(p@),
{
    if text::ends_with(p, ".service") {
        return 0o644;
    }
    if text::contains(p, "/user/") || text::contains(p, "/admin/") || text::contains(
        p,
        "/reseller/",
    ) {
        return 0o755;
    }
    if (text::contains(p, "/scripts/") && text::ends_with(p, ".sh")) || text::contains(
        p,
        "/hooks/",
    ) {
        return 0o755;
    }
    0o644
}

/// No file of the tree is ever meant to be writable by anybody but its owner,
/// nor to carry a setuid bit.
pub proof fn law_expected_modes_are_plain(p: Seq<char>)
    ensures
        wanted_mode(p) == 0o644 || wanted_mode(p) == 0o755,
{
}

/// Something in a directory, itself and not what it may point at: a link is
/// neither a directory nor a file.
pub enum Entry {
    Dir { path: String, entries: Vec<Entry> },
    File { path: String },
    Other { path: String },
}

/// The files in an entry, at any depth.
pub open spec fn files_of(e: Entry) -> Seq<Seq<char>>
    decreases e,
{
    match e {
        Entry::Dir { path, entries } => files_in(entries@),
        Entry::File { path } => seq![path@],
        Entry::Other { path } => Seq::empty(),
    }
}

/// The files in a directory, at any depth.
pub open spec fn files_in(es: Seq<Entry>) -> Seq<Seq<char>>
    decreases es,
{
    if es.len() == 0 {
        Seq::empty()
    } else {
        files_in(es.drop_last()) + files_of(es.last())
    }
}

/// The directories in an entry, itself first.
pub open spec fn dirs_of(e: Entry) -> Seq<Seq<char>>
    decreases e,
{
    match e {
        Entry::Dir { path, entries } => seq![path@] + dirs_in(entries@),
        Entry::File { path } => Seq::empty(),
        Entry::Other { path } => Seq::empty(),
    }
}

/// The directories in a directory, at any depth.
pub open spec fn dirs_in(es: Seq<Entry>) -> Seq<Seq<char>>
    decreases es,
{
    if es.len() == 0 {
        Seq::empty()
    } else {
        dirs_in(es.drop_last()) + dirs_of(es.last())
    }
}

fn add_files(e: &Entry, out: &mut Vec<String>)
    ensures
        text::views(final(out)@) == text::views(old(out)@) + files_of(*e),
    decreases e,
{
    let ghost before = text::views(out@);
    match e {
        Entry::Dir { path, entries } => {
            let mut i: usize = 0;
            assert(before + files_in(entries@.take(0)) =~= before);
            while i < entries.len()
                invariant
                    e matches Entry::Dir { path: p, entries: es } && es == *entries,
                    i <= entries@.len(),
                    text::views(out@) == before + files_in(entries@.take(i as int)),
                decreases entries@.len() - i,
            {
                assert(entries@.take(i + 1).drop_last() =~= entries@.take(i as int));
                assert(entries@.take(i + 1).last() == entries@[i as int]);
                let ghost so_far = files_in(entries@.take(i as int));
                add_files(&entries[i], out);
                assert(text::views(out@) =~= before + (so_far + files_of(entries@[i as int])));
                i = i + 1;
            }
            assert(entries@.take(i as int) =~= entries@);
        },
        Entry::File { path } => {
            out.push(path.clone());
            assert(text::views(out@) =~= before + files_of(*e));
        },
        Entry::Other { path } => {
            assert(text::views(out@) =~= before + files_of(*e));
        },
    }
}

fn add_dirs(e: &Entry, out: &mut Vec<String>)
    ensures
        text::views(final(out)@) == text::views(old(out)@) + dirs_of(*e),
    decreases e,
{
    let ghost before = text::views(out@);
    match e {
        Entry::Dir { path, entries } => {
            out.push(path.clone());
            let ghost own = seq![path@];
            assert(text::views(out@) =~= before + own);
            let mut i: usize = 0;
            assert(before + (own + dirs_in(entries@.take(0))) =~= before + own);
            while i < entries.len()
                invariant
                    e matches Entry::Dir { path: p, entries: es } && es == *entries,
                    own == seq![path@],
                    i <= entries@.len(),
                    text::views(out@) == before + (own + dirs_in(entries@.take(i as int))),
                decreases entries@.len() - i,
            {
                assert(entries@.take(i + 1).drop_last() =~= entries@.take(i as int));
                assert(entries@.take(i + 1).last() == entries@[i as int]);
                let ghost so_far = dirs_in(entries@.take(i as int));
                add_dirs(&entries[i], out);
                assert(text::views(out@) =~= before + (own + (so_far + dirs_of(
                    entries@[i as int],
                ))));
                i = i + 1;
            }
            assert(entries@.take(i as int) =~= entries@);
        },
        Entry::File { path } => {
            assert(text::views(out@) =~= before + dirs_of(*e));
        },
        Entry::Other { path } => {
            assert(text::views(out@) =~= before + dirs_of(*e));
        },
    }
}

/// Every directory of a tree, the tree itself first.
pub fn walk_dirs(root: &Entry) -> (r: Vec<String>)
    ensures
        text::views(r@) == dirs_of(*root),
{
    let mut out: Vec<String> = Vec::new();
    let ghost before = text::views(out@);
    add_dirs(root, &mut out);
    assert(before + dirs_of(*root) =~= dirs_of(*root));
    out
}

/// Every file of a tree.
pub fn walk(root: &Entry) -> (r: Vec<String>)
    ensures
        text::views(r@) == files_of(*root),
{
    let mut out: Vec<String> = Vec::new();
    let ghost before = text::views(out@);
    add_files(root, &mut out);
    assert(before + files_of(*root) =~= files_of(*root));
    out
}

/// The mode that a file should have: programs, hooks and scripts can be executed,
/// units and everything else cannot.
pub proof fn law_only_programs_are_executable(p: Seq<char>)
    ensures
        ".service"@.is_suffix_of(p) ==> wanted_mode(p) == 420,
        !".service"@.is_suffix_of(p) && (text::occurs(p, "/user/"@) || text::occurs(p, "/admin/"@)
            || text::occurs(p, "/reseller/"@) || text::occurs(p, "/hooks/"@)) ==> wanted_mode(p)
            == 493,
        !".service"@.is_suffix_of(p) && text::occurs(p, "/scripts/"@) && ".sh"@.is_suffix_of(p)
            ==> wanted_mode(p) == 493,
        !text::occurs(p, "/user/"@) && !text::occurs(p, "/admin/"@) && !text::occurs(
            p,
            "/reseller/"@,
        ) && !text::occurs(p, "/hooks/"@) && !text::occurs(p, "/scripts/"@) ==> wanted_mode(p)
            == 420,
        !text::occurs(p, "/user/"@) && !text::occurs(p, "/admin/"@) && !text::occurs(
            p,
            "/reseller/"@,
        ) && !text::occurs(p, "/hooks/"@) && !".sh"@.is_suffix_of(p) ==> wanted_mode(p) == 420,
{
}

/// A file is among the files of a tree, at any depth, and a directory among its
/// directories. What is neither, as a link, is in neither.
pub proof fn law_trees_are_walked_to_the_end(es: Seq<Entry>, e: Entry)
    ensures
        files_in(Seq::empty()).len() == 0,
        dirs_in(Seq::empty()).len() == 0,
        e matches Entry::File { path } ==> files_in(es.push(e)) == files_in(es).push(path@)
            && dirs_in(es.push(e)) == dirs_in(es),
        e matches Entry::Dir { path, entries } ==> files_in(es.push(e)) == files_in(es) + files_in(
            entries@,
        ) && dirs_in(es.push(e)) == dirs_in(es) + (seq![path@] + dirs_in(entries@)),
        e is Other ==> files_in(es.push(e)) == files_in(es) && dirs_in(es.push(e)) == dirs_in(es),
{
    reveal_with_fuel(files_in, 2);
    reveal_with_fuel(files_of, 2);
    reveal_with_fuel(dirs_in, 2);
    reveal_with_fuel(dirs_of, 2);
    assert(es.push(e).drop_last() =~= es);
    match e {
        Entry::File { path } => {
            assert(files_in(es) + seq![path@] =~= files_in(es).push(path@));
            assert(dirs_in(es) + Seq::<Seq<char>>::empty() =~= dirs_in(es));
        },
        Entry::Dir { path, entries } => {},
        Entry::Other { path } => {
            assert(files_in(es) + Seq::<Seq<char>>::empty() =~= files_in(es));
            assert(dirs_in(es) + Seq::<Seq<char>>::empty() =~= dirs_in(es));
        },
    }
}

} // verus!
