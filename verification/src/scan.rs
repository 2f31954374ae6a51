use vstd::prelude::*;

use crate::record::File;
use crate::record::FileView;

verus! {

/// The traversal failed: a directory of the tree could not be read.
#[derive(Debug)]
pub struct IoError;

/// One entry of a directory snapshot, as the surrounding program reads it
/// from the filesystem: a file with its base name and its creation time in
/// whole seconds since the Unix epoch, or a subdirectory with its own
/// listing. `readable` is false when listing the subdirectory failed;
/// entries whose metadata could not be read are not in the snapshot at all.
pub enum Entry {
    File { name: String, created_secs: u64 },
    Dir { name: String, readable: bool, entries: Vec<Entry> },
}

/// The largest creation time the timestamp formatter accepts:
/// 9999-12-31 23:59:59 UTC, so the year in the formatted text has four
/// digits.
pub const MAX_CREATION_SECS: u64 = 253402300799;

/// What the timestamp formatter returns for a creation time: the text
/// depends on the seconds alone.
pub uninterp spec fn utc_text_of(secs: u64) -> Seq<char>;

/// Relies on chrono's `DateTime::<Utc>::from_timestamp`, which returns
/// `Some` for every in-range number of seconds, and on `DateTime::format`
/// with `%Y-%m-%d %H:%M:%S`, whose text depends on the timestamp alone.
#[verifier::external_body]
fn format_utc(secs: u64) -> (r: String)
    requires
        secs <= MAX_CREATION_SECS,
    ensures
        r@ == utc_text_of(secs),
{
    let t = chrono::DateTime::<chrono::Utc>::from_timestamp(secs as i64, 0).unwrap();
    t.format("%Y-%m-%d %H:%M:%S").to_string()
}

/// The path of an entry under a directory, as pushing a file name onto a
/// path does it: a separator goes between the two unless the directory path
/// is empty or already ends with one.
pub open spec fn join_path(dir: Seq<char>, name: Seq<char>) -> Seq<char> {
    if dir.len() == 0 {
        name
    } else if dir.last() == '/' {
        dir + name
    } else {
        dir + seq!['/'] + name
    }
}

fn join_path_str(dir: &str, name: &str) -> (r: String)
    ensures
        r@ == join_path(dir@, name@),
{
    let n = dir.unicode_len();
    if n == 0 {
        name.to_owned()
    } else if dir.get_char(n - 1) == '/' {
        dir.to_owned().concat(name)
    } else {
        let r = dir.to_owned().concat("/").concat(name);
        proof {
            reveal_strlit("/");
            assert(r@ =~= join_path(dir@, name@));
        }
        r
    }
}

/// The record the traversal builds for a matched file.
pub open spec fn record_view(dir: Seq<char>, name: Seq<char>, secs: u64) -> FileView {
    FileView {
        name: name,
        folder: dir,
        creation_date: utc_text_of(secs),
        path: join_path(dir, name),
    }
}

/// The records of the file entries of one directory listing whose name
/// equals the target, from position `i` on, in listing order.
pub open spec fn file_matches(dir: Seq<char>, entries: Seq<Entry>, target: Seq<char>, i: int) -> Seq<
    FileView,
>
    decreases entries.len() - i,
{
    if i < 0 || i >= entries.len() {
        Seq::empty()
    } else {
        let rest = file_matches(dir, entries, target, i + 1);
        match entries[i] {
            Entry::File { name, created_secs } => {
                if name@ == target {
                    seq![record_view(dir, name@, created_secs)] + rest
                } else {
                    rest
                }
            },
            Entry::Dir { .. } => rest,
        }
    }
}

/// The records of every matched file inside the subdirectories of one
/// listing, from position `i` on: each subdirectory contributes the full
/// result of its own tree, in listing order.
pub open spec fn sub_matches(dir: Seq<char>, entries: Seq<Entry>, target: Seq<char>, i: int) -> Seq<
    FileView,
>
    decreases entries, entries.len() - i,
{
    if i < 0 || i >= entries.len() {
        Seq::empty()
    } else {
        let rest = sub_matches(dir, entries, target, i + 1);
        match entries[i] {
            Entry::Dir { name, entries: sub, .. } => {
                dir_matches(join_path(dir, name@), sub@, target) + rest
            },
            Entry::File { .. } => rest,
        }
    }
}

/// The full traversal result for one directory: the directory's own matched
/// files first, then, depth-first, the results of its subdirectories.
pub open spec fn dir_matches(dir: Seq<char>, entries: Seq<Entry>, target: Seq<char>) -> Seq<
    FileView,
>
    decreases entries, entries.len() + 1,
{
    file_matches(dir, entries, target, 0) + sub_matches(dir, entries, target, 0)
}

/// Every directory of the listing, from position `i` on, can be listed,
/// subdirectories at any depth included.
pub open spec fn all_readable(entries: Seq<Entry>, i: int) -> bool
    decreases entries, entries.len() - i,
{
    if i < 0 || i >= entries.len() {
        true
    } else {
        let rest = all_readable(entries, i + 1);
        match entries[i] {
            Entry::Dir { readable, entries: sub, .. } => {
                readable && all_readable(sub@, 0) && rest
            },
            Entry::File { .. } => rest,
        }
    }
}

/// Every file of the listing, from position `i` on and at any depth, has a
/// creation time the timestamp formatter accepts.
pub open spec fn secs_ok(entries: Seq<Entry>, i: int) -> bool
    decreases entries, entries.len() - i,
{
    if i < 0 || i >= entries.len() {
        true
    } else {
        let rest = secs_ok(entries, i + 1);
        match entries[i] {
            Entry::File { created_secs, .. } => created_secs <= MAX_CREATION_SECS && rest,
            Entry::Dir { entries: sub, .. } => secs_ok(sub@, 0) && rest,
        }
    }
}

/// The abstract values of a sequence of records.
pub open spec fn file_views(s: Seq<File>) -> Seq<FileView> {
    s.map_values(|f: File| f@)
}

/// The record `rv` belongs to some file that lies, at any depth, under the
/// listing `entries` of the directory at `dir`, counting entries from
/// position `i` on.
pub open spec fn tree_has_record(dir: Seq<char>, entries: Seq<Entry>, i: int, rv: FileView) -> bool
    decreases entries, entries.len() - i,
{
    if i < 0 || i >= entries.len() {
        false
    } else {
        let rest = tree_has_record(dir, entries, i + 1, rv);
        match entries[i] {
            Entry::File { name, created_secs } => rv == record_view(dir, name@, created_secs)
                || rest,
            Entry::Dir { name, entries: sub, .. } => tree_has_record(
                join_path(dir, name@),
                sub@,
                0,
                rv,
            ) || rest,
        }
    }
}

proof fn lemma_contains_concat<A>(a: Seq<A>, b: Seq<A>, x: A)
    ensures
        (a + b).contains(x) <==> a.contains(x) || b.contains(x),
{
    if a.contains(x) {
        let j = choose|j: int| 0 <= j < a.len() && a[j] == x;
        assert((a + b)[j] == x);
    }
    if b.contains(x) {
        let j = choose|j: int| 0 <= j < b.len() && b[j] == x;
        assert((a + b)[a.len() + j] == x);
    }
    if (a + b).contains(x) {
        let j = choose|j: int| 0 <= j < (a + b).len() && (a + b)[j] == x;
        if j < a.len() {
            assert(a[j] == x);
        } else {
            assert(b[j - a.len()] == x);
        }
    }
}

proof fn lemma_matches_characterized(
    dir: Seq<char>,
    entries: Seq<Entry>,
    target: Seq<char>,
    i: int,
    rv: FileView,
)
    ensures
        (file_matches(dir, entries, target, i) + sub_matches(dir, entries, target, i)).contains(rv)
            <==> (tree_has_record(dir, entries, i, rv) && rv.name == target),
    decreases entries, entries.len() - i,
{
    let fm = file_matches(dir, entries, target, i);
    let sm = sub_matches(dir, entries, target, i);
    lemma_contains_concat(fm, sm, rv);
    if i < 0 || i >= entries.len() {
        assert(!fm.contains(rv));
        assert(!sm.contains(rv));
    } else {
        let fm1 = file_matches(dir, entries, target, i + 1);
        let sm1 = sub_matches(dir, entries, target, i + 1);
        lemma_matches_characterized(dir, entries, target, i + 1, rv);
        lemma_contains_concat(fm1, sm1, rv);
        match entries[i] {
            Entry::File { name, created_secs } => {
                let rv0 = record_view(dir, name@, created_secs);
                if name@ == target {
                    assert(fm == seq![rv0] + fm1);
                    lemma_contains_concat(seq![rv0], fm1, rv);
                    assert(seq![rv0].contains(rv) <==> rv == rv0) by {
                        if rv == rv0 {
                            assert(seq![rv0][0] == rv);
                        }
                    }
                } else {
                    assert(rv == rv0 ==> rv.name != target);
                }
            },
            Entry::Dir { name, entries: sub, .. } => {
                let joined = join_path(dir, name@);
                let dm = dir_matches(joined, sub@, target);
                lemma_matches_characterized(joined, sub@, target, 0, rv);
                assert(dm == file_matches(joined, sub@, target, 0) + sub_matches(
                    joined,
                    sub@,
                    target,
                    0,
                ));
                assert(sm == dm + sm1);
                lemma_contains_concat(dm, sm1, rv);
            },
        }
    }
}

/// Law: the traversal result holds exactly the records of the files that
/// lie in the tree at any depth and whose name equals the target; files
/// with another name, and directories, contribute nothing.
pub proof fn lemma_scan_finds_exactly_matches(
    dir: Seq<char>,
    entries: Seq<Entry>,
    target: Seq<char>,
    rv: FileView,
)
    ensures
        dir_matches(dir, entries, target).contains(rv) <==> (tree_has_record(dir, entries, 0, rv)
            && rv.name == target),
{
    lemma_matches_characterized(dir, entries, target, 0, rv);
}

/// Law: a tree that holds no file whose name equals the target — an empty
/// listing in particular — yields an empty traversal result.
pub proof fn lemma_scan_empty_when_no_match(dir: Seq<char>, entries: Seq<Entry>, target: Seq<char>)
    requires
        forall|rv: FileView| !(#[trigger] tree_has_record(dir, entries, 0, rv) && rv.name
            == target),
    ensures
        dir_matches(dir, entries, target) == Seq::<FileView>::empty(),
{
    let m = dir_matches(dir, entries, target);
    if m.len() > 0 {
        let rv = m[0];
        assert(m.contains(rv));
        lemma_scan_finds_exactly_matches(dir, entries, target, rv);
    }
    assert(m =~= Seq::<FileView>::empty());
}

/// Law: an empty directory listing yields an empty traversal result.
pub proof fn lemma_scan_empty_listing(dir: Seq<char>, target: Seq<char>)
    ensures
        dir_matches(dir, Seq::<Entry>::empty(), target) == Seq::<FileView>::empty(),
{
    lemma_scan_empty_when_no_match(dir, Seq::<Entry>::empty(), target);
}

/// Walks one directory listing depth first: collects the records of the
/// listing's own matched files in listing order, then appends, for each
/// subdirectory in listing order, the result of its whole tree. Fails if
/// and only if some directory of the tree cannot be listed, and then
/// returns no partial results.
fn scan_dir(path: &str, file_name: &str, entries: &Vec<Entry>) -> (r: Result<Vec<File>, IoError>)
    requires
        secs_ok(entries@, 0),
    ensures
        r is Ok <==> all_readable(entries@, 0),
        r matches Ok(files) ==> file_views(files@) == dir_matches(path@, entries@, file_name@),
    decreases *entries,
{
    let ghost dirv = path@;
    let ghost tgt = file_name@;
    let target = file_name.to_owned();
    let mut result: Vec<File> = Vec::new();
    let n = entries.len();
    let mut i: usize = 0;
    while i < n
        invariant
            n == entries@.len(),
            0 <= i <= n,
            secs_ok(entries@, 0),
            secs_ok(entries@, i as int),
            dirv == path@,
            tgt == file_name@,
            target@ == tgt,
            file_views(result@) + file_matches(dirv, entries@, tgt, i as int) == file_matches(
                dirv,
                entries@,
                tgt,
                0,
            ),
        decreases n - i,
    {
        let ghost pre = result@;
        let e = &entries[i];
        match e {
            Entry::File { name, created_secs } => {
                if name.eq(&target) {
                    let created = format_utc(*created_secs);
                    let full = join_path_str(path, name.as_str());
                    let f = File::new(name.as_str(), path, created.as_str(), full.as_str());
                    result.push(f);
                    proof {
                        let rv = record_view(dirv, name@, *created_secs);
                        assert(f@ == rv);
                        assert(file_views(result@) =~= file_views(pre).push(rv));
                        assert(file_matches(dirv, entries@, tgt, i as int) == seq![rv]
                            + file_matches(dirv, entries@, tgt, i + 1));
                        assert(file_views(result@) + file_matches(dirv, entries@, tgt, i + 1)
                            =~= file_views(pre) + file_matches(dirv, entries@, tgt, i as int));
                    }
                } else {
                    proof {
                        assert(file_matches(dirv, entries@, tgt, i as int) == file_matches(
                            dirv,
                            entries@,
                            tgt,
                            i + 1,
                        ));
                    }
                }
            },
            Entry::Dir { .. } => {
                proof {
                    assert(file_matches(dirv, entries@, tgt, i as int) == file_matches(
                        dirv,
                        entries@,
                        tgt,
                        i + 1,
                    ));
                }
            },
        }
        i = i + 1;
    }
    proof {
        assert(file_matches(dirv, entries@, tgt, n as int) == Seq::<FileView>::empty());
        assert(file_views(result@) + Seq::<FileView>::empty() =~= file_views(result@));
        assert(file_views(result@) == file_matches(dirv, entries@, tgt, 0));
    }
    let mut j: usize = 0;
    while j < n
        invariant
            n == entries@.len(),
            0 <= j <= n,
            secs_ok(entries@, j as int),
            dirv == path@,
            tgt == file_name@,
            all_readable(entries@, 0) <==> all_readable(entries@, j as int),
            file_views(result@) + sub_matches(dirv, entries@, tgt, j as int) == dir_matches(
                dirv,
                entries@,
                tgt,
            ),
        decreases n - j,
    {
        let ghost pre = result@;
        let e = &entries[j];
        match e {
            Entry::Dir { name, readable, entries: sub } => {
                if !*readable {
                    proof {
                        assert(!all_readable(entries@, j as int));
                    }
                    return Err(IoError);
                }
                let sub_path = join_path_str(path, name.as_str());
                match scan_dir(sub_path.as_str(), file_name, sub) {
                    Ok(mut sub_files) => {
                        let ghost subseq = sub_files@;
                        proof {
                            let subv = dir_matches(join_path(dirv, name@), sub@, tgt);
                            assert(file_views(subseq) == subv);
                            assert(sub_matches(dirv, entries@, tgt, j as int) == subv
                                + sub_matches(dirv, entries@, tgt, j + 1));
                        }
                        result.append(&mut sub_files);
                        proof {
                            assert(file_views(result@) =~= file_views(pre) + file_views(subseq));
                            assert(file_views(result@) + sub_matches(dirv, entries@, tgt, j + 1)
                                =~= file_views(pre) + sub_matches(dirv, entries@, tgt, j as int));
                        }
                    },
                    Err(_) => {
                        proof {
                            assert(!all_readable(sub@, 0));
                            assert(!all_readable(entries@, j as int));
                        }
                        return Err(IoError);
                    },
                }
            },
            Entry::File { .. } => {
                proof {
                    assert(sub_matches(dirv, entries@, tgt, j as int) == sub_matches(
                        dirv,
                        entries@,
                        tgt,
                        j + 1,
                    ));
                }
            },
        }
        j = j + 1;
    }
    proof {
        assert(all_readable(entries@, n as int));
        assert(sub_matches(dirv, entries@, tgt, n as int) == Seq::<FileView>::empty());
        assert(file_views(result@) + Seq::<FileView>::empty() =~= file_views(result@));
    }
    Ok(result)
}

/// Recursively traverses the directory snapshot rooted at `root`, which the
/// surrounding program read from the path `path`, and gathers a record for
/// every file at any depth whose base name equals `file_name` exactly:
/// depth-first, a directory's own matches before its subdirectories'.
/// Fails if and only if the root is not a listable directory or some
/// directory below it cannot be listed, and then returns no records at all.
pub fn get_dir_files(path: &str, file_name: &str, root: &Entry) -> (r: Result<Vec<File>, IoError>)
    requires
        *root matches Entry::Dir { entries, .. } ==> secs_ok(entries@, 0),
    ensures
        r is Ok <==> (*root matches Entry::Dir { readable, entries, .. } && readable
            && all_readable(entries@, 0)),
        r matches Ok(files) ==> (*root matches Entry::Dir { entries, .. } && file_views(files@)
            == dir_matches(path@, entries@, file_name@)),
{
    match root {
        Entry::File { .. } => Err(IoError),
        Entry::Dir { readable, entries, .. } => {
            if !*readable {
                Err(IoError)
            } else {
                scan_dir(path, file_name, entries)
            }
        },
    }
}

} // verus!
