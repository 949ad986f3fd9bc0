//! Plugin directories read entry by entry: a tree embedded in the program, or
//! a directory on disk, each top-level folder and archive giving the plugin
//! files it holds.
use vstd::prelude::*;
use crate::archive::{archive, archive_partial};
use crate::errors::{PluginError, Result};
use crate::find::{
    get_ext, get_type, is_archive, is_file, is_supported, scan_archive_exts, scan_exts,
    scan_file_exts, scan_supported, FindType,
};
use crate::text::{
    file_name, first_suffix, lemma_first_suffix_concat, path_file_name, replace_all, replace_str,
    str_eq, str_starts_with,
};
use crate::unpack::{entries_view, entries_view_data, opt_bytes_view, EntryView, RawEntry};

verus! {

broadcast use vstd::string::group_string_axioms;

/// An entry under a top-level folder of a plugin directory: for an embedded
/// tree, one directly inside the folder; for a directory on disk, one of
/// those a recursive walk of the folder lists, the folder itself included.
pub struct DirItem {
    pub path: String,
    pub is_dir: bool,
    /// The contents of a file; empty for a folder.
    pub contents: Vec<u8>,
}

/// A top-level entry of a plugin directory, with the contents of a file and
/// the entries under a folder.
pub struct TopItem {
    pub path: String,
    pub is_dir: bool,
    pub contents: Vec<u8>,
    pub inner: Vec<DirItem>,
}

/// A plugin file found in a plugin directory.
#[derive(Debug)]
pub struct SourceRes {
    /// The top-level folder or archive that holds the file.
    pub entry: String,
    /// The file's path.
    pub search: String,
    /// Whether the file was found inside an archive.
    pub archive: bool,
    /// The extension of that archive.
    pub archive_ext: Option<String>,
    /// The file's extension.
    pub ext: String,
    /// `embed` or `static`.
    pub scheme: &'static str,
    /// The file's contents, when they were asked for.
    pub data: Option<Vec<u8>>,
}

/// The view of a found file: entry, search, archive flag, archive extension,
/// extension, scheme and contents.
pub type ResView = (
    Seq<char>,
    Seq<char>,
    bool,
    Option<Seq<char>>,
    Seq<char>,
    Seq<char>,
    Option<Seq<u8>>,
);

impl View for SourceRes {
    type V = ResView;

    open spec fn view(&self) -> ResView {
        (
            self.entry@,
            self.search@,
            self.archive,
            crate::weburl::opt_str_view(self.archive_ext),
            self.ext@,
            self.scheme@,
            opt_bytes_view(self.data),
        )
    }
}

pub open spec fn res_view(v: Seq<SourceRes>) -> Seq<ResView> {
    v.map_values(|r: SourceRes| r@)
}

/// Whether every found file of `v` carries its contents exactly when `read`.
pub open spec fn res_data(v: Seq<SourceRes>, read: bool) -> bool {
    forall|i: int| 0 <= i < v.len() ==> ((#[trigger] v[i]).data is Some <==> read)
}

/// The extension that a found path is given: the first file or archive
/// extension that ends it.
pub open spec fn found_ext(p: Seq<char>) -> Seq<char> {
    first_suffix(scan_exts(), p)->0
}

pub open spec fn scheme_name(embedded: bool) -> Seq<char> {
    if embedded {
        "embed"@
    } else {
        "static"@
    }
}

/// A plain file found under top-level folder `entry`.
pub open spec fn file_res(
    entry: Seq<char>,
    search: Seq<char>,
    embedded: bool,
    read: bool,
    data: Seq<u8>,
) -> ResView {
    (
        entry,
        search,
        false,
        None,
        found_ext(search),
        scheme_name(embedded),
        if read {
            Some(data)
        } else {
            None
        },
    )
}

/// A member of archive `entry` with extension `aext`.
pub open spec fn member_res(entry: Seq<char>, aext: Seq<char>, embedded: bool, m: EntryView) -> ResView {
    (entry, m.0, true, Some(aext), found_ext(m.0), scheme_name(embedded), m.1)
}

/// Whether an entry inside an embedded top-level folder can be read: its
/// name has no supported extension, or it is a file whose path ends with a
/// file or archive extension.
pub open spec fn embed_inner_ok(c: DirItem) -> bool {
    let p = c.path@;
    !scan_supported(p) || (!c.is_dir && (first_suffix(scan_file_exts(), p) is Some || first_suffix(
        scan_archive_exts(),
        p,
    ) is Some))
}

/// The files found directly inside embedded top-level folder `top`: those
/// whose names have a supported extension.
pub open spec fn embed_inner_res(top: Seq<char>, inner: Seq<DirItem>, read: bool) -> Seq<ResView> {
    inner.filter(|c: DirItem| scan_supported(c.path@)).map_values(
        |c: DirItem| file_res(top, c.path@, true, read, c.contents@),
    )
}

/// The path of `p` with every occurrence of the top-level folder's path `top`
/// taken out.
pub open spec fn without_top(top: Seq<char>, p: Seq<char>) -> Seq<char> {
    replace_all(p, top, Seq::empty())
}

/// Whether an entry that the walk of top-level folder `top` on disk lists can
/// be read: a folder is passed over; for a file, what is left of its path
/// without `top` starts with `\`, and after it ends with a supported
/// extension.
pub open spec fn static_inner_ok(top: Seq<char>, c: DirItem) -> bool {
    c.is_dir || (seq!['\\'].is_prefix_of(without_top(top, c.path@)) && first_suffix(
        scan_exts(),
        without_top(top, c.path@).skip(1),
    ) is Some)
}

/// The files that the walk of top-level folder `top` on disk lists, each
/// searched by its path without `top` and the `\` after it.
pub open spec fn static_inner_res(top: Seq<char>, inner: Seq<DirItem>, read: bool) -> Seq<ResView> {
    inner.filter(|c: DirItem| !c.is_dir).map_values(
        |c: DirItem| file_res(top, without_top(top, c.path@).skip(1), false, read, c.contents@),
    )
}

/// Whether a top-level entry can be read: a folder (a name without a
/// supported extension) whose entries can be read, and which is a folder
/// indeed when embedded; a file with a file extension; or an archive, a file
/// when embedded, each of whose members handed on ends with a supported
/// extension.
pub open spec fn top_ok(t: TopItem, embedded: bool, read: bool) -> bool {
    let p = t.path@;
    if !scan_supported(p) {
        if embedded {
            t.is_dir && forall|i: int|
                0 <= i < t.inner@.len() ==> embed_inner_ok(#[trigger] t.inner@[i])
        } else {
            forall|i: int| 0 <= i < t.inner@.len() ==> static_inner_ok(p, #[trigger] t.inner@[i])
        }
    } else if first_suffix(scan_file_exts(), p) is Some {
        true
    } else if first_suffix(scan_archive_exts(), p) is Some {
        let l = archive_partial(first_suffix(scan_archive_exts(), p)->0, read, t.contents@).0;
        &&& embedded ==> !t.is_dir
        &&& forall|i: int| 0 <= i < l.len() ==> first_suffix(scan_exts(), (#[trigger] l[i]).0) is Some
    } else {
        false
    }
}

/// The files that a top-level entry hands on, and whether its read went to
/// its end: a folder its files, a script file nothing, an archive its members
/// up to where its read stops.
pub open spec fn top_partial(t: TopItem, embedded: bool, read: bool) -> (Seq<ResView>, bool) {
    let p = t.path@;
    if !scan_supported(p) {
        (
            if embedded {
                embed_inner_res(p, t.inner@, read)
            } else {
                static_inner_res(p, t.inner@, read)
            },
            true,
        )
    } else if first_suffix(scan_file_exts(), p) is Some {
        (Seq::empty(), true)
    } else {
        let ae = first_suffix(scan_archive_exts(), p)->0;
        let l = archive_partial(ae, read, t.contents@);
        (l.0.map_values(|m: EntryView| member_res(p, ae, embedded, m)), l.1)
    }
}

/// The files that `tops` hand on, in order, and whether every read went to
/// its end; the first archive whose read stops ends the whole read.
pub open spec fn tops_partial(tops: Seq<TopItem>, embedded: bool, read: bool) -> (Seq<ResView>, bool)
    decreases tops.len(),
{
    if tops.len() == 0 {
        (Seq::empty(), true)
    } else {
        let a = tops_partial(tops.drop_last(), embedded, read);
        if !a.1 {
            a
        } else {
            let b = top_partial(tops.last(), embedded, read);
            (a.0 + b.0, b.1)
        }
    }
}

/// The files that `tops` give, where every read goes to its end.
pub open spec fn tops_res(tops: Seq<TopItem>, embedded: bool, read: bool) -> Option<Seq<ResView>> {
    let x = tops_partial(tops, embedded, read);
    if x.1 {
        Some(x.0)
    } else {
        None
    }
}

/// Whether every top-level entry that a read of `tops` reaches can be read:
/// those after the first whose read stops are not reached.
pub open spec fn tops_ok(tops: Seq<TopItem>, embedded: bool, read: bool) -> bool {
    forall|i: int|
        0 <= i < tops.len() && tops_partial(tops.take(i), embedded, read).1 ==> top_ok(
            #[trigger] tops[i],
            embedded,
            read,
        )
}

pub open spec fn res_matches(r: Result<Vec<SourceRes>>, s: Option<Seq<ResView>>, read: bool) -> bool {
    match s {
        Some(v) => r matches Ok(x) && res_view(x@) == v && res_data(x@, read),
        None => r is Err,
    }
}

/// The contents of a file, when asked for.
fn read_data(read: bool, data: &[u8]) -> (r: Option<Vec<u8>>)
    ensures
        opt_bytes_view(r) == (if read {
            Some(data@)
        } else {
            None
        }),
{
    if read {
        Some(vstd::slice::slice_to_vec(data))
    } else {
        None
    }
}

/// Adds the files directly inside embedded top-level folder `top`.
fn embed_inner(top: &str, inner: &Vec<DirItem>, read: bool, out: &mut Vec<SourceRes>)
    requires
        forall|i: int| 0 <= i < inner@.len() ==> embed_inner_ok(#[trigger] inner@[i]),
        res_data(old(out)@, read),
    ensures
        res_view(final(out)@) == res_view(old(out)@) + embed_inner_res(top@, inner@, read),
        res_data(final(out)@, read),
{
    let ghost pred = |c: DirItem| scan_supported(c.path@);
    let ghost f = |c: DirItem| file_res(top@, c.path@, true, read, c.contents@);
    let ghost base = res_view(out@);
    let mut i: usize = 0;
    assert(inner@.take(0).filter(pred) =~= Seq::<DirItem>::empty());
    assert(base + Seq::<ResView>::empty() =~= base);
    while i < inner.len()
        invariant
            i <= inner@.len(),
            forall|j: int| 0 <= j < inner@.len() ==> embed_inner_ok(#[trigger] inner@[j]),
            pred == (|c: DirItem| scan_supported(c.path@)),
            f == (|c: DirItem| file_res(top@, c.path@, true, read, c.contents@)),
            res_view(out@) == base + inner@.take(i as int).filter(pred).map_values(f),
            res_data(out@, read),
        decreases inner.len() - i,
    {
        let c = &inner[i];
        proof {
            reveal_with_fuel(Seq::filter, 1);
            assert(inner@.take(i + 1).drop_last() =~= inner@.take(i as int));
            assert(inner@.take(i + 1).last() == inner@[i as int]);
            assert(embed_inner_ok(inner@[i as int]));
        }
        let ghost before = res_view(out@);
        let t = get_type(c.path.as_str());
        let skip = match t {
            Some(FindType::Folder) => true,
            Some(FindType::Unknown) => true,
            _ => false,
        };
        if !skip {
            proof {
                lemma_first_suffix_concat(scan_file_exts(), scan_archive_exts(), c.path@);
            }
            let ext = get_ext(c.path.as_str()).unwrap();
            out.push(
                SourceRes {
                    entry: top.to_string(),
                    search: c.path.clone(),
                    archive: false,
                    archive_ext: None,
                    ext: ext.to_string(),
                    scheme: "embed",
                    data: read_data(read, c.contents.as_slice()),
                },
            );
            proof {
                reveal_strlit("embed");
                assert(res_view(out@) =~= before.push(f(inner@[i as int])));
                assert(inner@.take(i + 1).filter(pred) =~= inner@.take(i as int).filter(pred).push(
                    inner@[i as int],
                ));
            }
        } else {
            proof {
                assert(inner@.take(i + 1).filter(pred) =~= inner@.take(i as int).filter(pred));
            }
        }
        proof {
            assert(res_view(out@) =~= base + inner@.take(i + 1).filter(pred).map_values(f));
        }
        i = i + 1;
    }
    proof {
        assert(inner@.take(i as int) =~= inner@);
    }
}

/// What is left of `p` without the top-level folder's path `top`.
fn strip_top(top: &str, p: &str) -> (r: String)
    ensures
        r@ == without_top(top@, p@),
{
    proof {
        reveal_strlit("");
        assert(""@ =~= Seq::<char>::empty());
    }
    if top.unicode_len() == 0 {
        p.to_string()
    } else {
        replace_str(p, top, "")
    }
}

/// Adds the files that the walk of top-level folder `top` on disk lists.
fn static_inner(top: &str, inner: &Vec<DirItem>, read: bool, out: &mut Vec<SourceRes>)
    requires
        forall|i: int| 0 <= i < inner@.len() ==> static_inner_ok(top@, #[trigger] inner@[i]),
        res_data(old(out)@, read),
    ensures
        res_view(final(out)@) == res_view(old(out)@) + static_inner_res(top@, inner@, read),
        res_data(final(out)@, read),
{
    let ghost pred = |c: DirItem| !c.is_dir;
    let ghost f = |c: DirItem| file_res(top@, without_top(top@, c.path@).skip(1), false, read, c.contents@);
    let ghost base = res_view(out@);
    let mut i: usize = 0;
    assert(inner@.take(0).filter(pred) =~= Seq::<DirItem>::empty());
    assert(base + Seq::<ResView>::empty() =~= base);
    while i < inner.len()
        invariant
            i <= inner@.len(),
            forall|j: int| 0 <= j < inner@.len() ==> static_inner_ok(top@, #[trigger] inner@[j]),
            pred == (|c: DirItem| !c.is_dir),
            f == (|c: DirItem|
                file_res(top@, without_top(top@, c.path@).skip(1), false, read, c.contents@)),
            res_view(out@) == base + inner@.take(i as int).filter(pred).map_values(f),
            res_data(out@, read),
        decreases inner.len() - i,
    {
        let c = &inner[i];
        proof {
            reveal_with_fuel(Seq::filter, 1);
            assert(inner@.take(i + 1).drop_last() =~= inner@.take(i as int));
            assert(inner@.take(i + 1).last() == inner@[i as int]);
            assert(static_inner_ok(top@, inner@[i as int]));
        }
        let ghost before = res_view(out@);
        if !c.is_dir {
            let rest = strip_top(top, c.path.as_str());
            proof {
                reveal_strlit("\\");
                assert("\\"@ =~= seq!['\\']);
            }
            let starts = str_starts_with(rest.as_str(), "\\");
            assert(starts);
            let search = rest.as_str().substring_char(1, rest.as_str().unicode_len());
            assert(search@ =~= without_top(top@, c.path@).skip(1));
            let ext = get_ext(search).unwrap();
            out.push(
                SourceRes {
                    entry: top.to_string(),
                    search: search.to_string(),
                    archive: false,
                    archive_ext: None,
                    ext: ext.to_string(),
                    scheme: "static",
                    data: read_data(read, c.contents.as_slice()),
                },
            );
            proof {
                reveal_strlit("static");
                assert(res_view(out@) =~= before.push(f(inner@[i as int])));
                assert(inner@.take(i + 1).filter(pred) =~= inner@.take(i as int).filter(pred).push(
                    inner@[i as int],
                ));
            }
        } else {
            proof {
                assert(inner@.take(i + 1).filter(pred) =~= inner@.take(i as int).filter(pred));
            }
        }
        proof {
            assert(res_view(out@) =~= base + inner@.take(i + 1).filter(pred).map_values(f));
        }
        i = i + 1;
    }
    proof {
        assert(inner@.take(i as int) =~= inner@);
    }
}

/// Adds the members of archive `top` with extension `aext`.
fn archive_members(
    top: &str,
    aext: &str,
    embedded: bool,
    members: &Vec<RawEntry>,
    read: bool,
    out: &mut Vec<SourceRes>,
)
    requires
        forall|i: int|
            0 <= i < members@.len() ==> first_suffix(scan_exts(), (#[trigger] members@[i]).0@) is Some,
        entries_view_data(entries_view(members@), read),
        res_data(old(out)@, read),
    ensures
        res_view(final(out)@) == res_view(old(out)@) + entries_view(members@).map_values(
            |m: EntryView| member_res(top@, aext@, embedded, m),
        ),
        res_data(final(out)@, read),
{
    let ghost l = entries_view(members@);
    let ghost f = |m: EntryView| member_res(top@, aext@, embedded, m);
    let ghost base = res_view(out@);
    let scheme: &'static str = if embedded {
        "embed"
    } else {
        "static"
    };
    proof {
        reveal_strlit("embed");
        reveal_strlit("static");
    }
    let mut i: usize = 0;
    assert(base + l.take(0).map_values(f) =~= base);
    while i < members.len()
        invariant
            i <= members@.len(),
            l == entries_view(members@),
            f == (|m: EntryView| member_res(top@, aext@, embedded, m)),
            scheme@ == scheme_name(embedded),
            forall|j: int|
                0 <= j < members@.len() ==> first_suffix(scan_exts(), (#[trigger] members@[j]).0@)
                    is Some,
            entries_view_data(l, read),
            res_view(out@) == base + l.take(i as int).map_values(f),
            res_data(out@, read),
        decreases members.len() - i,
    {
        let (name, data) = (&members[i].0, &members[i].1);
        proof {
            assert(l[i as int] == (name@, opt_bytes_view(*data)));
            assert(first_suffix(scan_exts(), members@[i as int].0@) is Some);
            assert(l[i as int].1 is Some <==> read);
        }
        let ext = get_ext(name.as_str()).unwrap();
        let content = match data {
            Some(b) => Some(vstd::slice::slice_to_vec(b.as_slice())),
            None => None,
        };
        let ghost before = res_view(out@);
        out.push(
            SourceRes {
                entry: top.to_string(),
                search: name.clone(),
                archive: true,
                archive_ext: Some(aext.to_string()),
                ext: ext.to_string(),
                scheme,
                data: content,
            },
        );
        proof {
            assert(res_view(out@) =~= before.push(f(l[i as int])));
            assert(l.take(i + 1).map_values(f) =~= l.take(i as int).map_values(f).push(f(l[i as int])));
            assert(res_view(out@) =~= base + l.take(i + 1).map_values(f));
        }
        i = i + 1;
    }
    proof {
        assert(l.take(i as int) =~= l);
    }
}

/// Adds the files that top-level entry `t` hands on.
fn top_files(t: &TopItem, embedded: bool, read: bool, out: &mut Vec<SourceRes>) -> (r: Result<()>)
    requires
        top_ok(*t, embedded, read),
        res_data(old(out)@, read),
    ensures
        res_data(final(out)@, read),
        res_view(final(out)@) == res_view(old(out)@) + top_partial(*t, embedded, read).0,
        r is Ok <==> top_partial(*t, embedded, read).1,
{
    let p = t.path.as_str();
    match get_type(p) {
        Some(FindType::Folder) => {
            if embedded {
                embed_inner(p, &t.inner, read, out);
            } else {
                static_inner(p, &t.inner, read, out);
            }
            Ok(())
        },
        Some(FindType::Archive(ae)) => {
            let mut members: Vec<RawEntry> = Vec::new();
            let res = archive(ae.as_str(), read, t.contents.as_slice(), &mut members);
            assert(entries_view(members@) =~= archive_partial(ae@, read, t.contents@).0);
            proof {
                let l = entries_view(members@);
                assert forall|i: int| 0 <= i < members@.len() implies first_suffix(
                    scan_exts(),
                    (#[trigger] members@[i]).0@,
                ) is Some by {
                    assert(l[i].0 == members@[i].0@);
                }
            }
            archive_members(p, ae.as_str(), embedded, &members, read, out);
            res
        },
        _ => {
            assert(res_view(out@) =~= res_view(out@) + Seq::<ResView>::empty());
            Ok(())
        },
    }
}

/// Reads the top-level entries of `tops` in order, up to the first whose
/// read stops.
fn tops_files(tops: &Vec<TopItem>, embedded: bool, read: bool, out: &mut Vec<SourceRes>) -> (r:
    Result<()>)
    requires
        tops_ok(tops@, embedded, read),
        res_data(old(out)@, read),
    ensures
        res_data(final(out)@, read),
        res_view(final(out)@) == res_view(old(out)@) + tops_partial(tops@, embedded, read).0,
        r is Ok <==> tops_partial(tops@, embedded, read).1,
{
    let ghost base = res_view(out@);
    let mut i: usize = 0;
    assert(tops@.take(0) =~= Seq::<TopItem>::empty());
    assert(base + Seq::<ResView>::empty() =~= base);
    while i < tops.len()
        invariant
            i <= tops@.len(),
            tops_ok(tops@, embedded, read),
            base == res_view(old(out)@),
            tops_partial(tops@.take(i as int), embedded, read).1,
            res_view(out@) == base + tops_partial(tops@.take(i as int), embedded, read).0,
            res_data(out@, read),
        decreases tops.len() - i,
    {
        proof {
            assert(tops@.take(i + 1).drop_last() =~= tops@.take(i as int));
            assert(tops@.take(i + 1).last() == tops@[i as int]);
            assert(top_ok(tops@[i as int], embedded, read));
        }
        let res = top_files(&tops[i], embedded, read, out);
        proof {
            let a = tops_partial(tops@.take(i as int), embedded, read);
            let b = top_partial(tops@[i as int], embedded, read);
            assert(base + (a.0 + b.0) =~= (base + a.0) + b.0);
            assert(tops_partial(tops@.take(i + 1), embedded, read) == (a.0 + b.0, b.1));
        }
        match res {
            Ok(()) => {},
            Err(e) => {
                proof {
                    lemma_tops_partial_stops(tops@, embedded, read, i as int + 1);
                    assert(tops@.take(tops@.len() as int) =~= tops@);
                    assert(tops_partial(tops@.take(tops@.len() as int), embedded, read)
                        == tops_partial(tops@.take(i + 1), embedded, read));
                }
                return Err(e);
            },
        }
        i = i + 1;
    }
    proof {
        assert(tops@.take(i as int) =~= tops@);
    }
    Ok(())
}

/// Once a read of the first `k` top-level entries stops, reading more of them
/// hands on nothing more.
proof fn lemma_tops_partial_stops(tops: Seq<TopItem>, embedded: bool, read: bool, k: int)
    requires
        0 <= k <= tops.len(),
        !tops_partial(tops.take(k), embedded, read).1,
    ensures
        forall|j: int|
            k <= j <= tops.len() ==> #[trigger] tops_partial(tops.take(j), embedded, read)
                == tops_partial(tops.take(k), embedded, read),
    decreases tops.len() - k,
{
    if k < tops.len() {
        assert(tops.take(k + 1).drop_last() =~= tops.take(k));
        lemma_tops_partial_stops(tops, embedded, read, k + 1);
    }
}

/// A plugin directory: a tree embedded in the program, given by its
/// top-level entries, or a directory on disk, given by its path.
pub enum Source {
    Embed(Vec<TopItem>),
    Static(String),
}

/// The top-level entries that a read of `src` goes through: an embedded
/// tree's own, or `disk`, the listing of a directory on disk.
pub open spec fn source_tops(src: Source, disk: Seq<TopItem>) -> Seq<TopItem> {
    match src {
        Source::Embed(t) => t@,
        Source::Static(_) => disk,
    }
}

/// Whether found file `x` has, as entry and as search, the file names of
/// `entry` and `search`, all four having one.
pub open spec fn names_match(x: ResView, entry: Seq<char>, search: Seq<char>) -> bool {
    &&& path_file_name(x.0) is Some
    &&& path_file_name(x.1) is Some
    &&& path_file_name(x.0) == path_file_name(entry)
    &&& path_file_name(x.1) == path_file_name(search)
}

/// The contents of the last of `v` whose names match; empty where none does.
pub open spec fn last_match(v: Seq<ResView>, entry: Seq<char>, search: Seq<char>) -> Seq<u8>
    decreases v.len(),
{
    if v.len() == 0 {
        Seq::empty()
    } else if names_match(v.last(), entry, search) {
        v.last().6->0
    } else {
        last_match(v.drop_last(), entry, search)
    }
}

/// Whether some of `v` has matching names.
pub open spec fn any_match(v: Seq<ResView>, entry: Seq<char>, search: Seq<char>) -> bool {
    exists|i: int| 0 <= i < v.len() && names_match(#[trigger] v[i], entry, search)
}

/// Whether the file names of `a` and `b` are there and equal.
fn same_name(a: &str, b: &str) -> (r: bool)
    ensures
        r == (path_file_name(a@) is Some && path_file_name(a@) == path_file_name(b@)),
{
    match (file_name(a), file_name(b)) {
        (Some(x), Some(y)) => str_eq(x, y),
        _ => false,
    }
}

/// Whether found file `x` has matching names.
fn res_names_match(x: &SourceRes, entry: &str, search: &str) -> (r: bool)
    ensures
        r == names_match(x@, entry@, search@),
{
    same_name(x.entry.as_str(), entry) && same_name(x.search.as_str(), search)
}

/// Whether the entries inside an embedded top-level folder can be read.
fn embed_inner_check(inner: &Vec<DirItem>) -> (r: bool)
    ensures
        r == forall|i: int| 0 <= i < inner@.len() ==> embed_inner_ok(#[trigger] inner@[i]),
{
    let mut i: usize = 0;
    while i < inner.len()
        invariant
            i <= inner@.len(),
            forall|j: int| 0 <= j < i ==> embed_inner_ok(#[trigger] inner@[j]),
        decreases inner.len() - i,
    {
        let c = &inner[i];
        let p = c.path.as_str();
        let ok = !is_supported(p) || (!c.is_dir && (is_file(p).0 || is_archive(p).0));
        if !ok {
            assert(!embed_inner_ok(inner@[i as int]));
            return false;
        }
        i = i + 1;
    }
    true
}

/// Whether the entries that the walk of top-level folder `top` lists can be
/// read.
fn static_inner_check(top: &str, inner: &Vec<DirItem>) -> (r: bool)
    ensures
        r == forall|i: int| 0 <= i < inner@.len() ==> static_inner_ok(top@, #[trigger] inner@[i]),
{
    proof {
        reveal_strlit("\\");
        assert("\\"@ =~= seq!['\\']);
    }
    let mut i: usize = 0;
    while i < inner.len()
        invariant
            i <= inner@.len(),
            "\\"@ == seq!['\\'],
            forall|j: int| 0 <= j < inner@.len() ==> #[trigger] inner@[j] == inner@[j],
            forall|j: int| 0 <= j < i ==> static_inner_ok(top@, #[trigger] inner@[j]),
        decreases inner.len() - i,
    {
        let c = &inner[i];
        if !c.is_dir {
            let rest = strip_top(top, c.path.as_str());
            if !str_starts_with(rest.as_str(), "\\") {
                assert(!static_inner_ok(top@, inner@[i as int]));
                return false;
            }
            let search = rest.as_str().substring_char(1, rest.as_str().unicode_len());
            assert(search@ =~= without_top(top@, c.path@).skip(1));
            if get_ext(search).is_none() {
                assert(!static_inner_ok(top@, inner@[i as int]));
                return false;
            }
        }
        i = i + 1;
    }
    true
}

/// Whether every member of a listing ends with a supported extension.
fn members_check(members: &Vec<RawEntry>) -> (r: bool)
    ensures
        r == forall|i: int|
            0 <= i < members@.len() ==> first_suffix(scan_exts(), (#[trigger] members@[i]).0@) is Some,
{
    let mut i: usize = 0;
    while i < members.len()
        invariant
            i <= members@.len(),
            forall|j: int|
                0 <= j < i ==> first_suffix(scan_exts(), (#[trigger] members@[j]).0@) is Some,
        decreases members.len() - i,
    {
        if get_ext(members[i].0.as_str()).is_none() {
            return false;
        }
        i = i + 1;
    }
    true
}

/// Whether top-level entry `t` can be read, and, where it can, whether its
/// read goes to its end; an archive is read to check its members.
fn top_check(t: &TopItem, embedded: bool, read: bool) -> (r: (bool, bool))
    ensures
        r.0 == top_ok(*t, embedded, read),
        r.0 ==> r.1 == top_partial(*t, embedded, read).1,
{
    let p = t.path.as_str();
    if !is_supported(p) {
        if embedded {
            (t.is_dir && embed_inner_check(&t.inner), true)
        } else {
            (static_inner_check(p, &t.inner), true)
        }
    } else if is_file(p).0 {
        (true, true)
    } else {
        let (is_arch, ae) = is_archive(p);
        if !is_arch {
            return (false, true);
        }
        if embedded && t.is_dir {
            return (false, true);
        }
        let mut members: Vec<RawEntry> = Vec::new();
        let res = archive(ae, read, t.contents.as_slice(), &mut members);
        assert(entries_view(members@) =~= archive_partial(ae@, read, t.contents@).0);
        let ok = members_check(&members);
        proof {
            let l = entries_view(members@);
            assert forall|i: int| 0 <= i < l.len() implies (#[trigger] l[i]).0 == members@[i].0@ by {}
            if ok {
                assert forall|i: int| 0 <= i < l.len() implies first_suffix(
                    scan_exts(),
                    (#[trigger] l[i]).0,
                ) is Some by {
                    assert(l[i].0 == members@[i].0@);
                }
            } else {
                let k = choose|k: int|
                    0 <= k < members@.len() && !(first_suffix(
                        scan_exts(),
                        (#[trigger] members@[k]).0@,
                    ) is Some);
                assert(l[k].0 == members@[k].0@);
            }
        }
        (ok, res.is_ok())
    }
}

impl Source {
    pub open spec fn embedded(&self) -> bool {
        match self {
            Source::Embed(_) => true,
            Source::Static(_) => false,
        }
    }

    /// Whether a read can go through: each top-level entry can be read.
    pub open spec fn readable(&self, read: bool, disk: Seq<TopItem>) -> bool {
        tops_ok(source_tops(*self, disk), self.embedded(), read)
    }

    /// What a read gives, where it goes to its end.
    pub open spec fn found(&self, read: bool, disk: Seq<TopItem>) -> Option<Seq<ResView>> {
        tops_res(source_tops(*self, disk), self.embedded(), read)
    }

    /// What a read hands on, and whether it goes to its end.
    pub open spec fn handed(&self, read: bool, disk: Seq<TopItem>) -> (Seq<ResView>, bool) {
        tops_partial(source_tops(*self, disk), self.embedded(), read)
    }

    /// Hands every plugin file of this directory, with its contents when
    /// `read`, on to `out`, up to the first archive that cannot be read; a
    /// directory on disk is read as `disk`, the listing of its top-level
    /// entries.
    pub fn read_source(&self, read: bool, disk: &Vec<TopItem>, out: &mut Vec<SourceRes>) -> (r:
        Result<()>)
        requires
            self.readable(read, disk@),
        ensures
            res_view(final(out)@) == res_view(old(out)@) + self.handed(read, disk@).0,
            res_data(final(out)@.skip(old(out)@.len() as int), read),
            r is Ok <==> self.handed(read, disk@).1,
    {
        let mut got: Vec<SourceRes> = Vec::new();
        assert(res_view(got@) =~= Seq::<ResView>::empty());
        let r = match self {
            Source::Embed(tops) => tops_files(tops, true, read, &mut got),
            Source::Static(_) => tops_files(disk, false, read, &mut got),
        };
        let ghost o = out@;
        let ghost g = got@;
        assert(Seq::<ResView>::empty() + self.handed(read, disk@).0 =~= self.handed(read, disk@).0);
        out.append(&mut got);
        proof {
            assert(res_view(out@) =~= res_view(o) + res_view(g));
            assert(out@.skip(o.len() as int) =~= g);
        }
        r
    }

    /// Every plugin file of this directory, where the read goes to its end.
    fn read_whole(&self, read: bool, disk: &Vec<TopItem>) -> (r: Result<Vec<SourceRes>>)
        requires
            self.readable(read, disk@),
        ensures
            res_matches(r, self.found(read, disk@), read),
    {
        let mut all: Vec<SourceRes> = Vec::new();
        let r = self.read_source(read, disk, &mut all);
        proof {
            assert(Seq::<ResView>::empty() + self.handed(read, disk@).0 =~= self.handed(read, disk@).0);
            assert(all@.skip(0) =~= all@);
        }
        match r {
            Ok(()) => Ok(all),
            Err(e) => Err(e),
        }
    }

    /// Whether a read can go through; the archives are read to check them.
    pub fn is_readable(&self, read: bool, disk: &Vec<TopItem>) -> (r: bool)
        ensures
            r == self.readable(read, disk@),
    {
        let tops = match self {
            Source::Embed(t) => t,
            Source::Static(_) => disk,
        };
        let embedded = match self {
            Source::Embed(_) => true,
            Source::Static(_) => false,
        };
        let mut i: usize = 0;
        assert(tops@.take(0) =~= Seq::<TopItem>::empty());
        while i < tops.len()
            invariant
                i <= tops@.len(),
                tops@ == source_tops(*self, disk@),
                embedded == self.embedded(),
                forall|j: int| 0 <= j < i ==> top_ok(#[trigger] tops@[j], embedded, read),
                tops_partial(tops@.take(i as int), embedded, read).1,
            decreases tops.len() - i,
        {
            proof {
                assert(tops@.take(i + 1).drop_last() =~= tops@.take(i as int));
                assert(tops@.take(i + 1).last() == tops@[i as int]);
            }
            let (ok, done) = top_check(&tops[i], embedded, read);
            if !ok {
                return false;
            }
            if !done {
                proof {
                    lemma_tops_partial_stops(tops@, embedded, read, i as int + 1);
                    assert forall|j: int|
                        0 <= j < tops@.len() && tops_partial(tops@.take(j), embedded, read).1
                            implies top_ok(#[trigger] tops@[j], embedded, read) by {
                        if j > i {
                            assert(tops_partial(tops@.take(j), embedded, read) == tops_partial(
                                tops@.take(i as int + 1),
                                embedded,
                                read,
                            ));
                        }
                    }
                }
                return true;
            }
            i = i + 1;
        }
        true
    }

    /// `read_source` where a read can go through; `None`, with `out` as it
    /// was, where it cannot.
    pub fn try_read_source(&self, read: bool, disk: &Vec<TopItem>, out: &mut Vec<SourceRes>) -> (r:
        Option<Result<()>>)
        ensures
            match r {
                Some(x) => {
                    &&& self.readable(read, disk@)
                    &&& res_view(final(out)@) == res_view(old(out)@) + self.handed(read, disk@).0
                    &&& res_data(final(out)@.skip(old(out)@.len() as int), read)
                    &&& (x is Ok <==> self.handed(read, disk@).1)
                },
                None => !self.readable(read, disk@) && final(out)@ == old(out)@,
            },
    {
        if self.is_readable(read, disk) {
            Some(self.read_source(read, disk, out))
        } else {
            None
        }
    }

    /// The contents of the last plugin file whose folder (or archive) and path
    /// have the file names of `entry` and `search`; empty where none has.
    pub fn find(&self, entry: &str, search: &str, disk: &Vec<TopItem>) -> (r: Result<Vec<u8>>)
        requires
            self.readable(true, disk@),
        ensures
            match self.found(true, disk@) {
                Some(v) => r matches Ok(d) && d@ == last_match(v, entry@, search@),
                None => r is Err,
            },
    {
        let all = self.read_whole(true, disk)?;
        let ghost v = res_view(all@);
        let mut data: Vec<u8> = Vec::new();
        let mut i: usize = 0;
        assert(v.take(0) =~= Seq::<ResView>::empty());
        while i < all.len()
            invariant
                i <= all@.len(),
                v == res_view(all@),
                res_data(all@, true),
                data@ == last_match(v.take(i as int), entry@, search@),
            decreases all.len() - i,
        {
            proof {
                assert(v.take(i + 1).drop_last() =~= v.take(i as int));
                assert(v.take(i + 1).last() == v[i as int]);
                assert(v[i as int] == all@[i as int]@);
                assert(all@[i as int].data is Some);
            }
            if res_names_match(&all[i], entry, search) {
                let d = all[i].data.as_ref().unwrap();
                data = vstd::slice::slice_to_vec(d.as_slice());
            }
            i = i + 1;
        }
        proof {
            assert(v.take(i as int) =~= v);
        }
        Ok(data)
    }

    /// Whether some plugin file's folder (or archive) and path have the file
    /// names of `entry` and `search`.
    pub fn exsits(&self, entry: &str, search: &str, disk: &Vec<TopItem>) -> (r: Result<bool>)
        requires
            self.readable(false, disk@),
        ensures
            match self.found(false, disk@) {
                Some(v) => r == Ok::<bool, PluginError>(any_match(v, entry@, search@)),
                None => r is Err,
            },
    {
        let all = self.read_whole(false, disk)?;
        let ghost v = res_view(all@);
        let mut found = false;
        let mut i: usize = 0;
        while i < all.len()
            invariant
                i <= all@.len(),
                v == res_view(all@),
                found == any_match(v.take(i as int), entry@, search@),
            decreases all.len() - i,
        {
            proof {
                assert(v[i as int] == all@[i as int]@);
            }
            let m = res_names_match(&all[i], entry, search);
            proof {
                let t = v.take(i + 1);
                if m {
                    assert(t[i as int] == v[i as int]);
                } else if any_match(t, entry@, search@) {
                    let k = choose|k: int| 0 <= k < t.len() && names_match(#[trigger] t[k], entry@, search@);
                    assert(v.take(i as int)[k] == t[k]);
                }
                if any_match(v.take(i as int), entry@, search@) {
                    let k = choose|k: int|
                        0 <= k < i && names_match(#[trigger] v.take(i as int)[k], entry@, search@);
                    assert(t[k] == v.take(i as int)[k]);
                }
            }
            if m {
                found = true;
            }
            i = i + 1;
        }
        proof {
            assert(v.take(i as int) =~= v);
        }
        Ok(found)
    }

    /// How the directory is reached: `embed` or `static`.
    pub fn scheme(&self) -> (r: &str)
        ensures
            r@ == scheme_name(self.embedded()),
    {
        proof {
            reveal_strlit("embed");
            reveal_strlit("static");
        }
        match self {
            Source::Embed(_) => "embed",
            Source::Static(_) => "static",
        }
    }
}

/// The plugin directories that a reader goes through, in the order added.
pub struct Sources(pub Vec<Source>);

impl Sources {
    pub fn new() -> (r: Sources)
        ensures
            r.0@.len() == 0,
    {
        Sources(Vec::new())
    }

    /// Adds a directory.
    pub fn set(&mut self, source: Source)
        ensures
            final(self).0@ == old(self).0@.push(source),
    {
        self.0.push(source);
    }

    /// `Source::find` on directory `source`.
    pub fn find(&self, source: usize, entry: &str, search: &str, disk: &Vec<TopItem>) -> (r: Result<
        Vec<u8>,
    >)
        requires
            source < self.0@.len(),
            self.0@[source as int].readable(true, disk@),
        ensures
            match self.0@[source as int].found(true, disk@) {
                Some(v) => r matches Ok(d) && d@ == last_match(v, entry@, search@),
                None => r is Err,
            },
    {
        self.0[source].find(entry, search, disk)
    }
}

/// Where no found file matches, `find` gives empty contents; where the last
/// one that matches is found, it gives that one's contents.
pub proof fn lemma_last_match(v: Seq<ResView>, entry: Seq<char>, search: Seq<char>)
    ensures
        !any_match(v, entry, search) ==> last_match(v, entry, search) == Seq::<u8>::empty(),
        v.len() > 0 && names_match(v.last(), entry, search) ==> last_match(v, entry, search)
            == v.last().6->0,
    decreases v.len(),
{
    if v.len() > 0 {
        lemma_last_match(v.drop_last(), entry, search);
        if !any_match(v, entry, search) {
            assert(!names_match(v[v.len() - 1], entry, search));
            if any_match(v.drop_last(), entry, search) {
                let k = choose|k: int|
                    0 <= k < v.drop_last().len() && names_match(#[trigger] v.drop_last()[k], entry, search);
                assert(v[k] == v.drop_last()[k]);
            }
        }
    }
}

} // verus!
