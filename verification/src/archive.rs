//! Reading the members of an archive held in memory, by archive extension.
use vstd::prelude::*;
use crate::errors::{PluginError, Result};
use crate::text::{str_eq, strip_curdir, strip_curdir_str};
pub use crate::unpack::entries_view_data;
use crate::unpack::{
    entries_view, sevenz_file_names, sevenz_member, sevenz_names, sevenz_read, strings_view,
    tar_gz_list, tar_gz_members, tar_list, tar_members, tar_xz_list, tar_xz_members, zip_file_names,
    zip_find, zip_member, zip_member_found, zip_names, zip_read, EntryView, RawEntry,
};
use crate::utils::{is_some, is_supported_path};

verus! {

/// Whether a member with path `p` is handed on: every member, or, when
/// `filtered`, only those whose file name has a supported extension.
pub open spec fn keeps(filtered: bool, p: Seq<char>) -> bool {
    !filtered || is_supported_path(p)
}

/// What a read that may stop early hands on: the members, in order, and
/// whether the archive was read to its end.
pub open spec fn prepend(front: Seq<EntryView>, rest: (Seq<EntryView>, bool)) -> (Seq<EntryView>, bool) {
    (front + rest.0, rest.1)
}

/// The listing of a read that went to its end, and none of one that stopped.
pub open spec fn complete(l: (Seq<EntryView>, bool)) -> Option<Seq<EntryView>> {
    if l.1 {
        Some(l.0)
    } else {
        None
    }
}

/// Goes through `names` in order, fetching each member's contents and handing
/// on the members that are kept; the first member that cannot be fetched
/// stops the read, after the members before it.
pub open spec fn gather(
    names: Seq<Seq<char>>,
    fetch: spec_fn(Seq<char>) -> Option<Option<Seq<u8>>>,
    filtered: bool,
) -> (Seq<EntryView>, bool)
    decreases names.len(),
{
    if names.len() == 0 {
        (Seq::empty(), true)
    } else {
        match fetch(names[0]) {
            None => (Seq::empty(), false),
            Some(d) => prepend(
                if keeps(filtered, names[0]) {
                    seq![(names[0], d)]
                } else {
                    Seq::empty()
                },
                gather(names.drop_first(), fetch, filtered),
            ),
        }
    }
}

/// A zip member's contents when `read`, and otherwise only the check that the
/// archive has it.
pub open spec fn zip_fetch(data: Seq<u8>, read: bool) -> spec_fn(Seq<char>) -> Option<
    Option<Seq<u8>>,
> {
    |n: Seq<char>|
        if read {
            match zip_member(data, n) {
                Some(d) => Some(Some(d)),
                None => None,
            }
        } else if zip_member_found(data, n) {
            Some(None)
        } else {
            None
        }
}

/// A 7z member's contents when `read`; nothing is asked of the archive
/// otherwise.
pub open spec fn sevenz_fetch(data: Seq<u8>, read: bool) -> spec_fn(Seq<char>) -> Option<
    Option<Seq<u8>>,
> {
    |n: Seq<char>|
        if read {
            match sevenz_member(data, n) {
                Some(d) => Some(Some(d)),
                None => None,
            }
        } else {
            Some(None)
        }
}

/// The members of a zip archive handed on, up to the first that cannot be
/// fetched.
pub open spec fn zip_partial(data: Seq<u8>, read: bool, filtered: bool) -> (Seq<EntryView>, bool) {
    match zip_names(data) {
        Some(names) => gather(names, zip_fetch(data, read), filtered),
        None => (Seq::empty(), false),
    }
}

/// The members of a 7z archive handed on, up to the first that cannot be
/// read.
pub open spec fn sevenz_partial(data: Seq<u8>, read: bool, filtered: bool) -> (Seq<EntryView>, bool) {
    match sevenz_names(data) {
        Some(names) => gather(names, sevenz_fetch(data, read), filtered),
        None => (Seq::empty(), false),
    }
}

/// Tar members in order: each path loses its leading `./` component (a
/// member without one stops the read), members left with an empty path are
/// skipped, and the members that are kept are handed on.
pub open spec fn tar_gather(members: Seq<EntryView>, filtered: bool) -> (Seq<EntryView>, bool)
    decreases members.len(),
{
    if members.len() == 0 {
        (Seq::empty(), true)
    } else {
        match strip_curdir(members[0].0) {
            None => (Seq::empty(), false),
            Some(p) => prepend(
                if p.len() > 0 && keeps(filtered, p) {
                    seq![(p, members[0].1)]
                } else {
                    Seq::empty()
                },
                tar_gather(members.drop_first(), filtered),
            ),
        }
    }
}

/// The members of a tar archive handed on, from the raw members that were
/// read before the archive stopped, if it did.
pub open spec fn tar_partial(raw: (Seq<EntryView>, bool), filtered: bool) -> (Seq<EntryView>, bool) {
    let g = tar_gather(raw.0, filtered);
    (g.0, g.1 && raw.1)
}

/// Whether a member is a plugin file: its file name has a supported
/// extension.
pub open spec fn plugin_file() -> spec_fn(EntryView) -> bool {
    |e: EntryView| is_supported_path(e.0)
}

/// The plugin files among what a read hands on, and whether it went to its
/// end.
pub open spec fn plugin_files(l: (Seq<EntryView>, bool)) -> (Seq<EntryView>, bool) {
    (l.0.filter(plugin_file()), l.1)
}

proof fn lemma_filter_one(e: EntryView)
    ensures
        seq![e].filter(plugin_file()) == (if is_supported_path(e.0) {
            seq![e]
        } else {
            Seq::<EntryView>::empty()
        }),
{
    reveal_with_fuel(Seq::filter, 2);
    assert(seq![e].drop_last() =~= Seq::<EntryView>::empty());
}

/// Reading a listing for plugin files only keeps, of the members that a full
/// read hands on, exactly the plugin files, and stops where it stops.
pub proof fn lemma_gather_plugin_files(
    names: Seq<Seq<char>>,
    fetch: spec_fn(Seq<char>) -> Option<Option<Seq<u8>>>,
)
    ensures
        gather(names, fetch, true) == plugin_files(gather(names, fetch, false)),
    decreases names.len(),
{
    reveal_with_fuel(Seq::filter, 1);
    if names.len() == 0 {
        assert(Seq::<EntryView>::empty().filter(plugin_file()) =~= Seq::<EntryView>::empty());
    } else {
        match fetch(names[0]) {
            None => {
                assert(Seq::<EntryView>::empty().filter(plugin_file()) =~= Seq::<EntryView>::empty());
            },
            Some(d) => {
                lemma_gather_plugin_files(names.drop_first(), fetch);
                let x = seq![(names[0], d)];
                let rest = gather(names.drop_first(), fetch, false).0;
                Seq::filter_distributes_over_add(x, rest, plugin_file());
                lemma_filter_one((names[0], d));
                if !is_supported_path(names[0]) {
                    assert(Seq::<EntryView>::empty() + rest.filter(plugin_file()) =~= rest.filter(
                        plugin_file(),
                    ));
                }
            },
        }
    }
}

/// The same for tar members: the plugin files among the members a full read
/// hands on, with the read stopping at the same place.
pub proof fn lemma_tar_plugin_files(raw: (Seq<EntryView>, bool))
    ensures
        tar_partial(raw, true) == plugin_files(tar_partial(raw, false)),
{
    lemma_tar_gather_plugin_files(raw.0);
}

proof fn lemma_tar_gather_plugin_files(members: Seq<EntryView>)
    ensures
        tar_gather(members, true) == plugin_files(tar_gather(members, false)),
    decreases members.len(),
{
    reveal_with_fuel(Seq::filter, 1);
    if members.len() == 0 {
        assert(Seq::<EntryView>::empty().filter(plugin_file()) =~= Seq::<EntryView>::empty());
    } else {
        match strip_curdir(members[0].0) {
            None => {
                assert(Seq::<EntryView>::empty().filter(plugin_file()) =~= Seq::<EntryView>::empty());
            },
            Some(p) => {
                lemma_tar_gather_plugin_files(members.drop_first());
                let rest = tar_gather(members.drop_first(), false).0;
                if p.len() > 0 {
                    let x = seq![(p, members[0].1)];
                    Seq::filter_distributes_over_add(x, rest, plugin_file());
                    lemma_filter_one((p, members[0].1));
                    if !is_supported_path(p) {
                        assert(Seq::<EntryView>::empty() + rest.filter(plugin_file()) =~= rest.filter(
                            plugin_file(),
                        ));
                    }
                } else {
                    assert(Seq::<EntryView>::empty() + rest =~= rest);
                    assert(Seq::<EntryView>::empty() + rest.filter(plugin_file()) =~= rest.filter(
                        plugin_file(),
                    ));
                }
            },
        }
    }
}

/// What a read that may stop early gives: the members it handed on, and an
/// error exactly where it stopped.
pub open spec fn partial_matches(r: (Vec<RawEntry>, Result<()>), l: (Seq<EntryView>, bool)) -> bool {
    &&& entries_view(r.0@) == l.0
    &&& (r.1 is Ok <==> l.1)
}

/// Hands on the members of a read that may stop early, after those of `out`.
pub(crate) fn hand_on(out: &mut Vec<RawEntry>, r: (Vec<RawEntry>, Result<()>)) -> (x: Result<()>)
    ensures
        final(out)@ == old(out)@ + r.0@,
        x == r.1,
{
    let (mut v, res) = r;
    out.append(&mut v);
    res
}

proof fn lemma_prepend_assoc(a: Seq<EntryView>, b: Seq<EntryView>, r: (Seq<EntryView>, bool))
    ensures
        prepend(a, prepend(b, r)) == prepend(a + b, r),
{
    assert(a + (b + r.0) =~= (a + b) + r.0);
}

pub(crate) proof fn lemma_entries_view_append(a: Seq<RawEntry>, b: Seq<RawEntry>)
    ensures
        entries_view(a + b) == entries_view(a) + entries_view(b),
{
    assert(entries_view(a + b) =~= entries_view(a) + entries_view(b));
}

/// Keeps or drops `name` with contents `d`, then records it.
fn keep_member(out: &mut Vec<RawEntry>, name: String, d: Option<Vec<u8>>, filtered: bool, read: bool)
    requires
        entries_view_data(entries_view(old(out)@), read),
        d is Some <==> read,
    ensures
        entries_view_data(entries_view(final(out)@), read),
        entries_view(final(out)@) == entries_view(old(out)@) + (if keeps(filtered, name@) {
            seq![(name@, crate::unpack::opt_bytes_view(d))]
        } else {
            Seq::<EntryView>::empty()
        }),
{
    if !filtered || is_some(name.as_str()) {
        let ghost nv = name@;
        out.push((name, d));
        proof {
            assert(entries_view(out@) =~= entries_view(old(out)@) + seq![
                (nv, crate::unpack::opt_bytes_view(d)),
            ]);
        }
    } else {
        proof {
            assert(entries_view(old(out)@) + Seq::<EntryView>::empty() =~= entries_view(old(out)@));
        }
    }
}

/// Lists a zip archive's members, reading their contents when `read`, up to
/// the first that cannot be read.
pub(crate) fn zip_members(read: bool, data: &[u8], filtered: bool) -> (r: (Vec<RawEntry>, Result<()>))
    ensures
        partial_matches(r, zip_partial(data@, read, filtered)),
        entries_view_data(entries_view(r.0@), read),
{
    let mut out: Vec<RawEntry> = Vec::new();
    assert(entries_view(out@) =~= Seq::<EntryView>::empty());
    let names = match zip_file_names(data) {
        Ok(n) => n,
        Err(e) => {
            return (out, Err(PluginError::Archive(e.to_string())));
        },
    };
    let ghost all = strings_view(names@);
    let ghost fetch = zip_fetch(data@, read);
    let mut i: usize = 0;
    assert(all.skip(0) =~= all);
    assert(entries_view(out@) + zip_partial(data@, read, filtered).0 =~= zip_partial(
        data@,
        read,
        filtered,
    ).0);
    while i < names.len()
        invariant
            i <= names@.len(),
            all == strings_view(names@),
            fetch == zip_fetch(data@, read),
            zip_names(data@) == Some(all),
            entries_view_data(entries_view(out@), read),
            zip_partial(data@, read, filtered) == prepend(
                entries_view(out@),
                gather(all.skip(i as int), fetch, filtered),
            ),
        decreases names.len() - i,
    {
        let name = names[i].as_str();
        let ghost rest = all.skip(i as int);
        proof {
            assert(rest[0] == name@);
            assert(rest.drop_first() =~= all.skip(i + 1));
            assert(entries_view(out@) + Seq::<EntryView>::empty() =~= entries_view(out@));
        }
        let d = if read {
            match zip_read(data, name) {
                Ok(b) => Some(b),
                Err(e) => {
                    return (out, Err(PluginError::Archive(e.to_string())));
                },
            }
        } else {
            match zip_find(data, name) {
                Ok(()) => None,
                Err(e) => {
                    return (out, Err(PluginError::Archive(e.to_string())));
                },
            }
        };
        let ghost before = entries_view(out@);
        keep_member(&mut out, names[i].clone(), d, filtered, read);
        proof {
            lemma_prepend_assoc(
                before,
                if keeps(filtered, name@) {
                    seq![(name@, crate::unpack::opt_bytes_view(d))]
                } else {
                    Seq::<EntryView>::empty()
                },
                gather(all.skip(i + 1), fetch, filtered),
            );
        }
        i = i + 1;
    }
    proof {
        assert(all.skip(i as int) =~= Seq::<Seq<char>>::empty());
        assert(entries_view(out@) + Seq::<EntryView>::empty() =~= entries_view(out@));
    }
    (out, Ok(()))
}

/// Lists a 7z archive's members, reading their contents when `read`, up to
/// the first that cannot be read.
pub(crate) fn sevenz_members(read: bool, data: &[u8], filtered: bool) -> (r: (
    Vec<RawEntry>,
    Result<()>,
))
    ensures
        partial_matches(r, sevenz_partial(data@, read, filtered)),
        entries_view_data(entries_view(r.0@), read),
{
    let mut out: Vec<RawEntry> = Vec::new();
    assert(entries_view(out@) =~= Seq::<EntryView>::empty());
    let names = match sevenz_file_names(data) {
        Ok(n) => n,
        Err(e) => {
            return (out, Err(PluginError::Archive(e.to_string())));
        },
    };
    let ghost all = strings_view(names@);
    let ghost fetch = sevenz_fetch(data@, read);
    let mut i: usize = 0;
    assert(all.skip(0) =~= all);
    assert(entries_view(out@) + sevenz_partial(data@, read, filtered).0 =~= sevenz_partial(
        data@,
        read,
        filtered,
    ).0);
    while i < names.len()
        invariant
            i <= names@.len(),
            all == strings_view(names@),
            fetch == sevenz_fetch(data@, read),
            sevenz_names(data@) == Some(all),
            entries_view_data(entries_view(out@), read),
            sevenz_partial(data@, read, filtered) == prepend(
                entries_view(out@),
                gather(all.skip(i as int), fetch, filtered),
            ),
        decreases names.len() - i,
    {
        let name = names[i].as_str();
        let ghost rest = all.skip(i as int);
        proof {
            assert(rest[0] == name@);
            assert(rest.drop_first() =~= all.skip(i + 1));
            assert(entries_view(out@) + Seq::<EntryView>::empty() =~= entries_view(out@));
        }
        let d = if read {
            match sevenz_read(data, name) {
                Ok(b) => Some(b),
                Err(e) => {
                    return (out, Err(PluginError::Archive(e.to_string())));
                },
            }
        } else {
            None
        };
        let ghost before = entries_view(out@);
        keep_member(&mut out, names[i].clone(), d, filtered, read);
        proof {
            lemma_prepend_assoc(
                before,
                if keeps(filtered, name@) {
                    seq![(name@, crate::unpack::opt_bytes_view(d))]
                } else {
                    Seq::<EntryView>::empty()
                },
                gather(all.skip(i + 1), fetch, filtered),
            );
        }
        i = i + 1;
    }
    proof {
        assert(all.skip(i as int) =~= Seq::<Seq<char>>::empty());
        assert(entries_view(out@) + Seq::<EntryView>::empty() =~= entries_view(out@));
    }
    (out, Ok(()))
}

/// Turns a tar archive's raw members into the members handed on, up to the
/// first whose path lies outside the archive's root.
fn tar_collect(items: Vec<RawEntry>, filtered: bool, read: bool) -> (r: (Vec<RawEntry>, Result<()>))
    requires
        entries_view_data(entries_view(items@), read),
    ensures
        partial_matches(r, tar_gather(entries_view(items@), filtered)),
        entries_view_data(entries_view(r.0@), read),
{
    let ghost all = entries_view(items@);
    let mut raw = items;
    let mut out: Vec<RawEntry> = Vec::new();
    assert(entries_view(out@) =~= Seq::<EntryView>::empty());
    assert(entries_view(out@) + tar_gather(all, filtered).0 =~= tar_gather(all, filtered).0);
    while raw.len() > 0
        invariant
            all == entries_view(items@),
            entries_view_data(entries_view(raw@), read),
            entries_view_data(entries_view(out@), read),
            tar_gather(all, filtered) == prepend(
                entries_view(out@),
                tar_gather(entries_view(raw@), filtered),
            ),
        decreases raw.len(),
    {
        let ghost rest = entries_view(raw@);
        let (path, data) = raw.remove(0);
        proof {
            assert(rest[0] == (path@, crate::unpack::opt_bytes_view(data)));
            assert(rest.drop_first() =~= entries_view(raw@));
            assert(rest[0].1 is Some <==> read);
            assert forall|i: int| 0 <= i < entries_view(raw@).len() implies ((#[trigger] entries_view(raw@)[i]).1 is Some <==> read) by {
                assert(entries_view(raw@)[i] == rest[i + 1]);
            }
            assert(entries_view(out@) + Seq::<EntryView>::empty() =~= entries_view(out@));
        }
        let stripped = match strip_curdir_str(path.as_str()) {
            Some(p) => p.to_string(),
            None => {
                return (out, Err(PluginError::Unknown("archive member outside its root".to_string())));
            },
        };
        let ghost before = entries_view(out@);
        let ghost sv = stripped@;
        if stripped.unicode_len() > 0 {
            keep_member(&mut out, stripped, data, filtered, read);
        }
        proof {
            if sv.len() == 0 {
                assert(entries_view(out@) + Seq::<EntryView>::empty() =~= entries_view(out@));
            }
            lemma_prepend_assoc(
                before,
                if sv.len() > 0 && keeps(filtered, sv) {
                    seq![(sv, crate::unpack::opt_bytes_view(data))]
                } else {
                    Seq::<EntryView>::empty()
                },
                tar_gather(entries_view(raw@), filtered),
            );
        }
    }
    proof {
        assert(entries_view(raw@) =~= Seq::<EntryView>::empty());
        assert(entries_view(out@) + Seq::<EntryView>::empty() =~= entries_view(out@));
    }
    (out, Ok(()))
}

/// Which tar flavour to read.
pub enum TarCodec {
    Plain,
    Gzip,
    Xz,
}

pub open spec fn tar_raw(codec: TarCodec, data: Seq<u8>, read: bool) -> (Seq<EntryView>, bool) {
    match codec {
        TarCodec::Plain => tar_members(data, read),
        TarCodec::Gzip => tar_gz_members(data, read),
        TarCodec::Xz => tar_xz_members(data, read),
    }
}

/// Lists a tar archive's members, reading their contents when `read`, up to
/// the first that cannot be read or lies outside the archive's root.
pub(crate) fn tar_entries(codec: TarCodec, read: bool, data: &[u8], filtered: bool) -> (r: (
    Vec<RawEntry>,
    Result<()>,
))
    ensures
        partial_matches(r, tar_partial(tar_raw(codec, data@, read), filtered)),
        entries_view_data(entries_view(r.0@), read),
{
    let (raw, stop) = match codec {
        TarCodec::Plain => tar_list(data, read),
        TarCodec::Gzip => tar_gz_list(data, read),
        TarCodec::Xz => tar_xz_list(data, read),
    };
    let (out, res) = tar_collect(raw, filtered, read);
    match res {
        Err(e) => (out, Err(e)),
        Ok(()) => match stop {
            Some(e) => (out, Err(PluginError::Archive(e.to_string()))),
            None => (out, Ok(())),
        },
    }
}

/// Hands every member of the 7z archive `data`, with contents when `read`,
/// on to `out`, up to the first that cannot be read.
pub fn archive_7z(read: bool, data: &[u8], out: &mut Vec<RawEntry>) -> (r: Result<()>)
    ensures
        entries_view(final(out)@) == entries_view(old(out)@) + sevenz_partial(data@, read, false).0,
        entries_view_data(sevenz_partial(data@, read, false).0, read),
        r is Ok <==> sevenz_partial(data@, read, false).1,
{
    let got = sevenz_members(read, data, false);
    proof {
        lemma_entries_view_append(out@, got.0@);
    }
    hand_on(out, got)
}

/// Hands every member of the zip archive `data`, with contents when `read`,
/// on to `out`, up to the first that cannot be read.
pub fn archive_zip(read: bool, data: &[u8], out: &mut Vec<RawEntry>) -> (r: Result<()>)
    ensures
        entries_view(final(out)@) == entries_view(old(out)@) + zip_partial(data@, read, false).0,
        entries_view_data(zip_partial(data@, read, false).0, read),
        r is Ok <==> zip_partial(data@, read, false).1,
{
    let got = zip_members(read, data, false);
    proof {
        lemma_entries_view_append(out@, got.0@);
    }
    hand_on(out, got)
}

/// Hands every non-root member of the tar archive `data`, with contents when
/// `read`, on to `out`, up to the first that cannot be read or lies outside
/// the archive's root.
pub fn archive_tar(read: bool, data: &[u8], out: &mut Vec<RawEntry>) -> (r: Result<()>)
    ensures
        entries_view(final(out)@) == entries_view(old(out)@) + tar_partial(
            tar_members(data@, read),
            false,
        ).0,
        entries_view_data(tar_partial(tar_members(data@, read), false).0, read),
        r is Ok <==> tar_partial(tar_members(data@, read), false).1,
{
    let got = tar_entries(TarCodec::Plain, read, data, false);
    proof {
        lemma_entries_view_append(out@, got.0@);
    }
    hand_on(out, got)
}

/// Hands every non-root member of the gzip-compressed tar archive `data` on
/// to `out`, as `archive_tar` does.
pub fn archive_tar_gz(read: bool, data: &[u8], out: &mut Vec<RawEntry>) -> (r: Result<()>)
    ensures
        entries_view(final(out)@) == entries_view(old(out)@) + tar_partial(
            tar_gz_members(data@, read),
            false,
        ).0,
        entries_view_data(tar_partial(tar_gz_members(data@, read), false).0, read),
        r is Ok <==> tar_partial(tar_gz_members(data@, read), false).1,
{
    let got = tar_entries(TarCodec::Gzip, read, data, false);
    proof {
        lemma_entries_view_append(out@, got.0@);
    }
    hand_on(out, got)
}

/// Hands every non-root member of the xz-compressed tar archive `data` on to
/// `out`, as `archive_tar` does.
pub fn archive_tar_xz(read: bool, data: &[u8], out: &mut Vec<RawEntry>) -> (r: Result<()>)
    ensures
        entries_view(final(out)@) == entries_view(old(out)@) + tar_partial(
            tar_xz_members(data@, read),
            false,
        ).0,
        entries_view_data(tar_partial(tar_xz_members(data@, read), false).0, read),
        r is Ok <==> tar_partial(tar_xz_members(data@, read), false).1,
{
    let got = tar_entries(TarCodec::Xz, read, data, false);
    proof {
        lemma_entries_view_append(out@, got.0@);
    }
    hand_on(out, got)
}

/// The members of archive `data` handed on by the format that `ext` names:
/// `.7z`, `.zip`, `.tar`, `.tar.gz` or `.tar.xz`; any other extension hands
/// on no members.
pub open spec fn archive_partial(ext: Seq<char>, read: bool, data: Seq<u8>) -> (Seq<EntryView>, bool) {
    if ext == ".7z"@ {
        sevenz_partial(data, read, false)
    } else if ext == ".zip"@ {
        zip_partial(data, read, false)
    } else if ext == ".tar"@ {
        tar_partial(tar_members(data, read), false)
    } else if ext == ".tar.gz"@ {
        tar_partial(tar_gz_members(data, read), false)
    } else if ext == ".tar.xz"@ {
        tar_partial(tar_xz_members(data, read), false)
    } else {
        (Seq::empty(), true)
    }
}

/// Reads the archive `data` by the format that `ext` names, handing its
/// members on to `out`.
pub fn archive(ext: &str, read: bool, data: &[u8], out: &mut Vec<RawEntry>) -> (r: Result<()>)
    ensures
        entries_view(final(out)@) == entries_view(old(out)@) + archive_partial(ext@, read, data@).0,
        entries_view_data(archive_partial(ext@, read, data@).0, read),
        r is Ok <==> archive_partial(ext@, read, data@).1,
{
    if str_eq(ext, ".7z") {
        archive_7z(read, data, out)
    } else if str_eq(ext, ".zip") {
        archive_zip(read, data, out)
    } else if str_eq(ext, ".tar") {
        archive_tar(read, data, out)
    } else if str_eq(ext, ".tar.gz") {
        archive_tar_gz(read, data, out)
    } else if str_eq(ext, ".tar.xz") {
        archive_tar_xz(read, data, out)
    } else {
        assert(entries_view(out@) + Seq::<EntryView>::empty() =~= entries_view(out@));
        Ok(())
    }
}

} // verus!
