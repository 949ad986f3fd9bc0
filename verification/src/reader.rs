//! Reading the plugin directories of a set of sources: the plugin manifests
//! they hold, and every file they hold.
use vstd::prelude::*;
use crate::errors::Result;
use crate::sources::{last_match, res_view, ResView, SourceRes, Sources, TopItem};
use crate::text::{file_name, path_file_name, str_eq};

verus! {

broadcast use vstd::string::group_string_axioms;

/// Reads plugin directories; a plugin is known by its manifest file.
pub struct Reader {
    basefile: String,
    pub sources: Sources,
}

/// Whether the reads of the first `k` directories, with contents when
/// `read`, each go to their end.
pub open spec fn dirs_complete(sources: Sources, disks: Seq<Vec<TopItem>>, read: bool, k: int) -> bool
    decreases k,
{
    if k <= 0 {
        true
    } else {
        dirs_complete(sources, disks, read, k - 1) && sources.0@[k - 1].handed(read, disks[k - 1]@).1
    }
}

/// Whether every directory that a read reaches can be read with contents
/// when `read`, each on disk as the matching listing of `disks`: those after
/// the first whose read stops are not reached.
pub open spec fn all_readable(sources: Sources, disks: Seq<Vec<TopItem>>, read: bool) -> bool {
    &&& disks.len() == sources.0@.len()
    &&& forall|i: int|
        0 <= i < sources.0@.len() && dirs_complete(sources, disks, read, i) ==> (#[trigger] sources.0@[i]).readable(
            read,
            disks[i]@,
        )
}

/// The manifests that the first `k` directories hand on: each file handed on
/// whose file name is `base`, with the index of its directory; and whether
/// every read went to its end.
pub open spec fn manifests_from(sources: Sources, disks: Seq<Vec<TopItem>>, k: int, base: Seq<char>) -> (
    Seq<(usize, ResView)>,
    bool,
)
    decreases k,
{
    if k <= 0 {
        (Seq::empty(), true)
    } else {
        let a = manifests_from(sources, disks, k - 1, base);
        if !a.1 {
            a
        } else {
            let h = sources.0@[k - 1].handed(true, disks[k - 1]@);
            (
                a.0 + h.0.filter(|x: ResView| path_file_name(x.1) == Some(base)).map_values(
                    |x: ResView| ((k - 1) as usize, x),
                ),
                h.1,
            )
        }
    }
}

/// Every file that the first `k` directories hand on, without contents; and
/// whether every read went to its end.
pub open spec fn files_from(sources: Sources, disks: Seq<Vec<TopItem>>, k: int) -> (Seq<ResView>, bool)
    decreases k,
{
    if k <= 0 {
        (Seq::empty(), true)
    } else {
        let a = files_from(sources, disks, k - 1);
        if !a.1 {
            a
        } else {
            let h = sources.0@[k - 1].handed(false, disks[k - 1]@);
            (a.0 + h.0, h.1)
        }
    }
}

pub open spec fn pairs_view(v: Seq<(usize, SourceRes)>) -> Seq<(usize, ResView)> {
    v.map_values(|p: (usize, SourceRes)| (p.0, p.1@))
}

proof fn lemma_manifests_reach(sources: Sources, disks: Seq<Vec<TopItem>>, k: int, base: Seq<char>)
    ensures
        manifests_from(sources, disks, k, base).1 == dirs_complete(sources, disks, true, k),
    decreases k,
{
    if k > 0 {
        lemma_manifests_reach(sources, disks, k - 1, base);
    }
}

proof fn lemma_files_reach(sources: Sources, disks: Seq<Vec<TopItem>>, k: int)
    ensures
        files_from(sources, disks, k).1 == dirs_complete(sources, disks, false, k),
    decreases k,
{
    if k > 0 {
        lemma_files_reach(sources, disks, k - 1);
    }
}

proof fn lemma_manifests_stop(sources: Sources, disks: Seq<Vec<TopItem>>, k: int, base: Seq<char>)
    requires
        0 <= k <= sources.0@.len(),
        !manifests_from(sources, disks, k, base).1,
    ensures
        manifests_from(sources, disks, sources.0@.len() as int, base) == manifests_from(
            sources,
            disks,
            k,
            base,
        ),
    decreases sources.0@.len() - k,
{
    if k < sources.0@.len() {
        lemma_manifests_stop(sources, disks, k + 1, base);
    }
}

proof fn lemma_files_stop(sources: Sources, disks: Seq<Vec<TopItem>>, k: int)
    requires
        0 <= k <= sources.0@.len(),
        !files_from(sources, disks, k).1,
    ensures
        files_from(sources, disks, sources.0@.len() as int) == files_from(sources, disks, k),
    decreases sources.0@.len() - k,
{
    if k < sources.0@.len() {
        lemma_files_stop(sources, disks, k + 1);
    }
}

impl Reader {
    /// The file name of a plugin's manifest.
    pub closed spec fn base(&self) -> Seq<char> {
        self.basefile@
    }

    /// The directories read.
    pub closed spec fn dirs(&self) -> Sources {
        self.sources
    }

    pub fn new() -> (r: Self)
        ensures
            r.base() == "plugin.json"@,
            r.dirs().0@.len() == 0,
    {
        Self { sources: Sources::new(), basefile: "plugin.json".to_string() }
    }

    /// `Sources::find`.
    pub fn find(&self, source: usize, entry: &str, search: &str, disk: &Vec<TopItem>) -> (r: Result<
        Vec<u8>,
    >)
        requires
            source < self.dirs().0@.len(),
            self.dirs().0@[source as int].readable(true, disk@),
        ensures
            match self.dirs().0@[source as int].found(true, disk@) {
                Some(v) => r matches Ok(d) && d@ == last_match(v, entry@, search@),
                None => r is Err,
            },
    {
        self.sources.find(source, entry, search, disk)
    }

    /// Hands the manifests of every directory, with their contents and the
    /// index of their directory, on to `out`, in order, up to the first
    /// archive that cannot be read.
    pub fn load_plugins(&self, disks: &Vec<Vec<TopItem>>, out: &mut Vec<(usize, SourceRes)>) -> (r:
        Result<()>)
        requires
            all_readable(self.dirs(), disks@, true),
        ensures
            pairs_view(final(out)@) == pairs_view(old(out)@) + manifests_from(
                self.dirs(),
                disks@,
                self.dirs().0@.len() as int,
                self.base(),
            ).0,
            r is Ok <==> manifests_from(self.dirs(), disks@, self.dirs().0@.len() as int, self.base()).1,
    {
        let ghost base = self.base();
        let ghost srcs = self.sources;
        let ghost o = pairs_view(out@);
        let mut num: usize = 0;
        assert(o + Seq::<(usize, ResView)>::empty() =~= o);
        while num < self.sources.0.len()
            invariant
                num <= srcs.0@.len(),
                srcs == self.sources,
                base == self.base(),
                all_readable(srcs, disks@, true),
                o == pairs_view(old(out)@),
                manifests_from(srcs, disks@, num as int, base).1,
                pairs_view(out@) == o + manifests_from(srcs, disks@, num as int, base).0,
            decreases srcs.0@.len() - num,
        {
            proof {
                lemma_manifests_reach(srcs, disks@, num as int, base);
                assert(srcs.0@[num as int].readable(true, disks@[num as int]@));
            }
            let mut all: Vec<SourceRes> = Vec::new();
            let res = self.sources.0[num].read_source(true, &disks[num], &mut all);
            let ghost h = srcs.0@[num as int].handed(true, disks@[num as int]@);
            let ghost v = res_view(all@);
            assert(v =~= h.0);
            let ghost pred = |x: ResView| path_file_name(x.1) == Some(base);
            let ghost f = |x: ResView| (num, x);
            let ghost start = pairs_view(out@);
            let ghost orig = all@;
            let mut i: usize = 0;
            assert(v.take(0).filter(pred) =~= Seq::<ResView>::empty());
            assert(start + Seq::<(usize, ResView)>::empty() =~= start);
            while i < all.len()
                invariant
                    i <= all@.len(),
                    all@.len() == orig.len(),
                    forall|j: int| i <= j < orig.len() ==> all@[j] == orig[j],
                    v == res_view(orig),
                    pred == (|x: ResView| path_file_name(x.1) == Some(base)),
                    f == (|x: ResView| (num, x)),
                    base == self.base(),
                    pairs_view(out@) == start + v.take(i as int).filter(pred).map_values(f),
                decreases all.len() - i,
            {
                proof {
                    reveal_with_fuel(Seq::filter, 1);
                    assert(v.take(i + 1).drop_last() =~= v.take(i as int));
                    assert(v.take(i + 1).last() == v[i as int]);
                    assert(v[i as int] == all@[i as int]@);
                }
                let ghost before = pairs_view(out@);
                let named = match file_name(all[i].search.as_str()) {
                    Some(n) => str_eq(n, self.basefile.as_str()),
                    None => false,
                };
                if named {
                    let item = take_res(&mut all, i);
                    out.push((num, item));
                    proof {
                        assert(pairs_view(out@) =~= before.push(f(v[i as int])));
                        assert(v.take(i + 1).filter(pred) =~= v.take(i as int).filter(pred).push(
                            v[i as int],
                        ));
                    }
                } else {
                    proof {
                        assert(v.take(i + 1).filter(pred) =~= v.take(i as int).filter(pred));
                    }
                }
                proof {
                    assert(pairs_view(out@) =~= start + v.take(i + 1).filter(pred).map_values(f));
                }
                i = i + 1;
            }
            proof {
                assert(v.take(i as int) =~= v);
                let a = manifests_from(srcs, disks@, num as int, base);
                assert(o + (a.0 + v.filter(pred).map_values(f)) =~= pairs_view(out@));
                assert(f == (|x: ResView| ((num + 1 - 1) as usize, x)));
                assert(manifests_from(srcs, disks@, num + 1, base) == (
                    a.0 + v.filter(pred).map_values(f),
                    h.1,
                ));
            }
            match res {
                Ok(()) => {},
                Err(e) => {
                    proof {
                        lemma_manifests_stop(srcs, disks@, num as int + 1, base);
                    }
                    return Err(e);
                },
            }
            num = num + 1;
        }
        Ok(())
    }

    /// Hands every file of every directory, without contents, on to `out`, in
    /// order, up to the first archive that cannot be read.
    pub fn load_base(&self, disks: &Vec<Vec<TopItem>>, out: &mut Vec<SourceRes>) -> (r: Result<()>)
        requires
            all_readable(self.dirs(), disks@, false),
        ensures
            res_view(final(out)@) == res_view(old(out)@) + files_from(
                self.dirs(),
                disks@,
                self.dirs().0@.len() as int,
            ).0,
            r is Ok <==> files_from(self.dirs(), disks@, self.dirs().0@.len() as int).1,
    {
        let ghost srcs = self.sources;
        let ghost o = res_view(out@);
        let mut num: usize = 0;
        assert(o + Seq::<ResView>::empty() =~= o);
        while num < self.sources.0.len()
            invariant
                num <= srcs.0@.len(),
                srcs == self.sources,
                all_readable(srcs, disks@, false),
                o == res_view(old(out)@),
                files_from(srcs, disks@, num as int).1,
                res_view(out@) == o + files_from(srcs, disks@, num as int).0,
            decreases srcs.0@.len() - num,
        {
            proof {
                lemma_files_reach(srcs, disks@, num as int);
                assert(srcs.0@[num as int].readable(false, disks@[num as int]@));
            }
            let ghost before = res_view(out@);
            let res = self.sources.0[num].read_source(false, &disks[num], out);
            proof {
                let a = files_from(srcs, disks@, num as int);
                let h = srcs.0@[num as int].handed(false, disks@[num as int]@);
                assert(o + (a.0 + h.0) =~= (o + a.0) + h.0);
                assert(files_from(srcs, disks@, num + 1) == (a.0 + h.0, h.1));
            }
            match res {
                Ok(()) => {},
                Err(e) => {
                    proof {
                        lemma_files_stop(srcs, disks@, num as int + 1);
                    }
                    return Err(e);
                },
            }
            num = num + 1;
        }
        Ok(())
    }
}

/// Moves found file `i` out of `v`, leaving an empty one in its place.
fn take_res(v: &mut Vec<SourceRes>, i: usize) -> (r: SourceRes)
    requires
        i < old(v)@.len(),
    ensures
        r == old(v)@[i as int],
        final(v)@.len() == old(v)@.len(),
        forall|j: int| 0 <= j < final(v)@.len() && j != i ==> final(v)@[j] == old(v)@[j],
{
    let blank = SourceRes {
        entry: String::new(),
        search: String::new(),
        archive: false,
        archive_ext: None,
        ext: String::new(),
        scheme: "",
        data: None,
    };
    let r = v.remove(i);
    v.insert(i, blank);
    r
}

} // verus!
