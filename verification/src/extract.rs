//! The extractor: unpacks a verified archive's entries into the target
//! filesystem, tracking every path it writes.
//!
//! Extraction is all-or-nothing against unsafe paths: one entry that could
//! escape the target root rejects the whole package and leaves the target
//! untouched. A path that already exists and is not owned by this package
//! (not in its prior extraction record) is a conflict. A resumed extraction
//! skips entries whose node already matches the prior record's signal.

use vstd::prelude::*;

use crate::archive::{ArchiveEntry, EntryV, entry_is_safe, check_entry_safe};
use crate::errors::ErrorKind;
use crate::fsmodel::{Fs, FsNode, NodeV, clone_bytes};

verus! {

/// The set of filesystem paths written by extracting one package; the journal
/// keeps it so rollback can delete exactly what was written and a resumed
/// extraction can skip what is already in place.
#[derive(Debug)]
pub struct ExtractionRecord {
    pub paths: Vec<String>,
}

impl DeepView for ExtractionRecord {
    type V = Seq<Seq<char>>;

    open spec fn deep_view(&self) -> Seq<Seq<char>> {
        self.paths.deep_view()
    }
}

/// The view of an optional prior record.
pub open spec fn prior_view(prior: Option<&ExtractionRecord>) -> Option<Seq<Seq<char>>> {
    match prior {
        Some(rec) => Some(rec.deep_view()),
        None => None,
    }
}

/// Whether this package already owns `path`: a prior extraction of the same
/// package recorded it.
pub open spec fn owns_path(prior: Option<Seq<Seq<char>>>, path: Seq<char>) -> bool {
    match prior {
        Some(paths) => paths.contains(path),
        None => false,
    }
}

/// The node an entry stands for under the target root.
pub open spec fn node_of_entry(e: EntryV) -> NodeV {
    if e.is_dir {
        NodeV::Dir
    } else {
        match e.link_target {
            Some(t) => NodeV::Link { target: t },
            None => NodeV::File { data: e.data },
        }
    }
}

/// Whether what stands at the entry's path already matches the entry's
/// signal, so a resumed extraction may skip it: same kind, and for a file the
/// same size, for a link the same target.
pub open spec fn entry_matches(n: NodeV, e: EntryV) -> bool {
    if e.is_dir {
        n is Dir
    } else {
        match e.link_target {
            Some(t) => n matches NodeV::Link { target } && target == t,
            None => n matches NodeV::File { data } && data.len() == e.data.len(),
        }
    }
}

/// One entry applied to the target: skipped when this package owns a matching
/// node, otherwise written.
pub open spec fn apply_one(
    fs: Map<Seq<char>, NodeV>,
    e: EntryV,
    prior: Option<Seq<Seq<char>>>,
) -> Map<Seq<char>, NodeV> {
    if fs.contains_key(e.path) && owns_path(prior, e.path) && entry_matches(fs[e.path], e) {
        fs
    } else {
        fs.insert(e.path, node_of_entry(e))
    }
}

/// All entries applied in order.
pub open spec fn apply_entries(
    fs: Map<Seq<char>, NodeV>,
    entries: Seq<EntryV>,
    prior: Option<Seq<Seq<char>>>,
) -> Map<Seq<char>, NodeV>
    decreases entries.len(),
{
    if entries.len() == 0 {
        fs
    } else {
        apply_entries(apply_one(fs, entries[0], prior), entries.drop_first(), prior)
    }
}

/// The complete set of paths an extraction writes: every entry's target path.
pub open spec fn record_paths(entries: Seq<EntryV>) -> Seq<Seq<char>> {
    entries.map_values(|e: EntryV| e.path)
}

/// Some entry could escape the target root.
pub open spec fn has_unsafe_entry(entries: Seq<EntryV>) -> bool {
    exists|i: int| 0 <= i < entries.len() && !entry_is_safe(entries[i])
}

/// Some entry's path already exists and is not owned by this package.
pub open spec fn has_conflict(
    fs: Map<Seq<char>, NodeV>,
    entries: Seq<EntryV>,
    prior: Option<Seq<Seq<char>>>,
) -> bool {
    exists|i: int|
        0 <= i < entries.len() && fs.contains_key(entries[i].path) && !owns_path(
            prior,
            entries[i].path,
        )
}

/// What extracting `entries` over `fs` yields: the rejection that stops it,
/// or the new filesystem together with the record of written paths.
pub open spec fn extraction_outcome(
    fs: Map<Seq<char>, NodeV>,
    entries: Seq<EntryV>,
    prior: Option<Seq<Seq<char>>>,
) -> Result<(Map<Seq<char>, NodeV>, Seq<Seq<char>>), ErrorKind> {
    if has_unsafe_entry(entries) {
        Err(ErrorKind::UnsafePath)
    } else if has_conflict(fs, entries, prior) {
        Err(ErrorKind::Conflict)
    } else {
        Ok((apply_entries(fs, entries, prior), record_paths(entries)))
    }
}

/// The node an entry stands for.
pub fn entry_node(e: &ArchiveEntry) -> (r: FsNode)
    ensures
        r@ == node_of_entry(e@),
{
    if e.is_dir {
        FsNode::Dir
    } else {
        match &e.link_target {
            Some(t) => FsNode::Link { target: t.clone() },
            None => FsNode::File { data: clone_bytes(&e.data) },
        }
    }
}

/// Decides `entry_matches`.
pub fn check_entry_matches(n: &FsNode, e: &ArchiveEntry) -> (r: bool)
    ensures
        r == entry_matches(n@, e@),
{
    if e.is_dir {
        match n {
            FsNode::Dir => true,
            _ => false,
        }
    } else {
        match &e.link_target {
            Some(t) => match n {
                FsNode::Link { target } => *target == *t,
                _ => false,
            },
            None => match n {
                FsNode::File { data } => data.len() == e.data.len(),
                _ => false,
            },
        }
    }
}

/// Decides `owns_path`.
pub fn check_owns_path(prior: Option<&ExtractionRecord>, path: &String) -> (r: bool)
    ensures
        r == owns_path(prior_view(prior), path@),
{
    match prior {
        Some(rec) => {
            let n = rec.paths.len();
            let mut i: usize = 0;
            while i < n
                invariant
                    i <= n,
                    n == rec.paths@.len(),
                    prior_view(prior) == Some(rec.deep_view()),
                    forall|j: int| 0 <= j < i ==> rec.paths@[j]@ != path@,
                decreases n - i,
            {
                if rec.paths[i] == *path {
                    proof {
                        assert(rec.deep_view()[i as int] == path@);
                        assert(rec.deep_view().contains(path@));
                    }
                    return true;
                }
                i = i + 1;
            }
            proof {
                assert forall|j: int| 0 <= j < rec.deep_view().len() implies rec.deep_view()[j]
                    != path@ by {
                    assert(rec.paths@[j]@ != path@);
                }
            }
            false
        },
        None => false,
    }
}

/// Extracts a package's entries into the target filesystem. On `Ok` the
/// target holds every entry and the returned record lists the complete set of
/// written paths; on any rejection — an unsafe path, or a path owned by
/// someone else — the target is left exactly as it was.
pub fn apply_extraction(
    fs: &mut Fs,
    entries: &Vec<ArchiveEntry>,
    prior: Option<&ExtractionRecord>,
) -> (r: Result<ExtractionRecord, ErrorKind>)
    ensures
        match r {
            Ok(rec) => {
                &&& extraction_outcome(old(fs)@, entries.deep_view(), prior_view(prior))
                    == Ok::<_, ErrorKind>((final(fs)@, rec.deep_view()))
            },
            Err(e) => {
                &&& extraction_outcome(old(fs)@, entries.deep_view(), prior_view(prior))
                    == Err::<(Map<Seq<char>, NodeV>, Seq<Seq<char>>), _>(e)
                &&& final(fs)@ == old(fs)@
            },
        },
{
    let ghost es = entries.deep_view();
    let ghost pv = prior_view(prior);
    let n = entries.len();

    // No partial trust: reject the whole package before touching the target.
    let mut i: usize = 0;
    while i < n
        invariant
            i <= n,
            n == es.len(),
            es == entries.deep_view(),
            forall|j: int| 0 <= j < i ==> entry_is_safe(es[j]),
        decreases n - i,
    {
        if !check_entry_safe(&entries[i]) {
            proof {
                assert(!entry_is_safe(es[i as int]));
                assert(has_unsafe_entry(es));
            }
            return Err(ErrorKind::UnsafePath);
        }
        i = i + 1;
    }
    assert(!has_unsafe_entry(es));

    // Refuse to overwrite anything this package does not own.
    let mut i: usize = 0;
    while i < n
        invariant
            i <= n,
            n == es.len(),
            es == entries.deep_view(),
            pv == prior_view(prior),
            fs@ == old(fs)@,
            !has_unsafe_entry(es),
            forall|j: int|
                0 <= j < i ==> !(fs@.contains_key(es[j].path) && !owns_path(pv, es[j].path)),
        decreases n - i,
    {
        let exists_there = match fs.lookup(&entries[i].path) {
            Some(_) => true,
            None => false,
        };
        if exists_there && !check_owns_path(prior, &entries[i].path) {
            proof {
                assert(fs@.contains_key(es[i as int].path) && !owns_path(pv, es[i as int].path));
                assert(has_conflict(fs@, es, pv));
            }
            return Err(ErrorKind::Conflict);
        }
        i = i + 1;
    }
    assert(!has_conflict(fs@, es, pv));

    // Write (or skip) each entry, and record every target path.
    proof {
        assert(es.skip(0) =~= es);
        assert(record_paths(es.take(0)) =~= Seq::<Seq<char>>::empty());
    }
    let mut rec: Vec<String> = Vec::new();
    let mut i: usize = 0;
    while i < n
        invariant
            i <= n,
            n == es.len(),
            es == entries.deep_view(),
            pv == prior_view(prior),
            apply_entries(fs@, es.skip(i as int), pv) == apply_entries(old(fs)@, es, pv),
            rec.deep_view() =~= record_paths(es.take(i as int)),
        decreases n - i,
    {
        let ghost fs_before = fs@;
        let skip_entry = match fs.lookup(&entries[i].path) {
            Some(node) => check_owns_path(prior, &entries[i].path) && check_entry_matches(
                node,
                &entries[i],
            ),
            None => false,
        };
        if !skip_entry {
            let node = entry_node(&entries[i]);
            fs.set_node(entries[i].path.clone(), node);
        }
        proof {
            assert(es.skip(i as int)[0] == es[i as int]);
            assert(fs@ == apply_one(fs_before, es[i as int], pv));
            assert(es.skip(i as int).drop_first() =~= es.skip(i + 1));
            assert(apply_entries(fs_before, es.skip(i as int), pv) == apply_entries(
                apply_one(fs_before, es[i as int], pv),
                es.skip(i + 1),
                pv,
            ));
        }
        let ghost rec_before = rec.deep_view();
        rec.push(entries[i].path.clone());
        proof {
            assert(rec.deep_view() =~= rec_before.push(es[i as int].path));
            assert(record_paths(es.take(i + 1)) =~= record_paths(es.take(i as int)).push(
                es[i as int].path,
            ));
            assert(rec.deep_view() =~= record_paths(es.take(i + 1)));
        }
        i = i + 1;
    }
    proof {
        assert(es.skip(n as int) =~= Seq::<EntryV>::empty());
        assert(es.take(n as int) =~= es);
        assert(rec.deep_view() =~= record_paths(es));
    }
    Ok(ExtractionRecord { paths: rec })
}

/// Every path a record names, removed from the target in order.
pub open spec fn remove_all(
    fs: Map<Seq<char>, NodeV>,
    paths: Seq<Seq<char>>,
) -> Map<Seq<char>, NodeV>
    decreases paths.len(),
{
    if paths.len() == 0 {
        fs
    } else {
        remove_all(fs.remove(paths[0]), paths.drop_first())
    }
}

/// Deletes every path in `rec` from the target: the rollback of one
/// package's extraction.
pub fn remove_record_paths(fs: &mut Fs, rec: &ExtractionRecord)
    ensures
        final(fs)@ == remove_all(old(fs)@, rec.deep_view()),
{
    let ghost ps = rec.deep_view();
    proof {
        assert(ps.skip(0) =~= ps);
    }
    let n = rec.paths.len();
    let mut i: usize = 0;
    while i < n
        invariant
            i <= n,
            n == ps.len(),
            ps == rec.deep_view(),
            remove_all(fs@, ps.skip(i as int), ) == remove_all(old(fs)@, ps),
        decreases n - i,
    {
        let ghost fs_before = fs@;
        fs.remove_node(&rec.paths[i]);
        proof {
            assert(ps.skip(i as int)[0] == ps[i as int]);
            assert(fs@ == fs_before.remove(ps[i as int]));
            assert(ps.skip(i as int).drop_first() =~= ps.skip(i + 1));
        }
        i = i + 1;
    }
    proof {
        assert(ps.skip(n as int) =~= Seq::<Seq<char>>::empty());
    }
}

} // verus!
