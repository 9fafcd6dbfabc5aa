//! Device discovery, per-device layer reading, and the compilation
//! orchestrator.
//!
//! The filesystem is handed in as a snapshot: a list of paths, each with
//! its text where the file was readable. Everything from candidate
//! discovery to the merged specification is derived from that snapshot.
use crate::merge::{merge_documents, merged_of, pairs_view, unique_keys};
use crate::paths::{
    basename_of, basename_vec, common_lit, common_path_of, dot_yaml_lit, get_common, get_partional,
    get_regional, get_zonal, hostname_of, layer_of, layer_vec, lit_common, lit_dot_yaml,
    opt_bytes_view, parent_of, parent_vec, partitional_path_of, regional_path_of, zonal_path_of,
};
use crate::pattern::{regex_match, Pattern};
use crate::text::{
    contains_bytes, contains_seq, copy_vec, ends_with_bytes, ends_with_seq, eq_bytes,
    starts_with_bytes, starts_with_seq, sub_vec,
};
use crate::yaml::{parse_yaml, yaml_doc_of, Document};
use vstd::prelude::*;

verus! {

/// One filesystem entry seen by the run: a path and, where the file was
/// readable as text, its contents.
pub struct FileEntry {
    pub path: Vec<u8>,
    pub text: Option<Vec<u8>>,
}

/// A snapshot of the files a run may consult, in traversal order.
pub struct FileTable {
    pub files: Vec<FileEntry>,
}

/// The first snapshot entry at path `p`: `None` when no entry exists,
/// otherwise `Some` of its text where the file was readable.
pub open spec fn entry_from(fs: Seq<FileEntry>, p: Seq<u8>, i: int) -> Option<Option<Seq<u8>>>
    decreases fs.len() - i,
{
    if i < 0 || i >= fs.len() {
        None
    } else if fs[i].path@ == p {
        match fs[i].text {
            Some(t) => Some(Some(t@)),
            None => Some(None),
        }
    } else {
        entry_from(fs, p, i + 1)
    }
}

pub open spec fn entry_lookup(fs: Seq<FileEntry>, p: Seq<u8>) -> Option<Option<Seq<u8>>> {
    entry_from(fs, p, 0)
}

/// The readable text at path `p`: a present entry that has text.
pub open spec fn lookup_path(fs: Seq<FileEntry>, p: Seq<u8>) -> Option<Seq<u8>> {
    match entry_lookup(fs, p) {
        Some(Some(t)) => Some(t),
        _ => None,
    }
}

/// An executable entry result read as the spec one.
pub open spec fn opt_entry_view(o: Option<Option<Vec<u8>>>) -> Option<Option<Seq<u8>>> {
    match o {
        None => None,
        Some(None) => Some(None),
        Some(Some(v)) => Some(Some(v@)),
    }
}

/// Look up a path's entry: whether the snapshot holds it at all, and its
/// text where it was readable.
#[verifier::loop_isolation(false)]
fn lookup_entry(files: &FileTable, p: &Vec<u8>) -> (r: Option<Option<Vec<u8>>>)
    ensures
        opt_entry_view(r) == entry_lookup(files.files@, p@),
{
    let mut i: usize = 0;
    while i < files.files.len()
        invariant
            0 <= i <= files.files.len(),
            entry_lookup(files.files@, p@) == entry_from(files.files@, p@, i as int),
        decreases files.files.len() - i,
    {
        if eq_bytes(&files.files[i].path, p) {
            match &files.files[i].text {
                Some(t) => {
                    return Some(Some(copy_vec(t)));
                },
                None => {
                    return Some(None);
                },
            }
        }
        i = i + 1;
    }
    None
}

/// Read a path's text from the snapshot, readable entries only.
pub fn lookup_text(files: &FileTable, p: &Vec<u8>) -> (r: Option<Vec<u8>>)
    ensures
        (r is Some) == (lookup_path(files.files@, p@) is Some),
        r matches Some(t) ==> lookup_path(files.files@, p@) matches Some(s) && t@ == s,
{
    match lookup_entry(files, p) {
        Some(Some(t)) => Some(t),
        _ => None,
    }
}

/// Why a device failed to compile.
#[derive(Debug)]
pub enum CompileError {
    /// A present layer file did not parse as YAML; holds that file's path.
    Parse(Vec<u8>),
    /// A present layer file could not be read; holds that file's path.
    Read(Vec<u8>),
    /// The device's directory name is shorter than the two bytes the
    /// regional derivation needs; holds the device path.
    ShortDirName(Vec<u8>),
}

/// One layer path's fault: the failing path, and whether it failed to
/// parse (`true`) rather than to be read (`false`).
pub type LayerFault = (Seq<u8>, bool);

/// Fold the layer paths in order into the document list: a path with no
/// file behind it is skipped, a present file must be readable and must
/// parse, and the first fault (in path order) is the error.
pub open spec fn docs_of(fs: Seq<FileEntry>, paths: Seq<Seq<u8>>) -> Result<
    Seq<Document>,
    LayerFault,
>
    decreases paths.len(),
{
    if paths.len() == 0 {
        Ok(Seq::empty())
    } else {
        match docs_of(fs, paths.drop_last()) {
            Err(f) => Err(f),
            Ok(ds) => match entry_lookup(fs, paths.last()) {
                None => Ok(ds),
                Some(None) => Err((paths.last(), false)),
                Some(Some(t)) => match yaml_doc_of(t) {
                    None => Err((paths.last(), true)),
                    Some(d) => Ok(ds.push(d)),
                },
            },
        }
    }
}

/// One step of the fold above.
pub open spec fn docs_step(
    st: Result<Seq<Document>, LayerFault>,
    fs: Seq<FileEntry>,
    p: Seq<u8>,
) -> Result<Seq<Document>, LayerFault> {
    match st {
        Err(f) => Err(f),
        Ok(ds) => match entry_lookup(fs, p) {
            None => Ok(ds),
            Some(None) => Err((p, false)),
            Some(Some(t)) => match yaml_doc_of(t) {
                None => Err((p, true)),
                Some(d) => Ok(ds.push(d)),
            },
        },
    }
}

/// The executable state read as the spec fold state.
pub open spec fn state_view(st: Result<Vec<Document>, CompileError>) -> Result<
    Seq<Document>,
    LayerFault,
> {
    match st {
        Ok(v) => Ok(v@),
        Err(CompileError::Parse(p)) => Err((p@, true)),
        Err(CompileError::Read(p)) => Err((p@, false)),
        Err(CompileError::ShortDirName(p)) => Err((p@, false)),
    }
}

/// Consult one layer path and extend the document list.
fn step_layer(st: Result<Vec<Document>, CompileError>, files: &FileTable, path: &Vec<u8>) -> (r:
    Result<Vec<Document>, CompileError>)
    ensures
        state_view(r) == docs_step(state_view(st), files.files@, path@),
        r matches Err(e) ==> (st matches Err(e0) && e == e0) || (e matches CompileError::Parse(p)
            && p@ == path@) || (e matches CompileError::Read(p) && p@ == path@),
{
    let mut docs = match st {
        Err(e) => {
            return Err(e);
        },
        Ok(d) => d,
    };
    match lookup_entry(files, path) {
        None => Ok(docs),
        Some(None) => Err(CompileError::Read(copy_vec(path))),
        Some(Some(t)) => match parse_yaml(&t) {
            None => Err(CompileError::Parse(copy_vec(path))),
            Some(d) => {
                let ghost pre = docs@;
                docs.push(d);
                proof {
                    assert(docs@ == pre.push(d));
                }
                Ok(docs)
            },
        },
    }
}

/// The merged specification of one device, with the five layer paths that
/// produced it.
pub struct Specification {
    pub partitional: Vec<u8>,
    pub regional: Vec<u8>,
    pub common: Vec<u8>,
    pub zonal: Vec<u8>,
    pub device: Vec<u8>,
    pub compiled: Vec<(Vec<u8>, serde_json::Value)>,
}

/// What `Specification::build` must return for the given snapshot and
/// layer paths (lowest-priority first, the device's own file last).
pub open spec fn build_matches(
    r: Result<Specification, CompileError>,
    fs: Seq<FileEntry>,
    paths: Seq<Seq<u8>>,
) -> bool {
    match docs_of(fs, paths) {
        Ok(ds) => r matches Ok(s) && s.partitional@ == paths[0] && s.regional@ == paths[1]
            && s.common@ == paths[2] && s.zonal@ == paths[3] && s.device@ == paths[4] && pairs_view(
            s.compiled@,
        ) == merged_of(ds) && unique_keys(pairs_view(s.compiled@)),
        Err(f) => r matches Err(e) && if f.1 {
            e matches CompileError::Parse(q) && q@ == f.0
        } else {
            e matches CompileError::Read(q) && q@ == f.0
        },
    }
}

impl Specification {
    /// Read the five layer files that exist, parse them, and merge them in
    /// fixed precedence order. An absent file is skipped; a present file
    /// that cannot be read, or does not parse, fails the whole device.
    pub fn build(
        partitional: &Vec<u8>,
        regional: &Vec<u8>,
        common: &Vec<u8>,
        zonal: &Vec<u8>,
        device: &Vec<u8>,
        files: &FileTable,
    ) -> (r: Result<Specification, CompileError>)
        ensures
            build_matches(
                r,
                files.files@,
                seq![partitional@, regional@, common@, zonal@, device@],
            ),
    {
        let ghost fs = files.files@;
        let ghost s1: Seq<Seq<u8>> = seq![partitional@];
        let ghost s2: Seq<Seq<u8>> = seq![partitional@, regional@];
        let ghost s3: Seq<Seq<u8>> = seq![partitional@, regional@, common@];
        let ghost s4: Seq<Seq<u8>> = seq![partitional@, regional@, common@, zonal@];
        let ghost s5: Seq<Seq<u8>> = seq![partitional@, regional@, common@, zonal@, device@];
        proof {
            assert(s1.drop_last() =~= Seq::<Seq<u8>>::empty());
            assert(s2.drop_last() =~= s1);
            assert(s3.drop_last() =~= s2);
            assert(s4.drop_last() =~= s3);
            assert(s5.drop_last() =~= s4);
        }
        let empty_docs: Vec<Document> = Vec::new();
        proof {
            assert(empty_docs@ =~= Seq::<Document>::empty());
        }
        let st: Result<Vec<Document>, CompileError> = Ok(empty_docs);
        proof {
            assert(state_view(st) == docs_of(fs, Seq::<Seq<u8>>::empty()));
        }
        let st = step_layer(st, files, partitional);
        proof {
            assert(s1.last() == partitional@);
            assert(state_view(st) == docs_of(fs, s1));
        }
        let st = step_layer(st, files, regional);
        proof {
            assert(s2.last() == regional@);
            assert(state_view(st) == docs_of(fs, s2));
        }
        let st = step_layer(st, files, common);
        proof {
            assert(s3.last() == common@);
            assert(state_view(st) == docs_of(fs, s3));
        }
        let st = step_layer(st, files, zonal);
        proof {
            assert(s4.last() == zonal@);
            assert(state_view(st) == docs_of(fs, s4));
        }
        let st = step_layer(st, files, device);
        proof {
            assert(s5.last() == device@);
            assert(state_view(st) == docs_of(fs, s5));
        }
        match st {
            Err(e) => Err(e),
            Ok(docs) => {
                let compiled = merge_documents(&docs);
                Ok(
                    Specification {
                        partitional: copy_vec(partitional),
                        regional: copy_vec(regional),
                        common: copy_vec(common),
                        zonal: copy_vec(zonal),
                        device: copy_vec(device),
                        compiled,
                    },
                )
            },
        }
    }

    /// The device's template class: its parent directory name with digits
    /// stripped.
    pub fn get_layer(&self) -> (r: Vec<u8>)
        ensures
            r@ == layer_of(self.device@),
    {
        layer_vec(&self.device)
    }

    /// The device's host name: the base name of its path.
    pub fn get_hostname(&self) -> (r: Vec<u8>)
        ensures
            r@ == hostname_of(self.device@),
    {
        basename_vec(&self.device)
    }
}

/// Missing-layer tolerance law: a layer path with no file behind it at
/// all contributes nothing: the document fold (and with it the merge and
/// whether the build succeeds) is exactly as if the path were not
/// consulted at all.
pub proof fn lemma_missing_layer(fs: Seq<FileEntry>, paths: Seq<Seq<u8>>, i: int)
    requires
        0 <= i < paths.len(),
        entry_lookup(fs, paths[i]) is None,
    ensures
        docs_of(fs, paths.remove(i)) == docs_of(fs, paths),
    decreases paths.len(),
{
    if i == paths.len() - 1 {
        assert(paths.remove(i) =~= paths.drop_last());
    } else {
        assert(paths.remove(i).last() == paths.last());
        assert(paths.remove(i).drop_last() =~= paths.drop_last().remove(i));
        assert(paths.drop_last()[i] == paths[i]);
        lemma_missing_layer(fs, paths.drop_last(), i);
    }
}

/// The relative part of `p` under `root`.
pub open spec fn rel_of(root: Seq<u8>, p: Seq<u8>) -> Seq<u8> {
    p.subrange(root.len() as int + 1, p.len() as int)
}

/// A candidate device spec: a path under the root whose relative part
/// holds no `common` anywhere and ends with `.yaml`.
pub open spec fn is_candidate(root: Seq<u8>, p: Seq<u8>) -> bool {
    starts_with_seq(p, root + seq![47u8]) && !contains_seq(rel_of(root, p), lit_common())
        && ends_with_seq(rel_of(root, p), lit_dot_yaml())
}

/// The candidate device paths, in snapshot order.
pub open spec fn candidates_of(root: Seq<u8>, fs: Seq<FileEntry>) -> Seq<Seq<u8>>
    decreases fs.len(),
{
    if fs.len() == 0 {
        Seq::empty()
    } else {
        candidates_of(root, fs.drop_last()) + if is_candidate(root, fs.last().path@) {
            seq![fs.last().path@]
        } else {
            Seq::empty()
        }
    }
}

/// View of a list of byte vectors.
pub open spec fn vecs_view(s: Seq<Vec<u8>>) -> Seq<Seq<u8>> {
    s.map_values(|v: Vec<u8>| v@)
}

/// Enumerate the candidate device specs under the root: every snapshot
/// entry under `root/` whose relative path avoids `common` and ends with
/// `.yaml`, in snapshot order.
#[verifier::loop_isolation(false)]
pub fn get_specs(spec_path: &Vec<u8>, files: &FileTable) -> (r: Vec<Vec<u8>>)
    ensures
        vecs_view(r@) == candidates_of(spec_path@, files.files@),
{
    let mut pref = copy_vec(spec_path);
    pref.push(47);
    proof {
        assert(pref@ =~= spec_path@ + seq![47u8]);
    }
    let common_needle = common_lit();
    let yaml_needle = dot_yaml_lit();
    let mut r: Vec<Vec<u8>> = Vec::new();
    proof {
        assert(vecs_view(r@) =~= Seq::<Seq<u8>>::empty());
    }
    let mut i: usize = 0;
    while i < files.files.len()
        invariant
            0 <= i <= files.files.len(),
            pref@ == spec_path@ + seq![47u8],
            common_needle@ == lit_common(),
            yaml_needle@ == lit_dot_yaml(),
            vecs_view(r@) == candidates_of(spec_path@, files.files@.subrange(0, i as int)),
        decreases files.files.len() - i,
    {
        let ghost prefix_fs = files.files@.subrange(0, i as int);
        proof {
            assert(files.files@.subrange(0, i + 1 as int).drop_last() =~= prefix_fs);
            assert(files.files@.subrange(0, i + 1 as int).last() == files.files@[i as int]);
        }
        let p = &files.files[i].path;
        let mut keep = false;
        if starts_with_bytes(p, &pref) {
            let rel = sub_vec(p, pref.len(), p.len());
            proof {
                assert(rel@ == rel_of(spec_path@, p@));
            }
            if !contains_bytes(&rel, &common_needle) && ends_with_bytes(&rel, &yaml_needle) {
                keep = true;
            }
        }
        if keep {
            let ghost before = vecs_view(r@);
            r.push(copy_vec(p));
            proof {
                assert(is_candidate(spec_path@, p@));
                assert(vecs_view(r@) =~= before + seq![p@]);
            }
        } else {
            proof {
                assert(!is_candidate(spec_path@, p@));
                assert(vecs_view(r@) + Seq::<Seq<u8>>::empty() =~= vecs_view(r@));
            }
        }
        i = i + 1;
    }
    proof {
        assert(files.files@.subrange(0, files.files@.len() as int) =~= files.files@);
    }
    r
}

/// The candidates kept by the pattern: those whose base name it matches.
pub open spec fn filtered_of(psrc: Seq<u8>, l: Seq<Seq<u8>>) -> Seq<Seq<u8>>
    decreases l.len(),
{
    if l.len() == 0 {
        Seq::empty()
    } else {
        filtered_of(psrc, l.drop_last()) + if regex_match(psrc, basename_of(l.last())) {
            seq![l.last()]
        } else {
            Seq::empty()
        }
    }
}

/// Keep the spec paths whose base name the pattern matches, in order.
#[verifier::loop_isolation(false)]
pub fn filter_specs(pattern: &Pattern, spec_list: Vec<Vec<u8>>) -> (r: Vec<Vec<u8>>)
    ensures
        vecs_view(r@) == filtered_of(pattern.source(), vecs_view(spec_list@)),
{
    let mut r: Vec<Vec<u8>> = Vec::new();
    proof {
        assert(vecs_view(r@) =~= Seq::<Seq<u8>>::empty());
    }
    let mut i: usize = 0;
    while i < spec_list.len()
        invariant
            0 <= i <= spec_list.len(),
            vecs_view(r@) == filtered_of(pattern.source(), vecs_view(spec_list@).subrange(0, i as int)),
        decreases spec_list.len() - i,
    {
        let ghost prefix_l = vecs_view(spec_list@).subrange(0, i as int);
        proof {
            assert(vecs_view(spec_list@).subrange(0, i + 1 as int).drop_last() =~= prefix_l);
            assert(vecs_view(spec_list@).subrange(0, i + 1 as int).last() == spec_list@[i as int]@);
        }
        let name = basename_vec(&spec_list[i]);
        if pattern.is_match(&name) {
            let ghost before = vecs_view(r@);
            r.push(copy_vec(&spec_list[i]));
            proof {
                assert(vecs_view(r@) =~= before + seq![spec_list@[i as int]@]);
            }
        } else {
            proof {
                assert(vecs_view(r@) + Seq::<Seq<u8>>::empty() =~= vecs_view(r@));
            }
        }
        i = i + 1;
    }
    proof {
        assert(vecs_view(spec_list@).subrange(0, vecs_view(spec_list@).len() as int) =~= vecs_view(
            spec_list@,
        ));
    }
    r
}

proof fn lemma_filtered_subset(psrc: Seq<u8>, l: Seq<Seq<u8>>, x: Seq<u8>)
    requires
        filtered_of(psrc, l).contains(x),
    ensures
        l.contains(x),
    decreases l.len(),
{
    if l.len() > 0 {
        let f = filtered_of(psrc, l);
        let fd = filtered_of(psrc, l.drop_last());
        let idx = choose|idx: int| 0 <= idx < f.len() && f[idx] == x;
        if idx < fd.len() {
            assert(fd[idx] == x);
            assert(fd.contains(x));
            lemma_filtered_subset(psrc, l.drop_last(), x);
            let j = choose|j: int| 0 <= j < l.drop_last().len() && l.drop_last()[j] == x;
            assert(l[j] == x);
        } else {
            assert(f[idx] == l.last());
            assert(l[l.len() - 1] == x);
        }
    }
}

proof fn lemma_candidates_are_candidates(root: Seq<u8>, fs: Seq<FileEntry>, x: Seq<u8>)
    requires
        candidates_of(root, fs).contains(x),
    ensures
        is_candidate(root, x),
    decreases fs.len(),
{
    if fs.len() > 0 {
        let c = candidates_of(root, fs);
        let cd = candidates_of(root, fs.drop_last());
        let idx = choose|idx: int| 0 <= idx < c.len() && c[idx] == x;
        if idx < cd.len() {
            assert(cd[idx] == x);
            assert(cd.contains(x));
            lemma_candidates_are_candidates(root, fs.drop_last(), x);
        } else {
            assert(c[idx] == fs.last().path@);
        }
    }
}

/// Discovery exclusion law: whatever the pattern, a file whose path
/// relative to the root contains `common` anywhere is never selected.
pub proof fn lemma_discovery_excludes_common(
    psrc: Seq<u8>,
    root: Seq<u8>,
    fs: Seq<FileEntry>,
    x: Seq<u8>,
)
    requires
        filtered_of(psrc, candidates_of(root, fs)).contains(x),
    ensures
        !contains_seq(rel_of(root, x), lit_common()),
{
    lemma_filtered_subset(psrc, candidates_of(root, fs), x);
    lemma_candidates_are_candidates(root, fs, x);
}

/// The device's directory name is too short for the regional derivation.
pub open spec fn device_short_dir(dev: Seq<u8>) -> bool {
    basename_of(parent_of(dev)).len() < 2
}

/// The five layer paths of a device, lowest-priority first.
pub open spec fn device_paths_of(fs: Seq<FileEntry>, root: Seq<u8>, dev: Seq<u8>) -> Seq<Seq<u8>> {
    let common = common_path_of(dev);
    let regional = regional_path_of(dev);
    let partitional = partitional_path_of(root, lookup_path(fs, common), lookup_path(fs, regional));
    seq![partitional, regional, common, zonal_path_of(dev), dev]
}

/// The first unparseable layer path of a device, if any.
pub open spec fn device_failure(fs: Seq<FileEntry>, root: Seq<u8>, dev: Seq<u8>) -> Option<
    LayerFault,
> {
    match docs_of(fs, device_paths_of(fs, root, dev)) {
        Ok(_) => None,
        Err(f) => Some(f),
    }
}

/// The device compiles cleanly.
pub open spec fn device_ok(fs: Seq<FileEntry>, root: Seq<u8>, dev: Seq<u8>) -> bool {
    !device_short_dir(dev) && device_failure(fs, root, dev) is None
}

/// What the error for a failing device must look like.
pub open spec fn err_matches(e: CompileError, fs: Seq<FileEntry>, root: Seq<u8>, dev: Seq<u8>) -> bool {
    if device_short_dir(dev) {
        e matches CompileError::ShortDirName(p) && p@ == dev
    } else {
        device_failure(fs, root, dev) matches Some(f) && if f.1 {
            e matches CompileError::Parse(pp) && pp@ == f.0
        } else {
            e matches CompileError::Read(pp) && pp@ == f.0
        }
    }
}

/// One compiled device is correct for its path.
pub open spec fn compiled_for(s: Specification, fs: Seq<FileEntry>, root: Seq<u8>, dev: Seq<u8>) -> bool {
    build_matches(Ok(s), fs, device_paths_of(fs, root, dev))
}

/// Discover the devices under `spec_path`, keep those whose base name the
/// pattern matches, and compile each in order; the first failing device
/// fails the run.
#[verifier::loop_isolation(false)]
pub fn compile(pattern: &Pattern, spec_path: &Vec<u8>, files: &FileTable) -> (r: Result<
    Vec<Specification>,
    CompileError,
>)
    ensures
        ({
            let devs = filtered_of(pattern.source(), candidates_of(spec_path@, files.files@));
            &&& (r is Ok <==> (forall|i: int|
                0 <= i < devs.len() ==> device_ok(files.files@, spec_path@, #[trigger] devs[i])))
            &&& (r matches Ok(out) ==> out.len() == devs.len() && (forall|i: int|
                0 <= i < devs.len() ==> compiled_for(
                    #[trigger] out[i],
                    files.files@,
                    spec_path@,
                    devs[i],
                )))
            &&& (r matches Err(e) ==> (exists|i: int|
                0 <= i < devs.len() && (forall|j: int|
                    0 <= j < i ==> device_ok(files.files@, spec_path@, #[trigger] devs[j]))
                    && err_matches(e, files.files@, spec_path@, #[trigger] devs[i])))
        }),
{
    let ghost fs = files.files@;
    let ghost root = spec_path@;
    let spec_list = filter_specs(pattern, get_specs(spec_path, files));
    let ghost devs = filtered_of(pattern.source(), candidates_of(root, fs));
    proof {
        assert(vecs_view(spec_list@) == devs);
    }
    let mut out: Vec<Specification> = Vec::new();
    let mut i: usize = 0;
    while i < spec_list.len()
        invariant
            0 <= i <= spec_list.len(),
            devs == vecs_view(spec_list@),
            out.len() == i,
            forall|j: int| 0 <= j < i ==> device_ok(fs, root, #[trigger] devs[j]),
            forall|j: int|
                0 <= j < i ==> compiled_for(#[trigger] out@[j], fs, root, devs[j]),
        decreases spec_list.len() - i,
    {
        let dev = &spec_list[i];
        proof {
            assert(dev@ == devs[i as int]);
        }
        let zonal = get_zonal(dev);
        let common = get_common(dev);
        let parent = parent_vec(dev);
        let dir = basename_vec(&parent);
        if dir.len() < 2 {
            let e = CompileError::ShortDirName(copy_vec(dev));
            proof {
                assert(device_short_dir(devs[i as int]));
                assert(err_matches(e, fs, root, devs[i as int]));
            }
            return Err(e);
        }
        let regional = get_regional(dev);
        let common_text = lookup_text(files, &common);
        let regional_text = lookup_text(files, &regional);
        let ct = match &common_text {
            Some(t) => Some(t),
            None => None,
        };
        let rt = match &regional_text {
            Some(t) => Some(t),
            None => None,
        };
        proof {
            assert(opt_bytes_view(ct) == lookup_path(fs, common_path_of(dev@)));
            assert(opt_bytes_view(rt) == lookup_path(fs, regional_path_of(dev@)));
        }
        let partitional = get_partional(spec_path, ct, rt);
        let ghost dpaths = device_paths_of(fs, root, dev@);
        proof {
            assert(dpaths =~= seq![partitional@, regional@, common@, zonal@, dev@]);
        }
        match Specification::build(&partitional, &regional, &common, &zonal, dev, files) {
            Ok(s) => {
                proof {
                    assert(build_matches(Ok(s), fs, dpaths));
                    assert(compiled_for(s, fs, root, devs[i as int]));
                    assert(device_ok(fs, root, devs[i as int]));
                }
                out.push(s);
            },
            Err(e) => {
                proof {
                    assert(build_matches(Err(e), fs, dpaths));
                    assert(err_matches(e, fs, root, devs[i as int]));
                }
                return Err(e);
            },
        }
        i = i + 1;
    }
    Ok(out)
}

} // verus!
