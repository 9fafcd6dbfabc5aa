//! RenderingBridge: map a compiled specification to its template class,
//! read that class's manifest, and render each listed template through the
//! external engine. Path formation, manifest interpretation and the
//! per-template loop are verified; the engine itself is opaque.
use crate::merge::{find_key, pairs_view, Pairs};
use crate::paths::{layer_of, slash_lit};
use crate::specs::{lookup_path, lookup_text, FileTable, Specification};
use crate::text::{cat, copy_vec, eq_bytes};
use crate::yaml::{
    json_str_list_of, json_str_of, parse_yaml, value_as_str, value_as_str_list, yaml_doc_of,
    Document, Node,
};
use vstd::prelude::*;

verus! {

/// The bytes of `structure.yaml`.
pub open spec fn lit_structure_yaml() -> Seq<u8> {
    seq![
        115u8,
        116u8,
        114u8,
        117u8,
        99u8,
        116u8,
        117u8,
        114u8,
        101u8,
        46u8,
        121u8,
        97u8,
        109u8,
        108u8,
    ]
}

/// The bytes of `.tmpl`.
pub open spec fn lit_dot_tmpl() -> Seq<u8> {
    seq![46u8, 116u8, 109u8, 112u8, 108u8]
}

/// The bytes of `files`.
pub open spec fn lit_files() -> Seq<u8> {
    seq![102u8, 105u8, 108u8, 101u8, 115u8]
}

/// The bytes of `hostname`.
pub open spec fn lit_hostname() -> Seq<u8> {
    seq![104u8, 111u8, 115u8, 116u8, 110u8, 97u8, 109u8, 101u8]
}

/// The bytes of `default_hostname`.
pub open spec fn lit_default_hostname() -> Seq<u8> {
    seq![
        100u8,
        101u8,
        102u8,
        97u8,
        117u8,
        108u8,
        116u8,
        95u8,
        104u8,
        111u8,
        115u8,
        116u8,
        110u8,
        97u8,
        109u8,
        101u8,
    ]
}

pub fn structure_yaml_lit() -> (r: Vec<u8>)
    ensures
        r@ == lit_structure_yaml(),
{
    let mut v: Vec<u8> = Vec::new();
    v.push(115);
    v.push(116);
    v.push(114);
    v.push(117);
    v.push(99);
    v.push(116);
    v.push(117);
    v.push(114);
    v.push(101);
    v.push(46);
    v.push(121);
    v.push(97);
    v.push(109);
    v.push(108);
    proof {
        assert(v@ =~= lit_structure_yaml());
    }
    v
}

pub fn dot_tmpl_lit() -> (r: Vec<u8>)
    ensures
        r@ == lit_dot_tmpl(),
{
    let mut v: Vec<u8> = Vec::new();
    v.push(46);
    v.push(116);
    v.push(109);
    v.push(112);
    v.push(108);
    proof {
        assert(v@ =~= lit_dot_tmpl());
    }
    v
}

pub fn files_lit() -> (r: Vec<u8>)
    ensures
        r@ == lit_files(),
{
    let mut v: Vec<u8> = Vec::new();
    v.push(102);
    v.push(105);
    v.push(108);
    v.push(101);
    v.push(115);
    proof {
        assert(v@ =~= lit_files());
    }
    v
}

pub fn hostname_lit() -> (r: Vec<u8>)
    ensures
        r@ == lit_hostname(),
{
    let mut v: Vec<u8> = Vec::new();
    v.push(104);
    v.push(111);
    v.push(115);
    v.push(116);
    v.push(110);
    v.push(97);
    v.push(109);
    v.push(101);
    proof {
        assert(v@ =~= lit_hostname());
    }
    v
}

pub fn default_hostname_lit() -> (r: Vec<u8>)
    ensures
        r@ == lit_default_hostname(),
{
    let mut v: Vec<u8> = Vec::new();
    v.push(100);
    v.push(101);
    v.push(102);
    v.push(97);
    v.push(117);
    v.push(108);
    v.push(116);
    v.push(95);
    v.push(104);
    v.push(111);
    v.push(115);
    v.push(116);
    v.push(110);
    v.push(97);
    v.push(109);
    v.push(101);
    proof {
        assert(v@ =~= lit_default_hostname());
    }
    v
}

/// The template directory of a device: `{tmpl-root}/{layer}`.
pub open spec fn template_dir_of(troot: Seq<u8>, device: Seq<u8>) -> Seq<u8> {
    troot + seq![47u8] + layer_of(device)
}

/// The manifest path of a template directory: `{dir}/structure.yaml`.
pub open spec fn manifest_path_of(dir: Seq<u8>) -> Seq<u8> {
    dir + seq![47u8] + lit_structure_yaml()
}

/// A listed template's file path: `{dir}/{name}.tmpl`.
pub open spec fn template_path_of(dir: Seq<u8>, name: Seq<u8>) -> Seq<u8> {
    dir + seq![47u8] + name + lit_dot_tmpl()
}

/// First entry with key `k` in a document's top level, or -1.
pub open spec fn entry_index_from(es: Seq<(Vec<u8>, Node)>, k: Seq<u8>, i: int) -> int
    decreases es.len() - i,
{
    if i < 0 || i >= es.len() {
        -1
    } else if es[i].0@ == k {
        i
    } else {
        entry_index_from(es, k, i + 1)
    }
}

/// The ordered template names of a manifest text: the string list under
/// its `files` key; `None` when the text does not parse, has no mapping
/// root, lacks the key, or its value is not a list of strings.
pub open spec fn manifest_list_of(text: Seq<u8>) -> Option<Seq<Seq<u8>>> {
    match yaml_doc_of(text) {
        None => None,
        Some(Document::Other) => None,
        Some(Document::Mapping(es)) => {
            let i = entry_index_from(es@, lit_files(), 0);
            if i < 0 {
                None
            } else {
                match es@[i].1 {
                    Node::Leaf(v) => json_str_list_of(v),
                    Node::Section(_) => None,
                }
            }
        },
    }
}

/// Read the template names out of a manifest text.
#[verifier::loop_isolation(false)]
fn manifest_names(mtext: &Vec<u8>) -> (r: Option<Vec<Vec<u8>>>)
    ensures
        (r is Some) == (manifest_list_of(mtext@) is Some),
        r matches Some(l) ==> manifest_list_of(mtext@) matches Some(m) && l@.map_values(
            |x: Vec<u8>| x@,
        ) == m,
{
    let key = files_lit();
    match parse_yaml(mtext) {
        None => None,
        Some(Document::Other) => None,
        Some(Document::Mapping(es)) => {
            let mut i: usize = 0;
            while i < es.len()
                invariant
                    0 <= i <= es.len(),
                    entry_index_from(es@, lit_files(), 0) == entry_index_from(
                        es@,
                        lit_files(),
                        i as int,
                    ),
                decreases es.len() - i,
            {
                if eq_bytes(&es[i].0, &key) {
                    proof {
                        assert(entry_index_from(es@, lit_files(), i as int) == i);
                    }
                    return match &es[i].1 {
                        Node::Leaf(v) => value_as_str_list(v),
                        Node::Section(_) => None,
                    };
                }
                i = i + 1;
            }
            proof {
                assert(entry_index_from(es@, lit_files(), i as int) == -1);
            }
            None
        },
    }
}

/// The rendered device's name: the string value under the `hostname` key
/// of the compiled data (the last occurrence wins, as it does in the
/// render context), or `default_hostname`.
pub open spec fn device_name_of(data: Pairs) -> Seq<u8> {
    let i = find_key(data, lit_hostname());
    if i < 0 {
        lit_default_hostname()
    } else {
        match json_str_of(data[i].1) {
            Some(s) => s,
            None => lit_default_hostname(),
        }
    }
}

/// Pick the device's display name out of the compiled data.
#[verifier::loop_isolation(false)]
fn device_name(data: &Vec<(Vec<u8>, serde_json::Value)>) -> (r: Vec<u8>)
    ensures
        r@ == device_name_of(pairs_view(data@)),
{
    let key = hostname_lit();
    let mut hit: Option<usize> = None;
    let mut j: usize = 0;
    while j < data.len()
        invariant
            0 <= j <= data.len(),
            hit matches Some(h) ==> h < j && h == find_key(
                pairs_view(data@.subrange(0, j as int)),
                lit_hostname(),
            ),
            hit is None ==> find_key(pairs_view(data@.subrange(0, j as int)), lit_hostname())
                == -1,
        decreases data.len() - j,
    {
        proof {
            assert(pairs_view(data@.subrange(0, j + 1 as int)).drop_last() =~= pairs_view(
                data@.subrange(0, j as int),
            ));
            assert(pairs_view(data@.subrange(0, j + 1 as int)).last() == (
                data@[j as int].0@,
                data@[j as int].1,
            ));
        }
        if eq_bytes(&data[j].0, &key) {
            hit = Some(j);
        }
        j = j + 1;
    }
    proof {
        assert(data@.subrange(0, data@.len() as int) =~= data@);
    }
    match hit {
        None => default_hostname_lit(),
        Some(h) => {
            proof {
                assert(pairs_view(data@)[h as int].1 == data@[h as int].1);
            }
            match value_as_str(&data[h].1) {
                Some(s) => s,
                None => default_hostname_lit(),
            }
        },
    }
}

/// Relies on tera::Tera::add_raw_template and tera::Tera::render: the
/// template text is rendered against a context holding each compiled key
/// as a named variable. Nothing is assumed of the produced text, nor of
/// whether the engine accepts the template.
#[verifier::external_body]
fn render_template(
    name: &Vec<u8>,
    text: &Vec<u8>,
    data: &Vec<(Vec<u8>, serde_json::Value)>,
) -> Result<Vec<u8>, ()> {
    let mut engine = tera::Tera::default();
    let mut context = tera::Context::new();
    for pair in data.iter() {
        context.insert(String::from_utf8_lossy(&pair.0).into_owned(), &pair.1);
    }
    let n = String::from_utf8_lossy(name).into_owned();
    if engine.add_raw_template(&n, &String::from_utf8_lossy(text)).is_err() {
        return Err(());
    }
    match engine.render(&n, &context) {
        Ok(s) => Ok(s.into_bytes()),
        Err(_) => Err(()),
    }
}

/// Copy a compiled pair list, pair for pair.
#[verifier::loop_isolation(false)]
fn copy_pairs(data: &Vec<(Vec<u8>, serde_json::Value)>) -> (r: Vec<(Vec<u8>, serde_json::Value)>)
    ensures
        pairs_view(r@) == pairs_view(data@),
{
    let mut r: Vec<(Vec<u8>, serde_json::Value)> = Vec::new();
    proof {
        assert(pairs_view(r@) =~= pairs_view(data@.subrange(0, 0)));
    }
    let mut i: usize = 0;
    while i < data.len()
        invariant
            0 <= i <= data.len(),
            pairs_view(r@) == pairs_view(data@.subrange(0, i as int)),
        decreases data.len() - i,
    {
        let ghost before = pairs_view(r@);
        r.push((copy_vec(&data[i].0), data[i].1.clone()));
        proof {
            assert(pairs_view(r@) =~= before.push((data@[i as int].0@, data@[i as int].1)));
            assert(pairs_view(data@.subrange(0, i + 1 as int)) =~= before.push(
                (data@[i as int].0@, data@[i as int].1),
            ));
        }
        i = i + 1;
    }
    proof {
        assert(data@.subrange(0, data@.len() as int) =~= data@);
    }
    r
}

/// One device's rendered output: its display name, the rendered
/// (template name, text) pairs in manifest order, and the compiled data
/// it was rendered from, carried along for re-serialization.
pub struct RenderedConfig {
    pub hostname: Vec<u8>,
    pub configs: Vec<(Vec<u8>, Vec<u8>)>,
    pub spec: Vec<(Vec<u8>, serde_json::Value)>,
}

/// Why rendering a device failed.
#[derive(Debug)]
pub enum RenderError {
    /// The layer's manifest file is missing; holds its path.
    MissingManifest(Vec<u8>),
    /// The manifest does not hold a `files:` list of names; holds its path.
    BadManifest(Vec<u8>),
    /// A listed template file is missing; holds its path.
    MissingTemplate(Vec<u8>),
    /// The engine refused a template or its rendering; holds the name.
    Render(Vec<u8>),
}

/// What `process_templates` must return for the given snapshot.
pub open spec fn render_outcome(
    r: Result<RenderedConfig, RenderError>,
    fs: Seq<crate::specs::FileEntry>,
    troot: Seq<u8>,
    spec: Specification,
) -> bool {
    let dir = template_dir_of(troot, spec.device@);
    let mpath = manifest_path_of(dir);
    match lookup_path(fs, mpath) {
        None => r matches Err(e) && e matches RenderError::MissingManifest(p) && p@ == mpath,
        Some(mtext) => match manifest_list_of(mtext) {
            None => r matches Err(e) && e matches RenderError::BadManifest(p) && p@ == mpath,
            Some(names) => match r {
                Ok(rc) => rc.configs.len() == names.len() && (forall|i: int|
                    0 <= i < names.len() ==> #[trigger] rc.configs@[i].0@ == names[i]) && (forall|
                    i: int,
                |
                    0 <= i < names.len() ==> lookup_path(
                        fs,
                        template_path_of(dir, #[trigger] names[i]),
                    ) is Some) && rc.hostname@ == device_name_of(pairs_view(spec.compiled@))
                    && pairs_view(rc.spec@) == pairs_view(spec.compiled@),
                Err(e) => match e {
                    RenderError::MissingTemplate(p) => exists|i: int|
                        0 <= i < names.len() && p@ == template_path_of(dir, #[trigger] names[i])
                            && lookup_path(fs, p@) is None && (forall|j: int|
                            0 <= j < i ==> lookup_path(
                                fs,
                                template_path_of(dir, #[trigger] names[j]),
                            ) is Some),
                    RenderError::Render(n) => exists|i: int|
                        0 <= i < names.len() && n@ == #[trigger] names[i] && (forall|j: int|
                            0 <= j <= i ==> lookup_path(
                                fs,
                                template_path_of(dir, #[trigger] names[j]),
                            ) is Some),
                    _ => false,
                },
            },
        },
    }
}

/// Render a compiled specification: find its layer's template directory
/// under the template root, read the manifest's ordered name list, and
/// render each named template against the compiled data. The first
/// missing manifest, malformed manifest, missing template or engine
/// refusal fails the device; success means every listed template file
/// was present and rendered.
#[verifier::loop_isolation(false)]
pub fn process_templates(spec: &Specification, tmpl_path: &Vec<u8>, files: &FileTable) -> (r:
    Result<RenderedConfig, RenderError>)
    ensures
        render_outcome(r, files.files@, tmpl_path@, *spec),
{
    let slash = slash_lit();
    let layer = spec.get_layer();
    let dir = cat(&cat(tmpl_path, &slash), &layer);
    let mpath = cat(&cat(&dir, &slash), &structure_yaml_lit());
    proof {
        assert(dir@ == template_dir_of(tmpl_path@, spec.device@));
        assert(mpath@ == manifest_path_of(dir@));
    }
    let mtext = match lookup_text(files, &mpath) {
        None => {
            return Err(RenderError::MissingManifest(mpath));
        },
        Some(t) => t,
    };
    let names = match manifest_names(&mtext) {
        None => {
            return Err(RenderError::BadManifest(mpath));
        },
        Some(l) => l,
    };
    let ghost names_v = manifest_list_of(lookup_path(files.files@, mpath@)->Some_0)->Some_0;
    proof {
        assert(names@.map_values(|x: Vec<u8>| x@) == names_v);
    }
    let mut configs: Vec<(Vec<u8>, Vec<u8>)> = Vec::new();
    let mut i: usize = 0;
    while i < names.len()
        invariant
            0 <= i <= names.len(),
            configs.len() == i,
            forall|j: int| 0 <= j < i ==> #[trigger] configs@[j].0@ == names_v[j],
            forall|j: int|
                0 <= j < i ==> lookup_path(
                    files.files@,
                    template_path_of(dir@, #[trigger] names_v[j]),
                ) is Some,
        decreases names.len() - i,
    {
        let name = &names[i];
        proof {
            assert(name@ == names_v[i as int]);
        }
        let tpath = cat(&cat(&cat(&dir, &slash), name), &dot_tmpl_lit());
        proof {
            assert(tpath@ == template_path_of(dir@, names_v[i as int]));
        }
        let ttext = match lookup_text(files, &tpath) {
            None => {
                return Err(RenderError::MissingTemplate(tpath));
            },
            Some(t) => t,
        };
        match render_template(name, &ttext, &spec.compiled) {
            Err(_) => {
                return Err(RenderError::Render(copy_vec(name)));
            },
            Ok(text) => {
                let ghost before = configs@;
                configs.push((copy_vec(name), text));
                proof {
                    assert(configs@.len() == before.len() + 1);
                    assert(configs@[i as int].0@ == names_v[i as int]);
                    assert(forall|j: int| 0 <= j < i ==> configs@[j] == before[j]);
                }
            },
        }
        i = i + 1;
    }
    let hostname = device_name(&spec.compiled);
    let carried = copy_pairs(&spec.compiled);
    Ok(RenderedConfig { hostname, configs, spec: carried })
}

} // verus!
