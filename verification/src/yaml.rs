//! The manifest of a deployment as a tree of YAML values: the files that it
//! names, which are uploaded, and the rewriting of their paths once they
//! are.
//!
//! A manifest names files in four places: the schema, the program of each
//! data source and of each template, and the interface descriptions of
//! each of them. Each such path is a string under the key `file`.

use crate::deploy::{resolved_path, to_ipfs_path, uploads_of, Uploads};
use vstd::prelude::*;

verus! {

/// A YAML value. Numbers are kept as they are written.
#[derive(Debug)]
pub enum Yaml {
    Null,
    Bool(bool),
    Number(String),
    String(String),
    Sequence(Vec<Yaml>),
    Mapping(Vec<(Yaml, Yaml)>),
    Tagged(String, Box<Yaml>),
}

/// What a `Yaml` stands for.
pub enum YamlView {
    Null,
    Bool(bool),
    Number(Seq<char>),
    String(Seq<char>),
    Sequence(Seq<YamlView>),
    Mapping(Seq<(YamlView, YamlView)>),
    Tagged(Seq<char>, Box<YamlView>),
}

/// What `v` stands for.
pub open spec fn yaml_view(v: Yaml) -> YamlView
    decreases v,
{
    match v {
        Yaml::Null => YamlView::Null,
        Yaml::Bool(b) => YamlView::Bool(b),
        Yaml::Number(n) => YamlView::Number(n@),
        Yaml::String(s) => YamlView::String(s@),
        Yaml::Sequence(items) => YamlView::Sequence(
            Seq::new(
                items@.len(),
                |i: int|
                    if 0 <= i < items@.len() {
                        yaml_view(items@[i])
                    } else {
                        YamlView::Null
                    },
            ),
        ),
        Yaml::Mapping(entries) => YamlView::Mapping(
            Seq::new(
                entries@.len(),
                |i: int|
                    if 0 <= i < entries@.len() {
                        (yaml_view(entries@[i].0), yaml_view(entries@[i].1))
                    } else {
                        (YamlView::Null, YamlView::Null)
                    },
            ),
        ),
        Yaml::Tagged(tag, inner) => YamlView::Tagged(tag@, Box::new(yaml_view(*inner))),
    }
}

impl View for Yaml {
    type V = YamlView;

    open spec fn view(&self) -> YamlView {
        yaml_view(*self)
    }
}

/// The views of the values of `items`, in order.
pub open spec fn item_views(items: Seq<Yaml>) -> Seq<YamlView> {
    Seq::new(items.len(), |i: int| items[i]@)
}

/// The views of the keys and values of `entries`, in order.
pub open spec fn entry_views(entries: Seq<(Yaml, Yaml)>) -> Seq<(YamlView, YamlView)> {
    Seq::new(entries.len(), |i: int| (entries[i].0@, entries[i].1@))
}

/// The view of a sequence is the views of its items.
pub proof fn lemma_sequence_view(items: Vec<Yaml>)
    ensures
        Yaml::Sequence(items)@ == YamlView::Sequence(item_views(items@)),
{
    let s = Yaml::Sequence(items);
    assert(s@ is Sequence);
    assert(s@->Sequence_0 =~= item_views(items@));
}

/// The view of a mapping is the views of its entries.
pub proof fn lemma_mapping_view(entries: Vec<(Yaml, Yaml)>)
    ensures
        Yaml::Mapping(entries)@ == YamlView::Mapping(entry_views(entries@)),
{
    let m = Yaml::Mapping(entries);
    assert(m@ is Mapping);
    assert(m@->Mapping_0 =~= entry_views(entries@));
}

/// Copies of the values of `items`, in order.
fn clone_items(items: &Vec<Yaml>) -> (out: Vec<Yaml>)
    ensures
        item_views(out@) == item_views(items@),
    decreases items,
{
    let mut out: Vec<Yaml> = Vec::new();
    let mut i: usize = 0;
    while i < items.len()
        invariant
            0 <= i <= items.len(),
            out@.len() == i,
            forall|j: int| 0 <= j < i ==> out@[j]@ == items@[j]@,
        decreases items.len() - i,
    {
        out.push(items[i].clone());
        i = i + 1;
    }
    assert(item_views(out@) =~= item_views(items@));
    out
}

/// Copies of the entries of `entries`, in order.
fn clone_entries(entries: &Vec<(Yaml, Yaml)>) -> (out: Vec<(Yaml, Yaml)>)
    ensures
        entry_views(out@) == entry_views(entries@),
    decreases entries,
{
    let mut out: Vec<(Yaml, Yaml)> = Vec::new();
    let mut i: usize = 0;
    while i < entries.len()
        invariant
            0 <= i <= entries.len(),
            out@.len() == i,
            forall|j: int|
                0 <= j < i ==> out@[j].0@ == entries@[j].0@ && out@[j].1@ == entries@[j].1@,
        decreases entries.len() - i,
    {
        let key = entries[i].0.clone();
        let value = entries[i].1.clone();
        out.push((key, value));
        i = i + 1;
    }
    assert(entry_views(out@) =~= entry_views(entries@));
    out
}

impl Clone for Yaml {
    fn clone(&self) -> (r: Self)
        ensures
            r@ == self@,
        decreases self,
    {
        match self {
            Yaml::Null => Yaml::Null,
            Yaml::Bool(b) => Yaml::Bool(*b),
            Yaml::Number(n) => Yaml::Number(n.clone()),
            Yaml::String(s) => Yaml::String(s.clone()),
            Yaml::Sequence(items) => {
                let out = clone_items(items);
                proof {
                    lemma_sequence_view(out);
                    lemma_sequence_view(*items);
                }
                Yaml::Sequence(out)
            },
            Yaml::Mapping(entries) => {
                let out = clone_entries(entries);
                proof {
                    lemma_mapping_view(out);
                    lemma_mapping_view(*entries);
                }
                Yaml::Mapping(out)
            },
            Yaml::Tagged(tag, inner) => {
                let copy = (**inner).clone();
                Yaml::Tagged(tag.clone(), Box::new(copy))
            },
        }
    }
}

/// A place in a manifest.
#[derive(Clone, Copy, Debug, PartialEq, Eq, Structural)]
pub enum Part {
    /// The path of a file.
    File,
    /// What names a file under the key `file`: the schema, or the
    /// description of an interface.
    Holder,
    /// The descriptions of the interfaces of a mapping.
    Abis,
    /// The mapping of a data source or of a template: it names its own file
    /// and, under the key `abis`, its interfaces.
    Mapping,
    /// A data source or a template, with its mapping under the key
    /// `mapping`.
    Source,
    /// The data sources, or the templates.
    Sources,
    /// The manifest: the schema under the key `schema`, the data sources
    /// under `dataSources` and the templates under `templates`.
    Manifest,
}

impl Part {
    /// How deep below a part the files lie at most.
    pub open spec fn rank(self) -> nat {
        match self {
            Part::File => 0,
            Part::Holder => 1,
            Part::Abis => 2,
            Part::Mapping => 3,
            Part::Source => 4,
            Part::Sources => 5,
            Part::Manifest => 6,
        }
    }
}

/// The value without the tags around it.
pub open spec fn untagged(v: YamlView) -> YamlView
    decreases v,
{
    match v {
        YamlView::Tagged(_, inner) => untagged(*inner),
        _ => v,
    }
}

/// The position of the first entry at or after `from` whose key is the
/// string `key`, or the number of entries.
pub open spec fn key_position(entries: Seq<(YamlView, YamlView)>, key: Seq<char>, from: int) -> int
    decreases entries.len() - from,
{
    if from < 0 || from >= entries.len() {
        entries.len() as int
    } else if entries[from].0 == YamlView::String(key) {
        from
    } else {
        key_position(entries, key, from + 1)
    }
}

/// The value `v`, which stands at the place `part` of a manifest, with the
/// paths of the uploaded files replaced by their paths in the store.
///
/// A path is replaced where it is a string, with or without tags around it;
/// the string that replaces it has no tags. Mappings and sequences are
/// looked into through their tags. What is not of the expected shape stays
/// as it is.
pub open spec fn resolved(part: Part, v: YamlView, uploads: Uploads) -> YamlView
    decreases part.rank(), 0nat, v,
{
    match part {
        Part::File => match untagged(v) {
            YamlView::String(path) => YamlView::String(resolved_path(uploads, path)),
            _ => v,
        },
        Part::Holder => at_key(v, "file"@, Part::File, uploads),
        Part::Abis => each(v, Part::Holder, uploads),
        Part::Mapping => at_key(
            at_key(v, "abis"@, Part::Abis, uploads),
            "file"@,
            Part::File,
            uploads,
        ),
        Part::Source => at_key(v, "mapping"@, Part::Mapping, uploads),
        Part::Sources => each(v, Part::Source, uploads),
        Part::Manifest => at_key(
            at_key(
                at_key(v, "schema"@, Part::Holder, uploads),
                "dataSources"@,
                Part::Sources,
                uploads,
            ),
            "templates"@,
            Part::Sources,
            uploads,
        ),
    }
}

/// The mapping `v` with the value under the key `key`, which stands at the
/// place `part`, resolved. Any other value stays as it is.
pub open spec fn at_key(v: YamlView, key: Seq<char>, part: Part, uploads: Uploads) -> YamlView
    decreases part.rank(), 1nat, v,
{
    match v {
        YamlView::Tagged(tag, inner) => YamlView::Tagged(
            tag,
            Box::new(at_key(*inner, key, part, uploads)),
        ),
        YamlView::Mapping(entries) => {
            let i = key_position(entries, key, 0);
            if 0 <= i < entries.len() {
                YamlView::Mapping(
                    entries.update(i, (entries[i].0, resolved(part, entries[i].1, uploads))),
                )
            } else {
                v
            }
        },
        _ => v,
    }
}

/// The sequence `v` with each of its items, which stand at the place
/// `part`, resolved. Any other value stays as it is.
pub open spec fn each(v: YamlView, part: Part, uploads: Uploads) -> YamlView
    decreases part.rank(), 1nat, v,
{
    match v {
        YamlView::Tagged(tag, inner) => YamlView::Tagged(
            tag,
            Box::new(each(*inner, part, uploads)),
        ),
        YamlView::Sequence(items) => YamlView::Sequence(
            Seq::new(
                items.len(),
                |i: int|
                    if 0 <= i < items.len() {
                        resolved(part, items[i], uploads)
                    } else {
                        YamlView::Null
                    },
            ),
        ),
        _ => v,
    }
}


/// The string that `v` is once its tags are taken off, if it is one.
fn untagged_string(v: &Yaml) -> (r: Option<&str>)
    ensures
        match untagged(v@) {
            YamlView::String(s) => r matches Some(p) && p@ == s,
            _ => r is None,
        },
    decreases v,
{
    match v {
        Yaml::String(s) => Some(s.as_str()),
        Yaml::Tagged(_, inner) => untagged_string(inner),
        Yaml::Sequence(items) => {
            proof {
                lemma_sequence_view(*items);
            }
            None
        },
        Yaml::Mapping(entries) => {
            proof {
                lemma_mapping_view(*entries);
            }
            None
        },
        _ => None,
    }
}

/// The position of the first entry whose key is the string `key`, or the
/// number of entries.
fn position_of_key(entries: &Vec<(Yaml, Yaml)>, key: &str) -> (r: usize)
    ensures
        r == key_position(entry_views(entries@), key@, 0),
        r <= entries@.len(),
{
    let ghost views = entry_views(entries@);
    let wanted = key.to_owned();
    let mut i: usize = 0;
    while i < entries.len()
        invariant
            0 <= i <= entries@.len(),
            views == entry_views(entries@),
            wanted@ == key@,
            key_position(views, key@, 0) == key_position(views, key@, i as int),
        decreases entries@.len() - i,
    {
        assert(views[i as int].0 == entries@[i as int].0@);
        match &entries[i].0 {
            Yaml::String(k) => {
                if *k == wanted {
                    return i;
                }
            },
            Yaml::Sequence(items) => {
                proof {
                    lemma_sequence_view(*items);
                }
            },
            Yaml::Mapping(inner) => {
                proof {
                    lemma_mapping_view(*inner);
                }
            },
            _ => {},
        }
        i = i + 1;
    }
    entries.len()
}

/// The value `v`, which stands at the place `part` of a manifest, with the
/// paths of the uploaded files replaced by their paths in the store.
pub fn resolve(part: Part, v: &Yaml, uploads: &Vec<(String, String)>) -> (r: Yaml)
    ensures
        r@ == resolved(part, v@, uploads_of(uploads@)),
    decreases part.rank(), 0nat, v,
{
    match part {
        Part::File => match untagged_string(v) {
            Some(path) => Yaml::String(to_ipfs_path(uploads, path)),
            None => v.clone(),
        },
        Part::Holder => resolve_at_key(v, "file", Part::File, uploads),
        Part::Abis => resolve_each(v, Part::Holder, uploads),
        Part::Mapping => {
            let with_abis = resolve_at_key(v, "abis", Part::Abis, uploads);
            resolve_at_key(&with_abis, "file", Part::File, uploads)
        },
        Part::Source => resolve_at_key(v, "mapping", Part::Mapping, uploads),
        Part::Sources => resolve_each(v, Part::Source, uploads),
        Part::Manifest => {
            let with_schema = resolve_at_key(v, "schema", Part::Holder, uploads);
            let with_sources = resolve_at_key(&with_schema, "dataSources", Part::Sources, uploads);
            resolve_at_key(&with_sources, "templates", Part::Sources, uploads)
        },
    }
}

/// The mapping `v` with the value under the key `key`, which stands at the
/// place `part`, resolved.
fn resolve_at_key(v: &Yaml, key: &str, part: Part, uploads: &Vec<(String, String)>) -> (r: Yaml)
    ensures
        r@ == at_key(v@, key@, part, uploads_of(uploads@)),
    decreases part.rank(), 1nat, v,
{
    match v {
        Yaml::Tagged(tag, inner) => {
            let changed = resolve_at_key(inner, key, part, uploads);
            Yaml::Tagged(tag.clone(), Box::new(changed))
        },
        Yaml::Mapping(entries) => {
            proof {
                lemma_mapping_view(*entries);
            }
            let i = position_of_key(entries, key);
            if i < entries.len() {
                let mut out = clone_entries(entries);
                let value = resolve(part, &entries[i].1, uploads);
                let k = entries[i].0.clone();
                let ghost views = entry_views(entries@);
                assert(views[i as int] == (entries@[i as int].0@, entries@[i as int].1@));
                out[i] = (k, value);
                proof {
                    lemma_mapping_view(out);
                    assert(entry_views(out@) =~= views.update(
                        i as int,
                        (views[i as int].0, resolved(part, views[i as int].1, uploads_of(uploads@))),
                    )) by {
                        assert forall|j: int| 0 <= j < out@.len() && j != i implies entry_views(
                            out@,
                        )[j] == views[j] by {
                            assert(views[j] == (entries@[j].0@, entries@[j].1@));
                        }
                    }
                }
                Yaml::Mapping(out)
            } else {
                v.clone()
            }
        },
        Yaml::Sequence(items) => {
            proof {
                lemma_sequence_view(*items);
            }
            v.clone()
        },
        _ => v.clone(),
    }
}

/// The sequence `v` with each of its items, which stand at the place
/// `part`, resolved.
fn resolve_each(v: &Yaml, part: Part, uploads: &Vec<(String, String)>) -> (r: Yaml)
    ensures
        r@ == each(v@, part, uploads_of(uploads@)),
    decreases part.rank(), 1nat, v,
{
    match v {
        Yaml::Tagged(tag, inner) => {
            let changed = resolve_each(inner, part, uploads);
            Yaml::Tagged(tag.clone(), Box::new(changed))
        },
        Yaml::Sequence(items) => {
            proof {
                lemma_sequence_view(*items);
            }
            let mut out: Vec<Yaml> = Vec::new();
            let mut i: usize = 0;
            while i < items.len()
                invariant
                    0 <= i <= items@.len(),
                    out@.len() == i,
                    forall|j: int|
                        0 <= j < i ==> (#[trigger] out@[j])@ == resolved(
                            part,
                            items@[j]@,
                            uploads_of(uploads@),
                        ),
                decreases items@.len() - i,
            {
                out.push(resolve(part, &items[i], uploads));
                i = i + 1;
            }
            proof {
                lemma_sequence_view(out);
                assert(item_views(out@) =~= each(v@, part, uploads_of(uploads@))->Sequence_0);
            }
            Yaml::Sequence(out)
        },
        Yaml::Mapping(entries) => {
            proof {
                lemma_mapping_view(*entries);
            }
            v.clone()
        },
        _ => v.clone(),
    }
}

/// The manifest with the paths of the uploaded files replaced by their
/// paths in the store: the file of the schema, and for each data source and
/// each template the file of the mapping and the files of its interfaces.
pub fn resolve_manifest(manifest: &Yaml, uploads: &Vec<(String, String)>) -> (r: Yaml)
    ensures
        r@ == resolved(Part::Manifest, manifest@, uploads_of(uploads@)),
{
    resolve(Part::Manifest, manifest, uploads)
}

/// What a file that a manifest names is.
#[derive(Clone, Copy, Debug, PartialEq, Eq, Structural)]
pub enum FileKind {
    /// The schema.
    Schema,
    /// The description of an interface.
    Abi,
    /// The compiled program of a mapping.
    Program,
}

/// A file that a manifest names: its path as the manifest writes it and,
/// for the description of an interface, the name of the interface.
#[derive(Debug)]
pub struct ManifestFile {
    pub kind: FileKind,
    pub name: String,
    pub path: String,
}

/// What a `ManifestFile` stands for.
pub struct ManifestFileView {
    pub kind: FileKind,
    pub name: Seq<char>,
    pub path: Seq<char>,
}

impl View for ManifestFile {
    type V = ManifestFileView;

    open spec fn view(&self) -> ManifestFileView {
        ManifestFileView { kind: self.kind, name: self.name@, path: self.path@ }
    }
}

/// The views of `files`, in order.
pub open spec fn file_views(files: Seq<ManifestFile>) -> Seq<ManifestFileView> {
    Seq::new(files.len(), |i: int| files[i]@)
}

/// The value under the key `key` of the mapping `v`, with or without tags
/// around the mapping.
pub open spec fn value_at(v: YamlView, key: Seq<char>) -> Option<YamlView> {
    match untagged(v) {
        YamlView::Mapping(entries) => {
            let i = key_position(entries, key, 0);
            if 0 <= i < entries.len() {
                Some(entries[i].1)
            } else {
                None
            }
        },
        _ => None,
    }
}

/// The string that `v` is, with or without tags around it.
pub open spec fn text_of(v: YamlView) -> Option<Seq<char>> {
    match untagged(v) {
        YamlView::String(s) => Some(s),
        _ => None,
    }
}

/// The items of the sequence `v`, with or without tags around it; none for
/// any other value.
pub open spec fn items_of(v: YamlView) -> Seq<YamlView> {
    match untagged(v) {
        YamlView::Sequence(items) => items,
        _ => Seq::empty(),
    }
}

/// The string under the key `key` of `v`.
pub open spec fn text_at(v: YamlView, key: Seq<char>) -> Option<Seq<char>> {
    match value_at(v, key) {
        Some(f) => text_of(f),
        None => None,
    }
}

/// The items of the sequence under the key `key` of `v`.
pub open spec fn items_at(v: YamlView, key: Seq<char>) -> Seq<YamlView> {
    match value_at(v, key) {
        Some(f) => items_of(f),
        None => Seq::empty(),
    }
}

/// The file of the description `abi` of an interface, if it names one.
/// An interface without a name is called `ABI`.
pub open spec fn abi_file(abi: YamlView) -> Option<ManifestFileView> {
    match text_at(abi, "file"@) {
        Some(path) => Some(
            ManifestFileView {
                kind: FileKind::Abi,
                name: match text_at(abi, "name"@) {
                    Some(name) => name,
                    None => "ABI"@,
                },
                path,
            },
        ),
        None => None,
    }
}

/// The files of the first `n` of the descriptions `abis`, in order.
pub open spec fn abi_files(abis: Seq<YamlView>, n: nat) -> Seq<ManifestFileView>
    decreases n,
{
    if n == 0 || n > abis.len() {
        Seq::empty()
    } else {
        match abi_file(abis[n - 1]) {
            Some(f) => abi_files(abis, (n - 1) as nat).push(f),
            None => abi_files(abis, (n - 1) as nat),
        }
    }
}

/// The program of the mapping `mapping`, if it names one.
pub open spec fn program_file(mapping: YamlView) -> Seq<ManifestFileView> {
    match text_at(mapping, "file"@) {
        Some(path) => seq![ManifestFileView { kind: FileKind::Program, name: Seq::empty(), path }],
        None => Seq::empty(),
    }
}

/// The files of the data source `source`: those of the interfaces of its
/// mapping, then the program of the mapping.
pub open spec fn source_files(source: YamlView) -> Seq<ManifestFileView> {
    match value_at(source, "mapping"@) {
        Some(mapping) => abi_files(
            items_at(mapping, "abis"@),
            items_at(mapping, "abis"@).len(),
        ) + program_file(mapping),
        None => Seq::empty(),
    }
}

/// The files of the first `n` of the data sources `sources`, in order.
pub open spec fn sources_files(sources: Seq<YamlView>, n: nat) -> Seq<ManifestFileView>
    decreases n,
{
    if n == 0 || n > sources.len() {
        Seq::empty()
    } else {
        sources_files(sources, (n - 1) as nat) + source_files(sources[n - 1])
    }
}

/// The schema of the manifest `v`, if it names its file.
pub open spec fn schema_file(v: YamlView) -> Seq<ManifestFileView> {
    match value_at(v, "schema"@) {
        Some(schema) => match text_at(schema, "file"@) {
            Some(path) => seq![
                ManifestFileView { kind: FileKind::Schema, name: Seq::empty(), path },
            ],
            None => Seq::empty(),
        },
        None => Seq::empty(),
    }
}

/// The files that the manifest `v` names, in the order in which they are
/// uploaded: the schema, then for each data source under `dataSources` the
/// descriptions of its interfaces and its program.
pub open spec fn manifest_files(v: YamlView) -> Seq<ManifestFileView> {
    schema_file(v) + sources_files(
        items_at(v, "dataSources"@),
        items_at(v, "dataSources"@).len(),
    )
}

/// Whether one of the first `n` of `files` has the path `path`.
pub open spec fn path_among(files: Seq<ManifestFileView>, n: int, path: Seq<char>) -> bool {
    exists|j: int| 0 <= j < n && j < files.len() && (#[trigger] files[j]).path == path
}

/// The first `n` of `files` without those whose path an earlier one has:
/// a file is uploaded once, under the first of its mentions.
pub open spec fn first_mentions(files: Seq<ManifestFileView>, n: nat) -> Seq<ManifestFileView>
    decreases n,
{
    if n == 0 || n > files.len() {
        Seq::empty()
    } else if path_among(files, n - 1, files[n - 1].path) {
        first_mentions(files, (n - 1) as nat)
    } else {
        first_mentions(files, (n - 1) as nat).push(files[n - 1])
    }
}

/// The files to upload for the manifest `v`: the files that it names, each
/// path once.
pub open spec fn uploads_for(v: YamlView) -> Seq<ManifestFileView> {
    first_mentions(manifest_files(v), manifest_files(v).len())
}

/// The value without the tags around it.
fn without_tags(v: &Yaml) -> (r: &Yaml)
    ensures
        r@ == untagged(v@),
        !(r@ is Tagged),
    decreases v,
{
    match v {
        Yaml::Tagged(_, inner) => without_tags(inner),
        Yaml::Sequence(items) => {
            proof {
                lemma_sequence_view(*items);
            }
            v
        },
        Yaml::Mapping(entries) => {
            proof {
                lemma_mapping_view(*entries);
            }
            v
        },
        _ => v,
    }
}

/// The value under the key `key` of the mapping `v`.
fn get_key<'a>(v: &'a Yaml, key: &str) -> (r: Option<&'a Yaml>)
    ensures
        match value_at(v@, key@) {
            Some(x) => r matches Some(y) && y@ == x,
            None => r is None,
        },
{
    match without_tags(v) {
        Yaml::Mapping(entries) => {
            proof {
                lemma_mapping_view(*entries);
            }
            let i = position_of_key(entries, key);
            if i < entries.len() {
                assert(entry_views(entries@)[i as int].1 == entries@[i as int].1@);
                Some(&entries[i].1)
            } else {
                None
            }
        },
        Yaml::Sequence(items) => {
            proof {
                lemma_sequence_view(*items);
            }
            None
        },
        _ => None,
    }
}

/// The string under the key `key` of `v`.
fn get_text<'a>(v: &'a Yaml, key: &str) -> (r: Option<&'a str>)
    ensures
        match text_at(v@, key@) {
            Some(s) => r matches Some(p) && p@ == s,
            None => r is None,
        },
{
    match get_key(v, key) {
        Some(f) => untagged_string(f),
        None => None,
    }
}

/// The items of the sequence under the key `key` of `v`.
fn get_items<'a>(v: &'a Yaml, key: &str) -> (r: Option<&'a Vec<Yaml>>)
    ensures
        match r {
            Some(items) => item_views(items@) == items_at(v@, key@),
            None => items_at(v@, key@).len() == 0,
        },
{
    match get_key(v, key) {
        Some(f) => match without_tags(f) {
            Yaml::Sequence(items) => {
                proof {
                    lemma_sequence_view(*items);
                }
                Some(items)
            },
            Yaml::Mapping(entries) => {
                proof {
                    lemma_mapping_view(*entries);
                }
                None
            },
            _ => None,
        },
        None => None,
    }
}

/// Appends the files of the mapping of the data source `source` to `out`.
fn push_source_files(source: &Yaml, out: &mut Vec<ManifestFile>)
    ensures
        file_views(final(out)@) == file_views(old(out)@) + source_files(source@),
{
    let ghost before = file_views(out@);
    match get_key(source, "mapping") {
        Some(mapping) => {
            match get_items(mapping, "abis") {
                Some(abis) => {
                    let ghost views = item_views(abis@);
                    let mut i: usize = 0;
                    while i < abis.len()
                        invariant
                            0 <= i <= abis@.len(),
                            views == item_views(abis@),
                            file_views(out@) == before + abi_files(views, i as nat),
                        decreases abis@.len() - i,
                    {
                        let ghost so_far = out@;
                        assert(views[i as int] == abis@[i as int]@);
                        match get_text(&abis[i], "file") {
                            Some(path) => {
                                let name = match get_text(&abis[i], "name") {
                                    Some(name) => name.to_owned(),
                                    None => "ABI".to_owned(),
                                };
                                let file = ManifestFile {
                                    kind: FileKind::Abi,
                                    name,
                                    path: path.to_owned(),
                                };
                                assert(file@ == abi_file(views[i as int])->Some_0);
                                out.push(file);
                                assert(file_views(out@) =~= file_views(so_far).push(file@));
                                assert(file_views(out@) =~= before + abi_files(
                                    views,
                                    (i + 1) as nat,
                                ));
                            },
                            None => {},
                        }
                        i = i + 1;
                    }
                },
                None => {
                    assert(file_views(out@) =~= before + abi_files(
                        items_at(mapping@, "abis"@),
                        0,
                    ));
                },
            }
            let ghost with_abis = out@;
            match get_text(mapping, "file") {
                Some(path) => {
                    let file = ManifestFile {
                        kind: FileKind::Program,
                        name: String::new(),
                        path: path.to_owned(),
                    };
                    assert(file@.name =~= Seq::empty());
                    out.push(file);
                    assert(file_views(out@) =~= file_views(with_abis) + program_file(mapping@));
                },
                None => {
                    assert(file_views(out@) =~= file_views(with_abis) + program_file(mapping@));
                },
            }
            assert(file_views(out@) =~= before + source_files(source@));
        },
        None => {
            assert(file_views(out@) =~= before + source_files(source@));
        },
    }
}

/// The files that the manifest names, in the order in which they are
/// uploaded.
pub fn files_of(manifest: &Yaml) -> (r: Vec<ManifestFile>)
    ensures
        file_views(r@) == manifest_files(manifest@),
{
    let mut out: Vec<ManifestFile> = Vec::new();
    match get_key(manifest, "schema") {
        Some(schema) => match get_text(schema, "file") {
            Some(path) => {
                let file = ManifestFile {
                    kind: FileKind::Schema,
                    name: String::new(),
                    path: path.to_owned(),
                };
                assert(file@.name =~= Seq::empty());
                out.push(file);
            },
            None => {},
        },
        None => {},
    }
    assert(file_views(out@) =~= schema_file(manifest@));
    match get_items(manifest, "dataSources") {
        Some(sources) => {
            let ghost views = item_views(sources@);
            let mut i: usize = 0;
            assert(file_views(out@) =~= schema_file(manifest@) + sources_files(views, 0));
            while i < sources.len()
                invariant
                    0 <= i <= sources@.len(),
                    views == item_views(sources@),
                    file_views(out@) == schema_file(manifest@) + sources_files(views, i as nat),
                decreases sources@.len() - i,
            {
                assert(views[i as int] == sources@[i as int]@);
                push_source_files(&sources[i], &mut out);
                assert(file_views(out@) =~= schema_file(manifest@) + sources_files(
                    views,
                    (i + 1) as nat,
                ));
                i = i + 1;
            }
        },
        None => {
            assert(file_views(out@) =~= schema_file(manifest@) + sources_files(
                items_at(manifest@, "dataSources"@),
                0,
            ));
        },
    }
    out
}

/// Whether one of the first `n` of `files` has the path `path`.
fn mentioned(files: &Vec<ManifestFile>, n: usize, path: &String) -> (r: bool)
    requires
        n <= files@.len(),
    ensures
        r == path_among(file_views(files@), n as int, path@),
{
    let ghost views = file_views(files@);
    let mut j: usize = 0;
    while j < n
        invariant
            0 <= j <= n <= files@.len(),
            views == file_views(files@),
            forall|k: int| 0 <= k < j ==> (#[trigger] views[k]).path != path@,
        decreases n - j,
    {
        assert(views[j as int] == files@[j as int]@);
        if files[j].path == *path {
            return true;
        }
        j = j + 1;
    }
    false
}

/// The files to upload for the manifest, in order: the files that it
/// names, each path once, under the first of its mentions.
pub fn files_to_upload(manifest: &Yaml) -> (r: Vec<ManifestFile>)
    ensures
        file_views(r@) == uploads_for(manifest@),
{
    let files = files_of(manifest);
    let ghost views = file_views(files@);
    let mut out: Vec<ManifestFile> = Vec::new();
    let mut i: usize = 0;
    assert(file_views(out@) =~= first_mentions(views, 0));
    while i < files.len()
        invariant
            0 <= i <= files@.len(),
            views == file_views(files@),
            views == manifest_files(manifest@),
            file_views(out@) == first_mentions(views, i as nat),
        decreases files@.len() - i,
    {
        let ghost so_far = out@;
        assert(views[i as int] == files@[i as int]@);
        if !mentioned(&files, i, &files[i].path) {
            let file = ManifestFile {
                kind: files[i].kind,
                name: files[i].name.clone(),
                path: files[i].path.clone(),
            };
            out.push(file);
            assert(file_views(out@) =~= file_views(so_far).push(views[i as int]));
        }
        i = i + 1;
    }
    out
}

} // verus!
