use vstd::prelude::*;

use crate::errors::ServerError;
use crate::kvlist::kv_view;
use crate::kvlist::map_has_key;
use crate::kvlist::spec_has_key;
use crate::kvlist::spec_put;
use crate::resolver::FileMap;
use crate::textutil::str_to_string;
use vstd::string::StrSliceExecFns;
use vstd::string::StringExecFns;

verus! {

/// One file of a processed package: transformed (or raw) content with the
/// dependencies found in it, a file present but not reached from any entry,
/// or a file whose transformation failed.
pub enum MinimalFile {
    File { c: String, d: Vec<String>, t: bool },
    Ignored(u64),
    Failed(bool),
}

/// The reading of a processed file.
pub enum FileModel {
    File { c: Seq<char>, d: Seq<Seq<char>>, t: bool },
    Ignored(u64),
    Failed(bool),
}

impl View for MinimalFile {
    type V = FileModel;

    open spec fn view(&self) -> FileModel {
        match self {
            MinimalFile::File { c, d, t } => FileModel::File {
                c: c@,
                d: d@.map_values(|s: String| s@),
                t: *t,
            },
            MinimalFile::Ignored(size) => FileModel::Ignored(*size),
            MinimalFile::Failed(b) => FileModel::Failed(*b),
        }
    }
}

/// A processed package: its files by path, and the bare module specifiers
/// its transpiled files import.
pub struct MinimalCachedModule {
    pub f: Vec<(String, MinimalFile)>,
    pub m: Vec<String>,
}

/// What the transformer returns for one file.
pub struct TransformedFile {
    pub content: String,
    pub dependencies: Vec<String>,
}

/// One resolved dependency in a dependency tree reply.
pub struct Dependency {
    pub name: String,
    pub version: String,
    pub depth: u32,
}

impl Dependency {
    pub fn new(name: String, version: String, depth: u32) -> (r: Dependency)
        ensures
            r.name@ == name@,
            r.version@ == version@,
            r.depth == depth,
    {
        Dependency { name, version, depth }
    }
}

/// What one package dependency looks like in the module reply: its declared
/// range and whether any transpiled file imports it.
pub struct DependencyMeta {
    pub version: String,
    pub is_used: bool,
}

/// The reading of a dependency annotation.
pub struct DependencyMetaModel {
    pub version: Seq<char>,
    pub is_used: bool,
}

impl View for DependencyMeta {
    type V = DependencyMetaModel;

    open spec fn view(&self) -> DependencyMetaModel {
        DependencyMetaModel { version: self.version@, is_used: self.is_used }
    }
}

/// Whether `s` occurs among the strings of `v`.
pub fn strs_contain(v: &Vec<String>, s: &str) -> (r: bool)
    ensures
        r == v@.map_values(|x: String| x@).contains(s@),
{
    let ghost vm = v@.map_values(|x: String| x@);
    let mut i: usize = 0;
    while i < v.len()
        invariant
            i <= v.len(),
            vm == v@.map_values(|x: String| x@),
            vm.len() == v@.len(),
            forall|j: int| 0 <= j < v@.len() ==> vm[j] == v@[j]@,
            forall|j: int| 0 <= j < i ==> vm[j] != s@,
        decreases v.len() - i,
    {
        if crate::textutil::str_eq(v[i].as_str(), s) {
            proof {
                assert(vm[i as int] == s@);
            }
            return true;
        }
        i = i + 1;
    }
    false
}

/// The dependency annotations a package's declared dependencies and the
/// collected module imports yield: each declared dependency keeps its
/// range, marked used exactly when some transpiled file imports it.
pub open spec fn spec_dependencies_map(
    deps: Seq<(String, String)>,
    modules: Seq<Seq<char>>,
) -> Seq<(Seq<char>, DependencyMetaModel)> {
    deps.map_values(
        |p: (String, String)|
            (p.0@, DependencyMetaModel { version: p.1@, is_used: modules.contains(p.0@) }),
    )
}

/// Annotate a package's declared dependencies with whether the collected
/// module imports use them.
pub fn build_module_dependencies(deps: &Vec<(String, String)>, modules: &Vec<String>) -> (r: Vec<
    (String, DependencyMeta),
>)
    ensures
        kv_view(r@) == spec_dependencies_map(deps@, modules@.map_values(|s: String| s@)),
{
    let ghost target = spec_dependencies_map(deps@, modules@.map_values(|s: String| s@));
    let mut out: Vec<(String, DependencyMeta)> = Vec::new();
    let n = deps.len();
    let mut i: usize = 0;
    while i < n
        invariant
            i <= n,
            n == deps@.len(),
            target == spec_dependencies_map(deps@, modules@.map_values(|s: String| s@)),
            target.len() == n,
            forall|j: int| 0 <= j < n ==> target[j] == (
                deps@[j].0@,
                DependencyMetaModel {
                    version: deps@[j].1@,
                    is_used: modules@.map_values(|s: String| s@).contains(deps@[j].0@),
                },
            ),
            out@.len() == i,
            forall|j: int| 0 <= j < i ==> (out@[j].0@, out@[j].1@) == target[j],
        decreases n - i,
    {
        let name = str_to_string(deps[i].0.as_str());
        let version = str_to_string(deps[i].1.as_str());
        let used = strs_contain(modules, deps[i].0.as_str());
        out.push((name, DependencyMeta { version, is_used: used }));
        i = i + 1;
    }
    proof {
        crate::kvlist::lemma_kv_view_index(out@);
        assert(kv_view(out@) =~= target);
    }
    out
}

/// The files of the archive that processing did not reach, added to the
/// result as ignored entries carrying their sizes.
pub open spec fn spec_add_ignored(
    result: Seq<(Seq<char>, FileModel)>,
    files: Seq<(Seq<char>, u64)>,
) -> Seq<(Seq<char>, FileModel)>
    decreases files.len(),
{
    if files.len() == 0 {
        result
    } else {
        let prev = spec_add_ignored(result, files.drop_last());
        let e = files.last();
        if spec_has_key(prev, e.0) {
            prev
        } else {
            spec_put(prev, e.0, FileModel::Ignored(e.1))
        }
    }
}

/// Mark every archive file the processing did not touch as ignored.
pub fn add_ignored_files(result: &mut Vec<(String, MinimalFile)>, files: &FileMap)
    ensures
        kv_view(final(result)@) == spec_add_ignored(kv_view(old(result)@), files@),
{
    let ghost r0 = kv_view(result@);
    let ghost fm = files@;
    let n = files.entries.len();
    let mut i: usize = 0;
    proof {
        assert(spec_add_ignored(r0, fm.take(0)) =~= r0);
    }
    while i < n
        invariant
            i <= n,
            n == files.entries@.len(),
            fm == files@,
            fm.len() == n,
            r0 == kv_view(old(result)@),
            forall|j: int| 0 <= j < n ==> fm[j] == (
                files.entries@[j].0@,
                files.entries@[j].1,
            ),
            kv_view(result@) == spec_add_ignored(r0, fm.take(i as int)),
        decreases n - i,
    {
        proof {
            assert(fm.take(i + 1).drop_last() =~= fm.take(i as int));
            assert(fm.take(i + 1).last() == fm[i as int]);
        }
        let key = &files.entries[i].0;
        let size = files.entries[i].1;
        if !map_has_key(result, key.as_str()) {
            crate::kvlist::map_put(result, str_to_string(key.as_str()), MinimalFile::Ignored(size));
        }
        i = i + 1;
    }
    proof {
        assert(fm.take(n as int) =~= fm);
    }
}

/// The cache key a package's manifest is filed under.
pub fn get_cache_key(package_name: &str) -> (r: String)
    ensures
        r@ == "v1::manifest::"@ + package_name@,
{
    let mut s = String::from_str("v1::manifest::");
    s.append(package_name);
    s
}

/// Whether a filename may be handed to the transformer: only JavaScript
/// files, recognised by a name ending in `js`, are.
pub fn check_transformable(filename: &str) -> (r: Result<(), ServerError>)
    ensures
        match r {
            Ok(_) => filename@.len() >= 2 && "js"@.is_suffix_of(filename@),
            Err(e) => !(filename@.len() >= 2 && "js"@.is_suffix_of(filename@)) && (e matches
                ServerError::SWCParseError { message } && message@ == filename@),
        },
{
    proof {
        reveal_strlit("js");
    }
    let n = filename.unicode_len();
    if n >= 2 && crate::textutil::str_ends_with(filename, "js") {
        Ok(())
    } else {
        Err(ServerError::SWCParseError { message: str_to_string(filename) })
    }
}

} // verus!
