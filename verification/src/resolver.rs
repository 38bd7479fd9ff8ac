use vstd::prelude::*;

use crate::kvlist::kv_view;
use crate::kvlist::lemma_filter_push;
use crate::kvlist::map_has_key;
use crate::kvlist::spec_has_key;
use crate::textutil::last_index_of;
use crate::textutil::lemma_last_index_of_props;
use crate::textutil::split_char;
use crate::textutil::str_contains_char;
use crate::textutil::str_eq;
use crate::textutil::str_rfind_char;
use crate::textutil::str_split_char;
use crate::textutil::str_to_string;
use vstd::string::StrSliceExecFns;
use vstd::string::StringExecFns;

verus! {

/// The sizes of the files unpacked from an archive, keyed by relative path.
pub struct FileMap {
    pub entries: Vec<(String, u64)>,
}

impl View for FileMap {
    type V = Seq<(Seq<char>, u64)>;

    open spec fn view(&self) -> Seq<(Seq<char>, u64)> {
        kv_view(self.entries@)
    }
}

/// One step of path normalization: `.` and empty segments vanish, `..` pops
/// the segment before it when there is one, anything else is kept.
pub open spec fn norm_step(acc: Seq<Seq<char>>, part: Seq<char>) -> Seq<Seq<char>> {
    if part == "."@ || part == Seq::<char>::empty() {
        acc
    } else if part == ".."@ {
        if acc.len() > 0 {
            acc.drop_last()
        } else {
            acc
        }
    } else {
        acc.push(part)
    }
}

/// Path segments normalized left to right.
pub open spec fn normalize_parts(parts: Seq<Seq<char>>) -> Seq<Seq<char>>
    decreases parts.len(),
{
    if parts.len() == 0 {
        Seq::empty()
    } else {
        norm_step(normalize_parts(parts.drop_last()), parts.last())
    }
}

/// Segments joined with `c` between them.
pub open spec fn join_char(parts: Seq<Seq<char>>, c: char) -> Seq<char>
    decreases parts.len(),
{
    if parts.len() == 0 {
        Seq::empty()
    } else if parts.len() == 1 {
        parts[0]
    } else {
        join_char(parts.drop_last(), c) + seq![c] + parts.last()
    }
}

/// What making a module specifier absolute yields: the working directory
/// and the specifier joined with `/`, split into segments, normalized, and
/// joined back.
pub open spec fn spec_make_absolute(cwd: Seq<char>, spec_str: Seq<char>) -> Seq<char> {
    join_char(normalize_parts(split_char(cwd + seq!['/'] + spec_str, '/')), '/')
}

/// Join a relative module specifier onto a working directory and normalize
/// `.` and `..` segments away.
pub fn make_mod_specifier_absolute(cwd: &str, mod_specifier: &str) -> (r: String)
    ensures
        r@ == spec_make_absolute(cwd@, mod_specifier@),
{
    let mut full_path = str_to_string(cwd);
    full_path.append("/");
    full_path.append(mod_specifier);
    proof {
        reveal_strlit("/");
        assert(full_path@ =~= cwd@ + seq!['/'] + mod_specifier@);
    }
    let parts = str_split_char(full_path.as_str(), '/');
    let ghost pm = parts@.map_values(|p: String| p@);
    let mut result_parts: Vec<String> = Vec::new();
    let n = parts.len();
    let mut i: usize = 0;
    proof {
        assert(result_parts@.map_values(|p: String| p@) =~= normalize_parts(pm.take(0)));
    }
    while i < n
        invariant
            i <= n,
            n == parts@.len(),
            pm == parts@.map_values(|p: String| p@),
            pm.len() == n,
            forall|j: int| 0 <= j < n ==> pm[j] == parts@[j]@,
            result_parts@.map_values(|p: String| p@) == normalize_parts(pm.take(i as int)),
        decreases n - i,
    {
        let ghost acc = result_parts@.map_values(|p: String| p@);
        proof {
            assert(pm.take(i + 1).drop_last() =~= pm.take(i as int));
            assert(pm.take(i + 1).last() == pm[i as int]);
            reveal_strlit(".");
            reveal_strlit("..");
        }
        let part = &parts[i];
        if str_eq(part.as_str(), ".") || part.as_str().unicode_len() == 0 {
            proof {
                if part@.len() == 0 {
                    assert(part@ =~= Seq::<char>::empty());
                }
            }
        } else if str_eq(part.as_str(), "..") {
            let ghost before = result_parts@;
            if result_parts.len() > 0 {
                result_parts.pop();
            }
            proof {
                if before.len() > 0 {
                    assert(result_parts@.map_values(|p: String| p@) =~= acc.drop_last());
                }
            }
        } else {
            result_parts.push(str_to_string(part.as_str()));
            proof {
                assert(result_parts@.map_values(|p: String| p@) =~= acc.push(pm[i as int]));
            }
        }
        i = i + 1;
    }
    proof {
        assert(pm.take(n as int) =~= pm);
    }
    // Join the kept segments back together.
    let m = result_parts.len();
    let ghost rm = result_parts@.map_values(|p: String| p@);
    if m == 0 {
        proof {
            assert(Seq::<char>::empty() =~= join_char(rm, '/'));
        }
        return String::new();
    }
    let mut out = str_to_string(result_parts[0].as_str());
    let mut k: usize = 1;
    while k < m
        invariant
            1 <= k <= m,
            m == result_parts@.len(),
            rm == result_parts@.map_values(|p: String| p@),
            rm.len() == m,
            forall|j: int| 0 <= j < m ==> rm[j] == result_parts@[j]@,
            out@ == join_char(rm.take(k as int), '/'),
        decreases m - k,
    {
        proof {
            reveal_strlit("/");
            assert(rm.take(k + 1).drop_last() =~= rm.take(k as int));
            assert(rm.take(k + 1).last() == rm[k as int]);
        }
        let ghost pre = out@;
        out.append("/");
        out.append(result_parts[k].as_str());
        proof {
            assert(out@ =~= join_char(rm.take(k as int), '/') + seq!['/'] + rm[k as int]);
            assert(rm.take(k + 1).len() > 1);
        }
        k = k + 1;
    }
    proof {
        assert(rm.take(m as int) =~= rm);
    }
    out
}

/// The directory of a file path: the path joined with `..` and normalized.
pub fn file_path_to_dirname(file_path: &str) -> (r: String)
    ensures
        r@ == spec_make_absolute(file_path@, ".."@),
{
    proof {
        reveal_strlit("..");
    }
    make_mod_specifier_absolute(file_path, "..")
}

/// The extension a path carries: from the last `.` to the end, unless that
/// span is empty, is just the dot, or crosses a `/`.
pub open spec fn spec_extract_extension(s: Seq<char>) -> Option<Seq<char>> {
    let i = last_index_of(s, '.');
    if i < 0 {
        None
    } else {
        let ext = s.skip(i);
        if ext.len() <= 1 || ext.contains('/') {
            None
        } else {
            Some(ext)
        }
    }
}

/// The extension of a file path, dot included.
pub fn extract_file_extension<'a>(file_path: &'a str) -> (r: Option<&'a str>)
    ensures
        match r {
            Some(e) => spec_extract_extension(file_path@) == Some(e@),
            None => spec_extract_extension(file_path@) is None,
        },
{
    proof {
        lemma_last_index_of_props(file_path@, '.');
    }
    match str_rfind_char(file_path, '.') {
        Some(i) => {
            let n = file_path.unicode_len();
            let ext = file_path.substring_char(i, n);
            if ext.unicode_len() <= 1 {
                return None;
            }
            if str_contains_char(ext, '/') {
                return None;
            }
            Some(ext)
        },
        None => None,
    }
}

/// Whether `glob::Pattern::new` accepts `p`.
pub uninterp spec fn glob_pattern_valid(p: Seq<char>) -> bool;

/// Whether the glob written in `p` matches `path`, as the glob library
/// decides it.
pub uninterp spec fn glob_matches(p: Seq<char>, path: Seq<char>) -> bool;

/// Relies on glob::Pattern::new: whether the pattern compiles.
#[verifier::external_body]
fn glob_valid(pattern: &str) -> (r: bool)
    ensures
        r == glob_pattern_valid(pattern@),
{
    glob::Pattern::new(pattern).is_ok()
}

/// Relies on glob::Pattern::new and glob::Pattern::matches: both read only
/// their string arguments; None where the pattern is rejected.
#[verifier::external_body]
fn glob_match(pattern: &str, path: &str) -> (r: Option<bool>)
    ensures
        r is Some <==> glob_pattern_valid(pattern@),
        r matches Some(m) ==> m == glob_matches(pattern@, path@),
{
    match glob::Pattern::new(pattern) {
        Ok(p) => Some(p.matches(path)),
        Err(_) => None,
    }
}

/// The extensions a module specifier may resolve through, in preference
/// order.
pub open spec fn extensions_list() -> Seq<Seq<char>> {
    seq![".js"@, ".mjs"@, ".cjs"@, ".css"@, ".sass"@, ".scss"@, ".less"@]
}

/// Whether a path carries one of the resolvable extensions.
pub open spec fn has_known_extension(p: Seq<char>) -> bool {
    match spec_extract_extension(p) {
        Some(e) => extensions_list().contains(e),
        None => false,
    }
}

/// Whether a path carries one of the resolvable extensions, executably.
fn is_known_extension(path: &str) -> (r: bool)
    ensures
        r == has_known_extension(path@),
{
    match extract_file_extension(path) {
        Some(ext) => {
            let hit = str_eq(ext, ".js") || str_eq(ext, ".mjs") || str_eq(ext, ".cjs") || str_eq(
                ext,
                ".css",
            ) || str_eq(ext, ".sass") || str_eq(ext, ".scss") || str_eq(ext, ".less");
            proof {
                if hit {
                    assert(extensions_list().contains(ext@));
                } else {
                    assert forall|j: int|
                        0 <= j < extensions_list().len() implies extensions_list()[j]
                        != ext@ by {
                        assert(extensions_list()[0] == ".js"@);
                        assert(extensions_list()[1] == ".mjs"@);
                        assert(extensions_list()[2] == ".cjs"@);
                        assert(extensions_list()[3] == ".css"@);
                        assert(extensions_list()[4] == ".sass"@);
                        assert(extensions_list()[5] == ".scss"@);
                        assert(extensions_list()[6] == ".less"@);
                    }
                    assert(!extensions_list().contains(ext@));
                }
            }
            hit
        },
        None => false,
    }
}

/// The first extension under which `pat`, the infix, and the extension name
/// an existing file.
pub open spec fn first_match(
    pat: Seq<char>,
    infix: Seq<char>,
    exts: Seq<Seq<char>>,
    files: Seq<(Seq<char>, u64)>,
) -> Option<Seq<char>>
    decreases exts.len(),
{
    if exts.len() == 0 {
        None
    } else {
        let cand = pat + infix + exts[0];
        if spec_has_key(files, cand) {
            Some(cand)
        } else {
            first_match(pat, infix, exts.drop_first(), files)
        }
    }
}

/// A prefix of extensions that all miss can be skipped.
proof fn lemma_first_match_skip(
    pat: Seq<char>,
    infix: Seq<char>,
    exts: Seq<Seq<char>>,
    files: Seq<(Seq<char>, u64)>,
    i: int,
)
    requires
        0 <= i <= exts.len(),
        forall|j: int| 0 <= j < i ==> !spec_has_key(files, pat + infix + #[trigger] exts[j]),
    ensures
        first_match(pat, infix, exts, files) == first_match(pat, infix, exts.skip(i), files),
    decreases i,
{
    if i == 0 {
        assert(exts.skip(0) =~= exts);
    } else {
        let rest = exts.drop_first();
        assert forall|j: int|
            0 <= j < i - 1 implies !spec_has_key(files, pat + infix + #[trigger] rest[j]) by {
            assert(rest[j] == exts[j + 1]);
        }
        lemma_first_match_skip(pat, infix, rest, files, i - 1);
        assert(rest.skip(i - 1) =~= exts.skip(i));
    }
}

/// The filter a glob specifier applies to the archive's paths.
pub open spec fn glob_keep(pat: Seq<char>) -> spec_fn(Seq<char>) -> bool {
    |k: Seq<char>| has_known_extension(k) && glob_matches(pat, k)
}

/// What `collect_files` returns. A specifier holding `*` that compiles as a
/// glob collects, in file-map order, every path with a resolvable extension
/// that the glob matches. Any other specifier names the file that exists
/// under it: first as written, then under each extension (the requesting
/// file's own extension first), then as a directory with `/index` under
/// each extension; with no hit the result is empty.
pub open spec fn spec_collect_files(
    pat: Seq<char>,
    files: Seq<(Seq<char>, u64)>,
    curr_ext: Option<Seq<char>>,
) -> Seq<Seq<char>> {
    if pat.contains('*') && glob_pattern_valid(pat) {
        files.map_values(|e: (Seq<char>, u64)| e.0).filter(glob_keep(pat))
    } else if spec_has_key(files, pat) {
        seq![pat]
    } else {
        let exts = match curr_ext {
            Some(e) => seq![e] + extensions_list(),
            None => extensions_list(),
        };
        match first_match(pat, Seq::empty(), exts, files) {
            Some(f) => seq![f],
            None => match first_match(pat, "/index"@, exts, files) {
                Some(f) => seq![f],
                None => Seq::empty(),
            },
        }
    }
}

/// The candidate extensions, the current file's own first.
fn extension_candidates(optional_curr_ext: Option<&str>) -> (r: Vec<String>)
    ensures
        r@.map_values(|s: String| s@) == match optional_curr_ext {
            Some(e) => seq![e@] + extensions_list(),
            None => extensions_list(),
        },
{
    let mut exts: Vec<String> = Vec::new();
    match optional_curr_ext {
        Some(e) => {
            exts.push(str_to_string(e));
        },
        None => {},
    }
    exts.push(String::from_str(".js"));
    exts.push(String::from_str(".mjs"));
    exts.push(String::from_str(".cjs"));
    exts.push(String::from_str(".css"));
    exts.push(String::from_str(".sass"));
    exts.push(String::from_str(".scss"));
    exts.push(String::from_str(".less"));
    proof {
        match optional_curr_ext {
            Some(e) => {
                assert(exts@.map_values(|s: String| s@) =~= seq![e@] + extensions_list());
            },
            None => {
                assert(exts@.map_values(|s: String| s@) =~= extensions_list());
            },
        }
    }
    exts
}

/// Scan the candidate extensions for the first naming an existing file.
fn scan_extensions(pat: &str, infix: &str, exts: &Vec<String>, files_map: &FileMap) -> (r: Option<
    String,
>)
    ensures
        match r {
            Some(f) => first_match(
                pat@,
                infix@,
                exts@.map_values(|s: String| s@),
                files_map@,
            ) == Some(f@),
            None => first_match(
                pat@,
                infix@,
                exts@.map_values(|s: String| s@),
                files_map@,
            ) is None,
        },
{
    let ghost em = exts@.map_values(|s: String| s@);
    let n = exts.len();
    let mut i: usize = 0;
    while i < n
        invariant
            i <= n,
            n == exts@.len(),
            em == exts@.map_values(|s: String| s@),
            em.len() == n,
            forall|j: int| 0 <= j < n ==> em[j] == exts@[j]@,
            forall|j: int| 0 <= j < i ==> !spec_has_key(files_map@, pat@ + infix@ + #[trigger] em[j]),
        decreases n - i,
    {
        let mut cand = str_to_string(pat);
        cand.append(infix);
        cand.append(exts[i].as_str());
        proof {
            assert(cand@ =~= pat@ + infix@ + em[i as int]);
        }
        if map_has_key(&files_map.entries, cand.as_str()) {
            proof {
                lemma_first_match_skip(pat@, infix@, em, files_map@, i as int);
                assert(em.skip(i as int)[0] == em[i as int]);
                assert(em.skip(i as int).drop_first() =~= em.skip(i + 1));
            }
            return Some(cand);
        }
        i = i + 1;
    }
    proof {
        lemma_first_match_skip(pat@, infix@, em, files_map@, n as int);
        assert(em.skip(n as int) =~= Seq::<Seq<char>>::empty());
    }
    None
}

/// Resolve a module specifier against the archive's files.
pub fn collect_files(
    abs_file_pattern: &str,
    files_map: &FileMap,
    optional_curr_ext: Option<&str>,
) -> (r: Vec<String>)
    ensures
        r@.map_values(|s: String| s@) == spec_collect_files(
            abs_file_pattern@,
            files_map@,
            match optional_curr_ext {
                Some(e) => Some(e@),
                None => None,
            },
        ),
{
    if str_contains_char(abs_file_pattern, '*') && glob_valid(abs_file_pattern) {
        let ghost keys = files_map@.map_values(|e: (Seq<char>, u64)| e.0);
        let ghost pred = glob_keep(abs_file_pattern@);
        let mut result: Vec<String> = Vec::new();
        let n = files_map.entries.len();
        let mut i: usize = 0;
        proof {
            reveal(Seq::filter);
            assert(keys.take(0) =~= Seq::<Seq<char>>::empty());
            assert(result@.map_values(|s: String| s@) =~= keys.take(0).filter(pred));
        }
        while i < n
            invariant
                i <= n,
                n == files_map.entries@.len(),
                glob_pattern_valid(abs_file_pattern@),
                keys == files_map@.map_values(|e: (Seq<char>, u64)| e.0),
                keys.len() == n,
                pred == glob_keep(abs_file_pattern@),
                forall|j: int| 0 <= j < n ==> keys[j] == files_map.entries@[j].0@,
                result@.map_values(|s: String| s@) == keys.take(i as int).filter(pred),
            decreases n - i,
        {
            let key = &files_map.entries[i].0;
            let ghost pre = result@.map_values(|s: String| s@);
            proof {
                assert(keys.take(i + 1) =~= keys.take(i as int).push(keys[i as int]));
                lemma_filter_push(keys.take(i as int), keys[i as int], pred);
            }
            let known = is_known_extension(key.as_str());
            let matched = if known {
                match glob_match(abs_file_pattern, key.as_str()) {
                    Some(m) => m,
                    None => false,
                }
            } else {
                false
            };
            proof {
                assert(pred(keys[i as int]) == (known && matched));
            }
            if known && matched {
                result.push(str_to_string(key.as_str()));
                proof {
                    assert(result@.map_values(|s: String| s@) =~= pre.push(keys[i as int]));
                }
            }
            i = i + 1;
        }
        proof {
            assert(keys.take(n as int) =~= keys);
        }
        return result;
    }
    if map_has_key(&files_map.entries, abs_file_pattern) {
        let mut result: Vec<String> = Vec::new();
        result.push(str_to_string(abs_file_pattern));
        proof {
            assert(result@.map_values(|s: String| s@) =~= seq![abs_file_pattern@]);
        }
        return result;
    }
    let exts = extension_candidates(optional_curr_ext);
    let direct = scan_extensions(abs_file_pattern, "", &exts, files_map);
    proof {
        reveal_strlit("");
        reveal_strlit("/index");
        assert(""@ =~= Seq::<char>::empty());
    }
    match direct {
        Some(f) => {
            let mut result: Vec<String> = Vec::new();
            let ghost fv = f@;
            result.push(f);
            proof {
                assert(result@.map_values(|s: String| s@) =~= seq![fv]);
            }
            result
        },
        None => {
            let indexed = scan_extensions(abs_file_pattern, "/index", &exts, files_map);
            match indexed {
                Some(f) => {
                    let mut result: Vec<String> = Vec::new();
                    let ghost fv = f@;
                    result.push(f);
                    proof {
                        assert(result@.map_values(|s: String| s@) =~= seq![fv]);
                    }
                    result
                },
                None => {
                    let result: Vec<String> = Vec::new();
                    proof {
                        assert(result@.map_values(|s: String| s@) =~= Seq::<Seq<char>>::empty());
                    }
                    result
                },
            }
        },
    }
}

} // verus!
