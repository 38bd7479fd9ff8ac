use vstd::prelude::*;

use crate::errors::ServerError;
use crate::kvlist::key_view;
use crate::kvlist::lemma_key_index;
use crate::kvlist::lemma_key_index_is;
use crate::textutil::str_eq;
use vstd::string::StrSliceExecFns;
use vstd::string::StringExecFns;

verus! {

/// One value of a `package.json` export field: a boolean or null that is
/// ignored, a path, a condition map, or a list of alternatives.
pub enum PackageJSONExport {
    Ignored(Option<bool>),
    Value(String),
    Table(Vec<(String, PackageJSONExport)>),
    List(Vec<PackageJSONExport>),
}

/// The fields of a parsed `package.json` that entry collection reads.
pub struct PackageJSON {
    pub name: String,
    pub version: String,
    pub main: Option<String>,
    pub module: Option<String>,
    pub js_next_main: Option<String>,
    pub browser: Option<PackageJSONExport>,
    pub exports: Option<PackageJSONExport>,
    pub dependencies: Option<Vec<(String, String)>>,
}

/// The condition names an export map is walked by, in priority order.
pub open spec fn export_priority() -> Seq<Seq<char>> {
    seq!["browser"@, "development"@, "default"@, "require"@, "import"@]
}

/// The entry an export value yields: a path is itself; a condition map
/// yields the entry of its first priority condition present; a list yields
/// the first entry any alternative yields.
pub open spec fn spec_export_entry(e: PackageJSONExport) -> Option<Seq<char>>
    decreases e, 0int, 0int,
{
    match e {
        PackageJSONExport::Ignored(_) => None,
        PackageJSONExport::Value(s) => Some(s@),
        PackageJSONExport::Table(m) => spec_map_entry(m@, export_priority()),
        PackageJSONExport::List(vs) => spec_list_entry(vs@),
    }
}

/// The entry of the first priority condition present in a condition map.
pub open spec fn spec_map_entry(
    m: Seq<(String, PackageJSONExport)>,
    keys: Seq<Seq<char>>,
) -> Option<Seq<char>>
    decreases m, 1int, keys.len(),
{
    if keys.len() == 0 {
        None
    } else {
        let idx = crate::kvlist::spec_key_index(key_view(m), keys[0]);
        if 0 <= idx && idx < m.len() {
            spec_export_entry(m[idx].1)
        } else {
            spec_map_entry(m, keys.drop_first())
        }
    }
}

/// The first entry any alternative of a list yields.
pub open spec fn spec_list_entry(vs: Seq<PackageJSONExport>) -> Option<Seq<char>>
    decreases vs, 1int, vs.len(),
{
    if vs.len() == 0 {
        None
    } else {
        match spec_export_entry(vs[0]) {
            Some(found) => Some(found),
            None => spec_list_entry(vs.drop_first()),
        }
    }
}

/// Look up a key in a condition map, borrowing the value.
fn find_export<'a>(m: &'a Vec<(String, PackageJSONExport)>, k: &str) -> (r: Option<
    &'a PackageJSONExport,
>)
    ensures
        match r {
            Some(v) => {
                let idx = crate::kvlist::spec_key_index(key_view(m@), k@);
                0 <= idx < m@.len() && *v == m@[idx].1
            },
            None => crate::kvlist::spec_key_index(key_view(m@), k@) < 0,
        },
{
    let ghost km = key_view(m@);
    let mut i: usize = 0;
    while i < m.len()
        invariant
            i <= m.len(),
            km == key_view(m@),
            km.len() == m@.len(),
            forall|j: int| 0 <= j < m@.len() ==> km[j] == (m@[j].0@, m@[j].1),
            forall|j: int| 0 <= j < i ==> km[j].0 != k@,
        decreases m.len() - i,
    {
        if str_eq(m[i].0.as_str(), k) {
            proof {
                lemma_key_index_is(km, k@, i as int);
            }
            return Some(&m[i].1);
        }
        i = i + 1;
    }
    proof {
        lemma_key_index(km, k@);
    }
    None
}

/// A later priority key decides when every earlier one is absent.
proof fn lemma_map_entry_skip(
    m: Seq<(String, PackageJSONExport)>,
    keys: Seq<Seq<char>>,
    i: int,
)
    requires
        0 <= i <= keys.len(),
        forall|j: int| 0 <= j < i ==> crate::kvlist::spec_key_index(
            key_view(m),
            #[trigger] keys[j],
        ) < 0,
    ensures
        spec_map_entry(m, keys) == spec_map_entry(m, keys.skip(i)),
    decreases i,
{
    if i == 0 {
        assert(keys.skip(0) =~= keys);
    } else {
        let rest = keys.drop_first();
        assert forall|j: int| 0 <= j < i - 1 implies crate::kvlist::spec_key_index(
            key_view(m),
            #[trigger] rest[j],
        ) < 0 by {
            assert(rest[j] == keys[j + 1]);
        }
        lemma_map_entry_skip(m, rest, i - 1);
        assert(rest.skip(i - 1) =~= keys.skip(i));
    }
}

/// A later alternative decides when every earlier one yields nothing.
proof fn lemma_list_entry_skip(vs: Seq<PackageJSONExport>, i: int)
    requires
        0 <= i <= vs.len(),
        forall|j: int| 0 <= j < i ==> spec_export_entry(#[trigger] vs[j]) is None,
    ensures
        spec_list_entry(vs) == spec_list_entry(vs.skip(i)),
    decreases i,
{
    if i == 0 {
        assert(vs.skip(0) =~= vs);
    } else {
        let rest = vs.drop_first();
        assert forall|j: int| 0 <= j < i - 1 implies spec_export_entry(
            #[trigger] rest[j],
        ) is None by {
            assert(rest[j] == vs[j + 1]);
        }
        lemma_list_entry_skip(rest, i - 1);
        assert(rest.skip(i - 1) =~= vs.skip(i));
    }
}

/// The priority condition names, as owned strings.
fn priority_keys() -> (r: Vec<String>)
    ensures
        r@.map_values(|s: String| s@) == export_priority(),
{
    let mut keys: Vec<String> = Vec::new();
    keys.push(String::from_str("browser"));
    keys.push(String::from_str("development"));
    keys.push(String::from_str("default"));
    keys.push(String::from_str("require"));
    keys.push(String::from_str("import"));
    proof {
        assert(keys@.map_values(|s: String| s@) =~= export_priority());
    }
    keys
}

/// The entry an export value yields, walking condition maps by priority and
/// lists in order.
pub fn get_export_entry(exports: &PackageJSONExport) -> (r: Option<String>)
    ensures
        match r {
            Some(s) => spec_export_entry(*exports) == Some(s@),
            None => spec_export_entry(*exports) is None,
        },
    decreases *exports, 0int, 0int,
{
    match exports {
        PackageJSONExport::Ignored(_) => None,
        PackageJSONExport::Value(s) => Some(s.clone()),
        PackageJSONExport::Table(m) => condition_map_entry(m),
        PackageJSONExport::List(vs) => {
            proof {
                assert(vs@.skip(0) =~= vs@);
            }
            list_first_entry(vs, 0)
        },
    }
}

/// The entry of the first priority condition present in a condition map.
pub fn condition_map_entry(m: &Vec<(String, PackageJSONExport)>) -> (r: Option<String>)
    ensures
        match r {
            Some(s) => spec_map_entry(m@, export_priority()) == Some(s@),
            None => spec_map_entry(m@, export_priority()) is None,
        },
    decreases m@, 1int, 0int,
{
    let keys = priority_keys();
    let ghost pk = export_priority();
    let n = keys.len();
    let mut i: usize = 0;
    let mut hit = false;
    while i < n && !hit
        invariant
            i <= n,
            n == keys@.len(),
            keys@.map_values(|s: String| s@) == pk,
            pk.len() == n,
            forall|j: int| 0 <= j < n ==> pk[j] == keys@[j]@,
            forall|j: int| 0 <= j < i ==> crate::kvlist::spec_key_index(
                key_view(m@),
                #[trigger] pk[j],
            ) < 0,
            hit ==> i < n && crate::kvlist::spec_key_index(key_view(m@), pk[i as int]) >= 0,
        decreases n - i, (if hit { 0int } else { 1int }),
    {
        match find_export(m, keys[i].as_str()) {
            Some(_) => {
                hit = true;
            },
            None => {
                i = i + 1;
            },
        }
    }
    if hit {
        proof {
            lemma_map_entry_skip(m@, pk, i as int);
            assert(pk.skip(i as int)[0] == pk[i as int]);
        }
        match find_export(m, keys[i].as_str()) {
            Some(v) => get_export_entry(v),
            None => {
                proof {
                    assert(false);
                }
                None
            },
        }
    } else {
        proof {
            lemma_map_entry_skip(m@, pk, pk.len() as int);
            assert(pk.skip(pk.len() as int) =~= Seq::<Seq<char>>::empty());
        }
        None
    }
}

/// The first entry any alternative from position `i` on yields.
/// The first entry any alternative from position `i` on yields.
fn list_first_entry(vs: &Vec<PackageJSONExport>, i: usize) -> (r: Option<String>)
    requires
        i <= vs@.len(),
    ensures
        match r {
            Some(s) => spec_list_entry(vs@.skip(i as int)) == Some(s@),
            None => spec_list_entry(vs@.skip(i as int)) is None,
        },
    decreases vs@, 1int, vs@.len() - i,
{
    if i >= vs.len() {
        proof {
            assert(vs@.skip(i as int) =~= Seq::<PackageJSONExport>::empty());
        }
        return None;
    }
    proof {
        assert(vs@.skip(i as int)[0] == vs@[i as int]);
        assert(vs@.skip(i as int).drop_first() =~= vs@.skip(i + 1));
    }
    match get_export_entry(&vs[i]) {
        Some(found) => Some(found),
        None => list_first_entry(vs, i + 1),
    }
}

/// The fallback main entry: `module`, then a string-valued `browser`, then
/// `main`, then `jsnext:main`, then `index`.
pub open spec fn spec_main_entry(p: PackageJSON) -> Seq<char> {
    match p.module {
        Some(module_export) => module_export@,
        None => match p.browser {
            Some(PackageJSONExport::Value(v)) => v@,
            _ => match p.main {
                Some(main_export) => main_export@,
                None => match p.js_next_main {
                    Some(js_next) => js_next@,
                    None => "index"@,
                },
            },
        },
    }
}

/// The fallback main entry of a parsed `package.json`.
pub fn get_main_entry(pkg_json: &PackageJSON) -> (r: String)
    ensures
        r@ == spec_main_entry(*pkg_json),
{
    match &pkg_json.module {
        Some(module_export) => {
            return module_export.clone();
        },
        None => {},
    }
    match &pkg_json.browser {
        Some(PackageJSONExport::Value(val)) => {
            return val.clone();
        },
        _ => {},
    }
    match &pkg_json.main {
        Some(main_export) => {
            return main_export.clone();
        },
        None => {},
    }
    match &pkg_json.js_next_main {
        Some(js_next_main_export) => {
            return js_next_main_export.clone();
        },
        None => {},
    }
    String::from_str("index")
}

/// Lexicographic order on strings by code point, the order Rust's string
/// comparison uses.
pub open spec fn str_le(a: Seq<char>, b: Seq<char>) -> bool
    decreases a.len(),
{
    if a.len() == 0 {
        true
    } else if b.len() == 0 {
        false
    } else if (a[0] as u32) < (b[0] as u32) {
        true
    } else if (a[0] as u32) > (b[0] as u32) {
        false
    } else {
        str_le(a.drop_first(), b.drop_first())
    }
}

/// Equal prefixes do not decide the order.
proof fn lemma_str_le_skip(a: Seq<char>, b: Seq<char>, i: int)
    requires
        0 <= i <= a.len(),
        i <= b.len(),
        forall|j: int| 0 <= j < i ==> a[j] == b[j],
    ensures
        str_le(a, b) == str_le(a.skip(i), b.skip(i)),
    decreases i,
{
    if i == 0 {
        assert(a.skip(0) =~= a);
        assert(b.skip(0) =~= b);
    } else {
        let ar = a.drop_first();
        let br = b.drop_first();
        assert forall|j: int| 0 <= j < i - 1 implies ar[j] == br[j] by {
            assert(ar[j] == a[j + 1]);
            assert(br[j] == b[j + 1]);
        }
        lemma_str_le_skip(ar, br, i - 1);
        assert(ar.skip(i - 1) =~= a.skip(i));
        assert(br.skip(i - 1) =~= b.skip(i));
    }
}

/// Whether `a` precedes or equals `b` lexicographically.
pub fn str_le_exec(a: &str, b: &str) -> (r: bool)
    ensures
        r == str_le(a@, b@),
{
    let n = a.unicode_len();
    let m = b.unicode_len();
    let mut i: usize = 0;
    while i < n && i < m
        invariant
            n == a@.len(),
            m == b@.len(),
            i <= n,
            i <= m,
            forall|j: int| 0 <= j < i ==> a@[j] == b@[j],
        decreases n - i,
    {
        let ca = a.get_char(i);
        let cb = b.get_char(i);
        if ca != cb {
            proof {
                lemma_str_le_skip(a@, b@, i as int);
                assert(a@.skip(i as int)[0] == a@[i as int]);
                assert(b@.skip(i as int)[0] == b@[i as int]);
            }
            return (ca as u32) < (cb as u32);
        }
        i = i + 1;
    }
    proof {
        lemma_str_le_skip(a@, b@, i as int);
        if i == n {
            assert(a@.skip(i as int) =~= Seq::<char>::empty());
        } else {
            assert(b@.skip(i as int) =~= Seq::<char>::empty());
            assert(a@.skip(i as int).len() > 0);
        }
    }
    n <= m
}

/// `x` inserted before the first element it precedes or equals.
pub open spec fn insert_str_sorted(s: Seq<Seq<char>>, x: Seq<char>) -> Seq<Seq<char>>
    decreases s.len(),
{
    if s.len() == 0 {
        seq![x]
    } else if str_le(x, s[0]) {
        seq![x] + s
    } else {
        seq![s[0]] + insert_str_sorted(s.drop_first(), x)
    }
}

/// The elements of `s` insertion-sorted, in code-point order.
pub open spec fn sort_strs(s: Seq<Seq<char>>) -> Seq<Seq<char>>
    decreases s.len(),
{
    if s.len() == 0 {
        Seq::empty()
    } else {
        insert_str_sorted(sort_strs(s.drop_last()), s.last())
    }
}

/// `s` with runs of equal adjacent elements collapsed to one.
pub open spec fn dedup_adjacent(s: Seq<Seq<char>>) -> Seq<Seq<char>>
    decreases s.len(),
{
    if s.len() <= 1 {
        s
    } else {
        let d = dedup_adjacent(s.drop_last());
        if d.len() > 0 && d.last() == s.last() {
            d
        } else {
            d.push(s.last())
        }
    }
}

/// A scan that stops at the first element `x` precedes or equals finds
/// where `insert_str_sorted` inserts.
proof fn lemma_insert_str_at(s: Seq<Seq<char>>, x: Seq<char>, i: int)
    requires
        0 <= i <= s.len(),
        forall|j: int| 0 <= j < i ==> !str_le(x, #[trigger] s[j]),
        i < s.len() ==> str_le(x, s[i]),
    ensures
        insert_str_sorted(s, x) == s.insert(i, x),
    decreases s.len(),
{
    if i == 0 {
        if s.len() == 0 {
            assert(insert_str_sorted(s, x) =~= s.insert(0, x));
        } else {
            assert(insert_str_sorted(s, x) =~= s.insert(0, x));
        }
    } else {
        let rest = s.drop_first();
        assert forall|j: int| 0 <= j < i - 1 implies !str_le(x, #[trigger] rest[j]) by {
            assert(rest[j] == s[j + 1]);
        }
        if i - 1 < rest.len() {
            assert(rest[i - 1] == s[i]);
        }
        lemma_insert_str_at(rest, x, i - 1);
        assert(insert_str_sorted(s, x) =~= s.insert(i, x));
    }
}

/// Insert one string at its sorted place.
fn insert_sorted_exec(out: &mut Vec<String>, x: String)
    ensures
        final(out)@.map_values(|s: String| s@) == insert_str_sorted(
            old(out)@.map_values(|s: String| s@),
            x@,
        ),
{
    let ghost sm = out@.map_values(|s: String| s@);
    let ghost xv = x@;
    let n = out.len();
    let mut pos: usize = 0;
    let mut found = false;
    while pos < n && !found
        invariant
            out@ == old(out)@,
            pos <= n,
            n == out@.len(),
            sm == out@.map_values(|s: String| s@),
            sm.len() == n,
            xv == x@,
            forall|j: int| 0 <= j < n ==> sm[j] == out@[j]@,
            forall|j: int| 0 <= j < pos ==> !str_le(xv, #[trigger] sm[j]),
            found ==> pos < n && str_le(xv, sm[pos as int]),
        decreases n - pos, (if found { 0int } else { 1int }),
    {
        if str_le_exec(x.as_str(), out[pos].as_str()) {
            found = true;
        } else {
            pos = pos + 1;
        }
    }
    proof {
        lemma_insert_str_at(sm, xv, pos as int);
    }
    out.insert(pos, x);
    proof {
        assert(out@.map_values(|s: String| s@) =~= sm.insert(pos as int, xv));
    }
}

/// Sort entries and drop duplicates, as entry collection returns them.
pub fn sort_and_dedup(entries: Vec<String>) -> (r: Vec<String>)
    ensures
        r@.map_values(|s: String| s@) == dedup_adjacent(
            sort_strs(entries@.map_values(|s: String| s@)),
        ),
{
    let ghost em = entries@.map_values(|s: String| s@);
    let mut queue = entries;
    let mut sorted: Vec<String> = Vec::new();
    let ghost mut done: int = 0;
    proof {
        assert(sorted@.map_values(|s: String| s@) =~= sort_strs(em.take(0)));
    }
    while queue.len() > 0
        invariant
            0 <= done,
            done + queue@.len() == em.len(),
            queue@.map_values(|s: String| s@) == em.skip(done),
            sorted@.map_values(|s: String| s@) == sort_strs(em.take(done)),
        decreases queue.len(),
    {
        let ghost qm = queue@.map_values(|s: String| s@);
        let x = queue.remove(0);
        proof {
            assert(queue@.map_values(|s: String| s@) =~= qm.drop_first());
            assert(qm[0] == x@);
            assert(em.take(done + 1).drop_last() =~= em.take(done));
            assert(em.take(done + 1).last() == em[done]);
        }
        insert_sorted_exec(&mut sorted, x);
        proof {
            done = done + 1;
            assert(queue@.map_values(|s: String| s@) =~= em.skip(done));
        }
    }
    proof {
        assert(em.take(em.len() as int) =~= em);
    }
    // Collapse adjacent duplicates.
    let ghost srt = sorted@.map_values(|s: String| s@);
    let mut out: Vec<String> = Vec::new();
    let ghost mut i: int = 0;
    let mut rest = sorted;
    proof {
        assert(out@.map_values(|s: String| s@) =~= dedup_adjacent(srt.take(0)));
        assert(rest@.map_values(|s: String| s@) =~= srt.skip(0));
    }
    while rest.len() > 0
        invariant
            i + rest@.len() == srt.len(),
            0 <= i,
            rest@.map_values(|s: String| s@) == srt.skip(i as int),
            out@.map_values(|s: String| s@) == dedup_adjacent(srt.take(i as int)),
        decreases rest.len(),
    {
        let ghost rm = rest@.map_values(|s: String| s@);
        let ghost om = out@.map_values(|s: String| s@);
        let x = rest.remove(0);
        proof {
            assert(rest@.map_values(|s: String| s@) =~= rm.drop_first());
            assert(rm[0] == x@);
            assert(srt.take(i as int + 1).drop_last() =~= srt.take(i as int));
            assert(srt.take(i as int + 1).last() == srt[i as int]);
        }
        let mut keep = true;
        if out.len() > 0 {
            if str_eq(out[out.len() - 1].as_str(), x.as_str()) {
                keep = false;
            }
        }
        proof {
            if om.len() > 0 {
                assert(om.last() == out@[out@.len() - 1]@);
            }
        }
        if keep {
            out.push(x);
            proof {
                assert(out@.map_values(|s: String| s@) =~= om.push(srt[i as int]));
            }
        }
        proof {
            i = i + 1;
            assert(rest@.map_values(|s: String| s@) =~= srt.skip(i as int));
        }
    }
    proof {
        assert(srt.take(srt.len() as int) =~= srt);
    }
    out
}

/// The extra entries appended for packages known to ship entry points their
/// metadata does not declare.
pub open spec fn spec_additional_exports(name: Seq<char>) -> Seq<Seq<char>> {
    if name == "react"@ {
        seq!["jsx-runtime"@, "jsx-dev-runtime"@, "unstable-shared-subset"@]
    } else if name == "scheduler"@ {
        seq!["tracing"@, "tracing-profiling"@, "unstable_mock"@, "unstable_post_task"@]
    } else {
        Seq::empty()
    }
}

/// The additional entries for a package with missing or absent exports.
pub fn get_additional_exports(package_name: &str) -> (r: Vec<String>)
    ensures
        r@.map_values(|s: String| s@) == spec_additional_exports(package_name@),
{
    let mut out: Vec<String> = Vec::new();
    if str_eq(package_name, "react") {
        out.push(String::from_str("jsx-runtime"));
        out.push(String::from_str("jsx-dev-runtime"));
        out.push(String::from_str("unstable-shared-subset"));
        proof {
            assert(out@.map_values(|s: String| s@) =~= spec_additional_exports(package_name@));
        }
    } else if str_eq(package_name, "scheduler") {
        out.push(String::from_str("tracing"));
        out.push(String::from_str("tracing-profiling"));
        out.push(String::from_str("unstable_mock"));
        out.push(String::from_str("unstable_post_task"));
        proof {
            assert(out@.map_values(|s: String| s@) =~= spec_additional_exports(package_name@));
        }
    } else {
        proof {
            assert(out@.map_values(|s: String| s@) =~= spec_additional_exports(package_name@));
        }
    }
    out
}

/// Walking an exports map front to back: a key that does not start with a
/// dot makes the whole map one condition group, whose entry (if any) is a
/// main entry, and stops the walk; a dotted key contributes its value's
/// entry, and the `.` key with an entry marks the main entry as present.
pub open spec fn walk_exports(
    entries: Seq<(String, PackageJSONExport)>,
    full: Seq<(String, PackageJSONExport)>,
) -> (Seq<Seq<char>>, bool)
    decreases entries.len(),
{
    if entries.len() == 0 {
        (Seq::empty(), false)
    } else {
        let k = entries[0].0@;
        let v = entries[0].1;
        if !".".view().is_prefix_of(k) {
            match spec_map_entry(full, export_priority()) {
                Some(e) => (seq![e], true),
                None => (Seq::empty(), false),
            }
        } else {
            let cur: Seq<Seq<char>> = match spec_export_entry(v) {
                Some(x) => seq![x],
                None => Seq::empty(),
            };
            let hm0 = (k == ".".view() && spec_export_entry(v) is Some);
            let rest = walk_exports(entries.drop_first(), full);
            (cur + rest.0, hm0 || rest.1)
        }
    }
}

/// The entry list of a parsed `package.json`: entries from the exports
/// field; the fallback main entry when none of them is a main entry; the
/// hard-coded additional entries; sorted with duplicates dropped.
pub open spec fn spec_collect_entries(p: PackageJSON) -> Seq<Seq<char>> {
    let base: (Seq<Seq<char>>, bool) = match p.exports {
        Some(e) => match e {
            PackageJSONExport::Table(m) => walk_exports(m@, m@),
            PackageJSONExport::Value(s) => (seq![s@], true),
            PackageJSONExport::List(vs) => (
                match spec_list_entry(vs@) {
                    Some(f) => seq![f],
                    None => Seq::empty(),
                },
                true,
            ),
            PackageJSONExport::Ignored(_) => (Seq::empty(), false),
        },
        None => (Seq::<Seq<char>>::empty(), false),
    };
    let with_main: Seq<Seq<char>> = if !base.1 {
        base.0.push(spec_main_entry(p))
    } else {
        base.0
    };
    dedup_adjacent(sort_strs(with_main + spec_additional_exports(p.name@)))
}

/// Collect the entry points of a package from its parsed `package.json`.
pub fn collect_pkg_entries(pkg_json: PackageJSON) -> (r: Result<Vec<String>, ServerError>)
    ensures
        r matches Ok(es) && es@.map_values(|s: String| s@) == spec_collect_entries(pkg_json),
{
    let mut entries: Vec<String> = Vec::new();
    let mut has_main_export = false;
    let ghost base = match &pkg_json.exports {
        Some(e) => match e {
            PackageJSONExport::Table(m) => walk_exports(m@, m@),
            PackageJSONExport::Value(s) => (seq![s@], true),
            PackageJSONExport::List(vs) => (
                match spec_list_entry(vs@) {
                    Some(f) => seq![f],
                    None => Seq::<Seq<char>>::empty(),
                },
                true,
            ),
            PackageJSONExport::Ignored(_) => (Seq::<Seq<char>>::empty(), false),
        },
        None => (Seq::<Seq<char>>::empty(), false),
    };
    proof {
        assert(entries@.map_values(|s: String| s@) =~= Seq::<Seq<char>>::empty());
    }
    match &pkg_json.exports {
        Some(exports_field) => {
            match exports_field {
                PackageJSONExport::Table(m) => {
                    let ghost full = m@;
                    let n = m.len();
                    let mut i: usize = 0;
                    let mut stopped = false;
                    proof {
                        assert(m@.skip(0) =~= m@);
                    }
                    while i < n && !stopped
                        invariant
                            i <= n,
                            n == m@.len(),
                            full == m@,
                            base == walk_exports(m@, m@),
                            !stopped ==> {
                                let rest = walk_exports(m@.skip(i as int), m@);
                                base.0 == entries@.map_values(|s: String| s@) + rest.0
                                    && base.1 == (has_main_export || rest.1)
                            },
                            stopped ==> base.0 == entries@.map_values(|s: String| s@) && base.1
                                == has_main_export,
                        decreases n - i, (if stopped { 0int } else { 1int }),
                    {
                        let ghost pre = entries@.map_values(|s: String| s@);
                        let ghost restw = walk_exports(m@.skip(i as int), m@);
                        proof {
                            assert(m@.skip(i as int)[0] == m@[i as int]);
                            assert(m@.skip(i as int).drop_first() =~= m@.skip(i + 1));
                            reveal_strlit(".");
                        }
                        let key = &m[i].0;
                        if !crate::textutil::str_starts_with(key.as_str(), ".") {
                            match condition_map_entry(m) {
                                Some(main_export) => {
                                    has_main_export = true;
                                    entries.push(main_export);
                                    proof {
                                        assert(entries@.map_values(|s: String| s@) =~= pre.push(
                                            restw.0[0],
                                        ));
                                        assert(pre.push(restw.0[0]) =~= pre + restw.0);
                                    }
                                },
                                None => {
                                    proof {
                                        assert(pre =~= pre + restw.0);
                                    }
                                },
                            }
                            stopped = true;
                        } else {
                            match get_export_entry(&m[i].1) {
                                Some(export_val) => {
                                    let ghost ev = export_val@;
                                    entries.push(export_val);
                                    proof {
                                        assert(entries@.map_values(|s: String| s@) =~= pre.push(
                                            ev,
                                        ));
                                        assert(pre.push(ev) + walk_exports(m@.skip(i + 1), m@).0
                                            =~= pre + restw.0);
                                    }
                                    if str_eq(key.as_str(), ".") {
                                        has_main_export = true;
                                    }
                                },
                                None => {
                                    proof {
                                        assert(pre + walk_exports(m@.skip(i + 1), m@).0 =~= pre
                                            + restw.0);
                                    }
                                },
                            }
                            i = i + 1;
                        }
                    }
                    proof {
                        if !stopped {
                            assert(m@.skip(n as int) =~= Seq::<(String, PackageJSONExport)>::empty());
                            assert(entries@.map_values(|s: String| s@) =~= entries@.map_values(
                                |s: String| s@,
                            ) + walk_exports(m@.skip(n as int), m@).0);
                        }
                    }
                },
                PackageJSONExport::Value(export_val) => {
                    has_main_export = true;
                    entries.push(export_val.clone());
                    proof {
                        assert(entries@.map_values(|s: String| s@) =~= base.0);
                    }
                },
                PackageJSONExport::List(vs) => {
                    has_main_export = true;
                    proof {
                        assert(vs@.skip(0) =~= vs@);
                    }
                    match list_first_entry(vs, 0) {
                        Some(found_export) => {
                            let ghost fv = found_export@;
                            entries.push(found_export);
                            proof {
                                assert(entries@.map_values(|s: String| s@) =~= seq![fv]);
                            }
                        },
                        None => {
                            proof {
                                assert(entries@.map_values(|s: String| s@) =~= base.0);
                            }
                        },
                    }
                },
                PackageJSONExport::Ignored(_) => {},
            }
        },
        None => {},
    }
    if !has_main_export {
        let main_entry = get_main_entry(&pkg_json);
        let ghost pre = entries@.map_values(|s: String| s@);
        let ghost mv = main_entry@;
        entries.push(main_entry);
        proof {
            assert(entries@.map_values(|s: String| s@) =~= pre.push(mv));
        }
    }
    let mut additional = get_additional_exports(pkg_json.name.as_str());
    let ghost before_add = entries@.map_values(|s: String| s@);
    let ghost addm = additional@.map_values(|s: String| s@);
    entries.append(&mut additional);
    proof {
        assert(entries@.map_values(|s: String| s@) =~= before_add + addm);
    }
    Ok(sort_and_dedup(entries))
}

/// A package with no exports and no entry field at all falls back to the
/// `index` entry, plus the hard-coded additional entries, sorted and
/// deduplicated.
pub proof fn lemma_no_exports_entries(p: PackageJSON)
    requires
        p.exports is None,
        p.main is None,
        p.module is None,
        p.browser is None,
        p.js_next_main is None,
    ensures
        spec_collect_entries(p) == dedup_adjacent(
            sort_strs(seq!["index"@] + spec_additional_exports(p.name@)),
        ),
{
    assert(Seq::<Seq<char>>::empty().push("index"@) =~= seq!["index"@]);
}

} // verus!
