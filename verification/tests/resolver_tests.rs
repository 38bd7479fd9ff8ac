use sandpack_cdn::module_proc::build_module_dependencies;
use sandpack_cdn::package_json::collect_pkg_entries;
use sandpack_cdn::package_json::get_additional_exports;
use sandpack_cdn::package_json::get_export_entry;
use sandpack_cdn::package_json::get_main_entry;
use sandpack_cdn::package_json::PackageJSON;
use sandpack_cdn::package_json::PackageJSONExport;
use sandpack_cdn::resolver::collect_files;
use sandpack_cdn::resolver::extract_file_extension;
use sandpack_cdn::resolver::file_path_to_dirname;
use sandpack_cdn::resolver::make_mod_specifier_absolute;
use sandpack_cdn::resolver::FileMap;

fn sample_files() -> FileMap {
    let mut files_map: Vec<(String, u64)> = Vec::new();
    files_map.push((String::from("deeply/nested/index.js"), 123));
    files_map.push((String::from("index.js"), 123));
    files_map.push((String::from("component/Button.mjs"), 123));
    files_map.push((String::from("component/Link.cjs"), 123));
    files_map.push((String::from("component/Link.js"), 123));
    files_map.push((String::from("component/Link/index.js"), 123));
    FileMap { entries: files_map }
}

#[test]
fn basic_abs_mod_specifiers() {
    assert_eq!(
        make_mod_specifier_absolute(".", "./dist/a.js"),
        String::from("dist/a.js")
    );
    assert_eq!(
        make_mod_specifier_absolute("deeply/nested/directory/", "../dist/*"),
        String::from("deeply/nested/dist/*")
    );
}

#[test]
fn get_dirname() {
    assert_eq!(file_path_to_dirname("./dist/a.js"), String::from("dist"));
    assert_eq!(
        file_path_to_dirname("deeply/nested/directory/abc.js"),
        String::from("deeply/nested/directory")
    );
}

#[test]
fn get_extname() {
    assert_eq!(extract_file_extension("something.js"), Some(".js"));
    assert_eq!(extract_file_extension("."), None);
    assert_eq!(
        extract_file_extension("./test/.something/test.js"),
        Some(".js")
    );
    assert_eq!(extract_file_extension("./test/.something/test"), None);
}

#[test]
fn collect_filenames() {
    let files_map = sample_files();
    assert_eq!(
        collect_files("deeply/nested", &files_map, None),
        vec!["deeply/nested/index.js"]
    );
    assert_eq!(
        collect_files("component/Link", &files_map, Some(".cjs")),
        vec!["component/Link.cjs"]
    );
    assert_eq!(
        collect_files("index", &files_map, Some(".mjs")),
        vec!["index.js"]
    );
    assert_eq!(
        collect_files("component/Link", &files_map, Some(".mjs")),
        vec!["component/Link.js"]
    );
}

#[test]
fn collect_glob_filenames() {
    let files_map = sample_files();
    assert_eq!(
        collect_files("deeply/*", &files_map, None),
        vec!["deeply/nested/index.js"]
    );
    assert_eq!(
        collect_files("component/*", &files_map, Some(".cjs")).sort(),
        vec![
            "component/Button.mjs",
            "component/Link.cjs",
            "component/Link.js",
            "component/Link/index.js"
        ]
        .sort()
    );
    let empty_vec: Vec<String> = Vec::new();
    assert_eq!(
        collect_files("something-non-existing/*", &files_map, Some(".cjs")),
        empty_vec
    );
}

fn bare_pkg_json(name: &str) -> PackageJSON {
    PackageJSON {
        name: String::from(name),
        version: String::from("1.0.0"),
        main: None,
        module: None,
        js_next_main: None,
        browser: None,
        exports: None,
        dependencies: None,
    }
}

#[test]
fn no_exports_no_main_falls_back_to_index() {
    let entries = collect_pkg_entries(bare_pkg_json("some-package")).unwrap();
    assert_eq!(entries, vec!["index"]);
}

#[test]
fn no_exports_gains_additional_entries() {
    let entries = collect_pkg_entries(bare_pkg_json("react")).unwrap();
    assert_eq!(
        entries,
        vec!["index", "jsx-dev-runtime", "jsx-runtime", "unstable-shared-subset"]
    );
}

#[test]
fn main_fields_have_priority() {
    let mut pkg = bare_pkg_json("something");
    pkg.main = Some(String::from("index.cjs"));
    pkg.module = Some(String::from("index.mjs"));
    assert_eq!(get_main_entry(&pkg), "index.mjs");
    pkg.module = None;
    assert_eq!(get_main_entry(&pkg), "index.cjs");
}

#[test]
fn export_condition_priority() {
    let mut table: Vec<(String, PackageJSONExport)> = Vec::new();
    table.push((
        String::from("import"),
        PackageJSONExport::Value(String::from("index.import.js")),
    ));
    table.push((
        String::from("browser"),
        PackageJSONExport::Value(String::from("index.browser.js")),
    ));
    let entry = get_export_entry(&PackageJSONExport::Table(table)).unwrap();
    assert_eq!(entry, "index.browser.js");
}

#[test]
fn dotted_exports_are_collected() {
    let mut table: Vec<(String, PackageJSONExport)> = Vec::new();
    table.push((
        String::from("."),
        PackageJSONExport::Value(String::from("main.js")),
    ));
    table.push((
        String::from("./extra"),
        PackageJSONExport::Value(String::from("extra.js")),
    ));
    let mut pkg = bare_pkg_json("anything");
    pkg.exports = Some(PackageJSONExport::Table(table));
    let entries = collect_pkg_entries(pkg).unwrap();
    assert_eq!(entries, vec!["extra.js", "main.js"]);
}

#[test]
fn additional_exports_lookup() {
    let scheduler = get_additional_exports("scheduler");
    assert_eq!(
        scheduler,
        vec!["tracing", "tracing-profiling", "unstable_mock", "unstable_post_task"]
    );
    let none = get_additional_exports("left-pad");
    let empty: Vec<String> = Vec::new();
    assert_eq!(none, empty);
}

#[test]
fn dependency_usage_is_annotated() {
    let mut deps: Vec<(String, String)> = Vec::new();
    deps.push((String::from("react"), String::from("^17")));
    deps.push((String::from("left-pad"), String::from("^1")));
    let mut modules: Vec<String> = Vec::new();
    modules.push(String::from("react"));
    let annotated = build_module_dependencies(&deps, &modules);
    assert_eq!(annotated.len(), 2);
    assert_eq!(annotated[0].0, "react");
    assert!(annotated[0].1.is_used);
    assert_eq!(annotated[1].0, "left-pad");
    assert!(!annotated[1].1.is_used);
}
