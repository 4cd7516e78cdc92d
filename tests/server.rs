use site_server::mounts::{compose_mounts, mount_name, mount_prefix};
use site_server::pipeline::{dispatch, mount_covers, mount_sub_path, Dispatch};
use site_server::resolve::{
    not_found_body, not_found_response, page_response, resolve, AppError, STATUS_NOT_FOUND, STATUS_OK,
};
use site_server::roots::{split_list, ContentRootSet};
use site_server::routes::LogicalPage;

fn owned(v: &[&str]) -> Vec<String> {
    v.iter().map(|s| s.to_string()).collect()
}

fn probes(v: &[Option<&str>]) -> Vec<Option<String>> {
    v.iter().map(|o| o.map(|s| s.to_string())).collect()
}

fn roots_of(set: &ContentRootSet) -> Vec<String> {
    (0..set.len()).map(|i| set.get(i).to_string()).collect()
}

#[test]
fn routes_map_to_their_files() {
    assert_eq!(LogicalPage::for_route("/"), Some(LogicalPage::Index));
    assert_eq!(LogicalPage::for_route("/index"), Some(LogicalPage::Home));
    assert_eq!(LogicalPage::for_route("/services"), Some(LogicalPage::Services));
    assert_eq!(LogicalPage::for_route("/contact-us"), Some(LogicalPage::Contact));
    assert_eq!(LogicalPage::for_route("/about-us"), Some(LogicalPage::AboutUs));
    assert_eq!(LogicalPage::Index.relative_path(), "index.html");
    assert_eq!(LogicalPage::Home.relative_path(), "pages/home.html");
    assert_eq!(LogicalPage::Services.relative_path(), "pages/services.html");
    assert_eq!(LogicalPage::Contact.relative_path(), "pages/contact-us.html");
    assert_eq!(LogicalPage::AboutUs.relative_path(), "pages/about-us.html");
}

#[test]
fn route_table_is_closed() {
    assert_eq!(LogicalPage::for_route("/nonexistent"), None);
    assert_eq!(LogicalPage::for_route("/about-us/"), None);
    assert_eq!(LogicalPage::for_route(""), None);
    assert_eq!(LogicalPage::all().len(), 5);
    for p in LogicalPage::all() {
        assert_eq!(LogicalPage::for_route(p.route()), Some(p));
    }
}

#[test]
fn config_absent_gives_default_roots() {
    let set = ContentRootSet::from_config(None);
    assert_eq!(roots_of(&set), owned(&["./pages", "./assets", "./styles", "."]));
}

#[test]
fn config_is_split_on_commas_in_order() {
    let set = ContentRootSet::from_config(Some("/srv/a,/srv/b,web"));
    assert_eq!(roots_of(&set), owned(&["/srv/a", "/srv/b", "web"]));
    assert_eq!(split_list("a,,b,"), owned(&["a", "", "b", ""]));
    assert_eq!(split_list(""), owned(&[""]));
}

#[test]
fn empty_root_list_becomes_current_dir() {
    let set = ContentRootSet::new(Vec::new());
    assert_eq!(roots_of(&set), owned(&["."]));
}

#[test]
fn mount_names_come_from_final_component() {
    assert_eq!(mount_name("./a/assets"), "assets");
    assert_eq!(mount_name("./pages"), "pages");
    assert_eq!(mount_name("web/styles/"), "styles");
    assert_eq!(mount_name("."), "static");
    assert_eq!(mount_name("/"), "static");
    assert_eq!(mount_name("site/.."), "static");
    assert_eq!(mount_prefix("./a/assets"), "/assets");
    assert_eq!(mount_prefix("."), "/static");
}

#[test]
fn later_root_replaces_earlier_mount() {
    let set = ContentRootSet::new(owned(&["./a/assets", "./b/assets"]));
    let mounts = compose_mounts(&set);
    assert_eq!(mounts.len(), 1);
    assert_eq!(mounts[0].prefix, "/assets");
    assert_eq!(mounts[0].dir, "./b/assets");
    assert_eq!(dispatch("GET", "/assets/logo.png", &mounts), Dispatch::Mount(0));
    assert_eq!(dispatch("GET", "/assets", &mounts), Dispatch::Mount(0));
}

#[test]
fn collision_keeps_first_position() {
    let set = ContentRootSet::new(owned(&["x/assets", "y/styles", "z/assets", "."]));
    let mounts = compose_mounts(&set);
    let got: Vec<(String, String)> =
        mounts.iter().map(|m| (m.prefix.clone(), m.dir.clone())).collect();
    assert_eq!(
        got,
        vec![
            ("/assets".to_string(), "z/assets".to_string()),
            ("/styles".to_string(), "y/styles".to_string()),
            ("/static".to_string(), ".".to_string()),
        ]
    );
}

#[test]
fn default_roots_mounts() {
    let mounts = compose_mounts(&ContentRootSet::from_config(None));
    let prefixes: Vec<String> = mounts.iter().map(|m| m.prefix.clone()).collect();
    assert_eq!(prefixes, owned(&["/pages", "/assets", "/styles", "/static"]));
}

#[test]
fn logical_routes_take_precedence_over_mounts() {
    let set = ContentRootSet::new(owned(&["site/services", "site/index"]));
    let mounts = compose_mounts(&set);
    assert_eq!(dispatch("GET", "/services", &mounts), Dispatch::Page(LogicalPage::Services));
    assert_eq!(dispatch("GET", "/index", &mounts), Dispatch::Page(LogicalPage::Home));
    assert_eq!(dispatch("GET", "/services/a.html", &mounts), Dispatch::Mount(0));
    assert_eq!(dispatch("HEAD", "/", &mounts), Dispatch::Page(LogicalPage::Index));
}

#[test]
fn logical_routes_answer_reads_only() {
    let mounts = compose_mounts(&ContentRootSet::from_config(None));
    assert_eq!(dispatch("POST", "/about-us", &mounts), Dispatch::MethodNotAllowed);
    assert_eq!(dispatch("POST", "/nowhere", &mounts), Dispatch::NotFound);
}

#[test]
fn unrouted_path_is_not_found() {
    let mounts = compose_mounts(&ContentRootSet::from_config(None));
    assert_eq!(dispatch("GET", "/nonexistent", &mounts), Dispatch::NotFound);
    assert_eq!(dispatch("GET", "/assetsx/a.css", &mounts), Dispatch::NotFound);
    let r = not_found_response(&probes(&[None, None]));
    assert_eq!(r.status, 404);
    assert_eq!(r.body, "Page not found");
}

#[test]
fn mount_coverage_and_sub_paths() {
    assert!(mount_covers("/assets", "/assets"));
    assert!(mount_covers("/assets", "/assets/"));
    assert!(mount_covers("/assets", "/assets/css/site.css"));
    assert!(!mount_covers("/assets", "/assetsx"));
    assert!(!mount_covers("/assets", "/asset"));
    assert_eq!(mount_sub_path("/assets", "/assets"), "/");
    assert_eq!(mount_sub_path("/assets", "/assets/"), "/");
    assert_eq!(mount_sub_path("/assets", "/assets/css/site.css"), "/css/site.css");
}

#[test]
fn first_root_wins() {
    let r = resolve(&probes(&[Some("A home"), Some("B home")]));
    assert_eq!(r.unwrap(), "A home");
}

#[test]
fn missing_and_unreadable_roots_are_skipped() {
    let r = resolve(&probes(&[None, None, Some("third")]));
    assert_eq!(r.unwrap(), "third");
    assert_eq!(resolve(&probes(&[None, None])), Err(AppError::NotFound));
    assert_eq!(resolve(&Vec::new()), Err(AppError::NotFound));
}

#[test]
fn found_page_is_served_with_ok() {
    let r = page_response(&probes(&[None, Some("<p>home</p>")]), &probes(&[Some("custom")]));
    assert_eq!(r.status, STATUS_OK);
    assert_eq!(r.body, "<p>home</p>");
}

#[test]
fn missing_page_gets_custom_not_found() {
    let r = page_response(&probes(&[None, None]), &probes(&[None, Some("custom 404"), Some("other")]));
    assert_eq!(r.status, STATUS_NOT_FOUND);
    assert_eq!(r.body, "custom 404");
}

#[test]
fn missing_page_without_custom_gets_fallback() {
    let r = page_response(&probes(&[None]), &probes(&[None, None]));
    assert_eq!(r.status, 404);
    assert_eq!(r.body, "Page not found");
}

#[test]
fn not_found_body_prefers_custom_page() {
    assert_eq!(not_found_body(&probes(&[Some("oops")])), "oops");
    assert_eq!(not_found_body(&probes(&[])), "Page not found");
}

#[test]
fn error_response_is_plain_not_found() {
    let r = AppError::NotFound.into_response();
    assert_eq!(r.status, 404);
    assert_eq!(r.body, "Page not found");
}

#[test]
fn identical_requests_identical_responses() {
    let mounts = compose_mounts(&ContentRootSet::from_config(None));
    let page = probes(&[None, Some("same")]);
    let nf = probes(&[Some("nf")]);
    assert_eq!(dispatch("GET", "/services", &mounts), dispatch("GET", "/services", &mounts));
    let a = page_response(&page, &nf);
    let b = page_response(&page, &nf);
    assert_eq!((a.status, a.body), (b.status, b.body));
    let c = page_response(&probes(&[None]), &nf);
    let d = page_response(&probes(&[None]), &nf);
    assert_eq!((c.status, c.body), (d.status, d.body));
}

#[test]
fn about_us_scenario() {
    let set = ContentRootSet::from_config(Some("/srv/site"));
    let mounts = compose_mounts(&set);
    assert_eq!(mounts.len(), 1);
    assert_eq!(mounts[0].prefix, "/site");
    assert_eq!(dispatch("GET", "/about-us", &mounts), Dispatch::Page(LogicalPage::AboutUs));
    let present = page_response(&probes(&[Some("<h1>About</h1>")]), &probes(&[None]));
    assert_eq!(present.status, 200);
    assert_eq!(present.body, "<h1>About</h1>");
    let deleted_with_custom = page_response(&probes(&[None]), &probes(&[Some("<h1>Missing</h1>")]));
    assert_eq!(deleted_with_custom.status, 404);
    assert_eq!(deleted_with_custom.body, "<h1>Missing</h1>");
    let deleted_plain = page_response(&probes(&[None]), &probes(&[None]));
    assert_eq!(deleted_plain.status, 404);
    assert_eq!(deleted_plain.body, "Page not found");
}
