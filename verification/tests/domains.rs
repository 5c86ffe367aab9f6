//! The git and docker domains.

use archietect::docker_domain;
use archietect::git_domain;
use archietect::git_domain::GitFiles;
use archietect::model::Tier;
use archietect::permissions::{load, PermissionConfig};
use archietect::resource::Resource;
use archietect::table::TextMap;

fn attribute<'a>(r: &'a Resource, name: &str) -> Option<&'a str> {
    r.attributes.get(name).map(String::as_str)
}

fn of_kind<'a>(list: &'a Vec<Resource>, kind: &str) -> Vec<&'a Resource> {
    list.iter().filter(|r| r.kind == kind).collect()
}

fn service<'a>(list: &[&'a Resource], name: &str) -> &'a Resource {
    list.iter().find(|r| attribute(r, "service") == Some(name)).expect("service resource")
}

fn one_file(name: &str, text: &str) -> TextMap<String> {
    TextMap::new().with(name.to_string(), text.to_string())
}

// --- git ---

fn this_repository() -> GitFiles {
    GitFiles {
        head: Some("ref: refs/heads/main\n".to_string()),
        config: Some(
            "[core]\n\tbare = false\n[remote \"origin\"]\n\turl = https://github.com/example/Archietect.git\n\tfetch = +refs/heads/*:refs/remotes/origin/*\n[branch \"main\"]\n\tremote = origin\n".to_string(),
        ),
    }
}

#[test]
fn scan_finds_this_repository() {
    let resources = git_domain::scan("/work/archietect", Some(&this_repository()));
    let repo = resources.iter().find(|r| r.kind == "git_repository");
    assert!(repo.is_some(), "expected a git_repository resource");
    assert_eq!(repo.unwrap().domain, "git");
}

#[test]
fn scan_finds_origin_remote_pointing_at_archietect() {
    let resources = git_domain::scan("/work/archietect", Some(&this_repository()));
    let origin = resources
        .iter()
        .find(|r| r.kind == "git_remote" && attribute(r, "name") == Some("origin"));
    assert!(origin.is_some(), "expected an 'origin' remote resource");
    let url = attribute(origin.unwrap(), "url").expect("remote resource must have a url attribute");
    assert!(
        url.to_lowercase().contains("archietect"),
        "expected origin URL to reference archietect, got: {url}"
    );
    assert_eq!(origin.unwrap().evidence[0].tier, Tier::Declared);
}

#[test]
fn scan_finds_current_branch_as_observed() {
    let resources = git_domain::scan("/work/archietect", Some(&this_repository()));
    let branch = resources.iter().find(|r| r.kind == "git_branch");
    assert!(branch.is_some(), "expected a git_branch resource for a non-detached checkout");
    let branch = branch.unwrap();
    assert_eq!(branch.evidence[0].tier, Tier::Observed);
    assert!(!attribute(branch, "repository").unwrap().is_empty());
}

#[test]
fn scan_on_non_git_directory_returns_empty() {
    assert!(git_domain::scan("/tmp/archietect-git-domain-test-non-repo", None).is_empty());
}

#[test]
fn scan_if_allowed_blocks_when_git_domain_disabled() {
    let cfg = load(Some("[domains]\ngit = \"disabled\"\n"), None);
    assert!(
        git_domain::scan_if_allowed(&cfg, "/work/archietect", Some(&this_repository())).is_empty(),
        "an explicitly disabled git domain must yield no resources, even in a real git repo"
    );
}

#[test]
fn scan_if_allowed_permits_when_git_domain_enabled_by_default() {
    let cfg = PermissionConfig::default(); // no config anywhere -> git defaults enabled
    assert!(
        !git_domain::scan_if_allowed(&cfg, "/work/archietect", Some(&this_repository())).is_empty(),
        "git defaults enabled with zero config present, so this repo's own resources must appear"
    );
}

#[test]
fn a_detached_head_has_no_branch() {
    let git = GitFiles {
        head: Some("0123456789abcdef0123456789abcdef01234567\n".to_string()),
        config: None,
    };
    let resources = git_domain::scan("/work/archietect", Some(&git));
    assert_eq!(of_kind(&resources, "git_repository").len(), 1);
    assert!(of_kind(&resources, "git_branch").is_empty());
    assert!(of_kind(&resources, "git_remote").is_empty());
}

#[test]
fn every_remote_of_a_config_is_read() {
    let found = git_domain::remotes(
        "[remote \"origin\"]\n  url = a\n[remote \"upstream\"]\n  url = b\n[other]\n  url = c\n",
    );
    assert_eq!(
        found,
        vec![("origin".to_string(), "a".to_string()), ("upstream".to_string(), "b".to_string())]
    );
}

// --- docker ---

fn docker_enabled() -> PermissionConfig {
    load(None, Some("[domains]\ndocker = \"enabled\"\n"))
}

#[test]
fn scan_finds_dockerfile_base_image() {
    let files = one_file("Dockerfile", "FROM node:20-alpine AS build\nWORKDIR /app\nCOPY . .\n");
    let resources = docker_domain::scan("/p", &files);
    let image = resources.iter().find(|r| r.kind == "docker_image");
    assert!(image.is_some(), "expected a docker_image resource");
    let image = image.unwrap();
    assert_eq!(image.domain, "docker");
    assert_eq!(attribute(image, "image"), Some("node:20-alpine"));
    assert_eq!(image.evidence[0].tier, Tier::Declared);
}

#[test]
fn scan_finds_compose_service_with_image_and_ports() {
    let files = one_file(
        "docker-compose.yml",
        "version: \"3\"\nservices:\n  web:\n    image: myapp:latest\n    ports:\n      - \"3000:3000\"\n      - \"3001:3001\"\n  redis:\n    image: redis:7\n",
    );
    let resources = docker_domain::scan("/p", &files);
    let services = of_kind(&resources, "docker_service");
    assert_eq!(services.len(), 2, "expected two services");

    let web = service(&services, "web");
    assert_eq!(attribute(web, "image"), Some("myapp:latest"));
    assert_eq!(attribute(web, "ports"), Some("3000:3000,3001:3001"));
    assert_eq!(web.evidence[0].tier, Tier::Declared);

    let redis = service(&services, "redis");
    assert_eq!(attribute(redis, "image"), Some("redis:7"));
}

#[test]
fn scan_on_project_with_no_docker_files_returns_empty() {
    assert!(docker_domain::scan("/p", &TextMap::new()).is_empty());
}

#[test]
fn scan_if_allowed_blocks_by_default_with_zero_config() {
    let files = one_file("Dockerfile", "FROM alpine\n");
    let cfg = PermissionConfig::default();
    assert!(
        docker_domain::scan_if_allowed(&cfg, "/p", &files).is_empty(),
        "docker must default to disabled with zero config present, unlike git"
    );
}

#[test]
fn scan_if_allowed_permits_when_explicitly_enabled() {
    let files = one_file("Dockerfile", "FROM alpine\n");
    assert!(
        !docker_domain::scan_if_allowed(&docker_enabled(), "/p", &files).is_empty(),
        "an explicit project-level enable must permit scanning"
    );
}

#[test]
fn scan_captures_build_context_block_form_and_shorthand() {
    let files = one_file(
        "docker-compose.yml",
        "services:\n  api:\n    build:\n      context: ./backend\n      dockerfile: Dockerfile.prod\n  worker:\n    build: ./worker-src\n  cache:\n    image: redis:7\n",
    );
    let resources = docker_domain::scan("/p", &files);
    let services = of_kind(&resources, "docker_service");
    assert_eq!(services.len(), 3, "expected three services");

    let api = service(&services, "api");
    assert_eq!(attribute(api, "build_context"), Some("./backend"));
    assert_eq!(attribute(api, "build_dockerfile"), Some("Dockerfile.prod"));

    let worker = service(&services, "worker");
    assert_eq!(
        attribute(worker, "build_context"),
        Some("./worker-src"),
        "shorthand `build: ./dir` form must be captured as the context"
    );

    let cache = service(&services, "cache");
    assert!(
        attribute(cache, "build_context").is_none(),
        "a plain image: service must have no build_context"
    );
}

#[test]
fn scan_observed_blocked_by_default_with_zero_config() {
    let files = one_file("docker-compose.yml", "services:\n  web:\n    image: nginx:alpine\n");
    let cfg = PermissionConfig::default();
    let live = TextMap::new().with(
        "docker-compose.yml".to_string(),
        TextMap::new().with("web".to_string(), "running".to_string()),
    );
    assert!(
        docker_domain::scan_observed(&cfg, "/p", &files, &live).is_empty(),
        "docker observe must respect the same default-disabled gate as the declarative scan"
    );
}

#[test]
fn scan_observed_returns_empty_for_compose_file_with_no_declared_services() {
    let text = "version: \"3\"\n";
    let files = one_file("docker-compose.yml", text);
    assert!(
        !docker_domain::worth_observing(text),
        "a compose file declaring no services must never trigger a live docker call"
    );
    assert!(docker_domain::scan_observed(&docker_enabled(), "/p", &files, &TextMap::new()).is_empty());
}

#[test]
fn live_compose_states_returns_none_for_a_compose_file_docker_cannot_run_against() {
    let result = docker_domain::live_compose_states(None);
    assert!(
        result.is_none(),
        "a compose file docker can't open must yield None, never a guessed state"
    );
}

#[test]
fn scan_observed_reports_real_running_and_stopped_services_via_real_docker_compose() {
    let files = one_file(
        "docker-compose.yml",
        "services:\n  web:\n    image: nginx:alpine\n  cache:\n    image: redis:7-alpine\n",
    );
    let states = docker_domain::live_compose_states(Some(
        "{\"Name\":\"p-web-1\",\"Service\":\"web\",\"State\":\"running\"}\n\nnot json\n",
    ))
    .unwrap();
    assert_eq!(states.len(), 1);
    let live = TextMap::new().with("docker-compose.yml".to_string(), states);

    let resources = docker_domain::scan_observed(&docker_enabled(), "/p", &files, &live);
    let observed = of_kind(&resources, "docker_service_observed");
    assert_eq!(observed.len(), 2, "expected one observed resource per declared service");

    let web = service(&observed, "web");
    assert_eq!(attribute(web, "running"), Some("true"));
    assert_eq!(web.evidence[0].tier, Tier::Observed);
    assert!(web.evidence[0].what.contains("RUNNING"), "{}", web.evidence[0].what);

    let cache = service(&observed, "cache");
    assert_eq!(
        attribute(cache, "running"),
        Some("false"),
        "cache was declared but never started: must be observed NOT running, never omitted or guessed"
    );
    assert!(cache.evidence[0].what.contains("NOT running"), "{}", cache.evidence[0].what);
}

#[test]
fn quotes_around_a_yaml_value_are_taken_off() {
    assert_eq!(docker_domain::strip_yaml_quotes("\"3000:3000\""), "3000:3000");
    assert_eq!(docker_domain::strip_yaml_quotes("'a'"), "a");
    assert_eq!(docker_domain::strip_yaml_quotes("plain"), "plain");
}

#[test]
fn names_of_docker_files() {
    assert!(docker_domain::dockerfile_name("Dockerfile"));
    assert!(docker_domain::dockerfile_name("Dockerfile.prod"));
    assert!(!docker_domain::dockerfile_name("dockerfiles"));
    assert!(docker_domain::compose_name("compose.yaml"));
    assert!(!docker_domain::compose_name("compose.json"));
}

#[test]
fn only_the_reference_of_an_image_is_kept() {
    let text = "FROM --platform=linux/amd64 node:20 AS build\nFROM scratch\nfrom --a --b alpine\nFROM --platform=x\nFROM\n";
    assert_eq!(docker_domain::from_images(text), ["node:20", "scratch", "alpine"]);
}
