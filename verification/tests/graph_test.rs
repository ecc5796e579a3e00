use opm::config::Config;
use opm::graph::DependencyGraph;
use opm::os_fingerprint::{Distro, OsInfo, OS};
use opm::package::ControlFile;

fn control(name: &str) -> ControlFile {
    let info = OsInfo::new(OS::Linux(Distro::Debian), "x86_64", false).unwrap();
    let config = Config::new(&info).unwrap();
    let text = format!("Package: {}\nVersion: 1\nArchitecture: all\nMaintainer: m\nDescription: d", name);
    ControlFile::new(&config, &text).unwrap()
}

#[test]
fn dependencies_come_first() {
    let mut g = DependencyGraph::new();
    let app = Some(control("app"));
    let lib = Some(control("lib"));
    let base = Some(control("base"));
    g.register_dependency(&app, &lib);
    g.register_dependency(&lib, &base);
    g.register_dependency(&app, &base);
    g.register_dependency(&base, &None);
    assert!(g.is_registered(&app));
    assert!(g.is_registered(&None));
    assert!(!g.is_registered(&Some(control("other"))));
    let order: Vec<String> = g.install_order(&app).into_iter().map(|c| c.package).collect();
    assert_eq!(order, vec!["base".to_string(), "lib".to_string(), "app".to_string()]);
}

#[test]
fn a_lone_package_is_installed_alone() {
    let mut g = DependencyGraph::new();
    let app = Some(control("app"));
    g.register_dependency(&app, &None);
    let order = g.install_order(&app);
    assert_eq!(order.len(), 1);
    assert_eq!(order[0].package, "app");
}

#[test]
fn a_cycle_stops_the_order() {
    let mut g = DependencyGraph::new();
    let app = Some(control("app"));
    let lib = Some(control("lib"));
    g.register_dependency(&app, &lib);
    g.register_dependency(&lib, &app);
    assert!(g.install_order(&app).is_empty());
}

#[test]
fn every_reachable_package_is_listed() {
    let mut g = DependencyGraph::new();
    let app = Some(control("app"));
    let lib = Some(control("lib"));
    let base = Some(control("base"));
    let other = Some(control("other"));
    g.register_dependency(&app, &lib);
    g.register_dependency(&lib, &base);
    g.register_dependency(&other, &base);
    let order: Vec<String> = g.install_order(&app).into_iter().map(|c| c.package).collect();
    assert_eq!(order, vec!["base".to_string(), "lib".to_string(), "app".to_string()]);
}
