use h7cad::demo_plugin::DemoPlugin;
use h7cad::plugin::{all_plugins, all_ribbon_modules, try_dispatch, BuiltinPlugin, RibbonModule};
use h7cad::plugin_template;
use h7cad::studio::OpenCADStudio;

#[test]
fn try_dispatch_routes_demo_command() {
    let mut app = OpenCADStudio::new_for_test();
    assert!(try_dispatch(&mut app, 0, "DP_HELLO"));
    let info = app.command_history_info();
    assert!(
        info.iter().any(|t| t.contains("demo_plugin") && t.contains("plugin host OK")),
        "info history: {info:?}"
    );
}

#[test]
fn unknown_plugin_command_falls_through() {
    let mut app = OpenCADStudio::new_for_test();
    assert!(!try_dispatch(&mut app, 0, "DP_NOPE"));
}

#[test]
fn discovers_registered_plugins() {
    let plugins = all_plugins();
    assert!(!plugins.is_empty(), "expected at least one PluginRegistration (demo_plugin)");
    assert!(plugins.iter().any(|p| p.manifest().id == "opencad.demo_plugin"));
}

#[test]
fn addon_ribbon_tabs_merge_after_core() {
    let core = vec![RibbonModule { title: "Home" }, RibbonModule { title: "Annotate" }];
    let titles: Vec<&str> = all_ribbon_modules(core).iter().map(|m| m.title).collect();
    assert!(titles.contains(&"Demo Plugin"), "ribbon tabs: {titles:?}");
    assert_eq!(titles.len(), 2 + all_plugins().len());
    assert_eq!(titles, vec!["Home", "Annotate", "Demo Plugin"]);
}

#[test]
fn unknown_command_leaves_history_alone() {
    let mut app = OpenCADStudio::new_for_test();
    let before = app.command_history_info();
    assert!(!try_dispatch(&mut app, 0, "dp_hello"));
    assert_eq!(app.command_history_info(), before);
}

#[test]
fn demo_plugin_dispatch_greets() {
    let mut app = OpenCADStudio::new_for_test();
    assert!(DemoPlugin.dispatch(&mut app, "DP_HELLO"));
    let info = app.command_history_info();
    assert_eq!(info.last().unwrap(), "Hello from demo_plugin (plugin host OK).");
    assert_eq!(DemoPlugin.manifest().ribbon_order, 99);
    assert_eq!(DemoPlugin.manifest().command_prefixes, vec!["DP_"]);
}

#[test]
fn template_handle_answers_mp_hello_only() {
    let mut app = OpenCADStudio::new_for_test();
    assert!(plugin_template::handle(&mut app, "MP_HELLO"));
    assert_eq!(app.command_history_info().last().unwrap(), "Hello from my_plugin");
    assert!(!plugin_template::handle(&mut app, "DP_HELLO"));
    assert_eq!(app.command_history_info().len(), 3);
}

#[test]
fn ribbon_order_sort_is_stable() {
    let sorted = h7cad::plugin::sort_by_order(vec![(3, 'a'), (1, 'b'), (3, 'c'), (2, 'd'), (-5, 'e')]);
    assert_eq!(sorted, vec![(-5, 'e'), (1, 'b'), (2, 'd'), (3, 'a'), (3, 'c')]);
    assert!(h7cad::plugin::sort_by_order(Vec::<(i32, u8)>::new()).is_empty());
}

#[test]
fn registered_manifest_is_the_demo_manifest() {
    for p in h7cad::plugin::all_plugins() {
        let m = h7cad::plugin::BuiltinPlugin::manifest(&p);
        assert_eq!(m.id, h7cad::demo_plugin::PLUGIN_ID);
        assert_eq!(m.name, "Demo Plugin");
        assert_eq!(m.version, "0.1.0");
        assert_eq!(m.command_prefixes, vec!["DP_"]);
        assert!(m.xdata_apps.is_empty());
    }
}
