//! Plugins: the registry, the order in which they come up, and what they may ask.

use rskynet::plugin::host::{
    command_failed, command_unhandled, event_failed, BuildState, Dispatch, PluginCtx, PluginHost,
    PluginHostConfig, PluginMount, PluginSpec, Received,
};
use rskynet::plugin::order::order;
use rskynet::plugin::registry::{
    sort_descriptors, CommandId, PluginDescriptor, PluginRegistry,
};

fn descriptor(namespace: &str, name: &str, dependencies: &[&str]) -> PluginDescriptor {
    descriptor_with(namespace, name, dependencies, &[])
}

fn descriptor_with(
    namespace: &str,
    name: &str,
    dependencies: &[&str],
    commands: &[u32],
) -> PluginDescriptor {
    PluginDescriptor {
        namespace: namespace.into(),
        name: name.into(),
        dependencies: dependencies.iter().map(|d| d.to_string()).collect(),
        commands: commands.iter().map(|c| CommandId(*c)).collect(),
        factory: 0,
        source: name.into(),
    }
}

fn config(names: &[&str]) -> PluginHostConfig {
    PluginHostConfig {
        plugins: names.iter().map(|name| PluginSpec::new(name)).collect(),
    }
}

fn host(descriptors: Vec<PluginDescriptor>) -> PluginHost {
    let registry = PluginRegistry::from_descriptors(descriptors).unwrap();
    PluginHost::new("namespace", registry).unwrap()
}

#[test]
fn names_are_unique_only_inside_one_namespace() {
    let registry = PluginRegistry::from_descriptors(vec![
        descriptor("alpha", "shared", &[]),
        descriptor("beta", "shared", &[]),
    ])
    .expect("names of different namespaces may be the same");
    assert_eq!(registry.plugins("alpha"), vec!["shared"]);
    assert_eq!(registry.plugins("beta"), vec!["shared"]);

    let err = PluginRegistry::from_descriptors(vec![
        descriptor("alpha", "shared", &[]),
        descriptor("alpha", "shared", &[]),
    ])
    .expect_err("names of one namespace may not");
    assert!(err.message().contains("重复注册"));
}

#[test]
fn dependencies_are_topologically_ordered() {
    let namespace = host(vec![
        descriptor("namespace", "leaf", &["middle"]),
        descriptor("namespace", "root", &[]),
        descriptor("namespace", "middle", &["root"]),
    ]);
    let config = config(&["leaf", "root", "middle"]);
    let names: Vec<_> = namespace
        .resolve(&config)
        .unwrap()
        .into_iter()
        .map(|place| config.plugins[place].name.clone())
        .collect();
    assert_eq!(names, ["root", "middle", "leaf"]);
}

#[test]
fn missing_and_cyclic_dependencies_are_rejected() {
    let namespace = host(vec![descriptor("namespace", "dependent", &["missing"])]);
    let err = namespace
        .resolve(&config(&["dependent"]))
        .expect_err("a dependency is missing");
    assert!(err.message().contains("未启用"));

    let namespace = host(vec![
        descriptor("namespace", "left", &["right"]),
        descriptor("namespace", "right", &["left"]),
    ]);
    let err = namespace
        .resolve(&config(&["left", "right"]))
        .expect_err("they depend on each other");
    assert!(err.message().contains("依赖存在环"));
}

#[test]
fn duplicate_commands_capabilities_and_subscriptions_are_rejected() {
    let namespace = host(vec![
        descriptor_with("namespace", "left", &[], &[9]),
        descriptor_with("namespace", "right", &[], &[9]),
    ]);
    let err = namespace
        .resolve(&config(&["left", "right"]))
        .expect_err("they have the same command");
    assert!(err.message().contains("重复声明"));

    let mut left = PluginMount {
        plugin: "left".into(),
        state: BuildState::default(),
    };
    left.provide(1, "u64").unwrap();
    let mut right = PluginMount {
        plugin: "right".into(),
        state: left.state,
    };
    let err = right.provide(1, "u64").expect_err("it is offered already");
    assert!(err.message().contains("重复提供"));

    let mut mount = PluginMount {
        plugin: "left".into(),
        state: right.state,
    };
    mount.subscribe(2, "u32").unwrap();
    let err = mount
        .subscribe(2, "u32")
        .expect_err("it is subscribed already");
    assert!(err.message().contains("重复订阅"));
}

#[test]
fn faults_are_said_in_full() {
    let namespace = host(vec![
        descriptor_with("namespace", "b", &[], &[1]),
        descriptor_with("namespace", "a", &["b"], &[2]),
        descriptor("other", "c", &[]),
    ]);
    let message = |names: &[&str]| namespace.resolve(&config(names)).unwrap_err().message();
    assert!(message(&["a", " "]).contains("插件配置第 2 项的 name 不能为空"));
    assert!(message(&["b", "b"]).contains("namespace `namespace` 的插件 `b` 在配置中出现多次"));
    assert!(message(&["c"])
        .contains("namespace `namespace` 未注册插件 `c`；已注册：[\"a\", \"b\"]"));
    assert!(message(&["a"]).contains("namespace `namespace` 的插件 `a` 依赖未启用的插件 `b`"));
    assert!(PluginHost::new("  ", PluginRegistry::new()).is_err());
}

#[test]
fn an_order_or_a_way_back() {
    assert_eq!(order(&vec![vec![1, 2], vec![2], vec![]]), Ok(vec![2, 1, 0]));
    assert_eq!(order(&vec![vec![1], vec![2], vec![1]]), Err(1));
    assert_eq!(order(&vec![vec![0]]), Err(0));
    assert_eq!(order(&vec![]), Ok(vec![]));
}

#[test]
fn descriptors_are_put_in_order() {
    let sorted = sort_descriptors(vec![
        descriptor("b", "a", &[]),
        descriptor("a", "b", &[]),
        descriptor("a", "a", &[]),
    ]);
    let names: Vec<_> = sorted
        .iter()
        .map(|d| format!("{}/{}", d.namespace, d.name))
        .collect();
    assert_eq!(names, ["a/a", "a/b", "b/a"]);
}

fn running() -> PluginHost {
    let mut host = host(vec![
        descriptor_with("namespace", "base", &[], &[1, 2]),
        descriptor_with("namespace", "user", &["base"], &[3]),
        descriptor_with("namespace", "stranger", &[], &[]),
    ]);
    let plan = host.plan(&config(&["user", "base", "stranger"])).unwrap();
    assert_eq!(plan.order, vec![1, 0, 2]);
    let mut mount = PluginMount {
        plugin: "base".into(),
        state: BuildState::default(),
    };
    mount.provide(11, "Cache").unwrap();
    mount.subscribe(21, "Tick").unwrap();
    mount.subscribe(22, "Tock").unwrap();
    mount.plugin = "user".into();
    mount.subscribe(21, "Tick").unwrap();
    let runtime = host.assemble(plan, mount.state);
    host.install(runtime);
    host
}

#[test]
fn capabilities_go_to_those_who_depend_on_them() {
    let host = running();
    let runtime = host.runtime.as_ref().unwrap();
    let ctx = |plugin| PluginCtx { plugin, runtime };
    assert_eq!(ctx("user").require(11, "Cache").unwrap(), 0);
    assert_eq!(ctx("base").require(11, "Cache").unwrap(), 0);
    assert!(ctx("stranger")
        .require(11, "Cache")
        .unwrap_err()
        .message()
        .contains("插件 `stranger` 未声明依赖 `base`，不能取得 Capability `Cache`"));
    assert!(ctx("user")
        .require(12, "Store")
        .unwrap_err()
        .message()
        .contains("插件 `user` 请求了未提供的 Capability `Store`"));
    assert_eq!(ctx("user").namespace(), "namespace");
    assert_eq!(ctx("user").plugin(), "user");
}

#[test]
fn messages_find_their_plugin() {
    let host = running();
    assert!(host.is_initialized());
    match host.dispatch(Received::Command(CommandId(3))) {
        Dispatch::Handle(plugin) => assert_eq!(plugin, "user"),
        other => panic!("{other:?}"),
    }
    match host.dispatch(Received::Event(21)) {
        Dispatch::Publish(places) => assert_eq!(places, vec![0, 2]),
        other => panic!("{other:?}"),
    }
    match host.dispatch(Received::Event(99)) {
        Dispatch::Publish(places) => assert!(places.is_empty()),
        other => panic!("{other:?}"),
    }
    match host.dispatch(Received::Command(CommandId(4))) {
        Dispatch::Refuse(text) => {
            assert_eq!(text, "plugin namespace `namespace` 收到未知命令 4")
        }
        other => panic!("{other:?}"),
    }
    match host.dispatch(Received::Other) {
        Dispatch::Refuse(text) => assert_eq!(
            text,
            "plugin namespace `namespace` 收到未封装为 CommandEnvelope 的消息"
        ),
        other => panic!("{other:?}"),
    }
}

#[test]
fn plugins_come_up_once() {
    let host = running();
    let err = host.plan(&config(&[])).unwrap_err();
    assert!(err
        .message()
        .contains("namespace `namespace` 已经初始化，不能重复装配插件"));
    let fresh = PluginHost::new("x", PluginRegistry::new()).unwrap();
    match fresh.dispatch(Received::Other) {
        Dispatch::Refuse(text) => assert_eq!(text, "plugin namespace `x` 尚未初始化"),
        other => panic!("{other:?}"),
    }
}

#[test]
fn failures_are_said() {
    assert_eq!(command_failed("p", "no"), "插件 `p` 处理命令失败：no");
    assert_eq!(event_failed("p", "E", "no"), "插件 `p` 处理事件 `E` 失败：no");
    assert!(command_unhandled(CommandId(8))
        .message()
        .contains("插件没有实现命令 8 的处理函数"));
}

#[test]
fn a_plugin_without_settings_has_an_empty_table() {
    let spec = PluginSpec::new("cache");
    assert_eq!(spec.config.as_table().map(|table| table.len()), Some(0));
    let set = spec.with_config(toml::Value::Integer(1024));
    assert_eq!(set.name, "cache");
    assert_eq!(set.config.as_integer(), Some(1024));
    assert_eq!(PluginSpec::default().name, "");
    assert!(PluginSpec::default().config.as_table().unwrap().is_empty());
}
