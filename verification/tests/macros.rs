//! What the attributes accept and refuse.

use rskynet::macros::block::{plan_block, Block, BlockPlan};
use rskynet::macros::cluster::{
    check_number, read_remote, register_name, MessageArg, MessageArgs, Remote, Returned, TypeArg,
};
use rskynet::macros::dispatch::plan_dispatch;
use rskynet::macros::plugin::{
    read_block, PluginArg, PluginArgs, PluginMethod, PluginRoute, Variant,
};
use rskynet::macros::service::{
    Arg, DebugItem, DebugMeta, Flavor, Hook, Method, MsgExpr, Part, Route, ServiceArg, ServiceArgs,
};
use rskynet::macros::shape::{Fault, Input, Spot, TypeShape};
use rskynet::macros::signal::{read_signal, symbol_name, validate, wrapper_name, Callback};
use rskynet::signal::signals::Signal;

fn path(last: &str) -> TypeShape {
    TypeShape::Path {
        last: last.into(),
        bare: true,
    }
}

fn typed(last: &str) -> Input {
    Input::Typed(path(last))
}

fn method(name: &str) -> Method {
    Method {
        name: name.into(),
        is_async: true,
        inputs: vec![Input::SharedSelf, typed("Ctx")],
        output: None,
        debugs: vec![],
        route: None,
    }
}

fn message(last: &str) -> Option<Vec<MsgExpr>> {
    Some(vec![MsgExpr::Path {
        last: last.into(),
        single: false,
    }])
}

fn fallback() -> Option<Vec<MsgExpr>> {
    Some(vec![MsgExpr::Path {
        last: "default".into(),
        single: true,
    }])
}

fn block(methods: Vec<Method>) -> Block {
    Block {
        args: ServiceArgs::new(),
        has_generics: false,
        has_trait: false,
        items: methods.into_iter().map(Some).collect(),
    }
}

fn plan(methods: Vec<Method>, flavor: Flavor) -> Result<BlockPlan, Fault> {
    plan_block(&block(methods), flavor)
}

fn refusal(methods: Vec<Method>, flavor: Flavor) -> String {
    plan(methods, flavor).unwrap_err().text
}

#[test]
fn debug_example_must_be_valid_json() {
    let mut run = method("run");
    run.inputs = vec![Input::SharedSelf, typed("String")];
    run.route = message("USER");
    run.debugs = vec![DebugMeta::List(vec![DebugItem::Example("{not json}".into())])];
    let error = plan(vec![run], Flavor::Shared).unwrap_err();
    assert!(error.text.contains("必须是合法 JSON"));
    assert_eq!(error.spot, Spot::DebugArgument(0, 0));
}

#[test]
fn a_valid_example_is_kept() {
    let mut run = method("run");
    run.route = message("USER");
    run.output = Some(path("Answer"));
    run.debugs = vec![DebugMeta::List(vec![
        DebugItem::Example("{\"a\": [1, 2]}".into()),
        DebugItem::Name("ask".into()),
    ])];
    let made = plan(vec![run], Flavor::Shared).unwrap();
    match &made.parts[0] {
        Part::Handler(handler) => {
            assert_eq!(handler.debug_name.as_deref(), Some("ask"));
            assert_eq!(handler.debug_example.as_deref(), Some("{\"a\": [1, 2]}"));
            assert!(handler.replies);
            assert!(handler.takes_ctx);
            assert_eq!(handler.arg, None);
            assert_eq!(handler.route, Route::Types);
        }
        other => panic!("{other:?}"),
    }
}

#[test]
fn methods_are_taken_over_by_name() {
    let mut other = method("helper");
    other.is_async = false;
    let mut socket = method("on_socket");
    socket.route = message("SOCKET");
    socket.inputs.push(typed("SocketEvent"));
    let mut rest = method("on_rest");
    rest.route = fallback();
    rest.inputs.push(typed("Message"));
    let made = plan(vec![method("init"), other, socket, rest], Flavor::Shared).unwrap();
    assert!(matches!(made.parts[0], Part::Hook(Hook::Init)));
    assert!(matches!(made.parts[1], Part::Leftover));
    match (&made.parts[2], &made.parts[3]) {
        (Part::Handler(socket), Part::Handler(rest)) => {
            assert_eq!(socket.arg, Some(Arg::Typed));
            assert_eq!(rest.arg, Some(Arg::Whole));
            assert_eq!(rest.route, Route::Fallback);
        }
        other => panic!("{other:?}"),
    }
    assert_eq!(made.hooks.init, Some(0));
    assert_eq!(made.hooks.dispatch, None);
    assert_eq!(made.fallback, Some(3));
}

#[test]
fn only_an_exclusive_service_idles() {
    let mut idle = method("idle");
    idle.is_async = false;
    assert!(refusal(vec![idle], Flavor::Shared).contains("只有 `#[exclusive]` 认"));
    let mut idle = method("idle");
    idle.is_async = false;
    let made = plan(vec![idle], Flavor::Exclusive).unwrap();
    assert_eq!(made.hooks.idle, Some(0));
    assert!(refusal(vec![method("idle")], Flavor::Exclusive).contains("同步钩子"));
    let mut interrupt = method("interrupt");
    interrupt.is_async = false;
    assert_eq!(
        refusal(vec![interrupt], Flavor::Exclusive),
        "`interrupt` 最多 0 个参数（除 self）"
    );
}

#[test]
fn blocks_are_refused_with_a_word() {
    let routed = |name: &str| {
        let mut m = method(name);
        m.route = message("USER");
        m
    };
    assert!(refusal(vec![routed("init")], Flavor::Shared).contains("钩子方法上不能再标 `#[msg]`"));
    assert!(refusal(vec![method("dispatch"), routed("a")], Flavor::Shared).contains("只能选一种"));
    assert!(refusal(vec![method("init"), method("init")], Flavor::Shared).contains("写了两遍"));
    let defaults = |name: &str| {
        let mut m = method(name);
        m.route = fallback();
        m
    };
    assert_eq!(
        refusal(vec![defaults("a"), defaults("b")], Flavor::Shared),
        "`#[msg(default)]` 只能有一个"
    );
    let mut sync = routed("a");
    sync.is_async = false;
    assert!(refusal(vec![sync], Flavor::Shared).contains("`async fn`"));
    let mut many = routed("a");
    many.inputs.push(typed("A"));
    many.inputs.push(typed("B"));
    assert!(refusal(vec![many], Flavor::Shared).contains("最多两个参数"));
    let mut whole = routed("a");
    whole.inputs.push(typed("Message"));
    whole.output = Some(path("Answer"));
    assert!(refusal(vec![whole], Flavor::Shared).contains("不能有返回值"));
    let mut shown = defaults("a");
    shown.debugs = vec![DebugMeta::Bare];
    assert!(refusal(vec![shown], Flavor::Shared).contains("调试消息必须有明确协议号"));
    let mut stray = method("a");
    stray.debugs = vec![DebugMeta::Bare];
    assert!(refusal(vec![stray], Flavor::Shared).contains("只能标在 `#[msg(...)]`"));
    let mut empty = method("a");
    empty.route = Some(vec![]);
    assert!(refusal(vec![empty], Flavor::Shared).contains("要写协议号"));
    let mut owned = routed("a");
    owned.inputs[0] = Input::OtherSelf;
    let error = plan(vec![owned], Flavor::Shared).unwrap_err();
    assert_eq!(error.spot, Spot::Parameter(0, 0));
    let mut free = routed("a");
    free.inputs.remove(0);
    assert!(refusal(vec![free], Flavor::Shared).contains("第一个参数得是 `&self`"));
}

#[test]
fn replies_and_errors_are_not_shown() {
    let shown = |expr: MsgExpr| {
        let mut m = method("a");
        m.route = Some(vec![MsgExpr::Other, expr]);
        m.debugs = vec![DebugMeta::Bare];
        plan(vec![m], Flavor::Shared)
    };
    let called = |number: u8, args: usize| MsgExpr::Call {
        callee: Some("MsgType".into()),
        args,
        number: Some(number),
    };
    let error = shown(called(1, 1)).unwrap_err();
    assert_eq!(error.spot, Spot::RouteArgument(0, 1));
    assert!(shown(called(6, 1)).is_err());
    assert!(shown(called(7, 1)).is_ok());
    assert!(shown(called(6, 2)).is_ok());
    assert!(shown(MsgExpr::Path { last: "ERROR".into(), single: false }).is_err());
    assert!(shown(MsgExpr::Path { last: "TEXT".into(), single: false }).is_ok());
}

#[test]
fn a_service_that_registers_itself_is_concrete() {
    let mut args = ServiceArgs::new();
    assert_eq!(args.take(0, "crate").unwrap(), ServiceArg::Crate);
    assert_eq!(args.take(1, "factory").unwrap(), ServiceArg::Factory);
    let mut unnamed = block(vec![]);
    unnamed.args = args;
    assert!(plan_block(&unnamed, Flavor::Shared).unwrap_err().text.contains("`factory`"));
    assert_eq!(args.take(2, "name").unwrap(), ServiceArg::Name);
    assert!(args.take(3, "name").unwrap_err().text.contains("写了两遍"));
    assert!(args.take(3, "factory").unwrap_err().text.contains("写了两遍"));
    assert!(args.take(3, "color").unwrap_err().text.contains("三个参数"));
    let mut generic = block(vec![]);
    generic.args = args;
    generic.has_generics = true;
    assert!(plan_block(&generic, Flavor::Shared).unwrap_err().text.contains("泛型服务"));
    let mut of_trait = block(vec![]);
    of_trait.has_trait = true;
    assert!(plan_block(&of_trait, Flavor::Shared).unwrap_err().text.contains("inherent impl"));
    assert!(plan_block(&block(vec![]), Flavor::Shared).is_ok());
}

fn plugin_method(name: &str, command: &str, variant: Option<(&str, &str)>) -> PluginMethod {
    PluginMethod {
        name: name.into(),
        is_async: true,
        typed: 1,
        output: None,
        routes: 1,
        route: Some(PluginRoute {
            command: command.into(),
            variant: variant.map(|(path, envelope)| Variant {
                segments: 2,
                path: path.into(),
                envelope: envelope.into(),
            }),
        }),
        debugs: vec![],
    }
}

fn refused_plugin(methods: Vec<PluginMethod>) -> String {
    let items = methods.into_iter().map(Some).collect();
    match read_block(false, &items, false) {
        Err(error) => error.text,
        Ok(parts) => plan_dispatch(&parts.entries).unwrap_err().text,
    }
}

#[test]
fn duplicate_plain_commands_are_rejected() {
    let error = refused_plugin(vec![
        plugin_method("first", "COMMAND", None),
        plugin_method("second", "COMMAND", None),
    ]);
    assert!(error.contains("普通 handler 写了两遍"));
}

#[test]
fn variant_commands_reject_ambiguous_groups() {
    let mixed = refused_plugin(vec![
        plugin_method("plain", "COMMAND", None),
        plugin_method("variant", "COMMAND", Some(("Request :: Ping", "Request"))),
    ]);
    assert!(mixed.contains("不能混用"));

    let different_envelope = refused_plugin(vec![
        plugin_method("first", "COMMAND", Some(("First :: Ping", "First"))),
        plugin_method("second", "COMMAND", Some(("Second :: Pong", "Second"))),
    ]);
    assert!(different_envelope.contains("同一个外层枚举"));

    let duplicate = refused_plugin(vec![
        plugin_method("first", "COMMAND", Some(("Request :: Ping", "Request"))),
        plugin_method("second", "COMMAND", Some(("Request :: Ping", "Request"))),
    ]);
    assert!(duplicate.contains("variant 写了两遍"));
}

#[test]
fn commands_are_grouped() {
    let mut shown = plugin_method("shown", "C", None);
    shown.debugs = vec![DebugMeta::List(vec![DebugItem::Name("label".into())])];
    let mut mount = plugin_method("mount", "", None);
    mount.route = None;
    mount.routes = 0;
    let items = vec![
        Some(plugin_method("a", "A", Some(("E :: X", "E")))),
        None,
        Some(plugin_method("b", "B", None)),
        Some(plugin_method("c", "A", Some(("E :: Y", "E")))),
        Some(shown),
        Some(mount),
    ];
    let parts = read_block(false, &items, false).unwrap();
    assert!(parts.has_mount);
    assert!(!parts.has_init);
    let made = plan_dispatch(&parts.entries).unwrap();
    assert_eq!(made.whole, vec![1, 3]);
    assert_eq!(made.groups, vec![vec![0, 2]]);
    assert_eq!(made.commands, vec![0, 1, 3]);
    assert_eq!(made.exposed, vec![3]);
    assert_eq!(parts.entries[3].debug_name.as_deref(), Some("label"));
    assert_eq!(parts.entries[2].place, 3);
    let all = read_block(false, &items, true).unwrap();
    assert_eq!(all.entries[0].debug_name.as_deref(), Some("a"));
}

#[test]
fn plugin_methods_are_checked() {
    let with = |change: &dyn Fn(&mut PluginMethod)| {
        let mut m = plugin_method("a", "A", Some(("X", "")));
        m.route.as_mut().unwrap().variant.as_mut().unwrap().segments = 2;
        change(&mut m);
        refused_plugin(vec![m])
    };
    assert!(with(&|m| m.is_async = false).contains("必须是 async fn"));
    assert!(with(&|m| m.typed = 3).contains("参数最多是"));
    assert!(with(&|m| m.routes = 2).contains("`#[msg]` 写了两遍"));
    assert!(with(&|m| m.debugs = vec![DebugMeta::Value]).contains("写成 `#[debug]`"));
    assert!(with(&|m| m.debugs = vec![DebugMeta::Bare, DebugMeta::Bare]).contains("写了两遍"));
    assert!(with(&|m| m.debugs = vec![DebugMeta::List(vec![DebugItem::Other])]).contains("只支持"));
    assert!(with(&|m| m.route.as_mut().unwrap().variant.as_mut().unwrap().segments = 1)
        .contains("完整路径"));
    assert!(with(&|m| {
        m.route = None;
        m.debugs = vec![DebugMeta::Bare];
    })
    .contains("只能与 `#[msg(...)]`"));
    assert!(read_block(true, &vec![], false).unwrap_err().text.contains("inherent impl"));
}

#[test]
fn plugin_arguments_are_checked() {
    let mut args = PluginArgs::new();
    assert!(args.finish().unwrap_err().text.contains("namespace"));
    assert_eq!(args.take(0, "namespace").unwrap(), PluginArg::Namespace);
    assert!(args.finish().unwrap_err().text.contains("`name"));
    assert_eq!(args.take(1, "name").unwrap(), PluginArg::Name);
    assert!(args.finish().unwrap_err().text.contains("factory"));
    assert_eq!(args.take(2, "factory").unwrap(), PluginArg::Factory);
    assert!(args.finish().is_ok());
    assert_eq!(args.take(3, "dependencies").unwrap(), PluginArg::Dependencies);
    assert_eq!(args.take(4, "debug").unwrap(), PluginArg::Debug);
    assert!(args.take(5, "debug").unwrap_err().text.contains("写了两遍"));
    assert!(args.take(6, "colour").unwrap_err().text.contains("不认识"));
}

#[test]
fn message_requires_a_nonzero_type_id() {
    assert!(check_number(None).is_err());
    assert!(check_number(Some(0)).is_err());
    assert_eq!(check_number(Some(7)).unwrap(), 7);
    let mut args = MessageArgs::new(false).unwrap();
    assert_eq!(args.take(0, "type_id").unwrap(), MessageArg::Number);
    assert!(args.take(1, "type_id").is_err());
    assert_eq!(args.take(1, "crate").unwrap(), MessageArg::Crate);
    assert!(args.take(2, "crate").is_err());
    assert!(args.take(2, "x").is_err());
    assert!(MessageArgs::new(true).is_err());
}

fn remote(inputs: Vec<Input>, output: Returned) -> Remote {
    Remote {
        is_async: true,
        has_generics: false,
        inputs,
        output,
    }
}

fn result_of(first: TypeArg, second: &str) -> Returned {
    Returned::Path {
        last: "Result".into(),
        args: Some(vec![first, TypeArg::Path(second.into())]),
    }
}

#[test]
fn handler_signature_is_checked() {
    let sync = Remote {
        is_async: false,
        has_generics: false,
        inputs: vec![],
        output: Returned::Nothing,
    };
    assert!(read_remote(&sync).is_err());
    let response = || result_of(TypeArg::Path("Response".into()), "String");
    assert!(read_remote(&remote(vec![typed("Request")], response())).is_err());
    let two = || vec![typed("RemoteContext"), typed("Request")];
    let wrong = Returned::Path {
        last: "Response".into(),
        args: None,
    };
    assert!(read_remote(&remote(two(), wrong)).is_err());
    assert_eq!(read_remote(&remote(two(), response())).unwrap(), false);
    assert_eq!(read_remote(&remote(two(), result_of(TypeArg::Unit, "String"))).unwrap(), true);
    assert!(read_remote(&remote(two(), result_of(TypeArg::Type, "Error"))).is_err());
    assert!(read_remote(&remote(two(), result_of(TypeArg::Other, "String"))).is_err());
    assert!(read_remote(&remote(two(), Returned::Other)).is_err());
    let with_self = vec![Input::SharedSelf, typed("Request")];
    assert!(read_remote(&remote(with_self, response())).unwrap_err().text.contains("self"));
    assert_eq!(register_name("f"), "__rskynet_cluster_register_f");
}

fn callback(inputs: Vec<Input>) -> Callback {
    Callback {
        is_async: false,
        is_unsafe: false,
        has_generics: false,
        has_output: false,
        inputs,
    }
}

fn shared(last: &str) -> Input {
    Input::Typed(TypeShape::Reference {
        mutable: false,
        last: Some(last.into()),
    })
}

#[test]
fn valid_callback_exports_a_signal_unique_symbol() {
    assert_eq!(read_signal("SIGTERM").unwrap(), Signal::Terminate);
    assert!(validate(&callback(vec![shared("Ctx")])).is_ok());
    assert!(symbol_name("SIGTERM").contains("__rskynet_signal_SIGTERM"));
    assert_eq!(
        wrapper_name("SIGTERM", "stop"),
        "__rskynet_signal_callback_sigterm_stop"
    );
}

#[test]
fn fatal_and_invalid_signatures_are_rejected() {
    assert!(read_signal("SIGSEGV").unwrap_err().text.contains("致命信号"));
    assert!(read_signal("SIGKILL").unwrap_err().text.contains("只支持"));
    let mut waits = callback(vec![shared("Ctx")]);
    waits.is_async = true;
    assert!(validate(&waits).is_err());
    let mut answers = callback(vec![]);
    answers.has_output = true;
    assert!(validate(&answers).is_err());
    let text = |c: Callback| validate(&c).unwrap_err().text;
    assert!(text(callback(vec![])).contains("只接收一个"));
    assert!(text(callback(vec![Input::SharedSelf])).contains("自由函数"));
    assert!(text(callback(vec![typed("Ctx")])).contains("必须是 &Ctx"));
    assert!(text(callback(vec![shared("Node")])).contains("必须是 &Ctx"));
    let mutable = Input::Typed(TypeShape::Reference {
        mutable: true,
        last: Some("Ctx".into()),
    });
    assert!(text(callback(vec![mutable])).contains("共享引用"));
}
